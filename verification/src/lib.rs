//! Point-of-sale core: catalog, authentication and permissions, stock
//! and checkout, over a store whose rules are verified.

pub mod text;
pub mod order;
pub mod db;
pub mod auth;
pub mod sales;
pub mod inventory;
pub mod catalog;
pub mod error;
