//! Reads and writes of single tables, with the semantics of the statements
//! the point of sale issues against them.
pub mod units;
pub mod brands;
pub mod categories;
pub mod discounts;
pub mod taxes;
pub mod products;
pub mod stock_movements;
pub mod users;
pub mod rbac;
pub mod audit_logs;
pub mod stock_adjustments;
pub mod sales;
