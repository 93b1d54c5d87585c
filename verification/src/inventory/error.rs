use vstd::prelude::*;

use crate::db::DbError;

verus! {

/// Why a stock adjustment or an inventory read failed.
#[derive(Debug)]
pub enum InventoryError {
    Validation(String),
    ProductNotFound,
    WouldGoNegative { product_name: String, current_stock: i64, requested_delta: i64 },
    Db(DbError),
}

} // verus!
