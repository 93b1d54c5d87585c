use vstd::prelude::*;

use crate::db::DbError;

verus! {

/// Why a checkout, a lookup or a cancellation failed.
#[derive(Debug)]
pub enum SalesError {
    /// The request itself is wrong; the text says how.
    Validation(String),
    ProductNotFound,
    /// The cart asks for more of a product than it has; `available` is its
    /// stock before the sale, `requested` the quantity of the line that ran out.
    InsufficientStock { product_name: String, available: i64, requested: i64 },
    SaleNotFound,
    /// The sale is not in a state that allows the change; holds its status.
    InvalidStatusTransition(String),
    /// The idempotency key is already held by a sale made from a different
    /// request.
    IdempotencyConflict,
    Db(DbError),
}

} // verus!
