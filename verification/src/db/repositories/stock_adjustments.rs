use vstd::prelude::*;

use crate::db::{constraint, has_room, next_id, room, valid_id, AdjustmentRecord, Database, DbError, Table};
use crate::db::repositories::stock_movements::{opt_str, opt_text};

verus! {

/// The human-facing record behind a manual stock correction. Each one
/// goes with exactly one `stock_movements` row, which the caller writes.
pub fn insert(
    db: &mut Database,
    product_id: i64,
    quantity_delta: i64,
    reason: &str,
    note: Option<&str>,
    user_id: i64,
) -> (r: Result<i64, DbError>)
    requires
        old(db).wf(),
    ensures
        final(db).wf(),
        !(valid_id(product_id, old(db).products@.len()) && valid_id(user_id, old(db).users@.len())) ==> {
            &&& r matches Err(DbError::Constraint(m))
            &&& m@ == "FOREIGN KEY constraint failed"@
        },
        valid_id(product_id, old(db).products@.len()) && valid_id(user_id, old(db).users@.len()) && !room(
            old(db).adjustments@.len(),
        ) ==> r matches Err(DbError::Full),
        valid_id(product_id, old(db).products@.len()) && valid_id(user_id, old(db).users@.len()) && room(
            old(db).adjustments@.len(),
        ) ==> r is Ok,
        r is Err ==> old(db).same_tables(final(db)),
        r matches Ok(id) ==> {
            let a = final(db).adjustments@.last();
            &&& valid_id(product_id, old(db).products@.len())
            &&& valid_id(user_id, old(db).users@.len())
            &&& room(old(db).adjustments@.len())
            &&& id == old(db).adjustments@.len() + 1
            &&& final(db).adjustments@.drop_last() == old(db).adjustments@
            &&& final(db).adjustments@.len() == id
            &&& a.id == id
            &&& a.product_id == product_id
            &&& a.quantity_delta == quantity_delta
            &&& a.reason@ == reason@
            &&& opt_text(a.note) == opt_str(note)
            &&& a.user_id == user_id
            &&& old(db).agrees_outside(final(db), set![Table::Adjustments])
        },
{
    if product_id < 1 || product_id as u64 > db.products.len() as u64 || user_id < 1 || user_id as u64
        > db.users.len() as u64 {
        return Err(constraint("FOREIGN KEY constraint failed"));
    }
    if !has_room(db.adjustments.len()) {
        return Err(DbError::Full);
    }
    let id = next_id(db.adjustments.len());
    let note = match note {
        Some(v) => Some(v.to_owned()),
        None => None,
    };
    db.adjustments.push(
        AdjustmentRecord { id, product_id, quantity_delta, reason: reason.to_owned(), note, user_id },
    );
    assert(db.adjustments@.drop_last() =~= old(db).adjustments@);
    Ok(id)
}

} // verus!
