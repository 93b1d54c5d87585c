//! What stock adjustments promise, alone and together, and which products
//! the low-stock list shows.

use vstd::prelude::*;

use crate::db::repositories::products::{lists_low_stock, ProductRow};
use crate::db::{room, valid_id, Database};
use crate::inventory::{
    adjust_answer, adjust_invalid, InventoryError, LowStockProductDto, StockAdjustmentInput, StockAdjustmentResult,
};
use crate::sales::pricing::fits;

verus! {

/// An adjustment is undone by its negation: after adjusting a product by
/// `d`, adjusting it by `-d` (as the same user, for any valid reason)
/// succeeds and gives back the stock there was before, provided the store
/// has room for the second adjustment's rows and the stock was not
/// negative to begin with.
pub proof fn law_negated_adjustment_restores_stock(
    db0: &Database,
    db1: &Database,
    db2: &Database,
    user_id: i64,
    in1: StockAdjustmentInput,
    in2: StockAdjustmentInput,
    r1: Result<StockAdjustmentResult, InventoryError>,
    r2: Result<StockAdjustmentResult, InventoryError>,
)
    requires
        db0.wf(),
        adjust_answer(db0, db1, user_id, in1, r1),
        r1 is Ok,
        db0.products@[in1.product_id - 1].current_stock >= 0,
        in2.product_id == in1.product_id,
        in2.quantity_delta == -in1.quantity_delta,
        adjust_invalid(in2) is None,
        room(db1.adjustments@.len()),
        room(db1.movements@.len()),
        room(db1.audit_logs@.len()),
        adjust_answer(db1, db2, user_id, in2, r2),
    ensures
        r2 matches Ok(x) && x.previous_stock == r1->Ok_0.current_stock && x.current_stock
            == r1->Ok_0.previous_stock,
        db2.products@[in1.product_id - 1].current_stock == db0.products@[in1.product_id - 1].current_stock,
{
    let pid = in1.product_id;
    assert(adjust_invalid(in1) is None);
    assert(db1.products@[pid - 1].deleted == db0.products@[pid - 1].deleted);
    assert(db1.users@ == db0.users@);
}

/// A person may give any of the four reasons `adjustment`, `return`,
/// `damage` and `transfer`: a nonzero adjustment with one of them, of a
/// product that exists and is not deleted, by an existing user, that keeps
/// the stock in range and not below zero, is carried out when the store
/// has room, and the product's stock becomes the old stock plus the delta.
pub proof fn law_named_reasons_are_accepted(
    old: &Database,
    new: &Database,
    user_id: i64,
    input: StockAdjustmentInput,
    r: Result<StockAdjustmentResult, InventoryError>,
)
    requires
        old.wf(),
        adjust_answer(old, new, user_id, input, r),
        input.quantity_delta != 0,
        input.reason@ == "adjustment"@ || input.reason@ == "return"@ || input.reason@ == "damage"@ || input.reason@
            == "transfer"@,
        1 <= input.product_id <= old.products@.len(),
        !old.products@[input.product_id - 1].deleted,
        0 <= old.products@[input.product_id - 1].current_stock + input.quantity_delta <= i64::MAX,
        valid_id(user_id, old.users@.len()),
        room(old.adjustments@.len()),
        room(old.movements@.len()),
        room(old.audit_logs@.len()),
    ensures
        r matches Ok(x) && x.previous_stock == old.products@[input.product_id - 1].current_stock
            && x.current_stock == old.products@[input.product_id - 1].current_stock + input.quantity_delta,
        new.products@[input.product_id - 1].current_stock == old.products@[input.product_id - 1].current_stock
            + input.quantity_delta,
{
    assert(adjust_invalid(input) is None);
    assert(fits(old.products@[input.product_id - 1].current_stock + input.quantity_delta));
}

/// Any other reason is refused, with the message that names the four, and
/// nothing is written.
pub proof fn law_other_reasons_are_refused(
    old: &Database,
    new: &Database,
    user_id: i64,
    input: StockAdjustmentInput,
    r: Result<StockAdjustmentResult, InventoryError>,
)
    requires
        adjust_answer(old, new, user_id, input, r),
        input.quantity_delta != 0,
        input.reason@ != "adjustment"@,
        input.reason@ != "return"@,
        input.reason@ != "damage"@,
        input.reason@ != "transfer"@,
    ensures
        r matches Err(InventoryError::Validation(m)) && m@ == "Reason must be one of: adjustment, return, damage, transfer"@,
        old.same_tables(new),
{
}

/// The low-stock list holds exactly the products that are not deleted,
/// are active, and have no more stock than their minimum (a product at its
/// minimum is low): each such product appears in it, and each entry is
/// such a product, shown with its stock and minimum.
pub proof fn law_low_stock_lists_every_low_product(
    db: &Database,
    rows: Seq<ProductRow>,
    v: Seq<LowStockProductDto>,
)
    requires
        db.wf(),
        lists_low_stock(db, rows),
        v == rows.map_values(|p: ProductRow| LowStockProductDto::of(p)),
    ensures
        v.len() == rows.len(),
        forall|j: int|
            0 <= j < db.products@.len() && !db.products@[j].deleted && db.products@[j].is_active
                && db.products@[j].current_stock <= db.products@[j].min_stock ==> exists|k: int|
                0 <= k < v.len() && #[trigger] v[k].id == db.products@[j].id,
        forall|k: int| 0 <= k < v.len() ==> low_entry(db, #[trigger] v[k]),
{
    let pos = choose|pos: Seq<int>|
        {
            &&& #[trigger] crate::order::enumerates_sorted(
                pos,
                db.products@.len() as int,
                crate::db::repositories::products::low(db),
                crate::db::repositories::products::product_name(db),
            )
            &&& rows.len() == pos.len()
            &&& forall|k: int| 0 <= k < pos.len() ==> crate::db::repositories::products::row_matches(db, rows[k], pos[k])
        };
    let low = crate::db::repositories::products::low(db);
    assert forall|j: int|
        0 <= j < db.products@.len() && !db.products@[j].deleted && db.products@[j].is_active
            && db.products@[j].current_stock <= db.products@[j].min_stock implies exists|k: int|
        0 <= k < v.len() && #[trigger] v[k].id == db.products@[j].id by {
        assert(low(j));
        assert(pos.contains(j));
        let k = choose|k: int| 0 <= k < pos.len() && pos[k] == j;
        assert(crate::db::repositories::products::row_matches(db, rows[k], pos[k]));
        assert(v[k].id == rows[k].id);
    }
    assert forall|k: int| #![trigger v[k]] 0 <= k < v.len() implies low_entry(db, v[k]) by {
        let j = pos[k];
        assert(low(j));
        assert(crate::db::repositories::products::row_matches(db, rows[k], pos[k]));
        assert(v[k] == LowStockProductDto::of(rows[k]));
        assert(low_at(db, v[k], j));
    }
}

/// Entry `e` shows product row `j`, which is live, active and at or below
/// its minimum stock.
pub open spec fn low_at(db: &Database, e: LowStockProductDto, j: int) -> bool {
    &&& 0 <= j < db.products@.len()
    &&& db.products@[j].id == e.id
    &&& !db.products@[j].deleted
    &&& db.products@[j].is_active
    &&& e.current_stock == db.products@[j].current_stock
    &&& e.min_stock == db.products@[j].min_stock
    &&& e.current_stock <= e.min_stock
}

pub open spec fn low_entry(db: &Database, e: LowStockProductDto) -> bool {
    exists|j: int| low_at(db, e, j)
}

} // verus!
