//! Manual stock corrections and inventory visibility. Besides a sale, this
//! is the only place stock changes: a corrected count, damaged goods, a
//! return, a transfer. Every change is a `stock_movements` row written
//! together with the human-facing adjustment record and an audit entry.

pub mod error;
pub mod laws;
pub use error::InventoryError;

use vstd::prelude::*;

use crate::auth::AuthenticatedUser;
use crate::db::repositories::products::{list_low_stock, lists_low_stock, live, ProductRow};
use crate::db::repositories::stock_movements::{lists_movements, opt_str, opt_text, MovementRow};
use crate::db::repositories::{audit_logs, stock_adjustments, stock_movements};
use crate::db::{constraint, has_room, room, same_except_stock, valid_id, Database, DbError, Table};
use crate::sales::pricing::fits;
use crate::text::{decimal, i64_to_string, join, owned, text_is, trim, trim_str};

verus! {

pub struct StockAdjustmentInput {
    pub product_id: i64,
    /// Positive to add stock, negative to remove it.
    pub quantity_delta: i64,
    pub reason: String,
    pub note: Option<String>,
}

pub struct StockAdjustmentResult {
    pub product_id: i64,
    pub previous_stock: i64,
    pub current_stock: i64,
}

pub struct MovementDto {
    pub id: i64,
    pub product_id: i64,
    pub product_name: String,
    pub quantity_delta: i64,
    pub reason: String,
    pub reference_type: Option<String>,
    pub reference_id: Option<String>,
    pub user_name: Option<String>,
    pub created_at: String,
}

pub struct MovementListQuery {
    pub product_id: Option<i64>,
}

impl Default for MovementListQuery {
    fn default() -> (q: MovementListQuery)
        ensures
            q.product_id is None,
    {
        MovementListQuery { product_id: None }
    }
}

pub struct LowStockProductDto {
    pub id: i64,
    pub sku: String,
    pub name: String,
    pub current_stock: i64,
    pub min_stock: i64,
}

impl MovementDto {
    pub open spec fn of(m: MovementRow) -> MovementDto {
        MovementDto {
            id: m.id,
            product_id: m.product_id,
            product_name: m.product_name,
            quantity_delta: m.quantity_delta,
            reason: m.reason,
            reference_type: m.reference_type,
            reference_id: m.reference_id,
            user_name: m.user_name,
            created_at: m.created_at,
        }
    }
}

impl LowStockProductDto {
    pub open spec fn of(p: ProductRow) -> LowStockProductDto {
        LowStockProductDto {
            id: p.id,
            sku: p.sku,
            name: p.name,
            current_stock: p.current_stock,
            min_stock: p.min_stock,
        }
    }
}

/// The reasons a person may give; `sale` and `purchase` movements are only
/// written by the system.
pub open spec fn is_adjust_reason(r: Seq<char>) -> bool {
    r == "adjustment"@ || r == "return"@ || r == "damage"@ || r == "transfer"@
}

/// The note as stored: trimmed, and dropped when nothing is left.
pub open spec fn stored_note(note: Option<String>) -> Option<Seq<char>> {
    match note {
        Some(n) => if trim(n@).len() == 0 {
            None
        } else {
            Some(trim(n@))
        },
        None => None,
    }
}

pub open spec fn adjust_invalid(input: StockAdjustmentInput) -> Option<Seq<char>> {
    if input.quantity_delta == 0 {
        Some("Quantity change must not be zero"@)
    } else if !is_adjust_reason(input.reason@) {
        Some("Reason must be one of: adjustment, return, damage, transfer"@)
    } else {
        None
    }
}

pub open spec fn stock_json(stock: int) -> Seq<char> {
    "{\"current_stock\":"@ + decimal(stock) + "}"@
}

/// `new` is `old` with the adjustment written: the adjustment record, its
/// movement (referring to it), the product's stock set to `new_stock`, and
/// a `STOCK_ADJUSTED` audit entry with the stock before and after.
pub open spec fn stock_adjusted(
    old: &Database,
    new: &Database,
    user_id: i64,
    input: StockAdjustmentInput,
    new_stock: int,
) -> bool {
    let pid = input.product_id;
    let a = new.adjustments@.last();
    let m = new.movements@.last();
    let e = new.audit_logs@.last();
    let adjustment_id = old.adjustments@.len() as int + 1;
    &&& new.adjustments@.len() == old.adjustments@.len() + 1
    &&& new.adjustments@.drop_last() == old.adjustments@
    &&& a.id == adjustment_id
    &&& a.product_id == pid
    &&& a.quantity_delta == input.quantity_delta
    &&& a.reason@ == input.reason@
    &&& opt_text(a.note) == stored_note(input.note)
    &&& a.user_id == user_id
    &&& new.movements@.len() == old.movements@.len() + 1
    &&& new.movements@.drop_last() == old.movements@
    &&& m.product_id == pid
    &&& m.quantity_delta == input.quantity_delta
    &&& m.reason@ == input.reason@
    &&& opt_text(m.reference_type) == Some("stock_adjustment"@)
    &&& opt_text(m.reference_id) == Some(decimal(adjustment_id))
    &&& m.user_id == Some(user_id)
    &&& m.created_at@ == old.clock()
    &&& new.products@.len() == old.products@.len()
    &&& forall|j: int| 0 <= j < old.products@.len() && j != pid - 1 ==> #[trigger] new.products@[j] == old.products@[j]
    &&& same_except_stock(old.products@[pid - 1], new.products@[pid - 1])
    &&& new.products@[pid - 1].current_stock == new_stock
    &&& new.audit_logs@.len() == old.audit_logs@.len() + 1
    &&& new.audit_logs@.drop_last() == old.audit_logs@
    &&& e.user_id == Some(user_id)
    &&& e.device_id is None
    &&& e.action@ == "STOCK_ADJUSTED"@
    &&& e.entity_type@ == "product"@
    &&& e.entity_id@ == decimal(pid as int)
    &&& opt_text(e.before) == Some(stock_json(old.products@[pid - 1].current_stock as int))
    &&& opt_text(e.after) == Some(stock_json(new_stock))
    &&& e.ip_address is None
    &&& old.agrees_outside(new, set![Table::Adjustments, Table::Movements, Table::Products, Table::AuditLogs])
}

/// The answer to an adjustment request: it must be well formed, name a
/// product that exists, keep stock in range and not below zero, come from
/// an existing user, and fit in the store; then it is written.
pub open spec fn adjust_answer(
    old: &Database,
    new: &Database,
    user_id: i64,
    input: StockAdjustmentInput,
    r: Result<StockAdjustmentResult, InventoryError>,
) -> bool {
    match adjust_invalid(input) {
        Some(msg) => (r matches Err(InventoryError::Validation(m)) && m@ == msg) && old.same_tables(new),
        None => if !live(old, input.product_id) {
            r matches Err(InventoryError::ProductNotFound) && old.same_tables(new)
        } else {
            let p = old.products@[input.product_id - 1];
            let ns = p.current_stock + input.quantity_delta;
            if !fits(ns) {
                r matches Err(InventoryError::Db(DbError::Overflow)) && old.same_tables(new)
            } else if ns < 0 {
                (r matches Err(InventoryError::WouldGoNegative { product_name, current_stock, requested_delta })
                    && product_name@ == p.name@ && current_stock == p.current_stock && requested_delta
                    == input.quantity_delta) && old.same_tables(new)
            } else if !valid_id(user_id, old.users@.len()) {
                (r matches Err(InventoryError::Db(DbError::Constraint(m))) && m@ == "FOREIGN KEY constraint failed"@)
                    && old.same_tables(new)
            } else if !room(old.adjustments@.len()) || !room(old.movements@.len()) || !room(old.audit_logs@.len()) {
                r matches Err(InventoryError::Db(DbError::Full)) && old.same_tables(new)
            } else {
                r matches Ok(res) && res.product_id == input.product_id && res.previous_stock == p.current_stock
                    && res.current_stock == ns && stock_adjusted(old, new, user_id, input, ns)
            }
        },
    }
}

fn is_adjust_reason_text(r: &String) -> (b: bool)
    ensures
        b == is_adjust_reason(r@),
{
    text_is(r, "adjustment") || text_is(r, "return") || text_is(r, "damage") || text_is(r, "transfer")
}

fn stock_json_exec(stock: i64) -> (s: String)
    ensures
        s@ == stock_json(stock as int),
{
    let a = join("{\"current_stock\":", i64_to_string(stock).as_str());
    let s = join(a.as_str(), "}");
    assert(s@ =~= stock_json(stock as int));
    s
}

/// Applies a manual stock correction as `user` (see `adjust_answer`).
pub fn adjust_stock(db: &mut Database, user: &AuthenticatedUser, input: StockAdjustmentInput) -> (r: Result<
    StockAdjustmentResult,
    InventoryError,
>)
    requires
        old(db).wf(),
    ensures
        final(db).wf(),
        adjust_answer(old(db), final(db), user.id, input, r),
{
    if input.quantity_delta == 0 {
        return Err(InventoryError::Validation(owned("Quantity change must not be zero")));
    }
    if !is_adjust_reason_text(&input.reason) {
        return Err(
            InventoryError::Validation(owned("Reason must be one of: adjustment, return, damage, transfer")),
        );
    }
    let note: Option<&str> = match &input.note {
        Some(n) => {
            let t = trim_str(n.as_str());
            if t.unicode_len() == 0 {
                None
            } else {
                Some(t)
            }
        },
        None => None,
    };
    assert(opt_str(note) == stored_note(input.note));
    let pid = input.product_id;
    if !(1 <= pid && pid as u64 <= db.products.len() as u64) || db.products[(pid - 1) as usize].deleted {
        return Err(InventoryError::ProductNotFound);
    }
    let p = &db.products[(pid - 1) as usize];
    let previous = p.current_stock;
    let new_stock = match previous.checked_add(input.quantity_delta) {
        Some(v) => v,
        None => {
            return Err(InventoryError::Db(DbError::Overflow));
        },
    };
    if new_stock < 0 {
        return Err(
            InventoryError::WouldGoNegative {
                product_name: p.name.clone(),
                current_stock: previous,
                requested_delta: input.quantity_delta,
            },
        );
    }
    if !(1 <= user.id && user.id as u64 <= db.users.len() as u64) {
        return Err(InventoryError::Db(constraint("FOREIGN KEY constraint failed")));
    }
    if !has_room(db.adjustments.len()) || !has_room(db.movements.len()) || !has_room(db.audit_logs.len()) {
        return Err(InventoryError::Db(DbError::Full));
    }
    let ghost db0 = *db;
    let adjustment_id = match stock_adjustments::insert(
        db,
        pid,
        input.quantity_delta,
        input.reason.as_str(),
        note,
        user.id,
    ) {
        Ok(id) => id,
        Err(e) => {
            return Err(InventoryError::Db(e));
        },
    };
    let ref_id = i64_to_string(adjustment_id);
    let ghost db1 = *db;
    let m = stock_movements::insert(
        db,
        pid,
        input.quantity_delta,
        input.reason.as_str(),
        Some("stock_adjustment"),
        Some(ref_id.as_str()),
        Some(user.id),
    );
    assert(m is Ok);
    let ghost db2 = *db;
    let before = stock_json_exec(previous);
    let after = stock_json_exec(new_stock);
    let entity = i64_to_string(pid);
    let a = audit_logs::insert(
        db,
        Some(user.id),
        None,
        "STOCK_ADJUSTED",
        "product",
        entity.as_str(),
        Some(before.as_str()),
        Some(after.as_str()),
        None,
    );
    assert(a is Ok);
    proof {
        assert(db.adjustments@ == db1.adjustments@);
        assert(db.movements@ == db2.movements@);
        assert(db.products@ == db2.products@);
    }
    Ok(StockAdjustmentResult { product_id: pid, previous_stock: previous, current_stock: new_stock })
}

/// The 200 most recent movements (of one product, when the query names
/// one), newest first.
pub fn list_movements(db: &Database, query: MovementListQuery) -> (r: Result<Vec<MovementDto>, InventoryError>)
    requires
        db.wf(),
    ensures
        r matches Ok(v) && exists|rows: Seq<MovementRow>|
            #[trigger] lists_movements(db, query.product_id, 200, rows) && v@ == rows.map_values(
                |m: MovementRow| MovementDto::of(m),
            ),
{
    let found = stock_movements::list(db, query.product_id, 200);
    let ghost mrows = found@;
    let mut out: Vec<MovementDto> = Vec::new();
    let mut rows = found;
    let mut k: usize = 0;
    let n = rows.len();
    while k < n
        invariant
            n == mrows.len(),
            k <= n,
            rows@ == mrows.subrange(k as int, n as int),
            out@ == mrows.take(k as int).map_values(|m: MovementRow| MovementDto::of(m)),
        decreases n - k,
    {
        let m = rows.remove(0);
        proof {
            assert(m == mrows[k as int]);
        }
        out.push(
            MovementDto {
                id: m.id,
                product_id: m.product_id,
                product_name: m.product_name,
                quantity_delta: m.quantity_delta,
                reason: m.reason,
                reference_type: m.reference_type,
                reference_id: m.reference_id,
                user_name: m.user_name,
                created_at: m.created_at,
            },
        );
        k = k + 1;
        proof {
            assert(rows@ =~= mrows.subrange(k as int, n as int));
            assert(out@ =~= mrows.take(k as int).map_values(|m: MovementRow| MovementDto::of(m)));
        }
    }
    assert(mrows.take(n as int) =~= mrows);
    Ok(out)
}

/// The live, active products at or below their minimum stock, by name.
pub fn low_stock(db: &Database) -> (r: Result<Vec<LowStockProductDto>, InventoryError>)
    requires
        db.wf(),
    ensures
        r matches Ok(v) && exists|rows: Seq<ProductRow>|
            #[trigger] lists_low_stock(db, rows) && v@ == rows.map_values(|p: ProductRow| LowStockProductDto::of(p)),
{
    let found = list_low_stock(db);
    let ghost prows = found@;
    let mut out: Vec<LowStockProductDto> = Vec::new();
    let mut rows = found;
    let mut k: usize = 0;
    let n = rows.len();
    while k < n
        invariant
            n == prows.len(),
            k <= n,
            rows@ == prows.subrange(k as int, n as int),
            out@ == prows.take(k as int).map_values(|p: ProductRow| LowStockProductDto::of(p)),
        decreases n - k,
    {
        let p = rows.remove(0);
        proof {
            assert(p == prows[k as int]);
        }
        out.push(
            LowStockProductDto {
                id: p.id,
                sku: p.sku,
                name: p.name,
                current_stock: p.current_stock,
                min_stock: p.min_stock,
            },
        );
        k = k + 1;
        proof {
            assert(rows@ =~= prows.subrange(k as int, n as int));
            assert(out@ =~= prows.take(k as int).map_values(|p: ProductRow| LowStockProductDto::of(p)));
        }
    }
    assert(prows.take(n as int) =~= prows);
    Ok(out)
}

} // verus!
