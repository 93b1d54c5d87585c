//! Cancelling a completed sale: every item's units come back into stock
//! with a `return` movement, the sale becomes `cancelled`, and the change
//! is audited, all together or not at all.

use vstd::prelude::*;

use crate::auth::AuthenticatedUser;
use crate::db::repositories::audit_logs;
use crate::db::repositories::sales as repo;
use crate::db::repositories::sales::{lemma_sale_index, lists_items, sale_index, SaleItemRow};
use crate::db::repositories::stock_movements;
use crate::db::repositories::stock_movements::opt_text;
use crate::db::{constraint, has_room, room, row_limit, same_except_stock, valid_id, Database, DbError, Table};
use crate::order::candidates;
use crate::sales::checkout::movement_for;
use crate::sales::pricing::fits;
use crate::sales::{load_sale, shows_sale, SaleDto, SalesError};
use crate::text::text_is;

verus! {

/// The units of product `pid` that the rows give back.
pub open spec fn returned(rows: Seq<SaleItemRow>, pid: i64) -> int
    decreases rows.len(),
{
    if rows.len() == 0 {
        0
    } else {
        returned(rows.drop_last(), pid) + if rows.last().product_id == pid {
            rows.last().quantity as int
        } else {
            0
        }
    }
}

proof fn lemma_returned_step(rows: Seq<SaleItemRow>, k: int, pid: i64)
    requires
        0 <= k < rows.len(),
    ensures
        returned(rows.take(k + 1), pid) == returned(rows.take(k), pid) + if rows[k].product_id == pid {
            rows[k].quantity as int
        } else {
            0
        },
{
    assert(rows.take(k + 1).drop_last() =~= rows.take(k));
}

proof fn lemma_returned_monotone(rows: Seq<SaleItemRow>, j: int, k: int, pid: i64)
    requires
        0 <= j <= k <= rows.len(),
        forall|i: int| 0 <= i < rows.len() ==> #[trigger] rows[i].quantity > 0,
    ensures
        returned(rows.take(j), pid) <= returned(rows.take(k), pid),
    decreases k - j,
{
    if j < k {
        lemma_returned_monotone(rows, j, k - 1, pid);
        lemma_returned_step(rows, k - 1, pid);
    }
}

/// Each row names an existing product and a positive quantity.
pub open spec fn rows_valid(db: &Database, rows: Seq<SaleItemRow>) -> bool {
    forall|k: int|
        0 <= k < rows.len() ==> valid_id((#[trigger] rows[k]).product_id, db.products@.len()) && rows[k].quantity > 0
}

proof fn lemma_listed_items_valid(db: &Database, id: Seq<char>, rows: Seq<SaleItemRow>)
    requires
        db.wf(),
        lists_items(db, id, rows),
    ensures
        rows_valid(db, rows),
{
    let pos = choose|pos: Seq<usize>|
        {
            &&& #[trigger] candidates(pos, db.sale_items@.len() as int, crate::db::repositories::sales::item_of(db, id))
            &&& rows.len() == pos.len()
            &&& forall|k: int|
                0 <= k < rows.len() ==> crate::db::repositories::sales::item_matches(db, rows[k], pos[k] as int)
        };
    assert forall|k: int| 0 <= k < rows.len() implies valid_id((#[trigger] rows[k]).product_id, db.products@.len())
        && rows[k].quantity > 0 by {
        assert(pos[k] < db.sale_items@.len());
        let it = db.sale_items@[pos[k] as int];
        assert(valid_id(it.product_id, db.products@.len()) && it.quantity > 0);
    }
}

/// Giving back every row in turn keeps each product's stock in range.
pub open spec fn restock_fits(db: &Database, rows: Seq<SaleItemRow>) -> bool {
    forall|k: int|
        0 <= k < rows.len() ==> fits(
            db.products@[#[trigger] rows[k].product_id - 1].current_stock + returned(rows.take(k + 1), rows[k].product_id),
        )
}

fn restock_fits_exec(db: &Database, rows: &Vec<SaleItemRow>) -> (r: bool)
    requires
        db.wf(),
        rows_valid(db, rows@),
    ensures
        r == restock_fits(db, rows@),
{
    let n = rows.len();
    let mut k: usize = 0;
    while k < n
        invariant
            db.wf(),
            n == rows@.len(),
            rows_valid(db, rows@),
            k <= n,
            forall|t: int|
                0 <= t < k ==> fits(
                    db.products@[#[trigger] rows@[t].product_id - 1].current_stock + returned(
                        rows@.take(t + 1),
                        rows@[t].product_id,
                    ),
                ),
        decreases n - k,
    {
        let pid = rows[k].product_id;
        let _ = db.products.len();
        let mut acc: i64 = db.products[(pid - 1) as usize].current_stock;
        let mut j: usize = 0;
        while j <= k
            invariant
                db.wf(),
                n == rows@.len(),
                rows_valid(db, rows@),
                k < n,
                j <= k + 1,
                pid == rows@[k as int].product_id,
                acc == db.products@[pid - 1].current_stock + returned(rows@.take(j as int), pid),
            decreases k + 1 - j,
        {
            proof {
                lemma_returned_step(rows@, j as int, pid);
            }
            if rows[j].product_id == pid {
                match acc.checked_add(rows[j].quantity) {
                    Some(v) => {
                        acc = v;
                    },
                    None => {
                        proof {
                            lemma_returned_monotone(rows@, j + 1, k + 1, pid);
                            assert(!fits(
                                db.products@[rows@[k as int].product_id - 1].current_stock + returned(
                                    rows@.take(k + 1),
                                    rows@[k as int].product_id,
                                ),
                            ));
                        }
                        return false;
                    },
                }
            }
            j = j + 1;
        }
        k = k + 1;
    }
    true
}

/// `new` is `old` with a `return` movement per row appended and each
/// product's stock raised by what the rows give back.
pub open spec fn returns_written(
    old: &Database,
    new: &Database,
    sale_id: Seq<char>,
    user_id: i64,
    rows: Seq<SaleItemRow>,
) -> bool {
    let mi = old.movements@.len();
    &&& new.movements@.len() == mi + rows.len()
    &&& new.movements@.take(mi as int) == old.movements@
    &&& forall|k: int|
        0 <= k < rows.len() ==> movement_for(
            #[trigger] new.movements@[mi + k],
            rows[k].product_id,
            rows[k].quantity as int,
            "return"@,
            "sale_cancellation"@,
            sale_id,
            user_id,
            old.clock(),
        )
    &&& new.products@.len() == old.products@.len()
    &&& forall|j: int|
        0 <= j < old.products@.len() ==> same_except_stock(old.products@[j], #[trigger] new.products@[j])
            && new.products@[j].current_stock == old.products@[j].current_stock + returned(rows, (j + 1) as i64)
}

fn write_returns(db: &mut Database, sale_id: &str, user_id: i64, rows: &Vec<SaleItemRow>)
    requires
        old(db).wf(),
        valid_id(user_id, old(db).users@.len()),
        rows_valid(old(db), rows@),
        old(db).movements@.len() + rows@.len() < row_limit(),
        restock_fits(old(db), rows@),
    ensures
        final(db).wf(),
        returns_written(old(db), final(db), sale_id@, user_id, rows@),
        old(db).agrees_outside(final(db), set![Table::Movements, Table::Products]),
{
    let ghost mi = old(db).movements@.len();
    let n = rows.len();
    let mut k: usize = 0;
    while k < n
        invariant
            db.wf(),
            n == rows@.len(),
            k <= n,
            valid_id(user_id, db.users@.len()),
            rows_valid(old(db), rows@),
            old(db).movements@.len() + rows@.len() < row_limit(),
            restock_fits(old(db), rows@),
            mi == old(db).movements@.len(),
            old(db).agrees_outside(db, set![Table::Movements, Table::Products]),
            db.movements@.len() == mi + k,
            db.movements@.take(mi as int) == old(db).movements@,
            forall|t: int|
                0 <= t < k ==> movement_for(
                    #[trigger] db.movements@[mi + t],
                    rows@[t].product_id,
                    rows@[t].quantity as int,
                    "return"@,
                    "sale_cancellation"@,
                    sale_id@,
                    user_id,
                    old(db).clock(),
                ),
            db.products@.len() == old(db).products@.len(),
            forall|j: int|
                0 <= j < old(db).products@.len() ==> same_except_stock(old(db).products@[j], #[trigger] db.products@[j])
                    && db.products@[j].current_stock == old(db).products@[j].current_stock + returned(
                    rows@.take(k as int),
                    (j + 1) as i64,
                ),
        decreases n - k,
    {
        let row = &rows[k];
        let ghost before = *db;
        proof {
            assert(valid_id(rows@[k as int].product_id, old(db).products@.len()));
            lemma_returned_step(rows@, k as int, row.product_id);
        }
        let r = stock_movements::insert(
            db,
            row.product_id,
            row.quantity,
            "return",
            Some("sale_cancellation"),
            Some(sale_id),
            Some(user_id),
        );
        assert(r is Ok);
        proof {
            assert(db.movements@.take(mi as int) =~= old(db).movements@) by {
                assert forall|t: int| 0 <= t < mi implies db.movements@[t] == old(db).movements@[t] by {
                    assert(before.movements@.take(mi as int)[t] == old(db).movements@[t]);
                }
            }
            assert forall|t: int|
                0 <= t < k + 1 implies movement_for(
                #[trigger] db.movements@[mi + t],
                rows@[t].product_id,
                rows@[t].quantity as int,
                "return"@,
                "sale_cancellation"@,
                sale_id@,
                user_id,
                old(db).clock(),
            ) by {
                if t < k {
                    assert(db.movements@[mi + t] == before.movements@[mi + t]);
                }
            }
            assert forall|j: int| 0 <= j < old(db).products@.len() implies same_except_stock(
                old(db).products@[j],
                #[trigger] db.products@[j],
            ) && db.products@[j].current_stock == old(db).products@[j].current_stock + returned(
                rows@.take(k + 1),
                (j + 1) as i64,
            ) by {
                lemma_returned_step(rows@, k as int, (j + 1) as i64);
            }
        }
        k = k + 1;
    }
    assert(rows@.take(n as int) =~= rows@);
}

/// `new` is `old` with sale row `j` cancelled: the returns written, its
/// status set to `cancelled` (nothing else of any sale changes), and a
/// `SALE_CANCELLED` audit entry.
pub open spec fn sale_cancelled(
    old: &Database,
    new: &Database,
    j: int,
    sale_id: Seq<char>,
    user_id: i64,
    rows: Seq<SaleItemRow>,
) -> bool {
    let (a, s) = (old.sales@[j], new.sales@[j]);
    let e = new.audit_logs@.last();
    &&& returns_written(old, new, sale_id, user_id, rows)
    &&& new.sales@.len() == old.sales@.len()
    &&& forall|t: int| 0 <= t < old.sales@.len() && t != j ==> #[trigger] new.sales@[t] == old.sales@[t]
    &&& s.id == a.id && s.invoice_number == a.invoice_number && s.customer_id == a.customer_id
    &&& s.user_id == a.user_id && s.subtotal == a.subtotal && s.discount_total == a.discount_total
    &&& s.tax_total == a.tax_total && s.total == a.total && s.idempotency_key == a.idempotency_key
    &&& s.created_at == a.created_at
    &&& s.status@ == "cancelled"@
    &&& new.audit_logs@.len() == old.audit_logs@.len() + 1
    &&& new.audit_logs@.drop_last() == old.audit_logs@
    &&& e.user_id == Some(user_id)
    &&& e.device_id is None
    &&& e.action@ == "SALE_CANCELLED"@
    &&& e.entity_type@ == "sale"@
    &&& e.entity_id@ == sale_id
    &&& opt_text(e.before) == Some("{\"status\":\"completed\"}"@)
    &&& opt_text(e.after) == Some("{\"status\":\"cancelled\"}"@)
    &&& e.ip_address is None
    &&& old.agrees_outside(new, set![Table::Sales, Table::Movements, Table::Products, Table::AuditLogs])
}

/// The outcome once the sale is found and `completed`, `rows` being its
/// items: the user must exist, the store must have room for the rows and
/// the stock must stay in range; then the sale is cancelled and returned.
pub open spec fn cancel_rest(
    old: &Database,
    new: &Database,
    j: int,
    sale_id: Seq<char>,
    user_id: i64,
    rows: Seq<SaleItemRow>,
    r: Result<SaleDto, SalesError>,
) -> bool {
    if !valid_id(user_id, old.users@.len()) {
        (r matches Err(SalesError::Db(DbError::Constraint(m))) && m@ == "FOREIGN KEY constraint failed"@)
            && old.same_tables(new)
    } else if !(old.movements@.len() + rows.len() < row_limit()) || !room(old.audit_logs@.len()) {
        r matches Err(SalesError::Db(DbError::Full)) && old.same_tables(new)
    } else if !restock_fits(old, rows) {
        r matches Err(SalesError::Db(DbError::Overflow)) && old.same_tables(new)
    } else {
        r matches Ok(dto) && sale_cancelled(old, new, j, sale_id, user_id, rows) && shows_sale(new, dto, j)
    }
}

/// The answer to cancelling sale `id`: an unknown sale is not found, a sale
/// that is not `completed` cannot change, otherwise see `cancel_rest`.
pub open spec fn cancel_answer(
    old: &Database,
    new: &Database,
    id: Seq<char>,
    user_id: i64,
    r: Result<SaleDto, SalesError>,
) -> bool {
    match sale_index(old, id) {
        None => r matches Err(SalesError::SaleNotFound) && old.same_tables(new),
        Some(j) => if old.sales@[j].status@ != "completed"@ {
            (r matches Err(SalesError::InvalidStatusTransition(st)) && st == old.sales@[j].status) && old.same_tables(
                new,
            )
        } else {
            exists|rows: Seq<SaleItemRow>|
                #[trigger] lists_items(old, id, rows) && cancel_rest(old, new, j, id, user_id, rows, r)
        },
    }
}

/// Cancels sale `id` as `user` (see `cancel_answer`).
pub fn cancel(db: &mut Database, id: &str, user: &AuthenticatedUser) -> (r: Result<SaleDto, SalesError>)
    requires
        old(db).wf(),
    ensures
        final(db).wf(),
        cancel_answer(old(db), final(db), id@, user.id, r),
{
    let sale = match repo::find_sale(db, id) {
        Some(s) => s,
        None => {
            return Err(SalesError::SaleNotFound);
        },
    };
    let ghost j = sale_index(db, id@)->0;
    if !text_is(&sale.status, "completed") {
        return Err(SalesError::InvalidStatusTransition(sale.status));
    }
    let rows = repo::find_items(db, id);
    proof {
        lemma_listed_items_valid(db, id@, rows@);
    }
    if !(1 <= user.id && user.id as u64 <= db.users.len() as u64) {
        return Err(SalesError::Db(constraint("FOREIGN KEY constraint failed")));
    }
    let room_for_rows = match (db.movements.len() as u64).checked_add(rows.len() as u64) {
        Some(v) => v < 0x7fff_ffff_ffff_fff0u64,
        None => false,
    };
    if !room_for_rows || !has_room(db.audit_logs.len()) {
        return Err(SalesError::Db(DbError::Full));
    }
    if !restock_fits_exec(db, &rows) {
        return Err(SalesError::Db(DbError::Overflow));
    }
    let ghost db0 = *db;
    write_returns(db, id, user.id, &rows);
    let ghost db1 = *db;
    let u = repo::update_status(db, id, "cancelled");
    let ghost db2 = *db;
    proof {
        assert forall|t: int| 0 <= t < db0.sales@.len() && t != j implies #[trigger] db2.sales@[t] == db0.sales@[t] by {
            if db0.sales@[t].id@ == id@ {
                lemma_sale_index(&db0, id@, t);
            }
        }
    }
    let a = audit_logs::insert(
        db,
        Some(user.id),
        None,
        "SALE_CANCELLED",
        "sale",
        id,
        Some("{\"status\":\"completed\"}"),
        Some("{\"status\":\"cancelled\"}"),
        None,
    );
    assert(a is Ok);
    proof {
        lemma_sale_index(db, id@, j);
    }
    let dto = match load_sale(db, id) {
        Some(d) => d,
        None => {
            return Err(SalesError::SaleNotFound);
        },
    };
    proof {
        assert(db.movements@ == db1.movements@);
        assert(db.products@ == db1.products@);
        assert(returns_written(&db0, db, id@, user.id, rows@));
    }
    Ok(dto)
}

} // verus!
