//! Checkout: validation, replay of an already-used idempotency key,
//! pricing, and the all-or-nothing write of a sale.

use vstd::prelude::*;

use crate::auth::AuthenticatedUser;
use crate::db::repositories::audit_logs;
use crate::db::repositories::sales as repo;
use crate::db::repositories::sales::{
    day_key, id_taken, invoice_number_for, lemma_sale_index, sale_conflict, sale_index, sale_with_key,
    sales_on, SaleConflict,
};
use crate::db::repositories::stock_movements;
use crate::db::repositories::stock_movements::{opt_str, opt_text};
use crate::db::{
    has_room, room, row_limit, same_except_stock, valid_id, Database, DbError, MovementRecord,
    PaymentRecord, SaleItemRecord, Table,
};
use crate::sales::pricing::{
    cart_clamps_ok, cart_pricing, checkout_invalid, drawn, first_bad_payment, fits, lemma_drawn_monotone,
    lemma_drawn_step, line_error, payment_ok, price_cart, price_line, validate_checkout, LineQuote, PricedLine,
};
use crate::sales::{load_sale, shows_sale, CheckoutInput, CheckoutResult, PaymentInput, SalesError};
use crate::text::{decimal, i64_to_string, join, text_is};

verus! {

/// The sum of the payment amounts.
pub open spec fn payments_total(ps: Seq<PaymentInput>) -> int
    decreases ps.len(),
{
    if ps.len() == 0 {
        0
    } else {
        payments_total(ps.drop_last()) + ps.last().amount
    }
}

proof fn lemma_payments_total_prefix(ps: Seq<PaymentInput>, k: int)
    requires
        0 <= k <= ps.len(),
        forall|i: int| 0 <= i < ps.len() ==> #[trigger] ps[i].amount > 0,
    ensures
        0 <= payments_total(ps.take(k)) <= payments_total(ps),
    decreases ps.len(),
{
    if k < ps.len() {
        assert(ps.drop_last().take(k) =~= ps.take(k));
        lemma_payments_total_prefix(ps.drop_last(), k);
    } else {
        assert(ps.take(k) =~= ps);
        if ps.len() > 0 {
            lemma_payments_total_prefix(ps.drop_last(), k - 1);
            assert(ps.drop_last().take(k - 1) =~= ps.drop_last());
        }
    }
}

/// The total of `ps`, or `None` when it leaves the 64-bit range.
pub fn sum_payments(ps: &Vec<PaymentInput>) -> (r: Option<i64>)
    requires
        forall|i: int| 0 <= i < ps@.len() ==> #[trigger] ps@[i].amount > 0,
    ensures
        match r {
            Some(v) => v == payments_total(ps@),
            None => !fits(payments_total(ps@)),
        },
{
    let mut total: i64 = 0;
    let mut i: usize = 0;
    while i < ps.len()
        invariant
            i <= ps@.len(),
            forall|t: int| 0 <= t < ps@.len() ==> #[trigger] ps@[t].amount > 0,
            total == payments_total(ps@.take(i as int)),
        decreases ps@.len() - i,
    {
        assert(ps@.take(i + 1).drop_last() =~= ps@.take(i as int));
        match total.checked_add(ps[i].amount) {
            Some(v) => {
                total = v;
            },
            None => {
                proof {
                    lemma_payments_total_prefix(ps@, i + 1);
                }
                return None;
            },
        }
        i = i + 1;
    }
    assert(ps@.take(ps@.len() as int) =~= ps@);
    Some(total)
}

/// What the payments recorded for sale `id` add up to.
pub open spec fn paid_for(ps: Seq<PaymentRecord>, id: Seq<char>) -> int
    decreases ps.len(),
{
    if ps.len() == 0 {
        0
    } else {
        paid_for(ps.drop_last(), id) + if ps.last().sale_id@ == id {
            ps.last().amount as int
        } else {
            0
        }
    }
}

proof fn lemma_paid_for_prefix(ps: Seq<PaymentRecord>, id: Seq<char>, k: int)
    requires
        0 <= k <= ps.len(),
        forall|i: int| 0 <= i < ps.len() ==> #[trigger] ps[i].amount > 0,
    ensures
        0 <= paid_for(ps.take(k), id) <= paid_for(ps, id),
    decreases ps.len(),
{
    if k < ps.len() {
        assert(ps.drop_last().take(k) =~= ps.take(k));
        lemma_paid_for_prefix(ps.drop_last(), id, k);
    } else {
        assert(ps.take(k) =~= ps);
        if ps.len() > 0 {
            lemma_paid_for_prefix(ps.drop_last(), id, k - 1);
            assert(ps.drop_last().take(k - 1) =~= ps.drop_last());
        }
    }
}

/// The amount paid for sale `id`, or `None` when it leaves the 64-bit range.
pub fn paid_for_sale(db: &Database, id: &str) -> (r: Option<i64>)
    requires
        db.wf(),
    ensures
        match r {
            Some(v) => v == paid_for(db.payments@, id@),
            None => !fits(paid_for(db.payments@, id@)),
        },
{
    let target = id.to_owned();
    let mut total: i64 = 0;
    let mut i: usize = 0;
    while i < db.payments.len()
        invariant
            db.wf(),
            target@ == id@,
            i <= db.payments@.len(),
            total == paid_for(db.payments@.take(i as int), id@),
        decreases db.payments@.len() - i,
    {
        assert(db.payments@.take(i + 1).drop_last() =~= db.payments@.take(i as int));
        if db.payments[i].sale_id == target {
            match total.checked_add(db.payments[i].amount) {
                Some(v) => {
                    total = v;
                },
                None => {
                    proof {
                        lemma_paid_for_prefix(db.payments@, id@, i + 1);
                    }
                    return None;
                },
            }
        }
        i = i + 1;
    }
    assert(db.payments@.take(db.payments@.len() as int) =~= db.payments@);
    Some(total)
}

/// Each line names an existing product and a positive quantity.
pub open spec fn lines_valid(db: &Database, ls: Seq<PricedLine>) -> bool {
    forall|k: int|
        0 <= k < ls.len() ==> valid_id((#[trigger] ls[k]).product_id, db.products@.len()) && ls[k].quantity > 0
}

/// Taking every line in turn keeps each product's stock in the 64-bit range.
pub open spec fn stock_fits(db: &Database, ls: Seq<PricedLine>) -> bool {
    forall|k: int|
        0 <= k < ls.len() ==> fits(
            db.products@[#[trigger] ls[k].product_id - 1].current_stock - drawn(ls.take(k + 1), ls[k].product_id),
        )
}

/// Whether taking every line keeps stock in range (see `stock_fits`).
pub fn stock_fits_exec(db: &Database, ls: &Vec<PricedLine>) -> (r: bool)
    requires
        db.wf(),
        lines_valid(db, ls@),
    ensures
        r == stock_fits(db, ls@),
{
    let n = ls.len();
    let _ = db.products.len();
    let mut k: usize = 0;
    while k < n
        invariant
            db.wf(),
            n == ls@.len(),
            lines_valid(db, ls@),
            k <= n,
            forall|t: int|
                0 <= t < k ==> fits(
                    db.products@[#[trigger] ls@[t].product_id - 1].current_stock - drawn(
                        ls@.take(t + 1),
                        ls@[t].product_id,
                    ),
                ),
        decreases n - k,
    {
        let pid = ls[k].product_id;
        let _ = db.products.len();
        let mut rem: i64 = db.products[(pid - 1) as usize].current_stock;
        let mut j: usize = 0;
        while j <= k
            invariant
                db.wf(),
                n == ls@.len(),
                lines_valid(db, ls@),
                k < n,
                j <= k + 1,
                pid == ls@[k as int].product_id,
                rem == db.products@[pid - 1].current_stock - drawn(ls@.take(j as int), pid),
            decreases k + 1 - j,
        {
            proof {
                lemma_drawn_step(ls@, j as int, pid);
            }
            if ls[j].product_id == pid {
                match rem.checked_sub(ls[j].quantity) {
                    Some(v) => {
                        rem = v;
                    },
                    None => {
                        proof {
                            lemma_drawn_monotone(ls@, j + 1, k + 1, pid);
                            assert(!fits(
                                db.products@[ls@[k as int].product_id - 1].current_stock - drawn(
                                    ls@.take(k + 1),
                                    ls@[k as int].product_id,
                                ),
                            ));
                        }
                        return false;
                    },
                }
            }
            j = j + 1;
        }
        k = k + 1;
    }
    true
}

pub open spec fn item_for(it: SaleItemRecord, sale_id: Seq<char>, l: PricedLine) -> bool {
    &&& it.sale_id@ == sale_id
    &&& it.product_id == l.product_id
    &&& it.quantity == l.quantity
    &&& it.unit_price == l.unit_price
    &&& it.discount == l.discount
    &&& it.tax == l.tax
    &&& it.line_total == l.line_total
    &&& it.discount_override == l.discount_override
}

/// Movement `m` records `delta` units of `product_id` for `reason`, with the
/// given reference, by `user_id`, at `now`.
pub open spec fn movement_for(
    m: MovementRecord,
    product_id: i64,
    delta: int,
    reason: Seq<char>,
    reference_type: Seq<char>,
    reference_id: Seq<char>,
    user_id: i64,
    now: Seq<char>,
) -> bool {
    &&& m.product_id == product_id
    &&& m.quantity_delta == delta
    &&& m.reason@ == reason
    &&& opt_text(m.reference_type) == Some(reference_type)
    &&& opt_text(m.reference_id) == Some(reference_id)
    &&& m.user_id == Some(user_id)
    &&& m.created_at@ == now
}

/// `new` is `old` with a sale item and a `sale` movement per line appended,
/// and each product's stock lowered by what the lines take of it.
pub open spec fn lines_written(
    old: &Database,
    new: &Database,
    sale_id: Seq<char>,
    user_id: i64,
    ls: Seq<PricedLine>,
) -> bool {
    let (si, mi) = (old.sale_items@.len(), old.movements@.len());
    &&& new.sale_items@.len() == si + ls.len()
    &&& new.sale_items@.take(si as int) == old.sale_items@
    &&& forall|k: int| 0 <= k < ls.len() ==> item_for(#[trigger] new.sale_items@[si + k], sale_id, ls[k])
    &&& new.movements@.len() == mi + ls.len()
    &&& new.movements@.take(mi as int) == old.movements@
    &&& forall|k: int|
        0 <= k < ls.len() ==> movement_for(
            #[trigger] new.movements@[mi + k],
            ls[k].product_id,
            -ls[k].quantity,
            "sale"@,
            "sale"@,
            sale_id,
            user_id,
            old.clock(),
        )
    &&& new.products@.len() == old.products@.len()
    &&& forall|j: int|
        0 <= j < old.products@.len() ==> same_except_stock(old.products@[j], #[trigger] new.products@[j])
            && new.products@[j].current_stock == old.products@[j].current_stock - drawn(ls, (j + 1) as i64)
}

/// Writes a sale item and a `sale` stock movement for each line.
fn write_lines(db: &mut Database, sale_id: &str, user_id: i64, ls: &Vec<PricedLine>)
    requires
        old(db).wf(),
        id_taken(old(db), sale_id@),
        valid_id(user_id, old(db).users@.len()),
        lines_valid(old(db), ls@),
        old(db).movements@.len() + ls@.len() < row_limit(),
        stock_fits(old(db), ls@),
    ensures
        final(db).wf(),
        lines_written(old(db), final(db), sale_id@, user_id, ls@),
        old(db).agrees_outside(final(db), set![Table::SaleItems, Table::Movements, Table::Products]),
{
    let ghost si = old(db).sale_items@.len();
    let ghost mi = old(db).movements@.len();
    let n = ls.len();
    let mut k: usize = 0;
    while k < n
        invariant
            db.wf(),
            n == ls@.len(),
            k <= n,
            id_taken(db, sale_id@),
            valid_id(user_id, db.users@.len()),
            lines_valid(old(db), ls@),
            old(db).movements@.len() + ls@.len() < row_limit(),
            stock_fits(old(db), ls@),
            si == old(db).sale_items@.len(),
            mi == old(db).movements@.len(),
            old(db).agrees_outside(db, set![Table::SaleItems, Table::Movements, Table::Products]),
            db.sale_items@.len() == si + k,
            db.sale_items@.take(si as int) == old(db).sale_items@,
            forall|t: int| 0 <= t < k ==> item_for(#[trigger] db.sale_items@[si + t], sale_id@, ls@[t]),
            db.movements@.len() == mi + k,
            db.movements@.take(mi as int) == old(db).movements@,
            forall|t: int|
                0 <= t < k ==> movement_for(
                    #[trigger] db.movements@[mi + t],
                    ls@[t].product_id,
                    -ls@[t].quantity,
                    "sale"@,
                    "sale"@,
                    sale_id@,
                    user_id,
                    old(db).clock(),
                ),
            db.products@.len() == old(db).products@.len(),
            forall|j: int|
                0 <= j < old(db).products@.len() ==> same_except_stock(old(db).products@[j], #[trigger] db.products@[j])
                    && db.products@[j].current_stock == old(db).products@[j].current_stock - drawn(
                    ls@.take(k as int),
                    (j + 1) as i64,
                ),
        decreases n - k,
    {
        let l = &ls[k];
        let ghost before = *db;
        proof {
            assert(valid_id(ls@[k as int].product_id, old(db).products@.len()));
            lemma_drawn_step(ls@, k as int, l.product_id);
            assert(fits(
                old(db).products@[ls@[k as int].product_id - 1].current_stock - drawn(
                    ls@.take(k + 1),
                    ls@[k as int].product_id,
                ),
            ));
        }
        let r1 = repo::insert_sale_item(
            db,
            sale_id,
            l.product_id,
            l.quantity,
            l.unit_price,
            l.discount,
            l.tax,
            l.line_total,
            l.discount_override,
        );
        assert(r1 is Ok);
        let ghost mid = *db;
        let r2 = stock_movements::insert(db, l.product_id, -l.quantity, "sale", Some("sale"), Some(sale_id), Some(user_id));
        assert(r2 is Ok);
        proof {
            assert(db.sale_items@.take(si as int) =~= old(db).sale_items@) by {
                assert(mid.sale_items@.drop_last() == before.sale_items@);
                assert forall|t: int| 0 <= t < si implies db.sale_items@[t] == old(db).sale_items@[t] by {
                    assert(before.sale_items@.take(si as int)[t] == old(db).sale_items@[t]);
                }
            }
            assert(db.movements@.take(mi as int) =~= old(db).movements@) by {
                assert forall|t: int| 0 <= t < mi implies db.movements@[t] == old(db).movements@[t] by {
                    assert(before.movements@.take(mi as int)[t] == old(db).movements@[t]);
                }
            }
            assert forall|t: int| 0 <= t < k + 1 implies item_for(#[trigger] db.sale_items@[si + t], sale_id@, ls@[t]) by {
                if t < k {
                    assert(db.sale_items@[si + t] == before.sale_items@[si + t]);
                }
            }
            assert forall|t: int|
                0 <= t < k + 1 implies movement_for(
                #[trigger] db.movements@[mi + t],
                ls@[t].product_id,
                -ls@[t].quantity,
                "sale"@,
                "sale"@,
                sale_id@,
                user_id,
                old(db).clock(),
            ) by {
                if t < k {
                    assert(db.movements@[mi + t] == before.movements@[mi + t]);
                }
            }
            assert forall|j: int| 0 <= j < old(db).products@.len() implies same_except_stock(
                old(db).products@[j],
                #[trigger] db.products@[j],
            ) && db.products@[j].current_stock == old(db).products@[j].current_stock - drawn(
                ls@.take(k + 1),
                (j + 1) as i64,
            ) by {
                lemma_drawn_step(ls@, k as int, (j + 1) as i64);
            }
        }
        k = k + 1;
    }
    assert(ls@.take(n as int) =~= ls@);
}

pub open spec fn payment_for(p: PaymentRecord, sale_id: Seq<char>, input: PaymentInput, now: Seq<char>) -> bool {
    &&& p.sale_id@ == sale_id
    &&& p.method@ == input.method@
    &&& p.amount == input.amount
    &&& p.received_at@ == now
}

/// Records each payment of the sale, in order.
fn write_payments(db: &mut Database, sale_id: &str, ps: &Vec<PaymentInput>)
    requires
        old(db).wf(),
        id_taken(old(db), sale_id@),
        forall|i: int| 0 <= i < ps@.len() ==> #[trigger] ps@[i].amount > 0,
    ensures
        final(db).wf(),
        final(db).payments@.len() == old(db).payments@.len() + ps@.len(),
        final(db).payments@.take(old(db).payments@.len() as int) == old(db).payments@,
        forall|k: int|
            0 <= k < ps@.len() ==> payment_for(
                #[trigger] final(db).payments@[old(db).payments@.len() + k],
                sale_id@,
                ps@[k],
                old(db).clock(),
            ),
        old(db).agrees_outside(final(db), set![Table::Payments]),
{
    let ghost p0 = old(db).payments@.len();
    let n = ps.len();
    let mut k: usize = 0;
    while k < n
        invariant
            db.wf(),
            n == ps@.len(),
            k <= n,
            id_taken(db, sale_id@),
            forall|i: int| 0 <= i < ps@.len() ==> #[trigger] ps@[i].amount > 0,
            p0 == old(db).payments@.len(),
            old(db).agrees_outside(db, set![Table::Payments]),
            db.payments@.len() == p0 + k,
            db.payments@.take(p0 as int) == old(db).payments@,
            forall|t: int|
                0 <= t < k ==> payment_for(#[trigger] db.payments@[p0 + t], sale_id@, ps@[t], old(db).clock()),
        decreases n - k,
    {
        let ghost before = *db;
        let r = repo::insert_payment(db, sale_id, ps[k].method.as_str(), ps[k].amount);
        assert(r is Ok);
        proof {
            assert(db.payments@.take(p0 as int) =~= old(db).payments@) by {
                assert forall|t: int| 0 <= t < p0 implies db.payments@[t] == old(db).payments@[t] by {
                    assert(before.payments@.take(p0 as int)[t] == old(db).payments@[t]);
                }
            }
            assert forall|t: int| 0 <= t < k + 1 implies payment_for(
                #[trigger] db.payments@[p0 + t],
                sale_id@,
                ps@[t],
                old(db).clock(),
            ) by {
                if t < k {
                    assert(db.payments@[p0 + t] == before.payments@[p0 + t]);
                }
            }
        }
        k = k + 1;
    }
}


// ---------------------------------------------------------------------
// Replaying an idempotency key

/// The sale an earlier checkout created with this request's idempotency
/// key, if any.
pub open spec fn replay_of(db: &Database, input: CheckoutInput) -> Option<int> {
    match input.idempotency_key {
        Some(k) => sale_with_key(db, k@),
        None => None,
    }
}

/// The item belongs to sale `id`.
pub open spec fn item_in_sale(id: Seq<char>) -> spec_fn(SaleItemRecord) -> bool {
    |it: SaleItemRecord| it.sale_id@ == id
}

/// An item's product, quantity and manual discount.
pub open spec fn item_line() -> spec_fn(SaleItemRecord) -> (i64, i64, Option<i64>) {
    |it: SaleItemRecord| (it.product_id, it.quantity, it.discount_override)
}

/// The payment belongs to sale `id`.
pub open spec fn payment_in_sale(id: Seq<char>) -> spec_fn(PaymentRecord) -> bool {
    |p: PaymentRecord| p.sale_id@ == id
}

/// A payment's method and amount.
pub open spec fn payment_line() -> spec_fn(PaymentRecord) -> (Seq<char>, i64) {
    |p: PaymentRecord| (p.method@, p.amount)
}

/// The product, quantity and manual discount of each stored item of sale
/// `id`, in order.
pub open spec fn stored_lines(db: &Database, id: Seq<char>) -> Seq<(i64, i64, Option<i64>)> {
    db.sale_items@.filter(item_in_sale(id)).map_values(item_line())
}

/// The product, quantity and manual discount of each line of a cart, in
/// order.
pub open spec fn cart_lines(items: Seq<crate::sales::CartLineInput>) -> Seq<(i64, i64, Option<i64>)> {
    items.map_values(|l: crate::sales::CartLineInput| (l.product_id, l.quantity, l.discount_override))
}

/// The method and amount of each stored payment of sale `id`, in order.
pub open spec fn stored_payments(db: &Database, id: Seq<char>) -> Seq<(Seq<char>, i64)> {
    db.payments@.filter(payment_in_sale(id)).map_values(payment_line())
}

/// The method and amount of each payment of a request, in order.
pub open spec fn request_payments(ps: Seq<PaymentInput>) -> Seq<(Seq<char>, i64)> {
    ps.map_values(|p: PaymentInput| (p.method@, p.amount))
}

/// Sale row `j` was made from this request: the same customer, the same
/// products, quantities and manual discounts in the same order, and the same payments (method
/// and amount) in the same order.
pub open spec fn same_request(db: &Database, j: int, input: CheckoutInput) -> bool {
    let s = db.sales@[j];
    &&& s.customer_id == input.customer_id
    &&& stored_lines(db, s.id@) == cart_lines(input.items@)
    &&& stored_payments(db, s.id@) == request_payments(input.payments@)
}

/// The answer to a request whose idempotency key sale row `j` already
/// holds: a different request under the same key is refused as a conflict;
/// the same request is answered with the sale as stored and the change its
/// payments leave.
pub open spec fn replay_answer(db: &Database, j: int, input: CheckoutInput, r: Result<CheckoutResult, SalesError>) -> bool {
    let s = db.sales@[j];
    let paid = paid_for(db.payments@, s.id@);
    if !same_request(db, j, input) {
        r matches Err(SalesError::IdempotencyConflict)
    } else if fits(paid) && fits(paid - s.total) {
        r matches Ok(res) && shows_sale(db, res.sale, j) && res.change == paid - s.total
    } else {
        r matches Err(SalesError::Db(DbError::Overflow))
    }
}

/// The product and quantity of each stored item of sale `id`.
fn stored_lines_exec(db: &Database, id: &str) -> (v: Vec<(i64, i64, Option<i64>)>)
    ensures
        v@ == stored_lines(db, id@),
{
    let target = id.to_owned();
    let ghost all = db.sale_items@;
    let mut v: Vec<(i64, i64, Option<i64>)> = Vec::new();
    let mut i: usize = 0;
    while i < db.sale_items.len()
        invariant
            target@ == id@,
            all == db.sale_items@,
            i <= all.len(),
            v@ == all.take(i as int).filter(item_in_sale(id@)).map_values(item_line()),
        decreases all.len() - i,
    {
        let ghost before = v@;
        proof {
            reveal_with_fuel(Seq::<_>::filter, 1);
            assert(all.take(i + 1).drop_last() =~= all.take(i as int));
        }
        let it = &db.sale_items[i];
        if it.sale_id == target {
            v.push((it.product_id, it.quantity, it.discount_override));
            proof {
                let f = all.take(i as int).filter(item_in_sale(id@));
                assert(f.push(all[i as int]).map_values(item_line()) =~= before.push(
                    (it.product_id, it.quantity, it.discount_override),
                ));
            }
        }
        i = i + 1;
    }
    assert(all.take(all.len() as int) =~= all);
    v
}

/// Whether the stored lines are the cart's lines.
fn same_lines(v: &Vec<(i64, i64, Option<i64>)>, items: &Vec<crate::sales::CartLineInput>) -> (b: bool)
    ensures
        b == (v@ == cart_lines(items@)),
{
    let ghost c = cart_lines(items@);
    if v.len() != items.len() {
        assert(v@.len() != c.len());
        return false;
    }
    let mut k: usize = 0;
    while k < v.len()
        invariant
            v@.len() == items@.len(),
            c == cart_lines(items@),
            k <= v@.len(),
            forall|t: int| 0 <= t < k ==> v@[t] == c[t],
        decreases v@.len() - k,
    {
        if v[k].0 != items[k].product_id || v[k].1 != items[k].quantity || !same_option(
            v[k].2,
            items[k].discount_override,
        ) {
            assert(v@[k as int] != c[k as int]);
            return false;
        }
        k = k + 1;
    }
    assert(v@ =~= c);
    true
}

/// The method and amount of each stored payment of sale `id`.
fn stored_payments_exec(db: &Database, id: &str) -> (v: Vec<(String, i64)>)
    ensures
        v@.map_values(|x: (String, i64)| (x.0@, x.1)) == stored_payments(db, id@),
{
    let target = id.to_owned();
    let ghost all = db.payments@;
    let mut v: Vec<(String, i64)> = Vec::new();
    let mut i: usize = 0;
    while i < db.payments.len()
        invariant
            target@ == id@,
            all == db.payments@,
            i <= all.len(),
            v@.map_values(|x: (String, i64)| (x.0@, x.1)) == all.take(i as int).filter(
                payment_in_sale(id@),
            ).map_values(payment_line()),
        decreases all.len() - i,
    {
        let ghost before = v@;
        proof {
            reveal_with_fuel(Seq::<_>::filter, 1);
            assert(all.take(i + 1).drop_last() =~= all.take(i as int));
        }
        let p = &db.payments[i];
        if p.sale_id == target {
            let m = p.method.clone();
            v.push((m, p.amount));
            proof {
                let f = all.take(i as int).filter(payment_in_sale(id@));
                assert(v@.map_values(|x: (String, i64)| (x.0@, x.1)) =~= before.map_values(
                    |x: (String, i64)| (x.0@, x.1),
                ).push((p.method@, p.amount)));
                assert(f.push(all[i as int]).map_values(payment_line()) =~= f.map_values(payment_line()).push(
                    (p.method@, p.amount),
                ));
            }
        }
        i = i + 1;
    }
    assert(all.take(all.len() as int) =~= all);
    v
}

/// Whether the stored payments are the request's payments.
fn same_payments(v: &Vec<(String, i64)>, ps: &Vec<PaymentInput>) -> (b: bool)
    ensures
        b == (v@.map_values(|x: (String, i64)| (x.0@, x.1)) == request_payments(ps@)),
{
    let ghost a = v@.map_values(|x: (String, i64)| (x.0@, x.1));
    let ghost c = request_payments(ps@);
    if v.len() != ps.len() {
        assert(a.len() != c.len());
        return false;
    }
    let mut k: usize = 0;
    while k < v.len()
        invariant
            v@.len() == ps@.len(),
            a == v@.map_values(|x: (String, i64)| (x.0@, x.1)),
            c == request_payments(ps@),
            k <= v@.len(),
            forall|t: int| 0 <= t < k ==> a[t] == c[t],
        decreases v@.len() - k,
    {
        if !text_is(&v[k].0, ps[k].method.as_str()) || v[k].1 != ps[k].amount {
            assert(a[k as int] != c[k as int]);
            return false;
        }
        k = k + 1;
    }
    assert(a =~= c);
    true
}

fn same_option(a: Option<i64>, b: Option<i64>) -> (r: bool)
    ensures
        r == (a == b),
{
    match (a, b) {
        (Some(x), Some(y)) => x == y,
        (None, None) => true,
        _ => false,
    }
}

fn replay(db: &Database, id: String, input: &CheckoutInput) -> (r: Result<CheckoutResult, SalesError>)
    requires
        db.wf(),
        sale_index(db, id@) is Some,
    ensures
        replay_answer(db, sale_index(db, id@)->0, *input, r),
{
    let ghost j = sale_index(db, id@)->0;
    let sale = match load_sale(db, id.as_str()) {
        Some(s) => s,
        None => {
            return Err(SalesError::SaleNotFound);
        },
    };
    let lines = stored_lines_exec(db, id.as_str());
    let pays = stored_payments_exec(db, id.as_str());
    if !same_option(sale.customer_id, input.customer_id) || !same_lines(&lines, &input.items) || !same_payments(
        &pays,
        &input.payments,
    ) {
        return Err(SalesError::IdempotencyConflict);
    }
    let paid = match paid_for_sale(db, id.as_str()) {
        Some(p) => p,
        None => {
            return Err(SalesError::Db(DbError::Overflow));
        },
    };
    match paid.checked_sub(sale.total) {
        Some(change) => Ok(CheckoutResult { sale, change }),
        None => Err(SalesError::Db(DbError::Overflow)),
    }
}

// ---------------------------------------------------------------------
// Texts

pub open spec fn unpaid_message(paid: int, total: int) -> Seq<char> {
    "Payments ("@ + decimal(paid) + ") do not cover the total ("@ + decimal(total) + ")"@
}

fn unpaid_message_exec(paid: i64, total: i64) -> (m: String)
    ensures
        m@ == unpaid_message(paid as int, total as int),
{
    let a = join("Payments (", i64_to_string(paid).as_str());
    let b = join(a.as_str(), ") do not cover the total (");
    let c = join(b.as_str(), i64_to_string(total).as_str());
    let m = join(c.as_str(), ")");
    assert(m@ =~= unpaid_message(paid as int, total as int));
    m
}

/// The audit record's `after` text for a new sale.
pub open spec fn sale_created_json(invoice: Seq<char>, total: int) -> Seq<char> {
    "{\"invoice_number\":\""@ + invoice + "\",\"total\":"@ + decimal(total) + "}"@
}

fn sale_created_json_exec(invoice: &str, total: i64) -> (j: String)
    ensures
        j@ == sale_created_json(invoice@, total as int),
{
    let a = join("{\"invoice_number\":\"", invoice);
    let b = join(a.as_str(), "\",\"total\":");
    let c = join(b.as_str(), i64_to_string(total).as_str());
    let j = join(c.as_str(), "}");
    assert(j@ =~= sale_created_json(invoice@, total as int));
    j
}

/// The invoice number the next sale receives.
pub open spec fn next_invoice(db: &Database) -> Seq<char> {
    invoice_number_for(day_key(db.clock()), sales_on(db.sales@, day_key(db.clock())) + 1)
}

// ---------------------------------------------------------------------
// The outcome of a checkout

/// `r` is the error `insert_sale` reports for conflict `c`.
pub open spec fn conflict_error(c: SaleConflict, r: Result<CheckoutResult, SalesError>) -> bool {
    match c {
        SaleConflict::Id => r matches Err(SalesError::Db(DbError::Constraint(m))) && m@
            == "UNIQUE constraint failed: sales.id"@,
        SaleConflict::InvoiceNumber => r matches Err(SalesError::Db(DbError::Constraint(m))) && m@
            == "UNIQUE constraint failed: sales.invoice_number"@,
        SaleConflict::IdempotencyKey => r matches Err(SalesError::Db(DbError::Constraint(m))) && m@
            == "UNIQUE constraint failed: sales.idempotency_key"@,
        SaleConflict::ForeignKey => r matches Err(SalesError::Db(DbError::Constraint(m))) && m@
            == "FOREIGN KEY constraint failed"@,
    }
}

/// `new` is `old` with the sale written: the sale row (`completed`, with
/// its totals, stamped now), an item and a `sale` movement per line with
/// the stock they take, each payment in order, and a `SALE_CREATED` audit
/// entry. No other table changes.
pub open spec fn sale_committed(
    old: &Database,
    new: &Database,
    user_id: i64,
    input: CheckoutInput,
    ls: Seq<PricedLine>,
    subtotal: int,
    discount_total: int,
    tax_total: int,
    sale_id: Seq<char>,
    invoice: Seq<char>,
) -> bool {
    let total = subtotal - discount_total + tax_total;
    let s = new.sales@.last();
    let a = new.audit_logs@.last();
    let p0 = old.payments@.len();
    &&& new.sales@.len() == old.sales@.len() + 1
    &&& new.sales@.drop_last() == old.sales@
    &&& s.id@ == sale_id
    &&& s.invoice_number@ == invoice
    &&& s.customer_id == input.customer_id
    &&& s.user_id == user_id
    &&& s.subtotal == subtotal
    &&& s.discount_total == discount_total
    &&& s.tax_total == tax_total
    &&& s.total == total
    &&& s.status@ == "completed"@
    &&& opt_text(s.idempotency_key) == opt_text(input.idempotency_key)
    &&& s.created_at@ == old.clock()
    &&& lines_written(old, new, sale_id, user_id, ls)
    &&& new.payments@.len() == p0 + input.payments@.len()
    &&& new.payments@.take(p0 as int) == old.payments@
    &&& forall|k: int|
        0 <= k < input.payments@.len() ==> payment_for(
            #[trigger] new.payments@[p0 + k],
            sale_id,
            input.payments@[k],
            old.clock(),
        )
    &&& new.audit_logs@.len() == old.audit_logs@.len() + 1
    &&& new.audit_logs@.drop_last() == old.audit_logs@
    &&& a.user_id == Some(user_id)
    &&& a.device_id is None
    &&& a.action@ == "SALE_CREATED"@
    &&& a.entity_type@ == "sale"@
    &&& a.entity_id@ == sale_id
    &&& a.before is None
    &&& opt_text(a.after) == Some(sale_created_json(invoice, total))
    &&& a.ip_address is None
    &&& old.agrees_outside(
        new,
        set![Table::Sales, Table::SaleItems, Table::Movements, Table::Products, Table::Payments, Table::AuditLogs],
    )
}

/// What happens once the cart is priced: the totals must stay in range and
/// be covered by the payments, the store must have room for the rows and
/// the stock for the lines, and the sale row must not clash; then the sale
/// is written and returned with the change.
pub open spec fn settle_answer(
    old: &Database,
    new: &Database,
    user_id: i64,
    input: CheckoutInput,
    ls: Seq<PricedLine>,
    s: int,
    d: int,
    t: int,
    sale_id: Seq<char>,
    r: Result<CheckoutResult, SalesError>,
) -> bool {
    let total = s - d + t;
    let paid = payments_total(input.payments@);
    if !fits(s - d) || !fits(total) || !fits(paid) {
        r matches Err(SalesError::Db(DbError::Overflow)) && old.same_tables(new)
    } else if paid < total {
        (r matches Err(SalesError::Validation(m)) && m@ == unpaid_message(paid, total)) && old.same_tables(new)
    } else if !fits(paid - total) {
        r matches Err(SalesError::Db(DbError::Overflow)) && old.same_tables(new)
    } else if !(old.movements@.len() + ls.len() < row_limit()) || !room(old.audit_logs@.len()) || !room(
        old.sales@.len(),
    ) {
        r matches Err(SalesError::Db(DbError::Full)) && old.same_tables(new)
    } else if !stock_fits(old, ls) {
        r matches Err(SalesError::Db(DbError::Overflow)) && old.same_tables(new)
    } else {
        match sale_conflict(old, sale_id, next_invoice(old), input.customer_id, user_id, opt_text(input.idempotency_key)) {
            Some(c) => conflict_error(c, r) && old.same_tables(new),
            None => r matches Ok(res) && sale_committed(old, new, user_id, input, ls, s, d, t, sale_id, next_invoice(old))
                && shows_sale(new, res.sale, old.sales@.len() as int) && res.change == paid - total,
        }
    }
}

/// The whole answer to a checkout request whose new sale gets id `sale_id`:
/// a malformed request is rejected, a used idempotency key is answered with
/// its sale when the request is the same and refused as a conflict when it
/// is not, a line that cannot be sold is reported, and otherwise the
/// priced cart is settled. Nothing is written unless the sale is.
pub open spec fn checkout_answer(
    old: &Database,
    new: &Database,
    user_id: i64,
    input: CheckoutInput,
    quotes: Seq<LineQuote>,
    sale_id: Seq<char>,
    r: Result<CheckoutResult, SalesError>,
) -> bool {
    match checkout_invalid(input) {
        Some(msg) => (r matches Err(SalesError::Validation(m)) && m@ == msg) && old.same_tables(new),
        None => match replay_of(old, input) {
            Some(j) => replay_answer(old, j, input, r) && old.same_tables(new),
            None => match cart_pricing(old, input.items@, quotes) {
                Err((i, f)) => (r matches Err(e) && line_error(old, input.items@[i], f, e)) && old.same_tables(new),
                Ok((ls, s, d, t)) => settle_answer(old, new, user_id, input, ls, s, d, t, sale_id, r),
            },
        },
    }
}

proof fn lemma_first_bad_none(ps: Seq<PaymentInput>)
    requires
        first_bad_payment(ps) is None,
    ensures
        forall|i: int| 0 <= i < ps.len() ==> payment_ok(#[trigger] ps[i]),
    decreases ps.len(),
{
    if ps.len() > 0 {
        lemma_first_bad_none(ps.drop_last());
        assert forall|i: int| 0 <= i < ps.len() implies payment_ok(#[trigger] ps[i]) by {
            if i < ps.len() - 1 {
                assert(ps[i] == ps.drop_last()[i]);
            }
        }
    }
}

proof fn lemma_priced_lines(db: &Database, items: Seq<crate::sales::CartLineInput>, quotes: Seq<LineQuote>)
    requires
        forall|i: int| 0 <= i < items.len() ==> #[trigger] items[i].quantity > 0,
    ensures
        cart_pricing(db, items, quotes) matches Ok((ls, s, d, t)) ==> ls.len() == items.len() && lines_valid(db, ls),
    decreases items.len(),
{
    if items.len() > 0 {
        let n = items.len() - 1;
        assert forall|i: int| 0 <= i < n implies #[trigger] items.take(n)[i].quantity > 0 by {
            assert(items.take(n)[i] == items[i]);
        }
        lemma_priced_lines(db, items.take(n), quotes);
        assert(items[n].quantity > 0);
    }
}

/// Checks out a cart as `user`, giving the new sale the id `sale_id` (see
/// `checkout_answer`). `quotes[i]` holds the amounts of line `i` that are
/// computed in floating point: the discount of a percent discount (the
/// subtotal times the percent over 100, rounded; see `discount_bases`) and
/// the tax (the taxable amount after the discount times the rate, rounded;
/// see `tax_bases`). Each is used only where it applies.
pub fn checkout_with_id(
    db: &mut Database,
    user: &AuthenticatedUser,
    input: CheckoutInput,
    quotes: &[LineQuote],
    sale_id: &str,
) -> (r: Result<CheckoutResult, SalesError>)
    requires
        old(db).wf(),
        quotes@.len() == input.items@.len(),
        checkout_invalid(input) is None && replay_of(old(db), input) is None ==> cart_clamps_ok(
            old(db),
            input.items@,
            quotes@,
        ),
    ensures
        final(db).wf(),
        checkout_answer(old(db), final(db), user.id, input, quotes@, sale_id@, r),
{
    match validate_checkout(&input) {
        Ok(()) => {},
        Err(e) => {
            return Err(e);
        },
    }
    proof {
        lemma_first_bad_none(input.payments@);
    }
    match &input.idempotency_key {
        Some(k) => {
            match repo::find_by_idempotency_key(db, k.as_str()) {
                Some(existing) => {
                    proof {
                        let j = sale_with_key(db, k@)->0;
                        lemma_sale_index(db, existing@, j);
                    }
                    return replay(db, existing, &input);
                },
                None => {},
            }
        },
        None => {},
    }
    assert(replay_of(db, input) is None);
    let cart = match price_cart(db, &input.items, quotes) {
        Ok(c) => c,
        Err(e) => {
            return Err(e);
        },
    };
    let ghost ls = cart.lines@;
    proof {
        lemma_priced_lines(db, input.items@, quotes@);
    }
    let net = match cart.subtotal.checked_sub(cart.discount_total) {
        Some(v) => v,
        None => {
            return Err(SalesError::Db(DbError::Overflow));
        },
    };
    let total = match net.checked_add(cart.tax_total) {
        Some(v) => v,
        None => {
            return Err(SalesError::Db(DbError::Overflow));
        },
    };
    assert forall|i: int| 0 <= i < input.payments@.len() implies #[trigger] input.payments@[i].amount > 0 by {
        assert(payment_ok(input.payments@[i]));
    }
    let paid = match sum_payments(&input.payments) {
        Some(p) => p,
        None => {
            return Err(SalesError::Db(DbError::Overflow));
        },
    };
    if paid < total {
        return Err(SalesError::Validation(unpaid_message_exec(paid, total)));
    }
    let change = match paid.checked_sub(total) {
        Some(v) => v,
        None => {
            return Err(SalesError::Db(DbError::Overflow));
        },
    };
    let n = cart.lines.len();
    let room_for_lines = match (db.movements.len() as u64).checked_add(n as u64) {
        Some(v) => v < 0x7fff_ffff_ffff_fff0u64,
        None => false,
    };
    if !room_for_lines || !has_room(db.audit_logs.len()) || !has_room(db.sales.len()) {
        return Err(SalesError::Db(DbError::Full));
    }
    if !stock_fits_exec(db, &cart.lines) {
        return Err(SalesError::Db(DbError::Overflow));
    }
    let invoice = repo::next_invoice_number(db);
    let key: Option<&str> = match &input.idempotency_key {
        Some(k) => Some(k.as_str()),
        None => None,
    };
    assert(opt_str(key) == opt_text(input.idempotency_key));
    let ghost db0 = *db;
    match repo::insert_sale(
        db,
        sale_id,
        invoice.as_str(),
        input.customer_id,
        user.id,
        cart.subtotal,
        cart.discount_total,
        cart.tax_total,
        total,
        key,
    ) {
        Ok(()) => {},
        Err(e) => {
            return Err(SalesError::Db(e));
        },
    }
    let ghost db1 = *db;
    proof {
        assert(db1.sales@[db1.sales@.len() - 1].id@ == sale_id@);
        assert(id_taken(&db1, sale_id@));
        assert(db1.products@ == db0.products@);
        assert(sale_conflict(&db0, sale_id@, invoice@, input.customer_id, user.id, opt_str(key)) is None);
        assert(valid_id(user.id, db0.users@.len()));
    }
    write_lines(db, sale_id, user.id, &cart.lines);
    let ghost db2 = *db;
    write_payments(db, sale_id, &input.payments);
    let ghost db3 = *db;
    let json = sale_created_json_exec(invoice.as_str(), total);
    assert(db.users@ == db0.users@);
    assert(db.audit_logs@ == db0.audit_logs@);
    let a = audit_logs::insert(db, Some(user.id), None, "SALE_CREATED", "sale", sale_id, None, Some(json.as_str()), None);
    assert(a is Ok);
    proof {
        lemma_sale_index(db, sale_id@, db0.sales@.len() as int);
    }
    let sale = match load_sale(db, sale_id) {
        Some(s) => s,
        None => {
            return Err(SalesError::SaleNotFound);
        },
    };
    proof {
        assert(lines_written(&db0, &db2, sale_id@, user.id, ls));
        assert(db.sales@ == db1.sales@);
        assert(db.sale_items@ == db2.sale_items@);
        assert(db.movements@ == db2.movements@);
        assert(db.products@ == db2.products@);
        assert(db.payments@ == db3.payments@);
        assert(lines_written(&db0, db, sale_id@, user.id, ls));
    }
    Ok(CheckoutResult { sale, change })
}


// ---------------------------------------------------------------------
// Sale ids

pub open spec fn is_hex_lower(c: char) -> bool {
    ('0' <= c && c <= '9') || ('a' <= c && c <= 'f')
}

/// The hyphenated lowercase text of a random (version 4, RFC 4122 variant)
/// UUID.
pub open spec fn is_v4_uuid_text(s: Seq<char>) -> bool {
    &&& s.len() == 36
    &&& forall|i: int|
        0 <= i < 36 ==> if i == 8 || i == 13 || i == 18 || i == 23 {
            s[i] == '-'
        } else {
            is_hex_lower(#[trigger] s[i])
        }
    &&& s[14] == '4'
    &&& (s[19] == '8' || s[19] == '9' || s[19] == 'a' || s[19] == 'b')
}

/// `uuid::Uuid::new_v4().to_string()`: a fresh random UUID written in its
/// hyphenated lowercase form (version digit `4`, variant digit `8`–`b`).
/// Which UUID comes out is chance and is left open.
#[verifier::external_body]
fn new_sale_id() -> (s: String)
    ensures
        is_v4_uuid_text(s@),
{
    uuid::Uuid::new_v4().to_string()
}

/// Checks out a cart as `user` (see `checkout_with_id`); a new sale gets a
/// random UUID as its id.
pub fn checkout(
    db: &mut Database,
    user: &AuthenticatedUser,
    input: CheckoutInput,
    quotes: &[LineQuote],
) -> (r: Result<CheckoutResult, SalesError>)
    requires
        old(db).wf(),
        quotes@.len() == input.items@.len(),
        checkout_invalid(input) is None && replay_of(old(db), input) is None ==> cart_clamps_ok(
            old(db),
            input.items@,
            quotes@,
        ),
    ensures
        final(db).wf(),
        exists|id: Seq<char>|
            is_v4_uuid_text(id) && #[trigger] checkout_answer(old(db), final(db), user.id, input, quotes@, id, r),
{
    let id = new_sale_id();
    checkout_with_id(db, user, input, quotes, id.as_str())
}

} // verus!
