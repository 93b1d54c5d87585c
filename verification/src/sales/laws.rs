//! What checkout and cancellation promise together.

use vstd::prelude::*;

use crate::db::repositories::sales::{
    item_matches, item_of, lemma_sale_index, lemma_sale_with_key, lists_items, lists_payments, payment_matches,
    payment_of, sale_index, sale_with_key, PaymentRow, SaleItemRow,
};
use crate::db::repositories::stock_movements::opt_text;
use crate::db::{room, row_limit, valid_id, Database, PaymentRecord, SaleItemRecord};
use crate::order::candidates;
use crate::sales::cancel::{cancel_answer, cancel_rest, restock_fits, returned, sale_cancelled};
use crate::sales::checkout::{
    cart_lines, checkout_answer, item_for, item_in_sale, item_line, payment_in_sale, payment_line, next_invoice, paid_for, payment_for, payments_total, replay_answer,
    replay_of, request_payments, same_request, sale_committed, settle_answer, stored_lines, stored_payments,
};
use crate::sales::pricing::{
    cart_pricing, checkout_invalid, drawn, fits, lemma_drawn_monotone, price_line, LineFailure, LineQuote,
    PricedLine,
};
use crate::sales::{
    shows_sale, CartLineInput, CheckoutInput, CheckoutResult, PaymentDto, PaymentInput, SaleDto, SaleItemDto, SalesError,
};

verus! {

/// A strictly increasing listing of exactly the positions `a..a + n` is
/// `a, a + 1, ..., a + n - 1`.
proof fn lemma_consecutive_positions(pos: Seq<usize>, n_all: int, pred: spec_fn(int) -> bool, a: int, n: int)
    requires
        candidates(pos, n_all, pred),
        0 <= a,
        0 <= n,
        a + n <= n_all,
        n_all <= usize::MAX,
        forall|j: int| 0 <= j < n_all ==> (#[trigger] pred(j) <==> a <= j < a + n),
    ensures
        pos.len() == n,
        forall|k: int| 0 <= k < n ==> #[trigger] pos[k] == a + k,
{
    assert forall|k: int| 0 <= k < pos.len() implies #[trigger] pos[k] >= a + k by {
        lemma_increasing_lower(pos, a, k);
    }
    assert forall|k: int| 0 <= k < pos.len() implies #[trigger] pos[k] == a + k by {
        lemma_position_exact(pos, n_all, pred, a, n, k);
    }
    if pos.len() > n {
        assert(pos[n] == a + n);
        assert(pred(pos[n] as int));
    }
    if pos.len() < n {
        assert(pred(a + n - 1));
        assert(pos.contains((a + n - 1) as usize));
        let m = choose|m: int| 0 <= m < pos.len() && pos[m] == (a + n - 1) as usize;
        assert(pos[m] == a + m);
    }
}

proof fn lemma_increasing_lower(pos: Seq<usize>, a: int, k: int)
    requires
        0 <= k < pos.len(),
        forall|x: int, y: int| 0 <= x < y < pos.len() ==> #[trigger] pos[x] < #[trigger] pos[y],
        forall|x: int| 0 <= x < pos.len() ==> #[trigger] pos[x] >= a,
    ensures
        pos[k] >= a + k,
    decreases k,
{
    if k > 0 {
        lemma_increasing_lower(pos, a, k - 1);
        assert(pos[k - 1] < pos[k]);
    }
}

proof fn lemma_position_exact(pos: Seq<usize>, n_all: int, pred: spec_fn(int) -> bool, a: int, n: int, k: int)
    requires
        candidates(pos, n_all, pred),
        0 <= a,
        a + n <= n_all,
        forall|j: int| 0 <= j < n_all ==> (#[trigger] pred(j) <==> a <= j < a + n),
        forall|x: int| 0 <= x < pos.len() ==> #[trigger] pos[x] >= a + x,
        0 <= k < pos.len(),
    ensures
        pos[k] == a + k,
    decreases k,
{
    assert(pred(pos[k] as int));
    if pos[k] > a + k {
        assert(pred(a + k));
        assert(pos.contains((a + k) as usize));
        let m = choose|m: int| 0 <= m < pos.len() && pos[m] == (a + k) as usize;
        assert(pos[m] >= a + m);
        if m < k {
            lemma_position_exact(pos, n_all, pred, a, n, m);
        }
    }
}

proof fn lemma_returned_is_drawn(rows: Seq<SaleItemRow>, ls: Seq<PricedLine>, pid: i64)
    requires
        rows.len() == ls.len(),
        forall|k: int|
            0 <= k < rows.len() ==> (#[trigger] rows[k]).product_id == ls[k].product_id && rows[k].quantity
                == ls[k].quantity,
    ensures
        returned(rows, pid) == drawn(ls, pid),
    decreases rows.len(),
{
    if rows.len() > 0 {
        let n = rows.len() - 1;
        assert forall|k: int| 0 <= k < n implies (#[trigger] rows.drop_last()[k]).product_id
            == ls.drop_last()[k].product_id && rows.drop_last()[k].quantity == ls.drop_last()[k].quantity by {
            assert(rows.drop_last()[k] == rows[k]);
        }
        lemma_returned_is_drawn(rows.drop_last(), ls.drop_last(), pid);
        assert(rows[n].product_id == ls[n].product_id);
    }
}

/// The items a checkout wrote are exactly the items listed for its sale.
proof fn lemma_committed_items(
    db0: &Database,
    db1: &Database,
    user_id: i64,
    input: CheckoutInput,
    ls: Seq<PricedLine>,
    s: int,
    d: int,
    t: int,
    sale_id: Seq<char>,
    invoice: Seq<char>,
    rows: Seq<SaleItemRow>,
)
    requires
        db0.wf(),
        db1.wf(),
        sale_committed(db0, db1, user_id, input, ls, s, d, t, sale_id, invoice),
        lists_items(db1, sale_id, rows),
    ensures
        rows.len() == ls.len(),
        forall|k: int|
            0 <= k < rows.len() ==> (#[trigger] rows[k]).product_id == ls[k].product_id && rows[k].quantity
                == ls[k].quantity,
{
    let si = db0.sale_items@.len() as int;
    let n = ls.len() as int;
    let n_all = db1.sale_items@.len() as int;
    let pred = item_of(db1, sale_id);
    let pos = choose|pos: Seq<usize>|
        {
            &&& #[trigger] candidates(pos, n_all, pred)
            &&& rows.len() == pos.len()
            &&& forall|k: int| 0 <= k < rows.len() ==> item_matches(db1, rows[k], pos[k] as int)
        };
    let last = db0.sales@.len() as int;
    assert(db1.sale_items.len() == n_all);
    assert(db1.sales@[last].id@ == sale_id);
    assert forall|j: int| 0 <= j < n_all implies (#[trigger] pred(j) <==> si <= j < si + n) by {
        if j < si {
            assert(db1.sale_items@[j] == db1.sale_items@.take(si)[j]);
            let it = db0.sale_items@[j];
            assert(db0.has_sale(it.sale_id@));
            if it.sale_id@ == sale_id {
                let w = choose|w: int| 0 <= w < db0.sales@.len() && #[trigger] db0.sales@[w].id@ == it.sale_id@;
                assert(db1.sales@[w] == db1.sales@.drop_last()[w]);
                assert(db1.sales@[w].id@ != db1.sales@[last].id@);
            }
        } else {
            assert(item_for(db1.sale_items@[si + (j - si)], sale_id, ls[j - si]));
        }
    }
    lemma_consecutive_positions(pos, n_all, pred, si, n);
    assert forall|k: int| 0 <= k < rows.len() implies (#[trigger] rows[k]).product_id == ls[k].product_id
        && rows[k].quantity == ls[k].quantity by {
        assert(pos[k] == si + k);
        assert(item_matches(db1, rows[k], pos[k] as int));
        assert(item_for(db1.sale_items@[si + k], sale_id, ls[k]));
    }
}

/// Cancelling the sale that a checkout has just written succeeds, for any
/// existing user, when the store has room for the cancellation's rows. It
/// gives every product back exactly the stock the checkout took, and
/// leaves the sale as it was but `cancelled`.
pub proof fn law_cancel_restores_stock(
    db0: &Database,
    db1: &Database,
    db2: &Database,
    user_id: i64,
    input: CheckoutInput,
    ls: Seq<PricedLine>,
    s: int,
    d: int,
    t: int,
    sale_id: Seq<char>,
    invoice: Seq<char>,
    canceller: i64,
    r: Result<SaleDto, SalesError>,
)
    requires
        db0.wf(),
        db1.wf(),
        sale_committed(db0, db1, user_id, input, ls, s, d, t, sale_id, invoice),
        valid_id(canceller, db1.users@.len()),
        db1.movements@.len() + ls.len() < row_limit(),
        room(db1.audit_logs@.len()),
        cancel_answer(db1, db2, sale_id, canceller, r),
    ensures
        r is Ok,
        db2.products@.len() == db0.products@.len(),
        forall|j: int|
            0 <= j < db0.products@.len() ==> #[trigger] db2.products@[j].current_stock
                == db0.products@[j].current_stock,
        ({
            let (a, b) = (db1.sales@[db0.sales@.len() as int], db2.sales@[db0.sales@.len() as int]);
            &&& b.status@ == "cancelled"@
            &&& b.id == a.id && b.invoice_number == a.invoice_number && b.customer_id == a.customer_id
            &&& b.user_id == a.user_id && b.subtotal == a.subtotal && b.discount_total == a.discount_total
            &&& b.tax_total == a.tax_total && b.total == a.total && b.created_at == a.created_at
        }),
{
    let last = db0.sales@.len() as int;
    lemma_sale_index(db1, sale_id, last);
    assert(sale_index(db1, sale_id) == Some(last));
    reveal_strlit("completed");
    assert(db1.sales@[last].status@ == "completed"@);
    let rows = choose|rows: Seq<SaleItemRow>|
        #[trigger] lists_items(db1, sale_id, rows) && cancel_rest(db1, db2, last, sale_id, canceller, rows, r);
    lemma_committed_items(db0, db1, user_id, input, ls, s, d, t, sale_id, invoice, rows);
    assert(restock_fits(db1, rows)) by {
        lemma_committed_restock(db0, db1, user_id, input, ls, s, d, t, sale_id, invoice, rows);
    }
    assert(sale_cancelled(db1, db2, last, sale_id, canceller, rows));
    assert forall|j: int| 0 <= j < db0.products@.len() implies #[trigger] db2.products@[j].current_stock
        == db0.products@[j].current_stock by {
        lemma_returned_is_drawn(rows, ls, (j + 1) as i64);
    }
}

/// Returning the items a checkout just wrote keeps every stock in range.
proof fn lemma_committed_restock(
    db0: &Database,
    db1: &Database,
    user_id: i64,
    input: CheckoutInput,
    ls: Seq<PricedLine>,
    s: int,
    d: int,
    t: int,
    sale_id: Seq<char>,
    invoice: Seq<char>,
    rows: Seq<SaleItemRow>,
)
    requires
        db0.wf(),
        db1.wf(),
        sale_committed(db0, db1, user_id, input, ls, s, d, t, sale_id, invoice),
        rows.len() == ls.len(),
        forall|k: int|
            0 <= k < rows.len() ==> (#[trigger] rows[k]).product_id == ls[k].product_id && rows[k].quantity
                == ls[k].quantity,
    ensures
        restock_fits(db1, rows),
{
    let si = db0.sale_items@.len() as int;
    assert forall|k: int| 0 <= k < ls.len() implies #[trigger] ls[k].quantity > 0 by {
        assert(item_for(db1.sale_items@[si + k], sale_id, ls[k]));
    }
    assert forall|k: int| 0 <= k < rows.len() implies fits(
        db1.products@[#[trigger] rows[k].product_id - 1].current_stock + returned(rows.take(k + 1), rows[k].product_id),
    ) by {
        let p = rows[k].product_id;
        assert(item_for(db1.sale_items@[si + k], sale_id, ls[k]));
        assert(1 <= p <= db1.products@.len());
        let (rp, lp) = (rows.take(k + 1), ls.take(k + 1));
        assert forall|i: int| 0 <= i < rp.len() implies (#[trigger] rp[i]).product_id == lp[i].product_id
            && rp[i].quantity == lp[i].quantity by {
            assert(rp[i] == rows[i] && lp[i] == ls[i]);
        }
        lemma_returned_is_drawn(rp, lp, p);
        lemma_drawn_monotone(ls, k + 1, ls.len() as int, p);
        lemma_drawn_monotone(ls, 0, k + 1, p);
        assert(ls.take(ls.len() as int) =~= ls);
        assert(ls.take(0) =~= Seq::<PricedLine>::empty());
        let j = p - 1;
        assert(db1.products@[j].current_stock == db0.products@[j].current_stock - drawn(ls, (j + 1) as i64));
    }
}

/// A sale that was cancelled cannot be cancelled again: the second request
/// is refused with the sale's status and writes nothing.
pub proof fn law_second_cancel_is_refused(
    db1: &Database,
    db2: &Database,
    db3: &Database,
    id: Seq<char>,
    u1: i64,
    u2: i64,
    r1: Result<SaleDto, SalesError>,
    r2: Result<SaleDto, SalesError>,
)
    requires
        db1.wf(),
        db2.wf(),
        cancel_answer(db1, db2, id, u1, r1),
        r1 is Ok,
        cancel_answer(db2, db3, id, u2, r2),
    ensures
        r2 matches Err(SalesError::InvalidStatusTransition(st)) && st@ == "cancelled"@,
        db2.same_tables(db3),
{
    let j = sale_index(db1, id)->0;
    let rows = choose|rows: Seq<SaleItemRow>|
        #[trigger] lists_items(db1, id, rows) && cancel_rest(db1, db2, j, id, u1, rows, r1);
    assert(sale_cancelled(db1, db2, j, id, u1, rows));
    lemma_sale_index(db2, id, j);
    reveal_strlit("completed");
    reveal_strlit("cancelled");
    assert("cancelled"@[1] != "completed"@[1]);
    assert(db2.sales@[j].status@ != "completed"@);
}

/// Retrying a checkout with the idempotency key of a request that
/// succeeded answers with the same sale and writes nothing, so stock is
/// taken once.
pub proof fn law_checkout_retry_is_idempotent(
    db0: &Database,
    db1: &Database,
    db2: &Database,
    u1: i64,
    u2: i64,
    in1: CheckoutInput,
    in2: CheckoutInput,
    q1: Seq<LineQuote>,
    q2: Seq<LineQuote>,
    id1: Seq<char>,
    id2: Seq<char>,
    r1: Result<CheckoutResult, SalesError>,
    r2: Result<CheckoutResult, SalesError>,
)
    requires
        db0.wf(),
        db1.wf(),
        checkout_answer(db0, db1, u1, in1, q1, id1, r1),
        r1 is Ok,
        in1.idempotency_key is Some,
        opt_text(in2.idempotency_key) == opt_text(in1.idempotency_key),
        checkout_invalid(in2) is None,
        checkout_answer(db1, db2, u2, in2, q2, id2, r2),
    ensures
        db1.same_tables(db2),
        (r1, r2) matches (Ok(a), Ok(b)) ==> b.sale.id == a.sale.id,
{
    let k = in1.idempotency_key->0;
    assert(checkout_invalid(in1) is None);
    let j = match replay_of(db0, in1) {
        Some(j) => {
            assert(sale_with_key(db1, k@) == sale_with_key(db0, k@));
            j
        },
        None => {
            let (ls, s, d, t) = cart_pricing(db0, in1.items@, q1)->Ok_0;
            assert(settle_answer(db0, db1, u1, in1, ls, s, d, t, id1, r1));
            let last = db0.sales@.len() as int;
            assert(db1.sales@[last] == db1.sales@.last());
            lemma_sale_with_key(db1, k@, last);
            last
        },
    };
    assert(sale_with_key(db1, k@) == Some(j));
    assert(replay_of(db1, in2) == Some(j));
    assert(replay_answer(db1, j, in2, r2));
}

/// Two strictly increasing listings of the positions a predicate selects
/// are the same listing.
proof fn lemma_candidates_unique(p1: Seq<usize>, p2: Seq<usize>, n: int, pred: spec_fn(int) -> bool)
    requires
        n <= usize::MAX,
        candidates(p1, n, pred),
        candidates(p2, n, pred),
    ensures
        p1 == p2,
    decreases p1.len() + p2.len(),
{
    if p1.len() == 0 {
        if p2.len() > 0 {
            assert(pred(p2[0] as int));
            assert(p1.contains(p2[0]));
        }
        assert(p1 =~= p2);
    } else if p2.len() == 0 {
        assert(pred(p1[0] as int));
        assert(p2.contains(p1[0]));
    } else {
        assert(pred(p1[0] as int) && pred(p2[0] as int));
        assert(p2.contains(p1[0]));
        assert(p1.contains(p2[0]));
        let k = choose|k: int| 0 <= k < p2.len() && p2[k] == p1[0];
        let m = choose|m: int| 0 <= m < p1.len() && p1[m] == p2[0];
        if k > 0 {
            assert(p2[0] < p2[k]);
            if m > 0 {
                assert(p1[0] < p1[m]);
            }
        }
        assert(p1[0] == p2[0]);
        let first = p1[0];
        let pred2 = |j: int| pred(j) && j > first;
        let (q1, q2) = (p1.drop_first(), p2.drop_first());
        assert(candidates(q1, n, pred2)) by {
            assert forall|a: int, b: int| 0 <= a < b < q1.len() implies #[trigger] q1[a] < #[trigger] q1[b] by {
                assert(q1[a] == p1[a + 1] && q1[b] == p1[b + 1]);
            }
            assert forall|t: int| 0 <= t < q1.len() implies #[trigger] q1[t] < n && pred2(q1[t] as int) by {
                assert(q1[t] == p1[t + 1]);
                assert(p1[0] < p1[t + 1]);
            }
            assert forall|j: int| 0 <= j < n && #[trigger] pred2(j) implies q1.contains(j as usize) by {
                assert(pred(j));
                assert(p1.contains(j as usize));
                let w = choose|w: int| 0 <= w < p1.len() && p1[w] == j as usize;
                assert(j > first as int);
                if w == 0 {
                    assert(p1[0] as int == j);
                }
                assert(q1[w - 1] == j as usize);
            }
        }
        assert(candidates(q2, n, pred2)) by {
            assert forall|a: int, b: int| 0 <= a < b < q2.len() implies #[trigger] q2[a] < #[trigger] q2[b] by {
                assert(q2[a] == p2[a + 1] && q2[b] == p2[b + 1]);
            }
            assert forall|t: int| 0 <= t < q2.len() implies #[trigger] q2[t] < n && pred2(q2[t] as int) by {
                assert(q2[t] == p2[t + 1]);
                assert(p2[0] < p2[t + 1]);
            }
            assert forall|j: int| 0 <= j < n && #[trigger] pred2(j) implies q2.contains(j as usize) by {
                assert(pred(j));
                assert(p2.contains(j as usize));
                let w = choose|w: int| 0 <= w < p2.len() && p2[w] == j as usize;
                assert(j > first as int);
                if w == 0 {
                    assert(p2[0] as int == j);
                }
                assert(q2[w - 1] == j as usize);
            }
        }
        lemma_candidates_unique(q1, q2, n, pred2);
        assert forall|i: int| 0 <= i < p1.len() implies p1[i] == p2[i] by {
            if i > 0 {
                assert(p1[i] == q1[i - 1] && p2[i] == q2[i - 1]);
            }
        }
        assert(p1 =~= p2);
    }
}

/// A sale's items are listed one way only.
proof fn lemma_items_unique(db: &Database, id: Seq<char>, r1: Seq<SaleItemRow>, r2: Seq<SaleItemRow>)
    requires
        lists_items(db, id, r1),
        lists_items(db, id, r2),
    ensures
        r1 == r2,
{
    let n = db.sale_items@.len() as int;
    assert(db.sale_items.len() == n);
    let pred = item_of(db, id);
    let p1 = choose|pos: Seq<usize>|
        {
            &&& #[trigger] candidates(pos, n, pred)
            &&& r1.len() == pos.len()
            &&& forall|k: int| 0 <= k < r1.len() ==> item_matches(db, r1[k], pos[k] as int)
        };
    let p2 = choose|pos: Seq<usize>|
        {
            &&& #[trigger] candidates(pos, n, pred)
            &&& r2.len() == pos.len()
            &&& forall|k: int| 0 <= k < r2.len() ==> item_matches(db, r2[k], pos[k] as int)
        };
    lemma_candidates_unique(p1, p2, n, pred);
    assert forall|k: int| 0 <= k < r1.len() implies r1[k] == r2[k] by {
        assert(item_matches(db, r1[k], p1[k] as int));
        assert(item_matches(db, r2[k], p2[k] as int));
    }
    assert(r1 =~= r2);
}

/// A sale's payments are listed one way only.
proof fn lemma_payments_unique(db: &Database, id: Seq<char>, r1: Seq<PaymentRow>, r2: Seq<PaymentRow>)
    requires
        lists_payments(db, id, r1),
        lists_payments(db, id, r2),
    ensures
        r1 == r2,
{
    let n = db.payments@.len() as int;
    assert(db.payments.len() == n);
    let pred = payment_of(db, id);
    let p1 = choose|pos: Seq<usize>|
        {
            &&& #[trigger] candidates(pos, n, pred)
            &&& r1.len() == pos.len()
            &&& forall|k: int| 0 <= k < r1.len() ==> payment_matches(db, r1[k], pos[k] as int)
        };
    let p2 = choose|pos: Seq<usize>|
        {
            &&& #[trigger] candidates(pos, n, pred)
            &&& r2.len() == pos.len()
            &&& forall|k: int| 0 <= k < r2.len() ==> payment_matches(db, r2[k], pos[k] as int)
        };
    lemma_candidates_unique(p1, p2, n, pred);
    assert forall|k: int| 0 <= k < r1.len() implies r1[k] == r2[k] by {
        assert(payment_matches(db, r1[k], p1[k] as int));
        assert(payment_matches(db, r2[k], p2[k] as int));
    }
    assert(r1 =~= r2);
}

/// A sale shown from a store is shown the same way from a store with the
/// same rows.
proof fn lemma_shown_in_same_tables(a: &Database, b: &Database, d: SaleDto, j: int)
    requires
        a.same_tables(b),
        shows_sale(a, d, j),
    ensures
        shows_sale(b, d, j),
{
    let id = a.sales@[j].id@;
    assert(item_of(a, id) =~= item_of(b, id));
    assert(payment_of(a, id) =~= payment_of(b, id));
    let rows = choose|rows: Seq<SaleItemRow>|
        #[trigger] lists_items(a, id, rows) && d.items@ == rows.map_values(|r: SaleItemRow| SaleItemDto::of(r));
    let pos = choose|pos: Seq<usize>|
        {
            &&& #[trigger] candidates(pos, a.sale_items@.len() as int, item_of(a, id))
            &&& rows.len() == pos.len()
            &&& forall|k: int| 0 <= k < rows.len() ==> item_matches(a, rows[k], pos[k] as int)
        };
    assert(candidates(pos, b.sale_items@.len() as int, item_of(b, id)));
    assert(forall|k: int| 0 <= k < rows.len() ==> item_matches(b, rows[k], pos[k] as int));
    assert(lists_items(b, id, rows));
    let prows = choose|rows: Seq<PaymentRow>|
        #[trigger] lists_payments(a, id, rows) && d.payments@ == rows.map_values(|r: PaymentRow| PaymentDto::of(r));
    let ppos = choose|pos: Seq<usize>|
        {
            &&& #[trigger] candidates(pos, a.payments@.len() as int, payment_of(a, id))
            &&& prows.len() == pos.len()
            &&& forall|k: int| 0 <= k < prows.len() ==> payment_matches(a, prows[k], pos[k] as int)
        };
    assert(candidates(ppos, b.payments@.len() as int, payment_of(b, id)));
    assert(forall|k: int| 0 <= k < prows.len() ==> payment_matches(b, prows[k], ppos[k] as int));
    assert(lists_payments(b, id, prows));
}

/// There is one way to show a stored sale.
pub proof fn law_sale_is_shown_one_way(db: &Database, j: int, d1: SaleDto, d2: SaleDto)
    requires
        shows_sale(db, d1, j),
        shows_sale(db, d2, j),
    ensures
        d1.id == d2.id && d1.invoice_number == d2.invoice_number && d1.customer_id == d2.customer_id
            && d1.cashier_name == d2.cashier_name && d1.subtotal == d2.subtotal && d1.discount_total
            == d2.discount_total && d1.tax_total == d2.tax_total && d1.total == d2.total && d1.status
            == d2.status && d1.created_at == d2.created_at,
        d1.items@ == d2.items@,
        d1.payments@ == d2.payments@,
{
    let id = db.sales@[j].id@;
    let i1 = choose|rows: Seq<SaleItemRow>|
        #[trigger] lists_items(db, id, rows) && d1.items@ == rows.map_values(|r: SaleItemRow| SaleItemDto::of(r));
    let i2 = choose|rows: Seq<SaleItemRow>|
        #[trigger] lists_items(db, id, rows) && d2.items@ == rows.map_values(|r: SaleItemRow| SaleItemDto::of(r));
    lemma_items_unique(db, id, i1, i2);
    let q1 = choose|rows: Seq<PaymentRow>|
        #[trigger] lists_payments(db, id, rows) && d1.payments@ == rows.map_values(|r: PaymentRow| PaymentDto::of(r));
    let q2 = choose|rows: Seq<PaymentRow>|
        #[trigger] lists_payments(db, id, rows) && d2.payments@ == rows.map_values(|r: PaymentRow| PaymentDto::of(r));
    lemma_payments_unique(db, id, q1, q2);
}

/// Reading back the sale a checkout answered with gives that sale: as
/// long as the store is unchanged, `get` with its id finds it and shows it
/// exactly as the checkout did.
pub proof fn law_get_returns_the_checkout_sale(
    db0: &Database,
    db1: &Database,
    user_id: i64,
    input: CheckoutInput,
    quotes: Seq<LineQuote>,
    sale_id: Seq<char>,
    r: Result<CheckoutResult, SalesError>,
    d: SaleDto,
)
    requires
        db0.wf(),
        db1.wf(),
        checkout_answer(db0, db1, user_id, input, quotes, sale_id, r),
        r is Ok,
        sale_index(db1, r->Ok_0.sale.id@) is Some,
        shows_sale(db1, d, sale_index(db1, r->Ok_0.sale.id@)->0),
    ensures
        ({
            let s = r->Ok_0.sale;
            &&& d.id == s.id && d.invoice_number == s.invoice_number && d.customer_id == s.customer_id
            &&& d.cashier_name == s.cashier_name && d.subtotal == s.subtotal && d.discount_total == s.discount_total
            &&& d.tax_total == s.tax_total && d.total == s.total && d.status == s.status && d.created_at == s.created_at
            &&& d.items@ == s.items@ && d.payments@ == s.payments@
        }),
{
    let s = r->Ok_0.sale;
    let j = match replay_of(db0, input) {
        Some(j) => {
            assert(shows_sale(db0, s, j));
            lemma_shown_in_same_tables(db0, db1, s, j);
            j
        },
        None => {
            let (ls, a, b, c) = cart_pricing(db0, input.items@, quotes)->Ok_0;
            assert(settle_answer(db0, db1, user_id, input, ls, a, b, c, sale_id, r));
            db0.sales@.len() as int
        },
    };
    assert(shows_sale(db1, s, j));
    lemma_sale_index(db1, s.id@, j);
    law_sale_is_shown_one_way(db1, j, d, s);
}

/// Every checkout that succeeds leaves its sale where `get` finds it.
pub proof fn law_checkout_sale_can_be_read(
    db0: &Database,
    db1: &Database,
    user_id: i64,
    input: CheckoutInput,
    quotes: Seq<LineQuote>,
    sale_id: Seq<char>,
    r: Result<CheckoutResult, SalesError>,
)
    requires
        db0.wf(),
        db1.wf(),
        checkout_answer(db0, db1, user_id, input, quotes, sale_id, r),
        r is Ok,
    ensures
        sale_index(db1, r->Ok_0.sale.id@) is Some,
{
    let s = r->Ok_0.sale;
    let j = match replay_of(db0, input) {
        Some(j) => {
            assert(shows_sale(db0, s, j));
            lemma_shown_in_same_tables(db0, db1, s, j);
            j
        },
        None => {
            let (ls, a, b, c) = cart_pricing(db0, input.items@, quotes)->Ok_0;
            assert(settle_answer(db0, db1, user_id, input, ls, a, b, c, sale_id, r));
            db0.sales@.len() as int
        },
    };
    assert(shows_sale(db1, s, j));
    lemma_sale_index(db1, s.id@, j);
}

proof fn lemma_filter_all<A>(s: Seq<A>, pred: spec_fn(A) -> bool)
    requires
        forall|i: int| 0 <= i < s.len() ==> pred(#[trigger] s[i]),
    ensures
        s.filter(pred) == s,
    decreases s.len(),
{
    reveal_with_fuel(Seq::<_>::filter, 1);
    if s.len() > 0 {
        let f = s.drop_last();
        assert forall|i: int| 0 <= i < f.len() implies pred(#[trigger] f[i]) by {
            assert(f[i] == s[i]);
        }
        lemma_filter_all(f, pred);
        assert(pred(s[s.len() - 1]));
        assert(f.push(s.last()) =~= s);
    }
}

proof fn lemma_filter_none<A>(s: Seq<A>, pred: spec_fn(A) -> bool)
    requires
        forall|i: int| 0 <= i < s.len() ==> !pred(#[trigger] s[i]),
    ensures
        s.filter(pred) == Seq::<A>::empty(),
    decreases s.len(),
{
    reveal_with_fuel(Seq::<_>::filter, 1);
    if s.len() > 0 {
        let f = s.drop_last();
        assert forall|i: int| 0 <= i < f.len() implies !pred(#[trigger] f[i]) by {
            assert(f[i] == s[i]);
        }
        lemma_filter_none(f, pred);
        assert(!pred(s[s.len() - 1]));
    } else {
        assert(s.filter(pred) =~= Seq::<A>::empty());
    }
}

/// The priced lines of a cart are its lines, product for product and
/// quantity for quantity.
proof fn lemma_priced_as_cart(db: &Database, items: Seq<CartLineInput>, quotes: Seq<LineQuote>)
    ensures
        cart_pricing(db, items, quotes) matches Ok((ls, _s, _d, _t)) ==> ls.len() == items.len() && forall|k: int|
            0 <= k < ls.len() ==> (#[trigger] ls[k]).product_id == items[k].product_id && ls[k].quantity
                == items[k].quantity && ls[k].discount_override == items[k].discount_override,
    decreases items.len(),
{
    if items.len() > 0 {
        let n = items.len() - 1;
        lemma_priced_as_cart(db, items.take(n), quotes);
        if let Ok((ls, _s, _d, _t)) = cart_pricing(db, items, quotes) {
            let (ls0, s0, d0, t0) = cart_pricing(db, items.take(n), quotes)->Ok_0;
            assert(ls == ls0.push(price_line(db, items[n], quotes[n], drawn(ls0, items[n].product_id))->Ok_0));
            assert forall|k: int| 0 <= k < ls.len() implies (#[trigger] ls[k]).product_id == items[k].product_id
                && ls[k].quantity == items[k].quantity && ls[k].discount_override == items[k].discount_override by {
                if k < n {
                    assert(ls[k] == ls0[k]);
                    assert(items.take(n)[k] == items[k]);
                }
            }
        }
    }
}

proof fn lemma_paid_for_concat(a: Seq<PaymentRecord>, b: Seq<PaymentRecord>, id: Seq<char>)
    ensures
        paid_for(a + b, id) == paid_for(a, id) + paid_for(b, id),
    decreases b.len(),
{
    if b.len() > 0 {
        lemma_paid_for_concat(a, b.drop_last(), id);
        assert((a + b).drop_last() =~= a + b.drop_last());
    } else {
        assert(a + b =~= a);
    }
}

proof fn lemma_paid_for_none(a: Seq<PaymentRecord>, id: Seq<char>)
    requires
        forall|i: int| 0 <= i < a.len() ==> (#[trigger] a[i]).sale_id@ != id,
    ensures
        paid_for(a, id) == 0,
    decreases a.len(),
{
    if a.len() > 0 {
        let f = a.drop_last();
        assert forall|i: int| 0 <= i < f.len() implies (#[trigger] f[i]).sale_id@ != id by {
            assert(f[i] == a[i]);
        }
        lemma_paid_for_none(f, id);
        assert(a[a.len() - 1].sale_id@ != id);
    }
}

proof fn lemma_paid_for_request(b: Seq<PaymentRecord>, ps: Seq<PaymentInput>, id: Seq<char>, now: Seq<char>)
    requires
        b.len() == ps.len(),
        forall|k: int| 0 <= k < b.len() ==> payment_for(#[trigger] b[k], id, ps[k], now),
    ensures
        paid_for(b, id) == payments_total(ps),
    decreases b.len(),
{
    if b.len() > 0 {
        let (f, g) = (b.drop_last(), ps.drop_last());
        assert forall|k: int| 0 <= k < f.len() implies payment_for(#[trigger] f[k], id, g[k], now) by {
            assert(f[k] == b[k] && g[k] == ps[k]);
        }
        lemma_paid_for_request(f, g, id, now);
        assert(payment_for(b[b.len() - 1], id, ps[ps.len() - 1], now));
    }
}

proof fn lemma_lines_of(old: Seq<SaleItemRecord>, new: Seq<SaleItemRecord>, id: Seq<char>, items: Seq<CartLineInput>)
    requires
        forall|i: int| 0 <= i < old.len() ==> (#[trigger] old[i]).sale_id@ != id,
        new.len() == items.len(),
        forall|k: int|
            0 <= k < new.len() ==> (#[trigger] new[k]).sale_id@ == id && new[k].product_id == items[k].product_id
                && new[k].quantity == items[k].quantity && new[k].discount_override == items[k].discount_override,
    ensures
        (old + new).filter(item_in_sale(id)).map_values(item_line()) == cart_lines(items),
{
    let pred = item_in_sale(id);
    lemma_filter_none(old, pred);
    lemma_filter_all(new, pred);
    Seq::filter_distributes_over_add(old, new, pred);
    assert((old + new).filter(pred) =~= new);
    let lv = new.map_values(item_line());
    assert forall|k: int| 0 <= k < new.len() implies #[trigger] lv[k] == cart_lines(items)[k] by {}
    assert(lv =~= cart_lines(items));
}

proof fn lemma_payments_of(old: Seq<PaymentRecord>, new: Seq<PaymentRecord>, id: Seq<char>, ps: Seq<PaymentInput>, now: Seq<char>)
    requires
        forall|i: int| 0 <= i < old.len() ==> (#[trigger] old[i]).sale_id@ != id,
        new.len() == ps.len(),
        forall|k: int| 0 <= k < new.len() ==> payment_for(#[trigger] new[k], id, ps[k], now),
    ensures
        (old + new).filter(payment_in_sale(id)).map_values(payment_line()) == request_payments(ps),
        paid_for(old + new, id) == payments_total(ps),
{
    let pred = payment_in_sale(id);
    lemma_filter_none(old, pred);
    assert forall|k: int| 0 <= k < new.len() implies pred(#[trigger] new[k]) by {
        assert(payment_for(new[k], id, ps[k], now));
    }
    lemma_filter_all(new, pred);
    Seq::filter_distributes_over_add(old, new, pred);
    assert((old + new).filter(pred) =~= new);
    let pv = new.map_values(payment_line());
    assert forall|k: int| 0 <= k < new.len() implies #[trigger] pv[k] == request_payments(ps)[k] by {
        assert(payment_for(new[k], id, ps[k], now));
    }
    assert(pv =~= request_payments(ps));
    lemma_paid_for_none(old, id);
    lemma_paid_for_request(new, ps, id, now);
    lemma_paid_for_concat(old, new, id);
}

/// No earlier sale item or payment belongs to the sale a checkout has just
/// written.
proof fn lemma_committed_fresh(
    db0: &Database,
    db1: &Database,
    user_id: i64,
    input: CheckoutInput,
    quotes: Seq<LineQuote>,
    ls: Seq<PricedLine>,
    s: int,
    d: int,
    t: int,
    sale_id: Seq<char>,
    invoice: Seq<char>,
)
    requires
        db0.wf(),
        db1.wf(),
        cart_pricing(db0, input.items@, quotes) == Ok::<(Seq<PricedLine>, int, int, int), (int, LineFailure)>(
            (ls, s, d, t),
        ),
        sale_committed(db0, db1, user_id, input, ls, s, d, t, sale_id, invoice),
    ensures
        forall|i: int| 0 <= i < db0.sale_items@.len() ==> (#[trigger] db0.sale_items@[i]).sale_id@ != sale_id,
        forall|i: int| 0 <= i < db0.payments@.len() ==> (#[trigger] db0.payments@[i]).sale_id@ != sale_id,
{
    let last = db0.sales@.len() as int;
    assert(db1.sales@[last] == db1.sales@.last());
    assert forall|i: int| 0 <= i < db0.sale_items@.len() implies (#[trigger] db0.sale_items@[i]).sale_id@ != sale_id by {
        let it = db0.sale_items@[i];
        assert(db0.has_sale(it.sale_id@));
        if it.sale_id@ == sale_id {
            let w = choose|w: int| 0 <= w < db0.sales@.len() && #[trigger] db0.sales@[w].id@ == it.sale_id@;
            assert(db1.sales@[w] == db1.sales@.drop_last()[w]);
            assert(db1.sales@[w].id@ != db1.sales@[last].id@);
        }
    }
    assert forall|i: int| 0 <= i < db0.payments@.len() implies (#[trigger] db0.payments@[i]).sale_id@ != sale_id by {
        let p = db0.payments@[i];
        assert(db0.payments@[i].amount > 0 && db0.has_sale(p.sale_id@));
        if p.sale_id@ == sale_id {
            let w = choose|w: int| 0 <= w < db0.sales@.len() && #[trigger] db0.sales@[w].id@ == p.sale_id@;
            assert(db1.sales@[w] == db1.sales@.drop_last()[w]);
            assert(db1.sales@[w].id@ != db1.sales@[last].id@);
        }
    }
}

/// The items of the sale a checkout has just written are its cart's lines.
proof fn lemma_committed_lines(
    db0: &Database,
    db1: &Database,
    user_id: i64,
    input: CheckoutInput,
    quotes: Seq<LineQuote>,
    ls: Seq<PricedLine>,
    s: int,
    d: int,
    t: int,
    sale_id: Seq<char>,
    invoice: Seq<char>,
)
    requires
        db0.wf(),
        db1.wf(),
        cart_pricing(db0, input.items@, quotes) == Ok::<(Seq<PricedLine>, int, int, int), (int, LineFailure)>(
            (ls, s, d, t),
        ),
        sale_committed(db0, db1, user_id, input, ls, s, d, t, sale_id, invoice),
    ensures
        stored_lines(db1, sale_id) == cart_lines(input.items@),
{
    lemma_priced_as_cart(db0, input.items@, quotes);
    lemma_committed_fresh(db0, db1, user_id, input, quotes, ls, s, d, t, sale_id, invoice);
    let si = db0.sale_items@.len() as int;
    let n = ls.len() as int;
    let items_new = db1.sale_items@.subrange(si, si + n);
    assert(db1.sale_items@ =~= db0.sale_items@ + items_new) by {
        assert forall|i: int| 0 <= i < si implies db1.sale_items@[i] == db0.sale_items@[i] by {
            assert(db1.sale_items@.take(si)[i] == db0.sale_items@[i]);
        }
    }
    assert forall|k: int| 0 <= k < items_new.len() implies (#[trigger] items_new[k]).sale_id@ == sale_id
        && items_new[k].product_id == input.items@[k].product_id && items_new[k].quantity == input.items@[k].quantity
        && items_new[k].discount_override == input.items@[k].discount_override by {
        assert(item_for(db1.sale_items@[si + k], sale_id, ls[k]));
        assert(ls[k].product_id == input.items@[k].product_id && ls[k].quantity == input.items@[k].quantity
            && ls[k].discount_override == input.items@[k].discount_override);
    }
    lemma_lines_of(db0.sale_items@, items_new, sale_id, input.items@);
}

/// The payments of the sale a checkout has just written are its request's
/// payments, and add up to what the request paid.
proof fn lemma_committed_payments(
    db0: &Database,
    db1: &Database,
    user_id: i64,
    input: CheckoutInput,
    quotes: Seq<LineQuote>,
    ls: Seq<PricedLine>,
    s: int,
    d: int,
    t: int,
    sale_id: Seq<char>,
    invoice: Seq<char>,
)
    requires
        db0.wf(),
        db1.wf(),
        cart_pricing(db0, input.items@, quotes) == Ok::<(Seq<PricedLine>, int, int, int), (int, LineFailure)>(
            (ls, s, d, t),
        ),
        sale_committed(db0, db1, user_id, input, ls, s, d, t, sale_id, invoice),
    ensures
        stored_payments(db1, sale_id) == request_payments(input.payments@),
        paid_for(db1.payments@, sale_id) == payments_total(input.payments@),
{
    lemma_committed_fresh(db0, db1, user_id, input, quotes, ls, s, d, t, sale_id, invoice);
    let p0 = db0.payments@.len() as int;
    let m = input.payments@.len() as int;
    let pays_new = db1.payments@.subrange(p0, p0 + m);
    assert(db1.payments@ =~= db0.payments@ + pays_new) by {
        assert forall|i: int| 0 <= i < p0 implies db1.payments@[i] == db0.payments@[i] by {
            assert(db1.payments@.take(p0)[i] == db0.payments@[i]);
        }
    }
    assert forall|k: int| 0 <= k < pays_new.len() implies payment_for(#[trigger] pays_new[k], sale_id, input.payments@[k], db0.clock()) by {
        assert(payment_for(db1.payments@[p0 + k], sale_id, input.payments@[k], db0.clock()));
    }
    lemma_payments_of(db0.payments@, pays_new, sale_id, input.payments@, db0.clock());
}

/// Retrying a checkout with the same request under the idempotency key of
/// a checkout that created its sale answers with that sale and the same
/// change, and writes nothing.
pub proof fn law_identical_retry_returns_the_sale(
    db0: &Database,
    db1: &Database,
    db2: &Database,
    u1: i64,
    u2: i64,
    in1: CheckoutInput,
    in2: CheckoutInput,
    q1: Seq<LineQuote>,
    q2: Seq<LineQuote>,
    id1: Seq<char>,
    id2: Seq<char>,
    r1: Result<CheckoutResult, SalesError>,
    r2: Result<CheckoutResult, SalesError>,
)
    requires
        db0.wf(),
        db1.wf(),
        checkout_answer(db0, db1, u1, in1, q1, id1, r1),
        r1 is Ok,
        in1.idempotency_key is Some,
        replay_of(db0, in1) is None,
        opt_text(in2.idempotency_key) == opt_text(in1.idempotency_key),
        in2.customer_id == in1.customer_id,
        cart_lines(in2.items@) == cart_lines(in1.items@),
        request_payments(in2.payments@) == request_payments(in1.payments@),
        checkout_invalid(in2) is None,
        checkout_answer(db1, db2, u2, in2, q2, id2, r2),
    ensures
        r2 matches Ok(b) && b.sale.id == r1->Ok_0.sale.id && b.change == r1->Ok_0.change,
        db1.same_tables(db2),
{
    let k = in1.idempotency_key->0;
    assert(checkout_invalid(in1) is None);
    let (ls, s, d, t) = cart_pricing(db0, in1.items@, q1)->Ok_0;
    assert(settle_answer(db0, db1, u1, in1, ls, s, d, t, id1, r1));
    let last = db0.sales@.len() as int;
    assert(db1.sales@[last] == db1.sales@.last());
    lemma_sale_with_key(db1, k@, last);
    assert(replay_of(db1, in2) == Some(last));
    lemma_committed_lines(db0, db1, u1, in1, q1, ls, s, d, t, id1, next_invoice(db0));
    lemma_committed_payments(db0, db1, u1, in1, q1, ls, s, d, t, id1, next_invoice(db0));
    assert(db1.sales@[last].customer_id == in1.customer_id);
    assert(same_request(db1, last, in2));
    assert(payments_total(in2.payments@) == payments_total(in1.payments@)) by {
        lemma_request_total(in1.payments@, in2.payments@);
    }
    assert(replay_answer(db1, last, in2, r2));
    assert(r1->Ok_0.sale.id@ == id1);
    assert(r2->Ok_0.sale.id == db1.sales@[last].id);
    assert(r1->Ok_0.sale.id == db1.sales@[last].id);
}

proof fn lemma_request_total(a: Seq<PaymentInput>, b: Seq<PaymentInput>)
    requires
        request_payments(a) == request_payments(b),
    ensures
        payments_total(a) == payments_total(b),
    decreases a.len(),
{
    assert(a.len() == request_payments(a).len());
    assert(b.len() == request_payments(b).len());
    if a.len() > 0 {
        assert(request_payments(a.drop_last()) =~= request_payments(b.drop_last())) by {
            assert forall|k: int| 0 <= k < a.len() - 1 implies request_payments(a.drop_last())[k]
                == request_payments(b.drop_last())[k] by {
                assert(request_payments(a)[k] == request_payments(b)[k]);
            }
        }
        lemma_request_total(a.drop_last(), b.drop_last());
        assert(request_payments(a)[a.len() - 1] == request_payments(b)[b.len() - 1]);
    }
}

/// The sale history is listed newest first and never skips a newer sale:
/// every listed sale was created no later than the one listed before it;
/// a sale of the asked-for status created after a listed one is listed
/// too; at most 100 are listed, and when fewer are, every sale of that
/// status is.
pub proof fn law_sales_listed_newest_first(
    db: &Database,
    query: crate::sales::SaleListQuery,
    rows: Seq<crate::db::repositories::sales::SaleRow>,
    v: Seq<crate::sales::SaleSummaryDto>,
)
    requires
        db.wf(),
        crate::db::repositories::sales::lists_sales(db, &crate::sales::list_filter(query), rows),
        v == rows.map_values(|s: crate::db::repositories::sales::SaleRow| crate::sales::SaleSummaryDto::of(s)),
    ensures
        v.len() <= 100,
        forall|a: int, b: int|
            0 <= a < b < v.len() ==> crate::order::lex_lt(#[trigger] v[b].created_at@, #[trigger] v[a].created_at@)
                || v[b].created_at@ == v[a].created_at@,
        forall|j: int, k: int|
            0 <= j < db.sales@.len() && (query.status matches Some(st) ==> db.sales@[j].status@ == st@) && 0 <= k
                < v.len() && crate::order::lex_lt(#[trigger] v[k].created_at@, #[trigger] db.sales@[j].created_at@)
                ==> exists|m: int| 0 <= m < v.len() && #[trigger] v[m].id == db.sales@[j].id,
        v.len() < 100 ==> forall|j: int|
            #![trigger db.sales@[j]]
            0 <= j < db.sales@.len() && (query.status matches Some(st) ==> db.sales@[j].status@ == st@)
                ==> exists|m: int| 0 <= m < v.len() && #[trigger] v[m].id == db.sales@[j].id,
{
    let f = crate::sales::list_filter(query);
    let pred = crate::db::repositories::sales::sale_of_status(db, f.status);
    let key = crate::db::repositories::sales::sale_time(db);
    let pos = choose|pos: Seq<int>|
        {
            &&& #[trigger] crate::order::enumerates_sorted(pos, db.sales@.len() as int, pred, key)
            &&& rows.len() == crate::db::repositories::stock_movements::limited(
                crate::db::repositories::sales::effective_limit(f.limit),
                pos.len() as int,
            )
            &&& forall|k: int| 0 <= k < rows.len() ==> crate::db::repositories::sales::row_matches(db, rows[k], pos[pos.len() - 1 - k])
        };
    let n = pos.len() as int;
    assert forall|a: int, b: int|
        0 <= a < b < v.len() implies crate::order::lex_lt(#[trigger] v[b].created_at@, #[trigger] v[a].created_at@)
        || v[b].created_at@ == v[a].created_at@ by {
        assert(crate::db::repositories::sales::row_matches(db, rows[a], pos[n - 1 - a]));
        assert(crate::db::repositories::sales::row_matches(db, rows[b], pos[n - 1 - b]));
        assert(0 <= n - 1 - b < n - 1 - a < n);
        assert(crate::order::lex_lt(key(pos[n - 1 - b]), key(pos[n - 1 - a])) || key(pos[n - 1 - b]) == key(
            pos[n - 1 - a],
        ));
    }
    assert forall|j: int, k: int|
        0 <= j < db.sales@.len() && (query.status matches Some(st) ==> db.sales@[j].status@ == st@) && 0 <= k
            < v.len() && crate::order::lex_lt(#[trigger] v[k].created_at@, #[trigger] db.sales@[j].created_at@)
            implies exists|m: int| 0 <= m < v.len() && #[trigger] v[m].id == db.sales@[j].id by {
        assert(pred(j));
        assert(pos.contains(j));
        let q = choose|q: int| 0 <= q < n && pos[q] == j;
        assert(crate::db::repositories::sales::row_matches(db, rows[k], pos[n - 1 - k]));
        let kk = n - 1 - k;
        crate::order::lemma_lex_irreflexive(key(j));
        crate::order::lemma_lex_trichotomy(key(j), key(pos[kk]));
        if q < kk {
            assert(crate::order::lex_lt(key(pos[q]), key(pos[kk])) || key(pos[q]) == key(pos[kk]));
        }
        assert(q > kk);
        let m = n - 1 - q;
        assert(crate::db::repositories::sales::row_matches(db, rows[m], pos[n - 1 - m]));
        assert(v[m].id == db.sales@[j].id);
    }
    if v.len() < 100 {
        assert(rows.len() == n);
        assert forall|j: int|
            #![trigger db.sales@[j]]
            0 <= j < db.sales@.len() && (query.status matches Some(st) ==> db.sales@[j].status@ == st@)
                implies exists|m: int| 0 <= m < v.len() && #[trigger] v[m].id == db.sales@[j].id by {
            assert(pred(j));
            assert(pos.contains(j));
            let q = choose|q: int| 0 <= q < n && pos[q] == j;
            let m = n - 1 - q;
            assert(crate::db::repositories::sales::row_matches(db, rows[m], pos[n - 1 - m]));
            assert(v[m].id == db.sales@[j].id);
        }
    }
}

/// Each priced line is its line priced after the earlier lines of the cart
/// took their units of its product.
proof fn lemma_priced_lines_each(db: &Database, items: Seq<CartLineInput>, quotes: Seq<LineQuote>)
    ensures
        cart_pricing(db, items, quotes) matches Ok((ls, _s, _d, _t)) ==> ls.len() == items.len() && forall|k: int|
            0 <= k < ls.len() ==> price_line(db, items[k], quotes[k], drawn(ls.take(k), items[k].product_id))
                == Ok::<PricedLine, LineFailure>(#[trigger] ls[k]),
    decreases items.len(),
{
    if items.len() > 0 {
        let n = items.len() - 1;
        lemma_priced_lines_each(db, items.take(n), quotes);
        if let Ok((ls, _s, _d, _t)) = cart_pricing(db, items, quotes) {
            let (ls0, s0, d0, t0) = cart_pricing(db, items.take(n), quotes)->Ok_0;
            assert(ls == ls0.push(price_line(db, items[n], quotes[n], drawn(ls0, items[n].product_id))->Ok_0));
            assert forall|k: int| 0 <= k < ls.len() implies price_line(
                db,
                items[k],
                quotes[k],
                drawn(ls.take(k), items[k].product_id),
            ) == Ok::<PricedLine, LineFailure>(#[trigger] ls[k]) by {
                if k < n {
                    assert(ls[k] == ls0[k]);
                    assert(items.take(n)[k] == items[k]);
                    assert(ls.take(k) =~= ls0.take(k));
                } else {
                    assert(ls.take(k) =~= ls0);
                }
            }
        }
    }
}

/// The product of `line` carries an active fixed discount of `value`, and
/// the line asks for no manual discount.
pub open spec fn fixed_discount_of(db: &Database, line: CartLineInput, value: i64) -> bool {
    let p = db.products@[line.product_id - 1];
    &&& line.discount_override is None
    &&& p.discount_id matches Some(id) && 1 <= id <= db.discounts@.len() && db.discounts@[id - 1].is_active
        && db.discounts@[id - 1].kind@ == "fixed"@ && db.discounts@[id - 1].value == value
}

/// A fixed discount takes its amount off every unit: in a priced cart, a
/// line of `q` units of a product whose own active fixed discount is `v`,
/// with no manual discount and a subtotal of at least `v × q` (and `v × q`
/// not negative), gets the discount `v × q`, and its total is its subtotal
/// less `v × q`, plus its tax.
pub proof fn law_fixed_discount_applies_per_unit(
    db: &Database,
    items: Seq<CartLineInput>,
    quotes: Seq<LineQuote>,
    c: crate::sales::pricing::PricedCart,
    i: int,
    value: i64,
)
    requires
        cart_pricing(db, items, quotes) matches Ok(p) && crate::sales::pricing::priced_as(c, p),
        0 <= i < items.len(),
        fixed_discount_of(db, items[i], value),
        0 <= value * items[i].quantity <= db.products@[items[i].product_id - 1].selling_price * items[i].quantity,
    ensures
        c.lines@[i].discount == value * items[i].quantity,
        c.lines@[i].unit_price == db.products@[items[i].product_id - 1].selling_price,
        c.lines@[i].line_total == db.products@[items[i].product_id - 1].selling_price * items[i].quantity - value
            * items[i].quantity + c.lines@[i].tax,
{
    lemma_priced_lines_each(db, items, quotes);
    reveal_strlit("fixed");
    reveal_strlit("percent");
    let ls = c.lines@;
    assert(price_line(db, items[i], quotes[i], drawn(ls.take(i), items[i].product_id)) == Ok::<
        PricedLine,
        LineFailure,
    >(ls[i]));
    assert("fixed"@ != "percent"@) by {
        assert("fixed"@[0] != "percent"@[0]);
    }
}

/// A checkout of one line of `q` units of a product whose own active fixed
/// discount is `v`, without a manual discount, whose subtotal is at least
/// `v × q` (and `v × q` not negative), that records a new sale, records and
/// shows the discount `v × q`, the total `subtotal − v × q + tax`, and the
/// payments less that total as change.
pub proof fn law_checkout_fixed_discount_per_unit(
    old: &Database,
    new: &Database,
    user_id: i64,
    input: CheckoutInput,
    quotes: Seq<LineQuote>,
    sale_id: Seq<char>,
    r: Result<CheckoutResult, SalesError>,
    value: i64,
)
    requires
        old.wf(),
        checkout_answer(old, new, user_id, input, quotes, sale_id, r),
        r is Ok,
        replay_of(old, input) is None,
        input.items@.len() == 1,
        fixed_discount_of(old, input.items@[0], value),
        0 <= value * input.items@[0].quantity <= old.products@[input.items@[0].product_id - 1].selling_price
            * input.items@[0].quantity,
    ensures
        ({
            let q = input.items@[0].quantity;
            let sub = old.products@[input.items@[0].product_id - 1].selling_price * q;
            let res = r->Ok_0;
            &&& res.sale.subtotal == sub
            &&& res.sale.discount_total == value * q
            &&& res.sale.total == sub - value * q + res.sale.tax_total
            &&& res.change == payments_total(input.payments@) - res.sale.total
            &&& new.sales@.last().discount_total == value * q
            &&& new.sales@.last().total == sub - value * q + new.sales@.last().tax_total
        }),
{
    let items = input.items@;
    assert(checkout_invalid(input) is None);
    let (ls, s, d, t) = cart_pricing(old, items, quotes)->Ok_0;
    assert(items.take(0) =~= Seq::<CartLineInput>::empty());
    assert(cart_pricing(old, items.take(0), quotes) == Ok::<(Seq<PricedLine>, int, int, int), (int, LineFailure)>(
        (Seq::empty(), 0, 0, 0),
    ));
    lemma_priced_lines_each(old, items, quotes);
    reveal_strlit("fixed");
    reveal_strlit("percent");
    assert("fixed"@ != "percent"@) by {
        assert("fixed"@[0] != "percent"@[0]);
    }
    assert(ls.take(0) =~= Seq::<PricedLine>::empty());
    assert(price_line(old, items[0], quotes[0], drawn(ls.take(0), items[0].product_id)) == Ok::<
        PricedLine,
        LineFailure,
    >(ls[0]));
    assert(ls[0].discount == value * items[0].quantity);
    assert(d == ls[0].discount);
    assert(s == ls[0].unit_price * ls[0].quantity);
    let res = r->Ok_0;
    assert(shows_sale(new, res.sale, old.sales@.len() as int));
}

} // verus!
