//! What a cart costs: request validation, each line's subtotal, discount,
//! tax and total, and the running totals, with every amount kept in the
//! 64-bit range.

use vstd::prelude::*;

use crate::db::repositories::discounts;
use crate::db::repositories::products::live;
use crate::db::repositories::taxes;
use crate::db::{Database, DbError};
use crate::sales::{CartLineInput, CheckoutInput, PaymentInput, SalesError};
use crate::text::{join, owned, text_is};

verus! {

// ---------------------------------------------------------------------
// Request validation

pub open spec fn is_payment_method(m: Seq<char>) -> bool {
    m == "cash"@ || m == "card"@ || m == "bank_transfer"@ || m == "other"@
}

pub open spec fn payment_ok(p: PaymentInput) -> bool {
    is_payment_method(p.method@) && p.amount > 0
}

/// The position of the first payment that is rejected.
pub open spec fn first_bad_payment(ps: Seq<PaymentInput>) -> Option<int>
    decreases ps.len(),
{
    if ps.len() == 0 {
        None
    } else {
        match first_bad_payment(ps.drop_last()) {
            Some(i) => Some(i),
            None => if payment_ok(ps.last()) {
                None
            } else {
                Some(ps.len() - 1)
            },
        }
    }
}

pub open spec fn payment_message(p: PaymentInput) -> Seq<char> {
    if !is_payment_method(p.method@) {
        "Unknown payment method: "@ + p.method@
    } else {
        "Payment amounts must be greater than zero"@
    }
}

/// The message a malformed checkout request is rejected with, checked in
/// this order: no items, a non-positive quantity, no payments, then the
/// first payment with an unknown method or a non-positive amount.
pub open spec fn checkout_invalid(input: CheckoutInput) -> Option<Seq<char>> {
    if input.items@.len() == 0 {
        Some("A sale must have at least one item"@)
    } else if exists|i: int| 0 <= i < input.items@.len() && #[trigger] input.items@[i].quantity <= 0 {
        Some("Quantity must be greater than zero"@)
    } else if input.payments@.len() == 0 {
        Some("A sale must have at least one payment"@)
    } else {
        match first_bad_payment(input.payments@) {
            Some(i) => Some(payment_message(input.payments@[i])),
            None => None,
        }
    }
}

fn is_payment_method_text(m: &String) -> (r: bool)
    ensures
        r == is_payment_method(m@),
{
    text_is(m, "cash") || text_is(m, "card") || text_is(m, "bank_transfer") || text_is(m, "other")
}

/// Checks a checkout request before anything is read from the store.
pub fn validate_checkout(input: &CheckoutInput) -> (r: Result<(), SalesError>)
    ensures
        match checkout_invalid(*input) {
            Some(msg) => r matches Err(SalesError::Validation(m)) && m@ == msg,
            None => r is Ok,
        },
{
    if input.items.len() == 0 {
        return Err(SalesError::Validation(owned("A sale must have at least one item")));
    }
    let mut i: usize = 0;
    while i < input.items.len()
        invariant
            i <= input.items@.len(),
            forall|t: int| 0 <= t < i ==> #[trigger] input.items@[t].quantity > 0,
        decreases input.items@.len() - i,
    {
        if input.items[i].quantity <= 0 {
            return Err(SalesError::Validation(owned("Quantity must be greater than zero")));
        }
        i = i + 1;
    }
    if input.payments.len() == 0 {
        return Err(SalesError::Validation(owned("A sale must have at least one payment")));
    }
    let ghost ps = input.payments@;
    let mut k: usize = 0;
    while k < input.payments.len()
        invariant
            ps == input.payments@,
            k <= ps.len(),
            ps.len() > 0,
            input.items@.len() > 0,
            forall|t: int| 0 <= t < input.items@.len() ==> #[trigger] input.items@[t].quantity > 0,
            first_bad_payment(ps.take(k as int)) is None,
        decreases ps.len() - k,
    {
        let p = &input.payments[k];
        assert(ps.take(k + 1).drop_last() =~= ps.take(k as int));
        if !is_payment_method_text(&p.method) {
            proof {
                lemma_first_bad_prefix(ps, k as int);
            }
            return Err(SalesError::Validation(join("Unknown payment method: ", p.method.as_str())));
        }
        if p.amount <= 0 {
            proof {
                lemma_first_bad_prefix(ps, k as int);
            }
            return Err(SalesError::Validation(owned("Payment amounts must be greater than zero")));
        }
        k = k + 1;
    }
    assert(ps.take(ps.len() as int) =~= ps);
    Ok(())
}

/// Once a prefix is clean and the next payment is bad, that payment is the
/// first bad one of the whole list.
proof fn lemma_first_bad_prefix(ps: Seq<PaymentInput>, k: int)
    requires
        0 <= k < ps.len(),
        first_bad_payment(ps.take(k)) is None,
        !payment_ok(ps[k]),
    ensures
        first_bad_payment(ps) == Some(k),
    decreases ps.len(),
{
    assert(ps.take(k + 1).drop_last() =~= ps.take(k));
    if k + 1 < ps.len() {
        assert(ps.drop_last().take(k) =~= ps.take(k));
        lemma_first_bad_prefix(ps.drop_last(), k);
    } else {
        assert(ps.take(k + 1) =~= ps);
    }
}

// ---------------------------------------------------------------------
// Line pricing

pub open spec fn fits(x: int) -> bool {
    i64::MIN <= x <= i64::MAX
}

/// `i64::clamp`.
pub open spec fn clamp(x: int, lo: int, hi: int) -> int {
    if x < lo {
        lo
    } else if x > hi {
        hi
    } else {
        x
    }
}

/// The amounts of a line that are computed in floating point, by the
/// caller: the discount of a percent discount (`subtotal × percent / 100`,
/// rounded) and the tax (the taxable amount times the rate, rounded).
#[derive(Clone, Copy)]
pub struct LineQuote {
    pub discount: i64,
    pub tax: i64,
}

/// The discount a product's own discount gives a line of `quantity` units
/// worth `sub`: nothing without an active discount, the quoted amount `dq`
/// (`value`% of `sub`, rounded) for a percent discount, `value` per unit
/// for a fixed one, always kept within `0..=sub`. `None` when the fixed
/// amount leaves the 64-bit range.
pub open spec fn line_discount(
    db: &Database,
    discount_id: Option<i64>,
    quantity: i64,
    sub: int,
    dq: i64,
) -> Option<int> {
    match discount_id {
        None => Some(0),
        Some(id) => if !(1 <= id <= db.discounts@.len()) {
            Some(0)
        } else {
            let d = db.discounts@[id - 1];
            if !d.is_active {
                Some(0)
            } else if d.kind@ == "percent"@ {
                Some(clamp(dq as int, 0, sub))
            } else if d.kind@ == "fixed"@ {
                if fits(d.value * quantity) {
                    Some(clamp(d.value * quantity, 0, sub))
                } else {
                    None
                }
            } else {
                Some(clamp(0, 0, sub))
            }
        },
    }
}

/// The product's tax applies: it names an existing, active tax.
pub open spec fn is_taxed(db: &Database, tax_id: Option<i64>) -> bool {
    tax_id matches Some(t) && 1 <= t <= db.taxes@.len() && db.taxes@[t - 1].is_active
}

pub enum LineFailure {
    NotFound,
    Inactive,
    /// Fewer units are left, after the earlier lines, than the line asks for.
    Short,
    Overflow,
}

/// The units of product `pid` that the lines take.
pub open spec fn drawn(ls: Seq<PricedLine>, pid: i64) -> int
    decreases ls.len(),
{
    if ls.len() == 0 {
        0
    } else {
        drawn(ls.drop_last(), pid) + if ls.last().product_id == pid {
            ls.last().quantity as int
        } else {
            0
        }
    }
}

pub proof fn lemma_drawn_step(ls: Seq<PricedLine>, k: int, pid: i64)
    requires
        0 <= k < ls.len(),
    ensures
        drawn(ls.take(k + 1), pid) == drawn(ls.take(k), pid) + if ls[k].product_id == pid {
            ls[k].quantity as int
        } else {
            0
        },
{
    assert(ls.take(k + 1).drop_last() =~= ls.take(k));
}

pub proof fn lemma_drawn_monotone(ls: Seq<PricedLine>, j: int, k: int, pid: i64)
    requires
        0 <= j <= k <= ls.len(),
        forall|i: int| 0 <= i < ls.len() ==> #[trigger] ls[i].quantity > 0,
    ensures
        drawn(ls.take(j), pid) <= drawn(ls.take(k), pid),
    decreases k - j,
{
    if j < k {
        lemma_drawn_monotone(ls, j, k - 1, pid);
        lemma_drawn_step(ls, k - 1, pid);
    }
}

/// The earlier lines take no more of any product than its stock holds
/// (nothing of a product whose stock is not positive).
pub open spec fn within_stock(db: &Database, ls: Seq<PricedLine>) -> bool {
    &&& forall|i: int| 0 <= i < ls.len() ==> #[trigger] ls[i].quantity > 0
    &&& forall|j: int|
        0 <= j < db.products@.len() ==> drawn(ls, (j + 1) as i64) <= if #[trigger] db.products@[j].current_stock
            > 0 {
            db.products@[j].current_stock as int
        } else {
            0
        }
}

/// A line's subtotal and discount, or why it cannot be sold, when earlier
/// lines of the cart already take `taken` units of its product; `dq` is the
/// quoted percent discount.
pub open spec fn line_base(db: &Database, line: CartLineInput, dq: i64, taken: int) -> Result<
    (int, int),
    LineFailure,
> {
    if !live(db, line.product_id) {
        Err(LineFailure::NotFound)
    } else {
        let p = db.products@[line.product_id - 1];
        if !p.is_active {
            Err(LineFailure::Inactive)
        } else if p.current_stock - taken < line.quantity {
            Err(LineFailure::Short)
        } else {
            let sub = p.selling_price * line.quantity;
            if !fits(sub) {
                Err(LineFailure::Overflow)
            } else {
                match line.discount_override {
                    Some(a) => Ok((sub, clamp(a as int, 0, sub))),
                    None => match line_discount(db, p.discount_id, line.quantity, sub, dq) {
                        Some(d) => Ok((sub, d)),
                        None => Err(LineFailure::Overflow),
                    },
                }
            }
        }
    }
}

pub struct PricedLine {
    pub product_id: i64,
    pub quantity: i64,
    pub unit_price: i64,
    pub discount: i64,
    pub tax: i64,
    pub line_total: i64,
    /// The line's manual discount, as requested.
    pub discount_override: Option<i64>,
}

/// The tax of a line: the quoted tax (computed on the line's taxable
/// amount at the tax's rate) when the product's tax applies, else nothing.
pub open spec fn line_tax(db: &Database, line: CartLineInput, quote: LineQuote) -> int {
    if is_taxed(db, db.products@[line.product_id - 1].tax_id) {
        quote.tax as int
    } else {
        0
    }
}

pub open spec fn price_line(db: &Database, line: CartLineInput, quote: LineQuote, taken: int) -> Result<
    PricedLine,
    LineFailure,
> {
    match line_base(db, line, quote.discount, taken) {
        Err(f) => Err(f),
        Ok((sub, d)) => {
            let tax = line_tax(db, line, quote);
            if !fits(sub - d + tax) {
                Err(LineFailure::Overflow)
            } else {
                Ok(
                    PricedLine {
                        product_id: line.product_id,
                        quantity: line.quantity,
                        unit_price: db.products@[line.product_id - 1].selling_price,
                        discount: d as i64,
                        tax: tax as i64,
                        line_total: (sub - d + tax) as i64,
                        discount_override: line.discount_override,
                    },
                )
            }
        },
    }
}

/// The priced lines of a cart with its running subtotal, discount total
/// and tax total, or the first line that fails and why. `quotes[i]` holds
/// the discount and tax quoted for line `i`. A line can take only the stock
/// that the earlier lines leave of its product.
pub open spec fn cart_pricing(db: &Database, items: Seq<CartLineInput>, quotes: Seq<LineQuote>) -> Result<
    (Seq<PricedLine>, int, int, int),
    (int, LineFailure),
>
    decreases items.len(),
{
    if items.len() == 0 {
        Ok((Seq::empty(), 0, 0, 0))
    } else {
        let n = items.len() - 1;
        match cart_pricing(db, items.take(n), quotes) {
            Err(e) => Err(e),
            Ok((ls, s, d, t)) => match price_line(db, items[n], quotes[n], drawn(ls, items[n].product_id)) {
                Err(f) => Err((n, f)),
                Ok(l) => {
                    let s2 = s + l.unit_price * l.quantity;
                    let d2 = d + l.discount;
                    let t2 = t + l.tax;
                    if fits(s2) && fits(d2) && fits(t2) {
                        Ok((ls.push(l), s2, d2, t2))
                    } else {
                        Err((n, LineFailure::Overflow))
                    }
                }
            },
        }
    }
}

/// Pricing `line` (after earlier lines took `taken` units of its product)
/// reaches the clamping of its discount to `0..=subtotal` with a negative
/// subtotal: a product with a negative price, and a manual discount or an
/// active discount of the product's own. `i64::clamp` panics there.
pub open spec fn clamps_negative(db: &Database, line: CartLineInput, taken: int) -> bool {
    let p = db.products@[line.product_id - 1];
    let sub = p.selling_price * line.quantity;
    &&& live(db, line.product_id)
    &&& p.is_active
    &&& p.current_stock - taken >= line.quantity
    &&& fits(sub)
    &&& sub < 0
    &&& (line.discount_override is Some || (p.discount_id matches Some(id) && 1 <= id <= db.discounts@.len()
        && db.discounts@[id - 1].is_active))
}

/// Pricing the cart never reaches such a clamp.
pub open spec fn cart_clamps_ok(db: &Database, items: Seq<CartLineInput>, quotes: Seq<LineQuote>) -> bool {
    forall|i: int|
        0 <= i < items.len() ==> !(#[trigger] cart_pricing(db, items.take(i), quotes) matches Ok((ls, _s, _d, _t))
            && clamps_negative(db, items[i], drawn(ls, items[i].product_id)))
}

/// `r` is the error a line failing with `f` is reported with.
pub open spec fn line_error(db: &Database, line: CartLineInput, f: LineFailure, r: SalesError) -> bool {
    let p = db.products@[line.product_id - 1];
    match f {
        LineFailure::NotFound => r is ProductNotFound,
        LineFailure::Inactive => r matches SalesError::Validation(m) && m@ == p.name@ + " is not active"@,
        LineFailure::Short => r matches SalesError::InsufficientStock { product_name, available, requested }
            && product_name@ == p.name@ && available == p.current_stock && requested == line.quantity,
        LineFailure::Overflow => r matches SalesError::Db(DbError::Overflow),
    }
}

fn clamp_exec(x: i64, lo: i64, hi: i64) -> (r: i64)
    ensures
        r == clamp(x as int, lo as int, hi as int),
{
    if x < lo {
        lo
    } else if x > hi {
        hi
    } else {
        x
    }
}

/// The discount of a product's own discount on a line (see `line_discount`).
fn product_discount(db: &Database, discount_id: Option<i64>, quantity: i64, sub: i64, dq: i64) -> (r: Option<i64>)
    requires
        db.wf(),
    ensures
        r == (match line_discount(db, discount_id, quantity, sub as int, dq) {
            Some(d) => Some(d as i64),
            None => None,
        }),
{
    let id = match discount_id {
        Some(id) => id,
        None => {
            return Some(0);
        },
    };
    let d = match discounts::find_by_id(db, id) {
        Some(d) => d,
        None => {
            return Some(0);
        },
    };
    if !d.is_active {
        return Some(0);
    }
    if text_is(&d.kind, "percent") {
        Some(clamp_exec(dq, 0, sub))
    } else if text_is(&d.kind, "fixed") {
        match d.value.checked_mul(quantity) {
            Some(v) => Some(clamp_exec(v, 0, sub)),
            None => None,
        }
    } else {
        Some(clamp_exec(0, 0, sub))
    }
}

/// Whether the product's tax applies (see `is_taxed`), with the tax's
/// rate when it does.
pub fn applied_tax_rate(db: &Database, tax_id: Option<i64>) -> (r: Option<u64>)
    requires
        db.wf(),
    ensures
        r is Some <==> is_taxed(db, tax_id),
        r matches Some(bits) ==> bits == db.taxes@[tax_id->0 - 1].rate_bits,
{
    let id = match tax_id {
        Some(id) => id,
        None => {
            return None;
        },
    };
    match taxes::find_by_id(db, id) {
        Some(t) => if t.is_active {
            Some(t.rate_bits)
        } else {
            None
        },
        None => None,
    }
}

/// The units of `pid` that the lines take (see `drawn`).
fn drawn_exec(ls: &Vec<PricedLine>, pid: i64) -> (r: i64)
    requires
        forall|i: int| 0 <= i < ls@.len() ==> #[trigger] ls@[i].quantity > 0,
        drawn(ls@, pid) <= i64::MAX,
    ensures
        r == drawn(ls@, pid),
{
    let mut acc: i64 = 0;
    let mut k: usize = 0;
    assert(ls@.take(0) =~= Seq::<PricedLine>::empty());
    while k < ls.len()
        invariant
            k <= ls@.len(),
            forall|i: int| 0 <= i < ls@.len() ==> #[trigger] ls@[i].quantity > 0,
            drawn(ls@, pid) <= i64::MAX,
            acc == drawn(ls@.take(k as int), pid),
        decreases ls@.len() - k,
    {
        proof {
            lemma_drawn_step(ls@, k as int, pid);
            lemma_drawn_monotone(ls@, k + 1, ls@.len() as int, pid);
            lemma_drawn_monotone(ls@, 0, k as int, pid);
            assert(ls@.take(ls@.len() as int) =~= ls@);
        }
        if ls[k].product_id == pid {
            acc = acc + ls[k].quantity;
        }
        k = k + 1;
    }
    assert(ls@.take(ls@.len() as int) =~= ls@);
    acc
}

/// The subtotal and discount of a line after the lines `ls` (see
/// `line_base`).
fn line_base_exec(db: &Database, line: &CartLineInput, dq: i64, ls: &Vec<PricedLine>) -> (r: Result<
    (i64, i64),
    SalesError,
>)
    requires
        db.wf(),
        line.quantity > 0,
        within_stock(db, ls@),
    ensures
        match line_base(db, *line, dq, drawn(ls@, line.product_id)) {
            Ok((sub, d)) => r == Ok::<(i64, i64), SalesError>((sub as i64, d as i64)),
            Err(f) => r matches Err(e) && line_error(db, *line, f, e),
        },
{
    if !(1 <= line.product_id && line.product_id as u64 <= db.products.len() as u64) || db.products[(
    line.product_id - 1) as usize].deleted {
        return Err(SalesError::ProductNotFound);
    }
    let p = &db.products[(line.product_id - 1) as usize];
    if !p.is_active {
        return Err(SalesError::Validation(join(p.name.as_str(), " is not active")));
    }
    assert(db.products@[line.product_id - 1] == *p);
    proof {
        lemma_drawn_monotone(ls@, 0, ls@.len() as int, line.product_id);
        assert(ls@.take(ls@.len() as int) =~= ls@);
        assert(ls@.take(0) =~= Seq::<PricedLine>::empty());
        let j = line.product_id - 1;
        assert(drawn(ls@, (j + 1) as i64) <= if db.products@[j].current_stock > 0 {
            db.products@[j].current_stock as int
        } else {
            0
        });
    }
    let taken = drawn_exec(ls, line.product_id);
    let left = p.current_stock - taken;
    if left < line.quantity {
        return Err(
            SalesError::InsufficientStock {
                product_name: p.name.clone(),
                available: p.current_stock,
                requested: line.quantity,
            },
        );
    }
    let sub = match p.selling_price.checked_mul(line.quantity) {
        Some(v) => v,
        None => {
            return Err(SalesError::Db(DbError::Overflow));
        },
    };
    let d = match line.discount_override {
        Some(a) => clamp_exec(a, 0, sub),
        None => match product_discount(db, p.discount_id, line.quantity, sub, dq) {
            Some(d) => d,
            None => {
                return Err(SalesError::Db(DbError::Overflow));
            },
        },
    };
    Ok((sub, d))
}


/// Prices one line; `quote` holds the discount and tax quoted for it. Also
/// returns the line's subtotal.
fn price_line_exec(db: &Database, line: &CartLineInput, quote: LineQuote, ls: &Vec<PricedLine>) -> (r: Result<
    (PricedLine, i64),
    SalesError,
>)
    requires
        db.wf(),
        line.quantity > 0,
        within_stock(db, ls@),
    ensures
        match price_line(db, *line, quote, drawn(ls@, line.product_id)) {
            Ok(l) => r matches Ok((l2, sub)) && l2 == l && sub == l.unit_price * l.quantity,
            Err(f) => r matches Err(e) && line_error(db, *line, f, e),
        },
{
    let (sub, d) = match line_base_exec(db, line, quote.discount, ls) {
        Ok(v) => v,
        Err(e) => {
            return Err(e);
        },
    };
    let _ = db.products.len();
    let p = &db.products[(line.product_id - 1) as usize];
    let tax: i64 = if applied_tax_rate(db, p.tax_id).is_some() {
        quote.tax
    } else {
        0
    };
    let net = sub - d;
    match net.checked_add(tax) {
        None => Err(SalesError::Db(DbError::Overflow)),
        Some(total) => Ok(
            (
                PricedLine {
                    product_id: line.product_id,
                    quantity: line.quantity,
                    unit_price: p.selling_price,
                    discount: d,
                    tax,
                    line_total: total,
                    discount_override: line.discount_override,
                },
                sub,
            ),
        ),
    }
}

/// An error at some line stays the outcome of every longer cart.
proof fn lemma_pricing_error_persists(db: &Database, items: Seq<CartLineInput>, quotes: Seq<LineQuote>, k: int)
    requires
        0 < k <= items.len(),
        cart_pricing(db, items.take(k), quotes) is Err,
    ensures
        cart_pricing(db, items, quotes) == cart_pricing(db, items.take(k), quotes),
    decreases items.len(),
{
    if k == items.len() {
        assert(items.take(k) =~= items);
    } else {
        let n = items.len() - 1;
        assert(items.take(n).take(k) =~= items.take(k));
        lemma_pricing_error_persists(db, items.take(n), quotes, k);
    }
}

/// A priced cart: its lines and running totals.
pub struct PricedCart {
    pub lines: Vec<PricedLine>,
    pub subtotal: i64,
    pub discount_total: i64,
    pub tax_total: i64,
}

pub open spec fn priced_as(c: PricedCart, p: (Seq<PricedLine>, int, int, int)) -> bool {
    &&& c.lines@ == p.0
    &&& c.subtotal == p.1
    &&& c.discount_total == p.2
    &&& c.tax_total == p.3
}

/// Prices every line of a cart in order (see `cart_pricing`); `quotes[i]`
/// holds the discount and tax quoted for line `i`.
pub fn price_cart(db: &Database, items: &Vec<CartLineInput>, quotes: &[LineQuote]) -> (r: Result<
    PricedCart,
    SalesError,
>)
    requires
        db.wf(),
        quotes@.len() == items@.len(),
        forall|i: int| 0 <= i < items@.len() ==> #[trigger] items@[i].quantity > 0,
    ensures
        match cart_pricing(db, items@, quotes@) {
            Ok(p) => r matches Ok(c) && priced_as(c, p),
            Err((i, f)) => 0 <= i < items@.len() && (r matches Err(e) && line_error(db, items@[i], f, e)),
        },
{
    let mut lines: Vec<PricedLine> = Vec::new();
    let mut subtotal: i64 = 0;
    let mut discount_total: i64 = 0;
    let mut tax_total: i64 = 0;
    let mut i: usize = 0;
    while i < items.len()
        invariant
            db.wf(),
            quotes@.len() == items@.len(),
            forall|t: int| 0 <= t < items@.len() ==> #[trigger] items@[t].quantity > 0,
                i <= items@.len(),
            within_stock(db, lines@),
            cart_pricing(db, items@.take(i as int), quotes@) == Ok::<(Seq<PricedLine>, int, int, int), (int, LineFailure)>(
                (lines@, subtotal as int, discount_total as int, tax_total as int),
            ),
        decreases items@.len() - i,
    {
        let ghost tk = items@.take(i + 1);
        assert(tk.take(i as int) =~= items@.take(i as int));
        assert(tk[i as int] == items@[i as int]);
        let line = &items[i];
        assert(line.quantity > 0);
        let (l, sub) = match price_line_exec(db, line, quotes[i], &lines) {
            Ok(v) => v,
            Err(e) => {
                proof {
                    lemma_pricing_error_persists(db, items@, quotes@, i + 1);
                }
                return Err(e);
            },
        };
        let s2 = subtotal.checked_add(sub);
        let d2 = discount_total.checked_add(l.discount);
        let t2 = tax_total.checked_add(l.tax);
        if s2.is_none() || d2.is_none() || t2.is_none() {
            proof {
                lemma_pricing_error_persists(db, items@, quotes@, i + 1);
            }
            return Err(SalesError::Db(DbError::Overflow));
        }
        subtotal = s2.unwrap();
        discount_total = d2.unwrap();
        tax_total = t2.unwrap();
        let ghost before = lines@;
        lines.push(l);
        proof {
            assert(lines@.drop_last() =~= before);
            assert forall|j: int| 0 <= j < db.products@.len() implies drawn(lines@, (j + 1) as i64) <= if #[trigger] db.products@[j].current_stock > 0 {
                db.products@[j].current_stock as int
            } else {
                0
            } by {
                assert(drawn(lines@, (j + 1) as i64) == drawn(before, (j + 1) as i64) + if l.product_id == (j + 1) as i64 {
                    l.quantity as int
                } else {
                    0
                });
            }
        }
        i = i + 1;
    }
    assert(items@.take(items@.len() as int) =~= items@);
    Ok(PricedCart { lines, subtotal, discount_total, tax_total })
}

/// What a line's tax is computed on: the line's amount after its discount
/// and the applied tax's rate (as the bit pattern of an `f64`).
pub struct TaxBasis {
    pub taxable: i64,
    pub rate_bits: u64,
}

/// For each line of a cart, the basis of its tax when one applies: the line
/// can be priced (with `discounts[i]` as the quoted percent discount of
/// line `i`) and its product's tax applies. A caller computes each tax
/// quote from these and hands them to `checkout`.
pub fn tax_bases(db: &Database, items: &Vec<CartLineInput>, discounts: &[i64]) -> (r: Vec<Option<TaxBasis>>)
    requires
        db.wf(),
        discounts@.len() == items@.len(),
    ensures
        r@.len() == items@.len(),
        forall|i: int|
            0 <= i < items@.len() ==> {
                let line = #[trigger] items@[i];
                match r@[i] {
                    Some(b) => line.quantity > 0 && (line_base(db, line, discounts@[i], 0) matches Ok((sub, d)) && b.taxable == sub - d)
                        && is_taxed(db, db.products@[line.product_id - 1].tax_id) && b.rate_bits
                        == db.taxes@[db.products@[line.product_id - 1].tax_id->0 - 1].rate_bits,
                    None => !(line.quantity > 0 && line_base(db, line, discounts@[i], 0) is Ok && is_taxed(
                        db,
                        db.products@[line.product_id - 1].tax_id,
                    )),
                }
            },
{
    let mut out: Vec<Option<TaxBasis>> = Vec::new();
    let mut i: usize = 0;
    while i < items.len()
        invariant
            db.wf(),
            discounts@.len() == items@.len(),
            i <= items@.len(),
            out@.len() == i,
            forall|k: int|
                0 <= k < i ==> {
                    let line = #[trigger] items@[k];
                    match out@[k] {
                        Some(b) => line.quantity > 0 && (line_base(db, line, discounts@[k], 0) matches Ok((sub, d)) && b.taxable == sub
                            - d) && is_taxed(db, db.products@[line.product_id - 1].tax_id) && b.rate_bits
                            == db.taxes@[db.products@[line.product_id - 1].tax_id->0 - 1].rate_bits,
                        None => !(line.quantity > 0 && line_base(db, line, discounts@[k], 0) is Ok && is_taxed(
                            db,
                            db.products@[line.product_id - 1].tax_id,
                        )),
                    }
                },
        decreases items@.len() - i,
    {
        let line = &items[i];
        assert(items@[i as int] == *line);
        let mut entry: Option<TaxBasis> = None;
        if line.quantity > 0 {
            let none: Vec<PricedLine> = Vec::new();
            assert(drawn(none@, line.product_id) == 0);
            match line_base_exec(db, line, discounts[i], &none) {
                Ok((sub, d)) => {
                    let _ = db.products.len();
                    let p = &db.products[(line.product_id - 1) as usize];
                    match applied_tax_rate(db, p.tax_id) {
                        Some(bits) => {
                            entry = Some(TaxBasis { taxable: sub - d, rate_bits: bits });
                        },
                        None => {},
                    }
                },
                Err(_) => {},
            }
        }
        out.push(entry);
        i = i + 1;
    }
    out
}

/// What a line's percent discount is computed on: the line's subtotal and
/// the percent.
pub struct DiscountBasis {
    pub subtotal: i64,
    pub percent: i64,
}

/// The subtotal and percent of a line's percent discount, when one applies:
/// no manual discount, a live and active product whose subtotal is in
/// range, with an active percent discount of its own.
pub open spec fn percent_basis(db: &Database, line: CartLineInput) -> Option<(int, int)> {
    let p = db.products@[line.product_id - 1];
    let sub = p.selling_price * line.quantity;
    if line.discount_override is None && live(db, line.product_id) && p.is_active && fits(sub) && (
    p.discount_id matches Some(id) && 1 <= id <= db.discounts@.len() && db.discounts@[id - 1].is_active
        && db.discounts@[id - 1].kind@ == "percent"@) {
        Some((sub, db.discounts@[p.discount_id->0 - 1].value as int))
    } else {
        None
    }
}

fn percent_basis_exec(db: &Database, line: &CartLineInput) -> (r: Option<DiscountBasis>)
    requires
        db.wf(),
    ensures
        match percent_basis(db, *line) {
            Some((sub, pct)) => r matches Some(b) && b.subtotal == sub && b.percent == pct,
            None => r is None,
        },
{
    if line.discount_override.is_some() {
        return None;
    }
    if !(1 <= line.product_id && line.product_id as u64 <= db.products.len() as u64) || db.products[(
    line.product_id - 1) as usize].deleted {
        return None;
    }
    let p = &db.products[(line.product_id - 1) as usize];
    if !p.is_active {
        return None;
    }
    let sub = match p.selling_price.checked_mul(line.quantity) {
        Some(v) => v,
        None => {
            return None;
        },
    };
    let id = match p.discount_id {
        Some(id) => id,
        None => {
            return None;
        },
    };
    match discounts::find_by_id(db, id) {
        Some(d) => if d.is_active && text_is(&d.kind, "percent") {
            Some(DiscountBasis { subtotal: sub, percent: d.value })
        } else {
            None
        },
        None => None,
    }
}

/// For each line of a cart, the basis of its percent discount when one
/// applies (see `percent_basis`). A caller computes each discount quote
/// from these, then the tax bases.
pub fn discount_bases(db: &Database, items: &Vec<CartLineInput>) -> (r: Vec<Option<DiscountBasis>>)
    requires
        db.wf(),
    ensures
        r@.len() == items@.len(),
        forall|i: int|
            0 <= i < items@.len() ==> match percent_basis(db, #[trigger] items@[i]) {
                Some((sub, pct)) => r@[i] matches Some(b) && b.subtotal == sub && b.percent == pct,
                None => r@[i] is None,
            },
{
    let mut out: Vec<Option<DiscountBasis>> = Vec::new();
    let mut i: usize = 0;
    while i < items.len()
        invariant
            db.wf(),
            i <= items@.len(),
            out@.len() == i,
            forall|k: int|
                0 <= k < i ==> match percent_basis(db, #[trigger] items@[k]) {
                    Some((sub, pct)) => out@[k] matches Some(b) && b.subtotal == sub && b.percent == pct,
                    None => out@[k] is None,
                },
        decreases items@.len() - i,
    {
        let b = percent_basis_exec(db, &items[i]);
        out.push(b);
        i = i + 1;
    }
    out
}

} // verus!
