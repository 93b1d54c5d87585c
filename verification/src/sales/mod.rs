//! Checkout and sale history. `checkout` is the one place stock leaves for
//! a sale: every line becomes a sale item and a stock movement, written
//! together with the sale, its payments and an audit entry, or not at all.
//! A request carrying an idempotency key that was already used is answered
//! with the sale it created, and nothing is written again.

pub mod error;
pub mod pricing;
pub mod checkout;
pub mod cancel;
pub mod laws;

pub use error::SalesError;

use vstd::prelude::*;

use crate::db::repositories::sales::{
    find_items, find_payments, find_sale, list_sales, lists_items, lists_payments, lists_sales,
    sale_index, PaymentRow, SaleFilter, SaleItemRow, SaleRow,
};
use crate::db::{Database, DbError};

verus! {

pub struct CartLineInput {
    pub product_id: i64,
    pub quantity: i64,
    /// A manual line discount (minor units) that replaces the product's own
    /// discount; `None` applies the product's discount, if it has one.
    pub discount_override: Option<i64>,
}

pub struct PaymentInput {
    pub method: String,
    pub amount: i64,
}

pub struct CheckoutInput {
    pub customer_id: Option<i64>,
    pub items: Vec<CartLineInput>,
    pub payments: Vec<PaymentInput>,
    pub idempotency_key: Option<String>,
}

pub struct SaleItemDto {
    pub product_id: i64,
    pub product_name: String,
    pub quantity: i64,
    pub unit_price: i64,
    pub discount: i64,
    pub tax: i64,
    pub line_total: i64,
}

pub struct PaymentDto {
    pub method: String,
    pub amount: i64,
    pub received_at: String,
}

pub struct SaleDto {
    pub id: String,
    pub invoice_number: String,
    pub customer_id: Option<i64>,
    pub cashier_name: String,
    pub subtotal: i64,
    pub discount_total: i64,
    pub tax_total: i64,
    pub total: i64,
    pub status: String,
    pub created_at: String,
    pub items: Vec<SaleItemDto>,
    pub payments: Vec<PaymentDto>,
}

pub struct SaleSummaryDto {
    pub id: String,
    pub invoice_number: String,
    pub cashier_name: String,
    pub total: i64,
    pub status: String,
    pub created_at: String,
}

pub struct CheckoutResult {
    pub sale: SaleDto,
    /// Total paid minus the sale total (derivable from the stored payments,
    /// returned so that a receipt can show it at once).
    pub change: i64,
}

pub struct SaleListQuery {
    pub status: Option<String>,
}

impl Default for SaleListQuery {
    fn default() -> (q: SaleListQuery)
        ensures
            q.status is None,
    {
        SaleListQuery { status: None }
    }
}

impl SaleItemDto {
    pub open spec fn of(r: SaleItemRow) -> SaleItemDto {
        SaleItemDto {
            product_id: r.product_id,
            product_name: r.product_name,
            quantity: r.quantity,
            unit_price: r.unit_price,
            discount: r.discount,
            tax: r.tax,
            line_total: r.line_total,
        }
    }
}

impl PaymentDto {
    pub open spec fn of(r: PaymentRow) -> PaymentDto {
        PaymentDto { method: r.method, amount: r.amount, received_at: r.received_at }
    }
}

impl SaleSummaryDto {
    pub open spec fn of(r: SaleRow) -> SaleSummaryDto {
        SaleSummaryDto {
            id: r.id,
            invoice_number: r.invoice_number,
            cashier_name: r.cashier_name,
            total: r.total,
            status: r.status,
            created_at: r.created_at,
        }
    }
}

/// `dto` shows sale row `j`: its columns, the cashier's name, and its items
/// and payments in the order they were written.
pub open spec fn shows_sale(db: &Database, dto: SaleDto, j: int) -> bool {
    let s = db.sales@[j];
    &&& dto.id == s.id
    &&& dto.invoice_number == s.invoice_number
    &&& dto.customer_id == s.customer_id
    &&& dto.cashier_name == db.users@[s.user_id - 1].full_name
    &&& dto.subtotal == s.subtotal
    &&& dto.discount_total == s.discount_total
    &&& dto.tax_total == s.tax_total
    &&& dto.total == s.total
    &&& dto.status == s.status
    &&& dto.created_at == s.created_at
    &&& exists|rows: Seq<SaleItemRow>|
        #[trigger] lists_items(db, s.id@, rows) && dto.items@ == rows.map_values(|r: SaleItemRow| SaleItemDto::of(r))
    &&& exists|rows: Seq<PaymentRow>|
        #[trigger] lists_payments(db, s.id@, rows) && dto.payments@ == rows.map_values(|r: PaymentRow| PaymentDto::of(r))
}

/// The sum of the amounts of `ps`.
pub open spec fn paid_total(ps: Seq<PaymentDto>) -> int
    decreases ps.len(),
{
    if ps.len() == 0 {
        0
    } else {
        paid_total(ps.drop_last()) + ps.last().amount
    }
}

fn item_dto(r: SaleItemRow) -> (d: SaleItemDto)
    ensures
        d == SaleItemDto::of(r),
{
    SaleItemDto {
        product_id: r.product_id,
        product_name: r.product_name,
        quantity: r.quantity,
        unit_price: r.unit_price,
        discount: r.discount,
        tax: r.tax,
        line_total: r.line_total,
    }
}

fn payment_dto(r: PaymentRow) -> (d: PaymentDto)
    ensures
        d == PaymentDto::of(r),
{
    PaymentDto { method: r.method, amount: r.amount, received_at: r.received_at }
}

/// Reads sale `id` with its items and payments.
pub fn load_sale(db: &Database, id: &str) -> (r: Option<SaleDto>)
    requires
        db.wf(),
    ensures
        sale_index(db, id@) is Some <==> r is Some,
        r matches Some(d) ==> shows_sale(db, d, sale_index(db, id@)->0),
{
    let sale = match find_sale(db, id) {
        Some(s) => s,
        None => {
            return None;
        },
    };
    let ghost j = sale_index(db, id@)->0;
    let item_rows = find_items(db, id);
    let ghost irows = item_rows@;
    let mut items: Vec<SaleItemDto> = Vec::new();
    let mut rows = item_rows;
    let mut k: usize = 0;
    let n = rows.len();
    while k < n
        invariant
            n == irows.len(),
            k <= n,
            rows@ == irows.subrange(k as int, n as int),
            items@ == irows.take(k as int).map_values(|r: SaleItemRow| SaleItemDto::of(r)),
        decreases n - k,
    {
        let r = rows.remove(0);
        proof {
            assert(r == irows[k as int]);
        }
        items.push(item_dto(r));
        k = k + 1;
        proof {
            assert(rows@ =~= irows.subrange(k as int, n as int));
            assert(items@ =~= irows.take(k as int).map_values(|r: SaleItemRow| SaleItemDto::of(r)));
        }
    }
    assert(irows.take(n as int) =~= irows);
    let pay_rows = find_payments(db, id);
    let ghost prows = pay_rows@;
    let mut payments: Vec<PaymentDto> = Vec::new();
    let mut rows = pay_rows;
    let mut k: usize = 0;
    let n = rows.len();
    while k < n
        invariant
            n == prows.len(),
            k <= n,
            rows@ == prows.subrange(k as int, n as int),
            payments@ == prows.take(k as int).map_values(|r: PaymentRow| PaymentDto::of(r)),
        decreases n - k,
    {
        let r = rows.remove(0);
        proof {
            assert(r == prows[k as int]);
        }
        payments.push(payment_dto(r));
        k = k + 1;
        proof {
            assert(rows@ =~= prows.subrange(k as int, n as int));
            assert(payments@ =~= prows.take(k as int).map_values(|r: PaymentRow| PaymentDto::of(r)));
        }
    }
    assert(prows.take(n as int) =~= prows);
    let s = sale;
    let d = SaleDto {
        id: s.id,
        invoice_number: s.invoice_number,
        customer_id: s.customer_id,
        cashier_name: s.cashier_name,
        subtotal: s.subtotal,
        discount_total: s.discount_total,
        tax_total: s.tax_total,
        total: s.total,
        status: s.status,
        created_at: s.created_at,
        items,
        payments,
    };
    assert(lists_items(db, db.sales@[j].id@, irows));
    assert(lists_payments(db, db.sales@[j].id@, prows));
    Some(d)
}

/// The sale `id` with its items and payments.
pub fn get(db: &Database, id: &str) -> (r: Result<SaleDto, SalesError>)
    requires
        db.wf(),
    ensures
        sale_index(db, id@) is None ==> r matches Err(SalesError::SaleNotFound),
        sale_index(db, id@) is Some ==> (r matches Ok(d) && shows_sale(db, d, sale_index(db, id@)->0)),
{
    match load_sale(db, id) {
        Some(d) => Ok(d),
        None => Err(SalesError::SaleNotFound),
    }
}

/// The filter `list` applies: the query's status, at most 100 rows.
pub open spec fn list_filter(query: SaleListQuery) -> SaleFilter {
    SaleFilter { status: query.status, limit: 100 }
}

/// Sales of the query's status (any status when none is given), newest
/// first, at most 100.
pub fn list(db: &Database, query: SaleListQuery) -> (r: Result<Vec<SaleSummaryDto>, SalesError>)
    requires
        db.wf(),
    ensures
        r matches Ok(v) && exists|rows: Seq<SaleRow>|
            #[trigger] lists_sales(db, &list_filter(query), rows) && v@ == rows.map_values(
                |s: SaleRow| SaleSummaryDto::of(s),
            ),
{
    let ghost q = query;
    let filter = SaleFilter { status: query.status, limit: 100 };
    assert(filter == list_filter(q));
    let found = list_sales(db, &filter);
    let ghost srows = found@;
    let mut out: Vec<SaleSummaryDto> = Vec::new();
    let mut rows = found;
    let mut k: usize = 0;
    let n = rows.len();
    while k < n
        invariant
            n == srows.len(),
            k <= n,
            rows@ == srows.subrange(k as int, n as int),
            out@ == srows.take(k as int).map_values(|s: SaleRow| SaleSummaryDto::of(s)),
        decreases n - k,
    {
        let s = rows.remove(0);
        proof {
            assert(s == srows[k as int]);
        }
        out.push(
            SaleSummaryDto {
                id: s.id,
                invoice_number: s.invoice_number,
                cashier_name: s.cashier_name,
                total: s.total,
                status: s.status,
                created_at: s.created_at,
            },
        );
        k = k + 1;
        proof {
            assert(rows@ =~= srows.subrange(k as int, n as int));
            assert(out@ =~= srows.take(k as int).map_values(|s: SaleRow| SaleSummaryDto::of(s)));
        }
    }
    assert(srows.take(n as int) =~= srows);
    Ok(out)
}

} // verus!
