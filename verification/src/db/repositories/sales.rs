use vstd::prelude::*;

use crate::db::{
    constraint, has_room, room, row_limit, valid_id, valid_opt_id, Database, DbError, PaymentRecord, SaleItemRecord,
    SaleRecord, Table,
};
use crate::db::repositories::stock_movements::{limited, opt_str, opt_text};
use crate::order::{candidates, enumerates_sorted, lemma_enumerates, sort_positions};
use crate::text::{chars_of, string_from_chars, zero_pad4, zero_padded4};

verus! {

pub struct SaleRow {
    pub id: String,
    pub invoice_number: String,
    pub customer_id: Option<i64>,
    pub cashier_name: String,
    pub subtotal: i64,
    pub discount_total: i64,
    pub tax_total: i64,
    pub total: i64,
    pub status: String,
    pub created_at: String,
}

pub struct SaleItemRow {
    pub product_id: i64,
    pub product_name: String,
    pub quantity: i64,
    pub unit_price: i64,
    pub discount: i64,
    pub tax: i64,
    pub line_total: i64,
}

pub struct PaymentRow {
    pub method: String,
    pub amount: i64,
    pub received_at: String,
}

pub struct SaleFilter {
    pub status: Option<String>,
    pub limit: i64,
}

impl Default for SaleFilter {
    fn default() -> (f: SaleFilter)
        ensures
            f.status is None,
            f.limit == 0,
    {
        SaleFilter { status: None, limit: 0 }
    }
}

/// The sale row with this id (ids are unique).
pub open spec fn sale_index(db: &Database, id: Seq<char>) -> Option<int> {
    if exists|j: int| 0 <= j < db.sales@.len() && #[trigger] db.sales@[j].id@ == id {
        Some(choose|j: int| 0 <= j < db.sales@.len() && #[trigger] db.sales@[j].id@ == id)
    } else {
        None
    }
}

pub proof fn lemma_sale_index(db: &Database, id: Seq<char>, j: int)
    requires
        db.wf(),
        0 <= j < db.sales@.len(),
        db.sales@[j].id@ == id,
    ensures
        sale_index(db, id) == Some(j),
{
    let c = choose|c: int| 0 <= c < db.sales@.len() && #[trigger] db.sales@[c].id@ == id;
    if c < j {
        assert(db.sales@[c].id@ != db.sales@[j].id@);
    } else if c > j {
        assert(db.sales@[j].id@ != db.sales@[c].id@);
    }
}

/// The sale row created with this idempotency key (keys are unique).
pub open spec fn sale_with_key(db: &Database, key: Seq<char>) -> Option<int> {
    if exists|j: int|
        0 <= j < db.sales@.len() && #[trigger] db.sales@[j].idempotency_key is Some
            && db.sales@[j].idempotency_key->0@ == key {
        Some(
            choose|j: int|
                0 <= j < db.sales@.len() && #[trigger] db.sales@[j].idempotency_key is Some
                    && db.sales@[j].idempotency_key->0@ == key,
        )
    } else {
        None
    }
}

pub proof fn lemma_sale_with_key(db: &Database, key: Seq<char>, j: int)
    requires
        db.wf(),
        0 <= j < db.sales@.len(),
        db.sales@[j].idempotency_key is Some,
        db.sales@[j].idempotency_key->0@ == key,
    ensures
        sale_with_key(db, key) == Some(j),
{
    let c = choose|c: int|
        0 <= c < db.sales@.len() && #[trigger] db.sales@[c].idempotency_key is Some
            && db.sales@[c].idempotency_key->0@ == key;
    if c < j {
        assert(db.sales@[c].idempotency_key->0@ != db.sales@[j].idempotency_key->0@);
    } else if c > j {
        assert(db.sales@[j].idempotency_key->0@ != db.sales@[c].idempotency_key->0@);
    }
}

/// Returns the id of an existing sale created with this idempotency key,
/// if any.
pub fn find_by_idempotency_key(db: &Database, key: &str) -> (r: Option<String>)
    requires
        db.wf(),
    ensures
        r == (match sale_with_key(db, key@) {
            Some(j) => Some(db.sales@[j].id),
            None => None,
        }),
{
    let target = key.to_owned();
    let mut j: usize = 0;
    while j < db.sales.len()
        invariant
            db.wf(),
            j <= db.sales.len(),
            target@ == key@,
            forall|t: int|
                0 <= t < j ==> !(#[trigger] db.sales@[t].idempotency_key is Some && db.sales@[t].idempotency_key->0@
                    == key@),
        decreases db.sales.len() - j,
    {
        match &db.sales[j].idempotency_key {
            Some(k) => {
                if *k == target {
                    proof {
                        lemma_sale_with_key(db, key@, j as int);
                    }
                    return Some(db.sales[j].id.clone());
                }
            },
            None => {},
        }
        j = j + 1;
    }
    None
}

/// Why `insert_sale` rejects a row, in the order the constraints report it.
pub enum SaleConflict {
    Id,
    InvoiceNumber,
    IdempotencyKey,
    ForeignKey,
}

pub open spec fn id_taken(db: &Database, id: Seq<char>) -> bool {
    exists|j: int| 0 <= j < db.sales@.len() && #[trigger] db.sales@[j].id@ == id
}

pub open spec fn invoice_taken(db: &Database, invoice: Seq<char>) -> bool {
    exists|j: int| 0 <= j < db.sales@.len() && #[trigger] db.sales@[j].invoice_number@ == invoice
}

pub open spec fn sale_conflict(
    db: &Database,
    id: Seq<char>,
    invoice: Seq<char>,
    customer_id: Option<i64>,
    user_id: i64,
    key: Option<Seq<char>>,
) -> Option<SaleConflict> {
    if id_taken(db, id) {
        Some(SaleConflict::Id)
    } else if invoice_taken(db, invoice) {
        Some(SaleConflict::InvoiceNumber)
    } else if key is Some && sale_with_key(db, key->0) is Some {
        Some(SaleConflict::IdempotencyKey)
    } else if !valid_id(user_id, db.users@.len()) || customer_id is Some {
        Some(SaleConflict::ForeignKey)
    } else {
        None
    }
}

fn has_id(db: &Database, id: &str) -> (b: bool)
    ensures
        b == id_taken(db, id@),
{
    let target = id.to_owned();
    let mut j: usize = 0;
    while j < db.sales.len()
        invariant
            j <= db.sales.len(),
            target@ == id@,
            forall|t: int| 0 <= t < j ==> #[trigger] db.sales@[t].id@ != id@,
        decreases db.sales.len() - j,
    {
        if db.sales[j].id == target {
            return true;
        }
        j = j + 1;
    }
    false
}

fn has_invoice(db: &Database, invoice: &str) -> (b: bool)
    ensures
        b == invoice_taken(db, invoice@),
{
    let target = invoice.to_owned();
    let mut j: usize = 0;
    while j < db.sales.len()
        invariant
            j <= db.sales.len(),
            target@ == invoice@,
            forall|t: int| 0 <= t < j ==> #[trigger] db.sales@[t].invoice_number@ != invoice@,
        decreases db.sales.len() - j,
    {
        if db.sales[j].invoice_number == target {
            return true;
        }
        j = j + 1;
    }
    false
}

/// Adds a sale; a new sale is `completed` and stamped with the current
/// time. No customer rows exist, so a `customer_id` fails the foreign key.
pub fn insert_sale(
    db: &mut Database,
    id: &str,
    invoice_number: &str,
    customer_id: Option<i64>,
    user_id: i64,
    subtotal: i64,
    discount_total: i64,
    tax_total: i64,
    total: i64,
    idempotency_key: Option<&str>,
) -> (r: Result<(), DbError>)
    requires
        old(db).wf(),
    ensures
        final(db).wf(),
        !room(old(db).sales@.len()) ==> r matches Err(DbError::Full),
        room(old(db).sales@.len()) ==> match sale_conflict(old(db), id@, invoice_number@, customer_id, user_id, opt_str(idempotency_key)) {
            Some(SaleConflict::Id) => (r matches Err(DbError::Constraint(m)) && m@
                == "UNIQUE constraint failed: sales.id"@),
            Some(SaleConflict::InvoiceNumber) => (r matches Err(DbError::Constraint(m)) && m@
                == "UNIQUE constraint failed: sales.invoice_number"@),
            Some(SaleConflict::IdempotencyKey) => (r matches Err(DbError::Constraint(m)) && m@
                == "UNIQUE constraint failed: sales.idempotency_key"@),
            Some(SaleConflict::ForeignKey) => (r matches Err(DbError::Constraint(m)) && m@
                == "FOREIGN KEY constraint failed"@),
            None => r is Ok,
        },
        r is Err ==> old(db).same_tables(final(db)),
        r is Ok ==> {
            let s = final(db).sales@.last();
            &&& final(db).sales@.len() == old(db).sales@.len() + 1
            &&& final(db).sales@.drop_last() == old(db).sales@
            &&& s.id@ == id@
            &&& s.invoice_number@ == invoice_number@
            &&& s.customer_id == customer_id
            &&& s.user_id == user_id
            &&& s.subtotal == subtotal
            &&& s.discount_total == discount_total
            &&& s.tax_total == tax_total
            &&& s.total == total
            &&& s.status@ == "completed"@
            &&& opt_text(s.idempotency_key) == opt_str(idempotency_key)
            &&& s.created_at@ == old(db).clock()
            &&& old(db).agrees_outside(final(db), set![Table::Sales])
        },
{
    if !has_room(db.sales.len()) {
        return Err(DbError::Full);
    }
    if has_id(db, id) {
        return Err(constraint("UNIQUE constraint failed: sales.id"));
    }
    if has_invoice(db, invoice_number) {
        return Err(constraint("UNIQUE constraint failed: sales.invoice_number"));
    }
    match idempotency_key {
        Some(k) => {
            if find_by_idempotency_key(db, k).is_some() {
                return Err(constraint("UNIQUE constraint failed: sales.idempotency_key"));
            }
        },
        None => {},
    }
    if user_id < 1 || user_id as u64 > db.users.len() as u64 || customer_id.is_some() {
        return Err(constraint("FOREIGN KEY constraint failed"));
    }
    let key = match idempotency_key {
        Some(k) => Some(k.to_owned()),
        None => None,
    };
    let rec = SaleRecord {
        id: id.to_owned(),
        invoice_number: invoice_number.to_owned(),
        customer_id,
        user_id,
        subtotal,
        discount_total,
        tax_total,
        total,
        status: "completed".to_owned(),
        idempotency_key: key,
        created_at: db.now.clone(),
    };
    let ghost old_sales = db.sales@;
    db.sales.push(rec);
    proof {
        assert(db.sales@.drop_last() =~= old_sales);
        assert forall|a: int, b: int| 0 <= a < b < db.sales@.len() implies (#[trigger] db.sales@[a]).id@
            != (#[trigger] db.sales@[b]).id@ by {
            if b == db.sales@.len() - 1 {
                assert(old_sales[a].id@ != id@);
            }
        }
        assert forall|a: int, b: int|
            0 <= a < b < db.sales@.len() && (#[trigger] db.sales@[a]).idempotency_key is Some && (
            #[trigger] db.sales@[b]).idempotency_key is Some implies db.sales@[a].idempotency_key->0@
            != db.sales@[b].idempotency_key->0@ by {
            if b == db.sales@.len() - 1 {
                if db.sales@[a].idempotency_key->0@ == db.sales@[b].idempotency_key->0@ {
                    assert(old_sales[a].idempotency_key is Some);
                    assert(sale_with_key(old(db), idempotency_key->0@) is Some);
                }
            }
        }
    }
    Ok(())
}

/// Adds a line to a sale: `quantity > 0`, and the sale and the product
/// must exist.
pub fn insert_sale_item(
    db: &mut Database,
    sale_id: &str,
    product_id: i64,
    quantity: i64,
    unit_price: i64,
    discount: i64,
    tax: i64,
    line_total: i64,
    discount_override: Option<i64>,
) -> (r: Result<(), DbError>)
    requires
        old(db).wf(),
    ensures
        final(db).wf(),
        quantity <= 0 ==> (r matches Err(DbError::Constraint(m)) && m@ == "CHECK constraint failed: quantity > 0"@),
        quantity > 0 && !(id_taken(old(db), sale_id@) && valid_id(product_id, old(db).products@.len())) ==> (
        r matches Err(DbError::Constraint(m)) && m@ == "FOREIGN KEY constraint failed"@),
        quantity > 0 && id_taken(old(db), sale_id@) && valid_id(product_id, old(db).products@.len()) ==> r is Ok,
        r is Err ==> old(db).same_tables(final(db)),
        r is Ok ==> {
            let it = final(db).sale_items@.last();
            &&& final(db).sale_items@.len() == old(db).sale_items@.len() + 1
            &&& final(db).sale_items@.drop_last() == old(db).sale_items@
            &&& it.sale_id@ == sale_id@
            &&& it.product_id == product_id
            &&& it.quantity == quantity
            &&& it.unit_price == unit_price
            &&& it.discount == discount
            &&& it.tax == tax
            &&& it.line_total == line_total
            &&& it.discount_override == discount_override
            &&& old(db).agrees_outside(final(db), set![Table::SaleItems])
        },
{
    if quantity <= 0 {
        return Err(constraint("CHECK constraint failed: quantity > 0"));
    }
    if !has_id(db, sale_id) || product_id < 1 || product_id as u64 > db.products.len() as u64 {
        return Err(constraint("FOREIGN KEY constraint failed"));
    }
    db.sale_items.push(
        SaleItemRecord {
            sale_id: sale_id.to_owned(),
            product_id,
            quantity,
            unit_price,
            discount,
            tax,
            line_total,
            discount_override,
        },
    );
    assert(db.sale_items@.drop_last() =~= old(db).sale_items@);
    Ok(())
}

/// Adds a payment to a sale: `amount > 0` and the sale must exist;
/// stamped with the current time.
pub fn insert_payment(db: &mut Database, sale_id: &str, method: &str, amount: i64) -> (r: Result<(), DbError>)
    requires
        old(db).wf(),
    ensures
        final(db).wf(),
        amount <= 0 ==> (r matches Err(DbError::Constraint(m)) && m@ == "CHECK constraint failed: amount > 0"@),
        amount > 0 && !id_taken(old(db), sale_id@) ==> (r matches Err(DbError::Constraint(m)) && m@
            == "FOREIGN KEY constraint failed"@),
        amount > 0 && id_taken(old(db), sale_id@) ==> r is Ok,
        r is Err ==> old(db).same_tables(final(db)),
        r is Ok ==> {
            let p = final(db).payments@.last();
            &&& final(db).payments@.len() == old(db).payments@.len() + 1
            &&& final(db).payments@.drop_last() == old(db).payments@
            &&& p.sale_id@ == sale_id@
            &&& p.method@ == method@
            &&& p.amount == amount
            &&& p.received_at@ == old(db).clock()
            &&& old(db).agrees_outside(final(db), set![Table::Payments])
        },
{
    if amount <= 0 {
        return Err(constraint("CHECK constraint failed: amount > 0"));
    }
    if !has_id(db, sale_id) {
        return Err(constraint("FOREIGN KEY constraint failed"));
    }
    db.payments.push(
        PaymentRecord { sale_id: sale_id.to_owned(), method: method.to_owned(), amount, received_at: db.now.clone() },
    );
    assert(db.payments@.drop_last() =~= old(db).payments@);
    Ok(())
}

/// `strftime('%Y%m%d', ts)` for a timestamp `YYYY-MM-DDTHH:MM:SS...`.
pub open spec fn day_key(ts: Seq<char>) -> Seq<char> {
    if ts.len() >= 10 {
        ts.subrange(0, 4) + ts.subrange(5, 7) + ts.subrange(8, 10)
    } else {
        Seq::empty()
    }
}

/// How many of `sales` were created on `day`.
pub open spec fn sales_on(sales: Seq<SaleRecord>, day: Seq<char>) -> nat
    decreases sales.len(),
{
    if sales.len() == 0 {
        0
    } else {
        sales_on(sales.drop_last(), day) + if day_key(sales.last().created_at@) == day {
            1nat
        } else {
            0nat
        }
    }
}

/// `INV-YYYYMMDD-NNNN`, numbered per day from 1.
pub open spec fn invoice_number_for(day: Seq<char>, n: nat) -> Seq<char> {
    seq!['I', 'N', 'V', '-'] + day + seq!['-'] + zero_padded4(n)
}

fn day_of(ts: &str) -> (d: Vec<char>)
    ensures
        d@ == day_key(ts@),
{
    let c = chars_of(ts);
    let mut d: Vec<char> = Vec::new();
    if c.len() >= 10 {
        let mut i: usize = 0;
        while i < 10
            invariant
                c@ == ts@,
                c.len() >= 10,
                i <= 10,
                d@ == (if i <= 4 {
                    c@.subrange(0, i as int)
                } else if i <= 5 {
                    c@.subrange(0, 4)
                } else if i <= 7 {
                    c@.subrange(0, 4) + c@.subrange(5, i as int)
                } else if i <= 8 {
                    c@.subrange(0, 4) + c@.subrange(5, 7)
                } else {
                    c@.subrange(0, 4) + c@.subrange(5, 7) + c@.subrange(8, i as int)
                }),
            decreases 10 - i,
        {
            if i != 4 && i != 7 {
                d.push(c[i]);
            }
            i = i + 1;
            assert(d@ =~= (if i <= 4 {
                c@.subrange(0, i as int)
            } else if i <= 5 {
                c@.subrange(0, 4)
            } else if i <= 7 {
                c@.subrange(0, 4) + c@.subrange(5, i as int)
            } else if i <= 8 {
                c@.subrange(0, 4) + c@.subrange(5, 7)
            } else {
                c@.subrange(0, 4) + c@.subrange(5, 7) + c@.subrange(8, i as int)
            }));
        }
    }
    d
}

/// The next invoice number: `INV-{today}-{n:04}` where `n` is one more
/// than the number of sales created today.
pub fn next_invoice_number(db: &Database) -> (s: String)
    requires
        db.wf(),
    ensures
        s@ == invoice_number_for(day_key(db.clock()), sales_on(db.sales@, day_key(db.clock())) + 1),
{
    let today_chars = day_of(db.now.as_str());
    let today = string_from_chars(today_chars.as_slice());
    let mut count: u64 = 0;
    let mut j: usize = 0;
    while j < db.sales.len()
        invariant
            j <= db.sales.len(),
            db.sales@.len() < row_limit(),
            today@ == day_key(db.clock()),
            count == sales_on(db.sales@.take(j as int), today@),
            count <= j,
        decreases db.sales.len() - j,
    {
        let d = day_of(db.sales[j].created_at.as_str());
        let day = string_from_chars(d.as_slice());
        assert(db.sales@.take(j + 1).drop_last() =~= db.sales@.take(j as int));
        assert(db.sales@.take(j + 1).last() == db.sales@[j as int]);
        if day == today {
            count = count + 1;
        }
        j = j + 1;
    }
    let today = today_chars;
    assert(db.sales@.take(db.sales.len() as int) =~= db.sales@);
    let mut v: Vec<char> = Vec::new();
    v.push('I');
    v.push('N');
    v.push('V');
    v.push('-');
    let mut i: usize = 0;
    while i < today.len()
        invariant
            i <= today.len(),
            v@ == seq!['I', 'N', 'V', '-'] + today@.take(i as int),
        decreases today.len() - i,
    {
        v.push(today[i]);
        i = i + 1;
        assert(v@ =~= seq!['I', 'N', 'V', '-'] + today@.take(i as int));
    }
    v.push('-');
    assert(today@.take(today.len() as int) =~= today@);
    let prefix = string_from_chars(v.as_slice());
    let number = zero_pad4(count + 1);
    let mut s = prefix;
    s.append(number.as_str());
    assert(s@ =~= invoice_number_for(today@, (count + 1) as nat));
    s
}

pub open spec fn row_matches(db: &Database, row: SaleRow, j: int) -> bool {
    let s = db.sales@[j];
    &&& row.id == s.id
    &&& row.invoice_number == s.invoice_number
    &&& row.customer_id == s.customer_id
    &&& row.cashier_name == db.users@[s.user_id - 1].full_name
    &&& row.subtotal == s.subtotal
    &&& row.discount_total == s.discount_total
    &&& row.tax_total == s.tax_total
    &&& row.total == s.total
    &&& row.status == s.status
    &&& row.created_at == s.created_at
}

fn row_at(db: &Database, j: usize) -> (row: SaleRow)
    requires
        db.wf(),
        j < db.sales@.len(),
    ensures
        row_matches(db, row, j as int),
{
    let s = &db.sales[j];
    let _ = db.users.len();
    assert(valid_id(db.sales@[j as int].user_id, db.users@.len()));
    let ui = (s.user_id - 1) as usize;
    SaleRow {
        id: s.id.clone(),
        invoice_number: s.invoice_number.clone(),
        customer_id: s.customer_id,
        cashier_name: db.users[ui].full_name.clone(),
        subtotal: s.subtotal,
        discount_total: s.discount_total,
        tax_total: s.tax_total,
        total: s.total,
        status: s.status.clone(),
        created_at: s.created_at.clone(),
    }
}

/// The sale with id `id`, with its cashier's name, if there is one.
pub fn find_sale(db: &Database, id: &str) -> (r: Option<SaleRow>)
    requires
        db.wf(),
    ensures
        sale_index(db, id@) is Some <==> r is Some,
        r matches Some(row) ==> row_matches(db, row, sale_index(db, id@)->0),
{
    let target = id.to_owned();
    let mut j: usize = 0;
    while j < db.sales.len()
        invariant
            db.wf(),
            j <= db.sales.len(),
            target@ == id@,
            forall|t: int| 0 <= t < j ==> #[trigger] db.sales@[t].id@ != id@,
        decreases db.sales.len() - j,
    {
        if db.sales[j].id == target {
            proof {
                lemma_sale_index(db, id@, j as int);
            }
            return Some(row_at(db, j));
        }
        j = j + 1;
    }
    None
}

pub open spec fn sale_of_status(db: &Database, status: Option<String>) -> spec_fn(int) -> bool {
    |j: int|
        match status {
            Some(s) => db.sales@[j].status@ == s@,
            None => true,
        }
}

pub open spec fn sale_time(db: &Database) -> spec_fn(int) -> Seq<char> {
    |j: int| db.sales@[j].created_at@
}

/// How many sales `list_sales` returns at most: the filter's limit, or
/// 100 when it is not positive.
pub open spec fn effective_limit(limit: i64) -> i64 {
    if limit > 0 {
        limit
    } else {
        100
    }
}

/// `rows` are the sales (of the filter's status, if given), newest first,
/// at most `effective_limit(filter.limit)` of them.
pub open spec fn lists_sales(db: &Database, filter: &SaleFilter, rows: Seq<SaleRow>) -> bool {
    exists|pos: Seq<int>|
        {
            &&& #[trigger] enumerates_sorted(
                pos,
                db.sales@.len() as int,
                sale_of_status(db, filter.status),
                sale_time(db),
            )
            &&& rows.len() == limited(effective_limit(filter.limit), pos.len() as int)
            &&& forall|k: int| 0 <= k < rows.len() ==> row_matches(db, rows[k], pos[pos.len() - 1 - k])
        }
}

/// The sales with the filter's status (all when it names none), newest
/// first, at most `effective_limit` of them, each with its cashier's name.
/// Sales created at the same instant come newest-inserted first.
pub fn list_sales(db: &Database, filter: &SaleFilter) -> (rows: Vec<SaleRow>)
    requires
        db.wf(),
    ensures
        lists_sales(db, filter, rows@),
{
    let ghost pred = sale_of_status(db, filter.status);
    let ghost key = sale_time(db);
    let n = db.sales.len();
    let mut cand: Vec<usize> = Vec::new();
    let mut keys: Vec<Vec<char>> = Vec::new();
    let mut i: usize = 0;
    while i < n
        invariant
            n == db.sales@.len(),
            i <= n,
            pred == sale_of_status(db, filter.status),
            key == sale_time(db),
            candidates(cand@, i as int, pred),
            keys.len() == cand.len(),
            forall|t: int| 0 <= t < cand.len() ==> (#[trigger] keys@[t])@ == key(cand@[t] as int),
        decreases n - i,
    {
        let ghost old_cand = cand@;
        let keep = match &filter.status {
            Some(s) => db.sales[i].status == *s,
            None => true,
        };
        assert(pred(i as int) == keep);
        if keep {
            cand.push(i);
            keys.push(chars_of(db.sales[i].created_at.as_str()));
            assert(cand@[cand.len() - 1] == i);
        }
        proof {
            assert forall|j: int| 0 <= j < i + 1 && #[trigger] pred(j) implies cand@.contains(j as usize) by {
                if j < i {
                    let t = choose|t: int| 0 <= t < old_cand.len() && old_cand[t] == j as usize;
                    assert(cand@[t] == j as usize);
                } else {
                    assert(cand@[cand.len() - 1] == i);
                }
            }
        }
        i = i + 1;
    }
    let idx = sort_positions(&keys);
    let total = idx.len();
    let limit: i64 = if filter.limit > 0 {
        filter.limit
    } else {
        100
    };
    let count: usize = if limit as u64 >= total as u64 {
        total
    } else {
        limit as usize
    };
    let mut rows: Vec<SaleRow> = Vec::new();
    let mut k: usize = 0;
    while k < count
        invariant
            db.wf(),
            count <= total,
            total == idx.len(),
            k <= count,
            idx.len() == cand.len(),
            forall|a: int| 0 <= a < idx.len() ==> #[trigger] idx@[a] < cand.len(),
            forall|t: int| 0 <= t < cand.len() ==> #[trigger] cand@[t] < n,
            n == db.sales@.len(),
            rows.len() == k,
            forall|a: int|
                0 <= a < k ==> row_matches(db, #[trigger] rows@[a], cand@[idx@[total - 1 - a] as int] as int),
        decreases count - k,
    {
        let j = cand[idx[total - 1 - k]];
        rows.push(row_at(db, j));
        k = k + 1;
    }
    proof {
        let ks = keys@.map_values(|v: Vec<char>| v@);
        let pos = Seq::new(total as nat, |a: int| cand@[idx@[a] as int] as int);
        lemma_enumerates(cand@, ks, idx@, pos, n as int, pred, key);
        assert(enumerates_sorted(pos, db.sales@.len() as int, pred, key));
        assert(rows@.len() == limited(effective_limit(filter.limit), pos.len() as int));
        assert forall|a: int| 0 <= a < rows@.len() implies row_matches(db, rows@[a], pos[pos.len() - 1 - a]) by {
            assert(rows@[a] == rows@[a]);
        }
    }
    rows
}

pub open spec fn item_of(db: &Database, sale_id: Seq<char>) -> spec_fn(int) -> bool {
    |j: int| db.sale_items@[j].sale_id@ == sale_id
}

pub open spec fn item_matches(db: &Database, row: SaleItemRow, j: int) -> bool {
    let it = db.sale_items@[j];
    &&& row.product_id == it.product_id
    &&& row.product_name == db.products@[it.product_id - 1].name
    &&& row.quantity == it.quantity
    &&& row.unit_price == it.unit_price
    &&& row.discount == it.discount
    &&& row.tax == it.tax
    &&& row.line_total == it.line_total
}

/// `rows` are the items of the sale, in the order they were written.
pub open spec fn lists_items(db: &Database, sale_id: Seq<char>, rows: Seq<SaleItemRow>) -> bool {
    exists|pos: Seq<usize>|
        {
            &&& #[trigger] candidates(pos, db.sale_items@.len() as int, item_of(db, sale_id))
            &&& rows.len() == pos.len()
            &&& forall|k: int| 0 <= k < rows.len() ==> item_matches(db, rows[k], pos[k] as int)
        }
}

/// The lines of sale `sale_id` in the order they were added, each with
/// its product's name.
pub fn find_items(db: &Database, sale_id: &str) -> (rows: Vec<SaleItemRow>)
    requires
        db.wf(),
    ensures
        lists_items(db, sale_id@, rows@),
{
    let ghost pred = item_of(db, sale_id@);
    let target = sale_id.to_owned();
    let _ = db.products.len();
    let mut cand: Vec<usize> = Vec::new();
    let mut rows: Vec<SaleItemRow> = Vec::new();
    let mut i: usize = 0;
    while i < db.sale_items.len()
        invariant
            db.wf(),
            i <= db.sale_items.len(),
            target@ == sale_id@,
            pred == item_of(db, sale_id@),
            candidates(cand@, i as int, pred),
            rows.len() == cand.len(),
            forall|k: int| 0 <= k < rows.len() ==> item_matches(db, #[trigger] rows@[k], cand@[k] as int),
        decreases db.sale_items.len() - i,
    {
        let ghost old_cand = cand@;
        let it = &db.sale_items[i];
        assert(pred(i as int) == (it.sale_id@ == sale_id@));
        if it.sale_id == target {
            let _ = db.products.len();
            assert(valid_id(db.sale_items@[i as int].product_id, db.products@.len()));
            let pi = (it.product_id - 1) as usize;
            rows.push(
                SaleItemRow {
                    product_id: it.product_id,
                    product_name: db.products[pi].name.clone(),
                    quantity: it.quantity,
                    unit_price: it.unit_price,
                    discount: it.discount,
                    tax: it.tax,
                    line_total: it.line_total,
                },
            );
            cand.push(i);
            assert(cand@[cand.len() - 1] == i);
        }
        proof {
            assert forall|j: int| 0 <= j < i + 1 && #[trigger] pred(j) implies cand@.contains(j as usize) by {
                if j < i {
                    let t = choose|t: int| 0 <= t < old_cand.len() && old_cand[t] == j as usize;
                    assert(cand@[t] == j as usize);
                } else {
                    assert(cand@[cand.len() - 1] == i);
                }
            }
        }
        i = i + 1;
    }
    rows
}

pub open spec fn payment_of(db: &Database, sale_id: Seq<char>) -> spec_fn(int) -> bool {
    |j: int| db.payments@[j].sale_id@ == sale_id
}

pub open spec fn payment_matches(db: &Database, row: PaymentRow, j: int) -> bool {
    let p = db.payments@[j];
    &&& row.method == p.method
    &&& row.amount == p.amount
    &&& row.received_at == p.received_at
}

/// `rows` are the payments of the sale, in the order they were written.
pub open spec fn lists_payments(db: &Database, sale_id: Seq<char>, rows: Seq<PaymentRow>) -> bool {
    exists|pos: Seq<usize>|
        {
            &&& #[trigger] candidates(pos, db.payments@.len() as int, payment_of(db, sale_id))
            &&& rows.len() == pos.len()
            &&& forall|k: int| 0 <= k < rows.len() ==> payment_matches(db, rows[k], pos[k] as int)
        }
}

/// The payments of sale `sale_id` in the order they were received.
pub fn find_payments(db: &Database, sale_id: &str) -> (rows: Vec<PaymentRow>)
    requires
        db.wf(),
    ensures
        lists_payments(db, sale_id@, rows@),
{
    let ghost pred = payment_of(db, sale_id@);
    let target = sale_id.to_owned();
    let mut cand: Vec<usize> = Vec::new();
    let mut rows: Vec<PaymentRow> = Vec::new();
    let mut i: usize = 0;
    while i < db.payments.len()
        invariant
            i <= db.payments.len(),
            target@ == sale_id@,
            pred == payment_of(db, sale_id@),
            candidates(cand@, i as int, pred),
            rows.len() == cand.len(),
            forall|k: int| 0 <= k < rows.len() ==> payment_matches(db, #[trigger] rows@[k], cand@[k] as int),
        decreases db.payments.len() - i,
    {
        let ghost old_cand = cand@;
        let p = &db.payments[i];
        assert(pred(i as int) == (p.sale_id@ == sale_id@));
        if p.sale_id == target {
            rows.push(PaymentRow { method: p.method.clone(), amount: p.amount, received_at: p.received_at.clone() });
            cand.push(i);
            assert(cand@[cand.len() - 1] == i);
        }
        proof {
            assert forall|j: int| 0 <= j < i + 1 && #[trigger] pred(j) implies cand@.contains(j as usize) by {
                if j < i {
                    let t = choose|t: int| 0 <= t < old_cand.len() && old_cand[t] == j as usize;
                    assert(cand@[t] == j as usize);
                } else {
                    assert(cand@[cand.len() - 1] == i);
                }
            }
        }
        i = i + 1;
    }
    rows
}

/// Sets the status of sale `id`; no row changes when `id` names none.
pub fn update_status(db: &mut Database, id: &str, status: &str) -> (r: Result<(), DbError>)
    requires
        old(db).wf(),
    ensures
        final(db).wf(),
        r is Ok,
        old(db).agrees_outside(final(db), set![Table::Sales]),
        final(db).sales@.len() == old(db).sales@.len(),
        forall|j: int|
            0 <= j < old(db).sales@.len() ==> {
                let (a, s) = (old(db).sales@[j], #[trigger] final(db).sales@[j]);
                &&& s.id == a.id
                &&& s.invoice_number == a.invoice_number
                &&& s.customer_id == a.customer_id
                &&& s.user_id == a.user_id
                &&& s.subtotal == a.subtotal
                &&& s.discount_total == a.discount_total
                &&& s.tax_total == a.tax_total
                &&& s.total == a.total
                &&& s.idempotency_key == a.idempotency_key
                &&& s.created_at == a.created_at
                &&& (a.id@ == id@ ==> s.status@ == status@)
                &&& (a.id@ != id@ ==> s.status == a.status)
            },
{
    let target = id.to_owned();
    let mut j: usize = 0;
    while j < db.sales.len()
        invariant
            j <= db.sales.len(),
            target@ == id@,
            db.wf(),
            old(db).agrees_outside(db, set![Table::Sales]),
            db.sales@.len() == old(db).sales@.len(),
            forall|t: int|
                0 <= t < old(db).sales@.len() ==> {
                    let (a, s) = (old(db).sales@[t], #[trigger] db.sales@[t]);
                    &&& s.id == a.id
                    &&& s.invoice_number == a.invoice_number
                    &&& s.customer_id == a.customer_id
                    &&& s.user_id == a.user_id
                    &&& s.subtotal == a.subtotal
                    &&& s.discount_total == a.discount_total
                    &&& s.tax_total == a.tax_total
                    &&& s.total == a.total
                    &&& s.idempotency_key == a.idempotency_key
                    &&& s.created_at == a.created_at
                    &&& (t < j && a.id@ == id@ ==> s.status@ == status@)
                    &&& (!(t < j && a.id@ == id@) ==> s.status == a.status)
                },
        decreases db.sales.len() - j,
    {
        if db.sales[j].id == target {
            let s = &db.sales[j];
            let rec = SaleRecord {
                id: s.id.clone(),
                invoice_number: s.invoice_number.clone(),
                customer_id: s.customer_id,
                user_id: s.user_id,
                subtotal: s.subtotal,
                discount_total: s.discount_total,
                tax_total: s.tax_total,
                total: s.total,
                status: status.to_owned(),
                idempotency_key: match &s.idempotency_key {
                    Some(k) => Some(k.clone()),
                    None => None,
                },
                created_at: s.created_at.clone(),
            };
            let ghost before = *db;
            db.sales.set(j, rec);
            proof {
                assert forall|i: int| 0 <= i < db.sale_items@.len() implies db.has_sale(
                    (#[trigger] db.sale_items@[i]).sale_id@,
                ) by {
                    assert(before.has_sale(before.sale_items@[i].sale_id@));
                    let w = choose|w: int|
                        0 <= w < before.sales@.len() && #[trigger] before.sales@[w].id@
                            == before.sale_items@[i].sale_id@;
                    assert(db.sales@[w].id@ == before.sales@[w].id@);
                }
                assert forall|i: int| 0 <= i < db.payments@.len() implies db.has_sale(
                    (#[trigger] db.payments@[i]).sale_id@,
                ) by {
                    assert(db.payments@ == before.payments@);
                    assert(before.payments@[i].amount > 0 && before.has_sale(before.payments@[i].sale_id@));
                    let w = choose|w: int|
                        0 <= w < before.sales@.len() && #[trigger] before.sales@[w].id@
                            == before.payments@[i].sale_id@;
                    assert(db.sales@[w].id@ == before.sales@[w].id@);
                }
            }
        }
        j = j + 1;
    }
    Ok(())
}

} // verus!
