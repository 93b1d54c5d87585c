use vstd::prelude::*;

use crate::db::{
    constraint, has_room, lemma_movement_total_none, next_id, room, valid_id, valid_opt_id,
    BarcodeRecord, Database, DbError, ProductRecord, Table,
};
use crate::order::{candidates, enumerates_sorted, lemma_enumerates, sort_positions};
use crate::text::{chars_of, like, like_match};

verus! {

/// A product joined with its category, brand and unit, and its barcodes.
pub struct ProductRow {
    pub id: i64,
    pub sku: String,
    pub name: String,
    pub description: Option<String>,
    pub category_id: Option<i64>,
    pub category_name: Option<String>,
    pub brand_id: Option<i64>,
    pub brand_name: Option<String>,
    pub unit_id: i64,
    pub unit_name: String,
    pub unit_abbreviation: String,
    pub purchase_price: i64,
    pub selling_price: i64,
    pub tax_id: Option<i64>,
    pub discount_id: Option<i64>,
    pub min_stock: i64,
    pub current_stock: i64,
    pub is_active: bool,
    pub image_path: Option<String>,
    pub created_at: String,
    pub updated_at: String,
    pub barcodes: Vec<String>,
}

pub struct ProductFilter {
    /// Already wrapped with `%...%` by the caller.
    pub search: Option<String>,
    pub category_id: Option<i64>,
    pub include_inactive: bool,
}

pub struct NewProduct<'a> {
    pub sku: &'a str,
    pub name: &'a str,
    pub description: Option<&'a str>,
    pub category_id: Option<i64>,
    pub brand_id: Option<i64>,
    pub unit_id: i64,
    pub purchase_price: i64,
    pub selling_price: i64,
    pub tax_id: Option<i64>,
    pub discount_id: Option<i64>,
    pub min_stock: i64,
    pub image_path: Option<&'a str>,
    pub barcodes: &'a [String],
}

pub open spec fn opt_text(s: Option<String>) -> Option<Seq<char>> {
    match s {
        Some(v) => Some(v@),
        None => None,
    }
}

pub open spec fn opt_str(s: Option<&str>) -> Option<Seq<char>> {
    match s {
        Some(v) => Some(v@),
        None => None,
    }
}

pub open spec fn barcode_of(db: &Database, pid: i64) -> spec_fn(int) -> bool {
    |j: int| db.barcodes@[j].product_id == pid
}

pub open spec fn barcode_text(db: &Database) -> spec_fn(int) -> Seq<char> {
    |j: int| db.barcodes@[j].barcode@
}

/// `codes` are the barcodes of product `pid`, in order.
pub open spec fn lists_barcodes(db: &Database, pid: i64, codes: Seq<String>) -> bool {
    exists|pos: Seq<int>|
        {
            &&& #[trigger] enumerates_sorted(pos, db.barcodes@.len() as int, barcode_of(db, pid), barcode_text(db))
            &&& codes.len() == pos.len()
            &&& forall|k: int| 0 <= k < pos.len() ==> codes[k] == db.barcodes@[pos[k]].barcode
        }
}

/// `row` is product row `i` with its joins.
pub open spec fn row_matches(db: &Database, row: ProductRow, i: int) -> bool {
    let p = db.products@[i];
    &&& row.id == p.id
    &&& row.sku == p.sku
    &&& row.name == p.name
    &&& row.description == p.description
    &&& row.category_id == p.category_id
    &&& row.category_name == (match p.category_id {
        Some(c) => Some(db.categories@[c - 1].name),
        None => None,
    })
    &&& row.brand_id == p.brand_id
    &&& row.brand_name == (match p.brand_id {
        Some(b) => Some(db.brands@[b - 1].name),
        None => None,
    })
    &&& row.unit_id == p.unit_id
    &&& row.unit_name == db.units@[p.unit_id - 1].name
    &&& row.unit_abbreviation == db.units@[p.unit_id - 1].abbreviation
    &&& row.purchase_price == p.purchase_price
    &&& row.selling_price == p.selling_price
    &&& row.tax_id == p.tax_id
    &&& row.discount_id == p.discount_id
    &&& row.min_stock == p.min_stock
    &&& row.current_stock == p.current_stock
    &&& row.is_active == p.is_active
    &&& row.image_path == p.image_path
    &&& row.created_at == p.created_at
    &&& row.updated_at == p.updated_at
    &&& lists_barcodes(db, p.id, row.barcodes@)
}

fn clone_opt(s: &Option<String>) -> (r: Option<String>)
    ensures
        r == *s,
{
    match s {
        Some(v) => Some(v.clone()),
        None => None,
    }
}

/// The barcodes of product `product_id`, in ascending order.
pub fn barcodes_for(db: &Database, product_id: i64) -> (codes: Vec<String>)
    requires
        db.wf(),
    ensures
        lists_barcodes(db, product_id, codes@),
{
    let ghost pred = barcode_of(db, product_id);
    let ghost key = barcode_text(db);
    let n = db.barcodes.len();
    let mut cand: Vec<usize> = Vec::new();
    let mut keys: Vec<Vec<char>> = Vec::new();
    let mut i: usize = 0;
    while i < n
        invariant
            n == db.barcodes@.len(),
            i <= n,
            pred == barcode_of(db, product_id),
            key == barcode_text(db),
            candidates(cand@, i as int, pred),
            keys.len() == cand.len(),
            forall|t: int| 0 <= t < cand.len() ==> (#[trigger] keys@[t])@ == key(cand@[t] as int),
        decreases n - i,
    {
        let ghost old_cand = cand@;
        assert(pred(i as int) == (db.barcodes@[i as int].product_id == product_id));
        if db.barcodes[i].product_id == product_id {
            cand.push(i);
            keys.push(chars_of(db.barcodes[i].barcode.as_str()));
            assert(cand@[cand.len() - 1] == i);
        }
        proof {
            assert forall|j: int| 0 <= j < i + 1 && #[trigger] pred(j) implies cand@.contains(j as usize) by {
                if j < i {
                    let t = choose|t: int| 0 <= t < old_cand.len() && old_cand[t] == j as usize;
                    assert(cand@[t] == j as usize);
                } else {
                    assert(cand@[cand.len() - 1] == i);
                }
            }
        }
        i = i + 1;
    }
    let idx = sort_positions(&keys);
    let mut codes: Vec<String> = Vec::new();
    let mut k: usize = 0;
    while k < idx.len()
        invariant
            k <= idx.len(),
            idx.len() == cand.len(),
            forall|a: int| 0 <= a < idx.len() ==> #[trigger] idx@[a] < cand.len(),
            forall|t: int| 0 <= t < cand.len() ==> #[trigger] cand@[t] < n,
            n == db.barcodes@.len(),
            codes.len() == k,
            forall|a: int|
                0 <= a < k ==> #[trigger] codes@[a] == db.barcodes@[cand@[idx@[a] as int] as int].barcode,
        decreases idx.len() - k,
    {
        let j = cand[idx[k]];
        codes.push(db.barcodes[j].barcode.clone());
        k = k + 1;
    }
    proof {
        let ks = keys@.map_values(|v: Vec<char>| v@);
        let pos = Seq::new(codes@.len(), |a: int| cand@[idx@[a] as int] as int);
        lemma_enumerates(cand@, ks, idx@, pos, n as int, pred, key);
        assert(enumerates_sorted(pos, db.barcodes@.len() as int, pred, key));
    }
    codes
}

/// Product row `i` with its joins and barcodes.
fn row_at(db: &Database, i: usize) -> (row: ProductRow)
    requires
        db.wf(),
        i < db.products@.len(),
    ensures
        row_matches(db, row, i as int),
{
    let p = &db.products[i];
    let _ = (db.categories.len(), db.brands.len(), db.units.len());
    proof {
        let pp = db.products@[i as int];
        assert(valid_id(pp.unit_id, db.units@.len()));
        assert(valid_opt_id(pp.category_id, db.categories@.len()));
        assert(valid_opt_id(pp.brand_id, db.brands@.len()));
    }
    let category_name = match p.category_id {
        Some(c) => {
            let ci = (c - 1) as usize;
            let name = db.categories[ci].name.clone();
            assert(name == db.categories@[c - 1].name);
            Some(name)
        },
        None => None,
    };
    let brand_name = match p.brand_id {
        Some(b) => {
            let bi = (b - 1) as usize;
            let name = db.brands[bi].name.clone();
            assert(name == db.brands@[b - 1].name);
            Some(name)
        },
        None => None,
    };
    let ui = (p.unit_id - 1) as usize;
    let unit = &db.units[ui];
    let unit_name = unit.name.clone();
    let unit_abbreviation = unit.abbreviation.clone();
    assert(unit_name == db.units@[p.unit_id - 1].name);
    let barcodes = barcodes_for(db, p.id);
    ProductRow {
        id: p.id,
        sku: p.sku.clone(),
        name: p.name.clone(),
        description: clone_opt(&p.description),
        category_id: p.category_id,
        category_name,
        brand_id: p.brand_id,
        brand_name,
        unit_id: p.unit_id,
        unit_name,
        unit_abbreviation,
        purchase_price: p.purchase_price,
        selling_price: p.selling_price,
        tax_id: p.tax_id,
        discount_id: p.discount_id,
        min_stock: p.min_stock,
        current_stock: p.current_stock,
        is_active: p.is_active,
        image_path: clone_opt(&p.image_path),
        created_at: p.created_at.clone(),
        updated_at: p.updated_at.clone(),
        barcodes,
    }
}

/// Whether product row `j` passes `filter`.
pub open spec fn passes(db: &Database, filter: &ProductFilter, j: int) -> bool {
    let p = db.products@[j];
    &&& !p.deleted
    &&& (filter.include_inactive || p.is_active)
    &&& (match filter.category_id {
        Some(c) => p.category_id == Some(c),
        None => true,
    })
    &&& (match filter.search {
        Some(s) => like(s@, p.sku@) || like(s@, p.name@),
        None => true,
    })
}

pub open spec fn listed(db: &Database, filter: &ProductFilter) -> spec_fn(int) -> bool {
    |j: int| passes(db, filter, j)
}

pub open spec fn product_name(db: &Database) -> spec_fn(int) -> Seq<char> {
    |j: int| db.products@[j].name@
}

/// `rows` are the products that pass `filter`, ordered by name.
pub open spec fn lists_products(db: &Database, filter: &ProductFilter, rows: Seq<ProductRow>) -> bool {
    exists|pos: Seq<int>|
        {
            &&& #[trigger] enumerates_sorted(pos, db.products@.len() as int, listed(db, filter), product_name(db))
            &&& rows.len() == pos.len()
            &&& forall|k: int| 0 <= k < pos.len() ==> row_matches(db, rows[k], pos[k])
        }
}

fn passes_exec(db: &Database, filter: &ProductFilter, j: usize) -> (b: bool)
    requires
        j < db.products@.len(),
    ensures
        b == passes(db, filter, j as int),
{
    let p = &db.products[j];
    if p.deleted {
        return false;
    }
    if !filter.include_inactive && !p.is_active {
        return false;
    }
    match filter.category_id {
        Some(c) => {
            if p.category_id != Some(c) {
                return false;
            }
        },
        None => {},
    }
    match &filter.search {
        Some(s) => {
            let pattern = chars_of(s.as_str());
            like_match(&pattern, &chars_of(p.sku.as_str())) || like_match(&pattern, &chars_of(p.name.as_str()))
        },
        None => true,
    }
}

/// The products that are not deleted, active unless the filter includes
/// inactive ones, in the filter's category if it names one, and whose SKU
/// or name matches the filter's search pattern if it has one; ordered by
/// name.
pub fn list(db: &Database, filter: &ProductFilter) -> (rows: Vec<ProductRow>)
    requires
        db.wf(),
    ensures
        lists_products(db, filter, rows@),
{
    let ghost pred = listed(db, filter);
    let ghost key = product_name(db);
    let n = db.products.len();
    let mut cand: Vec<usize> = Vec::new();
    let mut keys: Vec<Vec<char>> = Vec::new();
    let mut i: usize = 0;
    while i < n
        invariant
            n == db.products@.len(),
            i <= n,
            pred == listed(db, filter),
            key == product_name(db),
            candidates(cand@, i as int, pred),
            keys.len() == cand.len(),
            forall|t: int| 0 <= t < cand.len() ==> (#[trigger] keys@[t])@ == key(cand@[t] as int),
        decreases n - i,
    {
        let ghost old_cand = cand@;
        assert(pred(i as int) == passes(db, filter, i as int));
        if passes_exec(db, filter, i) {
            cand.push(i);
            keys.push(chars_of(db.products[i].name.as_str()));
            assert(cand@[cand.len() - 1] == i);
        }
        proof {
            assert forall|j: int| 0 <= j < i + 1 && #[trigger] pred(j) implies cand@.contains(j as usize) by {
                if j < i {
                    let t = choose|t: int| 0 <= t < old_cand.len() && old_cand[t] == j as usize;
                    assert(cand@[t] == j as usize);
                } else {
                    assert(cand@[cand.len() - 1] == i);
                }
            }
        }
        i = i + 1;
    }
    let idx = sort_positions(&keys);
    let mut rows: Vec<ProductRow> = Vec::new();
    let mut k: usize = 0;
    while k < idx.len()
        invariant
            db.wf(),
            k <= idx.len(),
            idx.len() == cand.len(),
            forall|a: int| 0 <= a < idx.len() ==> #[trigger] idx@[a] < cand.len(),
            forall|t: int| 0 <= t < cand.len() ==> #[trigger] cand@[t] < n,
            n == db.products@.len(),
            rows.len() == k,
            forall|a: int|
                0 <= a < k ==> row_matches(db, #[trigger] rows@[a], cand@[idx@[a] as int] as int),
        decreases idx.len() - k,
    {
        let j = cand[idx[k]];
        rows.push(row_at(db, j));
        k = k + 1;
    }
    proof {
        let ks = keys@.map_values(|v: Vec<char>| v@);
        let pos = Seq::new(rows@.len(), |a: int| cand@[idx@[a] as int] as int);
        lemma_enumerates(cand@, ks, idx@, pos, n as int, pred, key);
        assert(enumerates_sorted(pos, db.products@.len() as int, pred, key));
    }
    rows
}

/// Product row `j` is live, active and at or below its minimum stock.
pub open spec fn is_low(db: &Database, j: int) -> bool {
    let p = db.products@[j];
    !p.deleted && p.is_active && p.current_stock <= p.min_stock
}

pub open spec fn low(db: &Database) -> spec_fn(int) -> bool {
    |j: int| is_low(db, j)
}

/// `rows` are the live, active products at or below their minimum stock,
/// ordered by name.
pub open spec fn lists_low_stock(db: &Database, rows: Seq<ProductRow>) -> bool {
    exists|pos: Seq<int>|
        {
            &&& #[trigger] enumerates_sorted(pos, db.products@.len() as int, low(db), product_name(db))
            &&& rows.len() == pos.len()
            &&& forall|k: int| 0 <= k < pos.len() ==> row_matches(db, rows[k], pos[k])
        }
}

/// The live, active products whose stock is at or below their minimum,
/// ordered by name.
pub fn list_low_stock(db: &Database) -> (rows: Vec<ProductRow>)
    requires
        db.wf(),
    ensures
        lists_low_stock(db, rows@),
{
    let ghost pred = low(db);
    let ghost key = product_name(db);
    let n = db.products.len();
    let mut cand: Vec<usize> = Vec::new();
    let mut keys: Vec<Vec<char>> = Vec::new();
    let mut i: usize = 0;
    while i < n
        invariant
            n == db.products@.len(),
            i <= n,
            pred == low(db),
            key == product_name(db),
            candidates(cand@, i as int, pred),
            keys.len() == cand.len(),
            forall|t: int| 0 <= t < cand.len() ==> (#[trigger] keys@[t])@ == key(cand@[t] as int),
        decreases n - i,
    {
        let ghost old_cand = cand@;
        let p = &db.products[i];
        let keep = !p.deleted && p.is_active && p.current_stock <= p.min_stock;
        assert(pred(i as int) == keep);
        if keep {
            cand.push(i);
            keys.push(chars_of(db.products[i].name.as_str()));
            assert(cand@[cand.len() - 1] == i);
        }
        proof {
            assert forall|j: int| 0 <= j < i + 1 && #[trigger] pred(j) implies cand@.contains(j as usize) by {
                if j < i {
                    let t = choose|t: int| 0 <= t < old_cand.len() && old_cand[t] == j as usize;
                    assert(cand@[t] == j as usize);
                } else {
                    assert(cand@[cand.len() - 1] == i);
                }
            }
        }
        i = i + 1;
    }
    let idx = sort_positions(&keys);
    let mut rows: Vec<ProductRow> = Vec::new();
    let mut k: usize = 0;
    while k < idx.len()
        invariant
            db.wf(),
            k <= idx.len(),
            idx.len() == cand.len(),
            forall|a: int| 0 <= a < idx.len() ==> #[trigger] idx@[a] < cand.len(),
            forall|t: int| 0 <= t < cand.len() ==> #[trigger] cand@[t] < n,
            n == db.products@.len(),
            rows.len() == k,
            forall|a: int|
                0 <= a < k ==> row_matches(db, #[trigger] rows@[a], cand@[idx@[a] as int] as int),
        decreases idx.len() - k,
    {
        let j = cand[idx[k]];
        rows.push(row_at(db, j));
        k = k + 1;
    }
    proof {
        let ks = keys@.map_values(|v: Vec<char>| v@);
        let pos = Seq::new(rows@.len(), |a: int| cand@[idx@[a] as int] as int);
        lemma_enumerates(cand@, ks, idx@, pos, n as int, pred, key);
        assert(enumerates_sorted(pos, db.products@.len() as int, pred, key));
    }
    rows
}

/// Product `id` exists and is not deleted.
pub open spec fn live(db: &Database, id: i64) -> bool {
    1 <= id <= db.products@.len() && !db.products@[id - 1].deleted
}

/// Product `id`, unless it does not exist or is deleted.
pub fn find_by_id(db: &Database, id: i64) -> (r: Option<ProductRow>)
    requires
        db.wf(),
    ensures
        live(db, id) <==> r is Some,
        r matches Some(row) ==> row_matches(db, row, id - 1),
{
    if id < 1 || id as u64 > db.products.len() as u64 {
        return None;
    }
    let i = (id - 1) as usize;
    if db.products[i].deleted {
        None
    } else {
        Some(row_at(db, i))
    }
}

/// The product, not deleted, that carries `barcode`. Barcodes are unique,
/// so at most one product carries it.
pub fn find_by_barcode(db: &Database, barcode: &str) -> (r: Option<ProductRow>)
    requires
        db.wf(),
    ensures
        r is Some <==> exists|j: int|
            0 <= j < db.barcodes@.len() && #[trigger] db.barcodes@[j].barcode@ == barcode@ && live(
                db,
                db.barcodes@[j].product_id,
            ),
        r matches Some(row) ==> exists|j: int|
            0 <= j < db.barcodes@.len() && #[trigger] db.barcodes@[j].barcode@ == barcode@ && row_matches(
                db,
                row,
                db.barcodes@[j].product_id - 1,
            ),
{
    let target = barcode.to_owned();
    let mut j: usize = 0;
    while j < db.barcodes.len()
        invariant
            db.wf(),
            j <= db.barcodes.len(),
            target@ == barcode@,
            forall|t: int|
                0 <= t < j ==> !(#[trigger] db.barcodes@[t].barcode@ == barcode@ && live(
                    db,
                    db.barcodes@[t].product_id,
                )),
        decreases db.barcodes.len() - j,
    {
        if db.barcodes[j].barcode == target {
            let pid = db.barcodes[j].product_id;
            let _ = db.products.len();
            assert(db.barcodes@[j as int].barcode@ == barcode@);
            assert(valid_id(pid, db.products@.len()));
            let i = (pid - 1) as usize;
            if !db.products[i].deleted {
                let row = row_at(db, i);
                assert(live(db, db.barcodes@[j as int].product_id));
                return Some(row);
            }
        }
        j = j + 1;
    }
    None
}

/// Some product row other than `except` has this SKU.
pub open spec fn sku_taken(db: &Database, sku: Seq<char>, except: int) -> bool {
    exists|j: int| 0 <= j < db.products@.len() && j != except && #[trigger] db.products@[j].sku@ == sku
}

/// The references of `np` name existing rows.
pub open spec fn keys_valid(db: &Database, np: &NewProduct) -> bool {
    &&& valid_id(np.unit_id, db.units@.len())
    &&& valid_opt_id(np.category_id, db.categories@.len())
    &&& valid_opt_id(np.brand_id, db.brands@.len())
    &&& valid_opt_id(np.tax_id, db.taxes@.len())
    &&& valid_opt_id(np.discount_id, db.discounts@.len())
}

/// Barcode `k` of `codes` is already held by a product other than `pid`,
/// or repeats an earlier one of `codes`.
pub open spec fn clashes_at(db: &Database, pid: i64, codes: Seq<String>, k: int) -> bool {
    ||| exists|j: int|
        0 <= j < db.barcodes@.len() && db.barcodes@[j].product_id != pid && #[trigger] db.barcodes@[j].barcode@
            == codes[k]@
    ||| exists|k2: int| 0 <= k2 < k && #[trigger] codes[k2]@ == codes[k]@
}

pub open spec fn barcode_clash(db: &Database, pid: i64, codes: Seq<String>) -> bool {
    exists|k: int| 0 <= k < codes.len() && #[trigger] clashes_at(db, pid, codes, k)
}

/// The settable columns of `p` hold the values of `np`.
pub open spec fn holds_new_values(p: ProductRecord, np: &NewProduct) -> bool {
    &&& p.sku@ == np.sku@
    &&& p.name@ == np.name@
    &&& opt_text(p.description) == opt_str(np.description)
    &&& p.category_id == np.category_id
    &&& p.brand_id == np.brand_id
    &&& p.unit_id == np.unit_id
    &&& p.purchase_price == np.purchase_price
    &&& p.selling_price == np.selling_price
    &&& p.tax_id == np.tax_id
    &&& p.discount_id == np.discount_id
    &&& p.min_stock == np.min_stock
    &&& opt_text(p.image_path) == opt_str(np.image_path)
}

pub open spec fn not_of(pid: i64) -> spec_fn(BarcodeRecord) -> bool {
    |b: BarcodeRecord| b.product_id != pid
}

/// `after` is `before` with the barcodes of `pid` dropped and one row per
/// element of `codes` added for it.
pub open spec fn barcodes_replaced(before: Seq<BarcodeRecord>, after: Seq<BarcodeRecord>, pid: i64, codes: Seq<String>) -> bool {
    let kept = before.filter(not_of(pid));
    &&& after.len() == kept.len() + codes.len()
    &&& after.take(kept.len() as int) == kept
    &&& forall|k: int|
        0 <= k < codes.len() ==> #[trigger] after[kept.len() + k] == (BarcodeRecord { product_id: pid, barcode: codes[k] })
}

fn opt_owned(s: Option<&str>) -> (r: Option<String>)
    ensures
        opt_text(r) == opt_str(s),
{
    match s {
        Some(v) => Some(v.to_owned()),
        None => None,
    }
}

fn find_sku(db: &Database, sku: &str, except: Option<usize>) -> (b: bool)
    ensures
        b == sku_taken(db, sku@, match except { Some(e) => e as int, None => -1 }),
{
    let target = sku.to_owned();
    let mut j: usize = 0;
    while j < db.products.len()
        invariant
            j <= db.products.len(),
            target@ == sku@,
            forall|t: int|
                0 <= t < j && t != (match except { Some(e) => e as int, None => -1 }) ==> #[trigger] db.products@[t].sku@
                    != sku@,
        decreases db.products.len() - j,
    {
        if except != Some(j) && db.products[j].sku == target {
            return true;
        }
        j = j + 1;
    }
    false
}

fn opt_key_ok(id: Option<i64>, len: usize) -> (b: bool)
    ensures
        b == valid_opt_id(id, len as nat),
{
    match id {
        Some(i) => 1 <= i && i as u64 <= len as u64,
        None => true,
    }
}

fn check_keys(db: &Database, np: &NewProduct) -> (b: bool)
    ensures
        b == keys_valid(db, np),
{
    1 <= np.unit_id && np.unit_id as u64 <= db.units.len() as u64 && opt_key_ok(np.category_id, db.categories.len())
        && opt_key_ok(np.brand_id, db.brands.len()) && opt_key_ok(np.tax_id, db.taxes.len()) && opt_key_ok(
        np.discount_id,
        db.discounts.len(),
    )
}

fn find_clash(db: &Database, pid: i64, codes: &[String]) -> (b: bool)
    ensures
        b == barcode_clash(db, pid, codes@),
{
    let mut k: usize = 0;
    while k < codes.len()
        invariant
            k <= codes.len(),
            forall|t: int| 0 <= t < k ==> !#[trigger] clashes_at(db, pid, codes@, t),
        decreases codes.len() - k,
    {
        let mut j: usize = 0;
        while j < db.barcodes.len()
            invariant
                k < codes.len(),
                j <= db.barcodes.len(),
                forall|t: int|
                    0 <= t < j ==> !(db.barcodes@[t].product_id != pid && #[trigger] db.barcodes@[t].barcode@
                        == codes@[k as int]@),
            decreases db.barcodes.len() - j,
        {
            if db.barcodes[j].product_id != pid && db.barcodes[j].barcode == codes[k] {
                assert(clashes_at(db, pid, codes@, k as int));
                return true;
            }
            j = j + 1;
        }
        let mut k2: usize = 0;
        while k2 < k
            invariant
                k < codes.len(),
                k2 <= k,
                forall|t: int| 0 <= t < k2 ==> #[trigger] codes@[t]@ != codes@[k as int]@,
            decreases k - k2,
        {
            if codes[k2] == codes[k] {
                assert(clashes_at(db, pid, codes@, k as int));
                return true;
            }
            k2 = k2 + 1;
        }
        k = k + 1;
    }
    false
}

/// Drops every barcode of `pid`, then adds one row per element of
/// `codes`; the caller has checked for clashes.
fn replace_barcodes(db: &mut Database, pid: i64, codes: &[String])
    requires
        old(db).wf(),
        codes@.len() > 0 ==> valid_id(pid, old(db).products@.len()),
        !barcode_clash(old(db), pid, codes@),
    ensures
        final(db).wf(),
        old(db).agrees_outside(final(db), set![Table::Barcodes]),
        barcodes_replaced(old(db).barcodes@, final(db).barcodes@, pid, codes@),
{
    let ghost before = db.barcodes@;
    let mut kept: Vec<BarcodeRecord> = Vec::new();
    let ghost mut src: Seq<int> = Seq::empty();
    let mut i: usize = 0;
    while i < db.barcodes.len()
        invariant
            i <= db.barcodes.len(),
            db.barcodes@ == before,
            db.wf(),
            kept@ == before.take(i as int).filter(not_of(pid)),
            forall|t: int| 0 <= t < kept@.len() ==> valid_id(#[trigger] kept@[t].product_id, db.products@.len()),
            src.len() == kept@.len(),
            forall|t: int|
                0 <= t < kept@.len() ==> 0 <= #[trigger] src[t] < i && before[src[t]] == kept@[t]
                    && before[src[t]].product_id != pid,
            forall|a: int, b: int| 0 <= a < b < src.len() ==> #[trigger] src[a] < #[trigger] src[b],
        decreases db.barcodes.len() - i,
    {
        proof {
            reveal_with_fuel(Seq::<_>::filter, 1);
            assert(before.take(i + 1).drop_last() =~= before.take(i as int));
        }
        if db.barcodes[i].product_id != pid {
            let ghost prev = kept@;
            kept.push(BarcodeRecord { product_id: db.barcodes[i].product_id, barcode: db.barcodes[i].barcode.clone() });
            proof {
                src = src.push(i as int);
                assert(kept@[prev.len() as int] == before[i as int]);
                assert forall|t: int| 0 <= t < kept@.len() implies 0 <= #[trigger] src[t] < i + 1 && before[src[t]]
                    == kept@[t] && before[src[t]].product_id != pid by {
                    if t < prev.len() {
                        assert(kept@[t] == prev[t]);
                    }
                }
            }
        }
        i = i + 1;
    }
    assert(before.take(before.len() as int) =~= before);
    let ghost kept_len = kept@.len();
    let ghost kept_seq = kept@;
    proof {
        assert forall|a: int, b: int| 0 <= a < b < kept_len implies (#[trigger] kept_seq[a]).barcode@ != (
        #[trigger] kept_seq[b]).barcode@ by {
            assert(src[a] < src[b]);
            assert(before[src[a]] == kept_seq[a] && before[src[b]] == kept_seq[b]);
        }
    }
    let mut k: usize = 0;
    while k < codes.len()
        invariant
            k <= codes.len(),
            kept@.len() == kept_len + k,
            kept@.take(kept_len as int) == kept_seq,
            kept_seq == before.filter(not_of(pid)),
            forall|t: int| 0 <= t < kept_len ==> valid_id(#[trigger] kept_seq[t].product_id, db.products@.len()),
            forall|t: int| 0 <= t < k ==> #[trigger] kept@[kept_len + t] == (BarcodeRecord { product_id: pid, barcode: codes@[t] }),
            src.len() == kept_len,
            forall|t: int|
                0 <= t < kept_len ==> 0 <= #[trigger] src[t] < before.len() && before[src[t]] == kept_seq[t]
                    && before[src[t]].product_id != pid,
            forall|a: int, b: int|
                0 <= a < b < kept@.len() ==> (#[trigger] kept@[a]).barcode@ != (#[trigger] kept@[b]).barcode@,
            before == db.barcodes@,
            !barcode_clash(db, pid, codes@),
        decreases codes.len() - k,
    {
        let ghost prev = kept@;
        kept.push(BarcodeRecord { product_id: pid, barcode: codes[k].clone() });
        assert(kept@.take(kept_len as int) =~= prev.take(kept_len as int));
        proof {
            assert(!clashes_at(db, pid, codes@, k as int));
            assert forall|a: int, b: int| 0 <= a < b < kept@.len() implies (#[trigger] kept@[a]).barcode@ != (
            #[trigger] kept@[b]).barcode@ by {
                assert(kept@[a] == prev[a]);
                if b < prev.len() {
                    assert(kept@[b] == prev[b]);
                } else if a < kept_len {
                    assert(kept@[a] == kept_seq[a]) by {
                        assert(kept@[a] == kept@.take(kept_len as int)[a]);
                    }
                    let w = src[a];
                    assert(before[w] == kept_seq[a] && before[w].product_id != pid);
                    assert(db.barcodes@[w].barcode@ != codes@[k as int]@);
                } else {
                    let t = a - kept_len;
                    assert(kept@[kept_len + t] == (BarcodeRecord { product_id: pid, barcode: codes@[t] }));
                    assert(codes@[t]@ != codes@[k as int]@);
                }
            }
        }
        k = k + 1;
    }
    proof {
        assert forall|j: int| 0 <= j < kept@.len() implies valid_id(#[trigger] kept@[j].product_id, db.products@.len()) by {
            if j < kept_len {
                assert(kept@[j] == kept@.take(kept_len as int)[j]);
            } else {
                assert(kept@[kept_len + (j - kept_len)] == (BarcodeRecord { product_id: pid, barcode: codes@[j - kept_len] }));
            }
        }
    }
    db.barcodes = kept;
}

/// Adds a product and its barcodes. Either every row is written or, on an
/// error, none is.
pub fn insert(db: &mut Database, input: &NewProduct) -> (r: Result<i64, DbError>)
    requires
        old(db).wf(),
    ensures
        final(db).wf(),
        final(db).clock() == old(db).clock(),
        sku_taken(old(db), input.sku@, -1) ==> {
            &&& r matches Err(DbError::Constraint(m))
            &&& m@ == "UNIQUE constraint failed: products.sku"@
        },
        !sku_taken(old(db), input.sku@, -1) && !keys_valid(old(db), input) ==> {
            &&& r matches Err(DbError::Constraint(m))
            &&& m@ == "FOREIGN KEY constraint failed"@
        },
        !sku_taken(old(db), input.sku@, -1) && keys_valid(old(db), input) && !room(old(db).products@.len())
            ==> r matches Err(DbError::Full),
        !sku_taken(old(db), input.sku@, -1) && keys_valid(old(db), input) && room(old(db).products@.len())
            && barcode_clash(old(db), (old(db).products@.len() + 1) as i64, input.barcodes@) ==> {
            &&& r matches Err(DbError::Constraint(m))
            &&& m@ == "UNIQUE constraint failed: product_barcodes.barcode"@
        },
        !sku_taken(old(db), input.sku@, -1) && keys_valid(old(db), input) && room(old(db).products@.len())
            && !barcode_clash(old(db), (old(db).products@.len() + 1) as i64, input.barcodes@) ==> r is Ok,
        r is Err ==> old(db).same_tables(final(db)),
        r matches Ok(id) ==> {
            let p = final(db).products@.last();
            &&& !sku_taken(old(db), input.sku@, -1)
            &&& keys_valid(old(db), input)
            &&& room(old(db).products@.len())
            &&& !barcode_clash(old(db), id, input.barcodes@)
            &&& id == old(db).products@.len() + 1
            &&& final(db).products@.len() == id
            &&& final(db).products@.drop_last() == old(db).products@
            &&& p.id == id
            &&& holds_new_values(p, input)
            &&& p.current_stock == 0
            &&& p.is_active
            &&& !p.deleted
            &&& p.created_at@ == old(db).clock()
            &&& p.updated_at@ == old(db).clock()
            &&& barcodes_replaced(old(db).barcodes@, final(db).barcodes@, id, input.barcodes@)
            &&& old(db).agrees_outside(final(db), set![Table::Products, Table::Barcodes])
        },
{
    if find_sku(db, input.sku, None) {
        return Err(constraint("UNIQUE constraint failed: products.sku"));
    }
    if !check_keys(db, input) {
        return Err(constraint("FOREIGN KEY constraint failed"));
    }
    if !has_room(db.products.len()) {
        return Err(DbError::Full);
    }
    let id = next_id(db.products.len());
    if find_clash(db, id, input.barcodes) {
        return Err(constraint("UNIQUE constraint failed: product_barcodes.barcode"));
    }
    let rec = ProductRecord {
        id,
        sku: input.sku.to_owned(),
        name: input.name.to_owned(),
        description: opt_owned(input.description),
        category_id: input.category_id,
        brand_id: input.brand_id,
        unit_id: input.unit_id,
        purchase_price: input.purchase_price,
        selling_price: input.selling_price,
        tax_id: input.tax_id,
        discount_id: input.discount_id,
        min_stock: input.min_stock,
        current_stock: 0,
        is_active: true,
        image_path: opt_owned(input.image_path),
        created_at: db.now.clone(),
        updated_at: db.now.clone(),
        deleted: false,
    };
    proof {
        assert forall|t: int| 0 <= t < db.movements@.len() implies #[trigger] db.movements@[t].product_id != id by {
            assert(valid_id(db.movements@[t].product_id, db.products@.len()));
        }
        lemma_movement_total_none(db.movements@, id);
    }
    db.products.push(rec);
    assert(db.products@.drop_last() =~= old(db).products@);
    proof {
        assert(db.barcodes@ == old(db).barcodes@);
        assert(!barcode_clash(db, id, input.barcodes@)) by {
            if barcode_clash(db, id, input.barcodes@) {
                let k = choose|k: int| 0 <= k < input.barcodes@.len() && #[trigger] clashes_at(db, id, input.barcodes@, k);
                assert(clashes_at(old(db), id, input.barcodes@, k));
            }
        }
    }
    replace_barcodes(db, id, input.barcodes);
    Ok(id)
}

/// The outcome of `update`, given the store before it.
pub open spec fn update_fails_on_sku(db: &Database, id: i64, input: &NewProduct) -> bool {
    live(db, id) && sku_taken(db, input.sku@, id - 1)
}

pub open spec fn update_fails_on_keys(db: &Database, id: i64, input: &NewProduct) -> bool {
    live(db, id) && !sku_taken(db, input.sku@, id - 1) && !keys_valid(db, input)
}

/// With the product row accepted, the barcode inserts fail: the product
/// does not exist, or a barcode clashes.
pub open spec fn update_fails_on_barcodes(db: &Database, id: i64, input: &NewProduct) -> bool {
    &&& !update_fails_on_sku(db, id, input)
    &&& !update_fails_on_keys(db, id, input)
    &&& input.barcodes@.len() > 0
    &&& (!valid_id(id, db.products@.len()) || barcode_clash(db, id, input.barcodes@))
}

/// Rewrites the fields of product `id` if it is not deleted, then replaces
/// its barcodes (a deleted product's too). Either both happen or, on an
/// error, nothing changes.
pub fn update(db: &mut Database, id: i64, input: &NewProduct) -> (r: Result<(), DbError>)
    requires
        old(db).wf(),
    ensures
        final(db).wf(),
        final(db).clock() == old(db).clock(),
        update_fails_on_sku(old(db), id, input) ==> {
            &&& r matches Err(DbError::Constraint(m))
            &&& m@ == "UNIQUE constraint failed: products.sku"@
        },
        update_fails_on_keys(old(db), id, input) ==> {
            &&& r matches Err(DbError::Constraint(m))
            &&& m@ == "FOREIGN KEY constraint failed"@
        },
        update_fails_on_barcodes(old(db), id, input) && !valid_id(id, old(db).products@.len()) ==> {
            &&& r matches Err(DbError::Constraint(m))
            &&& m@ == "FOREIGN KEY constraint failed"@
        },
        update_fails_on_barcodes(old(db), id, input) && valid_id(id, old(db).products@.len()) ==> {
            &&& r matches Err(DbError::Constraint(m))
            &&& m@ == "UNIQUE constraint failed: product_barcodes.barcode"@
        },
        !update_fails_on_sku(old(db), id, input) && !update_fails_on_keys(old(db), id, input)
            && !update_fails_on_barcodes(old(db), id, input) ==> r is Ok,
        r is Err ==> old(db).same_tables(final(db)),
        r is Ok ==> {
            &&& !update_fails_on_sku(old(db), id, input)
            &&& !update_fails_on_keys(old(db), id, input)
            &&& !update_fails_on_barcodes(old(db), id, input)
            &&& old(db).agrees_outside(final(db), set![Table::Products, Table::Barcodes])
            &&& final(db).products@.len() == old(db).products@.len()
            &&& forall|j: int|
                0 <= j < old(db).products@.len() && j != id - 1 ==> #[trigger] final(db).products@[j]
                    == old(db).products@[j]
            &&& !live(old(db), id) ==> final(db).products@ == old(db).products@
            &&& live(old(db), id) ==> {
                let (a, p) = (old(db).products@[id - 1], final(db).products@[id - 1]);
                &&& p.id == id
                &&& holds_new_values(p, input)
                &&& p.current_stock == a.current_stock
                &&& p.is_active == a.is_active
                &&& p.created_at == a.created_at
                &&& p.updated_at == a.updated_at
                &&& !p.deleted
            }
            &&& barcodes_replaced(old(db).barcodes@, final(db).barcodes@, id, input.barcodes@)
        },
{
    let n = db.products.len();
    let is_live = 1 <= id && id as u64 <= n as u64 && !db.products[(id - 1) as usize].deleted;
    if is_live {
        let i = (id - 1) as usize;
        if find_sku(db, input.sku, Some(i)) {
            return Err(constraint("UNIQUE constraint failed: products.sku"));
        }
        if !check_keys(db, input) {
            return Err(constraint("FOREIGN KEY constraint failed"));
        }
    }
    if input.barcodes.len() > 0 {
        if id < 1 || id as u64 > n as u64 {
            return Err(constraint("FOREIGN KEY constraint failed"));
        }
        if find_clash(db, id, input.barcodes) {
            return Err(constraint("UNIQUE constraint failed: product_barcodes.barcode"));
        }
    }
    if is_live {
        let i = (id - 1) as usize;
        let old_rec = &db.products[i];
        let rec = ProductRecord {
            id,
            sku: input.sku.to_owned(),
            name: input.name.to_owned(),
            description: opt_owned(input.description),
            category_id: input.category_id,
            brand_id: input.brand_id,
            unit_id: input.unit_id,
            purchase_price: input.purchase_price,
            selling_price: input.selling_price,
            tax_id: input.tax_id,
            discount_id: input.discount_id,
            min_stock: input.min_stock,
            current_stock: old_rec.current_stock,
            is_active: old_rec.is_active,
            image_path: opt_owned(input.image_path),
            created_at: old_rec.created_at.clone(),
            updated_at: old_rec.updated_at.clone(),
            deleted: false,
        };
        db.products.set(i, rec);
    }
    proof {
        assert(db.barcodes@ == old(db).barcodes@);
        assert(!barcode_clash(db, id, input.barcodes@)) by {
            if barcode_clash(db, id, input.barcodes@) {
                let k = choose|k: int| 0 <= k < input.barcodes@.len() && #[trigger] clashes_at(db, id, input.barcodes@, k);
                assert(clashes_at(old(db), id, input.barcodes@, k));
            }
        }
    }
    replace_barcodes(db, id, input.barcodes);
    Ok(())
}

fn copy_record(p: &ProductRecord, is_active: bool, deleted: bool) -> (r: ProductRecord)
    ensures
        r.id == p.id,
        r.sku == p.sku,
        r.name == p.name,
        r.description == p.description,
        r.category_id == p.category_id,
        r.brand_id == p.brand_id,
        r.unit_id == p.unit_id,
        r.purchase_price == p.purchase_price,
        r.selling_price == p.selling_price,
        r.tax_id == p.tax_id,
        r.discount_id == p.discount_id,
        r.min_stock == p.min_stock,
        r.current_stock == p.current_stock,
        r.image_path == p.image_path,
        r.created_at == p.created_at,
        r.updated_at == p.updated_at,
        r.is_active == is_active,
        r.deleted == deleted,
{
    ProductRecord {
        id: p.id,
        sku: p.sku.clone(),
        name: p.name.clone(),
        description: clone_opt(&p.description),
        category_id: p.category_id,
        brand_id: p.brand_id,
        unit_id: p.unit_id,
        purchase_price: p.purchase_price,
        selling_price: p.selling_price,
        tax_id: p.tax_id,
        discount_id: p.discount_id,
        min_stock: p.min_stock,
        current_stock: p.current_stock,
        is_active,
        image_path: clone_opt(&p.image_path),
        created_at: p.created_at.clone(),
        updated_at: p.updated_at.clone(),
        deleted,
    }
}

/// `p` and `q` agree on every column but `is_active` and `deleted`.
pub open spec fn same_but_flags(p: ProductRecord, q: ProductRecord) -> bool {
    &&& q.id == p.id
    &&& q.sku == p.sku
    &&& q.name == p.name
    &&& q.description == p.description
    &&& q.category_id == p.category_id
    &&& q.brand_id == p.brand_id
    &&& q.unit_id == p.unit_id
    &&& q.purchase_price == p.purchase_price
    &&& q.selling_price == p.selling_price
    &&& q.tax_id == p.tax_id
    &&& q.discount_id == p.discount_id
    &&& q.min_stock == p.min_stock
    &&& q.current_stock == p.current_stock
    &&& q.image_path == p.image_path
    &&& q.created_at == p.created_at
    &&& q.updated_at == p.updated_at
}

/// Sets whether product `id` is active, if it exists and is not deleted.
pub fn set_active(db: &mut Database, id: i64, is_active: bool) -> (r: Result<(), DbError>)
    requires
        old(db).wf(),
    ensures
        final(db).wf(),
        r is Ok,
        old(db).agrees_outside(final(db), set![Table::Products]),
        final(db).products@.len() == old(db).products@.len(),
        forall|j: int|
            0 <= j < old(db).products@.len() ==> {
                let (a, p) = (old(db).products@[j], #[trigger] final(db).products@[j]);
                &&& same_but_flags(a, p)
                &&& p.deleted == a.deleted
                &&& p.is_active == (if j == id - 1 && !a.deleted { is_active } else { a.is_active })
            },
{
    if id < 1 || id as u64 > db.products.len() as u64 {
        return Ok(());
    }
    let i = (id - 1) as usize;
    if db.products[i].deleted {
        return Ok(());
    }
    let rec = copy_record(&db.products[i], is_active, false);
    db.products.set(i, rec);
    Ok(())
}

/// Soft-deletes product `id`: marks it deleted and inactive.
pub fn soft_delete(db: &mut Database, id: i64) -> (r: Result<(), DbError>)
    requires
        old(db).wf(),
    ensures
        final(db).wf(),
        r is Ok,
        old(db).agrees_outside(final(db), set![Table::Products]),
        final(db).products@.len() == old(db).products@.len(),
        forall|j: int|
            0 <= j < old(db).products@.len() ==> {
                let (a, p) = (old(db).products@[j], #[trigger] final(db).products@[j]);
                &&& same_but_flags(a, p)
                &&& p.deleted == (a.deleted || j == id - 1)
                &&& p.is_active == (a.is_active && j != id - 1)
            },
{
    if id < 1 || id as u64 > db.products.len() as u64 {
        return Ok(());
    }
    let i = (id - 1) as usize;
    let rec = copy_record(&db.products[i], false, true);
    db.products.set(i, rec);
    Ok(())
}

} // verus!
