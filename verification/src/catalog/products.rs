use vstd::prelude::*;

use crate::catalog::error::{first_hit, friendly_conflict};
use crate::catalog::{bounded, bounded_text, lemma_contains_suffix, lemma_lacks_char, lemma_pair_hit, CatalogError};
use crate::db::repositories::products as repo;
use crate::db::repositories::products::{
    barcode_clash, barcodes_replaced, lists_products, live, row_matches, same_but_flags, sku_taken, NewProduct,
    ProductFilter, ProductRow,
};
use crate::db::repositories::stock_movements::opt_text;
use crate::db::{room, valid_id, valid_opt_id, Database, DbError, ProductRecord, Table};
use crate::text::{contains_seq, join, owned, texts, trim, trim_str};

verus! {

pub struct ProductDto {
    pub id: i64,
    pub sku: String,
    pub name: String,
    pub description: Option<String>,
    pub category_id: Option<i64>,
    pub category_name: Option<String>,
    pub brand_id: Option<i64>,
    pub brand_name: Option<String>,
    pub unit_id: i64,
    pub unit_name: String,
    pub unit_abbreviation: String,
    pub purchase_price: i64,
    pub selling_price: i64,
    pub tax_id: Option<i64>,
    pub discount_id: Option<i64>,
    pub min_stock: i64,
    pub current_stock: i64,
    pub is_active: bool,
    pub image_path: Option<String>,
    pub barcodes: Vec<String>,
    pub created_at: String,
    pub updated_at: String,
}

pub struct ProductInput {
    pub sku: String,
    pub name: String,
    pub description: Option<String>,
    pub category_id: Option<i64>,
    pub brand_id: Option<i64>,
    pub unit_id: i64,
    pub purchase_price: i64,
    pub selling_price: i64,
    pub tax_id: Option<i64>,
    pub discount_id: Option<i64>,
    pub min_stock: i64,
    pub image_path: Option<String>,
    pub barcodes: Vec<String>,
}

pub struct ProductListQuery {
    pub search: Option<String>,
    pub category_id: Option<i64>,
    pub include_inactive: bool,
}

impl Default for ProductListQuery {
    fn default() -> (q: ProductListQuery)
        ensures
            q.search is None,
            q.category_id is None,
            !q.include_inactive,
    {
        ProductListQuery { search: None, category_id: None, include_inactive: false }
    }
}

impl ProductDto {
    pub open spec fn of(row: ProductRow) -> ProductDto {
        ProductDto {
            id: row.id,
            sku: row.sku,
            name: row.name,
            description: row.description,
            category_id: row.category_id,
            category_name: row.category_name,
            brand_id: row.brand_id,
            brand_name: row.brand_name,
            unit_id: row.unit_id,
            unit_name: row.unit_name,
            unit_abbreviation: row.unit_abbreviation,
            purchase_price: row.purchase_price,
            selling_price: row.selling_price,
            tax_id: row.tax_id,
            discount_id: row.discount_id,
            min_stock: row.min_stock,
            current_stock: row.current_stock,
            is_active: row.is_active,
            image_path: row.image_path,
            barcodes: row.barcodes,
            created_at: row.created_at,
            updated_at: row.updated_at,
        }
    }
}

impl From<ProductRow> for ProductDto {
    fn from(row: ProductRow) -> (d: ProductDto) {
        dto(row)
    }
}

impl vstd::std_specs::convert::FromSpecImpl<ProductRow> for ProductDto {
    open spec fn obeys_from_spec() -> bool {
        true
    }

    open spec fn from_spec(row: ProductRow) -> ProductDto {
        ProductDto::of(row)
    }
}

fn dto(row: ProductRow) -> (d: ProductDto)
    ensures
        d == ProductDto::of(row),
{
    ProductDto {
        id: row.id,
        sku: row.sku,
        name: row.name,
        description: row.description,
        category_id: row.category_id,
        category_name: row.category_name,
        brand_id: row.brand_id,
        brand_name: row.brand_name,
        unit_id: row.unit_id,
        unit_name: row.unit_name,
        unit_abbreviation: row.unit_abbreviation,
        purchase_price: row.purchase_price,
        selling_price: row.selling_price,
        tax_id: row.tax_id,
        discount_id: row.discount_id,
        min_stock: row.min_stock,
        current_stock: row.current_stock,
        is_active: row.is_active,
        image_path: row.image_path,
        barcodes: row.barcodes,
        created_at: row.created_at,
        updated_at: row.updated_at,
    }
}

// ---------------------------------------------------------------------
// Validation

/// Optional text as stored: trimmed, and dropped when nothing is left.
pub open spec fn trimmed_opt(s: Option<String>) -> Option<Seq<char>> {
    match s {
        Some(t) => if trim(t@).len() == 0 {
            None
        } else {
            Some(trim(t@))
        },
        None => None,
    }
}

/// The barcodes as stored: each trimmed, blanks skipped; each at most 64
/// characters and none twice. `Err` holds the message for the first bad one.
pub open spec fn scan_barcodes(raw: Seq<String>) -> Result<Seq<Seq<char>>, Seq<char>>
    decreases raw.len(),
{
    if raw.len() == 0 {
        Ok(Seq::empty())
    } else {
        match scan_barcodes(raw.drop_last()) {
            Err(m) => Err(m),
            Ok(acc) => {
                let t = trim(raw.last()@);
                if t.len() == 0 {
                    Ok(acc)
                } else if t.len() > 64 {
                    Err("Barcodes must be at most 64 characters"@)
                } else if acc.contains(t) {
                    Err("Duplicate barcode: "@ + t)
                } else {
                    Ok(acc.push(t))
                }
            },
        }
    }
}

/// The stored SKU, name, description and barcodes, or the message for the
/// first rule broken: the SKU (1 to 64 characters), the name (1 to 200),
/// negative prices, a negative minimum stock, the barcodes.
pub open spec fn product_check(input: ProductInput) -> Result<
    (Seq<char>, Seq<char>, Option<Seq<char>>, Seq<Seq<char>>),
    Seq<char>,
> {
    match bounded_text(input.sku@, 64) {
        None => Err("SKU must be between 1 and 64 characters"@),
        Some(sku) => match bounded_text(input.name@, 200) {
            None => Err("Name must be between 1 and 200 characters"@),
            Some(name) => if input.purchase_price < 0 || input.selling_price < 0 {
                Err("Prices must not be negative"@)
            } else if input.min_stock < 0 {
                Err("Minimum stock must not be negative"@)
            } else {
                match scan_barcodes(input.barcodes@) {
                    Err(m) => Err(m),
                    Ok(codes) => Ok((sku, name, trimmed_opt(input.description), codes)),
                }
            },
        },
    }
}

struct Validated {
    sku: String,
    name: String,
    description: Option<String>,
    barcodes: Vec<String>,
}

proof fn lemma_scan_error_persists(raw: Seq<String>, k: int)
    requires
        0 < k <= raw.len(),
        scan_barcodes(raw.take(k)) is Err,
    ensures
        scan_barcodes(raw) == scan_barcodes(raw.take(k)),
    decreases raw.len(),
{
    if k == raw.len() {
        assert(raw.take(k) =~= raw);
    } else {
        assert(raw.drop_last().take(k) =~= raw.take(k));
        lemma_scan_error_persists(raw.drop_last(), k);
    }
}

fn scan(raw: &Vec<String>) -> (r: Result<Vec<String>, CatalogError>)
    ensures
        match scan_barcodes(raw@) {
            Ok(codes) => r matches Ok(v) && texts(v@) == codes,
            Err(m) => r matches Err(CatalogError::Validation(x)) && x@ == m,
        },
{
    let mut out: Vec<String> = Vec::new();
    assert(raw@.take(0) =~= Seq::<String>::empty());
    assert(texts(out@) =~= Seq::<Seq<char>>::empty());
    let mut k: usize = 0;
    while k < raw.len()
        invariant
            k <= raw@.len(),
            scan_barcodes(raw@.take(k as int)) == Ok::<Seq<Seq<char>>, Seq<char>>(texts(out@)),
        decreases raw@.len() - k,
    {
        assert(raw@.take(k + 1).drop_last() =~= raw@.take(k as int));
        assert(raw@.take(k + 1).last() == raw@[k as int]);
        let t = trim_str(raw[k].as_str());
        let n = t.unicode_len();
        if n > 0 {
            if n > 64 {
                proof {
                    lemma_scan_error_persists(raw@, k + 1);
                }
                return Err(CatalogError::Validation(owned("Barcodes must be at most 64 characters")));
            }
            let code = owned(t);
            let mut j: usize = 0;
            while j < out.len()
                invariant
                    j <= out@.len(),
                    k < raw@.len(),
                    code@ == t@,
                    t@ == trim(raw@[k as int]@),
                    0 < t@.len() <= 64,
                    raw@.take(k + 1).drop_last() == raw@.take(k as int),
                    raw@.take(k + 1).last() == raw@[k as int],
                    scan_barcodes(raw@.take(k as int)) == Ok::<Seq<Seq<char>>, Seq<char>>(texts(out@)),
                    forall|i: int| 0 <= i < j ==> (#[trigger] out@[i])@ != t@,
                decreases out@.len() - j,
            {
                if out[j] == code {
                    proof {
                        assert(texts(out@)[j as int] == t@);
                        assert(texts(out@).contains(t@));
                        lemma_scan_error_persists(raw@, k + 1);
                    }
                    return Err(CatalogError::Validation(join("Duplicate barcode: ", t)));
                }
                j = j + 1;
            }
            proof {
                if texts(out@).contains(t@) {
                    let i = choose|i: int| 0 <= i < texts(out@).len() && texts(out@)[i] == t@;
                    assert(out@[i]@ == t@);
                }
                assert(scan_barcodes(raw@.take(k + 1)) == Ok::<Seq<Seq<char>>, Seq<char>>(texts(out@).push(t@)));
            }
            let ghost prev = out@;
            out.push(code);
            assert(texts(out@) =~= texts(prev).push(t@));
        } else {
            assert(scan_barcodes(raw@.take(k + 1)) == Ok::<Seq<Seq<char>>, Seq<char>>(texts(out@)));
        }
        k = k + 1;
    }
    assert(raw@.take(raw@.len() as int) =~= raw@);
    Ok(out)
}

fn trimmed_opt_exec(s: &Option<String>) -> (r: Option<String>)
    ensures
        opt_text(r) == trimmed_opt(*s),
{
    match s {
        Some(t) => {
            let x = trim_str(t.as_str());
            if x.unicode_len() == 0 {
                None
            } else {
                Some(owned(x))
            }
        },
        None => None,
    }
}

fn validate(input: &ProductInput) -> (r: Result<Validated, CatalogError>)
    ensures
        match product_check(*input) {
            Ok((sku, name, description, codes)) => r matches Ok(v) && v.sku@ == sku && v.name@ == name && opt_text(
                v.description,
            ) == description && texts(v.barcodes@) == codes,
            Err(m) => r matches Err(CatalogError::Validation(x)) && x@ == m,
        },
{
    let sku = match bounded(input.sku.as_str(), 64) {
        Some(s) => s,
        None => {
            return Err(CatalogError::Validation(owned("SKU must be between 1 and 64 characters")));
        },
    };
    let name = match bounded(input.name.as_str(), 200) {
        Some(s) => s,
        None => {
            return Err(CatalogError::Validation(owned("Name must be between 1 and 200 characters")));
        },
    };
    if input.purchase_price < 0 || input.selling_price < 0 {
        return Err(CatalogError::Validation(owned("Prices must not be negative")));
    }
    if input.min_stock < 0 {
        return Err(CatalogError::Validation(owned("Minimum stock must not be negative")));
    }
    let description = trimmed_opt_exec(&input.description);
    let barcodes = match scan(&input.barcodes) {
        Ok(b) => b,
        Err(e) => {
            return Err(e);
        },
    };
    Ok(Validated { sku, name, description, barcodes })
}

// ---------------------------------------------------------------------
// Conflicts

pub open spec fn sku_message() -> Seq<char> {
    "A product with this SKU already exists"@
}

pub open spec fn barcode_message() -> Seq<char> {
    "One of these barcodes is already assigned to another product"@
}

proof fn lemma_sku_message()
    ensures
        contains_seq("UNIQUE constraint failed: products.sku"@, "products.sku"@),
{
    reveal_strlit("UNIQUE constraint failed: products.sku");
    reveal_strlit("UNIQUE constraint failed: ");
    reveal_strlit("products.sku");
    assert("UNIQUE constraint failed: products.sku"@ =~= "UNIQUE constraint failed: "@ + "products.sku"@);
    lemma_contains_suffix("UNIQUE constraint failed: "@, "products.sku"@);
}

proof fn lemma_code_message()
    ensures
        contains_seq("UNIQUE constraint failed: product_barcodes.barcode"@, "product_barcodes.barcode"@),
        !contains_seq("UNIQUE constraint failed: product_barcodes.barcode"@, "products.sku"@),
{
    let m = "UNIQUE constraint failed: product_barcodes.barcode"@;
    reveal_strlit("UNIQUE constraint failed: product_barcodes.barcode");
    reveal_strlit("UNIQUE constraint failed: ");
    reveal_strlit("product_barcodes.barcode");
    assert(m =~= "UNIQUE constraint failed: "@ + "product_barcodes.barcode"@);
    lemma_contains_suffix("UNIQUE constraint failed: "@, "product_barcodes.barcode"@);
    lemma_code_message_lacks_k();
    reveal_strlit("products.sku");
    assert("products.sku"@[10] == 'k');
    lemma_lacks_char(m, "products.sku"@, 10);
}

#[verifier::rlimit(40)]
proof fn lemma_code_message_lacks_k()
    ensures
        !"UNIQUE constraint failed: product_barcodes.barcode"@.contains('k'),
{
    reveal_strlit("UNIQUE constraint failed: product_barcodes.barcode");
}

proof fn lemma_fk_message()
    ensures
        !contains_seq("FOREIGN KEY constraint failed"@, "products.sku"@),
        !contains_seq("FOREIGN KEY constraint failed"@, "product_barcodes.barcode"@),
{
    let m = "FOREIGN KEY constraint failed"@;
    reveal_strlit("FOREIGN KEY constraint failed");
    reveal_strlit("product_barcodes.barcode");
    reveal_strlit("products.sku");
    assert("products.sku"@[0] == 'p');
    assert("product_barcodes.barcode"@[0] == 'p');
    assert(!m.contains('p'));
    lemma_lacks_char(m, "products.sku"@, 0);
    lemma_lacks_char(m, "product_barcodes.barcode"@, 0);
}

/// The error a failed product write is reported with: a clashing SKU or
/// barcode as a conflict for a person, anything else as it is.
fn report(e: DbError) -> (r: CatalogError)
    requires
        e matches DbError::Constraint(m) ==> (m@ == "UNIQUE constraint failed: products.sku"@ || m@
            == "UNIQUE constraint failed: product_barcodes.barcode"@ || m@ == "FOREIGN KEY constraint failed"@),
    ensures
        e matches DbError::Constraint(m) && m@ == "UNIQUE constraint failed: products.sku"@ ==> (r matches CatalogError::Conflict(x)
            && x@ == sku_message()),
        e matches DbError::Constraint(m) && m@ == "UNIQUE constraint failed: product_barcodes.barcode"@ ==> (
        r matches CatalogError::Conflict(x) && x@ == barcode_message()),
        e matches DbError::Constraint(m) && m@ == "FOREIGN KEY constraint failed"@ ==> (r matches CatalogError::Db(
            DbError::Constraint(x),
        ) && x@ == "FOREIGN KEY constraint failed"@),
        e is Full ==> r matches CatalogError::Db(DbError::Full),
        e is Overflow ==> r matches CatalogError::Db(DbError::Overflow),
{
    let mapping: [(&str, &str); 2] = [
        ("products.sku", "A product with this SKU already exists"),
        ("product_barcodes.barcode", "One of these barcodes is already assigned to another product"),
    ];
    proof {
        lemma_sku_message();
        lemma_code_message();
        lemma_fk_message();
        lemma_pair_hit("UNIQUE constraint failed: products.sku"@, mapping@);
        lemma_pair_hit("UNIQUE constraint failed: product_barcodes.barcode"@, mapping@);
        lemma_pair_hit("FOREIGN KEY constraint failed"@, mapping@);
    }
    friendly_conflict(e, &mapping)
}


// ---------------------------------------------------------------------
// Reads

/// The search pattern a query filters by: its trimmed text wrapped in `%`,
/// when any is left.
pub open spec fn search_pattern(query: ProductListQuery) -> Option<Seq<char>> {
    match trimmed_opt(query.search) {
        Some(t) => Some("%"@ + t + "%"@),
        None => None,
    }
}

/// The live products the query selects (by pattern on SKU or name, by
/// category, and active unless inactive ones are asked for), by name.
pub fn list(db: &Database, query: ProductListQuery) -> (r: Result<Vec<ProductDto>, CatalogError>)
    requires
        db.wf(),
    ensures
        r matches Ok(v) && exists|f: ProductFilter, rows: Seq<ProductRow>|
            {
                &&& opt_text(f.search) == search_pattern(query)
                &&& f.category_id == query.category_id
                &&& f.include_inactive == query.include_inactive
                &&& #[trigger] lists_products(db, &f, rows)
                &&& v@ == rows.map_values(|row: ProductRow| ProductDto::of(row))
            },
{
    let search = match trimmed_opt_exec(&query.search) {
        Some(t) => {
            let a = join("%", t.as_str());
            let w = join(a.as_str(), "%");
            assert(w@ =~= "%"@ + t@ + "%"@);
            Some(w)
        },
        None => None,
    };
    let filter = ProductFilter { search, category_id: query.category_id, include_inactive: query.include_inactive };
    let found = repo::list(db, &filter);
    let ghost rows = found@;
    let mut out: Vec<ProductDto> = Vec::new();
    let mut all = found;
    let n = all.len();
    let mut k: usize = 0;
    while k < n
        invariant
            n == rows.len(),
            k <= n,
            all@ == rows.subrange(k as int, n as int),
            out@ == rows.take(k as int).map_values(|row: ProductRow| ProductDto::of(row)),
        decreases n - k,
    {
        let row = all.remove(0);
        assert(row == rows[k as int]);
        out.push(dto(row));
        k = k + 1;
        assert(all@ =~= rows.subrange(k as int, n as int));
        assert(out@ =~= rows.take(k as int).map_values(|row: ProductRow| ProductDto::of(row)));
    }
    assert(rows.take(n as int) =~= rows);
    assert(lists_products(db, &filter, rows));
    Ok(out)
}

/// Live product `id`.
pub fn get(db: &Database, id: i64) -> (r: Result<ProductDto, CatalogError>)
    requires
        db.wf(),
    ensures
        live(db, id) ==> (r matches Ok(d) && exists|row: ProductRow|
            #[trigger] row_matches(db, row, id - 1) && d == ProductDto::of(row)),
        !live(db, id) ==> (r matches Err(CatalogError::NotFound(w)) && w@ == "product"@),
{
    proof {
        reveal_strlit("product");
    }
    match repo::find_by_id(db, id) {
        Some(row) => Ok(dto(row)),
        None => Err(CatalogError::NotFound("product")),
    }
}

/// The live product carrying the trimmed barcode, if any.
pub fn get_by_barcode(db: &Database, barcode: &str) -> (r: Result<Option<ProductDto>, CatalogError>)
    requires
        db.wf(),
    ensures
        r matches Ok(o) && (o is Some <==> exists|j: int|
            0 <= j < db.barcodes@.len() && #[trigger] db.barcodes@[j].barcode@ == trim(barcode@) && live(
                db,
                db.barcodes@[j].product_id,
            )) && (o matches Some(d) ==> exists|j: int, row: ProductRow|
            0 <= j < db.barcodes@.len() && #[trigger] db.barcodes@[j].barcode@ == trim(barcode@)
                && #[trigger] row_matches(db, row, db.barcodes@[j].product_id - 1) && d == ProductDto::of(row)),
{
    match repo::find_by_barcode(db, trim_str(barcode)) {
        Some(row) => Ok(Some(dto(row))),
        None => Ok(None),
    }
}

// ---------------------------------------------------------------------
// Writes

/// The input's references name existing rows.
pub open spec fn input_keys_valid(db: &Database, input: ProductInput) -> bool {
    &&& valid_id(input.unit_id, db.units@.len())
    &&& valid_opt_id(input.category_id, db.categories@.len())
    &&& valid_opt_id(input.brand_id, db.brands@.len())
    &&& valid_opt_id(input.tax_id, db.taxes@.len())
    &&& valid_opt_id(input.discount_id, db.discounts@.len())
}

/// Row `p` holds the validated SKU, name and description and the input's
/// other settable columns.
pub open spec fn holds_input(
    p: ProductRecord,
    input: ProductInput,
    v: (Seq<char>, Seq<char>, Option<Seq<char>>, Seq<Seq<char>>),
) -> bool {
    &&& p.sku@ == v.0
    &&& p.name@ == v.1
    &&& opt_text(p.description) == v.2
    &&& p.category_id == input.category_id
    &&& p.brand_id == input.brand_id
    &&& p.unit_id == input.unit_id
    &&& p.purchase_price == input.purchase_price
    &&& p.selling_price == input.selling_price
    &&& p.tax_id == input.tax_id
    &&& p.discount_id == input.discount_id
    &&& p.min_stock == input.min_stock
    &&& opt_text(p.image_path) == opt_text(input.image_path)
}

/// The answer to creating a product from validated values `v` (the stored
/// barcodes being `codes`): the SKU must be free, the references valid,
/// the store not full, the barcodes unclaimed; then the product is written,
/// with no stock, active, stamped now, with its barcodes.
pub open spec fn create_outcome(
    old: &Database,
    new: &Database,
    input: ProductInput,
    v: (Seq<char>, Seq<char>, Option<Seq<char>>, Seq<Seq<char>>),
    codes: Seq<String>,
    r: Result<ProductDto, CatalogError>,
) -> bool {
    let id = old.products@.len() + 1;
    let p = new.products@.last();
    if sku_taken(old, v.0, -1) {
        (r matches Err(CatalogError::Conflict(m)) && m@ == sku_message()) && old.same_tables(new)
    } else if !input_keys_valid(old, input) {
        (r matches Err(CatalogError::Db(DbError::Constraint(m))) && m@ == "FOREIGN KEY constraint failed"@)
            && old.same_tables(new)
    } else if !room(old.products@.len()) {
        r matches Err(CatalogError::Db(DbError::Full)) && old.same_tables(new)
    } else if barcode_clash(old, id as i64, codes) {
        (r matches Err(CatalogError::Conflict(m)) && m@ == barcode_message()) && old.same_tables(new)
    } else {
        &&& new.products@.len() == id
        &&& new.products@.drop_last() == old.products@
        &&& p.id == id
        &&& holds_input(p, input, v)
        &&& p.current_stock == 0
        &&& p.is_active
        &&& !p.deleted
        &&& p.created_at@ == old.clock()
        &&& p.updated_at@ == old.clock()
        &&& barcodes_replaced(old.barcodes@, new.barcodes@, id as i64, codes)
        &&& old.agrees_outside(new, set![Table::Products, Table::Barcodes])
        &&& r matches Ok(d) && exists|row: ProductRow| #[trigger] row_matches(new, row, id - 1) && d == ProductDto::of(row)
    }
}

spec fn validated_as(v: Validated) -> (Seq<char>, Seq<char>, Option<Seq<char>>, Seq<Seq<char>>) {
    (v.sku@, v.name@, opt_text(v.description), texts(v.barcodes@))
}

fn opt_as_str(s: &Option<String>) -> (r: Option<&str>)
    ensures
        crate::db::repositories::stock_movements::opt_str(r) == opt_text(*s),
{
    match s {
        Some(t) => Some(t.as_str()),
        None => None,
    }
}

fn insert_validated(db: &mut Database, input: &ProductInput, v: &Validated) -> (r: Result<ProductDto, CatalogError>)
    requires
        old(db).wf(),
    ensures
        final(db).wf(),
        create_outcome(old(db), final(db), *input, validated_as(*v), v.barcodes@, r),
{
    let np = NewProduct {
        sku: v.sku.as_str(),
        name: v.name.as_str(),
        description: opt_as_str(&v.description),
        category_id: input.category_id,
        brand_id: input.brand_id,
        unit_id: input.unit_id,
        purchase_price: input.purchase_price,
        selling_price: input.selling_price,
        tax_id: input.tax_id,
        discount_id: input.discount_id,
        min_stock: input.min_stock,
        image_path: opt_as_str(&input.image_path),
        barcodes: v.barcodes.as_slice(),
    };
    let id = match repo::insert(db, &np) {
        Ok(id) => id,
        Err(e) => {
            return Err(report(e));
        },
    };
    match repo::find_by_id(db, id) {
        Some(row) => Ok(dto(row)),
        None => Err(CatalogError::NotFound("product")),
    }
}

/// The answer to creating a product: see `product_check` and
/// `create_outcome`.
pub open spec fn create_answer(old: &Database, new: &Database, input: ProductInput, r: Result<ProductDto, CatalogError>) -> bool {
    match product_check(input) {
        Err(m) => (r matches Err(CatalogError::Validation(x)) && x@ == m) && old.same_tables(new),
        Ok(v) => exists|codes: Seq<String>|
            texts(codes) == v.3 && #[trigger] create_outcome(old, new, input, v, codes, r),
    }
}

/// Creates a product (see `create_answer`).
pub fn create(db: &mut Database, input: ProductInput) -> (r: Result<ProductDto, CatalogError>)
    requires
        old(db).wf(),
    ensures
        final(db).wf(),
        create_answer(old(db), final(db), input, r),
{
    let v = match validate(&input) {
        Ok(v) => v,
        Err(e) => {
            return Err(e);
        },
    };
    let r = insert_validated(db, &input, &v);
    assert(create_outcome(old(db), db, input, validated_as(v), v.barcodes@, r));
    r
}


/// The answer to updating product `id` with validated values `v` (stored
/// barcodes `codes`). For a live product the SKU must stay unique and the
/// references valid; when barcodes are given the product must exist and
/// they must be unclaimed. Then the live product's columns are set, and its
/// barcodes replaced (those of a deleted product too, which is then not
/// found).
pub open spec fn update_outcome(
    old: &Database,
    new: &Database,
    id: i64,
    input: ProductInput,
    v: (Seq<char>, Seq<char>, Option<Seq<char>>, Seq<Seq<char>>),
    codes: Seq<String>,
    r: Result<ProductDto, CatalogError>,
) -> bool {
    let sku_fail = live(old, id) && sku_taken(old, v.0, id - 1);
    let key_fail = live(old, id) && !sku_taken(old, v.0, id - 1) && !input_keys_valid(old, input);
    let code_fail = !sku_fail && !key_fail && codes.len() > 0 && (!valid_id(id, old.products@.len())
        || barcode_clash(old, id, codes));
    if sku_fail {
        (r matches Err(CatalogError::Conflict(m)) && m@ == sku_message()) && old.same_tables(new)
    } else if key_fail || (code_fail && !valid_id(id, old.products@.len())) {
        (r matches Err(CatalogError::Db(DbError::Constraint(m))) && m@ == "FOREIGN KEY constraint failed"@)
            && old.same_tables(new)
    } else if code_fail {
        (r matches Err(CatalogError::Conflict(m)) && m@ == barcode_message()) && old.same_tables(new)
    } else {
        &&& old.agrees_outside(new, set![Table::Products, Table::Barcodes])
        &&& new.products@.len() == old.products@.len()
        &&& forall|j: int|
            0 <= j < old.products@.len() && j != id - 1 ==> #[trigger] new.products@[j] == old.products@[j]
        &&& barcodes_replaced(old.barcodes@, new.barcodes@, id, codes)
        &&& !live(old, id) ==> new.products@ == old.products@ && (r matches Err(CatalogError::NotFound(w)) && w@
            == "product"@)
        &&& live(old, id) ==> {
            let (a, p) = (old.products@[id - 1], new.products@[id - 1]);
            &&& p.id == id
            &&& holds_input(p, input, v)
            &&& p.current_stock == a.current_stock
            &&& p.is_active == a.is_active
            &&& p.created_at == a.created_at
            &&& p.updated_at == a.updated_at
            &&& !p.deleted
            &&& r matches Ok(d) && exists|row: ProductRow| #[trigger] row_matches(new, row, id - 1) && d == ProductDto::of(row)
        }
    }
}

fn update_validated(db: &mut Database, id: i64, input: &ProductInput, v: &Validated) -> (r: Result<ProductDto, CatalogError>)
    requires
        old(db).wf(),
    ensures
        final(db).wf(),
        update_outcome(old(db), final(db), id, *input, validated_as(*v), v.barcodes@, r),
{
    let np = NewProduct {
        sku: v.sku.as_str(),
        name: v.name.as_str(),
        description: opt_as_str(&v.description),
        category_id: input.category_id,
        brand_id: input.brand_id,
        unit_id: input.unit_id,
        purchase_price: input.purchase_price,
        selling_price: input.selling_price,
        tax_id: input.tax_id,
        discount_id: input.discount_id,
        min_stock: input.min_stock,
        image_path: opt_as_str(&input.image_path),
        barcodes: v.barcodes.as_slice(),
    };
    match repo::update(db, id, &np) {
        Ok(()) => {},
        Err(e) => {
            return Err(report(e));
        },
    }
    proof {
        reveal_strlit("product");
    }
    match repo::find_by_id(db, id) {
        Some(row) => Ok(dto(row)),
        None => Err(CatalogError::NotFound("product")),
    }
}

/// Updates product `id` (see `product_check` and `update_outcome`).
pub fn update(db: &mut Database, id: i64, input: ProductInput) -> (r: Result<ProductDto, CatalogError>)
    requires
        old(db).wf(),
    ensures
        final(db).wf(),
        match product_check(input) {
            Err(m) => (r matches Err(CatalogError::Validation(x)) && x@ == m) && old(db).same_tables(final(db)),
            Ok(v) => exists|codes: Seq<String>|
                texts(codes) == v.3 && #[trigger] update_outcome(old(db), final(db), id, input, v, codes, r),
        },
{
    let v = match validate(&input) {
        Ok(v) => v,
        Err(e) => {
            return Err(e);
        },
    };
    let r = update_validated(db, id, &input, &v);
    assert(update_outcome(old(db), db, id, input, validated_as(v), v.barcodes@, r));
    r
}

/// Turns live product `id` on or off.
pub fn set_active(db: &mut Database, id: i64, is_active: bool) -> (r: Result<(), CatalogError>)
    requires
        old(db).wf(),
    ensures
        final(db).wf(),
        r is Ok,
        old(db).agrees_outside(final(db), set![Table::Products]),
        final(db).products@.len() == old(db).products@.len(),
        forall|j: int|
            0 <= j < old(db).products@.len() ==> {
                let (a, p) = (old(db).products@[j], #[trigger] final(db).products@[j]);
                &&& same_but_flags(a, p)
                &&& p.deleted == a.deleted
                &&& p.is_active == (if j == id - 1 && !a.deleted { is_active } else { a.is_active })
            },
{
    match repo::set_active(db, id, is_active) {
        Ok(()) => Ok(()),
        Err(e) => Err(CatalogError::Db(e)),
    }
}

/// `new` is `old` with product `id` (if any) deleted and deactivated.
pub open spec fn deleted_from(old: &Database, new: &Database, id: i64) -> bool {
    &&& new.products@.len() == old.products@.len()
    &&& forall|j: int|
        0 <= j < old.products@.len() ==> {
            let (a, p) = (old.products@[j], #[trigger] new.products@[j]);
            &&& same_but_flags(a, p)
            &&& p.deleted == (a.deleted || j == id - 1)
            &&& p.is_active == (a.is_active && j != id - 1)
        }
}

/// Soft-deletes (and deactivates) product `id`.
pub fn delete(db: &mut Database, id: i64) -> (r: Result<(), CatalogError>)
    requires
        old(db).wf(),
    ensures
        final(db).wf(),
        r is Ok,
        old(db).agrees_outside(final(db), set![Table::Products]),
        deleted_from(old(db), final(db), id),
{
    match repo::soft_delete(db, id) {
        Ok(()) => Ok(()),
        Err(e) => Err(CatalogError::Db(e)),
    }
}

} // verus!
