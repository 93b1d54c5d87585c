//! What the catalog promises across calls.

use vstd::prelude::*;

use crate::catalog::brands::{self, BrandDto, BrandInput};
use crate::catalog::products::{self, deleted_from, product_check, search_pattern, ProductDto, ProductInput, ProductListQuery};
use crate::catalog::units::{self, UnitDto, UnitInput};
use crate::catalog::{bounded_text, CatalogError};
use crate::db::repositories::brands::name_taken;
use crate::db::repositories::products::{live, lists_products, listed, ProductFilter, ProductRow};
use crate::db::repositories::units::abbreviation_taken;
use crate::db::repositories::stock_movements::opt_text;
use crate::db::Database;
use crate::order::enumerates_sorted;
use crate::text::{ascii_fold, lemma_like_contains, trim};

verus! {

/// Once a brand is created, creating another with the same trimmed name is
/// refused as a conflict and writes nothing.
pub proof fn law_brand_name_is_unique(
    db0: &Database,
    db1: &Database,
    db2: &Database,
    in1: BrandInput,
    in2: BrandInput,
    r1: Result<BrandDto, CatalogError>,
    r2: Result<BrandDto, CatalogError>,
)
    requires
        brands::create_answer(db0, db1, in1, r1),
        r1 is Ok,
        bounded_text(in2.name@, 100) == bounded_text(in1.name@, 100),
        brands::create_answer(db1, db2, in2, r2),
    ensures
        r2 matches Err(CatalogError::Conflict(m)) && m@ == brands::conflict_message(),
        db1.same_tables(db2),
{
    let name = bounded_text(in1.name@, 100)->0;
    let j = db1.brands@.len() - 1;
    assert(db1.brands@[j].name@ == name);
    assert(name_taken(db1, name, -1));
}

/// Once a unit is created, creating another with the same trimmed
/// abbreviation is refused as a conflict and writes nothing.
pub proof fn law_unit_abbreviation_is_unique(
    db0: &Database,
    db1: &Database,
    db2: &Database,
    in1: UnitInput,
    in2: UnitInput,
    r1: Result<UnitDto, CatalogError>,
    r2: Result<UnitDto, CatalogError>,
)
    requires
        units::create_answer(db0, db1, in1, r1),
        r1 is Ok,
        units::unit_check(in2) is Ok,
        bounded_text(in2.abbreviation@, 10) == bounded_text(in1.abbreviation@, 10),
        units::create_answer(db1, db2, in2, r2),
    ensures
        r2 matches Err(CatalogError::Conflict(m)) && m@ == units::conflict_message(),
        db1.same_tables(db2),
{
    let abbreviation = bounded_text(in1.abbreviation@, 10)->0;
    let j = db1.units@.len() - 1;
    assert(db1.units@[j].abbreviation@ == abbreviation);
    assert(abbreviation_taken(db1, abbreviation, -1));
}

/// Once a product is created, creating another (valid) one with the same
/// trimmed SKU is refused as a conflict and writes nothing.
pub proof fn law_product_sku_is_unique(
    db0: &Database,
    db1: &Database,
    db2: &Database,
    in1: ProductInput,
    in2: ProductInput,
    r1: Result<ProductDto, CatalogError>,
    r2: Result<ProductDto, CatalogError>,
)
    requires
        products::create_answer(db0, db1, in1, r1),
        r1 is Ok,
        product_check(in2) is Ok,
        bounded_text(in2.sku@, 64) == bounded_text(in1.sku@, 64),
        products::create_answer(db1, db2, in2, r2),
    ensures
        r2 matches Err(CatalogError::Conflict(m)) && m@ == products::sku_message(),
        db1.same_tables(db2),
{
    let v1 = product_check(in1)->Ok_0;
    let v2 = product_check(in2)->Ok_0;
    let c1 = choose|codes: Seq<String>|
        crate::text::texts(codes) == v1.3 && #[trigger] products::create_outcome(db0, db1, in1, v1, codes, r1);
    assert(products::create_outcome(db0, db1, in1, v1, c1, r1));
    let j = db1.products@.len() - 1;
    assert(db1.products@[j] == db1.products@.last());
    assert(db1.products@[j].sku@ == v2.0);
    assert(crate::db::repositories::products::sku_taken(db1, v2.0, -1));
    let c2 = choose|codes: Seq<String>|
        crate::text::texts(codes) == v2.3 && #[trigger] products::create_outcome(db1, db2, in2, v2, codes, r2);
    assert(products::create_outcome(db1, db2, in2, v2, c2, r2));
}

/// A deleted product is no longer found: not by id, and in no listing.
pub proof fn law_deleted_product_is_hidden(db0: &Database, db1: &Database, id: i64)
    requires
        db0.wf(),
        deleted_from(db0, db1, id),
        1 <= id <= db0.products@.len(),
    ensures
        !live(db1, id),
        forall|j: int|
            0 <= j < db1.barcodes@.len() && #[trigger] db1.barcodes@[j].product_id == id ==> !live(
                db1,
                db1.barcodes@[j].product_id,
            ),
        forall|f: ProductFilter, rows: Seq<ProductRow>|
            #[trigger] lists_products(db1, &f, rows) ==> forall|k: int| 0 <= k < rows.len() ==> #[trigger] rows[k].id != id,
{
    assert(db1.products@[id - 1].deleted);
    assert forall|f: ProductFilter, rows: Seq<ProductRow>| #[trigger] lists_products(db1, &f, rows) implies forall|k: int|
        0 <= k < rows.len() ==> #[trigger] rows[k].id != id by {
        let pos = choose|pos: Seq<int>|
            {
                &&& #[trigger] enumerates_sorted(
                    pos,
                    db1.products@.len() as int,
                    listed(db1, &f),
                    crate::db::repositories::products::product_name(db1),
                )
                &&& rows.len() == pos.len()
                &&& forall|k: int| 0 <= k < pos.len() ==> crate::db::repositories::products::row_matches(db1, rows[k], pos[k])
            };
        assert forall|k: int| 0 <= k < rows.len() implies #[trigger] rows[k].id != id by {
            assert(crate::db::repositories::products::row_matches(db1, rows[k], pos[k]));
            assert(listed(db1, &f)(pos[k]));
            assert(!db1.products@[pos[k]].deleted);
            assert(db1.products@[pos[k]].id == db0.products@[pos[k]].id);
        }
    }
}

/// Deleting a product that is already deleted changes no product.
pub proof fn law_second_delete_changes_nothing(db0: &Database, db1: &Database, db2: &Database, id: i64)
    requires
        deleted_from(db0, db1, id),
        deleted_from(db1, db2, id),
    ensures
        db2.products@ == db1.products@,
{
    assert forall|j: int| 0 <= j < db1.products@.len() implies #[trigger] db2.products@[j] == db1.products@[j] by {
        if j == id - 1 {
            assert(db1.products@[j].deleted && !db1.products@[j].is_active);
        }
    }
    assert(db2.products@ =~= db1.products@);
}

/// `a` and `b` are the same character, or the same ASCII letter in
/// different case.
pub open spec fn same_letter(a: char, b: char) -> bool {
    ||| a == b
    ||| 'A' <= a <= 'Z' && b as u32 == a as u32 + 32
    ||| 'A' <= b <= 'Z' && a as u32 == b as u32 + 32
}

/// `t` occurs in `s` from position `i` on, ASCII letters compared without
/// regard to case.
pub open spec fn occurs_at(t: Seq<char>, s: Seq<char>, i: int) -> bool {
    &&& 0 <= i
    &&& i + t.len() <= s.len()
    &&& forall|k: int| 0 <= k < t.len() ==> same_letter(#[trigger] s[i + k], t[k])
}

proof fn lemma_same_letter_folds(a: char, b: char)
    requires
        same_letter(a, b),
    ensures
        ascii_fold(a) == ascii_fold(b),
{
    if a != b {
        if 'A' <= a <= 'Z' && b as u32 == a as u32 + 32 {
            assert(((a as u32) + 32) as char == b);
        } else {
            assert(((b as u32) + 32) as char == a);
        }
    }
}

/// A product search finds its text anywhere: listing the products with a
/// search text, a product that is not deleted, is active (or inactive ones
/// are asked for), is in the asked-for category (if any), and whose name or
/// SKU holds the trimmed search text at any position, ASCII case aside, is
/// among the results.
pub proof fn law_search_finds_the_text_anywhere(
    db: &Database,
    query: ProductListQuery,
    f: ProductFilter,
    rows: Seq<ProductRow>,
    v: Seq<ProductDto>,
    j: int,
    i: int,
)
    requires
        db.wf(),
        opt_text(f.search) == search_pattern(query),
        f.category_id == query.category_id,
        f.include_inactive == query.include_inactive,
        lists_products(db, &f, rows),
        v == rows.map_values(|row: ProductRow| ProductDto::of(row)),
        query.search is Some,
        0 <= j < db.products@.len(),
        !db.products@[j].deleted,
        query.include_inactive || db.products@[j].is_active,
        query.category_id matches Some(c) ==> db.products@[j].category_id == Some(c),
        occurs_at(trim(query.search->Some_0@), db.products@[j].name@, i) || occurs_at(
            trim(query.search->Some_0@),
            db.products@[j].sku@,
            i,
        ),
    ensures
        exists|k: int| 0 <= k < v.len() && #[trigger] v[k].id == db.products@[j].id,
{
    let t = trim(query.search->Some_0@);
    let p = db.products@[j];
    if t.len() > 0 {
        reveal_strlit("%");
        assert(search_pattern(query) == Some("%"@ + t + "%"@));
        assert("%"@ =~= seq!['%']);
        let pat = f.search->Some_0@;
        assert(pat == seq!['%'] + t + seq!['%']);
        if occurs_at(t, p.name@, i) {
            assert forall|k: int| 0 <= k < t.len() implies ascii_fold(#[trigger] t[k]) == ascii_fold(p.name@[i + k]) by {
                lemma_same_letter_folds(p.name@[i + k], t[k]);
            }
            lemma_like_contains(t, p.name@, i);
        } else {
            assert forall|k: int| 0 <= k < t.len() implies ascii_fold(#[trigger] t[k]) == ascii_fold(p.sku@[i + k]) by {
                lemma_same_letter_folds(p.sku@[i + k], t[k]);
            }
            lemma_like_contains(t, p.sku@, i);
        }
    }
    assert(listed(db, &f)(j));
    let pos = choose|pos: Seq<int>|
        {
            &&& #[trigger] enumerates_sorted(
                pos,
                db.products@.len() as int,
                listed(db, &f),
                crate::db::repositories::products::product_name(db),
            )
            &&& rows.len() == pos.len()
            &&& forall|k: int| 0 <= k < pos.len() ==> crate::db::repositories::products::row_matches(db, rows[k], pos[k])
        };
    assert(pos.contains(j));
    let k = choose|k: int| 0 <= k < pos.len() && pos[k] == j;
    assert(crate::db::repositories::products::row_matches(db, rows[k], pos[k]));
    assert(v[k].id == rows[k].id);
}

} // verus!
