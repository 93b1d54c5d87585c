use tijarapos::auth::{bootstrap_admin, require_permission_for, AuthError, AuthState, AuthenticatedUser};
use tijarapos::catalog::brands::{self, BrandInput};
use tijarapos::catalog::categories::{self, CategoryInput};
use tijarapos::catalog::discounts::{self, DiscountInput};
use tijarapos::catalog::error::friendly_conflict;
use tijarapos::catalog::products::{self, ProductInput, ProductListQuery};
use tijarapos::catalog::taxes::{self, TaxInput};
use tijarapos::catalog::units::{self, UnitInput};
use tijarapos::catalog::{bounded, CatalogError};
use tijarapos::db::repositories::{rbac, users};
use tijarapos::db::{Database, DbError};

fn seed_unit(db: &mut Database) -> i64 {
    units::create(db, UnitInput { name: "Piece".into(), abbreviation: "pc".into() }).unwrap().id
}

fn sample_input(sku: &str, unit_id: i64, barcodes: Vec<String>) -> ProductInput {
    ProductInput {
        sku: sku.to_string(),
        name: "Test product".to_string(),
        description: Some("  a description  ".to_string()),
        category_id: None,
        brand_id: None,
        unit_id,
        purchase_price: 100,
        selling_price: 200,
        tax_id: None,
        discount_id: None,
        min_stock: 5,
        image_path: None,
        barcodes,
    }
}

#[test]
fn a_cashier_cannot_create_a_product_but_can_view_and_sell() {
    let mut db = Database::new();
    bootstrap_admin(&mut db, "admin", "supersecret123", "Admin User").unwrap();

    let cashier_id = users::insert(&mut db, "cashier1", "unused-hash", "Cashier One").unwrap();
    let cashier_role_id = rbac::role_id_by_name(&db, "cashier").unwrap();
    rbac::assign_role(&mut db, cashier_id, cashier_role_id).unwrap();
    let permissions = rbac::permissions_for_user(&db, cashier_id);

    let cashier = AuthenticatedUser {
        id: cashier_id,
        username: "cashier1".into(),
        full_name: "Cashier One".into(),
        permissions,
    };
    let state = AuthState(Some(cashier));

    assert!(require_permission_for(&state, "products.view").is_ok());
    assert!(require_permission_for(&state, "sales.create").is_ok());
    assert!(matches!(require_permission_for(&state, "products.create"), Err(AuthError::Forbidden)));
}

#[test]
fn an_unauthenticated_state_is_rejected_before_the_permission_check() {
    let state = AuthState::default();

    assert!(matches!(require_permission_for(&state, "products.view"), Err(AuthError::NotAuthenticated)));
}

#[test]
fn rejects_a_duplicate_brand_name() {
    let mut db = Database::new();
    brands::create(&mut db, BrandInput { name: "Acme".into() }).unwrap();

    let result = brands::create(&mut db, BrandInput { name: "Acme".into() });

    assert!(matches!(result, Err(CatalogError::Conflict(_))));
}

#[test]
fn a_brand_name_is_trimmed_and_must_not_be_blank() {
    let mut db = Database::new();

    let created = brands::create(&mut db, BrandInput { name: "  Acme  ".into() }).unwrap();
    let blank = brands::create(&mut db, BrandInput { name: "   ".into() });

    assert_eq!(created.name, "Acme");
    assert!(matches!(blank, Err(CatalogError::Validation(_))));
    assert_eq!(brands::list(&db).unwrap().len(), 1);
}

#[test]
fn a_deleted_brand_leaves_the_list() {
    let mut db = Database::new();
    let acme = brands::create(&mut db, BrandInput { name: "Acme".into() }).unwrap();

    brands::delete(&mut db, acme.id).unwrap();

    assert!(brands::list(&db).unwrap().is_empty());
    assert!(brands::delete(&mut db, 99).is_ok());
}

#[test]
fn creates_updates_and_soft_deletes_a_category() {
    let mut db = Database::new();

    let created = categories::create(&mut db, CategoryInput { name: "  Beverages  ".into(), parent_id: None }).unwrap();
    assert_eq!(created.name, "Beverages");

    let updated =
        categories::update(&mut db, created.id, CategoryInput { name: "Drinks".into(), parent_id: None }).unwrap();
    assert_eq!(updated.name, "Drinks");

    categories::delete(&mut db, created.id).unwrap();
    assert!(categories::list(&db).unwrap().iter().all(|c| c.id != created.id));
}

#[test]
fn rejects_a_category_being_its_own_parent() {
    let mut db = Database::new();
    let created = categories::create(&mut db, CategoryInput { name: "Snacks".into(), parent_id: None }).unwrap();

    let result =
        categories::update(&mut db, created.id, CategoryInput { name: "Snacks".into(), parent_id: Some(created.id) });

    assert!(matches!(result, Err(CatalogError::Validation(_))));
}

#[test]
fn rejects_a_duplicate_abbreviation() {
    let mut db = Database::new();
    units::create(&mut db, UnitInput { name: "Piece".into(), abbreviation: "pc".into() }).unwrap();

    let result = units::create(&mut db, UnitInput { name: "Pack".into(), abbreviation: "pc".into() });

    assert!(matches!(result, Err(CatalogError::Conflict(_))));
}

#[test]
fn a_tax_rate_must_lie_between_zero_and_one() {
    let mut db = Database::new();

    let vat = taxes::create(&mut db, TaxInput { name: "VAT".into(), rate_bits: 0.15f64.to_bits() }).unwrap();
    let too_high = taxes::create(&mut db, TaxInput { name: "Odd".into(), rate_bits: 1.5f64.to_bits() });
    let negative = taxes::create(&mut db, TaxInput { name: "Neg".into(), rate_bits: (-0.1f64).to_bits() });
    let not_a_number = taxes::create(&mut db, TaxInput { name: "NaN".into(), rate_bits: f64::NAN.to_bits() });

    assert_eq!(f64::from_bits(vat.rate_bits), 0.15);
    assert!(vat.is_active);
    assert!(matches!(too_high, Err(CatalogError::Validation(_))));
    assert!(matches!(negative, Err(CatalogError::Validation(_))));
    assert!(matches!(not_a_number, Err(CatalogError::Validation(_))));
}

#[test]
fn a_discount_has_a_known_kind_and_a_sensible_value() {
    let mut db = Database::new();

    let promo =
        discounts::create(&mut db, DiscountInput { name: "Promo".into(), kind: "percent".into(), value: 10 }).unwrap();
    let bad_kind = discounts::create(&mut db, DiscountInput { name: "X".into(), kind: "bogus".into(), value: 10 });
    let too_much = discounts::create(&mut db, DiscountInput { name: "Y".into(), kind: "percent".into(), value: 101 });
    let negative = discounts::create(&mut db, DiscountInput { name: "Z".into(), kind: "fixed".into(), value: -1 });

    assert_eq!(promo.kind, "percent");
    assert_eq!(promo.value, 10);
    assert!(matches!(bad_kind, Err(CatalogError::Validation(_))));
    assert!(matches!(too_much, Err(CatalogError::Validation(_))));
    assert!(matches!(negative, Err(CatalogError::Validation(_))));

    discounts::set_active(&mut db, promo.id, false).unwrap();
    assert!(!discounts::list(&db).unwrap()[0].is_active);
}

#[test]
fn creates_a_product_with_barcodes_and_trims_description() {
    let mut db = Database::new();
    let unit_id = seed_unit(&mut db);

    let product = products::create(&mut db, sample_input("SKU-1", unit_id, vec!["111".into(), "222".into()])).unwrap();

    assert_eq!(product.sku, "SKU-1");
    assert_eq!(product.description.as_deref(), Some("a description"));
    assert_eq!(product.current_stock, 0);
    assert_eq!(product.barcodes, vec!["111".to_string(), "222".to_string()]);
    assert_eq!(product.unit_name, "Piece");
    assert_eq!(product.unit_abbreviation, "pc");
}

#[test]
fn rejects_duplicate_sku_with_a_friendly_conflict() {
    let mut db = Database::new();
    let unit_id = seed_unit(&mut db);
    products::create(&mut db, sample_input("SKU-1", unit_id, vec![])).unwrap();

    let result = products::create(&mut db, sample_input("SKU-1", unit_id, vec![]));

    assert!(matches!(result, Err(CatalogError::Conflict(_))));
}

#[test]
fn rejects_a_barcode_already_used_by_another_product() {
    let mut db = Database::new();
    let unit_id = seed_unit(&mut db);
    products::create(&mut db, sample_input("SKU-1", unit_id, vec!["999".into()])).unwrap();

    let result = products::create(&mut db, sample_input("SKU-2", unit_id, vec!["999".into()]));

    assert!(matches!(result, Err(CatalogError::Conflict(_))));
}

#[test]
fn update_replaces_the_barcode_set() {
    let mut db = Database::new();
    let unit_id = seed_unit(&mut db);
    let product = products::create(&mut db, sample_input("SKU-1", unit_id, vec!["111".into()])).unwrap();

    let mut input = sample_input("SKU-1", unit_id, vec!["222".into(), "333".into()]);
    input.name = "Renamed".into();
    let updated = products::update(&mut db, product.id, input).unwrap();

    assert_eq!(updated.name, "Renamed");
    assert_eq!(updated.barcodes, vec!["222".to_string(), "333".to_string()]);
    assert!(products::get_by_barcode(&db, "111").unwrap().is_none());
}

#[test]
fn find_by_barcode_locates_the_owning_product() {
    let mut db = Database::new();
    let unit_id = seed_unit(&mut db);
    let product = products::create(&mut db, sample_input("SKU-1", unit_id, vec!["555".into()])).unwrap();

    let found = products::get_by_barcode(&db, "555").unwrap();

    assert_eq!(found.map(|p| p.id), Some(product.id));
}

#[test]
fn soft_deleted_products_are_excluded_from_list_and_lookup() {
    let mut db = Database::new();
    let unit_id = seed_unit(&mut db);
    let product = products::create(&mut db, sample_input("SKU-1", unit_id, vec![])).unwrap();

    products::delete(&mut db, product.id).unwrap();

    assert!(products::get(&db, product.id).is_err());
    assert!(products::list(&db, ProductListQuery::default()).unwrap().is_empty());
}

#[test]
fn rejects_negative_prices() {
    let mut db = Database::new();
    let unit_id = seed_unit(&mut db);

    let mut input = sample_input("SKU-1", unit_id, vec![]);
    input.selling_price = -1;
    let result = products::create(&mut db, input);

    assert!(matches!(result, Err(CatalogError::Validation(_))));
}

#[test]
fn search_filters_by_name_or_sku() {
    let mut db = Database::new();
    let unit_id = seed_unit(&mut db);
    products::create(&mut db, sample_input("APPLE-1", unit_id, vec![])).unwrap();
    let mut other = sample_input("BANANA-1", unit_id, vec![]);
    other.name = "Banana".into();
    products::create(&mut db, other).unwrap();

    let results =
        products::list(&db, ProductListQuery { search: Some("banana".into()), ..Default::default() }).unwrap();

    assert_eq!(results.len(), 1);
    assert_eq!(results[0].name, "Banana");

    let by_sku = products::list(&db, ProductListQuery { search: Some("apple".into()), ..Default::default() }).unwrap();
    assert_eq!(by_sku.len(), 1);
    assert_eq!(by_sku[0].sku, "APPLE-1");
}

#[test]
fn inactive_products_are_listed_only_on_request() {
    let mut db = Database::new();
    let unit_id = seed_unit(&mut db);
    let product = products::create(&mut db, sample_input("SKU-1", unit_id, vec![])).unwrap();

    products::set_active(&mut db, product.id, false).unwrap();

    assert!(products::list(&db, ProductListQuery::default()).unwrap().is_empty());
    let all = products::list(&db, ProductListQuery { include_inactive: true, ..Default::default() }).unwrap();
    assert_eq!(all.len(), 1);
    assert!(!all[0].is_active);
}

#[test]
fn a_product_needs_an_existing_unit() {
    let mut db = Database::new();

    let result = products::create(&mut db, sample_input("SKU-1", 7, vec![]));

    assert!(result.is_err());
    assert!(products::list(&db, ProductListQuery { include_inactive: true, ..Default::default() }).unwrap().is_empty());
}

#[test]
fn bounded_trims_and_limits_the_length() {
    assert_eq!(bounded("  Acme  ", 10), Some("Acme".to_string()));
    assert_eq!(bounded("   ", 10), None);
    assert_eq!(bounded("abcdef", 5), None);
    assert_eq!(bounded("abcde", 5), Some("abcde".to_string()));
}

#[test]
fn friendly_conflict_names_the_broken_rule() {
    let mapping: &[(&str, &str)] = &[("brands.name", "A brand with this name already exists")];

    let known = friendly_conflict(DbError::Constraint("UNIQUE constraint failed: brands.name".into()), mapping);
    let other = friendly_conflict(DbError::Constraint("CHECK constraint failed".into()), mapping);
    let full = friendly_conflict(DbError::Full, mapping);

    assert!(matches!(known, CatalogError::Conflict(m) if m == "A brand with this name already exists"));
    assert!(matches!(other, CatalogError::Db(DbError::Constraint(m)) if m == "CHECK constraint failed"));
    assert!(matches!(full, CatalogError::Db(DbError::Full)));
}

#[test]
fn deleting_a_product_twice_changes_nothing_more() {
    let mut db = Database::new();
    let unit_id = seed_unit(&mut db);
    let product = products::create(&mut db, sample_input("SKU-1", unit_id, vec!["777".into()])).unwrap();

    products::delete(&mut db, product.id).unwrap();
    assert!(products::delete(&mut db, product.id).is_ok());
    assert!(products::delete(&mut db, 999).is_ok());

    assert!(matches!(products::get(&db, product.id), Err(CatalogError::NotFound(_))));
    assert!(products::get_by_barcode(&db, "777").unwrap().is_none());
    let all = products::list(&db, ProductListQuery { include_inactive: true, ..Default::default() }).unwrap();
    assert!(all.is_empty());
}
