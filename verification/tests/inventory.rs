use tijarapos::auth::{bootstrap_admin, AuthenticatedUser};
use tijarapos::catalog::products::{self, ProductInput};
use tijarapos::catalog::units::{self, UnitInput};
use tijarapos::db::Database;
use tijarapos::inventory::error::InventoryError;
use tijarapos::inventory::{adjust_stock, list_movements, low_stock, MovementListQuery, StockAdjustmentInput};

fn product_input(sku: &str, name: &str, unit_id: i64, min_stock: i64) -> ProductInput {
    ProductInput {
        sku: sku.into(),
        name: name.into(),
        description: None,
        category_id: None,
        brand_id: None,
        unit_id,
        purchase_price: 500,
        selling_price: 1000,
        tax_id: None,
        discount_id: None,
        min_stock,
        image_path: None,
        barcodes: vec![],
    }
}

fn seed(db: &mut Database, min_stock: i64) -> (AuthenticatedUser, i64) {
    let user = bootstrap_admin(db, "admin", "supersecret123", "Admin User").unwrap();
    let unit = units::create(db, UnitInput { name: "Piece".into(), abbreviation: "pc".into() }).unwrap();
    let product = products::create(db, product_input("SKU-1", "Widget", unit.id, min_stock)).unwrap();
    (user, product.id)
}

fn adjustment(product_id: i64, quantity_delta: i64, reason: &str) -> StockAdjustmentInput {
    StockAdjustmentInput { product_id, quantity_delta, reason: reason.into(), note: None }
}

#[test]
fn adjust_stock_increases_and_decreases_correctly() {
    let mut db = Database::new();
    let (user, product_id) = seed(&mut db, 0);

    let result = adjust_stock(
        &mut db,
        &user,
        StockAdjustmentInput {
            product_id,
            quantity_delta: 10,
            reason: "adjustment".into(),
            note: Some("Initial count".into()),
        },
    )
    .unwrap();
    assert_eq!(result.current_stock, 10);

    let result = adjust_stock(&mut db, &user, adjustment(product_id, -3, "damage")).unwrap();
    assert_eq!(result.current_stock, 7);
    assert_eq!(result.previous_stock, 10);

    let product = products::get(&db, product_id).unwrap();
    assert_eq!(product.current_stock, 7);
}

#[test]
fn adjust_stock_rejects_a_delta_that_would_go_negative() {
    let mut db = Database::new();
    let (user, product_id) = seed(&mut db, 0);

    let result = adjust_stock(&mut db, &user, adjustment(product_id, -1, "damage"));

    assert!(matches!(result, Err(InventoryError::WouldGoNegative { .. })));
    let product = products::get(&db, product_id).unwrap();
    assert_eq!(product.current_stock, 0, "stock must be untouched on failure");
    assert!(list_movements(&db, MovementListQuery::default()).unwrap().is_empty());
}

#[test]
fn adjust_stock_rejects_an_unknown_reason() {
    let mut db = Database::new();
    let (user, product_id) = seed(&mut db, 0);

    let result = adjust_stock(&mut db, &user, adjustment(product_id, 5, "sale"));

    assert!(matches!(result, Err(InventoryError::Validation(_))));
}

#[test]
fn adjust_stock_rejects_a_zero_delta_and_an_unknown_product() {
    let mut db = Database::new();
    let (user, product_id) = seed(&mut db, 0);

    let zero = adjust_stock(&mut db, &user, adjustment(product_id, 0, "adjustment"));
    let unknown = adjust_stock(&mut db, &user, adjustment(42, 5, "adjustment"));

    assert!(matches!(zero, Err(InventoryError::Validation(_))));
    assert!(matches!(unknown, Err(InventoryError::ProductNotFound)));
}

#[test]
fn low_stock_returns_only_products_at_or_below_their_minimum() {
    let mut db = Database::new();
    let (user, low_product) = seed(&mut db, 5);
    adjust_stock(&mut db, &user, adjustment(low_product, 3, "adjustment")).unwrap();

    let unit = units::create(&mut db, UnitInput { name: "Box".into(), abbreviation: "bx".into() }).unwrap();
    let well_stocked = products::create(&mut db, product_input("SKU-2", "Gadget", unit.id, 5)).unwrap();
    adjust_stock(&mut db, &user, adjustment(well_stocked.id, 50, "adjustment")).unwrap();

    let low = low_stock(&db).unwrap();
    assert_eq!(low.len(), 1);
    assert_eq!(low[0].id, low_product);
    assert_eq!(low[0].current_stock, 3);
    assert_eq!(low[0].min_stock, 5);
}

#[test]
fn list_movements_can_be_scoped_to_one_product() {
    let mut db = Database::new();
    let (user, product_id) = seed(&mut db, 0);
    adjust_stock(&mut db, &user, adjustment(product_id, 10, "adjustment")).unwrap();

    let movements = list_movements(&db, MovementListQuery { product_id: Some(product_id) }).unwrap();
    assert_eq!(movements.len(), 1);
    assert_eq!(movements[0].quantity_delta, 10);
    assert_eq!(movements[0].reason, "adjustment");

    let other = list_movements(&db, MovementListQuery { product_id: Some(product_id + 1) }).unwrap();
    assert!(other.is_empty());
}

#[test]
fn movements_record_who_made_them_and_the_product_name() {
    let mut db = Database::new();
    let (user, product_id) = seed(&mut db, 0);
    adjust_stock(&mut db, &user, adjustment(product_id, 4, "return")).unwrap();

    let movements = list_movements(&db, MovementListQuery::default()).unwrap();
    assert_eq!(movements.len(), 1);
    assert_eq!(movements[0].product_name, "Widget");
    assert_eq!(movements[0].user_name.as_deref(), Some("Admin User"));
    assert_eq!(movements[0].product_id, product_id);
}

#[test]
fn an_adjustment_is_undone_by_its_negation() {
    let mut db = Database::new();
    let (user, product_id) = seed(&mut db, 0);
    adjust_stock(&mut db, &user, adjustment(product_id, 6, "adjustment")).unwrap();

    let first = adjust_stock(&mut db, &user, adjustment(product_id, -4, "damage")).unwrap();
    let undo = adjust_stock(&mut db, &user, adjustment(product_id, 4, "return")).unwrap();

    assert_eq!(undo.previous_stock, first.current_stock);
    assert_eq!(undo.current_stock, first.previous_stock);
    assert_eq!(products::get(&db, product_id).unwrap().current_stock, 6);
}
