use tijarapos::auth::{bootstrap_admin, AuthenticatedUser};
use tijarapos::catalog::discounts::{self, DiscountInput};
use tijarapos::catalog::products::{self, ProductInput};
use tijarapos::catalog::taxes::{self, TaxInput};
use tijarapos::catalog::units::{self, UnitInput};
use tijarapos::db::Database;
use tijarapos::inventory::{adjust_stock, StockAdjustmentInput};
use tijarapos::sales::cancel::cancel;
use tijarapos::sales::checkout::{checkout, checkout_with_id};
use tijarapos::sales::error::SalesError;
use tijarapos::sales::pricing::{discount_bases, tax_bases, LineQuote};
use tijarapos::sales::{get, list, CartLineInput, CheckoutInput, PaymentInput, SaleListQuery};

/// The amounts quoted for each line, computed in floating point as the
/// desktop does: the percent discount (subtotal × percent / 100) and the tax
/// (taxable amount × rate), each rounded half away from zero.
fn quotes_for(db: &Database, items: &Vec<CartLineInput>) -> Vec<LineQuote> {
    let discounts: Vec<i64> = discount_bases(db, items)
        .iter()
        .map(|b| match b {
            Some(b) => ((b.subtotal as f64) * (b.percent as f64) / 100.0).round() as i64,
            None => 0,
        })
        .collect();
    tax_bases(db, items, &discounts)
        .iter()
        .zip(discounts.iter())
        .map(|(b, d)| LineQuote {
            discount: *d,
            tax: match b {
                Some(b) => ((b.taxable as f64) * f64::from_bits(b.rate_bits)).round() as i64,
                None => 0,
            },
        })
        .collect()
}

fn run_checkout(
    db: &mut Database,
    user: &AuthenticatedUser,
    input: CheckoutInput,
) -> Result<tijarapos::sales::CheckoutResult, SalesError> {
    let quotes = quotes_for(db, &input.items);
    checkout(db, user, input, &quotes)
}

/// A product priced at 10.00 with a 10% tax and a 10% discount, `stock`
/// units on hand, and the admin user to check out as.
fn seed(db: &mut Database, stock: i64) -> (AuthenticatedUser, i64) {
    let user = bootstrap_admin(db, "admin", "supersecret123", "Admin User").unwrap();
    let unit = units::create(db, UnitInput { name: "Piece".into(), abbreviation: "pc".into() }).unwrap();
    let tax = taxes::create(db, TaxInput { name: "VAT".into(), rate_bits: 0.10f64.to_bits() }).unwrap();
    let discount =
        discounts::create(db, DiscountInput { name: "Promo".into(), kind: "percent".into(), value: 10 }).unwrap();
    let product = products::create(
        db,
        ProductInput {
            sku: "SKU-1".into(),
            name: "Widget".into(),
            description: None,
            category_id: None,
            brand_id: None,
            unit_id: unit.id,
            purchase_price: 500,
            selling_price: 1000,
            tax_id: Some(tax.id),
            discount_id: Some(discount.id),
            min_stock: 0,
            image_path: None,
            barcodes: vec![],
        },
    )
    .unwrap();
    if stock > 0 {
        adjust_stock(
            db,
            &user,
            StockAdjustmentInput { product_id: product.id, quantity_delta: stock, reason: "adjustment".into(), note: None },
        )
        .unwrap();
    }
    (user, product.id)
}

fn cart(product_id: i64, quantity: i64) -> CheckoutInput {
    CheckoutInput {
        customer_id: None,
        items: vec![CartLineInput { product_id, quantity, discount_override: None }],
        payments: vec![PaymentInput { method: "cash".into(), amount: 2000 }],
        idempotency_key: None,
    }
}

#[test]
fn checkout_computes_tax_and_discount_and_deducts_stock() {
    let mut db = Database::new();
    let (user, product_id) = seed(&mut db, 10);

    let result = run_checkout(&mut db, &user, cart(product_id, 2)).unwrap();

    // subtotal 2000, discount 10% = 200, taxable 1800, tax 10% = 180
    assert_eq!(result.sale.subtotal, 2000);
    assert_eq!(result.sale.discount_total, 200);
    assert_eq!(result.sale.tax_total, 180);
    assert_eq!(result.sale.total, 1980);
    assert_eq!(result.change, 20);
    assert_eq!(result.sale.items.len(), 1);
    assert_eq!(result.sale.items[0].line_total, 1980);

    let product = products::get(&db, product_id).unwrap();
    assert_eq!(product.current_stock, 8);
}

#[test]
fn checkout_rejects_insufficient_stock_with_no_partial_writes() {
    let mut db = Database::new();
    let (user, product_id) = seed(&mut db, 1);

    let result = run_checkout(&mut db, &user, cart(product_id, 5));

    assert!(matches!(result, Err(SalesError::InsufficientStock { .. })));
    let product = products::get(&db, product_id).unwrap();
    assert_eq!(product.current_stock, 1, "stock must be untouched on failure");
    assert!(list(&db, SaleListQuery::default()).unwrap().is_empty());
}

#[test]
fn checkout_rejects_when_payments_dont_cover_the_total() {
    let mut db = Database::new();
    let (user, product_id) = seed(&mut db, 10);

    let mut input = cart(product_id, 2);
    input.payments = vec![PaymentInput { method: "cash".into(), amount: 100 }];
    let result = run_checkout(&mut db, &user, input);

    assert!(matches!(result, Err(SalesError::Validation(_))));
    let product = products::get(&db, product_id).unwrap();
    assert_eq!(product.current_stock, 10);
}

#[test]
fn checkout_supports_mixed_payments() {
    let mut db = Database::new();
    let (user, product_id) = seed(&mut db, 10);

    let mut input = cart(product_id, 2);
    input.payments = vec![
        PaymentInput { method: "card".into(), amount: 1000 },
        PaymentInput { method: "cash".into(), amount: 1000 },
    ];
    let result = run_checkout(&mut db, &user, input).unwrap();

    assert_eq!(result.sale.payments.len(), 2);
    assert_eq!(result.change, 20);
}

#[test]
fn checkout_is_idempotent() {
    let mut db = Database::new();
    let (user, product_id) = seed(&mut db, 10);

    let mut input = cart(product_id, 2);
    input.idempotency_key = Some("DEVICE1-SALE-20260101-0001".into());
    let first = run_checkout(&mut db, &user, input).unwrap();

    let mut retry = cart(product_id, 2);
    retry.idempotency_key = Some("DEVICE1-SALE-20260101-0001".into());
    let second = run_checkout(&mut db, &user, retry).unwrap();

    assert_eq!(first.sale.id, second.sale.id);
    assert_eq!(list(&db, SaleListQuery::default()).unwrap().len(), 1);
    let product = products::get(&db, product_id).unwrap();
    assert_eq!(product.current_stock, 8, "stock must only be deducted once");
}

#[test]
fn cancel_reverses_stock_and_sets_status() {
    let mut db = Database::new();
    let (user, product_id) = seed(&mut db, 10);

    let result = run_checkout(&mut db, &user, cart(product_id, 2)).unwrap();
    let cancelled = cancel(&mut db, &result.sale.id, &user).unwrap();

    assert_eq!(cancelled.status, "cancelled");
    let product = products::get(&db, product_id).unwrap();
    assert_eq!(product.current_stock, 10, "stock should be fully restored");

    let again = cancel(&mut db, &result.sale.id, &user);
    assert!(matches!(again, Err(SalesError::InvalidStatusTransition(_))));
}

#[test]
fn a_new_sale_gets_a_version_4_uuid() {
    let mut db = Database::new();
    let (user, product_id) = seed(&mut db, 10);

    let result = run_checkout(&mut db, &user, cart(product_id, 1)).unwrap();

    let id: Vec<char> = result.sale.id.chars().collect();
    assert_eq!(id.len(), 36);
    assert_eq!(id[8], '-');
    assert_eq!(id[13], '-');
    assert_eq!(id[14], '4');
    assert_eq!(id[18], '-');
    assert_eq!(id[23], '-');
    assert!(matches!(id[19], '8' | '9' | 'a' | 'b'));
}

#[test]
fn invoice_numbers_count_the_sales_of_the_day() {
    let mut db = Database::new();
    let (user, product_id) = seed(&mut db, 10);

    let first = run_checkout(&mut db, &user, cart(product_id, 1)).unwrap();
    let second = run_checkout(&mut db, &user, cart(product_id, 1)).unwrap();

    assert_eq!(first.sale.invoice_number, "INV-19700101-0001");
    assert_eq!(second.sale.invoice_number, "INV-19700101-0002");
    assert_eq!(first.sale.status, "completed");
    assert_eq!(first.sale.cashier_name, "Admin User");
}

#[test]
fn a_manual_discount_replaces_the_products_own() {
    let mut db = Database::new();
    let (user, product_id) = seed(&mut db, 10);

    let mut input = cart(product_id, 2);
    input.items[0].discount_override = Some(500);
    let result = run_checkout(&mut db, &user, input).unwrap();

    // subtotal 2000, manual discount 500, taxable 1500, tax 10% = 150
    assert_eq!(result.sale.discount_total, 500);
    assert_eq!(result.sale.tax_total, 150);
    assert_eq!(result.sale.total, 1650);
    assert_eq!(result.change, 350);
}

#[test]
fn checkout_rejects_an_empty_cart() {
    let mut db = Database::new();
    let (user, _) = seed(&mut db, 10);

    let input = CheckoutInput { customer_id: None, items: vec![], payments: vec![], idempotency_key: None };
    let result = run_checkout(&mut db, &user, input);

    assert!(matches!(result, Err(SalesError::Validation(_))));
}

#[test]
fn checkout_rejects_a_non_positive_quantity() {
    let mut db = Database::new();
    let (user, product_id) = seed(&mut db, 10);

    let result = run_checkout(&mut db, &user, cart(product_id, 0));

    assert!(matches!(result, Err(SalesError::Validation(_))));
    assert_eq!(products::get(&db, product_id).unwrap().current_stock, 10);
}

#[test]
fn checkout_rejects_an_unknown_product() {
    let mut db = Database::new();
    let (user, _) = seed(&mut db, 10);

    let result = run_checkout(&mut db, &user, cart(99, 1));

    assert!(matches!(result, Err(SalesError::ProductNotFound)));
}

#[test]
fn a_retry_with_a_fixed_id_returns_the_first_sale() {
    let mut db = Database::new();
    let (user, product_id) = seed(&mut db, 10);

    let mut input = cart(product_id, 2);
    input.idempotency_key = Some("KEY-1".into());
    let quotes = quotes_for(&db, &input.items);
    let first = checkout_with_id(&mut db, &user, input, &quotes, "sale-a").unwrap();

    let mut retry = cart(product_id, 2);
    retry.idempotency_key = Some("KEY-1".into());
    let quotes = quotes_for(&db, &retry.items);
    let second = checkout_with_id(&mut db, &user, retry, &quotes, "sale-b").unwrap();

    assert_eq!(first.sale.id, "sale-a");
    assert_eq!(second.sale.id, "sale-a");
    assert_eq!(second.change, first.change);
    assert_eq!(products::get(&db, product_id).unwrap().current_stock, 8);
}

#[test]
fn get_finds_a_stored_sale_and_reports_an_unknown_one() {
    let mut db = Database::new();
    let (user, product_id) = seed(&mut db, 10);
    let result = run_checkout(&mut db, &user, cart(product_id, 2)).unwrap();

    let stored = get(&db, &result.sale.id).unwrap();
    assert_eq!(stored.total, 1980);
    assert_eq!(stored.items[0].product_name, "Widget");
    assert_eq!(stored.payments[0].amount, 2000);

    assert!(matches!(get(&db, "no-such-sale"), Err(SalesError::SaleNotFound)));
}

#[test]
fn sales_can_be_listed_by_status() {
    let mut db = Database::new();
    let (user, product_id) = seed(&mut db, 10);
    let first = run_checkout(&mut db, &user, cart(product_id, 1)).unwrap();
    run_checkout(&mut db, &user, cart(product_id, 1)).unwrap();
    cancel(&mut db, &first.sale.id, &user).unwrap();

    let cancelled = list(&db, SaleListQuery { status: Some("cancelled".into()) }).unwrap();
    let completed = list(&db, SaleListQuery { status: Some("completed".into()) }).unwrap();

    assert_eq!(cancelled.len(), 1);
    assert_eq!(cancelled[0].id, first.sale.id);
    assert_eq!(completed.len(), 1);
    assert_eq!(list(&db, SaleListQuery::default()).unwrap().len(), 2);
}

#[test]
fn a_reused_key_with_a_different_cart_is_a_conflict() {
    let mut db = Database::new();
    let (user, product_id) = seed(&mut db, 10);

    let mut input = cart(product_id, 2);
    input.idempotency_key = Some("KEY-7".into());
    run_checkout(&mut db, &user, input).unwrap();

    let mut other = cart(product_id, 1);
    other.idempotency_key = Some("KEY-7".into());
    let result = run_checkout(&mut db, &user, other);

    assert!(matches!(result, Err(SalesError::IdempotencyConflict)));
    assert_eq!(list(&db, SaleListQuery::default()).unwrap().len(), 1);
    assert_eq!(products::get(&db, product_id).unwrap().current_stock, 8);
}

#[test]
fn a_reused_key_with_different_payments_is_a_conflict() {
    let mut db = Database::new();
    let (user, product_id) = seed(&mut db, 10);

    let mut input = cart(product_id, 2);
    input.idempotency_key = Some("KEY-8".into());
    run_checkout(&mut db, &user, input).unwrap();

    let mut other = cart(product_id, 2);
    other.idempotency_key = Some("KEY-8".into());
    other.payments = vec![PaymentInput { method: "card".into(), amount: 2000 }];
    let result = run_checkout(&mut db, &user, other);

    assert!(matches!(result, Err(SalesError::IdempotencyConflict)));
}

#[test]
fn two_lines_of_one_product_cannot_take_more_than_its_stock() {
    let mut db = Database::new();
    let (user, product_id) = seed(&mut db, 3);

    let mut input = cart(product_id, 2);
    input.items.push(CartLineInput { product_id, quantity: 2, discount_override: None });
    input.payments = vec![PaymentInput { method: "cash".into(), amount: 5000 }];
    let result = run_checkout(&mut db, &user, input);

    assert!(matches!(
        result,
        Err(SalesError::InsufficientStock { available: 3, requested: 2, .. })
    ));
    assert_eq!(products::get(&db, product_id).unwrap().current_stock, 3);
    assert!(list(&db, SaleListQuery::default()).unwrap().is_empty());
}

#[test]
fn two_lines_of_one_product_that_fit_together_are_sold() {
    let mut db = Database::new();
    let (user, product_id) = seed(&mut db, 4);

    let mut input = cart(product_id, 2);
    input.items.push(CartLineInput { product_id, quantity: 2, discount_override: None });
    input.payments = vec![PaymentInput { method: "cash".into(), amount: 5000 }];
    let result = run_checkout(&mut db, &user, input).unwrap();

    assert_eq!(result.sale.items.len(), 2);
    assert_eq!(products::get(&db, product_id).unwrap().current_stock, 0);
}

#[test]
fn a_reused_key_with_a_different_manual_discount_is_a_conflict() {
    let mut db = Database::new();
    let (user, product_id) = seed(&mut db, 10);

    let mut input = cart(product_id, 2);
    input.idempotency_key = Some("KEY-9".into());
    run_checkout(&mut db, &user, input).unwrap();

    let mut other = cart(product_id, 2);
    other.idempotency_key = Some("KEY-9".into());
    other.items[0].discount_override = Some(300);
    let result = run_checkout(&mut db, &user, other);

    assert!(matches!(result, Err(SalesError::IdempotencyConflict)));
    assert_eq!(products::get(&db, product_id).unwrap().current_stock, 8);
}
