use tijarapos::db::migrations::{load_migrations, parse_filename, parse_version, pending, MigrationError};
use tijarapos::db::repositories::{brands, rbac, users};
use tijarapos::db::{Database, DbError};
use tijarapos::order::{lex_less, sort_positions};
use tijarapos::text::{contains, i64_to_string, like_match, zero_pad4};

fn file(name: &str, sql: &str) -> (String, Vec<u8>) {
    (name.to_string(), sql.as_bytes().to_vec())
}

fn chars(s: &str) -> Vec<char> {
    s.chars().collect()
}

#[test]
fn seeds_the_rbac_catalog() {
    let db = Database::new();

    let admin_role = db.roles.iter().find(|r| r.name == "admin").unwrap().id;
    let admin_permission_count = db.role_permissions.iter().filter(|(role, _)| *role == admin_role).count();

    assert_eq!(db.roles.len(), 5);
    assert!(!db.permissions.is_empty());
    assert_eq!(admin_permission_count, db.permissions.len(), "admin should hold every permission");
}

#[test]
fn the_seeded_roles_grant_what_they_should() {
    let mut db = Database::new();
    let id = users::insert(&mut db, "stock1", "hash", "Stock Keeper").unwrap();
    let role = rbac::role_id_by_name(&db, "inventory").unwrap();
    rbac::assign_role(&mut db, id, role).unwrap();

    let mut keys = rbac::permissions_for_user(&db, id);
    keys.sort();

    assert_eq!(keys, vec!["products.view".to_string(), "stock.adjust".to_string(), "stock.view".to_string()]);
    assert!(rbac::role_id_by_name(&db, "owner").is_none());
    assert!(matches!(rbac::assign_role(&mut db, 99, role), Err(DbError::Constraint(_))));
}

#[test]
fn a_username_is_taken_once() {
    let mut db = Database::new();
    users::insert(&mut db, "clerk", "hash", "Clerk").unwrap();

    let again = users::insert(&mut db, "clerk", "hash", "Clerk Two");

    assert!(matches!(again, Err(DbError::Constraint(m)) if m == "UNIQUE constraint failed: users.username"));
    assert_eq!(users::count(&db), 1);
    assert_eq!(users::find_by_username(&db, "clerk").unwrap().full_name, "Clerk");
}

#[test]
fn a_brand_row_reports_its_unique_name() {
    let mut db = Database::new();
    brands::insert(&mut db, "Acme").unwrap();

    let again = brands::insert(&mut db, "Acme");

    assert!(matches!(again, Err(DbError::Constraint(m)) if m == "UNIQUE constraint failed: brands.name"));
}

#[test]
fn migration_file_names_give_version_and_name() {
    assert_eq!(parse_filename("0001_init.sql").unwrap(), (1, "init".to_string()));
    assert_eq!(parse_filename("0012_add_sales_tables.sql").unwrap(), (12, "add_sales_tables".to_string()));
    assert!(matches!(parse_filename("init.sql"), Err(MigrationError::InvalidFilename(n)) if n == "init.sql"));
    assert!(matches!(parse_filename("0001_init.txt"), Err(MigrationError::InvalidFilename(_))));
    assert!(matches!(parse_filename("abc_init.sql"), Err(MigrationError::InvalidFilename(_))));
}

#[test]
fn versions_parse_as_signed_integers() {
    assert_eq!(parse_version("0007"), Some(7));
    assert_eq!(parse_version("-3"), Some(-3));
    assert_eq!(parse_version("+3"), Some(3));
    assert_eq!(parse_version(""), None);
    assert_eq!(parse_version("-"), None);
    assert_eq!(parse_version("1a"), None);
    assert_eq!(parse_version("9223372036854775807"), Some(i64::MAX));
    assert_eq!(parse_version("9223372036854775808"), None);
}

#[test]
fn migrations_load_in_version_order() {
    let files = vec![
        file("0003_sales.sql", "CREATE TABLE sales (id TEXT);"),
        file("0001_init.sql", "CREATE TABLE users (id INTEGER);"),
        file("0002_catalog.sql", "CREATE TABLE products (id INTEGER);"),
    ];

    let migrations = load_migrations(files).unwrap();

    let versions: Vec<i64> = migrations.iter().map(|m| m.version).collect();
    assert_eq!(versions, vec![1, 2, 3]);
    assert_eq!(migrations[0].name, "init");
    assert_eq!(migrations[0].sql, "CREATE TABLE users (id INTEGER);");
}

#[test]
fn a_bad_migration_file_is_reported() {
    let bad_name = load_migrations(vec![file("0001_init.sql", "SELECT 1;"), file("README.md", "notes")]);
    let bad_text = load_migrations(vec![("0002_blob.sql".to_string(), vec![0xff, 0xfe, 0x00])]);

    assert!(matches!(bad_name, Err(MigrationError::InvalidFilename(n)) if n == "README.md"));
    assert!(matches!(bad_text, Err(MigrationError::InvalidUtf8(n)) if n == "0002_blob.sql"));
}

#[test]
fn only_unapplied_migrations_are_pending() {
    let files = vec![file("0001_init.sql", "A"), file("0002_catalog.sql", "B"), file("0003_sales.sql", "C")];

    let first = pending(&vec![], load_migrations(files.clone()).unwrap());
    let some = pending(&vec![1, 3], load_migrations(files.clone()).unwrap());
    let none = pending(&vec![1, 2, 3], load_migrations(files).unwrap());

    assert_eq!(first.len(), 3);
    assert_eq!(some.len(), 1);
    assert_eq!(some[0].version, 2);
    assert!(none.is_empty());
}

#[test]
fn numbers_print_in_decimal() {
    assert_eq!(i64_to_string(0), "0");
    assert_eq!(i64_to_string(1980), "1980");
    assert_eq!(i64_to_string(-42), "-42");
    assert_eq!(i64_to_string(i64::MIN), i64::MIN.to_string());
    assert_eq!(zero_pad4(7), "0007");
    assert_eq!(zero_pad4(12345), "12345");
}

#[test]
fn text_helpers() {
    assert!(contains(&chars("UNIQUE constraint failed: brands.name"), &chars("brands.name")));
    assert!(!contains(&chars("brands"), &chars("brands.name")));
    assert!(like_match(&chars("%ban%"), &chars("Big Banana")));
    assert!(like_match(&chars("b_n"), &chars("BAN")));
    assert!(!like_match(&chars("%ban"), &chars("banana")));
}

#[test]
fn ordering_of_texts() {
    assert!(lex_less(&chars("apple"), &chars("banana")));
    assert!(lex_less(&chars("app"), &chars("apple")));
    assert!(!lex_less(&chars("apple"), &chars("apple")));

    let keys = vec![chars("pear"), chars("apple"), chars("fig"), chars("apple")];
    assert_eq!(sort_positions(&keys), vec![1, 3, 2, 0]);
}
