use tijarapos::auth::{
    bootstrap_admin, has_permission, login, needs_setup, require_permission, sorted, validate_full_name,
    validate_password, validate_username, AuthError,
};
use tijarapos::db::repositories::users;
use tijarapos::db::Database;
use tijarapos::error::CommandError;

#[test]
fn bootstrap_admin_creates_first_user_with_full_permissions() {
    let mut db = Database::new();

    let user = bootstrap_admin(&mut db, "Admin", "supersecret123", "  Admin User  ").unwrap();

    assert_eq!(user.username, "admin");
    assert_eq!(user.full_name, "Admin User");
    assert!(user.permissions.contains(&"settings.manage".to_string()));
    assert!(user.permissions.contains(&"devices.manage".to_string()));
}

#[test]
fn bootstrap_admin_fails_once_a_user_already_exists() {
    let mut db = Database::new();
    bootstrap_admin(&mut db, "admin", "supersecret123", "Admin User").unwrap();

    let result = bootstrap_admin(&mut db, "someoneelse", "supersecret123", "Someone Else");

    assert!(matches!(result, Err(AuthError::AlreadySetUp)));
}

#[test]
fn bootstrap_admin_rejects_weak_passwords() {
    let mut db = Database::new();

    let result = bootstrap_admin(&mut db, "admin", "short", "Admin User");

    assert!(matches!(result, Err(AuthError::Validation(_))));
    assert!(needs_setup(&db).unwrap());
}

#[test]
fn login_succeeds_with_correct_credentials_case_insensitive_username() {
    let mut db = Database::new();
    bootstrap_admin(&mut db, "admin", "supersecret123", "Admin User").unwrap();

    let user = login(&db, "ADMIN", "supersecret123").unwrap();

    assert_eq!(user.username, "admin");
}

#[test]
fn login_fails_with_wrong_password_or_unknown_username_identically() {
    let mut db = Database::new();
    bootstrap_admin(&mut db, "admin", "supersecret123", "Admin User").unwrap();

    let wrong_password = login(&db, "admin", "wrongpassword");
    let unknown_user = login(&db, "nobody", "whatever12345");

    assert!(matches!(wrong_password, Err(AuthError::InvalidCredentials)));
    assert!(matches!(unknown_user, Err(AuthError::InvalidCredentials)));
}

#[test]
fn login_rejects_disabled_accounts() {
    let mut db = Database::new();
    let admin = bootstrap_admin(&mut db, "admin", "supersecret123", "Admin User").unwrap();
    users::set_active(&mut db, admin.id, false);

    let result = login(&db, "admin", "supersecret123");

    assert!(matches!(result, Err(AuthError::AccountDisabled)));
}

#[test]
fn permission_helpers_reflect_the_users_resolved_permissions() {
    let mut db = Database::new();
    let user = bootstrap_admin(&mut db, "admin", "supersecret123", "Admin User").unwrap();

    assert!(has_permission(&user, "products.view"));
    assert!(require_permission(&user, "products.view").is_ok());

    let mut stripped = user.clone();
    stripped.permissions.clear();
    assert!(!has_permission(&stripped, "products.view"));
    assert!(matches!(require_permission(&stripped, "products.view"), Err(AuthError::Forbidden)));
}

#[test]
fn setup_is_needed_until_the_first_account_exists() {
    let mut db = Database::new();
    assert!(needs_setup(&db).unwrap());

    bootstrap_admin(&mut db, "admin", "supersecret123", "Admin User").unwrap();

    assert!(!needs_setup(&db).unwrap());
}

#[test]
fn the_first_account_holds_every_seeded_permission_in_order() {
    let mut db = Database::new();
    let user = bootstrap_admin(&mut db, "admin", "supersecret123", "Admin User").unwrap();

    assert_eq!(user.permissions.len(), db.permissions.len());
    let mut expected: Vec<String> = db.permissions.iter().map(|p| p.key.clone()).collect();
    expected.sort();
    assert_eq!(user.permissions, expected);
}

#[test]
fn username_rules() {
    assert_eq!(validate_username("  Admin  ").unwrap(), "admin");
    assert!(matches!(validate_username("ab"), Err(AuthError::Validation(_))));
    assert!(matches!(validate_username(&"x".repeat(51)), Err(AuthError::Validation(_))));
    assert_eq!(validate_username(&"x".repeat(50)).unwrap(), "x".repeat(50));
    assert!(matches!(validate_username("bad name!"), Err(AuthError::Validation(_))));
    assert_eq!(validate_username("j.doe-2_x").unwrap(), "j.doe-2_x");
}

#[test]
fn password_and_full_name_rules() {
    assert!(validate_password("12345678").is_ok());
    assert!(matches!(validate_password("1234567"), Err(AuthError::Validation(_))));
    assert!(validate_password(&"p".repeat(200)).is_ok());
    assert_eq!(validate_full_name("  Jane Doe ").unwrap(), "Jane Doe");
    assert!(matches!(validate_full_name("   "), Err(AuthError::Validation(_))));
}

#[test]
fn the_stored_password_is_an_argon2_hash_that_only_its_password_opens() {
    let mut db = Database::new();
    bootstrap_admin(&mut db, "admin", "supersecret123", "Admin User").unwrap();

    let stored = &db.users[0].password_hash;
    assert_ne!(stored, "supersecret123");
    assert!(stored.starts_with("$argon2id$"));
    assert!(login(&db, "admin", "supersecret123").is_ok());
    assert!(matches!(login(&db, "admin", "supersecret124"), Err(AuthError::InvalidCredentials)));
}

#[test]
fn an_account_whose_stored_hash_does_not_parse_cannot_sign_in() {
    let mut db = Database::new();
    users::insert(&mut db, "clerk", "not a hash", "Clerk").unwrap();

    assert!(matches!(login(&db, "clerk", "not a hash"), Err(AuthError::InvalidCredentials)));
}

#[test]
fn sorted_orders_texts() {
    let out = sorted(vec!["sales.view".to_string(), "products.view".to_string(), "devices.manage".to_string()]);
    assert_eq!(out, vec!["devices.manage".to_string(), "products.view".to_string(), "sales.view".to_string()]);
}

#[test]
fn authentication_errors_reach_the_user_as_codes() {
    let unauthorized = CommandError::from_auth(AuthError::NotAuthenticated);
    let forbidden = CommandError::from_auth(AuthError::Forbidden);
    let validation = CommandError::from_auth(AuthError::Validation("Bad name".into()));
    let internal = CommandError::from_auth(AuthError::Internal);

    assert_eq!(unauthorized.code, "UNAUTHORIZED");
    assert_eq!(forbidden.code, "FORBIDDEN");
    assert_eq!(validation.code, "VALIDATION_ERROR");
    assert_eq!(validation.message, "Bad name");
    assert_eq!(internal.code, "INTERNAL_ERROR");
    assert_eq!(internal.message, "Something went wrong. Please try again.");
    let made = CommandError::new("NOT_FOUND", "No such thing");
    assert_eq!(made.code, "NOT_FOUND");
    assert_eq!(made.message, "No such thing");
}
