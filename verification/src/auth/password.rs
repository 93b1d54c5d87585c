//! Password hashing with Argon2 (the `argon2` crate's defaults: Argon2id),
//! kept to this one file.

use argon2::{PasswordHasher, PasswordVerifier};
use vstd::prelude::*;

use crate::auth::utf8_len;

verus! {

/// The error type of the `password-hash` traits that `argon2` implements.
#[verifier::external_type_specification]
#[verifier::external_body]
pub struct ExHashError(argon2::password_hash::Error);

/// Whether `password` is the password that the PHC text `hash` was made
/// from: what `verify_password` answers, a function of the two texts alone.
pub uninterp spec fn password_matches(password: Seq<char>, hash: Seq<char>) -> bool;

/// `Argon2::default().hash_password` with a fresh salt from the operating
/// system's generator (`SaltString::generate(&mut OsRng)`), as PHC text.
/// With the default parameters, a generated salt of 16 bytes and an output
/// of 32, the only check that can fail is the password's length: hashing
/// succeeds for a password of at most `argon2::MAX_PWD_LEN` (2^32 - 1)
/// bytes. The text it gives verifies against the same password. The salt,
/// and so the text, is chance and is left open.
#[verifier::external_body]
pub(crate) fn hash_password(password: &str) -> (r: Result<String, argon2::password_hash::Error>)
    ensures
        utf8_len(password@) <= 0xFFFF_FFFF ==> r is Ok,
        r matches Ok(h) ==> password_matches(password@, h@),
{
    let salt = argon2::password_hash::SaltString::generate(&mut argon2::password_hash::rand_core::OsRng);
    match argon2::Argon2::default().hash_password(password.as_bytes(), &salt) {
        Ok(h) => Ok(h.to_string()),
        Err(e) => Err(e),
    }
}

/// `PasswordHash::new` on the stored text, then
/// `Argon2::default().verify_password`: whether `password` matches it. Text
/// that does not parse matches nothing. The answer is named
/// `password_matches`.
#[verifier::external_body]
pub(crate) fn verify_password(password: &str, hash: &str) -> (r: bool)
    ensures
        r == password_matches(password@, hash@),
{
    match argon2::password_hash::PasswordHash::new(hash) {
        Ok(parsed) => argon2::Argon2::default().verify_password(password.as_bytes(), &parsed).is_ok(),
        Err(_) => false,
    }
}

} // verus!
