//! The one shape every command error takes on its way to the user
//! interface: a stable `code` and a safe `message`. Internal details never
//! travel in it.

use vstd::prelude::*;

use crate::auth::AuthError;
use crate::text::owned;

verus! {

pub struct CommandError {
    pub code: String,
    pub message: String,
}

/// The code and message an authentication error is shown with.
pub open spec fn auth_error_text(err: AuthError) -> (Seq<char>, Seq<char>) {
    match err {
        AuthError::InvalidCredentials => ("INVALID_CREDENTIALS"@, "Invalid username or password"@),
        AuthError::AccountDisabled => ("ACCOUNT_DISABLED"@, "This account has been disabled"@),
        AuthError::NotAuthenticated => ("UNAUTHORIZED"@, "You must be signed in to do this"@),
        AuthError::Forbidden => ("FORBIDDEN"@, "You do not have permission to do this"@),
        AuthError::AlreadySetUp => ("ALREADY_SET_UP"@, "Setup has already been completed"@),
        AuthError::Validation(m) => ("VALIDATION_ERROR"@, m@),
        AuthError::Internal => ("INTERNAL_ERROR"@, "Something went wrong. Please try again."@),
        AuthError::Db(_) => ("INTERNAL_ERROR"@, "Something went wrong. Please try again."@),
    }
}

impl CommandError {
    pub fn new(code: &str, message: &str) -> (e: CommandError)
        ensures
            e.code@ == code@,
            e.message@ == message@,
    {
        CommandError { code: owned(code), message: owned(message) }
    }

    /// How an authentication error reaches the user: a validation message is
    /// shown as it is, internal failures only as a generic message.
    pub fn from_auth(err: AuthError) -> (e: CommandError)
        ensures
            e.code@ == auth_error_text(err).0,
            e.message@ == auth_error_text(err).1,
    {
        match err {
            AuthError::InvalidCredentials => CommandError::new("INVALID_CREDENTIALS", "Invalid username or password"),
            AuthError::AccountDisabled => CommandError::new("ACCOUNT_DISABLED", "This account has been disabled"),
            AuthError::NotAuthenticated => CommandError::new("UNAUTHORIZED", "You must be signed in to do this"),
            AuthError::Forbidden => CommandError::new("FORBIDDEN", "You do not have permission to do this"),
            AuthError::AlreadySetUp => CommandError::new("ALREADY_SET_UP", "Setup has already been completed"),
            AuthError::Validation(message) => CommandError { code: owned("VALIDATION_ERROR"), message },
            AuthError::Internal => CommandError::new("INTERNAL_ERROR", "Something went wrong. Please try again."),
            AuthError::Db(_) => CommandError::new("INTERNAL_ERROR", "Something went wrong. Please try again."),
        }
    }
}

} // verus!
