//! Error types: request-time authentication/authorization failures and
//! startup-time configuration failures.

use vstd::prelude::*;

verus! {

/// Request-time failure. `MissingAuth` and `InvalidAuth` are client
/// credential mistakes, `Unauthorized` a scope violation, and
/// `InternalError` a broken registry invariant (a bug, never a client error).
#[derive(Clone, Copy, Debug, PartialEq, Eq, Structural)]
pub enum HandlerErrorKind {
    MissingAuth,
    InvalidAuth,
    Unauthorized,
    InternalError,
}

/// Startup-time configuration failure: the registry is never built from an
/// inconsistent configuration. Each variant names the offending table entry.
#[derive(Clone, Debug, PartialEq, Eq)]
pub enum ConfigError {
    /// The role's table is absent from the configuration.
    MissingTable { name: String },
    /// The user id is already registered, to `existing_name`'s role.
    DuplicateUser { name: String, user_id: String, existing_name: String },
    /// The user's configured value is not an array.
    InvalidTokenArray { name: String, user_id: String },
    /// An element of the user's token array is not a string.
    InvalidToken { name: String, user_id: String },
    /// The token is already registered, to `existing_user`.
    DuplicateToken { name: String, user_id: String, existing_user: String, token: String },
}

} // verus!
