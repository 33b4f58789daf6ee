use vstd::prelude::*;

verus! {

/// Error kinds surfaced to the HTTP layer.
#[derive(Debug, Clone, Copy, PartialEq, Eq, Structural)]
pub enum NovaWebErrorId {
    NotAdmin,
    MissingAuthHeader,
    UnverifiableToken,
    TokenExpired,
    NotFound,
    MissingRefreshToken,
}

/// An error as the HTTP layer reports it: a kind and a human readable message.
#[derive(Debug, Clone)]
pub struct NovaWebError {
    pub id: NovaWebErrorId,
    pub message: String,
}

/// Failures of the store and of the operations built on it.
#[derive(Debug, Clone, Copy, PartialEq, Eq, Structural)]
pub enum StoreError {
    /// A lookup by id found nothing.
    NotFound,
    /// The store refused the operation (for instance: no transaction is open).
    StoreFailure,
    /// The data would be left structurally wrong (a post without drafts).
    InvariantViolation,
}

/// Failures of signing up and logging in.
#[derive(Debug, Clone, Copy, PartialEq, Eq, Structural)]
pub enum AuthError {
    /// A person is written without a password hash.
    MissingHash,
    /// The email or the username belongs to someone already.
    NotUnique,
    /// The password could not be hashed.
    HashFailed,
    /// No person has this email.
    NotFound,
    /// The password does not match.
    WrongCredentials,
}

impl NovaWebErrorId {
    /// The name of the error kind, as it is reported in responses.
    pub fn name(&self) -> (r: &'static str)
        ensures
            r@ == match self {
                NovaWebErrorId::NotAdmin => "NotAdmin"@,
                NovaWebErrorId::MissingAuthHeader => "MissingAuthHeader"@,
                NovaWebErrorId::UnverifiableToken => "UnverifiableToken"@,
                NovaWebErrorId::TokenExpired => "TokenExpired"@,
                NovaWebErrorId::NotFound => "NotFound"@,
                NovaWebErrorId::MissingRefreshToken => "MissingRefreshToken"@,
            },
    {
        match self {
            NovaWebErrorId::NotAdmin => "NotAdmin",
            NovaWebErrorId::MissingAuthHeader => "MissingAuthHeader",
            NovaWebErrorId::UnverifiableToken => "UnverifiableToken",
            NovaWebErrorId::TokenExpired => "TokenExpired",
            NovaWebErrorId::NotFound => "NotFound",
            NovaWebErrorId::MissingRefreshToken => "MissingRefreshToken",
        }
    }
}

} // verus!
