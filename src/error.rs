use vstd::prelude::*;

verus! {

/// An input field of a registration request.
#[derive(Clone, Copy, Debug, PartialEq, Eq, Structural)]
pub enum Field {
    Username,
    Password,
    Email,
    Phone,
}

/// Outcome classes that callers map to responses.
#[derive(Clone, Debug, PartialEq, Eq)]
pub enum AuthError {
    /// Unknown user or wrong password; the two are never told apart.
    InvalidCredentials,
    /// Input defects, one entry per offending field.
    ValidationError(Vec<Field>),
    UsernameTaken,
    EmailTaken,
    /// Missing, malformed, forged, expired or revoked bearer token.
    Unauthenticated,
    /// Store unavailability, signing failure, corrupted stored data.
    InternalError,
}

} // verus!

verus! {

/// A failed call to an external store (connectivity, timeout).
#[derive(Clone, Copy, Debug, PartialEq, Eq, Structural)]
pub struct StoreError;

} // verus!
