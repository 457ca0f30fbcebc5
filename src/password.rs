use vstd::prelude::*;
use argon2::password_hash::{PasswordHash, PasswordHasher, PasswordVerifier, SaltString};
use argon2::password_hash::rand_core::{OsRng, RngCore};
use argon2::Argon2;
use crate::error::AuthError;

verus! {

#[verifier::external_type_specification]
#[verifier::external_body]
pub struct ExSaltString(SaltString);

#[verifier::external_type_specification]
#[verifier::external_body]
pub struct ExPasswordHashError(argon2::password_hash::Error);

/// Whether a text parses as a PHC password-hash string.
pub uninterp spec fn phc_well_formed(phc: Seq<char>) -> bool;

/// Whether argon2 accepts a password against a well-formed PHC string.
pub uninterp spec fn argon2_accepts(password: Seq<char>, phc: Seq<char>) -> bool;

/// Relies on `RngCore::try_fill_bytes` of the OS random source for sixteen bytes, then
/// `SaltString::encode_b64`: a fresh random salt, or nothing when the source fails.
#[verifier::external_body]
fn fresh_salt() -> (r: Option<SaltString>) {
    let mut bytes = [0u8; 16];
    match OsRng.try_fill_bytes(&mut bytes) {
        Ok(()) => SaltString::encode_b64(&bytes).ok(),
        Err(_) => None,
    }
}

/// Relies on `PasswordHasher::hash_password` of `Argon2::default()`: the PHC string it
/// renders parses again, and `verify_password` accepts the same password against it.
#[verifier::external_body]
fn argon2_hash(password: &str, salt: &SaltString) -> (r: Result<String, argon2::password_hash::Error>)
    ensures
        r matches Ok(h) ==> phc_well_formed(h@) && argon2_accepts(password@, h@),
{
    match Argon2::default().hash_password(password.as_bytes(), salt) {
        Ok(h) => Ok(h.to_string()),
        Err(e) => Err(e),
    }
}

/// Relies on `PasswordHash::new`: whether the stored text is a PHC string.
#[verifier::external_body]
fn phc_parses(phc: &str) -> (r: bool)
    ensures
        r == phc_well_formed(phc@),
{
    PasswordHash::new(phc).is_ok()
}

/// Relies on `PasswordVerifier::verify_password` of `Argon2::default()`, on the
/// parsed form of `phc`: whether the recomputed digest matches (compared in constant time).
#[verifier::external_body]
fn argon2_verify(password: &str, phc: &str) -> (r: bool)
    requires
        phc_well_formed(phc@),
    ensures
        r == argon2_accepts(password@, phc@),
{
    match PasswordHash::new(phc) {
        Ok(h) => Argon2::default().verify_password(password.as_bytes(), &h).is_ok(),
        Err(_) => false,
    }
}

/// `h` is a stored hash under which `password` is accepted.
pub open spec fn is_hash_of(password: Seq<char>, h: Seq<char>) -> bool {
    phc_well_formed(h) && argon2_accepts(password, h)
}

/// What `verify_password` answers: a corrupted stored hash is an internal error,
/// not a mismatch.
pub open spec fn verification(password: Seq<char>, h: Seq<char>) -> Result<bool, AuthError> {
    if phc_well_formed(h) {
        Ok(argon2_accepts(password, h))
    } else {
        Err(AuthError::InternalError)
    }
}

/// Hashes a password under a fresh random salt into a self-describing PHC string.
pub fn hash_password(password: &str) -> (r: Result<String, AuthError>)
    ensures
        r matches Ok(h) ==> is_hash_of(password@, h@),
        r matches Err(e) ==> e == AuthError::InternalError,
{
    let salt = match fresh_salt() {
        Some(salt) => salt,
        None => { return Err(AuthError::InternalError); },
    };
    match argon2_hash(password, &salt) {
        Ok(h) => Ok(h),
        Err(_) => Err(AuthError::InternalError),
    }
}

/// Checks a password against a stored PHC string.
pub fn verify_password(password: &str, stored: &str) -> (r: Result<bool, AuthError>)
    ensures
        r == verification(password@, stored@),
{
    if phc_parses(stored) {
        Ok(argon2_verify(password, stored))
    } else {
        Err(AuthError::InternalError)
    }
}

/// A hash that `hash_password` produced for a password verifies that password.
pub proof fn law_hash_then_verify(password: Seq<char>, h: Seq<char>)
    requires
        is_hash_of(password, h),
    ensures
        verification(password, h) == Ok::<bool, AuthError>(true),
{
}

} // verus!
