//! One-way salted password hashing.
use vstd::prelude::*;

verus! {

#[verifier::external_type_specification]
#[verifier::external_body]
pub struct ExBcryptError(bcrypt::BcryptError);

/// What bcrypt's check of `password` against `hash` gives: `None` where
/// `hash` is not a well-formed bcrypt record.
pub uninterp spec fn bcrypt_verify_of(password: Seq<char>, hash: Seq<char>) -> Option<bool>;

/// Relies on `bcrypt::verify`: it recomputes the hash with the cost and salt
/// stored in `hash` and compares in constant time; an error only where `hash`
/// is malformed, which includes every text that is not 60 characters long.
#[verifier::external_body]
fn bcrypt_verify(password: &str, hash: &str) -> (r: Result<bool, bcrypt::BcryptError>)
    ensures
        match r {
            Ok(b) => bcrypt_verify_of(password@, hash@) == Some(b),
            Err(_) => bcrypt_verify_of(password@, hash@) is None,
        },
        hash@.len() != 60 ==> r is Err,
{
    bcrypt::verify(password, hash)
}

/// Relies on `bcrypt::hash` at `bcrypt::DEFAULT_COST`: a fresh random salt on
/// every call, a 60-character record, which `bcrypt::verify` accepts for the
/// same password; an error only when the system's randomness fails.
#[verifier::external_body]
fn bcrypt_hash(password: &str) -> (r: Result<String, bcrypt::BcryptError>)
    ensures
        r matches Ok(h) ==> h@.len() == 60 && bcrypt_verify_of(password@, h@) == Some(true),
{
    bcrypt::hash(password, bcrypt::DEFAULT_COST)
}

/// Why hashing or checking a password failed.
#[derive(Clone, Copy, Debug, PartialEq, Eq, Structural)]
pub enum PasswordError {
    /// The hasher's randomness or algorithm failed.
    Hashing,
    /// The stored hash is malformed.
    Verification,
}

/// The outcome of checking `password` against a stored `hash`.
pub open spec fn password_check(password: Seq<char>, hash: Seq<char>) -> Result<bool, PasswordError> {
    match bcrypt_verify_of(password, hash) {
        Some(b) => Ok(b),
        None => Err(PasswordError::Verification),
    }
}

/// A salted hash of `password`, which checks against `password`.
pub fn hash_password(password: &str) -> (r: Result<String, PasswordError>)
    ensures
        r matches Ok(h) ==> h@.len() == 60 && password_check(password@, h@) == Ok::<
            bool,
            PasswordError,
        >(true),
        r matches Err(e) ==> e == PasswordError::Hashing,
{
    match bcrypt_hash(password) {
        Ok(h) => Ok(h),
        Err(_) => Err(PasswordError::Hashing),
    }
}

/// Whether `password` matches the stored `hash`; an error where `hash` is
/// malformed, a mismatch is `Ok(false)`.
pub fn verify_password(password: &str, hash: &str) -> (r: Result<bool, PasswordError>)
    ensures
        r == password_check(password@, hash@),
        hash@.len() != 60 ==> r == Err::<bool, PasswordError>(PasswordError::Verification),
{
    match bcrypt_verify(password, hash) {
        Ok(b) => Ok(b),
        Err(_) => Err(PasswordError::Verification),
    }
}

} // verus!
