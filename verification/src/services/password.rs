//! One-way password hashing and verification.
//!
//! Hashing draws a fresh random salt, so two hashes of the same password
//! differ; verification re-derives the hash from the salt and cost stored in
//! the hash string and is therefore a pure function of password and hash.

use vstd::prelude::*;

verus! {

/// What `bcrypt::verify` returns for a password and a hash string: `None`
/// when the hash string is malformed or carries an unusable cost, otherwise
/// `Some` of whether the password matches.
pub uninterp spec fn bcrypt_check_of(password: Seq<char>, hash: Seq<char>) -> Option<bool>;

/// Relies on bcrypt::verify: the outcome is a pure function of the password
/// and the hash string, since the salt and cost are read back out of the
/// hash string itself.
#[verifier::external_body]
pub(crate) fn verify_password(password: &str, hash: &str) -> (r: Result<bool, ()>)
    ensures
        r matches Ok(matched) ==> bcrypt_check_of(password@, hash@) == Some(matched),
        r is Err ==> bcrypt_check_of(password@, hash@) is None,
{
    match bcrypt::verify(password, hash) {
        Ok(matched) => Ok(matched),
        Err(_) => Err(()),
    }
}

/// Relies on bcrypt::hash with the crate's default cost: it fails only when
/// the operating system's randomness source does, and any hash it produces
/// verifies against the password it was derived from (bcrypt re-hashes with
/// the salt and cost stored in the hash string, truncating the password the
/// same way on both sides).  The fresh random salt means nothing else is
/// promised about the produced string.
#[verifier::external_body]
pub(crate) fn hash_password(password: &str) -> (r: Result<String, ()>)
    ensures
        r matches Ok(hashed) ==> bcrypt_check_of(password@, hashed@) == Some(true),
{
    match bcrypt::hash(password, bcrypt::DEFAULT_COST) {
        Ok(hashed) => Ok(hashed),
        Err(_) => Err(()),
    }
}

} // verus!
