//! Password verifier: compares a plaintext password against a stored
//! salted hash of a slow, adaptive scheme.  The plaintext is never logged
//! or returned; a mismatch is an `Ok(false)`, never an error, and an error
//! comes only from a malformed stored hash.
use vstd::prelude::*;

use crate::errors::AuthError;

verus! {

/// What bcrypt's `verify` returns for a password and stored hash: `None`
/// where it fails (malformed stored hash), `Some(matches)` otherwise.  The
/// outcome is a function of the two arguments alone.
pub uninterp spec fn bcrypt_verify_of(password: Seq<char>, hash: Seq<char>) -> Option<bool>;

#[verifier::external_type_specification]
#[verifier::external_body]
pub struct ExBcryptError(bcrypt::BcryptError);

/// Relies on bcrypt::verify: it recomputes the hash of the password with
/// the cost and salt taken from the stored hash and compares; it errors
/// only when the stored hash cannot be parsed, never on a mismatch.
#[verifier::external_body]
fn bcrypt_verify(password: &str, hash: &str) -> (r: Result<bool, bcrypt::BcryptError>)
    ensures
        r is Ok <==> bcrypt_verify_of(password@, hash@) is Some,
        r matches Ok(b) ==> bcrypt_verify_of(password@, hash@) == Some(b),
{
    bcrypt::verify(password, hash)
}

/// Check a plaintext password against a stored adaptive hash.
///
/// Returns `Ok(true)` on a match, `Ok(false)` on a mismatch, and
/// `BcryptError` exactly where the stored hash is corrupt.
pub fn verify_password(plaintext: &str, stored_hash: &str) -> (r: Result<bool, AuthError>)
    ensures
        r is Ok <==> bcrypt_verify_of(plaintext@, stored_hash@) is Some,
        r matches Ok(b) ==> bcrypt_verify_of(plaintext@, stored_hash@) == Some(b),
        r matches Err(e) ==> e == AuthError::BcryptError,
{
    match bcrypt_verify(plaintext, stored_hash) {
        Ok(b) => Ok(b),
        Err(_) => Err(AuthError::BcryptError),
    }
}

} // verus!
