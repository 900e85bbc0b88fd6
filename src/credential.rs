//! Password credentials: deriving a salted Argon2 hash and checking a
//! password against one.

use vstd::prelude::*;
use argon2::{PasswordHasher, PasswordVerifier};
use crate::error::AppError;

verus! {

/// Whether Argon2 accepts `password` against the encoded PHC string
/// `encoded`: the string parses, and recomputing the digest with the salt and
/// cost parameters it embeds gives the digest it holds.
pub uninterp spec fn argon2_accepts(password: Seq<char>, encoded: Seq<char>) -> bool;

/// Whether `password` matches the stored credential `encoded`.
pub open spec fn password_matches(password: Seq<char>, encoded: Seq<char>) -> bool {
    argon2_accepts(password, encoded)
}

/// The most characters a password may have: four bytes each, the longest a
/// character takes in UTF-8, stay within Argon2's limit of 2^32 - 1 bytes.
pub const MAX_PASSWORD_CHARS: usize = 1073741823;

/// The number of random bytes in a salt.
pub const SALT_BYTES: usize = 16;

/// Whether `encoded` is a PHC string of Argon2id: it begins `$argon2id$`.
pub open spec fn is_argon2id_phc(encoded: Seq<char>) -> bool {
    encoded.len() > 10 && encoded.subrange(0, 10) == "$argon2id$"@
}

/// Relies on rand_core's OsRng::try_fill_bytes (the operating system's random
/// source): sixteen fresh random bytes, or `None` when the source fails.
#[verifier::external_body]
pub(crate) fn fresh_salt() -> (r: Option<Vec<u8>>)
    ensures
        r matches Some(b) ==> b@.len() == SALT_BYTES,
{
    let mut bytes = [0u8; 16];
    match argon2::password_hash::rand_core::RngCore::try_fill_bytes(
        &mut argon2::password_hash::rand_core::OsRng,
        &mut bytes,
    ) {
        Ok(()) => Some(bytes.to_vec()),
        Err(_) => None,
    }
}

/// Relies on argon2's PasswordHasher::hash_password with Argon2::default()
/// (Argon2id, default cost), over the salt that password_hash's
/// SaltString::encode_b64 makes of `salt`. It fails only for a password over
/// 2^32 - 1 bytes or a salt under 8 bytes; the PHC string of the result
/// begins `$argon2id$` and embeds algorithm, cost, salt and digest, so
/// verifying the same password against it succeeds.
#[verifier::external_body]
fn argon2_hash(password: &str, salt: &[u8]) -> (r: Option<String>)
    requires
        salt@.len() == SALT_BYTES,
    ensures
        r matches Some(h) ==> argon2_accepts(password@, h@) && is_argon2id_phc(h@),
        password@.len() <= MAX_PASSWORD_CHARS ==> r is Some,
{
    let salt = argon2::password_hash::SaltString::encode_b64(salt).ok()?;
    match argon2::Argon2::default().hash_password(password.as_bytes(), &salt) {
        Ok(hash) => Some(hash.to_string()),
        Err(_) => None,
    }
}

/// Relies on argon2's PasswordVerifier::verify_password with Argon2::default(),
/// on the hash read by password_hash::PasswordHash::new; a string that does
/// not parse is a failed verification, and a PHC string begins with `$`.
#[verifier::external_body]
fn argon2_verify(password: &str, encoded: &str) -> (r: bool)
    ensures
        r == argon2_accepts(password@, encoded@),
        encoded@.len() == 0 || encoded@[0] != '$' ==> !r,
{
    match argon2::PasswordHash::new(encoded) {
        Ok(parsed) => argon2::Argon2::default()
            .verify_password(password.as_bytes(), &parsed)
            .is_ok(),
        Err(_) => false,
    }
}

/// Derives a credential from a plaintext password and sixteen salt bytes.
/// It succeeds for every password of at most `MAX_PASSWORD_CHARS`
/// characters; the result is an Argon2id PHC string that verifies against
/// the same password. Any other outcome is an internal error, never a weaker
/// credential.
pub fn derive_password_hash_with_salt(password: &str, salt: &[u8]) -> (r: Result<String, AppError>)
    ensures
        salt@.len() == SALT_BYTES && password@.len() <= MAX_PASSWORD_CHARS ==> r is Ok,
        match r {
            Ok(h) => password_matches(password@, h@) && is_argon2id_phc(h@),
            Err(e) => e == AppError::InternalServerError,
        },
{
    if salt.len() != SALT_BYTES {
        return Err(AppError::InternalServerError);
    }
    match argon2_hash(password, salt) {
        Some(h) => Ok(h),
        None => Err(AppError::InternalServerError),
    }
}

/// Derives a credential from a plaintext password with a fresh random salt,
/// as `derive_password_hash_with_salt` does. A random source that fails is an
/// internal error.
pub fn derive_password_hash(password: &str) -> (r: Result<String, AppError>)
    ensures
        match r {
            Ok(h) => password_matches(password@, h@) && is_argon2id_phc(h@),
            Err(e) => e == AppError::InternalServerError,
        },
{
    match fresh_salt() {
        Some(salt) => derive_password_hash_with_salt(password, salt.as_slice()),
        None => Err(AppError::InternalServerError),
    }
}

/// Checks a password against a stored credential. A credential that does not
/// parse gives `false`.
pub fn verify_password(password: &str, encoded: &str) -> (r: bool)
    ensures
        r == password_matches(password@, encoded@),
{
    argon2_verify(password, encoded)
}

} // verus!
