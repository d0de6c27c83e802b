//! Password hashing and checking, with libsodium's argon2i through
//! sodiumoxide.

use vstd::prelude::*;
use crate::errors::DatabaseError;
use sodiumoxide::crypto::pwhash::argon2i13;
use vstd::string::StringSliceAdditionalSpecFns;

verus! {

/// Length of an argon2i hash string as libsodium writes it, terminating
/// zeros included.
pub const HASH_STRING_BYTES: usize = 128;

/// sodiumoxide's `init`: readies libsodium; `true` when it succeeded.
/// Whether it succeeds depends on the machine, so nothing is stated.
#[verifier::external_body]
fn sodium_init() -> (r: bool) {
    sodiumoxide::init().is_ok()
}

/// libsodium's argon2i check of a password against a hash string: the
/// password, hashed with the salt and limits that the string records,
/// gives the hash that the string holds.
pub uninterp spec fn argon2i_str_verifies(stored: Seq<u8>, password: Seq<u8>) -> bool;

/// sodiumoxide's argon2i13 `pwhash` with the interactive limits: a hash
/// string of the password with a fresh random salt, as bytes; `None` when
/// hashing failed. The salt is random, so of the bytes only their number
/// is stated: a `HashedPassword` holds `HASH_STRING_BYTES` of them.
#[verifier::external_body]
pub fn pwhash_interactive(bytes: &[u8]) -> (r: Option<Vec<u8>>)
    ensures
        r matches Some(h) ==> h@.len() == HASH_STRING_BYTES && argon2i_str_verifies(h@, bytes@),
{
    match argon2i13::pwhash(bytes, argon2i13::OPSLIMIT_INTERACTIVE, argon2i13::MEMLIMIT_INTERACTIVE) {
        Ok(h) => Some(h.as_ref().to_vec()),
        Err(()) => None,
    }
}

/// sodiumoxide's argon2i13 `HashedPassword::from_slice` on the stored bytes
/// followed by `pwhash_verify` with the password. The two calls go together
/// because a `HashedPassword` is only a carrier between them. `from_slice`
/// refuses exactly the slices whose length is not `HASH_STRING_BYTES`.
/// `pwhash_verify` answers `true` only when the password passes argon2i's
/// check against the stored string; its `false` is left unsaid, since
/// libsodium also answers `false` when it cannot get the memory that the
/// check needs.
#[verifier::external_body]
fn pwhash_verify_bytes(stored: &[u8], password: &[u8]) -> (r: Option<bool>)
    ensures
        r is None <==> stored@.len() != HASH_STRING_BYTES,
        r == Some(true) ==> argon2i_str_verifies(stored@, password@),
{
    match argon2i13::HashedPassword::from_slice(stored) {
        Some(h) => Some(argon2i13::pwhash_verify(&h, password)),
        None => None,
    }
}

/// Readies password hashing; `PasswordHashError` when libsodium could not
/// be initialised.
pub fn init_password_hashing() -> (r: Result<(), DatabaseError>)
    ensures
        r matches Err(e) ==> e == DatabaseError::PasswordHashError,
{
    if sodium_init() {
        Ok(())
    } else {
        Err(DatabaseError::PasswordHashError)
    }
}

/// A hash string for a new password; `PasswordHashError` when libsodium
/// could not be initialised or hashing failed.
pub fn hash_password(password: &str) -> (r: Result<Vec<u8>, DatabaseError>)
    ensures
        r matches Err(e) ==> e == DatabaseError::PasswordHashError,
        r matches Ok(h) ==> h@.len() == HASH_STRING_BYTES && argon2i_str_verifies(h@, password.spec_bytes()),
{
    init_password_hashing()?;
    match pwhash_interactive(password.as_bytes()) {
        Some(h) => Ok(h),
        None => Err(DatabaseError::PasswordHashError),
    }
}

/// The login verdict from sodiumoxide's answer for a stored hash:
/// `PasswordHashError` when the stored bytes were not a hash string.
pub fn login_verdict(answer: Option<bool>) -> (r: Result<bool, DatabaseError>)
    ensures
        r == (match answer {
            Some(b) => Ok::<bool, DatabaseError>(b),
            None => Err(DatabaseError::PasswordHashError),
        }),
{
    match answer {
        Some(b) => Ok(b),
        None => Err(DatabaseError::PasswordHashError),
    }
}

/// Whether `password` is the password of a user whose stored hash is
/// `stored` (`None`: no such user, so no). `PasswordHashError` when the
/// stored bytes are not a hash string; otherwise the verdict is libsodium's,
/// passed on by `login_verdict`.
pub fn verify_stored_password(stored: &Option<Vec<u8>>, password: &str) -> (r: Result<bool, DatabaseError>)
    ensures
        stored is None ==> r == Ok::<bool, DatabaseError>(false),
        r is Err <==> (stored matches Some(h) && h@.len() != HASH_STRING_BYTES),
        r matches Err(e) ==> e == DatabaseError::PasswordHashError,
        r == Ok::<bool, DatabaseError>(true) ==> (stored matches Some(h) && argon2i_str_verifies(
            h@,
            password.spec_bytes(),
        )),
{
    match stored {
        None => Ok(false),
        Some(h) => login_verdict(pwhash_verify_bytes(h.as_slice(), password.as_bytes())),
    }
}

} // verus!
