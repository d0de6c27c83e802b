use chat_server::errors::DatabaseError;
use chat_server::passwords::{
    hash_password, init_password_hashing, login_verdict, pwhash_interactive, verify_stored_password,
    HASH_STRING_BYTES,
};

#[test]
fn login_verdict_passes_the_answer_on() {
    assert_eq!(login_verdict(Some(true)), Ok(true));
    assert_eq!(login_verdict(Some(false)), Ok(false));
    assert_eq!(login_verdict(None), Err(DatabaseError::PasswordHashError));
}

#[test]
fn unknown_user_does_not_log_in() {
    assert_eq!(verify_stored_password(&None, "secret"), Ok(false));
}

#[test]
fn stored_bytes_of_wrong_length_are_a_hash_error() {
    assert_eq!(
        verify_stored_password(&Some(vec![1, 2, 3]), "secret"),
        Err(DatabaseError::PasswordHashError)
    );
}

#[test]
fn hashing_initialises_libsodium() {
    assert_eq!(init_password_hashing(), Ok(()));
}

#[test]
fn a_fresh_hash_checks_its_own_password_only() {
    let h = hash_password("secret").expect("hashing works here");
    assert_eq!(h.len(), HASH_STRING_BYTES);
    assert_eq!(verify_stored_password(&Some(h.clone()), "secret"), Ok(true));
    assert_eq!(verify_stored_password(&Some(h), "other"), Ok(false));
}

#[test]
fn two_hashes_of_one_password_differ_by_salt() {
    init_password_hashing().expect("libsodium starts");
    let a = pwhash_interactive(b"pw").expect("hash");
    let b = pwhash_interactive(b"pw").expect("hash");
    assert_eq!(a.len(), HASH_STRING_BYTES);
    assert_ne!(a, b);
}
