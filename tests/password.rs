use user_auth::password::{hash_password, verify_password, PasswordError};

const KNOWN: &str = "$2b$04$EGdrhbKUv8Oc9vGiXX0HQOxSg445d458Muh7DAHskb6QbtCvdxcie";

#[test]
fn two_hashes_of_one_password_differ() {
    let h1 = hash_password("p1").unwrap();
    let h2 = hash_password("p1").unwrap();
    assert_ne!(h1, h2);
    assert_eq!(h1.len(), 60);
    assert_ne!(h1, "p1");
}

#[test]
fn fresh_hash_checks_against_its_password() {
    let h = hash_password("s3cret").unwrap();
    assert_eq!(verify_password("s3cret", &h), Ok(true));
}

#[test]
fn known_hash_checks() {
    assert_eq!(verify_password("correctbatteryhorsestapler", KNOWN), Ok(true));
}

#[test]
fn wrong_password_is_false() {
    assert_eq!(verify_password("wrong", KNOWN), Ok(false));
}

#[test]
fn malformed_hash_is_an_error() {
    assert_eq!(verify_password("p1", "not a hash"), Err(PasswordError::Verification));
    assert_eq!(
        verify_password("p1", "$2a$04$n4Uy0eSnMfvnESYL.bLwuuj0U/ETSsoTpRT9GVk$5bektyVVa5xnIi"),
        Err(PasswordError::Verification)
    );
}
