use user_auth::flow::{finish_login, login, prepare_registration, register, StoreError};
use user_auth::guard::{authorize_at, AuthFailure};
use user_auth::model::{LoginRequest, RegisterRequest, User};
use user_auth::password::{verify_password, PasswordError};
use user_auth::token::TokenKey;

const KNOWN: &str = "$2b$04$EGdrhbKUv8Oc9vGiXX0HQOxSg445d458Muh7DAHskb6QbtCvdxcie";

fn key() -> TokenKey {
    TokenKey::new(b"flow-secret".to_vec()).unwrap()
}

fn stored(id: i32, email: &str, hash: &str) -> User {
    User {
        id,
        email: email.to_string(),
        password_hash: hash.to_string(),
        name: "A".to_string(),
        occupation: "Eng".to_string(),
        created_at: Some(0),
    }
}

#[test]
fn register_login_and_protected_call() {
    let k = key();
    let req = RegisterRequest {
        email: "a@x.com".to_string(),
        password: "p1".to_string(),
        name: "A".to_string(),
        occupation: "Eng".to_string(),
    };
    let new_user = prepare_registration(&req).unwrap();
    assert_eq!(new_user.email, "a@x.com");
    assert_ne!(new_user.password_hash, "p1");
    let user = stored(1, &new_user.email, &new_user.password_hash);
    let reg = register(&k, Ok(user), 1000).unwrap();
    assert_eq!(reg.user.id, 1);
    assert_eq!(reg.user.email, "a@x.com");
    assert_eq!(reg.user.name, "A");
    assert_eq!(reg.user.occupation, "Eng");
    assert!(k.verify_at(&reg.token, 1000).is_ok());

    let again = stored(1, "a@x.com", &new_user.password_hash);
    let lreq = LoginRequest { email: "a@x.com".to_string(), password: "p1".to_string() };
    let resp = login(&k, &lreq, Ok(again), 2000).unwrap();
    let h = format!("Bearer {}", resp.token);
    assert_eq!(authorize_at(&k, Some(&h), 2001).unwrap().subject_id(), 1);
    assert_eq!(authorize_at(&k, None, 2001).err(), Some(AuthFailure::Unauthenticated));
}

#[test]
fn unknown_email_and_wrong_password_fail_alike() {
    let k = key();
    let wrong = LoginRequest { email: "a@x.com".to_string(), password: "wrong".to_string() };
    let missing = login(&k, &wrong, Err(StoreError::NotFound), 0).err();
    let mismatch = login(&k, &wrong, Ok(stored(1, "a@x.com", KNOWN)), 0).err();
    assert_eq!(missing, Some(AuthFailure::Unauthenticated));
    assert_eq!(missing, mismatch);
    assert_eq!(missing.unwrap().status(), mismatch.unwrap().status());
}

#[test]
fn login_with_known_hash_succeeds() {
    let k = key();
    let req = LoginRequest {
        email: "a@x.com".to_string(),
        password: "correctbatteryhorsestapler".to_string(),
    };
    let resp = login(&k, &req, Ok(stored(7, "a@x.com", KNOWN)), 10).unwrap();
    assert_eq!(resp.user.id, 7);
    assert_eq!(k.verify_at(&resp.token, 10).unwrap().sub, 7);
}

#[test]
fn login_store_failure_and_bad_hash_are_internal() {
    let k = key();
    let req = LoginRequest { email: "a@x.com".to_string(), password: "p".to_string() };
    assert_eq!(login(&k, &req, Err(StoreError::Failure), 0).err(), Some(AuthFailure::Internal));
    assert_eq!(
        login(&k, &req, Ok(stored(1, "a@x.com", "bad")), 0).err(),
        Some(AuthFailure::Internal)
    );
    assert_eq!(verify_password("p", "bad"), Err(PasswordError::Verification));
}

#[test]
fn finish_login_follows_the_check() {
    let k = key();
    let u = || stored(2, "b@x.com", KNOWN);
    assert!(finish_login(&k, u(), Ok(true), 0).is_ok());
    assert_eq!(finish_login(&k, u(), Ok(false), 0).err(), Some(AuthFailure::Unauthenticated));
    assert_eq!(
        finish_login(&k, u(), Err(PasswordError::Verification), 0).err(),
        Some(AuthFailure::Internal)
    );
}

#[test]
fn register_store_outcomes() {
    let k = key();
    assert_eq!(register(&k, Err(StoreError::Conflict), 0).err(), Some(AuthFailure::Conflict));
    assert_eq!(register(&k, Err(StoreError::Failure), 0).err(), Some(AuthFailure::Internal));
}

#[test]
fn public_view_omits_hash() {
    let u = stored(4, "d@x.com", KNOWN);
    let p = u.public();
    assert_eq!(p.id, 4);
    assert_eq!(p.email, "d@x.com");
    assert_eq!(p.name, "A");
}
