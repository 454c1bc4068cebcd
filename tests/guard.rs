use user_auth::guard::{auth_middleware, authorize_at, bearer_of, AuthFailure};
use user_auth::token::{TokenKey, TOKEN_TTL_SECS};

fn key() -> TokenKey {
    TokenKey::new(b"guard-secret".to_vec()).unwrap()
}

#[test]
fn bearer_prefix_is_exact() {
    assert_eq!(bearer_of("Bearer abc"), Some("abc"));
    assert_eq!(bearer_of("Bearer "), Some(""));
    assert_eq!(bearer_of("bearer abc"), None);
    assert_eq!(bearer_of("Bearer"), None);
    assert_eq!(bearer_of("Basic xyz"), None);
}

#[test]
fn valid_bearer_token_attaches_claims() {
    let k = key();
    let t = k.issue_at(11, "a@x.com", 50);
    let h = format!("Bearer {}", t);
    let ctx = authorize_at(&k, Some(&h), 60).unwrap();
    assert_eq!(ctx.subject_id(), 11);
    assert_eq!(ctx.claims().email, "a@x.com");
}

#[test]
fn missing_wrong_scheme_and_expired_are_refused_alike() {
    let k = key();
    let t = k.issue_at(11, "a@x.com", 50);
    let expired = format!("Bearer {}", t);
    let later = 50 + TOKEN_TTL_SECS + 1;
    let a = authorize_at(&k, None, later).err();
    let b = authorize_at(&k, Some("Basic xyz"), later).err();
    let c = authorize_at(&k, Some(&expired), later).err();
    assert_eq!(a, Some(AuthFailure::Unauthenticated));
    assert_eq!(a, b);
    assert_eq!(b, c);
    assert_eq!(AuthFailure::Unauthenticated.status(), 401);
}

#[test]
fn tampered_bearer_token_is_refused() {
    let k = key();
    let t = k.issue_at(11, "a@x.com", 50);
    let h = format!("Bearer {}x", t);
    assert_eq!(authorize_at(&k, Some(&h), 60).err(), Some(AuthFailure::Unauthenticated));
    let h2 = format!("Bearer  {}", t);
    assert_eq!(authorize_at(&k, Some(&h2), 60).err(), Some(AuthFailure::Unauthenticated));
}

#[test]
fn middleware_uses_the_clock() {
    let k = key();
    let t = k.issue(5, "c@z.net");
    let h = format!("Bearer {}", t);
    assert_eq!(auth_middleware(&k, Some(&h)).unwrap().subject_id(), 5);
    let old = format!("Bearer {}", k.issue_at(5, "c@z.net", 0));
    assert_eq!(auth_middleware(&k, Some(&old)).err(), Some(AuthFailure::Unauthenticated));
    assert_eq!(auth_middleware(&k, None).err(), Some(AuthFailure::Unauthenticated));
}

#[test]
fn failure_statuses() {
    assert_eq!(AuthFailure::Conflict.status(), 409);
    assert_eq!(AuthFailure::Internal.status(), 500);
}
