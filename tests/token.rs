use user_auth::token::{TokenError, TokenKey, TOKEN_TTL_SECS};

fn key() -> TokenKey {
    TokenKey::new(b"topsecret".to_vec()).unwrap()
}

#[test]
fn empty_secret_is_refused() {
    assert!(TokenKey::new(Vec::new()).is_none());
    assert!(TokenKey::new(vec![0u8]).is_some());
}

#[test]
fn issued_token_has_exact_text() {
    let t = key().issue_at(1, "a@x.com", 0);
    assert_eq!(
        t,
        "HS256.800000010000000000000000000000000001518000006100004000007800002e00006300006f00006d.\
         4f60b924ee0e3b78bd0318fe8ea6a173a98a1dfcb7c4dfb8de851d71c365d1ab"
    );
}

#[test]
fn token_has_three_dot_separated_parts() {
    let k = key();
    for email in ["a@x.com", "first.last@mail.example.org", ""] {
        let t = k.issue_at(8, email, 0);
        let parts: Vec<&str> = t.split('.').collect();
        assert_eq!(parts.len(), 3, "{}", t);
        assert_eq!(parts[0], "HS256");
        assert_eq!(parts[2].len(), 64);
    }
}

#[test]
fn issued_token_verifies_to_its_claims() {
    let k = key();
    let t = k.issue_at(42, "a@x.com", 1_700_000_000);
    let c = k.verify_at(&t, 1_700_000_000).unwrap();
    assert_eq!(c.sub, 42);
    assert_eq!(c.email, "a@x.com");
    assert_eq!(c.issued_at, 1_700_000_000);
    assert_eq!(c.expires_at, 1_700_000_000 + TOKEN_TTL_SECS);
    assert!(c.expires_at > 1_700_000_000);
    let last = k.verify_at(&t, 1_700_000_000 + TOKEN_TTL_SECS).unwrap();
    assert_eq!(last.sub, 42);
}

#[test]
fn extreme_ids_and_odd_emails_round_trip() {
    let k = key();
    for (id, email) in [(i32::MIN, ""), (i32::MAX, "x.y.z@q.r"), (-5, "ü.ñ@例え.jp"), (0, "a.b")] {
        let t = k.issue_at(id, email, 5);
        let c = k.verify_at(&t, 6).unwrap();
        assert_eq!(c.sub, id);
        assert_eq!(c.email, email);
    }
}

#[test]
fn issue_now_verifies_now() {
    let k = key();
    let t = k.issue(9, "b@y.org");
    let c = k.verify(&t).unwrap();
    assert_eq!(c.sub, 9);
    assert_eq!(c.email, "b@y.org");
    assert_eq!(c.expires_at, c.issued_at + TOKEN_TTL_SECS);
}

#[test]
fn every_single_character_change_is_refused() {
    let k = key();
    let t = k.issue_at(3, "a@x.com", 100);
    let chars: Vec<char> = t.chars().collect();
    for i in 0..chars.len() {
        let mut changed = chars.clone();
        changed[i] = if chars[i] == 'a' { 'b' } else { 'a' };
        let u: String = changed.into_iter().collect();
        assert!(k.verify_at(&u, 100).is_err(), "position {}", i);
    }
}

#[test]
fn expired_token_is_classified_as_expired() {
    let k = key();
    let t = k.issue_at(3, "a@x.com", 100);
    assert_eq!(k.verify_at(&t, 100 + TOKEN_TTL_SECS + 1).err(), Some(TokenError::Expired));
}

#[test]
fn token_under_another_key_is_invalid() {
    let t = key().issue_at(3, "a@x.com", 100);
    let other = TokenKey::new(b"othersecret".to_vec()).unwrap();
    assert_eq!(other.verify_at(&t, 100).err(), Some(TokenError::Invalid));
}

#[test]
fn malformed_tokens_are_invalid() {
    let k = key();
    for t in [
        "",
        "HS256.",
        "not.a.token",
        "HS256.zz000001000000000000000000000000000151800a@x.com.00",
        "HS256.80000001000000000000000000000000000151800000610000400.00",
        "HS256.800000010000000000000000000000000001518000d800.00",
    ] {
        assert_eq!(k.verify_at(t, 0).err(), Some(TokenError::Invalid));
    }
    let t = k.issue_at(3, "a@x.com", 100);
    let truncated = &t[..t.len() - 2];
    assert_eq!(k.verify_at(truncated, 100).err(), Some(TokenError::Invalid));
    let upper = t.to_uppercase();
    assert_eq!(k.verify_at(&upper, 100).err(), Some(TokenError::Invalid));
}
