//! The authorization guard in front of protected operations.
use crate::token::{
    Claims, ClaimsModel, TOKEN_TTL_SECS, TokenKey, claims_of_token, issued_claims,
    lemma_expired_token, lemma_issue_then_verify, token_text, unix_time,
    verify_outcome,
};
use vstd::prelude::*;

verus! {

/// How a request fails at the service boundary.
#[derive(Clone, Copy, Debug, PartialEq, Eq, Structural)]
pub enum AuthFailure {
    /// No valid credentials; never says which check failed.
    Unauthenticated,
    /// The email is already registered.
    Conflict,
    /// A hashing or storage failure.
    Internal,
}

impl AuthFailure {
    /// The HTTP status that answers this failure.
    pub fn status(&self) -> (r: u16)
        ensures
            r == match *self {
                AuthFailure::Unauthenticated => 401u16,
                AuthFailure::Conflict => 409u16,
                AuthFailure::Internal => 500u16,
            },
    {
        match self {
            AuthFailure::Unauthenticated => 401,
            AuthFailure::Conflict => 409,
            AuthFailure::Internal => 500,
        }
    }
}

/// Verified claims attached to a request. Only the guard makes one.
pub struct AuthContext {
    claims: Claims,
}

impl View for AuthContext {
    type V = ClaimsModel;

    closed spec fn view(&self) -> ClaimsModel {
        self.claims@
    }
}

impl AuthContext {
    /// The verified claims.
    pub fn claims(&self) -> (r: &Claims)
        ensures
            r@ == self@,
    {
        &self.claims
    }

    /// The id of the caller, as the token gives it.
    pub fn subject_id(&self) -> (r: i32)
        ensures
            r == self@.sub,
    {
        self.claims.sub
    }
}

pub open spec fn bearer_prefix() -> Seq<char> {
    seq!['B', 'e', 'a', 'r', 'e', 'r', ' ']
}

/// The token of an `Authorization` header value in the bearer scheme.
pub open spec fn bearer_token(h: Seq<char>) -> Option<Seq<char>> {
    if h.len() >= 7 && h.subrange(0, 7) == bearer_prefix() {
        Some(h.subrange(7, h.len() as int))
    } else {
        None
    }
}

/// What the guard decides for an `Authorization` header at time `now`.
pub open spec fn guard_outcome(key: Seq<u8>, header: Option<Seq<char>>, now: u64) -> Result<
    ClaimsModel,
    AuthFailure,
> {
    match header {
        None => Err(AuthFailure::Unauthenticated),
        Some(h) => match bearer_token(h) {
            None => Err(AuthFailure::Unauthenticated),
            Some(t) => match verify_outcome(key, t, now) {
                Ok(c) => Ok(c),
                Err(_) => Err(AuthFailure::Unauthenticated),
            },
        },
    }
}

pub open spec fn header_view(header: Option<&str>) -> Option<Seq<char>> {
    match header {
        None => None,
        Some(h) => Some(h@),
    }
}

/// The token that follows `Bearer ` in a header value.
pub fn bearer_of(h: &str) -> (r: Option<&str>)
    ensures
        match r {
            Some(t) => bearer_token(h@) == Some(t@),
            None => bearer_token(h@) is None,
        },
{
    let n = h.unicode_len();
    if n < 7 {
        return None;
    }
    if h.get_char(0) == 'B' && h.get_char(1) == 'e' && h.get_char(2) == 'a' && h.get_char(3)
        == 'r' && h.get_char(4) == 'e' && h.get_char(5) == 'r' && h.get_char(6) == ' ' {
        assert(h@.subrange(0, 7) =~= bearer_prefix());
        Some(h.substring_char(7, n))
    } else {
        assert(h@.subrange(0, 7) != bearer_prefix()) by {
            if h@.subrange(0, 7) == bearer_prefix() {
                assert(h@.subrange(0, 7)[0] == 'B');
                assert(h@.subrange(0, 7)[1] == 'e');
                assert(h@.subrange(0, 7)[2] == 'a');
                assert(h@.subrange(0, 7)[3] == 'r');
                assert(h@.subrange(0, 7)[4] == 'e');
                assert(h@.subrange(0, 7)[5] == 'r');
                assert(h@.subrange(0, 7)[6] == ' ');
            }
        }
        None
    }
}

/// The guard at time `now`: the verified claims of a request whose
/// `Authorization` header is `Bearer <token>` with a genuine, unexpired token;
/// `Unauthenticated` otherwise.
pub fn authorize_at(key: &TokenKey, header: Option<&str>, now: u64) -> (r: Result<
    AuthContext,
    AuthFailure,
>)
    ensures
        match r {
            Ok(ctx) => guard_outcome(key@, header_view(header), now) == Ok::<
                ClaimsModel,
                AuthFailure,
            >(ctx@),
            Err(e) => guard_outcome(key@, header_view(header), now) == Err::<
                ClaimsModel,
                AuthFailure,
            >(e),
        },
{
    match header {
        None => Err(AuthFailure::Unauthenticated),
        Some(h) => match bearer_of(h) {
            None => Err(AuthFailure::Unauthenticated),
            Some(t) => match key.verify_at(t, now) {
                Ok(claims) => Ok(AuthContext { claims }),
                Err(_) => Err(AuthFailure::Unauthenticated),
            },
        },
    }
}

/// The guard, checked against the current time.
pub fn auth_middleware(key: &TokenKey, header: Option<&str>) -> (r: Result<
    AuthContext,
    AuthFailure,
>)
    ensures
        r is Ok ==> exists|now: u64| #[trigger]
            guard_outcome(key@, header_view(header), now) == Ok::<ClaimsModel, AuthFailure>(
                r->Ok_0@,
            ),
        r is Err ==> r == Err::<AuthContext, AuthFailure>(AuthFailure::Unauthenticated),
        header_view(header) matches Some(h) && bearer_token(h) is None ==> r is Err,
        header is None ==> r is Err,
        header_view(header) matches Some(h) && bearer_token(h) matches Some(t) && claims_of_token(
            key@,
            t,
        ) matches Some(c) && c.expires_at >= i64::MAX ==> r is Ok,
{
    let now = unix_time();
    authorize_at(key, header, now)
}


/// A request with no `Authorization` header, one whose header is in another
/// scheme than `Bearer `, and one that bears a genuine token past its expiry
/// are refused alike, as unauthenticated.
pub proof fn lemma_guard_refusals(key: Seq<u8>, other: Seq<char>, c: ClaimsModel, now: u64)
    requires
        bearer_token(other) is None,
        now > c.expires_at,
    ensures
        guard_outcome(key, None, now) == Err::<ClaimsModel, AuthFailure>(
            AuthFailure::Unauthenticated,
        ),
        guard_outcome(key, Some(other), now) == Err::<ClaimsModel, AuthFailure>(
            AuthFailure::Unauthenticated,
        ),
        guard_outcome(key, Some(bearer_prefix() + token_text(key, c)), now) == Err::<
            ClaimsModel,
            AuthFailure,
        >(AuthFailure::Unauthenticated),
{
    let h = bearer_prefix() + token_text(key, c);
    assert(h.subrange(0, 7) =~= bearer_prefix());
    assert(h.subrange(7, h.len() as int) =~= token_text(key, c));
    lemma_expired_token(key, c, now);
}

/// A request that bears a token issued at `now` passes the guard at any time
/// up to its expiry, with the claims the token was issued with.
pub proof fn lemma_guard_admits_issued(
    key: Seq<u8>,
    sub: i32,
    email: Seq<char>,
    now: u64,
    later: u64,
)
    requires
        now <= u64::MAX - TOKEN_TTL_SECS,
        later <= now + TOKEN_TTL_SECS,
    ensures
        guard_outcome(
            key,
            Some(bearer_prefix() + token_text(key, issued_claims(sub, email, now))),
            later,
        ) == Ok::<ClaimsModel, AuthFailure>(issued_claims(sub, email, now)),
{
    let t = token_text(key, issued_claims(sub, email, now));
    let h = bearer_prefix() + t;
    assert(h.subrange(0, 7) =~= bearer_prefix());
    assert(h.subrange(7, h.len() as int) =~= t);
    lemma_issue_then_verify(key, sub, email, now, later);
}

} // verus!
