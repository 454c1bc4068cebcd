//! The register and login decisions. The store that holds the records is
//! outside the library: the caller performs its operations and hands their
//! outcomes in.
use crate::guard::AuthFailure;
use crate::model::{LoginRequest, LoginResponse, NewUser, RegisterRequest, User, is_public_view};
use crate::password::{PasswordError, hash_password, password_check, verify_password};
use crate::token::{TOKEN_TTL_SECS, TokenKey, issued_claims, token_text};
use vstd::prelude::*;

verus! {

/// How a store operation failed.
#[derive(Clone, Copy, Debug, PartialEq, Eq, Structural)]
pub enum StoreError {
    /// No record matches.
    NotFound,
    /// A record with that email exists already.
    Conflict,
    /// Any other storage failure.
    Failure,
}

/// `resp` answers a successful login or registration of `u` at `now`.
pub open spec fn is_response_for(resp: LoginResponse, key: Seq<u8>, u: User, now: u64) -> bool {
    &&& resp.token@ == token_text(key, issued_claims(u.id, u.email@, now))
    &&& is_public_view(resp.user, u)
}

/// The record to create for a registration: the request's fields, with a
/// salted hash of the password in its place.
pub fn prepare_registration(req: &RegisterRequest) -> (r: Result<NewUser, AuthFailure>)
    ensures
        match r {
            Ok(nu) => {
                &&& nu.email@ == req.email@
                &&& nu.name@ == req.name@
                &&& nu.occupation@ == req.occupation@
                &&& password_check(req.password@, nu.password_hash@) == Ok::<bool, PasswordError>(
                    true,
                )
            },
            Err(e) => e == AuthFailure::Internal,
        },
{
    match hash_password(req.password.as_str()) {
        Ok(password_hash) => Ok(
            NewUser {
                email: req.email.clone(),
                password_hash,
                name: req.name.clone(),
                occupation: req.occupation.clone(),
            },
        ),
        Err(_) => Err(AuthFailure::Internal),
    }
}

/// Why a registration fails, given what the store's create gave.
pub open spec fn register_failure(created: Result<User, StoreError>) -> Option<AuthFailure> {
    match created {
        Ok(_) => None,
        Err(StoreError::Conflict) => Some(AuthFailure::Conflict),
        Err(_) => Some(AuthFailure::Internal),
    }
}

/// Answers a registration once the store has tried to create the record: a
/// token and the public profile of the new user.
pub fn register(key: &TokenKey, created: Result<User, StoreError>, now: u64) -> (r: Result<
    LoginResponse,
    AuthFailure,
>)
    requires
        now <= u64::MAX - TOKEN_TTL_SECS,
    ensures
        match register_failure(created) {
            Some(e) => r == Err::<LoginResponse, AuthFailure>(e),
            None => r matches Ok(resp) && is_response_for(resp, key@, created->Ok_0, now),
        },
{
    match created {
        Ok(user) => Ok(respond(key, &user, now)),
        Err(StoreError::Conflict) => Err(AuthFailure::Conflict),
        Err(_) => Err(AuthFailure::Internal),
    }
}

fn respond(key: &TokenKey, user: &User, now: u64) -> (r: LoginResponse)
    requires
        now <= u64::MAX - TOKEN_TTL_SECS,
    ensures
        is_response_for(r, key@, *user, now),
{
    let token = key.issue_at(user.id, user.email.as_str(), now);
    LoginResponse { token, user: user.public() }
}

/// Why a login fails, given the outcome of the password check.
pub open spec fn check_failure(check: Result<bool, PasswordError>) -> Option<AuthFailure> {
    match check {
        Ok(true) => None,
        Ok(false) => Some(AuthFailure::Unauthenticated),
        Err(_) => Some(AuthFailure::Internal),
    }
}

/// Why a login with `password` fails, given what the store's lookup by
/// email gave.
pub open spec fn login_failure(found: Result<User, StoreError>, password: Seq<char>) -> Option<
    AuthFailure,
> {
    match found {
        Ok(u) => check_failure(password_check(password, u.password_hash@)),
        Err(StoreError::NotFound) => Some(AuthFailure::Unauthenticated),
        Err(_) => Some(AuthFailure::Internal),
    }
}

/// Answers a login for the stored `user` once its password has been checked.
pub fn finish_login(key: &TokenKey, user: User, check: Result<bool, PasswordError>, now: u64) -> (r:
    Result<LoginResponse, AuthFailure>)
    requires
        now <= u64::MAX - TOKEN_TTL_SECS,
    ensures
        match check_failure(check) {
            Some(e) => r == Err::<LoginResponse, AuthFailure>(e),
            None => r matches Ok(resp) && is_response_for(resp, key@, user, now),
        },
{
    match check {
        Ok(true) => Ok(respond(key, &user, now)),
        Ok(false) => Err(AuthFailure::Unauthenticated),
        Err(_) => Err(AuthFailure::Internal),
    }
}

/// Answers a login once the store has looked the email up: a token and the
/// public profile where the password matches the stored hash. An unknown
/// email and a wrong password get the same answer.
pub fn login(key: &TokenKey, req: &LoginRequest, found: Result<User, StoreError>, now: u64) -> (r:
    Result<LoginResponse, AuthFailure>)
    requires
        now <= u64::MAX - TOKEN_TTL_SECS,
    ensures
        match login_failure(found, req.password@) {
            Some(e) => r == Err::<LoginResponse, AuthFailure>(e),
            None => r matches Ok(resp) && is_response_for(resp, key@, found->Ok_0, now),
        },
{
    match found {
        Ok(user) => {
            let check = verify_password(req.password.as_str(), user.password_hash.as_str());
            finish_login(key, user, check, now)
        },
        Err(StoreError::NotFound) => Err(AuthFailure::Unauthenticated),
        Err(_) => Err(AuthFailure::Internal),
    }
}

/// A login with an email that the store does not hold and a login with a
/// wrong password for a stored user fail with the same answer.
pub proof fn lemma_login_failures_alike(u: User, password: Seq<char>)
    requires
        password_check(password, u.password_hash@) == Ok::<bool, PasswordError>(false),
    ensures
        login_failure(Err(StoreError::NotFound), password) == login_failure(Ok(u), password),
        login_failure(Ok(u), password) == Some(AuthFailure::Unauthenticated),
{
}

/// A stored user whose hash checks against `password`, as the hash that
/// `prepare_registration` makes does, logs in with that password.
pub proof fn lemma_registered_password_logs_in(u: User, password: Seq<char>)
    requires
        password_check(password, u.password_hash@) == Ok::<bool, PasswordError>(true),
    ensures
        login_failure(Ok(u), password) is None,
{
}

} // verus!
