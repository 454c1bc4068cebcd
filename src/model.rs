//! The user records and the request and response bodies around them.
use vstd::prelude::*;

verus! {

/// A stored user record. `created_at` is in Unix seconds.
pub struct User {
    pub id: i32,
    pub email: String,
    pub password_hash: String,
    pub name: String,
    pub occupation: String,
    pub created_at: Option<i64>,
}

/// The profile fields that an update may change.
pub struct UserInfo {
    pub name: String,
    pub occupation: String,
}

pub struct RegisterRequest {
    pub email: String,
    pub password: String,
    pub name: String,
    pub occupation: String,
}

pub struct LoginRequest {
    pub email: String,
    pub password: String,
}

pub struct LoginResponse {
    pub token: String,
    pub user: UserPublic,
}

/// The outward view of a user: everything but the password hash.
pub struct UserPublic {
    pub id: i32,
    pub email: String,
    pub name: String,
    pub occupation: String,
}

/// A record for the store to create: the hash stands where the password was.
pub struct NewUser {
    pub email: String,
    pub password_hash: String,
    pub name: String,
    pub occupation: String,
}

/// `p` shows the public fields of `u`.
pub open spec fn is_public_view(p: UserPublic, u: User) -> bool {
    &&& p.id == u.id
    &&& p.email@ == u.email@
    &&& p.name@ == u.name@
    &&& p.occupation@ == u.occupation@
}

impl User {
    /// The public profile of this user.
    pub fn public(&self) -> (r: UserPublic)
        ensures
            is_public_view(r, *self),
    {
        UserPublic {
            id: self.id,
            email: self.email.clone(),
            name: self.name.clone(),
            occupation: self.occupation.clone(),
        }
    }
}

} // verus!
