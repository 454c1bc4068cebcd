//! Authentication core of a user-record service: password hashing, signed
//! bearer tokens, the authorization guard in front of protected operations,
//! and the register / login decisions.
pub mod hex;
pub mod password;
pub mod token;
pub mod model;
pub mod guard;
pub mod flow;
