//! A minimal identity and credential library.
//!
//! A plaintext secret is never stored: [`password::Password::generate`]
//! obfuscates it as a salted keyed hash, and [`password::Password::matches`]
//! re-derives the hash to validate a login attempt. [`codec`] gives the
//! credential its canonical serialized text form, and [`source`] turns a
//! table of such records into an identity verifier and mutator.

use vstd::prelude::*;

pub mod codec;
pub mod password;
pub mod source;

verus! {

/// The closed set of roles an identity record may carry. There is no default:
/// a deployment without role-awareness simply leaves the field unset.
#[derive(Debug, Clone, Copy, PartialEq, Eq, Structural)]
pub enum Role {
    Admin,
    Standard,
    Guest,
}

/// An identity record: a unique username, the obfuscated credential stored in
/// place of the plaintext secret, and an optional role.
#[derive(Debug, Clone)]
pub struct User {
    pub username: String,
    pub password: crate::password::Password,
    pub role: Option<Role>,
}

} // verus!
