//! Credential checking.
//!
//! Password hashing and the login route live outside the core; what the
//! core states is the credential decision: a login proceeds exactly when a
//! user row was found and the password matches its stored Argon2 hash. The
//! hash comparison itself is the outside library's; everything around it is
//! verified against the name [`password_matches`].

use vstd::prelude::*;

use argon2::PasswordVerifier;

use crate::message::User;

verus! {

/// Credentials as a login request carries them.
pub struct LoginRequest {
    pub username: String,
    pub password: String,
}

/// Whether a password matches a stored PHC hash string under Argon2. The
/// outcome is a function of the two strings alone: the hash string carries
/// the salt and parameters, and verification recomputes the hash.
pub uninterp spec fn password_matches(password: Seq<char>, hash: Seq<char>) -> bool;

/// Relies on argon2's `PasswordVerifier<str>::verify_password`: it parses
/// the PHC hash string, recomputes Argon2 over the password with the salt
/// and parameters the string carries, and compares.
#[verifier::external_body]
pub fn verify_password(password: &str, hashstr: &str) -> (r: bool)
    ensures
        r == password_matches(password@, hashstr@),
{
    argon2::Argon2::default().verify_password(password.as_bytes(), hashstr).is_ok()
}

/// The credential decision of a login: a user row was found and the
/// password matches its stored hash. A missing user and a wrong password
/// are indistinguishable to the caller, as the reply never says which.
pub fn credentials_ok(user: Option<&User>, password: &str) -> (r: bool)
    ensures
        r == match user {
            Some(u) => password_matches(password@, u.password_hash@),
            None => false,
        },
{
    match user {
        Some(u) => verify_password(password, u.password_hash.as_str()),
        None => false,
    }
}

} // verus!
