//! Cryptographic identity for devices and capsules.

pub mod capsule_keys;
pub mod keys;
pub mod auth;

use vstd::prelude::*;

verus! {

/// Errors of the identity layer.
#[derive(Debug)]
pub enum IdentityError {
    IoError(String),
    SerializationError(String),
    DeserializationError(String),
    CryptoError(String),
    InvalidKeyMaterial(String),
}

/// A cryptographic error carrying `message`.
pub fn crypto_error(message: &str) -> (e: IdentityError)
    ensures
        e matches IdentityError::CryptoError(m) && m@ == message@,
{
    IdentityError::CryptoError(message.to_string())
}

} // verus!
