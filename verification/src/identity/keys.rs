//! Per-device cryptographic identity: a stable UUID, an Ed25519 signing key and an X25519
//! key-agreement secret. Keys are held as their 32 raw bytes; the curve operations are
//! those of `ed25519-dalek` and `x25519-dalek`.

use vstd::prelude::*;
use ed25519_dalek::{Signer, SigningKey, Verifier, VerifyingKey, Signature};
use rand::rngs::OsRng;
use x25519_dalek::{PublicKey as X25519PublicKey, StaticSecret as X25519Secret};
use uuid::Uuid;
use crate::storage::block_hex::hex_char;

verus! {

/// Ed25519 public (verifying) key of a secret key.
pub uninterp spec fn ed25519_public_spec(secret: Seq<u8>) -> Seq<u8>;

/// Ed25519 signature of a message under a secret key (Ed25519 signing is deterministic).
pub uninterp spec fn ed25519_sign_spec(secret: Seq<u8>, message: Seq<u8>) -> Seq<u8>;

/// Whether a signature verifies for a message under a public key given as bytes (false
/// when the bytes are no valid public key).
pub uninterp spec fn ed25519_verify_spec(public: Seq<u8>, message: Seq<u8>, signature: Seq<u8>) -> bool;

/// X25519 public key of a static secret.
pub uninterp spec fn x25519_public_spec(secret: Seq<u8>) -> Seq<u8>;

/// X25519 shared secret of a static secret and a peer's public key.
pub uninterp spec fn x25519_dh_spec(secret: Seq<u8>, peer_public: Seq<u8>) -> Seq<u8>;

/// Hex digit `i` (0 to 31, most significant first) of a UUID's 128-bit value.
pub open spec fn uuid_nibble(id: u128, i: int) -> u8 {
    ((id >> ((124 - 4 * i) as u128)) & 0xfu128) as u8
}

/// The lower-case hex digits `from` to `to` (exclusive) of a UUID.
pub open spec fn uuid_digits(id: u128, from: int, to: int) -> Seq<char> {
    Seq::new((to - from) as nat, |k: int| hex_char(uuid_nibble(id, from + k)))
}

/// Hyphenated lowercase text of a UUID: its 32 hex digits, most significant first, in
/// groups of 8, 4, 4, 4 and 12 joined by hyphens.
pub open spec fn uuid_text_spec(id: u128) -> Seq<char> {
    uuid_digits(id, 0, 8) + seq!['-'] + uuid_digits(id, 8, 12) + seq!['-'] + uuid_digits(id, 12, 16)
        + seq!['-'] + uuid_digits(id, 16, 20) + seq!['-'] + uuid_digits(id, 20, 32)
}

/// `SigningKey::generate` with the operating system's generator: 32 random secret bytes.
#[verifier::external_body]
fn ed25519_generate() -> (r: [u8; 32]) {
    SigningKey::generate(&mut OsRng).to_bytes()
}

/// `SigningKey::from_bytes(secret).verifying_key().to_bytes()`.
#[verifier::external_body]
fn ed25519_public(secret: &[u8; 32]) -> (r: [u8; 32])
    ensures
        r@ == ed25519_public_spec(secret@),
{
    SigningKey::from_bytes(secret).verifying_key().to_bytes()
}

/// `Signer::sign` with `SigningKey::from_bytes(secret)`: the 64-byte signature, which
/// verifies for the message under the key's public key.
#[verifier::external_body]
fn ed25519_sign(secret: &[u8; 32], message: &[u8]) -> (r: [u8; 64])
    ensures
        r@ == ed25519_sign_spec(secret@, message@),
        ed25519_verify_spec(ed25519_public_spec(secret@), message@, r@),
{
    SigningKey::from_bytes(secret).sign(message).to_bytes()
}

/// `VerifyingKey::from_bytes(public)` then `Verifier::verify` of
/// `Signature::from_bytes(signature)`: whether the signature verifies (false when the
/// public key bytes are invalid).
#[verifier::external_body]
fn ed25519_verify(public: &[u8; 32], message: &[u8], signature: &[u8; 64]) -> (r: bool)
    ensures
        r == ed25519_verify_spec(public@, message@, signature@),
{
    match VerifyingKey::from_bytes(public) {
        Ok(key) => key.verify(message, &Signature::from_bytes(signature)).is_ok(),
        Err(_) => false,
    }
}

/// `StaticSecret::random_from_rng` with the operating system's generator: 32 random bytes.
#[verifier::external_body]
fn x25519_generate() -> (r: [u8; 32]) {
    X25519Secret::random_from_rng(OsRng).to_bytes()
}

/// `PublicKey::from(&StaticSecret::from(secret)).to_bytes()`. Diffie-Hellman agrees: any
/// secret combined with this public key gives what this secret gives with that secret's
/// public key.
#[verifier::external_body]
fn x25519_public(secret: &[u8; 32]) -> (r: [u8; 32])
    ensures
        r@ == x25519_public_spec(secret@),
        forall|other: Seq<u8>|
            #![trigger x25519_dh_spec(other, r@)]
            other.len() == 32 ==> x25519_dh_spec(other, r@) == x25519_dh_spec(secret@, x25519_public_spec(other)),
{
    X25519PublicKey::from(&X25519Secret::from(*secret)).to_bytes()
}

/// `StaticSecret::from(secret).diffie_hellman(&PublicKey::from(peer_public)).to_bytes()`.
#[verifier::external_body]
fn x25519_agree(secret: &[u8; 32], peer_public: &[u8; 32]) -> (r: [u8; 32])
    ensures
        r@ == x25519_dh_spec(secret@, peer_public@),
{
    X25519Secret::from(*secret).diffie_hellman(&X25519PublicKey::from(*peer_public)).to_bytes()
}

/// Whether `id` is a random UUID: version 4 (the version nibble, bits 76 to 79, is 4)
/// of the RFC 4122 variant (bits 63 and 62 are 1 and 0).
pub open spec fn is_random_uuid(id: u128) -> bool {
    &&& (id >> 76u128) & 0xfu128 == 4u128
    &&& (id >> 62u128) & 3u128 == 2u128
}

/// `Uuid::new_v4().as_u128()`: a random UUID whose version and variant bits are set
/// to version 4 of the RFC 4122 variant, the other bits random.
#[verifier::external_body]
fn new_uuid() -> (r: u128)
    ensures
        is_random_uuid(r),
{
    Uuid::new_v4().as_u128()
}

/// `Uuid::from_u128(id).to_string()`.
#[verifier::external_body]
fn uuid_text(id: u128) -> (r: String)
    ensures
        r@ == uuid_text_spec(id),
{
    Uuid::from_u128(id).to_string()
}

/// A device's cryptographic identity.
pub struct DeviceIdentity {
    /// Stable UUID for this device, as its 128-bit value
    device_id: u128,
    /// Ed25519 secret key bytes
    signing_key: [u8; 32],
    /// X25519 static secret bytes
    dh_secret: [u8; 32],
}

impl DeviceIdentity {
    /// The device UUID.
    pub closed spec fn id_spec(&self) -> u128 {
        self.device_id
    }

    /// The Ed25519 secret key.
    pub closed spec fn signing_spec(&self) -> Seq<u8> {
        self.signing_key@
    }

    /// The X25519 secret.
    pub closed spec fn dh_spec(&self) -> Seq<u8> {
        self.dh_secret@
    }

    /// A new identity with a random (version 4) UUID and random keys.
    pub fn generate() -> (r: Self)
        ensures
            is_random_uuid(r.id_spec()),
    {
        let signing_key = ed25519_generate();
        let dh_secret = x25519_generate();
        DeviceIdentity { device_id: new_uuid(), signing_key, dh_secret }
    }

    /// The identity with the given UUID and key bytes (as a keystore holds them).
    pub fn from_key_bytes(device_id: u128, signing_key: [u8; 32], dh_secret: [u8; 32]) -> (r: Self)
        ensures
            r.id_spec() == device_id,
            r.signing_spec() == signing_key@,
            r.dh_spec() == dh_secret@,
    {
        DeviceIdentity { device_id, signing_key, dh_secret }
    }

    /// The device UUID.
    pub fn device_id(&self) -> (r: u128)
        ensures
            r == self.id_spec(),
    {
        self.device_id
    }

    /// The device UUID as text.
    pub fn device_id_string(&self) -> (r: String)
        ensures
            r@ == uuid_text_spec(self.id_spec()),
    {
        uuid_text(self.device_id)
    }

    /// The Ed25519 public key.
    pub fn verifying_key(&self) -> (r: [u8; 32])
        ensures
            r@ == ed25519_public_spec(self.signing_spec()),
    {
        ed25519_public(&self.signing_key)
    }

    /// The Ed25519 public key bytes.
    pub fn verifying_key_bytes(&self) -> (r: [u8; 32])
        ensures
            r@ == ed25519_public_spec(self.signing_spec()),
    {
        self.verifying_key()
    }

    /// The X25519 public key.
    pub fn dh_public(&self) -> (r: [u8; 32])
        ensures
            r@ == x25519_public_spec(self.dh_spec()),
            forall|other: Seq<u8>|
                #![trigger x25519_dh_spec(other, r@)]
                other.len() == 32 ==> x25519_dh_spec(other, r@) == x25519_dh_spec(self.dh_spec(), x25519_public_spec(other)),
    {
        x25519_public(&self.dh_secret)
    }

    /// The X25519 public key bytes.
    pub fn dh_public_bytes(&self) -> (r: [u8; 32])
        ensures
            r@ == x25519_public_spec(self.dh_spec()),
    {
        self.dh_public()
    }

    /// X25519 shared secret with a peer's public key.
    pub fn dh_agree(&self, peer_public: &[u8; 32]) -> (r: [u8; 32])
        ensures
            r@ == x25519_dh_spec(self.dh_spec(), peer_public@),
    {
        x25519_agree(&self.dh_secret, peer_public)
    }

    /// Ed25519 signature of `data`; it verifies under this identity's public key.
    pub fn sign(&self, data: &[u8]) -> (r: [u8; 64])
        ensures
            r@ == ed25519_sign_spec(self.signing_spec(), data@),
            ed25519_verify_spec(ed25519_public_spec(self.signing_spec()), data@, r@),
    {
        ed25519_sign(&self.signing_key, data)
    }

    /// Whether `signature` verifies for `data` under this identity's public key.
    pub fn verify(&self, data: &[u8], signature: &[u8; 64]) -> (r: bool)
        ensures
            r == ed25519_verify_spec(ed25519_public_spec(self.signing_spec()), data@, signature@),
    {
        let key = self.verifying_key();
        ed25519_verify(&key, data, signature)
    }

    /// Whether `signature` verifies for `data` under the public key `key`.
    pub fn verify_with_key(data: &[u8], signature: &[u8; 64], key: &[u8; 32]) -> (r: bool)
        ensures
            r == ed25519_verify_spec(key@, data@, signature@),
    {
        ed25519_verify(key, data, signature)
    }

    /// The secret key bytes, for a keystore.
    pub fn signing_key_bytes(&self) -> (r: [u8; 32])
        ensures
            r@ == self.signing_spec(),
    {
        self.signing_key
    }

    /// The X25519 secret bytes, for a keystore.
    pub fn dh_key_bytes(&self) -> (r: [u8; 32])
        ensures
            r@ == self.dh_spec(),
    {
        self.dh_secret
    }
}

} // verus!
