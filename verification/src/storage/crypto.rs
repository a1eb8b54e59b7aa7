//! Cryptographic primitives from outside crates: SHA-256 (`sha2`), HKDF-SHA256 (`hkdf`),
//! AES-256-GCM (`aes-gcm`) and randomness (`rand`). Their results are named, not defined: what is
//! stated beside the names are the lengths and the round trip of AES-GCM.

use vstd::prelude::*;
use aes_gcm::{Aes256Gcm, Key, KeyInit, AeadInPlace, Nonce, Tag};
use aes_gcm::aead::Aead;
use hkdf::Hkdf;
use aes_gcm::Error as AeadError;
use sha2::{Sha256, Digest};
use rand::Rng;
use rand::RngCore;

verus! {

#[verifier::external_type_specification]
#[verifier::external_body]
pub struct ExAeadError(AeadError);

/// SHA-256 digest of a byte string.
pub uninterp spec fn sha256_spec(data: Seq<u8>) -> Seq<u8>;

/// AES-256-GCM encryption with empty associated data: the tag and the ciphertext body.
pub uninterp spec fn aes_gcm_seal_spec(key: Seq<u8>, nonce: Seq<u8>, plaintext: Seq<u8>) -> (Seq<u8>, Seq<u8>);

/// AES-256-GCM decryption with empty associated data of a ciphertext body and its tag:
/// the plaintext, or `None` when the tag does not authenticate the ciphertext.
pub uninterp spec fn aes_gcm_open_spec(key: Seq<u8>, nonce: Seq<u8>, ciphertext: Seq<u8>, tag: Seq<u8>) -> Option<Seq<u8>>;

/// Largest plaintext that AES-GCM accepts (2^36 bytes).
pub open spec fn aes_gcm_max_plaintext() -> int {
    0x10_0000_0000
}

/// Largest ciphertext body that AES-GCM accepts (2^36 + 16 bytes).
pub open spec fn aes_gcm_max_ciphertext() -> int {
    0x10_0000_0010
}

/// `Sha256::digest`: the 32-byte SHA-256 digest of `data`.
#[verifier::external_body]
pub fn sha256(data: &[u8]) -> (r: [u8; 32])
    ensures
        r@ == sha256_spec(data@),
{
    Sha256::digest(data).into()
}

/// `AeadInPlace::encrypt_in_place_detached` for AES-256-GCM under `key` and `nonce`, with no
/// associated data: the 16-byte tag and the ciphertext body (as long as the plaintext).
/// It fails only for plaintexts longer than 2^36 bytes. Decrypting the result with the
/// same key and nonce gives the plaintext back.
#[verifier::external_body]
pub fn aes_gcm_seal_detached(key: &[u8; 32], nonce: &[u8; 12], plaintext: &[u8]) -> (r: Result<(Vec<u8>, Vec<u8>), AeadError>)
    ensures
        r is Ok <==> plaintext@.len() <= aes_gcm_max_plaintext(),
        r matches Ok((tag, body)) ==> {
            &&& (tag@, body@) == aes_gcm_seal_spec(key@, nonce@, plaintext@)
            &&& tag@.len() == 16
            &&& body@.len() == plaintext@.len()
            &&& aes_gcm_open_spec(key@, nonce@, body@, tag@) == Some(plaintext@)
        },
{
    let cipher = Aes256Gcm::new(Key::<Aes256Gcm>::from_slice(key));
    let mut body = plaintext.to_vec();
    let tag = cipher.encrypt_in_place_detached(Nonce::from_slice(nonce), b"", &mut body)?;
    Ok((tag.to_vec(), body))
}

/// `AeadInPlace::decrypt_in_place_detached` for AES-256-GCM under `key` and `nonce`, with no
/// associated data: the plaintext of a ciphertext body and its 16-byte tag (decrypted in
/// place, so as long as the body), or an error when the tag does not authenticate it.
#[verifier::external_body]
pub fn aes_gcm_open_detached(key: &[u8; 32], nonce: &[u8; 12], body: &[u8], tag: &[u8]) -> (r: Result<Vec<u8>, AeadError>)
    requires
        tag@.len() == 16,
    ensures
        r is Ok <==> aes_gcm_open_spec(key@, nonce@, body@, tag@) is Some,
        r matches Ok(p) ==> aes_gcm_open_spec(key@, nonce@, body@, tag@) == Some(p@) && p@.len() == body@.len(),
        body@.len() > aes_gcm_max_ciphertext() ==> r is Err,
{
    let cipher = Aes256Gcm::new(Key::<Aes256Gcm>::from_slice(key));
    let mut plain = body.to_vec();
    cipher.decrypt_in_place_detached(Nonce::from_slice(nonce), b"", &mut plain, Tag::from_slice(tag))?;
    Ok(plain)
}

/// HKDF-SHA256 without salt: 32 bytes of output keying material for `ikm` and `info`.
pub uninterp spec fn hkdf_sha256_spec(ikm: Seq<u8>, info: Seq<u8>) -> Seq<u8>;

/// `Hkdf::<Sha256>::new(None, ikm)` then `expand(info, ..)` into 32 bytes (32 bytes is
/// well below the 255 * 32 bytes that `expand` accepts, so it does not fail).
#[verifier::external_body]
pub fn hkdf_sha256_32(ikm: &[u8], info: &[u8]) -> (r: [u8; 32])
    ensures
        r@ == hkdf_sha256_spec(ikm@, info@),
{
    let mut okm = [0u8; 32];
    Hkdf::<Sha256>::new(None, ikm).expand(info, &mut okm).expect("32 bytes is a valid HKDF-SHA256 output length");
    okm
}

/// `Aead::encrypt` for AES-256-GCM under `key` and `nonce`, without associated data: the
/// ciphertext body followed by the 16-byte tag (the crate encrypts in place detached, then
/// appends the tag). It fails only for plaintexts longer than 2^36 bytes.
#[verifier::external_body]
pub fn aes_gcm_encrypt(key: &[u8; 32], nonce: &[u8; 12], plaintext: &[u8]) -> (r: Result<Vec<u8>, AeadError>)
    ensures
        r is Ok <==> plaintext@.len() <= aes_gcm_max_plaintext(),
        r matches Ok(ct) ==> {
            let sealed = aes_gcm_seal_spec(key@, nonce@, plaintext@);
            &&& ct@ == sealed.1 + sealed.0
            &&& sealed.0.len() == 16
            &&& sealed.1.len() == plaintext@.len()
            &&& aes_gcm_open_spec(key@, nonce@, sealed.1, sealed.0) == Some(plaintext@)
        },
{
    let cipher = Aes256Gcm::new(Key::<Aes256Gcm>::from_slice(key));
    cipher.encrypt(Nonce::from_slice(nonce), plaintext)
}

/// Opening of a combined ciphertext (body, then 16-byte tag): `None` for fewer than 16
/// bytes, else the opening of the body with the last 16 bytes as tag.
pub open spec fn gcm_open_combined(key: Seq<u8>, nonce: Seq<u8>, ciphertext: Seq<u8>) -> Option<Seq<u8>> {
    if ciphertext.len() < 16 {
        None
    } else {
        aes_gcm_open_spec(key, nonce, ciphertext.take(ciphertext.len() - 16), ciphertext.skip(ciphertext.len() - 16))
    }
}

/// `Aead::decrypt` for AES-256-GCM under `key` and `nonce`, without associated data: the
/// last 16 bytes are the tag, the bytes before them the ciphertext body. It fails on fewer
/// than 16 bytes or when the tag does not authenticate the body.
#[verifier::external_body]
pub fn aes_gcm_decrypt(key: &[u8; 32], nonce: &[u8; 12], ciphertext: &[u8]) -> (r: Result<Vec<u8>, AeadError>)
    ensures
        r is Ok <==> gcm_open_combined(key@, nonce@, ciphertext@) is Some,
        r matches Ok(p) ==> gcm_open_combined(key@, nonce@, ciphertext@) == Some(p@),
{
    let cipher = Aes256Gcm::new(Key::<Aes256Gcm>::from_slice(key));
    cipher.decrypt(Nonce::from_slice(nonce), ciphertext)
}

/// `Rng::gen::<[u8; 32]>` on the thread-local generator: 32 random bytes.
#[verifier::external_body]
pub fn random_array32() -> (r: [u8; 32]) {
    rand::thread_rng().gen()
}

/// `RngCore::fill_bytes` on the thread-local generator: `len` random bytes.
#[verifier::external_body]
pub fn random_bytes(len: usize) -> (r: Vec<u8>)
    ensures
        r@.len() == len,
{
    let mut buf = vec![0u8; len];
    rand::thread_rng().fill_bytes(&mut buf);
    buf
}

} // verus!
