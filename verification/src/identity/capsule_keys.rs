//! Capsule shared key material.
//!
//! All pieces of a capsule hold a copy of the bundle. Advertisements are encrypted with a
//! per-epoch key derived from the advertisement key; key bundles travel during pairing
//! encrypted under a key derived from the pairwise shared secret. Encrypted data is the
//! 12-byte random nonce followed by the AES-256-GCM ciphertext (body, then 16-byte tag).

use vstd::prelude::*;
use vstd::slice::slice_subrange;
use super::{IdentityError, crypto_error};
use crate::storage::crypto::{
    hkdf_sha256_32, hkdf_sha256_spec, aes_gcm_encrypt, aes_gcm_decrypt, aes_gcm_open_spec, aes_gcm_seal_spec,
    aes_gcm_max_plaintext, random_bytes, gcm_open_combined,
};

verus! {

/// Shared key material for a capsule.
#[derive(Clone, Debug)]
pub struct CapsuleKeyBundle {
    /// Capsule UUID, as its 128-bit value
    pub capsule_id: u128,
    /// Symmetric key for advertisement encryption (AES-256)
    pub advertisement_key: [u8; 32],
    /// Identity Resolving Key (IRK) for BLE address rotation
    pub irk: [u8; 16],
    /// Epoch counter for key rotation
    pub epoch: u64,
}

/// Decimal digits (ASCII) of `n`, without leading zeros.
pub open spec fn decimal_digits(n: nat) -> Seq<u8>
    decreases n,
{
    if n < 10 {
        seq![(48 + n) as u8]
    } else {
        decimal_digits(n / 10) + seq![(48 + n % 10) as u8]
    }
}

/// The bytes of "soradyne-adv-epoch-".
pub open spec fn adv_epoch_prefix() -> Seq<u8> {
    seq![115u8, 111u8, 114u8, 97u8, 100u8, 121u8, 110u8, 101u8, 45u8, 97u8, 100u8, 118u8, 45u8, 101u8, 112u8, 111u8, 99u8, 104u8, 45u8]
}

/// The bytes of "soradyne-pairing-transfer-v1".
pub open spec fn transfer_info() -> Seq<u8> {
    seq![115u8, 111u8, 114u8, 97u8, 100u8, 121u8, 110u8, 101u8, 45u8, 112u8, 97u8, 105u8, 114u8, 105u8, 110u8, 103u8, 45u8,
        116u8, 114u8, 97u8, 110u8, 115u8, 102u8, 101u8, 114u8, 45u8, 118u8, 49u8]
}

/// Advertisement key for `epoch`: HKDF-SHA256 of the base key with info
/// "soradyne-adv-epoch-" followed by the epoch in decimal.
pub open spec fn adv_key_spec(advertisement_key: Seq<u8>, epoch: u64) -> Seq<u8> {
    hkdf_sha256_spec(advertisement_key, adv_epoch_prefix() + decimal_digits(epoch as nat))
}

/// Transfer key of a pairwise shared secret.
pub open spec fn transfer_key_spec(shared_secret: Seq<u8>) -> Seq<u8> {
    hkdf_sha256_spec(shared_secret, transfer_info())
}

/// What decrypting nonce-prefixed data under `key` gives: the opening of the ciphertext
/// after the 12-byte nonce (body, then 16-byte tag), or `None`.
pub open spec fn open_envelope(key: Seq<u8>, data: Seq<u8>) -> Option<Seq<u8>> {
    if data.len() < 12 {
        None
    } else {
        gcm_open_combined(key, data.take(12), data.skip(12))
    }
}

/// `data` is `plaintext` sealed under `key` with some nonce, written as nonce, body, tag.
pub open spec fn sealed_envelope(key: Seq<u8>, data: Seq<u8>, plaintext: Seq<u8>) -> bool {
    data.len() == 12 + plaintext.len() + 16 && {
        let sealed = aes_gcm_seal_spec(key, data.take(12), plaintext);
        data.skip(12) == sealed.1 + sealed.0
    }
}

/// Appends the decimal digits of `n`.
fn push_decimal(buf: &mut Vec<u8>, n: u64)
    ensures
        final(buf)@ == old(buf)@ + decimal_digits(n as nat),
    decreases n,
{
    if n < 10 {
        buf.push(48u8 + n as u8);
    } else {
        push_decimal(buf, n / 10);
        buf.push(48u8 + (n % 10) as u8);
    }
}

/// Twelve random bytes.
fn random_nonce() -> (r: [u8; 12]) {
    let bytes = random_bytes(12);
    let mut nonce = [0u8; 12];
    let mut i: usize = 0;
    while i < 12
        invariant
            bytes@.len() == 12,
            0 <= i <= 12,
        decreases 12 - i,
    {
        nonce[i] = bytes[i];
        i = i + 1;
    }
    nonce
}

/// Encrypts under `key` with a fresh random nonce: nonce, then ciphertext.
fn seal_with_random_nonce(key: &[u8; 32], plaintext: &[u8]) -> (r: Result<Vec<u8>, IdentityError>)
    ensures
        r is Ok <==> plaintext@.len() <= aes_gcm_max_plaintext(),
        r matches Ok(data) ==> sealed_envelope(key@, data@, plaintext@) && open_envelope(key@, data@) == Some(plaintext@),
        r matches Err(e) ==> e is CryptoError,
{
    let nonce = random_nonce();
    let ciphertext = match aes_gcm_encrypt(key, &nonce, plaintext) {
        Ok(c) => c,
        Err(_) => {
            return Err(crypto_error("encryption failed"));
        },
    };
    let mut result: Vec<u8> = Vec::new();
    result.extend_from_slice(nonce.as_slice());
    result.extend_from_slice(ciphertext.as_slice());
    proof {
        let sealed = aes_gcm_seal_spec(key@, nonce@, plaintext@);
        assert(result@ =~= nonce@ + ciphertext@);
        assert(result@.take(12) =~= nonce@);
        assert(result@.skip(12) =~= ciphertext@);
        let ct = result@.skip(12);
        assert(ct.take(ct.len() - 16) =~= sealed.1);
        assert(ct.skip(ct.len() - 16) =~= sealed.0);
    }
    Ok(result)
}

/// Decrypts nonce-prefixed data under `key`.
fn open_with_nonce(key: &[u8; 32], data: &[u8]) -> (r: Result<Vec<u8>, IdentityError>)
    ensures
        r is Ok <==> open_envelope(key@, data@) is Some,
        r matches Ok(p) ==> open_envelope(key@, data@) == Some(p@),
        r matches Err(e) ==> e is CryptoError,
{
    if data.len() < 12 {
        return Err(crypto_error("ciphertext too short (missing nonce)"));
    }
    let nonce_slice = slice_subrange(data, 0, 12);
    let mut nonce = [0u8; 12];
    let mut i: usize = 0;
    while i < 12
        invariant
            nonce_slice@.len() == 12,
            0 <= i <= 12,
            forall|k: int| 0 <= k < i ==> nonce@[k] == nonce_slice@[k],
        decreases 12 - i,
    {
        nonce[i] = nonce_slice[i];
        i = i + 1;
    }
    assert(nonce@ =~= data@.take(12));
    let ciphertext = slice_subrange(data, 12, data.len());
    assert(ciphertext@ =~= data@.skip(12));
    match aes_gcm_decrypt(&key, &nonce, ciphertext) {
        Ok(p) => Ok(p),
        Err(_) => Err(crypto_error("decryption failed")),
    }
}

impl CapsuleKeyBundle {
    /// Fresh random keys for a new capsule, at epoch 0.
    pub fn generate(capsule_id: u128) -> (r: Self)
        ensures
            r.capsule_id == capsule_id,
            r.epoch == 0,
    {
        let adv = random_bytes(32);
        let mut advertisement_key = [0u8; 32];
        let mut i: usize = 0;
        while i < 32
            invariant
                adv@.len() == 32,
                0 <= i <= 32,
            decreases 32 - i,
        {
            advertisement_key[i] = adv[i];
            i = i + 1;
        }
        let irk_bytes = random_bytes(16);
        let mut irk = [0u8; 16];
        let mut j: usize = 0;
        while j < 16
            invariant
                irk_bytes@.len() == 16,
                0 <= j <= 16,
            decreases 16 - j,
        {
            irk[j] = irk_bytes[j];
            j = j + 1;
        }
        CapsuleKeyBundle { capsule_id, advertisement_key, irk, epoch: 0 }
    }

    /// The advertisement encryption key of `epoch`, derived from the base key with
    /// HKDF-SHA256.
    pub fn adv_key_for_epoch(&self, epoch: u64) -> (r: [u8; 32])
        ensures
            r@ == adv_key_spec(self.advertisement_key@, epoch),
    {
        let mut info: Vec<u8> = vec![115u8, 111u8, 114u8, 97u8, 100u8, 121u8, 110u8, 101u8, 45u8, 97u8, 100u8, 118u8, 45u8, 101u8, 112u8, 111u8, 99u8, 104u8, 45u8];
        assert(info@ =~= adv_epoch_prefix());
        push_decimal(&mut info, epoch);
        hkdf_sha256_32(self.advertisement_key.as_slice(), info.as_slice())
    }

    /// Encrypts with the advertisement key of the current epoch and a random nonce:
    /// nonce (12 bytes), then ciphertext. Decrypting the result with the same bundle gives
    /// the plaintext back.
    pub fn encrypt(&self, plaintext: &[u8]) -> (r: Result<Vec<u8>, IdentityError>)
        ensures
            r is Ok <==> plaintext@.len() <= aes_gcm_max_plaintext(),
            r matches Ok(data) ==> sealed_envelope(adv_key_spec(self.advertisement_key@, self.epoch), data@, plaintext@)
                && open_envelope(adv_key_spec(self.advertisement_key@, self.epoch), data@) == Some(plaintext@),
            r matches Err(e) ==> e is CryptoError,
    {
        let key = self.adv_key_for_epoch(self.epoch);
        seal_with_random_nonce(&key, plaintext)
    }

    /// Decrypts nonce-prefixed data with the advertisement key of the current epoch.
    pub fn decrypt(&self, data: &[u8]) -> (r: Result<Vec<u8>, IdentityError>)
        ensures
            r is Ok <==> open_envelope(adv_key_spec(self.advertisement_key@, self.epoch), data@) is Some,
            r matches Ok(p) ==> open_envelope(adv_key_spec(self.advertisement_key@, self.epoch), data@) == Some(p@),
            r matches Err(e) ==> e is CryptoError,
    {
        let key = self.adv_key_for_epoch(self.epoch);
        open_with_nonce(&key, data)
    }

    /// Encrypts for transfer during pairing under the key derived (HKDF-SHA256, info
    /// "soradyne-pairing-transfer-v1") from the pairwise shared secret.
    pub fn encrypt_for_transfer(data: &[u8], shared_secret: &[u8; 32]) -> (r: Result<Vec<u8>, IdentityError>)
        ensures
            r is Ok <==> data@.len() <= aes_gcm_max_plaintext(),
            r matches Ok(out) ==> sealed_envelope(transfer_key_spec(shared_secret@), out@, data@) && open_envelope(
                transfer_key_spec(shared_secret@),
                out@,
            ) == Some(data@),
            r matches Err(e) ==> e is CryptoError,
    {
        let key = transfer_key(shared_secret);
        seal_with_random_nonce(&key, data)
    }

    /// Decrypts data received during pairing under the key derived from the pairwise
    /// shared secret.
    pub fn decrypt_for_transfer(data: &[u8], shared_secret: &[u8; 32]) -> (r: Result<Vec<u8>, IdentityError>)
        ensures
            r is Ok <==> open_envelope(transfer_key_spec(shared_secret@), data@) is Some,
            r matches Ok(p) ==> open_envelope(transfer_key_spec(shared_secret@), data@) == Some(p@),
            r matches Err(e) ==> e is CryptoError,
    {
        if data.len() < 12 {
            return Err(crypto_error("ciphertext too short (missing nonce)"));
        }
        let key = transfer_key(shared_secret);
        open_with_nonce(&key, data)
    }
}

/// The transfer key of a pairwise shared secret.
fn transfer_key(shared_secret: &[u8; 32]) -> (r: [u8; 32])
    ensures
        r@ == transfer_key_spec(shared_secret@),
{
    let info: Vec<u8> = vec![115u8, 111u8, 114u8, 97u8, 100u8, 121u8, 110u8, 101u8, 45u8, 112u8, 97u8, 105u8, 114u8, 105u8, 110u8, 103u8, 45u8,
        116u8, 114u8, 97u8, 110u8, 115u8, 102u8, 101u8, 114u8, 45u8, 118u8, 49u8];
    assert(info@ =~= transfer_info());
    hkdf_sha256_32(shared_secret.as_slice(), info.as_slice())
}

} // verus!
