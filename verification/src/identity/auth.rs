//! Flow authentication backed by device identity: Ed25519 signatures over the JSON
//! encoding of flow data.

use vstd::prelude::*;
use std::sync::Arc;
use super::keys::{DeviceIdentity, ed25519_public_spec, ed25519_verify_spec, ed25519_sign_spec};

verus! {

/// Signs and checks flow data with a device's Ed25519 key.
pub struct DeviceAuthenticator {
    identity: Arc<DeviceIdentity>,
}

impl DeviceAuthenticator {
    /// The device whose key signs.
    pub closed spec fn identity_spec(&self) -> DeviceIdentity {
        *self.identity
    }

    pub fn new(identity: Arc<DeviceIdentity>) -> (r: Self)
        ensures
            r.identity_spec() == *identity,
    {
        DeviceAuthenticator { identity }
    }

    /// The signature (64 bytes) of the JSON encoding of some flow data; it verifies.
    pub fn sign(&self, json: &[u8]) -> (r: Vec<u8>)
        ensures
            r@.len() == 64,
            r@ == ed25519_sign_spec(self.identity_spec().signing_spec(), json@),
            ed25519_verify_spec(ed25519_public_spec(self.identity_spec().signing_spec()), json@, r@),
    {
        let sig = self.identity.sign(json);
        let mut out: Vec<u8> = Vec::new();
        out.extend_from_slice(sig.as_slice());
        assert(out@ =~= sig@);
        out
    }

    /// Whether `signature` is a 64-byte signature that verifies for the JSON encoding of
    /// some flow data under this device's key.
    pub fn verify(&self, json: &[u8], signature: &[u8]) -> (r: bool)
        ensures
            r == (signature@.len() == 64 && ed25519_verify_spec(
                ed25519_public_spec(self.identity_spec().signing_spec()),
                json@,
                signature@,
            )),
    {
        if signature.len() != 64 {
            return false;
        }
        let mut sig = [0u8; 64];
        let mut i: usize = 0;
        while i < 64
            invariant
                signature@.len() == 64,
                0 <= i <= 64,
                forall|k: int| 0 <= k < i ==> sig@[k] == signature@[k],
            decreases 64 - i,
        {
            sig[i] = signature[i];
            i = i + 1;
        }
        assert(sig@ =~= signature@);
        self.identity.verify(json, &sig)
    }
}

} // verus!
