use soradyne_core::identity::keys::DeviceIdentity;
use soradyne_core::identity::auth::DeviceAuthenticator;
use std::sync::Arc;
use uuid::Uuid;

#[test]
fn test_generate_identity() {
    let id = DeviceIdentity::generate();
    assert_eq!(Uuid::from_u128(id.device_id()).get_version(), Some(uuid::Version::Random));
    assert_ne!(id.verifying_key_bytes(), [0u8; 32]);
    assert_ne!(id.dh_public_bytes(), [0u8; 32]);
}

#[test]
fn test_sign_and_verify() {
    let id = DeviceIdentity::generate();
    let message = b"hello, rim protocol";

    let sig = id.sign(message);
    assert!(id.verify(message, &sig));

    assert!(!id.verify(b"wrong message", &sig));
}

#[test]
fn test_verify_with_external_key() {
    let id = DeviceIdentity::generate();
    let message = b"test data";
    let sig = id.sign(message);
    let vk = id.verifying_key();

    assert!(DeviceIdentity::verify_with_key(message, &sig, &vk));
    assert!(!DeviceIdentity::verify_with_key(b"tampered", &sig, &vk));
}

#[test]
fn test_ecdh_agreement() {
    let alice = DeviceIdentity::generate();
    let bob = DeviceIdentity::generate();

    let shared_ab = alice.dh_agree(&bob.dh_public());
    let shared_ba = bob.dh_agree(&alice.dh_public());

    assert_eq!(shared_ab, shared_ba);
    assert_ne!(shared_ab, [0u8; 32]);
}

#[test]
fn test_ecdh_different_peers() {
    let alice = DeviceIdentity::generate();
    let bob = DeviceIdentity::generate();
    let charlie = DeviceIdentity::generate();

    let ab = alice.dh_agree(&bob.dh_public());
    let ac = alice.dh_agree(&charlie.dh_public());

    assert_ne!(ab, ac);
}

#[test]
fn identity_from_key_bytes_keeps_keys() {
    let original = DeviceIdentity::generate();
    let copy = DeviceIdentity::from_key_bytes(original.device_id(), original.signing_key_bytes(), original.dh_key_bytes());
    assert_eq!(copy.device_id(), original.device_id());
    assert_eq!(copy.verifying_key_bytes(), original.verifying_key_bytes());
    assert_eq!(copy.dh_public_bytes(), original.dh_public_bytes());
    let msg = b"persistence test";
    let sig = copy.sign(msg);
    assert!(original.verify(msg, &sig));
    // Ed25519 signatures are deterministic.
    assert_eq!(sig, original.sign(msg));
}

#[test]
fn device_id_text_is_hyphenated() {
    let id = DeviceIdentity::from_key_bytes(0x0123456789abcdef0123456789abcdef, [1u8; 32], [2u8; 32]);
    assert_eq!(id.device_id_string(), "01234567-89ab-cdef-0123-456789abcdef");
}

fn json(name: &str, value: u64) -> Vec<u8> {
    serde_json::to_vec(&(name, value)).unwrap()
}

#[test]
fn test_sign_and_verify_flow_data() {
    let identity = Arc::new(DeviceIdentity::generate());
    let auth = DeviceAuthenticator::new(identity);
    let data = json("task_count", 42);
    let sig = auth.sign(&data);
    assert!(auth.verify(&data, &sig));
}

#[test]
fn test_tampered_data_fails_verification() {
    let identity = Arc::new(DeviceIdentity::generate());
    let auth = DeviceAuthenticator::new(identity);
    let sig = auth.sign(&json("count", 10));
    assert!(!auth.verify(&json("count", 11), &sig));
}

#[test]
fn test_wrong_identity_fails_verification() {
    let auth_alice = DeviceAuthenticator::new(Arc::new(DeviceIdentity::generate()));
    let auth_bob = DeviceAuthenticator::new(Arc::new(DeviceIdentity::generate()));
    let data = json("test", 1);
    let sig = auth_alice.sign(&data);
    assert!(!auth_bob.verify(&data, &sig));
}

#[test]
fn test_invalid_signature_bytes() {
    let auth = DeviceAuthenticator::new(Arc::new(DeviceIdentity::generate()));
    let data = json("x", 0);
    assert!(!auth.verify(&data, &[0u8; 10]));
    assert!(!auth.verify(&data, &[0u8; 64]));
}

#[test]
fn generated_device_ids_are_version_4_uuids() {
    for _ in 0..8 {
        let id = DeviceIdentity::generate().device_id();
        assert_eq!((id >> 76) & 0xf, 4);
        assert_eq!((id >> 62) & 3, 2);
    }
}
