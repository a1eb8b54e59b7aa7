use soradyne_core::identity::capsule_keys::CapsuleKeyBundle;
use soradyne_core::identity::IdentityError;
use uuid::Uuid;

#[test]
fn test_generate_capsule_keys() {
    let id = Uuid::new_v4().as_u128();
    let bundle = CapsuleKeyBundle::generate(id);
    assert_eq!(bundle.capsule_id, id);
    assert_eq!(bundle.advertisement_key.len(), 32);
    assert_eq!(bundle.irk.len(), 16);
    assert_eq!(bundle.epoch, 0);
}

#[test]
fn test_epoch_key_derivation() {
    let bundle = CapsuleKeyBundle::generate(Uuid::new_v4().as_u128());
    let key0 = bundle.adv_key_for_epoch(0);
    let key1 = bundle.adv_key_for_epoch(1);
    assert_ne!(key0, key1);
    assert_eq!(key0, bundle.adv_key_for_epoch(0));
}

#[test]
fn test_encrypt_decrypt_round_trip() {
    let bundle = CapsuleKeyBundle::generate(Uuid::new_v4().as_u128());
    let plaintext = b"capsule member advertisement payload";
    let ciphertext = bundle.encrypt(plaintext).unwrap();
    let decrypted = bundle.decrypt(&ciphertext).unwrap();
    assert_eq!(decrypted, plaintext);
}

#[test]
fn test_encrypt_produces_different_ciphertext() {
    let bundle = CapsuleKeyBundle::generate(Uuid::new_v4().as_u128());
    let plaintext = b"same message twice";
    let ct1 = bundle.encrypt(plaintext).unwrap();
    let ct2 = bundle.encrypt(plaintext).unwrap();
    assert_ne!(ct1, ct2);
    assert_eq!(bundle.decrypt(&ct1).unwrap(), plaintext);
    assert_eq!(bundle.decrypt(&ct2).unwrap(), plaintext);
}

#[test]
fn test_wrong_key_fails_decrypt() {
    let bundle1 = CapsuleKeyBundle::generate(Uuid::new_v4().as_u128());
    let bundle2 = CapsuleKeyBundle::generate(Uuid::new_v4().as_u128());
    let ciphertext = bundle1.encrypt(b"secret data").unwrap();
    assert!(bundle2.decrypt(&ciphertext).is_err());
}

#[test]
fn test_pairing_transfer_encrypt_decrypt() {
    let shared_secret = [42u8; 32];
    let data = b"capsule key bundle bytes";
    let encrypted = CapsuleKeyBundle::encrypt_for_transfer(data, &shared_secret).unwrap();
    let decrypted = CapsuleKeyBundle::decrypt_for_transfer(&encrypted, &shared_secret).unwrap();
    assert_eq!(decrypted, data);
}

#[test]
fn test_pairing_transfer_wrong_secret_fails() {
    let secret_a = [1u8; 32];
    let secret_b = [2u8; 32];
    let encrypted = CapsuleKeyBundle::encrypt_for_transfer(b"capsule key bundle bytes", &secret_a).unwrap();
    assert!(CapsuleKeyBundle::decrypt_for_transfer(&encrypted, &secret_b).is_err());
}

#[test]
fn ciphertext_layout_is_nonce_body_tag() {
    let bundle = CapsuleKeyBundle::generate(1);
    let ct = bundle.encrypt(b"abc").unwrap();
    assert_eq!(ct.len(), 12 + 3 + 16);
    let empty = bundle.encrypt(b"").unwrap();
    assert_eq!(empty.len(), 28);
    assert_eq!(bundle.decrypt(&empty).unwrap(), Vec::<u8>::new());
}

#[test]
fn short_input_is_a_crypto_error() {
    let bundle = CapsuleKeyBundle::generate(1);
    assert!(matches!(bundle.decrypt(&[0u8; 11]), Err(IdentityError::CryptoError(_))));
    // A nonce but no tag
    assert!(matches!(bundle.decrypt(&[0u8; 20]), Err(IdentityError::CryptoError(_))));
    assert!(matches!(CapsuleKeyBundle::decrypt_for_transfer(&[0u8; 5], &[0u8; 32]), Err(IdentityError::CryptoError(_))));
}

#[test]
fn tampered_ciphertext_fails() {
    let bundle = CapsuleKeyBundle::generate(1);
    let mut ct = bundle.encrypt(b"payload").unwrap();
    let last = ct.len() - 1;
    ct[last] ^= 1;
    assert!(bundle.decrypt(&ct).is_err());
}

#[test]
fn epoch_changes_the_key_used() {
    let mut bundle = CapsuleKeyBundle::generate(1);
    let ct = bundle.encrypt(b"epoch zero").unwrap();
    bundle.epoch = 12;
    assert!(bundle.decrypt(&ct).is_err());
    let ct12 = bundle.encrypt(b"epoch twelve").unwrap();
    assert_eq!(bundle.decrypt(&ct12).unwrap(), b"epoch twelve");
}
