use soradyne_core::storage::device_identity::{BasicFingerprint, sort_blocks, opt_str_eq, compare_fingerprints, Evidence};

#[test]
fn test_basic_fingerprint_creation() {
    let fingerprint = BasicFingerprint::new(
        Some("soradyne-device-123".to_string()),
        Some("test-hw-id".to_string()),
        Some("test-fs-uuid".to_string()),
        &[1047, 2891, 4203],
        32 * 1024 * 1024 * 1024,
    );

    assert_eq!(fingerprint.soradyne_device_id, Some("soradyne-device-123".to_string()));
    assert_eq!(fingerprint.hardware_id, Some("test-hw-id".to_string()));
    assert_eq!(fingerprint.capacity_bytes, 32 * 1024 * 1024 * 1024);
    assert_ne!(fingerprint.bad_block_signature, 0);
}

#[test]
fn bad_block_signature_ignores_order() {
    let a = BasicFingerprint::hash_bad_blocks(&[3, 1, 2]);
    let b = BasicFingerprint::hash_bad_blocks(&[1, 2, 3]);
    assert_eq!(a, b);
    assert_ne!(a, BasicFingerprint::hash_bad_blocks(&[1, 2, 4]));
}

#[test]
fn bad_block_signature_of_nothing() {
    // First 8 bytes of SHA-256 of the empty string, little-endian: e3 b0 c4 42 98 fc 1c 14.
    assert_eq!(BasicFingerprint::hash_bad_blocks(&[]), 0x141cfc9842c4b0e3);
}

#[test]
fn blocks_sort_ascending() {
    assert_eq!(sort_blocks(&[5, 1, 5, 0, 9]), vec![0, 1, 5, 5, 9]);
    assert_eq!(sort_blocks(&[]), Vec::<u64>::new());
}

fn fp(dev: Option<&str>, hw: Option<&str>, fs: Option<&str>, cap: u64, blocks: &[u64]) -> BasicFingerprint {
    BasicFingerprint::new(dev.map(|s| s.to_string()), hw.map(|s| s.to_string()), fs.map(|s| s.to_string()), blocks, cap)
}

#[test]
fn evolution_keeps_identifiers() {
    let prev = fp(Some("dev"), Some("hw"), Some("fs"), 100, &[1]);
    // New bad blocks are fine.
    assert_eq!(fp(Some("dev"), Some("hw"), Some("fs"), 100, &[1, 2]).is_valid_evolution(&prev).unwrap(), true);
    assert_eq!(fp(Some("other"), Some("hw"), Some("fs"), 100, &[1]).is_valid_evolution(&prev).unwrap(), false);
    assert_eq!(fp(Some("dev"), None, Some("fs"), 100, &[1]).is_valid_evolution(&prev).unwrap(), false);
    assert_eq!(fp(Some("dev"), Some("hw"), Some("fs2"), 100, &[1]).is_valid_evolution(&prev).unwrap(), false);
    assert_eq!(fp(Some("dev"), Some("hw"), Some("fs"), 101, &[1]).is_valid_evolution(&prev).unwrap(), false);
}

#[test]
fn optional_strings_compare_by_content() {
    assert!(opt_str_eq(&None, &None));
    assert!(opt_str_eq(&Some("a".to_string()), &Some("a".to_string())));
    assert!(!opt_str_eq(&Some("a".to_string()), &None));
    assert!(!opt_str_eq(&Some("a".to_string()), &Some("ab".to_string())));
}

#[test]
fn fingerprints_are_compared_field_by_field() {
    let current = BasicFingerprint::new(Some("dev".to_string()), None, Some("fs1".to_string()), &[], 10);
    let previous = BasicFingerprint::new(Some("dev".to_string()), Some("hw".to_string()), Some("fs2".to_string()), &[3], 10);
    let e = compare_fingerprints(&current, &previous);
    assert_eq!(e.soradyne_device_id, Evidence::Matches);
    assert_eq!(e.hardware_id, Evidence::Unavailable);
    assert_eq!(e.filesystem_uuid, Evidence::Differs);
    assert_eq!(e.bad_blocks, Evidence::Differs);
    assert_eq!(e.capacity, Evidence::Matches);
}
