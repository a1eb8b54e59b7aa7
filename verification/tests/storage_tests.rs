use soradyne_core::StorageStatus;
use soradyne_core::storage::block_hex::{block_id_hex, decode_block_id};
use soradyne_core::storage::backends::DissolutionStorageFactory;
use soradyne_core::storage::block_manager::{
    BlockMetadataStore, BlockDistribution, ShardInfo, StorageInfo, DemonstrationResult, parse_addresses, ids_equal,
    encode_addresses,
};
use soradyne_core::storage::dissolution::{DissolutionFile, DissolutionDemo, ReconstructionStats};
use soradyne_core::flow::error::FlowError;
use std::path::PathBuf;

#[test]
fn storage_status_counts_missing_devices() {
    let s = StorageStatus::from_devices(vec!["/a".to_string()], 3);
    assert_eq!(s.available_devices, 1);
    assert_eq!(s.required_threshold, 3);
    assert!(!s.can_read_data);
    assert_eq!(s.missing_devices, 2);
    let s = StorageStatus::from_devices(vec!["/a".into(), "/b".into(), "/c".into(), "/d".into()], 3);
    assert!(s.can_read_data);
    assert_eq!(s.missing_devices, 0);
    assert_eq!(s.device_paths.len(), 4);
}

#[test]
fn backends_always_include_erasure() {
    assert_eq!(DissolutionStorageFactory::available_backends(false, false), vec!["sdyn_erasure".to_string()]);
    assert_eq!(
        DissolutionStorageFactory::available_backends(true, true),
        vec!["sdyn_erasure".to_string(), "bcachefs".to_string(), "zfs".to_string()]
    );
    assert_eq!(DissolutionStorageFactory::available_backends(false, true), vec!["sdyn_erasure".to_string(), "zfs".to_string()]);
}

#[test]
fn metadata_store_keeps_last_metadata_per_block() {
    let mut store: BlockMetadataStore<u32> = BlockMetadataStore::new(PathBuf::from("/tmp/blocks.json"));
    let a = [1u8; 32];
    let b = [2u8; 32];
    assert!(matches!(store.get_block(&a), Err(FlowError::PersistenceError(_))));
    store.add_block(a, 10);
    store.add_block(b, 20);
    store.add_block(a, 11);
    assert_eq!(*store.get_block(&a).unwrap(), 11);
    assert_eq!(*store.get_block(&b).unwrap(), 20);
    assert_eq!(store.entries().len(), 2);
    assert_eq!(store.metadata_path(), &PathBuf::from("/tmp/blocks.json"));
}

#[test]
fn addresses_come_in_32_byte_groups() {
    let mut data = vec![7u8; 32];
    data.extend_from_slice(&[9u8; 32]);
    let ids = parse_addresses(&data).unwrap();
    assert_eq!(ids, vec![[7u8; 32], [9u8; 32]]);
    assert!(parse_addresses(&[]).unwrap().is_empty());
    assert!(matches!(parse_addresses(&[0u8; 33]), Err(FlowError::PersistenceError(_))));
}

#[test]
fn block_ids_compare_bytewise() {
    let a = [3u8; 32];
    let mut b = a;
    assert!(ids_equal(&a, &b));
    b[31] = 4;
    assert!(!ids_equal(&a, &b));
}

#[test]
fn distribution_reconstructs_from_threshold() {
    let shard = ShardInfo { index: 0, device_path: "/a".into(), file_path: "/a/x.shard".into(), size: 10 };
    let d = BlockDistribution::from_shards([0u8; 32], 5, vec![shard.clone(), shard.clone(), shard], vec![3, 4], 3, 99);
    assert!(d.can_reconstruct);
    assert_eq!(d.missing_shards, vec![3, 4]);
    assert_eq!(d.original_size, 99);
    let d = BlockDistribution::from_shards([0u8; 32], 5, vec![], vec![0, 1, 2, 3, 4], 3, 99);
    assert!(!d.can_reconstruct);
}

#[test]
fn reconstruction_stats_classify_blocks() {
    let stats = ReconstructionStats::from_available_counts(&[Some(3), Some(5), Some(2), Some(3), Some(0), None], 3);
    assert_eq!(stats.blocks_at_risk, 2);
    assert_eq!(stats.blocks_safe, 1);
    assert_eq!(stats.blocks_lost, 3);
}

#[test]
fn dissolution_file_tracks_root_and_size() {
    let mut f = DissolutionFile::new("backend");
    assert_eq!(f.root_block(), None);
    assert_eq!(f.size(), 0);
    assert!(f.record_write(Ok([5u8; 32]), 1234).is_ok());
    assert_eq!(f.root_block(), Some([5u8; 32]));
    assert_eq!(f.size(), 1234);
    assert!(f.record_write(Err(FlowError::PersistenceError("full".to_string())), 9).is_err());
    assert_eq!(f.root_block(), Some([5u8; 32]));
    assert_eq!(f.size(), 1234);
    assert_eq!(*f.storage(), "backend");
    let g = DissolutionFile::from_existing(7u8, [6u8; 32], 42);
    assert_eq!(g.root_block(), Some([6u8; 32]));
    assert_eq!(g.size(), 42);
}

#[test]
fn records_hold_their_fields() {
    let info = StorageInfo { total_devices: 2, threshold: 1, total_shards: 2, rimsd_paths: vec![PathBuf::from("/x")] };
    assert_eq!(info.clone().rimsd_paths.len(), 1);
    let demo = DissolutionDemo {
        block_id: [0u8; 32],
        original_shards: 5,
        simulated_missing: vec![1],
        available_shards: 4,
        threshold_required: 3,
        can_reconstruct: true,
        reconstruction_successful: true,
        data_integrity_verified: true,
        recovered_data_size: 10,
    };
    assert_eq!(demo.clone().available_shards, 4);
    let r = DemonstrationResult {
        original_shards: 5,
        simulated_missing: vec![0, 1],
        available_shards: 3,
        threshold_required: 3,
        recovery_successful: true,
        recovered_data_size: 7,
    };
    assert_eq!(r.simulated_missing.len(), 2);
}

#[test]
fn indirect_block_addresses_round_trip() {
    let ids = vec![[1u8; 32], [2u8; 32], [250u8; 32]];
    let bytes = encode_addresses(&ids);
    assert_eq!(bytes.len(), 96);
    assert_eq!(&bytes[32..64], &[2u8; 32]);
    assert_eq!(parse_addresses(&bytes).unwrap(), ids);
    assert!(encode_addresses(&[]).is_empty());
}

#[test]
fn block_ids_are_written_as_lower_case_hex() {
    let mut id = [0u8; 32];
    id[0] = 0xab;
    id[31] = 0x0f;
    let text = block_id_hex(&id);
    assert_eq!(text.len(), 64);
    assert!(text.starts_with("ab00"));
    assert!(text.ends_with("000f"));
    assert_eq!(decode_block_id(&text), Some(id));
    assert_eq!(decode_block_id(&text.to_uppercase()), Some(id));
}

#[test]
fn malformed_block_id_hex_is_refused() {
    assert_eq!(decode_block_id(&"0".repeat(63)), None);
    assert_eq!(decode_block_id(&"0".repeat(66)), None);
    let mut bad = "0".repeat(64);
    bad.replace_range(10..11, "g");
    assert_eq!(decode_block_id(&bad), None);
}

#[test]
fn metadata_entries_are_read_by_hex_id() {
    let id = [7u8; 32];
    let entries = vec![(block_id_hex(&id), 5u32)];
    let store = BlockMetadataStore::from_hex_entries(PathBuf::from("/tmp/meta.json"), entries).unwrap();
    assert_eq!(*store.get_block(&id).unwrap(), 5);
    let bad = vec![("xyz".to_string(), 1u32)];
    match BlockMetadataStore::from_hex_entries(PathBuf::from("/tmp/meta.json"), bad) {
        Err(FlowError::PersistenceError(_)) => {}
        _ => panic!("expected a persistence error"),
    }
}

#[test]
fn metadata_reads_the_same_in_any_order() {
    let (a, b) = ([1u8; 32], [2u8; 32]);
    let forward = vec![(block_id_hex(&a), 10u32), (block_id_hex(&b), 20u32)];
    let backward = vec![(block_id_hex(&b), 20u32), (block_id_hex(&a), 10u32)];
    let s1 = BlockMetadataStore::from_hex_entries(PathBuf::from("/tmp/m.json"), forward).unwrap();
    let s2 = BlockMetadataStore::from_hex_entries(PathBuf::from("/tmp/m.json"), backward).unwrap();
    for id in [a, b] {
        assert_eq!(s1.get_block(&id).unwrap(), s2.get_block(&id).unwrap());
    }
}
