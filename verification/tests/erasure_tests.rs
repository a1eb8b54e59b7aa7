use soradyne_core::storage::erasure::{ShamirErasureEncoder, ShardWithKey, KeyShare, CHUNK_SIZE, StreamingDecoder};
use soradyne_core::flow::error::FlowError;
use soradyne_core::storage::galois::GF256;

fn shard_map(shards: Vec<ShardWithKey>) -> Vec<(usize, ShardWithKey)> {
    shards.into_iter().enumerate().collect()
}

fn read_all_chunks(decoder: &mut StreamingDecoder) -> Vec<u8> {
    let mut reconstructed = Vec::new();
    while let Some(chunk) = decoder.read_chunk().unwrap() {
        reconstructed.extend(chunk);
    }
    reconstructed
}

#[test]
fn test_key_sharing_basic() {
    let encoder = ShamirErasureEncoder::new(3, 5).unwrap();
    let original_key = [42u8; 32];

    let shares = encoder.split_secret(&original_key).unwrap();
    assert_eq!(shares.len(), 5);

    let reconstructed_key = encoder.reconstruct_secret(&shares[..3]).unwrap();
    assert_eq!(reconstructed_key, original_key);

    let subset_shares = [shares[0].clone(), shares[2].clone(), shares[4].clone()];
    let reconstructed_key2 = encoder.reconstruct_secret(&subset_shares).unwrap();
    assert_eq!(reconstructed_key2, original_key);
}

#[test]
fn test_key_sharing_insufficient_shares() {
    let encoder = ShamirErasureEncoder::new(3, 5).unwrap();
    let original_key = [123u8; 32];

    let shares = encoder.split_secret(&original_key).unwrap();

    let result = encoder.reconstruct_secret(&shares[..2]);
    assert!(result.is_err());
}

#[test]
fn test_key_sharing_all_different_keys() {
    let encoder = ShamirErasureEncoder::new(3, 5).unwrap();

    let test_keys = [
        [0u8; 32],
        [255u8; 32],
        [1, 2, 3, 4, 5, 6, 7, 8, 9, 10, 11, 12, 13, 14, 15, 16,
         17, 18, 19, 20, 21, 22, 23, 24, 25, 26, 27, 28, 29, 30, 31, 32],
    ];

    for (i, &original_key) in test_keys.iter().enumerate() {
        println!("Testing key {}: {:?}", i, &original_key[..8]);

        let shares = encoder.split_secret(&original_key).unwrap();
        let reconstructed = encoder.reconstruct_secret(&shares[..3]).unwrap();

        assert_eq!(reconstructed, original_key, "Failed for key {}", i);
    }
}

#[test]
fn test_encode_decode_basic() {
    let encoder = ShamirErasureEncoder::new(3, 5).unwrap();
    let original_data = b"Hello, Shamir + Reed-Solomon world! This is a test of the new secure erasure coding system.";
    let block_id = [1u8; 32];

    let shards = encoder.encode(original_data, &block_id).unwrap();
    assert_eq!(shards.len(), 5);

    let map = shard_map(shards);
    let mut decoder = encoder.decode_with_streaming(map, &block_id, original_data.len()).unwrap();
    let decoded = decoder.reconstruct_all().unwrap();
    assert_eq!(decoded, original_data);
}

#[test]
fn test_fault_tolerance() {
    let encoder = ShamirErasureEncoder::new(3, 5).unwrap();
    let original_data = b"This is fault tolerance testing with Shamir secret sharing!";
    let block_id = [2u8; 32];

    let shards = encoder.encode(original_data, &block_id).unwrap();

    let map = vec![(0, shards[0].clone()), (2, shards[2].clone()), (4, shards[4].clone())];

    let mut decoder = encoder.decode_with_streaming(map, &block_id, original_data.len()).unwrap();
    let decoded = decoder.reconstruct_all().unwrap();
    assert_eq!(decoded, original_data);
}

#[test]
fn test_streaming_chunks() {
    let encoder = ShamirErasureEncoder::new(3, 5).unwrap();
    let original_data = vec![42u8; CHUNK_SIZE * 3 + 1000];
    let block_id = [3u8; 32];

    let shards = encoder.encode(&original_data, &block_id).unwrap();

    let mut decoder = encoder.decode_with_streaming(shard_map(shards), &block_id, original_data.len()).unwrap();

    let reconstructed = read_all_chunks(&mut decoder);
    assert_eq!(reconstructed, original_data);
}

// ---------------------------------------------------------------------------
// Parameters
// ---------------------------------------------------------------------------

fn is_persistence_error<T>(r: &Result<T, FlowError>) -> bool {
    matches!(r, Err(FlowError::PersistenceError(_)))
}

#[test]
fn encoder_rejects_invalid_parameters() {
    assert!(is_persistence_error(&ShamirErasureEncoder::new(0, 5)));
    assert!(is_persistence_error(&ShamirErasureEncoder::new(3, 0)));
    assert!(is_persistence_error(&ShamirErasureEncoder::new(6, 5)));
    assert!(is_persistence_error(&ShamirErasureEncoder::new(3, 256)));
    // No parity shard: Reed-Solomon needs at least one.
    assert!(is_persistence_error(&ShamirErasureEncoder::new(5, 5)));
    let e = ShamirErasureEncoder::new(1, 255).unwrap();
    assert_eq!(e.threshold(), 1);
    assert_eq!(e.total_shards(), 255);
    assert_eq!(e.fault_tolerance(), 254);
}

#[test]
fn fault_tolerance_is_total_minus_threshold() {
    let e = ShamirErasureEncoder::new(3, 5).unwrap();
    assert_eq!(e.fault_tolerance(), 2);
    let e = ShamirErasureEncoder::new(4, 10).unwrap();
    assert_eq!(e.fault_tolerance(), 6);
}

// ---------------------------------------------------------------------------
// Shamir sharing with given coefficients
// ---------------------------------------------------------------------------

#[test]
fn split_with_zero_coefficients_repeats_the_secret() {
    let e = ShamirErasureEncoder::new(3, 5).unwrap();
    let secret = [9u8; 32];
    let shares = e.split_secret_with(&secret, &[0u8; 64]);
    assert_eq!(shares.len(), 5);
    for (i, s) in shares.iter().enumerate() {
        assert_eq!(s.index as usize, i + 1);
        assert_eq!(s.value, vec![9u8; 32]);
    }
}

#[test]
fn split_with_coefficients_evaluates_polynomials() {
    let gf = GF256::new();
    let e = ShamirErasureEncoder::new(2, 4).unwrap();
    let mut secret = [0u8; 32];
    for (b, v) in secret.iter_mut().enumerate() {
        *v = b as u8;
    }
    let coeffs: Vec<u8> = (0..32).map(|b| (b as u8).wrapping_mul(7).wrapping_add(1)).collect();
    let shares = e.split_secret_with(&secret, &coeffs);
    for s in &shares {
        for b in 0..32 {
            assert_eq!(s.value[b], gf.eval_polynomial(&[secret[b], coeffs[b]], s.index));
        }
    }
    // Any two shares give the secret back.
    for i in 0..4 {
        for j in 0..4 {
            if i != j {
                let picked = [shares[i].clone(), shares[j].clone()];
                assert_eq!(e.reconstruct_secret(&picked).unwrap(), secret);
            }
        }
    }
}

#[test]
fn reconstruct_with_repeated_index_fails() {
    let e = ShamirErasureEncoder::new(2, 3).unwrap();
    let shares = e.split_secret(&[5u8; 32]).unwrap();
    let picked = [shares[1].clone(), shares[1].clone()];
    assert!(is_persistence_error(&e.reconstruct_secret(&picked)));
}

// ---------------------------------------------------------------------------
// Key derivation
// ---------------------------------------------------------------------------

#[test]
fn derivations_are_deterministic_and_separate() {
    let b1 = [1u8; 32];
    let b2 = [2u8; 32];
    assert_eq!(ShamirErasureEncoder::derive_nonce(&b1), ShamirErasureEncoder::derive_nonce(&b1));
    assert_ne!(ShamirErasureEncoder::derive_nonce(&b1), ShamirErasureEncoder::derive_nonce(&b2));
    let k = [7u8; 32];
    assert_ne!(
        ShamirErasureEncoder::derive_chunk_key(&k, 0, &b1),
        ShamirErasureEncoder::derive_chunk_key(&k, 1, &b1)
    );
    assert_ne!(
        ShamirErasureEncoder::derive_chunk_nonce(&b1, 0),
        ShamirErasureEncoder::derive_chunk_nonce(&b1, 1)
    );
    // The block nonce is the first 12 bytes of SHA-256("SORADYNE_NONCE_V1" || block id).
    let n = ShamirErasureEncoder::derive_nonce(&[0u8; 32]);
    assert_eq!(n.len(), 12);
}

// ---------------------------------------------------------------------------
// Encoding layout
// ---------------------------------------------------------------------------

#[test]
fn encrypted_size_adds_a_tag_per_chunk() {
    let e = ShamirErasureEncoder::new(3, 5).unwrap();
    let key = [3u8; 32];
    let block = [4u8; 32];
    assert_eq!(e.encrypt_data_chunked(&[], &key, &block).unwrap().len(), 0);
    assert_eq!(e.encrypt_data_chunked(&[1, 2, 3], &key, &block).unwrap().len(), 19);
    let big = vec![0u8; CHUNK_SIZE + 1];
    assert_eq!(e.encrypt_data_chunked(&big, &key, &block).unwrap().len(), CHUNK_SIZE + 1 + 32);
}

#[test]
fn encode_rs_frames_with_length_prefix() {
    let e = ShamirErasureEncoder::new(2, 3).unwrap();
    let data = [10u8, 20, 30];
    let shards = e.encode_rs(&data).unwrap();
    assert_eq!(shards.len(), 3);
    // Padded data: 4 bytes; with the prefix: 8 bytes; 2 shards of 4 bytes.
    assert_eq!(shards[0], vec![3, 0, 0, 0]);
    assert_eq!(shards[1], vec![10, 20, 30, 0]);
    assert_eq!(shards[2].len(), 4);
}

#[test]
fn empty_data_encodes_to_no_shards() {
    let e = ShamirErasureEncoder::new(3, 5).unwrap();
    assert!(e.encode(&[], &[0u8; 32]).unwrap().is_empty());
}

#[test]
fn encode_with_given_keys_round_trips() {
    let e = ShamirErasureEncoder::new(2, 4).unwrap();
    let data: Vec<u8> = (0..500u32).map(|i| (i * 31 % 251) as u8).collect();
    let block = [8u8; 32];
    let master = [0x5Au8; 32];
    let coeffs = [0x33u8; 32];
    let shards = e.encode_with(&data, &block, &master, &coeffs).unwrap();
    assert_eq!(shards.len(), 4);
    let map = vec![(3, shards[3].clone()), (1, shards[1].clone())];
    let mut d = e.decode_with_streaming(map, &block, data.len()).unwrap();
    assert_eq!(d.reconstruct_all().unwrap(), data);
}

// ---------------------------------------------------------------------------
// Decoding
// ---------------------------------------------------------------------------

#[test]
fn decode_with_too_few_shards_fails() {
    let e = ShamirErasureEncoder::new(3, 5).unwrap();
    let block = [5u8; 32];
    let shards = e.encode(b"some data", &block).unwrap();
    let map = vec![(0, shards[0].clone()), (1, shards[1].clone())];
    assert!(e.decode_with_streaming(map, &block, 9).is_err());
}

#[test]
fn decode_with_wrong_block_id_fails_to_decrypt() {
    let e = ShamirErasureEncoder::new(3, 5).unwrap();
    let shards = e.encode(b"bound to its block", &[1u8; 32]).unwrap();
    let mut d = e.decode_with_streaming(shard_map(shards), &[2u8; 32], 18).unwrap();
    assert!(is_persistence_error(&d.reconstruct_all()));
}

#[test]
fn decode_with_tampered_shard_fails() {
    let e = ShamirErasureEncoder::new(3, 5).unwrap();
    let block = [6u8; 32];
    let data = b"authenticated chunks";
    let mut shards = e.encode(data, &block).unwrap();
    // Byte 10 of the first data shard lies inside the sealed payload.
    shards[0].shard_data[10] ^= 0xFF;
    let map = vec![(0, shards[0].clone()), (1, shards[1].clone()), (2, shards[2].clone())];
    let mut d = e.decode_with_streaming(map, &block, data.len()).unwrap();
    assert!(d.reconstruct_all().is_err());
}

#[test]
fn read_chunk_stops_at_end_of_block() {
    let e = ShamirErasureEncoder::new(2, 3).unwrap();
    let block = [7u8; 32];
    let data = vec![1u8; 10];
    let shards = e.encode(&data, &block).unwrap();
    let mut d = e.decode_with_streaming(shard_map(shards), &block, data.len()).unwrap();
    assert_eq!(d.read_chunk().unwrap(), Some(data.clone()));
    assert_eq!(d.read_chunk().unwrap(), None);
    assert_eq!(d.read_chunk().unwrap(), None);
}

#[test]
fn peek_pointers_reads_whole_pointers() {
    let e = ShamirErasureEncoder::new(2, 3).unwrap();
    let block = [9u8; 32];
    let mut data = Vec::new();
    for p in 0..3u8 {
        data.extend_from_slice(&[p; 32]);
    }
    data.extend_from_slice(&[0xEE; 5]);
    let shards = e.encode(&data, &block).unwrap();
    let mut d = e.decode_with_streaming(shard_map(shards), &block, data.len()).unwrap();
    let ptrs = d.peek_pointers(2).unwrap();
    assert_eq!(ptrs, vec![[0u8; 32], [1u8; 32], [2u8; 32]]);
}

#[test]
fn legacy_decode_reassembles_data_shards() {
    let e = ShamirErasureEncoder::new(2, 4).unwrap();
    let data = [1u8, 2, 3, 4, 5, 6, 7];
    let shards = e.encode_rs(&data).unwrap();
    let map = vec![(2, shards[2].clone()), (3, shards[3].clone())];
    let out = e.decode(map, 6).unwrap();
    // The frame starts with the 4-byte length.
    assert_eq!(out, vec![7, 0, 0, 0, 1, 2]);
}

#[test]
fn legacy_decode_errors() {
    let e = ShamirErasureEncoder::new(2, 4).unwrap();
    let shards = e.encode_rs(&[1u8, 2, 3]).unwrap();
    // Too few
    assert!(is_persistence_error(&e.decode(vec![(0, shards[0].clone())], 3)));
    // Position past the last shard
    assert!(is_persistence_error(&e.decode(vec![(0, shards[0].clone()), (4, shards[1].clone())], 3)));
    // Different lengths
    assert!(is_persistence_error(&e.decode(vec![(0, shards[0].clone()), (1, vec![1, 2])], 3)));
    // Empty shards cannot be reconstructed
    assert!(is_persistence_error(&e.decode(vec![(0, vec![]), (1, vec![])], 3)));
}

#[test]
fn key_share_clone_keeps_contents() {
    let s = KeyShare { index: 3, value: vec![1, 2, 3] };
    let c = s.clone();
    assert_eq!(c.index, 3);
    assert_eq!(c.value, vec![1, 2, 3]);
}
