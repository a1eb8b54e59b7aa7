//! Shamir Secret Sharing + Reed-Solomon erasure coding for secure fault tolerance
//!
//! A block is encrypted chunk by chunk with AES-256-GCM under keys derived from a
//! random master key; the master key is split with Shamir's scheme over GF(256);
//! the ciphertext is framed with its length and split into Reed-Solomon shards.
//! Each shard travels with one key share.

use vstd::prelude::*;
use vstd::bytes::{u64_to_le_bytes, spec_u64_to_le_bytes, u32_to_le_bytes, spec_u32_to_le_bytes, u32_from_le_bytes};
use vstd::slice::{slice_subrange, slice_to_vec};
use crate::flow::error::{FlowError, persistence_error};
use super::galois::GF256;
use super::gf_spec::{gf_mul, gf_pow};
use super::gf_poly::{poly_eval, distinct_xs, lagrange_at_zero};
use super::gf_lagrange::lemma_lagrange_recovers;
use super::crypto::{sha256, sha256_spec, random_bytes, random_array32, aes_gcm_seal_detached, aes_gcm_open_detached};
use super::rs_codec::{rs_encode, rs_codeword, rs_parity};
use super::recovery::{keys_distinct, rs_ready, entries_consistent, reconstruct_data, entries_uniform, entries_below};
use super::shard_layout::{lemma_sealed_len,
    num_chunks, chunk_of, chunk_seal, sealed_prefix, sealed_data, chunk_sealed_ok, chunks_sealed_ok,
    round_up, frame_len, shard_len, rs_frame, rs_data_shards, lemma_round_up, lemma_frame, concat_shards,
    frame_payload, payload_of, chunk_cipher, chunk_plain, read_plain, stream_read,
    lemma_concat_data_shards, lemma_frame_payload, lemma_stream_sealed,
};
use super::gf_bits::{lemma_mul_basics, lemma_xor};
use super::gf_laws::lemma_pow_zero;

verus! {

/// Size of the plaintext chunks that are encrypted separately.
pub const CHUNK_SIZE: usize = 65536;

/// Block ID type - 32 bytes for cryptographic hashing
pub type BlockId = [u8; 32];

/// One Shamir share of a 32-byte master key: the evaluation point and one byte per key byte.
#[derive(Debug)]
pub struct KeyShare {
    pub index: u8,
    pub value: Vec<u8>,
}

impl Clone for KeyShare {
    fn clone(&self) -> (r: Self)
        ensures
            r.index == self.index,
            r.value@ == self.value@,
    {
        KeyShare { index: self.index, value: self.value.clone() }
    }
}

/// A Reed-Solomon shard together with the key share stored beside it.
#[derive(Debug)]
pub struct ShardWithKey {
    pub shard_data: Vec<u8>,
    pub key_share: KeyShare,
}

impl Clone for ShardWithKey {
    fn clone(&self) -> (r: Self)
        ensures
            r.shard_data@ == self.shard_data@,
            same_share(r.key_share, self.key_share),
    {
        ShardWithKey { shard_data: self.shard_data.clone(), key_share: self.key_share.clone() }
    }
}

/// Encoder for `threshold`-of-`total_shards` dissolution.
#[derive(Debug)]
pub struct ShamirErasureEncoder {
    threshold: usize,
    total_shards: usize,
}

/// Parameters that the encoder accepts: at least one data shard, at least one parity
/// shard, and at most 255 shards (the nonzero evaluation points of GF(256)).
pub open spec fn valid_params(threshold: nat, total_shards: nat) -> bool {
    1 <= threshold < total_shards <= 255
}

// ---------------------------------------------------------------------------
// Key derivation
// ---------------------------------------------------------------------------

/// The bytes of "SORADYNE_NONCE_V1".
pub open spec fn nonce_domain() -> Seq<u8> {
    seq![83u8, 79u8, 82u8, 65u8, 68u8, 89u8, 78u8, 69u8, 95u8, 78u8, 79u8, 78u8, 67u8, 69u8, 95u8, 86u8, 49u8]
}

/// The bytes of "SORADYNE_CHUNK_KEY_V1".
pub open spec fn chunk_key_domain() -> Seq<u8> {
    seq![83u8, 79u8, 82u8, 65u8, 68u8, 89u8, 78u8, 69u8, 95u8, 67u8, 72u8, 85u8, 78u8, 75u8, 95u8, 75u8, 69u8, 89u8, 95u8, 86u8, 49u8]
}

/// The bytes of "SORADYNE_CHUNK_NONCE_V1".
pub open spec fn chunk_nonce_domain() -> Seq<u8> {
    seq![83u8, 79u8, 82u8, 65u8, 68u8, 89u8, 78u8, 69u8, 95u8, 67u8, 72u8, 85u8, 78u8, 75u8, 95u8, 78u8, 79u8, 78u8, 67u8, 69u8, 95u8, 86u8, 49u8]
}

/// Nonce of a block: the first 12 bytes of SHA-256 over the nonce domain and the block id.
pub open spec fn block_nonce_spec(block_id: Seq<u8>) -> Seq<u8> {
    sha256_spec(nonce_domain() + block_id).take(12)
}

/// Key of chunk `i`: SHA-256 over the chunk-key domain, the master key, `i` (8 bytes,
/// little-endian) and the block id.
pub open spec fn chunk_key_spec(master_key: Seq<u8>, chunk_index: u64, block_id: Seq<u8>) -> Seq<u8> {
    sha256_spec(chunk_key_domain() + master_key + spec_u64_to_le_bytes(chunk_index) + block_id)
}

/// Nonce of chunk `i`: the first 12 bytes of SHA-256 over the chunk-nonce domain, the block
/// id and `i` (8 bytes, little-endian).
pub open spec fn chunk_nonce_spec(block_id: Seq<u8>, chunk_index: u64) -> Seq<u8> {
    sha256_spec(chunk_nonce_domain() + block_id + spec_u64_to_le_bytes(chunk_index)).take(12)
}

fn domain_bytes(which: u8) -> (r: Vec<u8>)
    ensures
        which == 0 ==> r@ == nonce_domain(),
        which == 1 ==> r@ == chunk_key_domain(),
        which == 2 ==> r@ == chunk_nonce_domain(),
{
    if which == 0 {
        let v: Vec<u8> = vec![83u8, 79u8, 82u8, 65u8, 68u8, 89u8, 78u8, 69u8, 95u8, 78u8, 79u8, 78u8, 67u8, 69u8, 95u8, 86u8, 49u8];
        assert(v@ =~= nonce_domain());
        v
    } else if which == 1 {
        let v: Vec<u8> = vec![83u8, 79u8, 82u8, 65u8, 68u8, 89u8, 78u8, 69u8, 95u8, 67u8, 72u8, 85u8, 78u8, 75u8, 95u8, 75u8, 69u8, 89u8, 95u8, 86u8, 49u8];
        assert(v@ =~= chunk_key_domain());
        v
    } else {
        let v: Vec<u8> = vec![83u8, 79u8, 82u8, 65u8, 68u8, 89u8, 78u8, 69u8, 95u8, 67u8, 72u8, 85u8, 78u8, 75u8, 95u8, 78u8, 79u8, 78u8, 67u8, 69u8, 95u8, 86u8, 49u8];
        assert(v@ =~= chunk_nonce_domain());
        v
    }
}

/// The first 12 bytes of a digest.
fn first_twelve(hash: &[u8; 32]) -> (r: [u8; 12])
    ensures
        r@ == hash@.take(12),
{
    let mut out = [0u8; 12];
    let mut i: usize = 0;
    while i < 12
        invariant
            0 <= i <= 12,
            forall|k: int| 0 <= k < i ==> out@[k] == hash@[k],
        decreases 12 - i,
    {
        out[i] = hash[i];
        i = i + 1;
    }
    assert(out@ =~= hash@.take(12));
    out
}

/// Appends the bytes of a slice.
fn append_bytes(buf: &mut Vec<u8>, bytes: &[u8])
    ensures
        final(buf)@ == old(buf)@ + bytes@,
{
    buf.extend_from_slice(bytes);
    assert(buf@ =~= old(buf)@ + bytes@);
}

/// Appends zeros up to `new_len` bytes.
fn pad_zeros(buf: &mut Vec<u8>, new_len: usize)
    requires
        old(buf)@.len() <= new_len,
    ensures
        final(buf)@ == old(buf)@ + Seq::new((new_len - old(buf)@.len()) as nat, |k: int| 0u8),
{
    let ghost start = buf@.len();
    while buf.len() < new_len
        invariant
            start == old(buf)@.len(),
            start <= buf@.len() <= new_len,
            buf@ =~= old(buf)@ + Seq::new((buf@.len() - start) as nat, |k: int| 0u8),
        decreases new_len - buf@.len(),
    {
        buf.push(0u8);
    }
}

/// Appends the bytes of a vector.
fn append_vec_bytes(buf: &mut Vec<u8>, bytes: &Vec<u8>)
    ensures
        final(buf)@ == old(buf)@ + bytes@,
{
    buf.extend_from_slice(bytes.as_slice());
    assert(buf@ =~= old(buf)@ + bytes@);
}

// ---------------------------------------------------------------------------
// Shamir sharing of the master key
// ---------------------------------------------------------------------------

/// The polynomial that shares byte `b` of `secret`: the secret byte as constant term and
/// the coefficients `coeffs[c * 32 + b]` for the higher powers.
pub open spec fn share_poly(secret: Seq<u8>, coeffs: Seq<u8>, threshold: nat, b: int) -> Seq<u8> {
    seq![secret[b]] + Seq::new((threshold - 1) as nat, |c: int| coeffs[c * 32 + b])
}

/// `shares` are `count` shares of `secret` at the points 1, 2, ..., from the polynomials
/// with coefficients `coeffs`.
pub open spec fn shares_of(shares: Seq<KeyShare>, secret: Seq<u8>, coeffs: Seq<u8>, threshold: nat, count: nat) -> bool {
    &&& shares.len() == count
    &&& forall|i: int|
        0 <= i < count ==> {
            &&& (#[trigger] shares[i]).index == i + 1
            &&& shares[i].value@.len() == 32
            &&& forall|b: int| 0 <= b < 32 ==> #[trigger] shares[i].value@[b] == poly_eval(share_poly(secret, coeffs, threshold, b), (i + 1) as u8)
        }
}

/// The points `(index, value[b])` of the first `t` shares.
pub open spec fn byte_points(shares: Seq<KeyShare>, t: nat, b: int) -> Seq<(u8, u8)> {
    Seq::new(t, |i: int| (shares[i].index, shares[i].value@[b]))
}

/// The first `t` shares carry pairwise different indices.
pub open spec fn distinct_indices(shares: Seq<KeyShare>, t: nat) -> bool {
    forall|i: int, j: int| 0 <= i < t && 0 <= j < t && i != j ==> #[trigger] shares[i].index != #[trigger] shares[j].index
}

/// `shards` is the dissolution of `data` into `total` shards, `threshold` of which
/// suffice, under master key `master` and Shamir coefficients `coeffs`: nothing for empty
/// data; else shard `i` holds piece `i` of the Reed-Solomon codeword of the framed,
/// chunk-sealed data, and the key shares are the Shamir shares of the master key.
pub open spec fn encoded_as(
    shards: Seq<ShardWithKey>,
    data: Seq<u8>,
    block_id: Seq<u8>,
    threshold: nat,
    total: nat,
    master: Seq<u8>,
    coeffs: Seq<u8>,
) -> bool {
    if data.len() == 0 {
        shards.len() == 0
    } else {
        &&& shards.len() == total
        &&& master.len() == 32
        &&& coeffs.len() == (threshold - 1) * 32
        &&& chunks_sealed_ok(master, block_id, data)
        &&& forall|i: int|
            0 <= i < total ==> (#[trigger] shards[i]).shard_data@ == rs_codeword(
                rs_data_shards(sealed_data(master, block_id, data), threshold),
                (total - threshold) as nat,
            )[i]
        &&& forall|i: int|
            0 <= i < total ==> (#[trigger] shards[i]).shard_data@.len() == shard_len(sealed_data(master, block_id, data).len(), threshold)
        &&& shares_of(shards.map_values(|s: ShardWithKey| s.key_share), master, coeffs, threshold, total)
    }
}

/// `s` cut to at most `n` bytes.
pub open spec fn truncated(s: Seq<u8>, n: nat) -> Seq<u8> {
    if n <= s.len() {
        s.take(n as int)
    } else {
        s
    }
}

/// Every entry has a position below `n`.
pub open spec fn entries_in_range(entries: Seq<(usize, Vec<u8>)>, n: nat) -> bool {
    forall|j: int| 0 <= j < entries.len() ==> #[trigger] entries[j].0 < n
}

/// All entries have the same length.
pub open spec fn entries_same_len(entries: Seq<(usize, Vec<u8>)>) -> bool {
    forall|i: int, j: int| 0 <= i < entries.len() && 0 <= j < entries.len() ==> (#[trigger] entries[i]).1@.len() == (
    #[trigger] entries[j]).1@.len()
}

/// `x` holds the same share as some element of `shares`.
pub open spec fn share_in(x: KeyShare, shares: Seq<KeyShare>) -> bool {
    exists|j: int| 0 <= j < shares.len() && #[trigger] same_share(x, shares[j])
}

/// The key shares carried by the shards.
pub open spec fn key_shares_of(shards: Seq<(usize, ShardWithKey)>) -> Seq<KeyShare> {
    Seq::new(shards.len(), |j: int| shards[j].1.key_share)
}

/// Two key shares hold the same index and bytes.
pub open spec fn same_share(a: KeyShare, b: KeyShare) -> bool {
    a.index == b.index && a.value@ == b.value@
}

/// `r` is `s` reordered: position `i` of `r` holds the share at position `perm[i]` of `s`,
/// and no position of `s` is used twice.
pub open spec fn is_reordering(r: Seq<KeyShare>, s: Seq<KeyShare>, perm: Seq<int>) -> bool {
    &&& r.len() == s.len()
    &&& perm.len() == s.len()
    &&& forall|i: int| 0 <= i < r.len() ==> 0 <= #[trigger] perm[i] < s.len() && same_share(r[i], s[perm[i]])
    &&& forall|i: int, j: int| 0 <= i < r.len() && 0 <= j < r.len() && i != j ==> #[trigger] perm[i] != #[trigger] perm[j]
}

/// The shares come in order of their index.
pub open spec fn sorted_by_index(r: Seq<KeyShare>) -> bool {
    forall|i: int, j: int| 0 <= i <= j < r.len() ==> #[trigger] r[i].index <= #[trigger] r[j].index
}

/// `r` is `s` sorted by index.
pub open spec fn sorted_reordering(r: Seq<KeyShare>, s: Seq<KeyShare>) -> bool {
    sorted_by_index(r) && exists|perm: Seq<int>| #[trigger] is_reordering(r, s, perm)
}

/// However `shares` is sorted by index, each of the first `t` shares holds at least the
/// 32 bytes that interpolation reads.
pub open spec fn first_shares_full(shares: Seq<KeyShare>, t: nat) -> bool {
    forall|sorted: Seq<KeyShare>|
        #[trigger] sorted_reordering(sorted, shares) ==> forall|i: int|
            0 <= i < t && i < sorted.len() ==> (#[trigger] sorted[i]).value@.len() >= 32
}

/// The 32-byte secret that interpolation at zero gives from the first `t` shares.
pub open spec fn secret_from(shares: Seq<KeyShare>, t: nat) -> Seq<u8> {
    Seq::new(32, |b: int| lagrange_at_zero(byte_points(shares, t, b)))
}

/// The entries are the positions and shard bytes of the shards.
pub open spec fn shard_entries(entries: Seq<(usize, Vec<u8>)>, shards: Seq<(usize, ShardWithKey)>) -> bool {
    &&& entries.len() == shards.len()
    &&& forall|j: int| 0 <= j < entries.len() ==> #[trigger] entries[j].0 == shards[j].0 && entries[j].1@ == shards[j].1.shard_data@
}

/// Sorts key shares by index (equal indices keep their order).
pub fn sort_shares_by_index(shares: &Vec<KeyShare>) -> (r: Vec<KeyShare>)
    ensures
        sorted_reordering(r@, shares@),
{
    let mut r: Vec<KeyShare> = Vec::new();
    let ghost mut perm: Seq<int> = Seq::empty();
    let mut k: usize = 0;
    while k < shares.len()
        invariant
            0 <= k <= shares@.len(),
            r@.len() == k,
            perm.len() == k,
            sorted_by_index(r@),
            forall|i: int| 0 <= i < k ==> 0 <= #[trigger] perm[i] < k && same_share(r@[i], shares@[perm[i]]),
            forall|i: int, j: int| 0 <= i < k && 0 <= j < k && i != j ==> #[trigger] perm[i] != #[trigger] perm[j],
        decreases shares@.len() - k,
    {
        let x = shares[k].clone();
        let mut pos: usize = 0;
        while pos < r.len() && r[pos].index <= x.index
            invariant
                0 <= pos <= r@.len(),
                forall|i: int| 0 <= i < pos ==> #[trigger] r@[i].index <= x.index,
            decreases r@.len() - pos,
        {
            pos = pos + 1;
        }
        let ghost old_r = r@;
        let ghost old_perm = perm;
        proof {
            assert forall|i: int| pos <= i < old_r.len() implies #[trigger] old_r[i].index > x.index by {
                assert(old_r[pos as int].index <= old_r[i].index);
            }
        }
        r.insert(pos, x);
        proof {
            perm = perm.insert(pos as int, k as int);
            assert forall|i: int, j: int| 0 <= i <= j < r@.len() implies #[trigger] r@[i].index <= #[trigger] r@[j].index by {
                if i < pos && j > pos {
                    assert(old_r[i].index <= old_r[j - 1].index);
                } else if i > pos {
                    assert(old_r[i - 1].index <= old_r[j - 1].index);
                } else if i < pos && j < pos {
                    assert(old_r[i].index <= old_r[j].index);
                }
            }
            assert forall|i: int| 0 <= i < k + 1 implies 0 <= #[trigger] perm[i] < k + 1 && same_share(r@[i], shares@[perm[i]]) by {
                if i < pos {
                    assert(perm[i] == old_perm[i]);
                } else if i > pos {
                    assert(perm[i] == old_perm[i - 1]);
                }
            }
            assert forall|i: int, j: int| 0 <= i < k + 1 && 0 <= j < k + 1 && i != j implies #[trigger] perm[i] != #[trigger] perm[j] by {
                let oi = if i < pos { i } else { i - 1 };
                let oj = if j < pos { j } else { j - 1 };
                if i != pos && j != pos {
                    assert(perm[i] == old_perm[oi]);
                    assert(perm[j] == old_perm[oj]);
                    assert(oi != oj);
                } else if i == pos {
                    assert(perm[j] == old_perm[oj]);
                    assert(old_perm[oj] < k);
                } else {
                    assert(perm[i] == old_perm[oi]);
                    assert(old_perm[oi] < k);
                }
            }
        }
        k = k + 1;
    }
    proof {
        assert(is_reordering(r@, shares@, perm));
    }
    r
}

impl ShamirErasureEncoder {
    #[verifier::type_invariant]
    spec fn params_ok(self) -> bool {
        valid_params(self.threshold as nat, self.total_shards as nat)
    }

    /// Minimum number of shards needed to reconstruct.
    pub closed spec fn threshold_spec(&self) -> nat {
        self.threshold as nat
    }

    /// Total number of shards produced.
    pub closed spec fn total_spec(&self) -> nat {
        self.total_shards as nat
    }

    pub fn new(threshold: usize, total_shards: usize) -> (r: Result<Self, FlowError>)
        ensures
            r is Ok <==> valid_params(threshold as nat, total_shards as nat),
            r matches Ok(e) ==> e.threshold_spec() == threshold && e.total_spec() == total_shards,
            r matches Err(e) ==> e is PersistenceError,
    {
        if threshold == 0 || total_shards == 0 {
            return Err(persistence_error("Threshold and total_shards must be greater than 0"));
        }
        if threshold > total_shards {
            return Err(persistence_error("Threshold cannot be greater than total_shards"));
        }
        if total_shards > 255 {
            return Err(persistence_error("Total shards cannot exceed 255 (Shamir limitation)"));
        }
        let parity_shards = total_shards - threshold;
        match super::rs_codec::rs_check(threshold, parity_shards) {
            Ok(()) => {},
            Err(_) => {
                return Err(persistence_error("Failed to create Reed-Solomon encoder"));
            },
        }
        Ok(Self { threshold, total_shards })
    }

    /// Minimum number of shards needed to reconstruct.
    pub fn threshold(&self) -> (r: usize)
        ensures
            r == self.threshold_spec(),
            valid_params(self.threshold_spec(), self.total_spec()),
    {
        proof {
            use_type_invariant(self);
        }
        self.threshold
    }

    /// Total number of shards produced.
    pub fn total_shards(&self) -> (r: usize)
        ensures
            r == self.total_spec(),
    {
        self.total_shards
    }

    /// Generate a nonce from block ID for consistent encryption
    pub fn derive_nonce(block_id: &BlockId) -> (r: [u8; 12])
        ensures
            r@ == block_nonce_spec(block_id@),
    {
        let mut msg = domain_bytes(0);
        append_bytes(&mut msg, block_id.as_slice());
        let hash = sha256(msg.as_slice());
        first_twelve(&hash)
    }

    /// Derive a chunk-specific key from master key and chunk index
    pub fn derive_chunk_key(master_key: &[u8; 32], chunk_index: u64, block_id: &BlockId) -> (r: [u8; 32])
        ensures
            r@ == chunk_key_spec(master_key@, chunk_index, block_id@),
    {
        let mut msg = domain_bytes(1);
        append_bytes(&mut msg, master_key.as_slice());
        let idx = u64_to_le_bytes(chunk_index);
        append_bytes(&mut msg, idx.as_slice());
        append_bytes(&mut msg, block_id.as_slice());
        sha256(msg.as_slice())
    }

    /// Derive a chunk-specific nonce from block ID and chunk index
    pub fn derive_chunk_nonce(block_id: &BlockId, chunk_index: u64) -> (r: [u8; 12])
        ensures
            r@ == chunk_nonce_spec(block_id@, chunk_index),
    {
        let mut msg = domain_bytes(2);
        append_bytes(&mut msg, block_id.as_slice());
        let idx = u64_to_le_bytes(chunk_index);
        append_bytes(&mut msg, idx.as_slice());
        let hash = sha256(msg.as_slice());
        first_twelve(&hash)
    }

    /// Calculate how many shards can be lost while still being able to reconstruct
    pub fn fault_tolerance(&self) -> (r: usize)
        ensures
            r == self.total_spec() - self.threshold_spec(),
    {
        proof {
            use_type_invariant(self);
        }
        self.total_shards - self.threshold
    }

    /// Shamir-split a 32-byte secret with the given polynomial coefficients
    /// (`coefficients[c * 32 + b]` is the coefficient of x^(c+1) for byte `b`): one share per
    /// shard, at the points 1, 2, ..., total_shards.
    pub fn split_secret_with(&self, secret: &[u8; 32], coefficients: &[u8]) -> (r: Vec<KeyShare>)
        requires
            coefficients@.len() == (self.threshold_spec() - 1) * 32,
        ensures
            shares_of(r@, secret@, coefficients@, self.threshold_spec(), self.total_spec()),
    {
        proof {
            use_type_invariant(self);
        }
        let gf = GF256::new();
        let t = self.threshold;
        let mut shares: Vec<KeyShare> = Vec::new();
        let mut i: usize = 1;
        while i <= self.total_shards
            invariant
                valid_params(self.threshold as nat, self.total_shards as nat),
                t == self.threshold,
                coefficients@.len() == (t - 1) * 32,
                1 <= i <= self.total_shards + 1,
                shares_of(shares@, secret@, coefficients@, t as nat, (i - 1) as nat),
            decreases self.total_shards + 1 - i,
        {
            let x = i as u8;
            let mut share_value: Vec<u8> = Vec::new();
            let mut byte_idx: usize = 0;
            while byte_idx < 32
                invariant
                    valid_params(self.threshold as nat, self.total_shards as nat),
                    t == self.threshold,
                    coefficients@.len() == (t - 1) * 32,
                    1 <= i <= self.total_shards,
                    x == i as u8,
                    0 <= byte_idx <= 32,
                    share_value@.len() == byte_idx,
                    forall|b: int| 0 <= b < byte_idx ==> #[trigger] share_value@[b] == poly_eval(share_poly(secret@, coefficients@, t as nat, b), x),
                decreases 32 - byte_idx,
            {
                let mut poly: Vec<u8> = Vec::new();
                poly.push(secret[byte_idx]);
                let mut coeff_idx: usize = 0;
                while coeff_idx < t - 1
                    invariant
                        t == self.threshold,
                        1 <= t <= 255,
                        coefficients@.len() == (t - 1) * 32,
                        0 <= byte_idx < 32,
                        0 <= coeff_idx <= t - 1,
                        poly@ =~= share_poly(secret@, coefficients@, t as nat, byte_idx as int).take(coeff_idx + 1),
                    decreases t - 1 - coeff_idx,
                {
                    assert(coeff_idx * 32 + byte_idx < (t - 1) * 32) by (nonlinear_arith)
                        requires
                            coeff_idx < t - 1,
                            byte_idx < 32,
                    ;
                    poly.push(coefficients[coeff_idx * 32 + byte_idx]);
                    coeff_idx = coeff_idx + 1;
                }
                assert(poly@ =~= share_poly(secret@, coefficients@, t as nat, byte_idx as int));
                let y = gf.eval_polynomial(poly.as_slice(), x);
                share_value.push(y);
                byte_idx = byte_idx + 1;
            }
            let ghost old_shares = shares@;
            shares.push(KeyShare { index: x, value: share_value });
            proof {
                assert forall|k: int| 0 <= k < i implies {
                    &&& (#[trigger] shares@[k]).index == k + 1
                    &&& shares@[k].value@.len() == 32
                    &&& forall|b: int| 0 <= b < 32 ==> #[trigger] shares@[k].value@[b] == poly_eval(share_poly(secret@, coefficients@, t as nat, b), (k + 1) as u8)
                } by {
                    if k < i - 1 {
                        assert(shares@[k] == old_shares[k]);
                    }
                }
            }
            i = i + 1;
        }
        shares
    }

    /// Shamir-split a 32-byte secret with fresh random coefficients.
    pub fn split_secret(&self, secret: &[u8; 32]) -> (r: Result<Vec<KeyShare>, FlowError>)
        ensures
            r matches Ok(shares) && exists|coeffs: Seq<u8>| coeffs.len() == (self.threshold_spec() - 1) * 32 && shares_of(shares@, secret@, coeffs, self.threshold_spec(), self.total_spec()),
    {
        proof {
            use_type_invariant(self);
        }
        let coefficients = random_bytes((self.threshold - 1) * 32);
        let shares = self.split_secret_with(secret, coefficients.as_slice());
        Ok(shares)
    }

    /// Reconstruct the 32-byte secret from the first `threshold` shares by Lagrange
    /// interpolation at zero, byte by byte.
    pub fn reconstruct_secret(&self, shares: &[KeyShare]) -> (r: Result<[u8; 32], FlowError>)
        requires
            shares@.len() >= self.threshold_spec() ==> forall|i: int| 0 <= i < self.threshold_spec() ==> #[trigger] shares@[i].value@.len() >= 32,
        ensures
            r is Ok <==> shares@.len() >= self.threshold_spec() && distinct_indices(shares@, self.threshold_spec()),
            r matches Ok(secret) ==> forall|b: int| 0 <= b < 32 ==> #[trigger] secret@[b] == lagrange_at_zero(byte_points(shares@, self.threshold_spec(), b)),
            r matches Err(e) ==> e is PersistenceError,
    {
        proof {
            use_type_invariant(self);
        }
        if shares.len() < self.threshold {
            return Err(persistence_error("Not enough key shares"));
        }
        let t = self.threshold;
        let gf = GF256::new();
        let mut secret = [0u8; 32];
        let mut byte_idx: usize = 0;
        while byte_idx < 32
            invariant
                t == self.threshold,
                1 <= t <= shares@.len(),
                forall|i: int| 0 <= i < t ==> #[trigger] shares@[i].value@.len() >= 32,
                0 <= byte_idx <= 32,
                byte_idx > 0 ==> distinct_indices(shares@, t as nat),
                forall|b: int| 0 <= b < byte_idx ==> #[trigger] secret@[b] == lagrange_at_zero(byte_points(shares@, t as nat, b)),
            decreases 32 - byte_idx,
        {
            let mut points: Vec<(u8, u8)> = Vec::new();
            let mut i: usize = 0;
            while i < t
                invariant
                    t == self.threshold,
                    1 <= t <= shares@.len(),
                    forall|k: int| 0 <= k < t ==> #[trigger] shares@[k].value@.len() >= 32,
                    0 <= byte_idx < 32,
                    0 <= i <= t,
                    points@ =~= byte_points(shares@, t as nat, byte_idx as int).take(i as int),
                decreases t - i,
            {
                points.push((shares[i].index, shares[i].value[byte_idx]));
                i = i + 1;
            }
            assert(points@ =~= byte_points(shares@, t as nat, byte_idx as int));
            proof {
                let pts = byte_points(shares@, t as nat, byte_idx as int);
                assert(distinct_xs(pts) <==> distinct_indices(shares@, t as nat)) by {
                    if distinct_xs(pts) {
                        assert forall|a: int, c: int| 0 <= a < t && 0 <= c < t && a != c implies #[trigger] shares@[a].index != #[trigger] shares@[c].index by {
                            assert(pts[a].0 != pts[c].0);
                        }
                    }
                    if distinct_indices(shares@, t as nat) {
                        assert forall|a: int, c: int| 0 <= a < pts.len() && 0 <= c < pts.len() && a != c implies #[trigger] pts[a].0 != #[trigger] pts[c].0 by {
                            assert(shares@[a].index != shares@[c].index);
                        }
                    }
                }
            }
            match gf.lagrange_interpolate_at_zero(points.as_slice()) {
                Ok(v) => {
                    secret[byte_idx] = v;
                },
                Err(_) => {
                    return Err(persistence_error("Lagrange interpolation failed"));
                },
            }
            byte_idx = byte_idx + 1;
        }
        Ok(secret)
    }
}

impl ShamirErasureEncoder {
    /// Dissolves `data` with the given master key and Shamir coefficients: encrypts it
    /// chunk by chunk, Reed-Solomon encodes the result, and pairs shard `i` with key share
    /// `i`. Empty data gives no shards.
    pub fn encode_with(&self, data: &[u8], block_id: &BlockId, master_key: &[u8; 32], coefficients: &[u8]) -> (r: Result<Vec<ShardWithKey>, FlowError>)
        requires
            coefficients@.len() == (self.threshold_spec() - 1) * 32,
            data@.len() + 16 * num_chunks(data@.len()) + 1024 <= usize::MAX,
        ensures
            r matches Ok(shards) && encoded_as(
                shards@,
                data@,
                block_id@,
                self.threshold_spec(),
                self.total_spec(),
                master_key@,
                coefficients@,
            ),
    {
        proof {
            use_type_invariant(self);
        }
        if data.len() == 0 {
            return Ok(Vec::new());
        }
        let encrypted = match self.encrypt_data_chunked(data, master_key, block_id) {
            Ok(c) => c,
            Err(e) => {
                return Err(e);
            },
        };
        proof {
            lemma_sealed_len(master_key@, block_id@, data@);
        }
        let key_shares = self.split_secret_with(master_key, coefficients);
        let rs_shards = match self.encode_rs(encrypted.as_slice()) {
            Ok(v) => v,
            Err(e) => {
                return Err(e);
            },
        };
        let mut result: Vec<ShardWithKey> = Vec::new();
        let mut i: usize = 0;
        while i < rs_shards.len()
            invariant
                rs_shards@.len() == self.total_spec(),
                key_shares@.len() == self.total_spec(),
                0 <= i <= rs_shards@.len(),
                result@.len() == i,
                forall|k: int| 0 <= k < i ==> (#[trigger] result@[k]).shard_data@ == rs_shards@[k]@,
                forall|k: int| 0 <= k < rs_shards@.len() ==> (#[trigger] rs_shards@[k])@.len() == shard_len(encrypted@.len(), self.threshold_spec()),
                forall|k: int| 0 <= k < i ==> (#[trigger] result@[k]).key_share.index == key_shares@[k].index,
                forall|k: int| 0 <= k < i ==> (#[trigger] result@[k]).key_share.value@ == key_shares@[k].value@,
            decreases rs_shards@.len() - i,
        {
            result.push(ShardWithKey { shard_data: rs_shards[i].clone(), key_share: key_shares[i].clone() });
            i = i + 1;
        }
        proof {
            let ks = result@.map_values(|s: ShardWithKey| s.key_share);
            assert forall|k: int| 0 <= k < self.total_spec() implies #[trigger] ks[k].index == key_shares@[k].index
                && ks[k].value@ == key_shares@[k].value@ by {
                assert(result@[k].key_share.index == key_shares@[k].index);
                assert(result@[k].key_share.value@ == key_shares@[k].value@);
            }
        }
        Ok(result)
    }

    /// Dissolves `data` under a fresh random master key with fresh random Shamir
    /// coefficients. Empty data gives no shards.
    pub fn encode(&self, data: &[u8], block_id: &BlockId) -> (r: Result<Vec<ShardWithKey>, FlowError>)
        requires
            data@.len() + 16 * num_chunks(data@.len()) + 1024 <= usize::MAX,
        ensures
            r is Ok,
            r matches Ok(shards) ==> exists|master: Seq<u8>, coeffs: Seq<u8>|
                #[trigger] encoded_as(shards@, data@, block_id@, self.threshold_spec(), self.total_spec(), master, coeffs),
    {
        proof {
            use_type_invariant(self);
        }
        let master_key = random_array32();
        let coefficients = random_bytes((self.threshold - 1) * 32);
        let res = self.encode_with(data, block_id, &master_key, coefficients.as_slice());
        proof {
            if res is Ok {
                let shards = res->Ok_0;
                assert(encoded_as(shards@, data@, block_id@, self.threshold_spec(), self.total_spec(), master_key@, coefficients@));
            }
        }
        res
    }

    /// Prepares streaming decoding of a dissolved block from the shards at hand (as
    /// `(position, shard)` entries): the key shares, sorted by index, give the master key by
    /// interpolation from the first `threshold` of them; the shard bytes are kept for
    /// Reed-Solomon reconstruction at each read.
    pub fn decode_with_streaming(&self, shards: Vec<(usize, ShardWithKey)>, block_id: &BlockId, expected_size: usize) -> (r: Result<StreamingDecoder, FlowError>)
        requires
            keys_distinct(shards@),
            first_shares_full(key_shares_of(shards@), self.threshold_spec()),
            expected_size <= usize::MAX - 2 * CHUNK_SIZE,
        ensures
            shards@.len() < self.threshold_spec() ==> r is Err,
            r matches Err(e) ==> e is PersistenceError,
            r matches Ok(dec) ==> {
                &&& shard_entries(dec.entries(), shards@)
                &&& dec.block() == block_id@
                &&& dec.expected() == expected_size
                &&& dec.data_count() == self.threshold_spec()
                &&& dec.shard_count() == self.total_spec()
                &&& dec.position() == 0
                &&& exists|sorted: Seq<KeyShare>|
                    #[trigger] sorted_reordering(sorted, key_shares_of(shards@)) && distinct_indices(sorted, self.threshold_spec())
                        && dec.master() == secret_from(sorted, self.threshold_spec())
            },
            r is Err && shards@.len() >= self.threshold_spec() ==> exists|sorted: Seq<KeyShare>|
                #[trigger] sorted_reordering(sorted, key_shares_of(shards@)) && !distinct_indices(sorted, self.threshold_spec()),
    {
        proof {
            use_type_invariant(self);
        }
        let t = self.threshold;
        if shards.len() < t {
            return Err(persistence_error("Not enough shards"));
        }
        let mut key_shares: Vec<KeyShare> = Vec::new();
        let mut rs_shards: Vec<(usize, Vec<u8>)> = Vec::new();
        let mut j: usize = 0;
        while j < shards.len()
            invariant
                0 <= j <= shards@.len(),
                key_shares@.len() == j,
                rs_shards@.len() == j,
                forall|i: int| 0 <= i < j ==> same_share(#[trigger] key_shares@[i], shards@[i].1.key_share),
                forall|i: int| 0 <= i < j ==> (#[trigger] rs_shards@[i]).0 == shards@[i].0 && rs_shards@[i].1@ == shards@[i].1.shard_data@,
            decreases shards@.len() - j,
        {
            key_shares.push(shards[j].1.key_share.clone());
            rs_shards.push((shards[j].0, shards[j].1.shard_data.clone()));
            j = j + 1;
        }
        let sorted = sort_shares_by_index(&key_shares);
        let ghost ks = key_shares_of(shards@);
        proof {
            let perm = choose|perm: Seq<int>| #[trigger] is_reordering(sorted@, key_shares@, perm);
            assert(is_reordering(sorted@, ks, perm));
            assert(sorted_reordering(sorted@, ks));
            assert forall|i: int| 0 <= i < t implies #[trigger] sorted@[i].value@.len() >= 32 by {
                assert(sorted_reordering(sorted@, key_shares_of(shards@)));
                assert(0 <= i < t && i < sorted@.len());
            }
        }
        let first = slice_subrange(sorted.as_slice(), 0, t);
        proof {
            assert(distinct_indices(first@, t as nat) <==> distinct_indices(sorted@, t as nat)) by {
                if distinct_indices(sorted@, t as nat) {
                    assert forall|a: int, b: int| 0 <= a < t && 0 <= b < t && a != b implies #[trigger] first@[a].index != #[trigger] first@[b].index by {
                        assert(sorted@[a].index != sorted@[b].index);
                    }
                }
                if distinct_indices(first@, t as nat) {
                    assert forall|a: int, b: int| 0 <= a < t && 0 <= b < t && a != b implies #[trigger] sorted@[a].index != #[trigger] sorted@[b].index by {
                        assert(first@[a].index != first@[b].index);
                    }
                }
            }
        }
        let master_key = match self.reconstruct_secret(first) {
            Ok(k) => k,
            Err(e) => {
                return Err(e);
            },
        };
        proof {
            assert(master_key@ =~= secret_from(sorted@, t as nat)) by {
                assert forall|b: int| 0 <= b < 32 implies master_key@[b] == secret_from(sorted@, t as nat)[b] by {
                    assert(byte_points(first@, t as nat, b) =~= byte_points(sorted@, t as nat, b));
                }
            }
            assert(keys_distinct(rs_shards@)) by {
                assert forall|a: int, b: int| 0 <= a < rs_shards@.len() && 0 <= b < rs_shards@.len() && a != b implies #[trigger] rs_shards@[a].0 != #[trigger] rs_shards@[b].0 by {
                    assert(shards@[a].0 != shards@[b].0);
                }
            }
        }
        Ok(StreamingDecoder::new(rs_shards, master_key, *block_id, expected_size, t, self.total_shards))
    }

    /// Decodes a block stored by plain Reed-Solomon coding: the shards at hand, as
    /// `(position, bytes)` entries, give the data shards back, concatenated and cut to
    /// `expected_size` bytes.
    pub fn decode(&self, shards: Vec<(usize, Vec<u8>)>, expected_size: usize) -> (r: Result<Vec<u8>, FlowError>)
        requires
            keys_distinct(shards@),
        ensures
            r is Ok <==> shards@.len() >= self.threshold_spec() && entries_in_range(shards@, self.total_spec())
                && entries_same_len(shards@) && rs_ready(shards@, self.threshold_spec(), self.total_spec()),
            r matches Err(e) ==> e is PersistenceError,
            r matches Ok(v) ==> forall|d: Seq<Seq<u8>>|
                #![trigger entries_consistent(shards@, d, self.total_spec())]
                d.len() == self.threshold_spec() && entries_consistent(shards@, d, self.total_spec()) ==> v@ == truncated(
                    concat_shards(d, self.threshold_spec()),
                    expected_size as nat,
                ),
    {
        self.decode_rs_only(shards, expected_size)
    }

    /// Reed-Solomon-only decoding: fails on fewer shards than the threshold, a position
    /// past the last shard, shards of different lengths, or a failed reconstruction.
    pub fn decode_rs_only(&self, shards: Vec<(usize, Vec<u8>)>, expected_size: usize) -> (r: Result<Vec<u8>, FlowError>)
        requires
            keys_distinct(shards@),
        ensures
            r is Ok <==> shards@.len() >= self.threshold_spec() && entries_in_range(shards@, self.total_spec())
                && entries_same_len(shards@) && rs_ready(shards@, self.threshold_spec(), self.total_spec()),
            r matches Err(e) ==> e is PersistenceError,
            r matches Ok(v) ==> forall|d: Seq<Seq<u8>>|
                #![trigger entries_consistent(shards@, d, self.total_spec())]
                d.len() == self.threshold_spec() && entries_consistent(shards@, d, self.total_spec()) ==> v@ == truncated(
                    concat_shards(d, self.threshold_spec()),
                    expected_size as nat,
                ),
    {
        proof {
            use_type_invariant(self);
        }
        let t = self.threshold;
        let n = self.total_shards;
        if shards.len() < t {
            return Err(persistence_error("Not enough shards"));
        }
        let shard_size = shards[0].1.len();
        let mut j: usize = 0;
        while j < shards.len()
            invariant
                t == self.threshold,
                n == self.total_shards,
                1 <= t <= shards@.len(),
                shard_size == shards@[0].1@.len(),
                0 <= j <= shards@.len(),
                forall|i: int| 0 <= i < j ==> #[trigger] shards@[i].0 < n,
                forall|i: int| 0 <= i < j ==> (#[trigger] shards@[i]).1@.len() == shard_size,
            decreases shards@.len() - j,
        {
            if shards[j].0 >= n {
                assert(!entries_in_range(shards@, n as nat)) by {
                    assert(shards@[j as int].0 >= n);
                }
                return Err(persistence_error("Invalid shard index"));
            }
            if shards[j].1.len() != shard_size {
                assert(!entries_same_len(shards@)) by {
                    assert(shards@[j as int].1@.len() != shards@[0].1@.len());
                }
                return Err(persistence_error("Shard size mismatch"));
            }
            j = j + 1;
        }
        let mut result = match reconstruct_data(&shards, t, n) {
            Ok(v) => v,
            Err(e) => {
                return Err(e);
            },
        };
        let ghost full = result@;
        result.truncate(expected_size);
        assert(result@ == truncated(full, expected_size as nat));
        Ok(result)
    }

    /// Frames `data` (its length as 4 little-endian bytes, the data, zero padding) and cuts
    /// the frame into `threshold` data shards of one length, followed by the
    /// `total_shards - threshold` Reed-Solomon parity shards computed from them.
    pub fn encode_rs(&self, data: &[u8]) -> (r: Result<Vec<Vec<u8>>, FlowError>)
        requires
            data@.len() + 1024 <= usize::MAX,
        ensures
            r matches Ok(shards) && shards@.len() == self.total_spec() && forall|i: int|
                0 <= i < shards@.len() ==> #[trigger] shards@[i]@ == rs_codeword(
                    rs_data_shards(data@, self.threshold_spec()),
                    (self.total_spec() - self.threshold_spec()) as nat,
                )[i] && shards@[i]@.len() == shard_len(data@.len(), self.threshold_spec()),
    {
        proof {
            use_type_invariant(self);
        }
        let t = self.threshold;
        let n = self.total_shards;
        let len = data.len();
        proof {
            lemma_round_up(len as nat, t as nat);
            lemma_round_up(4 + round_up(len as nat, t as nat), t as nat);
            lemma_frame(data@, t as nat);
        }
        let shard_size1 = (len + t - 1) / t;
        let padded_size1 = shard_size1 * t;
        assert(padded_size1 == round_up(len as nat, t as nat));
        let mut padded_data = slice_to_vec(data);
        pad_zeros(&mut padded_data, padded_size1);
        let mut framed = u32_to_le_bytes(len as u32);
        append_bytes(&mut framed, padded_data.as_slice());
        let total_size = framed.len();
        let shard_size = (total_size + t - 1) / t;
        let padded_size = shard_size * t;
        assert(padded_size == frame_len(len as nat, t as nat));
        pad_zeros(&mut framed, padded_size);
        proof {
            assert(shard_size == shard_len(len as nat, t as nat)) by (nonlinear_arith)
                requires
                    padded_size == shard_size * t,
                    shard_len(len as nat, t as nat) == (padded_size as int) / (t as int),
                    t >= 1,
            ;
            assert(framed@ =~= rs_frame(data@, t as nat));
        }
        let mut shards: Vec<Vec<u8>> = Vec::new();
        let mut i: usize = 0;
        while i < t
            invariant
                1 <= t < n <= 255,
                framed@ == rs_frame(data@, t as nat),
                framed@.len() == t * shard_size,
                t * shard_size == padded_size,
                shard_size == shard_len(len as nat, t as nat),
                len == data@.len(),
                0 <= i <= t,
                shards@.len() == i,
                forall|k: int| 0 <= k < i ==> (#[trigger] shards@[k])@ == rs_data_shards(data@, t as nat)[k],
                forall|k: int| 0 <= k < i ==> (#[trigger] shards@[k])@.len() == shard_size,
            decreases t - i,
        {
            proof {
                assert((i + 1) * shard_size <= t * shard_size && i * shard_size <= (i + 1) * shard_size
                    && (i + 1) * shard_size - i * shard_size == shard_size) by (nonlinear_arith)
                    requires
                        i < t,
                ;
            }
            let piece = slice_subrange(framed.as_slice(), i * shard_size, (i + 1) * shard_size);
            shards.push(slice_to_vec(piece));
            i = i + 1;
        }
        let parity_count = n - t;
        let mut k: usize = 0;
        while k < parity_count
            invariant
                parity_count == n - t,
                shard_size >= 1,
                t + k == shards@.len(),
                k <= parity_count,
                forall|j: int| 0 <= j < shards@.len() ==> (#[trigger] shards@[j])@.len() == shard_size,
                forall|j: int| 0 <= j < t ==> (#[trigger] shards@[j])@ == rs_data_shards(data@, t as nat)[j],
            decreases parity_count - k,
        {
            let mut zeros: Vec<u8> = Vec::new();
            zeros.resize(shard_size, 0u8);
            shards.push(zeros);
            k = k + 1;
        }
        let ghost before = shards@;
        match rs_encode(t, parity_count, &mut shards) {
            Ok(()) => {},
            Err(_) => {
                return Err(persistence_error("Reed-Solomon encoding failed"));
            },
        }
        proof {
            let d = rs_data_shards(data@, t as nat);
            assert(before.take(t as int).map_values(|v: Vec<u8>| v@) =~= d);
            assert(d.len() == t);
            assert(rs_parity(d, parity_count as nat).len() == parity_count);
            assert forall|j: int| 0 <= j < shards@.len() implies #[trigger] shards@[j]@ == rs_codeword(d, parity_count as nat)[j]
                && shards@[j]@.len() == shard_len(data@.len(), t as nat) by {
                if j < t {
                    assert(shards@[j] == before[j]);
                } else {
                    assert(shards@[j]@ == rs_parity(d, parity_count as nat)[j - t]);
                }
            }
        }
        Ok(shards)
    }

    /// Encrypts `data` chunk by chunk (chunks of `CHUNK_SIZE` bytes), each chunk with
    /// AES-256-GCM under its own derived key and nonce, and writes each sealed chunk as its
    /// 16-byte tag followed by its ciphertext.
    pub fn encrypt_data_chunked(&self, data: &[u8], master_key: &[u8; 32], block_id: &BlockId) -> (r: Result<Vec<u8>, FlowError>)
        ensures
            r matches Ok(c) && c@ == sealed_data(master_key@, block_id@, data@) && chunks_sealed_ok(
                master_key@,
                block_id@,
                data@,
            ),
    {
        let len = data.len();
        let count: usize = if len % CHUNK_SIZE == 0 { len / CHUNK_SIZE } else { len / CHUNK_SIZE + 1 };
        proof {
            assert(count == num_chunks(len as nat) && count * CHUNK_SIZE >= len && (count > 0 ==> (count - 1) * CHUNK_SIZE < len)) by (nonlinear_arith)
                requires
                    count == (if len % CHUNK_SIZE == 0 { (len / CHUNK_SIZE) as int } else { len / CHUNK_SIZE + 1 }),
                    len >= 0,
            ;
        }
        let mut result: Vec<u8> = Vec::new();
        let mut chunk_index: usize = 0;
        while chunk_index < count
            invariant
                len == data@.len(),
                count == num_chunks(len as nat),
                count * CHUNK_SIZE >= len,
                count > 0 ==> (count - 1) * CHUNK_SIZE < len,
                chunk_index <= count,
                result@ == sealed_prefix(master_key@, block_id@, data@, chunk_index as nat),
                forall|i: nat| i < chunk_index ==> #[trigger] chunk_sealed_ok(master_key@, block_id@, data@, i),
            decreases count - chunk_index,
        {
            proof {
                assert(chunk_index * CHUNK_SIZE < len) by (nonlinear_arith)
                    requires
                        chunk_index < count,
                        (count - 1) * CHUNK_SIZE < len,
                ;
            }
            let start: usize = chunk_index * CHUNK_SIZE;
            let end: usize = if len - start >= CHUNK_SIZE { start + CHUNK_SIZE } else { len };
            let chunk = vstd::slice::slice_subrange(data, start, end);
            assert(chunk@ == chunk_of(data@, chunk_index as nat));
            let chunk_key = Self::derive_chunk_key(master_key, chunk_index as u64, block_id);
            let chunk_nonce = Self::derive_chunk_nonce(block_id, chunk_index as u64);
            match aes_gcm_seal_detached(&chunk_key, &chunk_nonce, chunk) {
                Ok((tag, ciphertext)) => {
                    append_bytes(&mut result, tag.as_slice());
                    append_bytes(&mut result, ciphertext.as_slice());
                    assert(chunk_sealed_ok(master_key@, block_id@, data@, chunk_index as nat));
                },
                Err(_) => {
                    return Err(persistence_error("Encryption failed for chunk"));
                },
            }
            chunk_index = chunk_index + 1;
        }
        Ok(result)
    }
}

// ---------------------------------------------------------------------------
// Streaming decoder
// ---------------------------------------------------------------------------

/// Decoder that gives a dissolved block back chunk by chunk.
pub struct StreamingDecoder {
    rs_shards: Vec<(usize, Vec<u8>)>,
    master_key: [u8; 32],
    block_id: BlockId,
    expected_size: usize,
    threshold: usize,
    total_shards: usize,
    position: usize,
}

impl StreamingDecoder {
    #[verifier::type_invariant]
    spec fn decoder_ok(self) -> bool {
        &&& valid_params(self.threshold as nat, self.total_shards as nat)
        &&& keys_distinct(self.rs_shards@)
        &&& self.expected_size <= usize::MAX - 2 * CHUNK_SIZE
        &&& self.position <= self.expected_size + CHUNK_SIZE
    }

    /// The shards at hand, as `(position, bytes)` entries.
    pub closed spec fn entries(&self) -> Seq<(usize, Vec<u8>)> {
        self.rs_shards@
    }

    /// The recovered master key.
    pub closed spec fn master(&self) -> Seq<u8> {
        self.master_key@
    }

    /// The id of the block being read.
    pub closed spec fn block(&self) -> Seq<u8> {
        self.block_id@
    }

    /// Size of the block in bytes.
    pub closed spec fn expected(&self) -> nat {
        self.expected_size as nat
    }

    /// Number of data shards.
    pub closed spec fn data_count(&self) -> nat {
        self.threshold as nat
    }

    /// Number of shards.
    pub closed spec fn shard_count(&self) -> nat {
        self.total_shards as nat
    }

    /// Plaintext bytes read so far.
    pub closed spec fn position(&self) -> nat {
        self.position as nat
    }

    /// Everything but the position is the same in both decoders.
    pub open spec fn same_source(&self, other: &StreamingDecoder) -> bool {
        &&& self.entries() == other.entries()
        &&& self.master() == other.master()
        &&& self.block() == other.block()
        &&& self.expected() == other.expected()
        &&& self.data_count() == other.data_count()
        &&& self.shard_count() == other.shard_count()
    }

    /// Reconstruction from these shards can work.
    pub open spec fn ready(&self) -> bool {
        self.entries().len() > 0 && rs_ready(self.entries(), self.data_count(), self.shard_count())
    }

    /// `d` are data shards whose codeword agrees with the shards at hand.
    pub open spec fn source(&self, d: Seq<Seq<u8>>) -> bool {
        d.len() == self.data_count() && entries_consistent(self.entries(), d, self.shard_count())
    }

    fn new(
        rs_shards: Vec<(usize, Vec<u8>)>,
        master_key: [u8; 32],
        block_id: BlockId,
        expected_size: usize,
        threshold: usize,
        total_shards: usize,
    ) -> (r: Self)
        requires
            valid_params(threshold as nat, total_shards as nat),
            keys_distinct(rs_shards@),
            expected_size <= usize::MAX - 2 * CHUNK_SIZE,
        ensures
            r.entries() == rs_shards@,
            r.master() == master_key@,
            r.block() == block_id@,
            r.expected() == expected_size,
            r.data_count() == threshold,
            r.shard_count() == total_shards,
            r.position() == 0,
    {
        Self { rs_shards, master_key, block_id, expected_size, threshold, total_shards, position: 0 }
    }

    /// Decrypts one sealed chunk (16-byte tag, then ciphertext) of the block with the
    /// chunk's own key and nonce. A piece shorter than a tag gives nothing.
    pub fn decrypt_chunk(encrypted_chunk: &[u8], master_key: &[u8; 32], chunk_index: usize, block_id: &BlockId) -> (r: Result<Vec<u8>, FlowError>)
        ensures
            r is Ok <==> chunk_plain(master_key@, block_id@, encrypted_chunk@, chunk_index as nat) is Some,
            r matches Ok(p) ==> chunk_plain(master_key@, block_id@, encrypted_chunk@, chunk_index as nat) == Some(p@),
            r matches Ok(p) ==> (encrypted_chunk@.len() < 16 ==> p@.len() == 0) && (encrypted_chunk@.len() >= 16
                ==> p@.len() == encrypted_chunk@.len() - 16),
            r matches Err(e) ==> e is PersistenceError,
    {
        if encrypted_chunk.len() < 16 {
            return Ok(Vec::new());
        }
        let chunk_key = ShamirErasureEncoder::derive_chunk_key(master_key, chunk_index as u64, block_id);
        let chunk_nonce = ShamirErasureEncoder::derive_chunk_nonce(block_id, chunk_index as u64);
        let tag = slice_subrange(encrypted_chunk, 0, 16);
        let ciphertext = slice_subrange(encrypted_chunk, 16, encrypted_chunk.len());
        assert(tag@ == encrypted_chunk@.take(16));
        assert(ciphertext@ == encrypted_chunk@.skip(16));
        assert((chunk_index as nat) as u64 == chunk_index as u64);
        match aes_gcm_open_detached(&chunk_key, &chunk_nonce, ciphertext, tag) {
            Ok(plaintext) => Ok(plaintext),
            Err(_) => Err(persistence_error("Decryption failed for chunk")),
        }
    }

    /// Rebuilds the data shards, takes the payload out of their frame, and decrypts chunk
    /// `chunk_index` of it; past the end of the payload there is nothing to decrypt.
    fn reconstruct_chunk_static(
        rs_shards: &Vec<(usize, Vec<u8>)>,
        master_key: &[u8; 32],
        block_id: &BlockId,
        chunk_index: usize,
        threshold: usize,
        total_shards: usize,
    ) -> (r: Result<Vec<u8>, FlowError>)
        requires
            keys_distinct(rs_shards@),
            valid_params(threshold as nat, total_shards as nat),
        ensures
            (rs_shards@.len() == 0 || !rs_ready(rs_shards@, threshold as nat, total_shards as nat)) ==> r is Err,
            r matches Err(e) ==> e is PersistenceError,
            r matches Ok(p) ==> p@.len() <= CHUNK_SIZE,
            forall|d: Seq<Seq<u8>>|
                #![trigger entries_consistent(rs_shards@, d, total_shards as nat)]
                rs_shards@.len() > 0 && rs_ready(rs_shards@, threshold as nat, total_shards as nat) && d.len() == threshold
                    && entries_consistent(rs_shards@, d, total_shards as nat) ==> {
                    &&& (r is Ok <==> read_plain(master_key@, block_id@, payload_of(d, threshold as nat), chunk_index as nat) is Some)
                    &&& (r matches Ok(p) ==> read_plain(master_key@, block_id@, payload_of(d, threshold as nat), chunk_index as nat)
                        == Some(p@))
                },
    {
        if rs_shards.len() == 0 {
            return Err(persistence_error("No shards available"));
        }
        let full = match reconstruct_data(rs_shards, threshold, total_shards) {
            Ok(v) => v,
            Err(e) => {
                return Err(e);
            },
        };
        let flen = full.len();
        let payload: &[u8] = if flen < 4 {
            slice_subrange(full.as_slice(), 0, 0)
        } else {
            let len_bytes = slice_subrange(full.as_slice(), 0, 4);
            let stored = u32_from_le_bytes(len_bytes) as usize;
            let end = if stored <= flen - 4 {
                4 + stored
            } else {
                flen
            };
            slice_subrange(full.as_slice(), 4, end)
        };
        proof {
            if flen >= 4 {
                assert(full@.take(4) == full@.subrange(0, 4));
            }
            assert(payload@ =~= frame_payload(full@));
        }
        let plen = payload.len();
        let chunk_size_with_tag: usize = CHUNK_SIZE + 16;
        let start = match chunk_index.checked_mul(chunk_size_with_tag) {
            Some(s) => s,
            None => {
                return Ok(Vec::new());
            },
        };
        if start >= plen {
            return Ok(Vec::new());
        }
        let end = if plen - start >= chunk_size_with_tag {
            start + chunk_size_with_tag
        } else {
            plen
        };
        let encrypted_chunk = slice_subrange(payload, start, end);
        assert(encrypted_chunk@ == chunk_cipher(payload@, chunk_index as nat));
        Self::decrypt_chunk(encrypted_chunk, master_key, chunk_index, block_id)
    }

    fn reconstruct_chunk(&self, chunk_index: usize) -> (r: Result<Vec<u8>, FlowError>)
        ensures
            !self.ready() ==> r is Err,
            r matches Err(e) ==> e is PersistenceError,
            r matches Ok(p) ==> p@.len() <= CHUNK_SIZE,
            forall|d: Seq<Seq<u8>>|
                #![trigger entries_consistent(self.entries(), d, self.shard_count())]
                self.ready() && self.source(d) ==> {
                    &&& (r is Ok <==> read_plain(self.master(), self.block(), payload_of(d, self.data_count()), chunk_index as nat) is Some)
                    &&& (r matches Ok(p) ==> read_plain(self.master(), self.block(), payload_of(d, self.data_count()), chunk_index as nat)
                        == Some(p@))
                },
    {
        proof {
            use_type_invariant(self);
        }
        Self::reconstruct_chunk_static(
            &self.rs_shards,
            &self.master_key,
            &self.block_id,
            chunk_index,
            self.threshold,
            self.total_shards,
        )
    }

    /// Reads the next chunk of the block: `None` once the whole block was read, else the
    /// chunk at the current position, which then moves past it.
    pub fn read_chunk(&mut self) -> (r: Result<Option<Vec<u8>>, FlowError>)
        ensures
            final(self).same_source(&*old(self)),
            (old(self).position() >= old(self).expected() || old(self).position() / (CHUNK_SIZE as nat) >= num_chunks(old(self).expected()))
                <==> r matches Ok(None),
            !(r matches Ok(Some(_))) ==> final(self).position() == old(self).position(),
            r matches Ok(Some(c)) ==> final(self).position() == old(self).position() + c@.len(),
            r matches Err(e) ==> e is PersistenceError,
            old(self).position() < old(self).expected() && !old(self).ready() ==> r is Err,
            forall|d: Seq<Seq<u8>>|
                #![trigger entries_consistent(old(self).entries(), d, old(self).shard_count())]
                old(self).position() < old(self).expected() && old(self).ready() && old(self).source(d) ==> {
                    let plain = read_plain(old(self).master(), old(self).block(), payload_of(d, old(self).data_count()), old(self).position() / (CHUNK_SIZE as nat));
                    &&& (r is Err <==> plain is None)
                    &&& (r matches Ok(Some(c)) ==> plain == Some(c@))
                },
    {
        proof {
            use_type_invariant(&*self);
        }
        if self.position >= self.expected_size {
            return Ok(None);
        }
        let chunk_index = self.position / CHUNK_SIZE;
        let total_chunks = if self.expected_size % CHUNK_SIZE == 0 {
            self.expected_size / CHUNK_SIZE
        } else {
            self.expected_size / CHUNK_SIZE + 1
        };
        proof {
            assert(total_chunks == num_chunks(self.expected_size as nat) && chunk_index < total_chunks) by (nonlinear_arith)
                requires
                    total_chunks == (if self.expected_size % CHUNK_SIZE == 0 { (self.expected_size / CHUNK_SIZE) as int } else { self.expected_size / CHUNK_SIZE + 1 }),
                    chunk_index == self.position / CHUNK_SIZE,
                    self.position < self.expected_size,
            ;
        }
        if chunk_index >= total_chunks {
            return Ok(None);
        }
        let chunk_data = match self.reconstruct_chunk(chunk_index) {
            Ok(c) => c,
            Err(e) => {
                return Err(e);
            },
        };
        self.position = self.position + chunk_data.len();
        Ok(Some(chunk_data))
    }

    /// Reads the rest of the block chunk by chunk and cuts it to the block size. Reading
    /// stops at the end of the block or at a chunk that gives nothing.
    pub fn reconstruct_all(&mut self) -> (r: Result<Vec<u8>, FlowError>)
        ensures
            final(self).same_source(&*old(self)),
            r matches Err(e) ==> e is PersistenceError,
            old(self).position() < old(self).expected() && !old(self).ready() ==> r is Err,
            forall|d: Seq<Seq<u8>>|
                #![trigger entries_consistent(old(self).entries(), d, old(self).shard_count())]
                old(self).ready() && old(self).source(d) ==> {
                    let s = stream_read(old(self).master(), old(self).block(), payload_of(d, old(self).data_count()),
                        old(self).expected(), old(self).position(), (old(self).expected() + 1) as int);
                    &&& (r is Ok <==> s is Some)
                    &&& (r matches Ok(v) ==> v@ == truncated(s->0, old(self).expected()))
                },
    {
        proof {
            use_type_invariant(&*self);
        }
        let ghost pos0 = self.position();
        let ghost need0: int = (self.expected() + 1) as int;
        let mut result: Vec<u8> = Vec::new();
        let mut done = false;
        while !done
            invariant
                self.same_source(&*old(self)),
                pos0 == old(self).position(),
                need0 == (old(self).expected() + 1) as int,
                pos0 <= self.position() <= self.expected() + CHUNK_SIZE,
                result@.len() == self.position() - pos0,
                forall|d: Seq<Seq<u8>>|
                    #![trigger entries_consistent(old(self).entries(), d, old(self).shard_count())]
                    old(self).ready() && old(self).source(d) ==> {
                        let ctx_payload = payload_of(d, old(self).data_count());
                        let whole = stream_read(old(self).master(), old(self).block(), ctx_payload, old(self).expected(), pos0, need0);
                        let rest = stream_read(old(self).master(), old(self).block(), ctx_payload, old(self).expected(), self.position(),
                            need0 - (self.position() - pos0));
                        &&& !done ==> (match rest {
                            Some(tail) => whole == Some(result@ + tail),
                            None => whole is None,
                        })
                        &&& done ==> whole == Some(result@)
                    },
                !old(self).ready() && pos0 < old(self).expected() ==> !done && self.position() == pos0,
            decreases self.expected() + CHUNK_SIZE - self.position() + (if done { 0int } else { 1int }),
        {
            let ghost before = self.position();
            let ghost prev = result@;
            match self.read_chunk() {
                Ok(Some(chunk)) => {
                    if chunk.len() == 0 {
                        done = true;
                    } else {
                        append_vec_bytes(&mut result, &chunk);
                    }
                    proof {
                        assert forall|d: Seq<Seq<u8>>|
                            #![trigger entries_consistent(old(self).entries(), d, old(self).shard_count())]
                            old(self).ready() && old(self).source(d) implies {
                                let ctx_payload = payload_of(d, old(self).data_count());
                                let whole = stream_read(old(self).master(), old(self).block(), ctx_payload, old(self).expected(), pos0, need0);
                                let rest = stream_read(old(self).master(), old(self).block(), ctx_payload, old(self).expected(), self.position(),
                                    need0 - (self.position() - pos0));
                                &&& !done ==> (match rest {
                                    Some(tail) => whole == Some(result@ + tail),
                                    None => whole is None,
                                })
                                &&& done ==> whole == Some(result@)
                            } by {
                            let ctx_payload = payload_of(d, old(self).data_count());
                            let prev_rest = stream_read(old(self).master(), old(self).block(), ctx_payload, old(self).expected(), before,
                                need0 - (before - pos0));
                            assert(need0 - (before - pos0) > 0);
                            if chunk@.len() > 0 {
                                let nxt = stream_read(old(self).master(), old(self).block(), ctx_payload, old(self).expected(), self.position(),
                                    need0 - (self.position() - pos0));
                                match nxt {
                                    Some(tail) => {
                                        assert(prev_rest == Some(chunk@ + tail));
                                        assert(prev + (chunk@ + tail) =~= result@ + tail);
                                    },
                                    None => {},
                                }
                            } else {
                                assert(prev_rest == Some(Seq::<u8>::empty()));
                                assert(prev + Seq::<u8>::empty() =~= prev);
                            }
                        }
                    }
                },
                Ok(None) => {
                    done = true;
                    proof {
                        assert forall|d: Seq<Seq<u8>>|
                            #![trigger entries_consistent(old(self).entries(), d, old(self).shard_count())]
                            old(self).ready() && old(self).source(d) implies stream_read(old(self).master(), old(self).block(),
                                payload_of(d, old(self).data_count()), old(self).expected(), pos0, need0) == Some(result@) by {
                            let rest = stream_read(old(self).master(), old(self).block(), payload_of(d, old(self).data_count()),
                                old(self).expected(), self.position(), need0 - (self.position() - pos0));
                            assert(rest == Some(Seq::<u8>::empty()));
                            assert(result@ + Seq::<u8>::empty() =~= result@);
                        }
                    }
                },
                Err(e) => {
                    return Err(e);
                },
            }
            proof {
                use_type_invariant(&*self);
            }
        }
        let ghost full = result@;
        result.truncate(self.expected_size);
        assert(result@ == truncated(full, old(self).expected()));
        Ok(result)
    }

    /// Reads chunks until at least `expected_pointer_count` 32-byte pointers came (or the
    /// block ends, or a chunk gives nothing) and returns the whole pointers read.
    pub fn peek_pointers(&mut self, expected_pointer_count: usize) -> (r: Result<Vec<[u8; 32]>, FlowError>)
        requires
            expected_pointer_count * 32 <= usize::MAX,
        ensures
            final(self).same_source(&*old(self)),
            r matches Err(e) ==> e is PersistenceError,
            expected_pointer_count > 0 && old(self).position() < old(self).expected() && !old(self).ready() ==> r is Err,
            forall|d: Seq<Seq<u8>>|
                #![trigger entries_consistent(old(self).entries(), d, old(self).shard_count())]
                old(self).ready() && old(self).source(d) ==> {
                    let s = stream_read(old(self).master(), old(self).block(), payload_of(d, old(self).data_count()),
                        old(self).expected(), old(self).position(), (expected_pointer_count * 32) as int);
                    &&& (r is Ok <==> s is Some)
                    &&& (r matches Ok(ptrs) ==> ptrs@.len() == s->0.len() / 32 && forall|i: int|
                        0 <= i < ptrs@.len() ==> (#[trigger] ptrs@[i])@ == s->0.subrange(32 * i, 32 * i + 32))
                },
    {
        proof {
            use_type_invariant(&*self);
        }
        let bytes_needed = expected_pointer_count * 32;
        let ghost pos0 = self.position();
        let ghost need0: int = bytes_needed as int;
        let mut pointer_data: Vec<u8> = Vec::new();
        let mut done = false;
        while !done && pointer_data.len() < bytes_needed
            invariant
                self.same_source(&*old(self)),
                pos0 == old(self).position(),
                need0 == bytes_needed,
                bytes_needed == expected_pointer_count * 32,
                pos0 <= self.position() <= self.expected() + CHUNK_SIZE,
                pointer_data@.len() == self.position() - pos0,
                forall|d: Seq<Seq<u8>>|
                    #![trigger entries_consistent(old(self).entries(), d, old(self).shard_count())]
                    old(self).ready() && old(self).source(d) ==> {
                        let ctx_payload = payload_of(d, old(self).data_count());
                        let whole = stream_read(old(self).master(), old(self).block(), ctx_payload, old(self).expected(), pos0, need0);
                        let rest = stream_read(old(self).master(), old(self).block(), ctx_payload, old(self).expected(), self.position(),
                            need0 - (self.position() - pos0));
                        &&& !done ==> (match rest {
                            Some(tail) => whole == Some(pointer_data@ + tail),
                            None => whole is None,
                        })
                        &&& done ==> whole == Some(pointer_data@)
                    },
                !old(self).ready() && pos0 < old(self).expected() && need0 > 0 ==> !done && self.position() == pos0,
            decreases self.expected() + CHUNK_SIZE - self.position() + (if done { 0int } else { 1int }),
        {
            let ghost before = self.position();
            let ghost prev = pointer_data@;
            match self.read_chunk() {
                Ok(Some(chunk)) => {
                    if chunk.len() == 0 {
                        done = true;
                    } else {
                        append_vec_bytes(&mut pointer_data, &chunk);
                    }
                    proof {
                        assert forall|d: Seq<Seq<u8>>|
                            #![trigger entries_consistent(old(self).entries(), d, old(self).shard_count())]
                            old(self).ready() && old(self).source(d) implies {
                                let ctx_payload = payload_of(d, old(self).data_count());
                                let whole = stream_read(old(self).master(), old(self).block(), ctx_payload, old(self).expected(), pos0, need0);
                                let rest = stream_read(old(self).master(), old(self).block(), ctx_payload, old(self).expected(), self.position(),
                                    need0 - (self.position() - pos0));
                                &&& !done ==> (match rest {
                                    Some(tail) => whole == Some(pointer_data@ + tail),
                                    None => whole is None,
                                })
                                &&& done ==> whole == Some(pointer_data@)
                            } by {
                            let ctx_payload = payload_of(d, old(self).data_count());
                            let prev_rest = stream_read(old(self).master(), old(self).block(), ctx_payload, old(self).expected(), before,
                                need0 - (before - pos0));
                            if chunk@.len() > 0 {
                                let nxt = stream_read(old(self).master(), old(self).block(), ctx_payload, old(self).expected(), self.position(),
                                    need0 - (self.position() - pos0));
                                match nxt {
                                    Some(tail) => {
                                        assert(prev_rest == Some(chunk@ + tail));
                                        assert(prev + (chunk@ + tail) =~= pointer_data@ + tail);
                                    },
                                    None => {},
                                }
                            } else {
                                assert(prev_rest == Some(Seq::<u8>::empty()));
                                assert(prev + Seq::<u8>::empty() =~= prev);
                            }
                        }
                    }
                },
                Ok(None) => {
                    done = true;
                    proof {
                        assert forall|d: Seq<Seq<u8>>|
                            #![trigger entries_consistent(old(self).entries(), d, old(self).shard_count())]
                            old(self).ready() && old(self).source(d) implies stream_read(old(self).master(), old(self).block(),
                                payload_of(d, old(self).data_count()), old(self).expected(), pos0, need0) == Some(pointer_data@) by {
                            let rest = stream_read(old(self).master(), old(self).block(), payload_of(d, old(self).data_count()),
                                old(self).expected(), self.position(), need0 - (self.position() - pos0));
                            assert(rest == Some(Seq::<u8>::empty()));
                            assert(pointer_data@ + Seq::<u8>::empty() =~= pointer_data@);
                        }
                    }
                },
                Err(e) => {
                    proof {
                        assert forall|d: Seq<Seq<u8>>|
                            #![trigger entries_consistent(old(self).entries(), d, old(self).shard_count())]
                            old(self).ready() && old(self).source(d) implies stream_read(old(self).master(), old(self).block(),
                                payload_of(d, old(self).data_count()), old(self).expected(), pos0, need0) is None by {
                            assert(need0 - (before - pos0) > 0);
                        }
                    }
                    return Err(e);
                },
            }
            proof {
                use_type_invariant(&*self);
            }
        }
        proof {
            if !done {
                assert forall|d: Seq<Seq<u8>>|
                    #![trigger entries_consistent(old(self).entries(), d, old(self).shard_count())]
                    old(self).ready() && old(self).source(d) implies stream_read(old(self).master(), old(self).block(),
                        payload_of(d, old(self).data_count()), old(self).expected(), pos0, need0) == Some(pointer_data@) by {
                    let rest = stream_read(old(self).master(), old(self).block(), payload_of(d, old(self).data_count()),
                        old(self).expected(), self.position(), need0 - (self.position() - pos0));
                    assert(rest == Some(Seq::<u8>::empty()));
                    assert(pointer_data@ + Seq::<u8>::empty() =~= pointer_data@);
                }
            }
        }
        let plen = pointer_data.len();
        let count = plen / 32;
        let mut pointers: Vec<[u8; 32]> = Vec::new();
        let mut i: usize = 0;
        while i < count
            invariant
                plen == pointer_data@.len(),
                count == pointer_data@.len() / 32,
                0 <= i <= count,
                pointers@.len() == i,
                forall|k: int| 0 <= k < i ==> (#[trigger] pointers@[k])@ == pointer_data@.subrange(32 * k, 32 * k + 32),
            decreases count - i,
        {
            proof {
                assert(32 * i + 32 <= pointer_data@.len()) by (nonlinear_arith)
                    requires
                        i < count,
                        count == pointer_data@.len() / 32,
                ;
            }
            let mut pointer = [0u8; 32];
            let mut b: usize = 0;
            while b < 32
                invariant
                    32 * i + 32 <= pointer_data@.len(),
                    plen == pointer_data@.len(),
                    0 <= b <= 32,
                    forall|k: int| 0 <= k < b ==> pointer@[k] == pointer_data@[32 * i + k],
                decreases 32 - b,
            {
                pointer[b] = pointer_data[32 * i + b];
                b = b + 1;
            }
            assert(pointer@ =~= pointer_data@.subrange(32 * i as int, 32 * i + 32));
            pointers.push(pointer);
            i = i + 1;
        }
        Ok(pointers)
    }
}

/// Shamir round trip: any `threshold` shares with pairwise different indices, taken from
/// the shares of a secret, give back every byte of that secret by interpolation at zero.
pub proof fn lemma_shamir_round_trip(
    shares: Seq<KeyShare>,
    secret: Seq<u8>,
    coeffs: Seq<u8>,
    threshold: nat,
    picked: Seq<KeyShare>,
)
    requires
        threshold >= 1,
        secret.len() == 32,
        coeffs.len() == (threshold - 1) * 32,
        shares_of(shares, secret, coeffs, threshold, shares.len()),
        picked.len() >= threshold,
        distinct_indices(picked, threshold),
        forall|i: int| 0 <= i < threshold ==> #[trigger] share_in(picked[i], shares),
    ensures
        forall|b: int| 0 <= b < 32 ==> #[trigger] lagrange_at_zero(byte_points(picked, threshold, b)) == secret[b],
{
    assert forall|b: int| 0 <= b < 32 implies #[trigger] lagrange_at_zero(byte_points(picked, threshold, b)) == secret[b] by {
        let pts = byte_points(picked, threshold, b);
        let p = share_poly(secret, coeffs, threshold, b);
        assert forall|i: int, j: int| 0 <= i < pts.len() && 0 <= j < pts.len() && i != j implies #[trigger] pts[i].0 != #[trigger] pts[j].0 by {
            assert(picked[i].index != picked[j].index);
        }
        assert forall|i: int| 0 <= i < pts.len() implies #[trigger] pts[i].1 == poly_eval(p, pts[i].0) by {
            assert(share_in(picked[i], shares));
            let j = choose|j: int| 0 <= j < shares.len() && #[trigger] same_share(picked[i], shares[j]);
            assert(shares[j].index == j + 1);
            assert(shares[j].value@[b] == poly_eval(p, (j + 1) as u8));
        }
        lemma_lagrange_recovers(pts, p);
        lemma_poly_at_zero(p);
    }
}

/// The shards at hand come from `encoded`: pairwise different positions, each holding the
/// shard (bytes and key share) at its position.
pub open spec fn picked_from(picked: Seq<(usize, ShardWithKey)>, encoded: Seq<ShardWithKey>) -> bool {
    &&& keys_distinct(picked)
    &&& forall|j: int|
        0 <= j < picked.len() ==> #[trigger] picked[j].0 < encoded.len() && picked[j].1.shard_data@ == encoded[picked[j].0 as int].shard_data@
            && same_share(picked[j].1.key_share, encoded[picked[j].0 as int].key_share)
}

proof fn lemma_entries_below_all(entries: Seq<(usize, Vec<u8>)>, n: nat, m: nat)
    requires
        m <= entries.len(),
        forall|j: int| 0 <= j < entries.len() ==> #[trigger] entries[j].0 < n,
    ensures
        entries_below(entries, n, m) == m,
    decreases m,
{
    if m > 0 {
        lemma_entries_below_all(entries, n, (m - 1) as nat);
    }
}

/// Dissolution round trip: take any `threshold` or more of the shards of a nonempty block
/// (its encrypted form no longer than a 32-bit length can say). Their key shares, sorted
/// by index, have pairwise different indices and give back the master key; their bytes are
/// ready for reconstruction and agree with the codeword of the block's frame; and reading
/// the payload of that frame from the start gives back the block.
pub proof fn lemma_dissolution_round_trip(
    encoded: Seq<ShardWithKey>,
    data: Seq<u8>,
    block_id: Seq<u8>,
    threshold: nat,
    total: nat,
    master: Seq<u8>,
    coeffs: Seq<u8>,
    picked: Seq<(usize, ShardWithKey)>,
    entries: Seq<(usize, Vec<u8>)>,
    sorted: Seq<KeyShare>,
)
    requires
        valid_params(threshold, total),
        1 <= data.len() <= 0xFFF0_0000,
        encoded_as(encoded, data, block_id, threshold, total, master, coeffs),
        picked_from(picked, encoded),
        picked.len() >= threshold,
        shard_entries(entries, picked),
        sorted_reordering(sorted, key_shares_of(picked)),
    ensures
        distinct_indices(sorted, threshold),
        secret_from(sorted, threshold) == master,
        entries.len() > 0,
        rs_ready(entries, threshold, total),
        entries_consistent(entries, rs_data_shards(sealed_data(master, block_id, data), threshold), total),
        stream_read(
            master,
            block_id,
            payload_of(rs_data_shards(sealed_data(master, block_id, data), threshold), threshold),
            data.len(),
            0,
            (data.len() + 1) as int,
        ) == Some(data),
{
    let c = sealed_data(master, block_id, data);
    let d = rs_data_shards(c, threshold);
    let shares = encoded.map_values(|s: ShardWithKey| s.key_share);
    let ks = key_shares_of(picked);
    let perm = choose|perm: Seq<int>| #[trigger] is_reordering(sorted, ks, perm);
    // Key shares: sorted[i] is the share of shard picked[perm[i]].0, whose index is that position plus one.
    assert forall|i: int| 0 <= i < sorted.len() implies #[trigger] sorted[i].index == picked[perm[i]].0 + 1 && same_share(
        sorted[i],
        shares[picked[perm[i]].0 as int],
    ) by {
        let j = perm[i];
        assert(same_share(sorted[i], ks[j]));
        let k = picked[j].0 as int;
        assert(shares[k].index == k + 1);
    }
    assert forall|a: int, b: int| 0 <= a < threshold && 0 <= b < threshold && a != b implies #[trigger] sorted[a].index
        != #[trigger] sorted[b].index by {
        assert(perm[a] != perm[b]);
        assert(picked[perm[a]].0 != picked[perm[b]].0);
    }
    assert forall|i: int| 0 <= i < threshold implies #[trigger] share_in(sorted[i], shares) by {
        let k = picked[perm[i]].0 as int;
        assert(same_share(sorted[i], shares[k]));
    }
    lemma_shamir_round_trip(shares, master, coeffs, threshold, sorted);
    assert(secret_from(sorted, threshold) =~= master);
    // Shards: all positions below `total`, all of the shard length, all pieces of the codeword.
    lemma_sealed_len(master, block_id, data);
    assert(num_chunks(data.len()) <= 65521) by (nonlinear_arith)
        requires
            num_chunks(data.len()) == (data.len() + CHUNK_SIZE - 1) / CHUNK_SIZE as int,
            data.len() <= 0xFFF0_0000,
    ;
    lemma_frame(c, threshold);
    assert forall|j: int| 0 <= j < entries.len() implies #[trigger] entries[j].0 < total by {
        assert(picked[j].0 < encoded.len());
    }
    lemma_entries_below_all(entries, total, entries.len());
    assert forall|i: int, j: int|
        0 <= i < entries.len() && 0 <= j < entries.len() && entries[i].0 < total && entries[j].0 < total implies (
        #[trigger] entries[i]).1@.len() == (#[trigger] entries[j]).1@.len() && entries[i].1@.len() > 0 by {
        assert(picked[i].0 < encoded.len() && picked[j].0 < encoded.len());
        assert(encoded[picked[i].0 as int].shard_data@.len() == shard_len(c.len(), threshold));
        assert(encoded[picked[j].0 as int].shard_data@.len() == shard_len(c.len(), threshold));
    }
    assert(entries_uniform(entries, total));
    assert forall|j: int| 0 <= j < entries.len() && #[trigger] entries[j].0 < total implies entries[j].1@ == rs_codeword(
        d,
        (total - d.len()) as nat,
    )[entries[j].0 as int] by {
        assert(picked[j].0 < encoded.len());
        assert(encoded[picked[j].0 as int].shard_data@ == rs_codeword(d, (total - threshold) as nat)[picked[j].0 as int]);
    }
    // Payload: the frame of the data shards carries the sealed block, which reads back as the block.
    lemma_concat_data_shards(c, threshold);
    lemma_frame_payload(c, threshold);
    lemma_stream_sealed(master, block_id, data, 0, (data.len() + 1) as int);
    assert(data.skip(0) =~= data);
}

/// A streaming decoder set up, as `decode_with_streaming` sets it up, from at least
/// `threshold` shards of an encoded block of `data` is ready and reads exactly `data`
/// back from its start: `reconstruct_all` then returns `Ok(data)`.
pub proof fn lemma_streaming_round_trip(
    encoded: Seq<ShardWithKey>,
    data: Seq<u8>,
    block_id: Seq<u8>,
    threshold: nat,
    total: nat,
    master: Seq<u8>,
    coeffs: Seq<u8>,
    picked: Seq<(usize, ShardWithKey)>,
    sorted: Seq<KeyShare>,
    dec: StreamingDecoder,
)
    requires
        valid_params(threshold, total),
        1 <= data.len() <= 0xFFF0_0000,
        encoded_as(encoded, data, block_id, threshold, total, master, coeffs),
        picked_from(picked, encoded),
        picked.len() >= threshold,
        sorted_reordering(sorted, key_shares_of(picked)),
        shard_entries(dec.entries(), picked),
        dec.block() == block_id,
        dec.expected() == data.len(),
        dec.data_count() == threshold,
        dec.shard_count() == total,
        dec.position() == 0,
        dec.master() == secret_from(sorted, threshold),
    ensures
        dec.ready(),
        dec.source(rs_data_shards(sealed_data(master, block_id, data), threshold)),
        stream_read(
            dec.master(),
            dec.block(),
            payload_of(rs_data_shards(sealed_data(master, block_id, data), threshold), dec.data_count()),
            dec.expected(),
            dec.position(),
            (dec.expected() + 1) as int,
        ) == Some(data),
        truncated(data, dec.expected()) == data,
{
    lemma_dissolution_round_trip(
        encoded,
        data,
        block_id,
        threshold,
        total,
        master,
        coeffs,
        picked,
        dec.entries(),
        sorted,
    );
    assert(data.take(data.len() as int) =~= data);
}

/// A polynomial's value at zero is its constant term.
pub proof fn lemma_poly_at_zero(p: Seq<u8>)
    requires
        p.len() >= 1,
    ensures
        poly_eval(p, 0u8) == p[0],
    decreases p.len(),
{
    lemma_mul_basics();
    if p.len() == 1 {
        assert(poly_eval(p.drop_last(), 0u8) == 0u8);
        assert(gf_pow(0u8, 0) == 1u8);
        assert(gf_mul(p.last(), 1u8) == p[0]);
        lemma_xor(p[0], 0u8, 0u8);
    } else {
        lemma_poly_at_zero(p.drop_last());
        lemma_pow_zero((p.len() - 1) as nat);
        assert(gf_mul(p.last(), 0u8) == 0u8);
        assert(p.drop_last()[0] == p[0]);
        lemma_xor(p[0], 0u8, 0u8);
    }
}

} // verus!
