//! Basic fingerprints of storage devices, to recognise a device again.

use vstd::prelude::*;
use vstd::bytes::{u64_to_le_bytes, spec_u64_to_le_bytes, u64_from_le_bytes, spec_u64_from_le_bytes};
use vstd::slice::slice_subrange;
use vstd::relations::{sorted_by, total_ordering, reflexive, antisymmetric, transitive, strongly_connected};
use vstd::seq_lib::lemma_sorted_unique;
use crate::flow::error::FlowError;
use crate::flow::flow_core::string_eq;
use super::crypto::{sha256, sha256_spec};

verus! {

/// What identifies a storage device.
#[derive(Debug)]
pub struct BasicFingerprint {
    /// Soradyne-assigned device ID (stored in .rimsd directory)
    pub soradyne_device_id: Option<String>,
    /// Combined hardware serial + manufacturer ID
    pub hardware_id: Option<String>,
    /// Filesystem UUID
    pub filesystem_uuid: Option<String>,
    /// Hash of bad block positions (monotonic - can only grow)
    pub bad_block_signature: u64,
    /// Exact capacity in bytes
    pub capacity_bytes: u64,
}

/// Ascending order of block numbers.
pub open spec fn block_le() -> spec_fn(u64, u64) -> bool {
    |x: u64, y: u64| x <= y
}

/// The block numbers in ascending order.
pub open spec fn sorted_blocks(blocks: Seq<u64>) -> Seq<u64> {
    blocks.sort_by(block_le())
}

/// The 8-byte little-endian encodings of the numbers, one after another.
pub open spec fn le_concat(s: Seq<u64>) -> Seq<u8>
    decreases s.len(),
{
    if s.len() == 0 {
        Seq::empty()
    } else {
        le_concat(s.drop_last()) + spec_u64_to_le_bytes(s.last())
    }
}

/// Signature of a set of bad blocks: the first 8 bytes, read little-endian, of SHA-256 over
/// the block numbers in ascending order, each as 8 little-endian bytes.
pub open spec fn bad_block_hash(blocks: Seq<u64>) -> u64 {
    spec_u64_from_le_bytes(sha256_spec(le_concat(sorted_blocks(blocks))).take(8))
}

/// Both absent, or both present with the same characters.
pub open spec fn same_opt_str(a: Option<String>, b: Option<String>) -> bool {
    match (a, b) {
        (None, None) => true,
        (Some(x), Some(y)) => x@ == y@,
        _ => false,
    }
}

proof fn lemma_block_le_total()
    ensures
        total_ordering(block_le()),
{
    assert(reflexive(block_le()));
    assert(antisymmetric(block_le()));
    assert(transitive(block_le()));
    assert(strongly_connected(block_le()));
}

/// Sorts block numbers in ascending order.
pub fn sort_blocks(blocks: &[u64]) -> (r: Vec<u64>)
    ensures
        r@ == sorted_blocks(blocks@),
{
    broadcast use vstd::seq_lib::group_to_multiset_ensures;

    let mut r: Vec<u64> = Vec::new();
    let mut k: usize = 0;
    while k < blocks.len()
        invariant
            0 <= k <= blocks@.len(),
            sorted_by(r@, block_le()),
            r@.to_multiset() == blocks@.take(k as int).to_multiset(),
        decreases blocks@.len() - k,
    {
        let x = blocks[k];
        let mut pos: usize = 0;
        while pos < r.len() && r[pos] <= x
            invariant
                0 <= pos <= r@.len(),
                forall|i: int| 0 <= i < pos ==> #[trigger] r@[i] <= x,
            decreases r@.len() - pos,
        {
            pos = pos + 1;
        }
        let ghost old_r = r@;
        proof {
            assert forall|i: int| pos <= i < old_r.len() implies #[trigger] old_r[i] > x by {
                if i > pos {
                    assert(block_le()(old_r[pos as int], old_r[i]));
                }
            }
        }
        r.insert(pos, x);
        proof {
            assert(r@ == old_r.insert(pos as int, x));
            assert forall|i: int, j: int| 0 <= i < j < r@.len() implies #[trigger] block_le()(r@[i], r@[j]) by {
                if i < pos && j > pos {
                    assert(block_le()(old_r[i], old_r[j - 1]) || i == j - 1);
                } else if i > pos {
                    assert(block_le()(old_r[i - 1], old_r[j - 1]));
                } else if i < pos && j < pos {
                    assert(block_le()(old_r[i], old_r[j]));
                }
            }
            assert(blocks@.take(k + 1) == blocks@.take(k as int).push(x));
            vstd::seq_lib::to_multiset_insert(old_r, pos as int, x);
            vstd::seq_lib::to_multiset_build(blocks@.take(k as int), x);
        }
        k = k + 1;
    }
    proof {
        assert(blocks@.take(blocks@.len() as int) =~= blocks@);
        blocks@.lemma_sort_by_ensures(block_le());
        lemma_block_le_total();
        lemma_sorted_unique(r@, sorted_blocks(blocks@), block_le());
    }
    r
}

impl BasicFingerprint {
    /// A fingerprint from its parts; the bad blocks enter through their signature.
    pub fn new(
        soradyne_device_id: Option<String>,
        hardware_id: Option<String>,
        filesystem_uuid: Option<String>,
        bad_blocks: &[u64],
        capacity_bytes: u64,
    ) -> (r: Self)
        ensures
            r.soradyne_device_id == soradyne_device_id,
            r.hardware_id == hardware_id,
            r.filesystem_uuid == filesystem_uuid,
            r.capacity_bytes == capacity_bytes,
            r.bad_block_signature == bad_block_hash(bad_blocks@),
    {
        let bad_block_signature = Self::hash_bad_blocks(bad_blocks);
        BasicFingerprint { soradyne_device_id, hardware_id, filesystem_uuid, bad_block_signature, capacity_bytes }
    }

    /// The signature of a set of bad blocks (see `bad_block_hash`).
    pub fn hash_bad_blocks(bad_blocks: &[u64]) -> (r: u64)
        ensures
            r == bad_block_hash(bad_blocks@),
    {
        let ordered = sort_blocks(bad_blocks);
        let mut message: Vec<u8> = Vec::new();
        let mut i: usize = 0;
        while i < ordered.len()
            invariant
                0 <= i <= ordered@.len(),
                message@ == le_concat(ordered@.take(i as int)),
            decreases ordered@.len() - i,
        {
            let bytes = u64_to_le_bytes(ordered[i]);
            let ghost prev = message@;
            message.extend_from_slice(bytes.as_slice());
            proof {
                assert(message@ =~= prev + bytes@);
                assert(ordered@.take(i + 1).drop_last() =~= ordered@.take(i as int));
            }
            i = i + 1;
        }
        assert(ordered@.take(ordered@.len() as int) =~= ordered@);
        let hash = sha256(message.as_slice());
        let first = slice_subrange(hash.as_slice(), 0, 8);
        assert(first@ == hash@.take(8));
        u64_from_le_bytes(first)
    }

    /// Whether this fingerprint can be a later state of `previous`: the device id, the
    /// hardware id, the filesystem UUID and the capacity are all unchanged.
    pub fn is_valid_evolution(&self, previous: &BasicFingerprint) -> (r: Result<bool, FlowError>)
        ensures
            r matches Ok(b) && b == (same_opt_str(self.soradyne_device_id, previous.soradyne_device_id) && same_opt_str(
                self.hardware_id,
                previous.hardware_id,
            ) && same_opt_str(self.filesystem_uuid, previous.filesystem_uuid) && self.capacity_bytes == previous.capacity_bytes),
    {
        if !opt_str_eq(&self.soradyne_device_id, &previous.soradyne_device_id) {
            return Ok(false);
        }
        if !opt_str_eq(&self.hardware_id, &previous.hardware_id) {
            return Ok(false);
        }
        if !opt_str_eq(&self.filesystem_uuid, &previous.filesystem_uuid) {
            return Ok(false);
        }
        if self.capacity_bytes != previous.capacity_bytes {
            return Ok(false);
        }
        Ok(true)
    }
}

/// Equality of two optional strings.
pub fn opt_str_eq(a: &Option<String>, b: &Option<String>) -> (r: bool)
    ensures
        r == same_opt_str(*a, *b),
{
    match (a, b) {
        (None, None) => true,
        (Some(x), Some(y)) => string_eq(x, y.as_str()),
        _ => false,
    }
}

/// The bad-block signature does not depend on the order in which the blocks are listed:
/// two lists with the same blocks (counted with repetition) have the same signature.
pub proof fn lemma_bad_block_order_independent(a: Seq<u64>, b: Seq<u64>)
    requires
        a.to_multiset() == b.to_multiset(),
    ensures
        bad_block_hash(a) == bad_block_hash(b),
{
    a.lemma_sort_by_ensures(block_le());
    b.lemma_sort_by_ensures(block_le());
    lemma_block_le_total();
    lemma_sorted_unique(sorted_blocks(a), sorted_blocks(b), block_le());
}

/// What one field of two fingerprints says about their being the same device.
#[derive(Clone, Copy, Debug, PartialEq, Eq, Structural)]
pub enum Evidence {
    Matches,
    Differs,
    /// The field is missing from one of the fingerprints.
    Unavailable,
}

/// What each field of two fingerprints says, field by field.
#[derive(Clone, Copy, Debug, PartialEq, Eq, Structural)]
pub struct FingerprintEvidence {
    pub soradyne_device_id: Evidence,
    pub hardware_id: Evidence,
    pub filesystem_uuid: Evidence,
    pub bad_blocks: Evidence,
    pub capacity: Evidence,
}

/// An optional field matches or differs where both fingerprints have it.
pub open spec fn optional_evidence(current: Option<String>, previous: Option<String>) -> Evidence {
    match (current, previous) {
        (Some(c), Some(p)) => if c@ == p@ {
            Evidence::Matches
        } else {
            Evidence::Differs
        },
        _ => Evidence::Unavailable,
    }
}

/// A field that both fingerprints always have matches or differs.
pub open spec fn plain_evidence(same: bool) -> Evidence {
    if same {
        Evidence::Matches
    } else {
        Evidence::Differs
    }
}

fn compare_optional(current: &Option<String>, previous: &Option<String>) -> (r: Evidence)
    ensures
        r == optional_evidence(*current, *previous),
{
    match (current, previous) {
        (Some(c), Some(p)) => if string_eq(c, p.as_str()) {
            Evidence::Matches
        } else {
            Evidence::Differs
        },
        _ => Evidence::Unavailable,
    }
}

/// The evidence each field gives on whether `current` and `previous` fingerprint the
/// same device: the three optional ids where both have them, then the bad-block
/// signature and the capacity.
pub fn compare_fingerprints(current: &BasicFingerprint, previous: &BasicFingerprint) -> (r: FingerprintEvidence)
    ensures
        r.soradyne_device_id == optional_evidence(current.soradyne_device_id, previous.soradyne_device_id),
        r.hardware_id == optional_evidence(current.hardware_id, previous.hardware_id),
        r.filesystem_uuid == optional_evidence(current.filesystem_uuid, previous.filesystem_uuid),
        r.bad_blocks == plain_evidence(current.bad_block_signature == previous.bad_block_signature),
        r.capacity == plain_evidence(current.capacity_bytes == previous.capacity_bytes),
{
    FingerprintEvidence {
        soradyne_device_id: compare_optional(&current.soradyne_device_id, &previous.soradyne_device_id),
        hardware_id: compare_optional(&current.hardware_id, &previous.hardware_id),
        filesystem_uuid: compare_optional(&current.filesystem_uuid, &previous.filesystem_uuid),
        bad_blocks: if current.bad_block_signature == previous.bad_block_signature {
            Evidence::Matches
        } else {
            Evidence::Differs
        },
        capacity: if current.capacity_bytes == previous.capacity_bytes {
            Evidence::Matches
        } else {
            Evidence::Differs
        },
    }
}

} // verus!
