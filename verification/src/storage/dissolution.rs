//! Dissolution files and the records of dissolution runs.
//!
//! A dissolution file names the root block under which its data is stored in a
//! dissolution backend. Storing and fetching the data goes through the backend; the file
//! records what the backend answered.

use vstd::prelude::*;
use super::erasure::BlockId;
use crate::flow::error::FlowError;

verus! {

/// Result of a dissolution demonstration.
#[derive(Debug, Clone)]
pub struct DissolutionDemo {
    pub block_id: BlockId,
    pub original_shards: usize,
    pub simulated_missing: Vec<usize>,
    pub available_shards: usize,
    pub threshold_required: usize,
    pub can_reconstruct: bool,
    pub reconstruction_successful: bool,
    pub data_integrity_verified: bool,
    pub recovered_data_size: usize,
}

/// How many blocks can still be rebuilt.
#[derive(Debug, Clone)]
pub struct ReconstructionStats {
    /// blocks with exactly threshold shards
    pub blocks_at_risk: usize,
    /// blocks with more than threshold shards
    pub blocks_safe: usize,
    /// blocks with fewer than threshold shards
    pub blocks_lost: usize,
}

/// A block whose shard lookup gave `a` shards (`None`: the lookup failed) is lost.
pub open spec fn block_lost(a: Option<usize>, threshold: usize) -> bool {
    match a {
        Some(n) => n < threshold,
        None => true,
    }
}

/// A block with `a` shards is at risk: one more lost shard loses it.
pub open spec fn block_at_risk(a: Option<usize>, threshold: usize) -> bool {
    a == Some(threshold)
}

/// A block with `a` shards is safe: it has shards to spare.
pub open spec fn block_safe(a: Option<usize>, threshold: usize) -> bool {
    match a {
        Some(n) => n > threshold,
        None => false,
    }
}

/// Every block falls in exactly one class: a block with exactly `threshold` shards is
/// at risk, one with more is safe, one with fewer, or whose lookup failed, is lost.
pub proof fn lemma_block_classes(a: Option<usize>, threshold: usize)
    ensures
        a == Some(threshold) ==> block_at_risk(a, threshold) && !block_safe(a, threshold) && !block_lost(a, threshold),
        (a matches Some(n) && n > threshold) ==> block_safe(a, threshold) && !block_at_risk(a, threshold) && !block_lost(
            a,
            threshold,
        ),
        (a matches Some(n) && n < threshold) ==> block_lost(a, threshold) && !block_at_risk(a, threshold) && !block_safe(
            a,
            threshold,
        ),
        a is None ==> block_lost(a, threshold) && !block_at_risk(a, threshold) && !block_safe(a, threshold),
{
}

/// The three counts add up to the number of blocks, and each is the number of blocks
/// with exactly, more than, and fewer than `threshold` shards (failed lookups with the
/// fewer).
pub proof fn lemma_stats_partition(available: Seq<Option<usize>>, threshold: usize)
    ensures
        available.filter(|a: Option<usize>| block_at_risk(a, threshold)).len() == available.filter(
            |a: Option<usize>| a == Some(threshold),
        ).len(),
        available.filter(|a: Option<usize>| block_safe(a, threshold)).len() == available.filter(
            |a: Option<usize>| a matches Some(n) && n > threshold,
        ).len(),
        available.filter(|a: Option<usize>| block_lost(a, threshold)).len() == available.filter(
            |a: Option<usize>| a is None || (a matches Some(n) && n < threshold),
        ).len(),
        available.filter(|a: Option<usize>| block_at_risk(a, threshold)).len() + available.filter(
            |a: Option<usize>| block_safe(a, threshold),
        ).len() + available.filter(|a: Option<usize>| block_lost(a, threshold)).len() == available.len(),
    decreases available.len(),
{
    let risk = |a: Option<usize>| block_at_risk(a, threshold);
    let safe = |a: Option<usize>| block_safe(a, threshold);
    let lost = |a: Option<usize>| block_lost(a, threshold);
    let risk2 = |a: Option<usize>| a == Some(threshold);
    let safe2 = |a: Option<usize>| a matches Some(n) && n > threshold;
    let lost2 = |a: Option<usize>| a is None || (a matches Some(n) && n < threshold);
    if available.len() == 0 {
        reveal(Seq::filter);
    } else {
        let pre = available.drop_last();
        let x = available.last();
        lemma_stats_partition(pre, threshold);
        assert(pre.push(x) =~= available);
        pre.lemma_filter_push(x, risk);
        pre.lemma_filter_push(x, safe);
        pre.lemma_filter_push(x, lost);
        pre.lemma_filter_push(x, risk2);
        pre.lemma_filter_push(x, safe2);
        pre.lemma_filter_push(x, lost2);
    }
}

impl ReconstructionStats {
    /// Counts the blocks by the number of shards found for each against the threshold;
    /// a block whose shard lookup failed (`None`) counts as lost.
    pub fn from_available_counts(available: &[Option<usize>], threshold: usize) -> (r: Self)
        ensures
            r.blocks_at_risk == available@.filter(|a: Option<usize>| block_at_risk(a, threshold)).len(),
            r.blocks_safe == available@.filter(|a: Option<usize>| block_safe(a, threshold)).len(),
            r.blocks_lost == available@.filter(|a: Option<usize>| block_lost(a, threshold)).len(),
            r.blocks_at_risk + r.blocks_safe + r.blocks_lost == available@.len(),
    {
        let ghost risk = |a: Option<usize>| block_at_risk(a, threshold);
        let ghost safe_p = |a: Option<usize>| block_safe(a, threshold);
        let ghost lost_p = |a: Option<usize>| block_lost(a, threshold);
        let mut at_risk: usize = 0;
        let mut safe: usize = 0;
        let mut lost: usize = 0;
        let mut i: usize = 0;
        while i < available.len()
            invariant
                0 <= i <= available@.len(),
                risk == (|a: Option<usize>| block_at_risk(a, threshold)),
                safe_p == (|a: Option<usize>| block_safe(a, threshold)),
                lost_p == (|a: Option<usize>| block_lost(a, threshold)),
                at_risk == available@.take(i as int).filter(risk).len(),
                safe == available@.take(i as int).filter(safe_p).len(),
                lost == available@.take(i as int).filter(lost_p).len(),
                at_risk + safe + lost == i,
            decreases available@.len() - i,
        {
            proof {
                let pre = available@.take(i as int);
                assert(available@.take(i + 1) == pre.push(available@[i as int]));
                pre.lemma_filter_push(available@[i as int], risk);
                pre.lemma_filter_push(available@[i as int], safe_p);
                pre.lemma_filter_push(available@[i as int], lost_p);
            }
            match available[i] {
                Some(a) => {
                    if a == threshold {
                        at_risk = at_risk + 1;
                    } else if a > threshold {
                        safe = safe + 1;
                    } else {
                        lost = lost + 1;
                    }
                },
                None => {
                    lost = lost + 1;
                },
            }
            i = i + 1;
        }
        assert(available@.take(available@.len() as int) == available@);
        ReconstructionStats { blocks_at_risk: at_risk, blocks_safe: safe, blocks_lost: lost }
    }
}

/// A file stored in a dissolution backend `S`: its root block, once written, and its size.
pub struct DissolutionFile<S> {
    storage: S,
    root_block: Option<BlockId>,
    size: usize,
}

impl<S> DissolutionFile<S> {
    /// The backend the file lives in.
    pub closed spec fn storage_spec(&self) -> S {
        self.storage
    }

    /// The root block, once written.
    pub closed spec fn root_spec(&self) -> Option<BlockId> {
        self.root_block
    }

    /// The file size in bytes.
    pub closed spec fn size_spec(&self) -> usize {
        self.size
    }

    /// A new, empty file: no root block, size 0.
    pub fn new(storage: S) -> (r: Self)
        ensures
            r.storage_spec() == storage,
            r.root_spec() is None,
            r.size_spec() == 0,
    {
        DissolutionFile { storage, root_block: None, size: 0 }
    }

    /// An existing file, from its root block and size.
    pub fn from_existing(storage: S, root_block: BlockId, size: usize) -> (r: Self)
        ensures
            r.storage_spec() == storage,
            r.root_spec() == Some(root_block),
            r.size_spec() == size,
    {
        DissolutionFile { storage, root_block: Some(root_block), size }
    }

    /// The backend the file lives in.
    pub fn storage(&self) -> (r: &S)
        ensures
            *r == self.storage_spec(),
    {
        &self.storage
    }

    /// Get the root block ID for storage/sharing
    pub fn root_block(&self) -> (r: Option<BlockId>)
        ensures
            r == self.root_spec(),
    {
        self.root_block
    }

    /// Get file size
    pub fn size(&self) -> (r: usize)
        ensures
            r == self.size_spec(),
    {
        self.size
    }

    /// Records what the backend answered to storing `size` bytes of data: the block it
    /// stored them under becomes the file's root; an error leaves the file as it was and
    /// is passed on.
    pub fn record_write(&mut self, stored: Result<BlockId, FlowError>, size: usize) -> (r: Result<(), FlowError>)
        ensures
            final(self).storage_spec() == old(self).storage_spec(),
            stored matches Ok(id) ==> r is Ok && final(self).root_spec() == Some(id) && final(self).size_spec() == size,
            stored matches Err(e) ==> r == Err::<(), FlowError>(e) && final(self).root_spec() == old(self).root_spec()
                && final(self).size_spec() == old(self).size_spec(),
    {
        match stored {
            Ok(block_id) => {
                self.root_block = Some(block_id);
                self.size = size;
                Ok(())
            },
            Err(e) => Err(e),
        }
    }
}

} // verus!
