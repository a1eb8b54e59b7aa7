//! Block bookkeeping: the records of where shards live and what a storage setup holds,
//! the metadata store's table of blocks, and the address lists of indirect blocks.

use vstd::prelude::*;
use std::path::PathBuf;
use crate::flow::error::{FlowError, persistence_error};
use crate::storage::block_hex::{hex_block_id, decode_block_id, hex_text, lemma_block_id_hex_round_trip};

verus! {

#[verifier::external_type_specification]
#[verifier::external_body]
pub struct ExPathBuf(PathBuf);

/// The storage configuration of a block manager.
#[derive(Debug, Clone)]
pub struct StorageInfo {
    pub total_devices: usize,
    pub threshold: usize,
    pub total_shards: usize,
    pub rimsd_paths: Vec<PathBuf>,
}

/// Where the shards of a block are, and whether it can be rebuilt.
#[derive(Debug, Clone)]
pub struct BlockDistribution {
    pub block_id: [u8; 32],
    pub total_shards: usize,
    pub available_shards: Vec<ShardInfo>,
    pub missing_shards: Vec<usize>,
    pub can_reconstruct: bool,
    pub original_size: usize,
}

/// One stored shard.
#[derive(Debug, Clone)]
pub struct ShardInfo {
    pub index: usize,
    pub device_path: String,
    pub file_path: String,
    pub size: u64,
}

/// Result of removing shards on purpose and trying to recover.
#[derive(Debug, Clone)]
pub struct DemonstrationResult {
    pub original_shards: usize,
    pub simulated_missing: Vec<usize>,
    pub available_shards: usize,
    pub threshold_required: usize,
    pub recovery_successful: bool,
    pub recovered_data_size: usize,
}

impl BlockDistribution {
    /// The distribution of a block with `total_shards` shards of which `available_shards`
    /// were found and `missing_shards` were not; it can be rebuilt when at least
    /// `threshold` were found.
    pub fn from_shards(
        block_id: [u8; 32],
        total_shards: usize,
        available_shards: Vec<ShardInfo>,
        missing_shards: Vec<usize>,
        threshold: usize,
        original_size: usize,
    ) -> (r: Self)
        ensures
            r.block_id == block_id,
            r.total_shards == total_shards,
            r.available_shards == available_shards,
            r.missing_shards == missing_shards,
            r.can_reconstruct == (available_shards@.len() >= threshold),
            r.original_size == original_size,
    {
        let can_reconstruct = available_shards.len() >= threshold;
        BlockDistribution { block_id, total_shards, available_shards, missing_shards, can_reconstruct, original_size }
    }
}

/// The table of blocks: block id to metadata, each id at most once.
#[derive(Debug)]
pub struct BlockMetadataStore<M> {
    blocks: Vec<([u8; 32], M)>,
    metadata_path: PathBuf,
}

/// The ids are pairwise different.
pub open spec fn ids_distinct<M>(blocks: Seq<([u8; 32], M)>) -> bool {
    forall|i: int, j: int| 0 <= i < blocks.len() && 0 <= j < blocks.len() && i != j ==> #[trigger] blocks[i].0 != #[trigger] blocks[j].0
}

/// The table as a map.
pub open spec fn table_of<M>(blocks: Seq<([u8; 32], M)>) -> Map<[u8; 32], M>
    decreases blocks.len(),
{
    if blocks.len() == 0 {
        Map::empty()
    } else {
        table_of(blocks.drop_last()).insert(blocks.last().0, blocks.last().1)
    }
}

proof fn lemma_table_lookup<M>(blocks: Seq<([u8; 32], M)>, i: int)
    requires
        ids_distinct(blocks),
        0 <= i < blocks.len(),
    ensures
        table_of(blocks).contains_key(blocks[i].0),
        table_of(blocks)[blocks[i].0] == blocks[i].1,
    decreases blocks.len(),
{
    if i < blocks.len() - 1 {
        let pre = blocks.drop_last();
        assert(pre[i] == blocks[i]);
        assert(blocks.last().0 != blocks[i].0);
        lemma_table_lookup(pre, i);
    }
}

proof fn lemma_table_absent<M>(blocks: Seq<([u8; 32], M)>, id: [u8; 32])
    requires
        forall|i: int| 0 <= i < blocks.len() ==> (#[trigger] blocks[i]).0 != id,
    ensures
        !table_of(blocks).contains_key(id),
    decreases blocks.len(),
{
    if blocks.len() > 0 {
        let pre = blocks.drop_last();
        assert forall|i: int| 0 <= i < pre.len() implies (#[trigger] pre[i]).0 != id by {
            assert(pre[i] == blocks[i]);
        }
        lemma_table_absent(pre, id);
    }
}

impl<M> BlockMetadataStore<M> {
    #[verifier::type_invariant]
    spec fn store_ok(self) -> bool {
        ids_distinct(self.blocks@)
    }

    /// The blocks by id.
    pub closed spec fn view(&self) -> Map<[u8; 32], M> {
        table_of(self.blocks@)
    }

    /// Where the table is saved.
    pub closed spec fn path_spec(&self) -> PathBuf {
        self.metadata_path
    }

    /// An empty table, saved at `metadata_path` (what loading gives when there is no
    /// file yet).
    pub fn new(metadata_path: PathBuf) -> (r: Self)
        ensures
            r@ == Map::<[u8; 32], M>::empty(),
            r.path_spec() == metadata_path,
    {
        BlockMetadataStore { blocks: Vec::new(), metadata_path }
    }

    /// Adds a block to the table, replacing the metadata of the same id. (Saving the
    /// table to its file follows each addition.)
    pub fn add_block(&mut self, id: [u8; 32], metadata: M)
        ensures
            final(self)@ == old(self)@.insert(id, metadata),
            final(self).path_spec() == old(self).path_spec(),
    {
        proof {
            use_type_invariant(&*self);
        }
        let mut i: usize = 0;
        let mut found: Option<usize> = None;
        while i < self.blocks.len()
            invariant
                0 <= i <= self.blocks@.len(),
                found is None ==> forall|k: int| 0 <= k < i ==> (#[trigger] self.blocks@[k]).0 != id,
                found matches Some(f) ==> f < self.blocks@.len() && self.blocks@[f as int].0 == id,
            decreases self.blocks@.len() - i,
        {
            if found.is_none() && ids_equal(&self.blocks[i].0, &id) {
                found = Some(i);
            }
            i = i + 1;
        }
        let ghost old_blocks = self.blocks@;
        let mut blocks: Vec<([u8; 32], M)> = Vec::new();
        std::mem::swap(&mut blocks, &mut self.blocks);
        match found {
            Some(f) => {
                blocks.set(f, (id, metadata));
                proof {
                    lemma_table_update(old_blocks, f as int, metadata);
                    assert(ids_distinct(blocks@)) by {
                        assert forall|a: int, b: int| 0 <= a < blocks@.len() && 0 <= b < blocks@.len() && a != b implies #[trigger] blocks@[a].0 != #[trigger] blocks@[b].0 by {
                            assert(blocks@[a].0 == old_blocks[a].0 && blocks@[b].0 == old_blocks[b].0);
                        }
                    }
                }
            },
            None => {
                blocks.push((id, metadata));
                proof {
                    assert(blocks@.drop_last() == old_blocks);
                    assert(ids_distinct(blocks@)) by {
                        assert forall|a: int, b: int| 0 <= a < blocks@.len() && 0 <= b < blocks@.len() && a != b implies #[trigger] blocks@[a].0 != #[trigger] blocks@[b].0 by {
                            if a < old_blocks.len() && b < old_blocks.len() {
                                assert(blocks@[a] == old_blocks[a] && blocks@[b] == old_blocks[b]);
                            } else if a < old_blocks.len() {
                                assert(blocks@[a] == old_blocks[a]);
                            } else {
                                assert(blocks@[b] == old_blocks[b]);
                            }
                        }
                    }
                }
            },
        }
        self.blocks = blocks;
    }

    /// The metadata of a block, or an error when the block is not in the table.
    pub fn get_block(&self, id: &[u8; 32]) -> (r: Result<&M, FlowError>)
        ensures
            r is Ok <==> self@.contains_key(*id),
            r matches Ok(m) ==> *m == self@[*id],
            r matches Err(e) ==> e is PersistenceError,
    {
        proof {
            use_type_invariant(self);
        }
        let mut i: usize = 0;
        while i < self.blocks.len()
            invariant
                ids_distinct(self.blocks@),
                0 <= i <= self.blocks@.len(),
                forall|k: int| 0 <= k < i ==> (#[trigger] self.blocks@[k]).0 != *id,
            decreases self.blocks@.len() - i,
        {
            if ids_equal(&self.blocks[i].0, id) {
                proof {
                    lemma_table_lookup(self.blocks@, i as int);
                }
                return Ok(&self.blocks[i].1);
            }
            i = i + 1;
        }
        proof {
            lemma_table_absent(self.blocks@, *id);
        }
        Err(persistence_error("Block not found"))
    }

    /// The entries of the table, for saving.
    pub fn entries(&self) -> (r: &Vec<([u8; 32], M)>)
        ensures
            table_of(r@) == self@,
            ids_distinct(r@),
    {
        proof {
            use_type_invariant(self);
        }
        &self.blocks
    }

    /// Where the table is saved.
    pub fn metadata_path(&self) -> (r: &PathBuf)
        ensures
            *r == self.path_spec(),
    {
        &self.metadata_path
    }
}

proof fn lemma_table_has<M>(blocks: Seq<([u8; 32], M)>, id: [u8; 32]) -> (i: int)
    requires
        table_of(blocks).contains_key(id),
    ensures
        0 <= i < blocks.len(),
        blocks[i].0 == id,
{
    if forall|k: int| 0 <= k < blocks.len() ==> (#[trigger] blocks[k]).0 != id {
        lemma_table_absent(blocks, id);
    }
    choose|k: int| 0 <= k < blocks.len() && (#[trigger] blocks[k]).0 == id
}

proof fn lemma_index_of<A>(s: Seq<A>, x: A) -> (i: int)
    requires
        s.contains(x),
    ensures
        0 <= i < s.len(),
        s[i] == x,
{
    choose|k: int| 0 <= k < s.len() && s[k] == x
}

/// The same blocks, without repeated ids, make the same table in any order: a table
/// written out and read back in another order is the table it was.
pub proof fn lemma_table_order_free<M>(a: Seq<([u8; 32], M)>, b: Seq<([u8; 32], M)>)
    requires
        ids_distinct(a),
        a.to_multiset() == b.to_multiset(),
    ensures
        ids_distinct(b),
        table_of(a) == table_of(b),
{
    broadcast use vstd::seq_lib::group_to_multiset_ensures;
    broadcast use vstd::multiset::group_multiset_axioms;

    assert forall|i: int, j: int| 0 <= i < b.len() && 0 <= j < b.len() && i != j implies #[trigger] b[i].0
        != #[trigger] b[j].0 by {
        if b[i].0 == b[j].0 {
            assert(b.contains(b[i]) && b.contains(b[j]));
            assert(b.to_multiset().count(b[i]) > 0 && b.to_multiset().count(b[j]) > 0);
            assert(a.contains(b[i]) && a.contains(b[j]));
            let ia = lemma_index_of(a, b[i]);
            let ja = lemma_index_of(a, b[j]);
            if ia == ja {
                assert(b[i] == b[j]);
                assert(b.to_multiset().count(b[i]) >= 2) by {
                    let rest = b.remove(i);
                    assert(rest.contains(b[j])) by {
                        if j < i {
                            assert(rest[j] == b[j]);
                        } else {
                            assert(rest[j - 1] == b[j]);
                        }
                    }
                    assert(b.remove(i).to_multiset() =~= b.to_multiset().remove(b[i]));
                    assert(rest.to_multiset().count(b[i]) > 0);
                }
                assert(a.to_multiset().count(a[ia]) >= 2);
                assert(a.remove(ia).to_multiset() =~= a.to_multiset().remove(a[ia]));
                assert(a.remove(ia).to_multiset().count(a[ia]) > 0);
                assert(a.remove(ia).contains(a[ia]));
                let k = lemma_index_of(a.remove(ia), a[ia]);
                let ka = if k < ia { k } else { k + 1 };
                assert(a[ka] == a[ia] && ka != ia);
            }
        }
    }
    let ta = table_of(a);
    let tb = table_of(b);
    assert forall|id: [u8; 32]| #[trigger] ta.contains_key(id) implies tb.contains_key(id) && tb[id] == ta[id] by {
        let i = lemma_table_has(a, id);
        lemma_table_lookup(a, i);
        assert(a.contains(a[i]));
        assert(a.to_multiset().count(a[i]) > 0);
        assert(b.contains(a[i]));
        let j = lemma_index_of(b, a[i]);
        lemma_table_lookup(b, j);
    }
    assert forall|id: [u8; 32]| #[trigger] tb.contains_key(id) implies ta.contains_key(id) by {
        let j = lemma_table_has(b, id);
        assert(b.contains(b[j]));
        assert(b.to_multiset().count(b[j]) > 0);
        assert(a.contains(b[j]));
        let i = lemma_index_of(a, b[j]);
        lemma_table_lookup(a, i);
    }
    assert(ta =~= tb);
}

/// The entries with their hexadecimal keys read as block ids.
pub open spec fn decoded_blocks<M>(entries: Seq<(String, M)>) -> Seq<([u8; 32], M)> {
    entries.map_values(|e: (String, M)| (hex_block_id(e.0@)->0, e.1))
}

/// Entries written with each block id as its hexadecimal text read back as the
/// blocks they were written from.
pub proof fn lemma_hex_entries_round_trip<M>(blocks: Seq<([u8; 32], M)>, entries: Seq<(String, M)>)
    requires
        entries.len() == blocks.len(),
        forall|i: int|
            0 <= i < entries.len() ==> (#[trigger] entries[i]).0@ == hex_text(blocks[i].0@) && entries[i].1
                == blocks[i].1,
    ensures
        decoded_blocks(entries) == blocks,
{
    assert forall|i: int| 0 <= i < blocks.len() implies #[trigger] decoded_blocks(entries)[i] == blocks[i] by {
        lemma_block_id_hex_round_trip(blocks[i].0);
        assert(entries[i].0@ == hex_text(blocks[i].0@));
    }
    assert(decoded_blocks(entries) =~= blocks);
}

impl<M> BlockMetadataStore<M> {
    /// The table saved at `metadata_path` whose entries, keyed by block id in
    /// hexadecimal, were read from it (later entries replace earlier ones of the same
    /// id). Fails when a key is not 64 hexadecimal digits.
    pub fn from_hex_entries(metadata_path: PathBuf, entries: Vec<(String, M)>) -> (r: Result<BlockMetadataStore<M>, FlowError>)
        ensures
            r is Ok <==> forall|i: int| 0 <= i < entries@.len() ==> (#[trigger] hex_block_id(entries@[i].0@)) is Some,
            r matches Ok(s) ==> s@ == table_of(decoded_blocks(entries@)) && s.path_spec() == metadata_path,
            r matches Err(e) ==> e is PersistenceError,
    {
        let ghost all = entries@;
        let mut store = BlockMetadataStore::new(metadata_path);
        let mut rest = entries;
        let ghost mut done: int = 0;
        while rest.len() > 0
            invariant
                0 <= done <= all.len(),
                all == entries@,
                rest@ == all.skip(done),
                forall|i: int| 0 <= i < done ==> (#[trigger] hex_block_id(all[i].0@)) is Some,
                store@ == table_of(decoded_blocks(all.take(done))),
                store.path_spec() == metadata_path,
            decreases rest@.len(),
        {
            let (key, metadata) = rest.remove(0);
            assert(key == all[done].0 && metadata == all[done].1) by {
                assert(all.skip(done)[0] == all[done]);
            }
            match decode_block_id(key.as_str()) {
                Some(id) => {
                    store.add_block(id, metadata);
                    proof {
                        let prev = decoded_blocks(all.take(done));
                        let next = decoded_blocks(all.take(done + 1));
                        assert(next =~= prev.push((id, all[done].1)));
                        assert(next.drop_last() =~= prev);
                        assert(table_of(next) == table_of(prev).insert(id, all[done].1));
                        done = done + 1;
                        assert(rest@ =~= all.skip(done));
                    }
                },
                None => {
                    assert(hex_block_id(all[done].0@) is None);
                    return Err(persistence_error("Invalid block ID in metadata"));
                },
            }
        }
        proof {
            assert(all.take(done) =~= all);
        }
        Ok(store)
    }
}

proof fn lemma_table_update<M>(blocks: Seq<([u8; 32], M)>, f: int, m: M)
    requires
        ids_distinct(blocks),
        0 <= f < blocks.len(),
    ensures
        table_of(blocks.update(f, (blocks[f].0, m))) == table_of(blocks).insert(blocks[f].0, m),
    decreases blocks.len(),
{
    let id = blocks[f].0;
    let upd = blocks.update(f, (id, m));
    let pre = blocks.drop_last();
    if f == blocks.len() - 1 {
        assert(upd.drop_last() =~= pre);
        assert(table_of(upd) =~= table_of(blocks).insert(id, m));
    } else {
        assert(ids_distinct(pre)) by {
            assert forall|a: int, b: int| 0 <= a < pre.len() && 0 <= b < pre.len() && a != b implies #[trigger] pre[a].0 != #[trigger] pre[b].0 by {
                assert(pre[a] == blocks[a] && pre[b] == blocks[b]);
            }
        }
        assert(pre[f] == blocks[f]);
        lemma_table_update(pre, f, m);
        assert(upd.drop_last() =~= pre.update(f, (id, m)));
        assert(upd.last() == blocks.last());
        assert(blocks.last().0 != id);
        assert(table_of(upd) =~= table_of(blocks).insert(id, m));
    }
}

/// Equality of two block ids.
pub fn ids_equal(a: &[u8; 32], b: &[u8; 32]) -> (r: bool)
    ensures
        r == (*a == *b),
{
    broadcast use vstd::array::group_array_axioms;

    let mut i: usize = 0;
    while i < 32
        invariant
            0 <= i <= 32,
            forall|k: int| 0 <= k < i ==> a@[k] == b@[k],
        decreases 32 - i,
    {
        if a[i] != b[i] {
            return false;
        }
        i = i + 1;
    }
    assert(*a =~= *b);
    true
}

/// The block ids listed in an indirect block: its bytes in groups of 32. Fails when the
/// length is not a multiple of 32.
pub fn parse_addresses(data: &[u8]) -> (r: Result<Vec<[u8; 32]>, FlowError>)
    ensures
        r is Ok <==> data@.len() % 32 == 0,
        r matches Ok(ids) ==> ids@.len() == data@.len() / 32 && forall|i: int|
            0 <= i < ids@.len() ==> (#[trigger] ids@[i])@ == data@.subrange(32 * i, 32 * i + 32),
        r matches Err(e) ==> e is PersistenceError,
{
    if data.len() % 32 != 0 {
        return Err(persistence_error("Invalid indirect block data"));
    }
    let dlen = data.len();
    let count = dlen / 32;
    let mut addresses: Vec<[u8; 32]> = Vec::new();
    let mut i: usize = 0;
    while i < count
        invariant
            count == data@.len() / 32,
            dlen == data@.len(),
            data@.len() % 32 == 0,
            0 <= i <= count,
            addresses@.len() == i,
            forall|k: int| 0 <= k < i ==> (#[trigger] addresses@[k])@ == data@.subrange(32 * k, 32 * k + 32),
        decreases count - i,
    {
        proof {
            assert(32 * i + 32 <= data@.len()) by (nonlinear_arith)
                requires
                    i < count,
                    count == data@.len() / 32,
            ;
        }
        let mut id = [0u8; 32];
        let mut b: usize = 0;
        while b < 32
            invariant
                32 * i + 32 <= data@.len(),
                dlen == data@.len(),
                0 <= b <= 32,
                forall|k: int| 0 <= k < b ==> id@[k] == data@[32 * i + k],
            decreases 32 - b,
        {
            id[b] = data[32 * i + b];
            b = b + 1;
        }
        assert(id@ =~= data@.subrange(32 * i as int, 32 * i + 32));
        addresses.push(id);
        i = i + 1;
    }
    Ok(addresses)
}

/// The 32-byte ids, one after another.
pub open spec fn addresses_bytes(ids: Seq<[u8; 32]>) -> Seq<u8>
    decreases ids.len(),
{
    if ids.len() == 0 {
        Seq::empty()
    } else {
        addresses_bytes(ids.drop_last()) + ids.last()@
    }
}

/// The contents of an indirect block: the ids of the blocks it points to, one after
/// another (as a large file lists its chunk blocks).
pub fn encode_addresses(ids: &[[u8; 32]]) -> (r: Vec<u8>)
    ensures
        r@ == addresses_bytes(ids@),
{
    let mut out: Vec<u8> = Vec::new();
    let mut i: usize = 0;
    while i < ids.len()
        invariant
            0 <= i <= ids@.len(),
            out@ == addresses_bytes(ids@.take(i as int)),
        decreases ids@.len() - i,
    {
        let ghost prev = out@;
        out.extend_from_slice(ids[i].as_slice());
        proof {
            assert(out@ =~= prev + ids@[i as int]@);
            assert(ids@.take(i + 1).drop_last() =~= ids@.take(i as int));
        }
        i = i + 1;
    }
    assert(ids@.take(ids@.len() as int) =~= ids@);
    out
}

proof fn lemma_addresses_layout(ids: Seq<[u8; 32]>)
    ensures
        addresses_bytes(ids).len() == 32 * ids.len(),
        forall|i: int| 0 <= i < ids.len() ==> #[trigger] addresses_bytes(ids).subrange(32 * i, 32 * i + 32) == ids[i]@,
    decreases ids.len(),
{
    if ids.len() > 0 {
        let pre = ids.drop_last();
        lemma_addresses_layout(pre);
        let b = addresses_bytes(ids);
        let pb = addresses_bytes(pre);
        assert forall|i: int| 0 <= i < ids.len() implies #[trigger] b.subrange(32 * i, 32 * i + 32) == ids[i]@ by {
            if i < pre.len() {
                assert(pb.subrange(32 * i, 32 * i + 32) == pre[i]@);
                assert(b.subrange(32 * i, 32 * i + 32) =~= pb.subrange(32 * i, 32 * i + 32));
            } else {
                assert(b.subrange(32 * i, 32 * i + 32) =~= ids.last()@);
            }
        }
    }
}

/// Indirect block round trip: the ids written into an indirect block are the ids read
/// back from it, in order.
pub proof fn lemma_addresses_round_trip(ids: Seq<[u8; 32]>, parsed: Seq<[u8; 32]>)
    requires
        parsed.len() == addresses_bytes(ids).len() / 32,
        forall|i: int| 0 <= i < parsed.len() ==> (#[trigger] parsed[i])@ == addresses_bytes(ids).subrange(32 * i, 32 * i + 32),
    ensures
        addresses_bytes(ids).len() % 32 == 0,
        parsed == ids,
{
    broadcast use vstd::array::group_array_axioms;

    lemma_addresses_layout(ids);
    assert(parsed.len() == ids.len());
    assert forall|i: int| 0 <= i < ids.len() implies parsed[i] == ids[i] by {
        assert(parsed[i]@ == ids[i]@);
        assert(parsed[i] =~= ids[i]);
    }
    assert(parsed =~= ids);
}

/// What was added is what is found: after adding metadata under an id, looking the id up
/// gives that metadata, and every other id keeps what it had.
pub proof fn lemma_add_then_get<M>(before: Map<[u8; 32], M>, id: [u8; 32], metadata: M, other: [u8; 32])
    ensures
        before.insert(id, metadata).contains_key(id),
        before.insert(id, metadata)[id] == metadata,
        other != id ==> (before.insert(id, metadata).contains_key(other) == before.contains_key(other)),
        other != id && before.contains_key(other) ==> before.insert(id, metadata)[other] == before[other],
{
}

} // verus!
