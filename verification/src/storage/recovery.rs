//! Putting received shards back in place and recovering the data shards with
//! Reed-Solomon reconstruction.
//!
//! Shards arrive as `(position, bytes)` entries with pairwise different positions, as the
//! entries of a map from position to shard.

use vstd::prelude::*;
use crate::flow::error::{FlowError, persistence_error};
use super::rs_codec::{
    rs_reconstruct, rs_codeword, rs_counts_valid, present_shards_uniform, present_count, consistent_with,
};
use super::shard_layout::concat_shards;

verus! {

/// The entries carry pairwise different positions.
pub open spec fn keys_distinct<T>(entries: Seq<(usize, T)>) -> bool {
    forall|i: int, j: int|
        0 <= i < entries.len() && 0 <= j < entries.len() && i != j ==> #[trigger] entries[i].0 != #[trigger] entries[j].0
}

/// Some entry sits at position `k`.
pub open spec fn has_entry(entries: Seq<(usize, Vec<u8>)>, k: int) -> bool {
    exists|j: int| 0 <= j < entries.len() && #[trigger] entries[j].0 == k
}

/// The entry at position `k`.
pub open spec fn entry_at(entries: Seq<(usize, Vec<u8>)>, k: int) -> int {
    choose|j: int| 0 <= j < entries.len() && #[trigger] entries[j].0 == k
}

/// Number of entries among the first `m` whose position is below `n`.
pub open spec fn entries_below(entries: Seq<(usize, Vec<u8>)>, n: nat, m: nat) -> nat
    decreases m,
{
    if m == 0 {
        0
    } else {
        entries_below(entries, n, (m - 1) as nat) + if entries[m - 1].0 < n {
            1nat
        } else {
            0nat
        }
    }
}

/// All entries below position `n` are nonempty and of one length.
pub open spec fn entries_uniform(entries: Seq<(usize, Vec<u8>)>, n: nat) -> bool {
    forall|i: int, j: int|
        0 <= i < entries.len() && 0 <= j < entries.len() && entries[i].0 < n && entries[j].0 < n ==> (
        #[trigger] entries[i]).1@.len() == (#[trigger] entries[j]).1@.len() && entries[i].1@.len() > 0
}

/// Reed-Solomon reconstruction for `t` data and `n - t` parity shards can work from these
/// entries: those below position `n` are nonempty, of one length, and at least `t`.
pub open spec fn rs_ready(entries: Seq<(usize, Vec<u8>)>, t: nat, n: nat) -> bool {
    &&& rs_counts_valid(t, (n - t) as nat)
    &&& entries_uniform(entries, n)
    &&& entries_below(entries, n, entries.len()) >= t
}

/// The entries below position `n` are pieces of the codeword of the data shards `data`.
pub open spec fn entries_consistent(entries: Seq<(usize, Vec<u8>)>, data: Seq<Seq<u8>>, n: nat) -> bool {
    forall|j: int|
        0 <= j < entries.len() && #[trigger] entries[j].0 < n ==> entries[j].1@ == rs_codeword(
            data,
            (n - data.len()) as nat,
        )[entries[j].0 as int]
}

proof fn lemma_count_update(v: Seq<Option<Vec<u8>>>, k: int, x: Vec<u8>, m: nat)
    requires
        0 <= k < v.len(),
        v[k] is None,
        m <= v.len(),
    ensures
        present_count(v.update(k, Some(x)), m) == present_count(v, m) + if k < m {
            1nat
        } else {
            0nat
        },
    decreases m,
{
    if m > 0 {
        lemma_count_update(v, k, x, (m - 1) as nat);
    }
}

/// The shards of positions `0..n`, each the entry at that position or missing.
fn place_shards(entries: &Vec<(usize, Vec<u8>)>, n: usize) -> (v: Vec<Option<Vec<u8>>>)
    requires
        keys_distinct(entries@),
    ensures
        v@.len() == n,
        forall|k: int| 0 <= k < n ==> ((#[trigger] v@[k]) is Some <==> has_entry(entries@, k)),
        forall|k: int| 0 <= k < n && (#[trigger] v@[k]) is Some ==> v@[k]->0@ == entries@[entry_at(entries@, k)].1@,
        present_count(v@, n as nat) == entries_below(entries@, n as nat, entries@.len()),
{
    let mut v: Vec<Option<Vec<u8>>> = Vec::new();
    let mut k: usize = 0;
    while k < n
        invariant
            k <= n,
            v@.len() == k,
            forall|i: int| 0 <= i < k ==> (#[trigger] v@[i]) is None,
        decreases n - k,
    {
        v.push(None);
        k = k + 1;
    }
    proof {
        assert forall|m: nat| m <= n implies present_count(v@, m) == 0 by {
            lemma_none_count(v@, m);
        }
    }
    let mut j: usize = 0;
    while j < entries.len()
        invariant
            keys_distinct(entries@),
            v@.len() == n,
            0 <= j <= entries@.len(),
            forall|k: int|
                0 <= k < n ==> ((#[trigger] v@[k]) is Some <==> exists|i: int| 0 <= i < j && #[trigger] entries@[i].0 == k),
            forall|i: int| 0 <= i < j && entries@[i].0 < n ==> (#[trigger] v@[entries@[i].0 as int])->0@ == entries@[i].1@,
            present_count(v@, n as nat) == entries_below(entries@, n as nat, j as nat),
        decreases entries@.len() - j,
    {
        let pos = entries[j].0;
        if pos < n {
            proof {
                if v@[pos as int] is Some {
                    let i = choose|i: int| 0 <= i < j && #[trigger] entries@[i].0 == pos;
                    assert(entries@[i].0 != entries@[j as int].0);
                }
            }
            let shard = entries[j].1.clone();
            proof {
                lemma_count_update(v@, pos as int, shard, n as nat);
            }
            v.set(pos, Some(shard));
        }
        proof {
            assert forall|k: int| 0 <= k < n implies ((#[trigger] v@[k]) is Some <==> exists|i: int|
                0 <= i < j + 1 && #[trigger] entries@[i].0 == k) by {
                if k == pos {
                    assert(entries@[j as int].0 == k);
                }
                if exists|i: int| 0 <= i < j + 1 && #[trigger] entries@[i].0 == k {
                    let i = choose|i: int| 0 <= i < j + 1 && #[trigger] entries@[i].0 == k;
                    if i < j {
                        assert(exists|i2: int| 0 <= i2 < j && #[trigger] entries@[i2].0 == k);
                    }
                }
            }
            assert forall|i: int| 0 <= i < j + 1 && entries@[i].0 < n implies (#[trigger] v@[entries@[i].0 as int])->0@
                == entries@[i].1@ by {
                if i < j {
                    assert(entries@[i].0 != entries@[j as int].0);
                }
            }
        }
        j = j + 1;
    }
    proof {
        assert forall|k: int| 0 <= k < n && (#[trigger] v@[k]) is Some implies v@[k]->0@ == entries@[entry_at(
            entries@,
            k,
        )].1@ by {
            let i = choose|i: int| 0 <= i < entries@.len() && #[trigger] entries@[i].0 == k;
            assert(entries@[i].0 == k);
            assert(entries@[entry_at(entries@, k)].0 == k);
        }
    }
    v
}

proof fn lemma_none_count(v: Seq<Option<Vec<u8>>>, m: nat)
    requires
        m <= v.len(),
        forall|i: int| 0 <= i < v.len() ==> (#[trigger] v[i]) is None,
    ensures
        present_count(v, m) == 0,
    decreases m,
{
    if m > 0 {
        lemma_none_count(v, (m - 1) as nat);
    }
}

/// Rebuilds the data shards of an `n`-shard Reed-Solomon codeword with `t` data shards
/// from the entries and returns them concatenated. It fails exactly when `rs_ready` does
/// not hold. When the entries are pieces of the codeword of some data shards, the result
/// is those data shards.
pub fn reconstruct_data(entries: &Vec<(usize, Vec<u8>)>, t: usize, n: usize) -> (r: Result<Vec<u8>, FlowError>)
    requires
        keys_distinct(entries@),
        1 <= t <= n,
    ensures
        r is Ok <==> rs_ready(entries@, t as nat, n as nat),
        r matches Err(e) ==> e is PersistenceError,
        r matches Ok(full) ==> forall|d: Seq<Seq<u8>>|
            #![trigger entries_consistent(entries@, d, n as nat)]
            d.len() == t && entries_consistent(entries@, d, n as nat) ==> full@ == concat_shards(d, t as nat),
{
    let mut shards = place_shards(entries, n);
    proof {
        assert(present_shards_uniform(shards@) <==> entries_uniform(entries@, n as nat)) by {
            if entries_uniform(entries@, n as nat) {
                assert forall|i: int, j: int|
                    0 <= i < shards@.len() && 0 <= j < shards@.len() && shards@[i] is Some && shards@[j] is Some implies (
                    #[trigger] shards@[i])->0@.len() == (#[trigger] shards@[j])->0@.len() && shards@[i]->0@.len() > 0 by {
                    let a = entry_at(entries@, i);
                    let b = entry_at(entries@, j);
                    assert(entries@[a].0 == i && entries@[b].0 == j);
                }
            }
            if present_shards_uniform(shards@) {
                assert forall|i: int, j: int|
                    0 <= i < entries@.len() && 0 <= j < entries@.len() && entries@[i].0 < n && entries@[j].0 < n implies (
                    #[trigger] entries@[i]).1@.len() == (#[trigger] entries@[j]).1@.len() && entries@[i].1@.len() > 0 by {
                    let ki = entries@[i].0 as int;
                    let kj = entries@[j].0 as int;
                    assert(has_entry(entries@, ki));
                    assert(has_entry(entries@, kj));
                    let a = entry_at(entries@, ki);
                    let b = entry_at(entries@, kj);
                    if a != i {
                        assert(entries@[a].0 != entries@[i].0);
                    }
                    if b != j {
                        assert(entries@[b].0 != entries@[j].0);
                    }
                    assert(shards@[ki] is Some && shards@[kj] is Some);
                }
            }
        }
    }
    let ghost before = shards@;
    match rs_reconstruct(t, n - t, &mut shards) {
        Ok(()) => {},
        Err(_) => {
            return Err(persistence_error("Reed-Solomon reconstruction failed"));
        },
    }
    let mut full: Vec<u8> = Vec::new();
    let mut i: usize = 0;
    while i < t
        invariant
            1 <= t <= n,
            shards@.len() == n,
            keys_distinct(entries@),
            forall|k: int| 0 <= k < n ==> ((#[trigger] before[k]) is Some <==> has_entry(entries@, k)),
            forall|k: int| 0 <= k < n && (#[trigger] before[k]) is Some ==> before[k]->0@ == entries@[entry_at(entries@, k)].1@,
            before.len() == n,
            forall|k: int| 0 <= k < n ==> (#[trigger] shards@[k]) is Some,
            forall|data: Seq<Seq<u8>>|
                #![trigger rs_codeword(data, (n - t) as nat)]
                consistent_with(before, data, (n - t) as nat) && data.len() == t ==> forall|k: int|
                    0 <= k < n ==> (#[trigger] shards@[k])->0@ == rs_codeword(data, (n - t) as nat)[k],
            0 <= i <= t,
            forall|d: Seq<Seq<u8>>|
                #![trigger entries_consistent(entries@, d, n as nat)]
                d.len() == t && entries_consistent(entries@, d, n as nat) ==> full@ == concat_shards(d, i as nat),
        decreases t - i,
    {
        let ghost prev = full@;
        match &shards[i] {
            Some(shard) => {
                let ghost piece = shard@;
                append_vec(&mut full, shard);
                proof {
                    assert forall|d: Seq<Seq<u8>>|
                        #![trigger entries_consistent(entries@, d, n as nat)]
                        d.len() == t && entries_consistent(entries@, d, n as nat) implies full@ == concat_shards(d, (i + 1) as nat) by {
                        assert(consistent_with(before, d, (n - t) as nat)) by {
                            assert forall|k: int| 0 <= k < before.len() && #[trigger] before[k] is Some implies before[k]->0@ == rs_codeword(d, (n - t) as nat)[k] by {
                                let a = entry_at(entries@, k);
                                assert(entries@[a].0 == k);
                            }
                        }
                        assert(rs_codeword(d, (n - t) as nat)[i as int] == d[i as int]);
                    }
                }
            },
            None => {
                return Err(persistence_error("Failed to reconstruct data shard"));
            },
        }
        i = i + 1;
    }
    Ok(full)
}

/// Appends the bytes of a vector.
fn append_vec(buf: &mut Vec<u8>, bytes: &Vec<u8>)
    ensures
        final(buf)@ == old(buf)@ + bytes@,
{
    buf.extend_from_slice(bytes.as_slice());
    assert(buf@ =~= old(buf)@ + bytes@);
}

} // verus!
