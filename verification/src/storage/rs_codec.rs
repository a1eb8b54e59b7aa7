//! Reed-Solomon coding over GF(2^8), provided by the `reed-solomon-erasure` crate.
//!
//! A codec is made for a number of data shards and parity shards at each use, as the
//! decoder does; the parity of a set of data shards is named `rs_parity` and left
//! unstated (it is a matrix product computed by the crate).

use vstd::prelude::*;
use reed_solomon_erasure::galois_8::Field as Gf8;
use reed_solomon_erasure::ReedSolomon;
use reed_solomon_erasure::Error as RsError;

verus! {

#[verifier::external_type_specification]
#[verifier::external_body]
pub struct ExRsError(RsError);

/// The parity shards that the Reed-Solomon code computes from `data` (one shard per
/// data shard, all of one length) for `parity_count` parity shards.
pub uninterp spec fn rs_parity(data: Seq<Seq<u8>>, parity_count: nat) -> Seq<Seq<u8>>;

/// The full codeword of a set of data shards: the data shards followed by their parity.
pub open spec fn rs_codeword(data: Seq<Seq<u8>>, parity_count: nat) -> Seq<Seq<u8>> {
    data + rs_parity(data, parity_count)
}

/// Shard counts for which `ReedSolomon::new` succeeds.
pub open spec fn rs_counts_valid(data_shards: nat, parity_shards: nat) -> bool {
    data_shards >= 1 && parity_shards >= 1 && data_shards + parity_shards <= 256
}

/// All present shards of `shards` are nonempty and of one length.
pub open spec fn present_shards_uniform(shards: Seq<Option<Vec<u8>>>) -> bool {
    forall|i: int, j: int|
        0 <= i < shards.len() && 0 <= j < shards.len() && shards[i] is Some && shards[j] is Some
            ==> (#[trigger] shards[i])->0@.len() == (#[trigger] shards[j])->0@.len() && shards[i]->0@.len() > 0
}

/// Number of present shards among the first `k`.
pub open spec fn present_count(shards: Seq<Option<Vec<u8>>>, k: nat) -> nat
    decreases k,
{
    if k == 0 {
        0
    } else {
        present_count(shards, (k - 1) as nat) + if shards[k - 1] is Some {
            1nat
        } else {
            0nat
        }
    }
}

/// The present shards agree with the codeword of `data`.
pub open spec fn consistent_with(shards: Seq<Option<Vec<u8>>>, data: Seq<Seq<u8>>, parity_count: nat) -> bool {
    &&& shards.len() == data.len() + parity_count
    &&& forall|i: int| 0 <= i < shards.len() && #[trigger] shards[i] is Some ==> shards[i]->0@ == rs_codeword(data, parity_count as nat)[i]
}

/// `ReedSolomon::new` (galois_8): a codec for `data_shards` data shards and
/// `parity_shards` parity shards can be made exactly when neither count is 0 and their
/// sum does not exceed the field order 256. The codec is dropped. The sum itself must
/// fit in `usize` (it is computed unchecked).
#[verifier::external_body]
pub fn rs_check(data_shards: usize, parity_shards: usize) -> (r: Result<(), RsError>)
    requires
        data_shards + parity_shards <= usize::MAX,
    ensures
        r is Ok <==> rs_counts_valid(data_shards as nat, parity_shards as nat),
{
    ReedSolomon::<Gf8>::new(data_shards, parity_shards).map(|_codec| ())
}

/// `ReedSolomon::new` then `ReedSolomon::encode`: with a codec for `data_count` data and
/// `parity_count` parity shards, given all shards (data first, then parity slots) of one
/// nonzero length, it overwrites the parity slots with the parity of the data shards.
/// It fails, touching nothing, on invalid counts, a wrong shard count, an empty first
/// shard or shards of different lengths. The sum of the counts must fit in `usize`.
#[verifier::external_body]
pub fn rs_encode(data_count: usize, parity_count: usize, shards: &mut Vec<Vec<u8>>) -> (r: Result<(), RsError>)
    requires
        data_count + parity_count <= usize::MAX,
    ensures
        r is Ok <==> (rs_counts_valid(data_count as nat, parity_count as nat) && old(shards)@.len() == data_count + parity_count && old(
            shards,
        )@[0]@.len() > 0 && forall|i: int|
            0 <= i < old(shards)@.len() ==> (#[trigger] old(shards)@[i])@.len() == old(
                shards,
            )@[0]@.len()),
        r is Err ==> final(shards)@ == old(shards)@,
        r is Ok ==> final(shards)@.len() == old(shards)@.len() && rs_parity(
            old(shards)@.take(data_count as int).map_values(|v: Vec<u8>| v@),
            parity_count as nat,
        ).len() == parity_count && (forall|i: int|
            0 <= i < data_count ==> #[trigger] final(shards)@[i] == old(shards)@[i]) && (
        forall|i: int|
            data_count <= i < old(shards)@.len() ==> (#[trigger] final(shards)@[i])@
                == rs_parity(old(shards)@.take(data_count as int).map_values(|v: Vec<u8>| v@), parity_count as nat)[i
                - data_count] && final(shards)@[i]@.len() == old(shards)@[0]@.len()),
{
    ReedSolomon::<Gf8>::new(data_count, parity_count)?.encode(shards)
}

/// `ReedSolomon::new` then `ReedSolomon::reconstruct`: with a codec for `data_count` data
/// and `parity_count` parity shards, fills in the missing shards from any `data_count`
/// present ones. It fails, touching nothing, on invalid counts, a wrong shard count,
/// present shards that are empty or of different lengths, or fewer present shards than
/// data shards. When the present shards belong to the codeword of some data, that
/// codeword is what it fills in. The sum of the counts must fit in `usize`.
#[verifier::external_body]
pub fn rs_reconstruct(data_count: usize, parity_count: usize, shards: &mut Vec<Option<Vec<u8>>>) -> (r: Result<(), RsError>)
    requires
        data_count + parity_count <= usize::MAX,
    ensures
        r is Ok <==> (rs_counts_valid(data_count as nat, parity_count as nat) && old(shards)@.len() == data_count + parity_count
            && present_shards_uniform(old(shards)@) && present_count(old(shards)@, old(shards)@.len()) >= data_count),
        r is Err ==> final(shards)@ == old(shards)@,
        r is Ok ==> final(shards)@.len() == old(shards)@.len() && (forall|i: int|
            0 <= i < old(shards)@.len() ==> (#[trigger] final(shards)@[i]) is Some) && (forall|i: int|
            0 <= i < old(shards)@.len() && (#[trigger] old(shards)@[i]) is Some ==> final(shards)@[i] == old(shards)@[i]),
        r is Ok ==> forall|data: Seq<Seq<u8>>|
            #![trigger rs_codeword(data, parity_count as nat)]
            consistent_with(old(shards)@, data, parity_count as nat) && data.len() == data_count ==> forall|i: int|
                0 <= i < old(shards)@.len() ==> (#[trigger] final(shards)@[i])->0@ == rs_codeword(data, parity_count as nat)[i],
{
    ReedSolomon::<Gf8>::new(data_count, parity_count)?.reconstruct(shards)
}

} // verus!
