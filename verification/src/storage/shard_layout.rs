//! Byte layout of an encoded block: the length-prefixed frame that is cut into
//! Reed-Solomon data shards, and the sequence of sealed chunks inside it.

use vstd::prelude::*;
use vstd::bytes::{spec_u32_to_le_bytes, spec_u32_from_le_bytes, lemma_auto_spec_u32_to_from_le_bytes};
use super::crypto::{aes_gcm_seal_spec, aes_gcm_open_spec};
use super::erasure::{CHUNK_SIZE, chunk_key_spec, chunk_nonce_spec};

verus! {

/// `x` rounded up to a multiple of `t`.
pub open spec fn round_up(x: nat, t: nat) -> nat {
    (((x + t - 1) / t as int) * t) as nat
}

/// Length of the frame for a payload of `len` bytes and `t` data shards: the payload is
/// padded to a multiple of `t`, a 4-byte length is put in front, and the whole is padded
/// to a multiple of `t` again.
pub open spec fn frame_len(len: nat, t: nat) -> nat {
    round_up(4 + round_up(len, t), t)
}

/// Length of one shard.
pub open spec fn shard_len(len: nat, t: nat) -> nat {
    frame_len(len, t) / t
}

/// The frame: the payload length (4 bytes, little-endian, truncated to 32 bits), the
/// payload, and zeros up to `frame_len`.
pub open spec fn rs_frame(payload: Seq<u8>, t: nat) -> Seq<u8> {
    spec_u32_to_le_bytes(payload.len() as u32) + payload + Seq::new(
        (frame_len(payload.len(), t) - 4 - payload.len()) as nat,
        |k: int| 0u8,
    )
}

/// The `t` data shards: consecutive pieces of the frame, each `shard_len` bytes long.
pub open spec fn rs_data_shards(payload: Seq<u8>, t: nat) -> Seq<Seq<u8>> {
    Seq::new(
        t,
        |i: int| rs_frame(payload, t).subrange(i * shard_len(payload.len(), t), (i + 1) * shard_len(payload.len(), t)),
    )
}

/// The first `k` shards, concatenated.
pub open spec fn concat_shards(shards: Seq<Seq<u8>>, k: nat) -> Seq<u8>
    decreases k,
{
    if k == 0 {
        Seq::empty()
    } else {
        concat_shards(shards, (k - 1) as nat) + shards[k - 1]
    }
}

/// The payload of a frame: the bytes after the 4-byte length, as many as the length
/// says and the frame holds. A frame shorter than 4 bytes has an empty payload.
pub open spec fn frame_payload(full: Seq<u8>) -> Seq<u8> {
    if full.len() < 4 {
        Seq::empty()
    } else {
        let n = spec_u32_from_le_bytes(full.take(4)) as int;
        let end = if 4 + n <= full.len() {
            4 + n
        } else {
            full.len() as int
        };
        full.subrange(4, end)
    }
}

/// The payload carried by the frame that the data shards `d` make up.
pub open spec fn payload_of(d: Seq<Seq<u8>>, t: nat) -> Seq<u8> {
    frame_payload(concat_shards(d, t))
}

pub proof fn lemma_round_up(x: nat, t: nat)
    requires
        t >= 1,
    ensures
        x <= round_up(x, t) < x + t,
        round_up(x, t) % t == 0,
        round_up(x, t) == (round_up(x, t) / t) * t,
{
    let q = (x + t - 1) / t as int;
    let r = (x + t - 1) % t as int;
    assert(x + t - 1 == q * t + r && 0 <= r < t) by (nonlinear_arith)
        requires
            t >= 1,
            q == (x + t - 1) / t as int,
            r == (x + t - 1) % t as int,
    ;
    assert(q >= 0) by (nonlinear_arith)
        requires
            t >= 1,
            x >= 0,
            q == (x + t - 1) / t as int,
    ;
    assert((q * t) % (t as int) == 0 && (q * t) / (t as int) == q) by (nonlinear_arith)
        requires
            t >= 1,
            q >= 0,
    ;
}

pub proof fn lemma_frame(payload: Seq<u8>, t: nat)
    requires
        t >= 1,
    ensures
        rs_frame(payload, t).len() == frame_len(payload.len(), t),
        frame_len(payload.len(), t) == t * shard_len(payload.len(), t),
        4 + payload.len() <= frame_len(payload.len(), t),
        shard_len(payload.len(), t) >= 1,
{
    broadcast use vstd::seq::group_seq_axioms;

    let len = payload.len();
    lemma_round_up(len, t);
    lemma_round_up(4 + round_up(len, t), t);
    lemma_auto_spec_u32_to_from_le_bytes();
    let fl = frame_len(len, t);
    let ss = shard_len(len, t);
    assert(fl == t * ss) by (nonlinear_arith)
        requires
            fl == (fl / t) * t,
            ss == fl / t,
    ;
    assert(ss >= 1) by (nonlinear_arith)
        requires
            fl == t * ss,
            fl >= 4,
            t >= 1,
            ss >= 0,
    ;
}

proof fn lemma_concat_prefix(payload: Seq<u8>, t: nat, k: nat)
    requires
        t >= 1,
        k <= t,
    ensures
        concat_shards(rs_data_shards(payload, t), k) =~= rs_frame(payload, t).take((k * shard_len(payload.len(), t)) as int),
    decreases k,
{
    let ss: int = shard_len(payload.len(), t) as int;
    let f = rs_frame(payload, t);
    lemma_frame(payload, t);
    if k > 0 {
        lemma_concat_prefix(payload, t, (k - 1) as nat);
        assert((k - 1) * ss + ss == k * ss && k * ss <= t * ss && (k - 1) * ss >= 0) by (nonlinear_arith)
            requires
                k >= 1,
                k <= t,
                ss >= 1,
        ;
        let d = rs_data_shards(payload, t);
        assert(d[k - 1] == f.subrange((k - 1) * ss, k * ss));
        assert(concat_shards(d, k) == concat_shards(d, (k - 1) as nat) + d[k - 1]);
        assert(concat_shards(d, (k - 1) as nat) == f.take((k - 1) * ss));
        assert(f.take((k - 1) * ss) + f.subrange((k - 1) * ss, k * ss) =~= f.take(k * ss));
        assert((k * shard_len(payload.len(), t)) as int == k * ss);
    } else {
        assert(concat_shards(rs_data_shards(payload, t), 0) =~= f.take(0));
    }
}

/// The data shards, put back together, give the frame.
pub proof fn lemma_concat_data_shards(payload: Seq<u8>, t: nat)
    requires
        t >= 1,
    ensures
        concat_shards(rs_data_shards(payload, t), t) == rs_frame(payload, t),
{
    lemma_concat_prefix(payload, t, t);
    lemma_frame(payload, t);
    assert(rs_frame(payload, t).take((t * shard_len(payload.len(), t)) as int) =~= rs_frame(payload, t));
}

/// A frame gives back its payload, when the payload length fits in 32 bits.
pub proof fn lemma_frame_payload(payload: Seq<u8>, t: nat)
    requires
        t >= 1,
        payload.len() <= u32::MAX,
    ensures
        frame_payload(rs_frame(payload, t)) == payload,
{
    lemma_frame(payload, t);
    lemma_auto_spec_u32_to_from_le_bytes();
    let f = rs_frame(payload, t);
    let le = spec_u32_to_le_bytes(payload.len() as u32);
    assert(f.take(4) =~= le);
    assert(spec_u32_from_le_bytes(le) == payload.len() as u32);
    assert(f.subrange(4, 4 + payload.len() as int) =~= payload);
}

// ---------------------------------------------------------------------------
// Chunks
// ---------------------------------------------------------------------------

/// Number of chunks of `CHUNK_SIZE` bytes (the last one possibly shorter) in `len` bytes.
pub open spec fn num_chunks(len: nat) -> nat {
    ((len + CHUNK_SIZE - 1) / CHUNK_SIZE as int) as nat
}

/// Chunk `i` of `data`: `CHUNK_SIZE` bytes from `i * CHUNK_SIZE`, or what is left.
pub open spec fn chunk_of(data: Seq<u8>, i: nat) -> Seq<u8> {
    let start = i * CHUNK_SIZE;
    let end = if start + CHUNK_SIZE <= data.len() {
        start + CHUNK_SIZE
    } else {
        data.len() as int
    };
    data.subrange(start, end)
}

/// Tag and ciphertext of chunk `i` under its own key and nonce.
pub open spec fn chunk_seal(master: Seq<u8>, block_id: Seq<u8>, data: Seq<u8>, i: nat) -> (Seq<u8>, Seq<u8>) {
    aes_gcm_seal_spec(chunk_key_spec(master, i as u64, block_id), chunk_nonce_spec(block_id, i as u64), chunk_of(data, i))
}

/// The first `k` sealed chunks, each written as its tag followed by its ciphertext.
pub open spec fn sealed_prefix(master: Seq<u8>, block_id: Seq<u8>, data: Seq<u8>, k: nat) -> Seq<u8>
    decreases k,
{
    if k == 0 {
        Seq::empty()
    } else {
        sealed_prefix(master, block_id, data, (k - 1) as nat) + chunk_seal(master, block_id, data, (k - 1) as nat).0
            + chunk_seal(master, block_id, data, (k - 1) as nat).1
    }
}

/// The encrypted form of a block: all its chunks sealed.
pub open spec fn sealed_data(master: Seq<u8>, block_id: Seq<u8>, data: Seq<u8>) -> Seq<u8> {
    sealed_prefix(master, block_id, data, num_chunks(data.len()))
}

/// Chunk `i` was sealed with a 16-byte tag, a ciphertext as long as the chunk, and the
/// pair opens to the chunk again.
pub open spec fn chunk_sealed_ok(master: Seq<u8>, block_id: Seq<u8>, data: Seq<u8>, i: nat) -> bool {
    let sealed = chunk_seal(master, block_id, data, i);
    &&& sealed.0.len() == 16
    &&& sealed.1.len() == chunk_of(data, i).len()
    &&& aes_gcm_open_spec(chunk_key_spec(master, i as u64, block_id), chunk_nonce_spec(block_id, i as u64), sealed.1, sealed.0)
        == Some(chunk_of(data, i))
}

/// Every chunk of `data` was sealed as `chunk_sealed_ok` says.
pub open spec fn chunks_sealed_ok(master: Seq<u8>, block_id: Seq<u8>, data: Seq<u8>) -> bool {
    forall|i: nat| i < num_chunks(data.len()) ==> #[trigger] chunk_sealed_ok(master, block_id, data, i)
}

/// Sealed chunk `i` of an encrypted payload: `CHUNK_SIZE + 16` bytes from
/// `i * (CHUNK_SIZE + 16)`, or what is left, or nothing past the end.
pub open spec fn chunk_cipher(payload: Seq<u8>, i: nat) -> Seq<u8> {
    let start = i * (CHUNK_SIZE + 16);
    if start >= payload.len() {
        Seq::empty()
    } else {
        let end = if start + CHUNK_SIZE + 16 <= payload.len() {
            start + CHUNK_SIZE + 16
        } else {
            payload.len() as int
        };
        payload.subrange(start, end)
    }
}

/// Plaintext of sealed chunk `i`: nothing for fewer than 16 bytes, else the opening of
/// the ciphertext after the first 16 bytes with those bytes as tag (`None` when it fails).
pub open spec fn chunk_plain(master: Seq<u8>, block_id: Seq<u8>, cipher: Seq<u8>, i: nat) -> Option<Seq<u8>> {
    if cipher.len() < 16 {
        Some(Seq::empty())
    } else {
        aes_gcm_open_spec(chunk_key_spec(master, i as u64, block_id), chunk_nonce_spec(block_id, i as u64), cipher.skip(16), cipher.take(16))
    }
}

/// Plaintext of chunk `i` of an encrypted payload.
pub open spec fn read_plain(master: Seq<u8>, block_id: Seq<u8>, payload: Seq<u8>, i: nat) -> Option<Seq<u8>> {
    chunk_plain(master, block_id, chunk_cipher(payload, i), i)
}

/// What successive chunk reads give, from plaintext position `pos` of a block of
/// `expected` bytes, until at least `need` bytes came, the block ends, or a chunk is empty;
/// `None` when a chunk does not open.
pub open spec fn stream_read(master: Seq<u8>, block_id: Seq<u8>, payload: Seq<u8>, expected: nat, pos: nat, need: int) -> Option<Seq<u8>>
    decreases (if pos < expected {
        expected - pos
    } else {
        0
    }),
{
    if need <= 0 || pos >= expected || pos / (CHUNK_SIZE as nat) >= num_chunks(expected) {
        Some(Seq::empty())
    } else {
        match read_plain(master, block_id, payload, (pos / (CHUNK_SIZE as nat)) as nat) {
            None => None,
            Some(c) => if c.len() == 0 {
                Some(Seq::empty())
            } else {
                match stream_read(master, block_id, payload, expected, pos + c.len(), need - c.len()) {
                    None => None,
                    Some(rest) => Some(c + rest),
                }
            },
        }
    }
}

proof fn lemma_chunk_len(data: Seq<u8>, i: nat)
    requires
        i < num_chunks(data.len()),
    ensures
        i * CHUNK_SIZE < data.len(),
        chunk_of(data, i).len() >= 1,
        chunk_of(data, i).len() <= CHUNK_SIZE,
        i + 1 < num_chunks(data.len()) ==> chunk_of(data, i).len() == CHUNK_SIZE,
        i + 1 == num_chunks(data.len()) ==> i * CHUNK_SIZE + chunk_of(data, i).len() == data.len(),
{
    let len = data.len() as int;
    let cs = CHUNK_SIZE as int;
    let n = num_chunks(data.len()) as int;
    assert(i * cs < len && (i + 1 < n ==> (i + 1) * cs < len) && (i + 1 == n ==> len <= (i + 1) * cs)) by (nonlinear_arith)
        requires
            cs == 65536,
            n == (len + cs - 1) / cs,
            0 <= i < n,
            len >= 0,
    ;
    assert((i + 1) * cs == i * cs + cs) by (nonlinear_arith);
}

proof fn lemma_prefix_len(master: Seq<u8>, block_id: Seq<u8>, data: Seq<u8>, k: nat)
    requires
        chunks_sealed_ok(master, block_id, data),
        k < num_chunks(data.len()),
    ensures
        sealed_prefix(master, block_id, data, k).len() == k * (CHUNK_SIZE + 16),
    decreases k,
{
    if k > 0 {
        lemma_prefix_len(master, block_id, data, (k - 1) as nat);
        lemma_chunk_len(data, (k - 1) as nat);
        assert(chunk_sealed_ok(master, block_id, data, (k - 1) as nat));
        assert((k - 1) * (CHUNK_SIZE + 16) + CHUNK_SIZE + 16 == k * (CHUNK_SIZE + 16)) by (nonlinear_arith)
            requires
                k >= 1,
        ;
    }
}

proof fn lemma_prefix_extends(master: Seq<u8>, block_id: Seq<u8>, data: Seq<u8>, k: nat, m: nat)
    requires
        k <= m,
    ensures
        sealed_prefix(master, block_id, data, k).len() <= sealed_prefix(master, block_id, data, m).len(),
        sealed_prefix(master, block_id, data, m).take(sealed_prefix(master, block_id, data, k).len() as int)
            == sealed_prefix(master, block_id, data, k),
    decreases m - k,
{
    if k < m {
        lemma_prefix_extends(master, block_id, data, k, (m - 1) as nat);
        let p = sealed_prefix(master, block_id, data, k);
        let q = sealed_prefix(master, block_id, data, (m - 1) as nat);
        let r = sealed_prefix(master, block_id, data, m);
        assert(r.take(q.len() as int) =~= q);
        assert(r.take(p.len() as int) =~= q.take(p.len() as int));
    } else {
        assert(sealed_prefix(master, block_id, data, m).take(sealed_prefix(master, block_id, data, k).len() as int)
            =~= sealed_prefix(master, block_id, data, k));
    }
}

/// The encrypted form of a block is 16 bytes longer per chunk than the block.
pub proof fn lemma_sealed_len(master: Seq<u8>, block_id: Seq<u8>, data: Seq<u8>)
    requires
        chunks_sealed_ok(master, block_id, data),
    ensures
        sealed_data(master, block_id, data).len() == data.len() + 16 * num_chunks(data.len()),
{
    let n = num_chunks(data.len());
    if n > 0 {
        lemma_prefix_len(master, block_id, data, (n - 1) as nat);
        lemma_chunk_len(data, (n - 1) as nat);
        assert(chunk_sealed_ok(master, block_id, data, (n - 1) as nat));
        assert((n - 1) * (CHUNK_SIZE + 16) + 16 == (n - 1) * CHUNK_SIZE + 16 * n) by (nonlinear_arith)
            requires
                n >= 1,
        ;
    } else {
        assert(data.len() == 0) by (nonlinear_arith)
            requires
                n == (data.len() + CHUNK_SIZE - 1) / CHUNK_SIZE as int,
                n == 0,
        ;
    }
}

/// Each sealed chunk stands where a reader looks for it, and opens to the chunk.
pub proof fn lemma_read_sealed_chunk(master: Seq<u8>, block_id: Seq<u8>, data: Seq<u8>, i: nat)
    requires
        chunks_sealed_ok(master, block_id, data),
        i < num_chunks(data.len()),
    ensures
        chunk_cipher(sealed_data(master, block_id, data), i) == chunk_seal(master, block_id, data, i).0 + chunk_seal(
            master,
            block_id,
            data,
            i,
        ).1,
        read_plain(master, block_id, sealed_data(master, block_id, data), i) == Some(chunk_of(data, i)),
{
    let n = num_chunks(data.len());
    let full = sealed_data(master, block_id, data);
    let seal = chunk_seal(master, block_id, data, i);
    let piece = seal.0 + seal.1;
    assert(chunk_sealed_ok(master, block_id, data, i));
    lemma_chunk_len(data, i);
    lemma_prefix_len(master, block_id, data, i);
    lemma_prefix_extends(master, block_id, data, i + 1, n);
    let pre = sealed_prefix(master, block_id, data, i);
    let pre1 = sealed_prefix(master, block_id, data, i + 1);
    assert(pre1 == pre + seal.0 + seal.1);
    assert(full.take(pre1.len() as int) == pre1);
    let start = i * (CHUNK_SIZE + 16);
    assert(pre.len() == start);
    assert(full.subrange(start, start + piece.len()) =~= piece) by {
        assert forall|k: int| 0 <= k < piece.len() implies full.subrange(start, start + piece.len())[k] == piece[k] by {
            assert(full[start + k] == full.take(pre1.len() as int)[start + k]);
            assert(pre1[start + k] == piece[k]);
        }
    }
    if i + 1 < n {
        assert(piece.len() == CHUNK_SIZE + 16);
    } else {
        lemma_prefix_extends(master, block_id, data, i + 1, i + 1);
        assert(full == pre1);
        assert(full.len() == start + piece.len());
    }
    assert(chunk_cipher(full, i) =~= piece);
    assert(piece.skip(16) =~= seal.1);
    assert(piece.take(16) =~= seal.0);
}

/// Reading a sealed block from a chunk boundary gives the rest of the block.
pub proof fn lemma_stream_sealed(master: Seq<u8>, block_id: Seq<u8>, data: Seq<u8>, pos: nat, need: int)
    requires
        chunks_sealed_ok(master, block_id, data),
        pos <= data.len(),
        pos % (CHUNK_SIZE as nat) == 0 || pos == data.len(),
        need >= data.len() - pos,
    ensures
        stream_read(master, block_id, sealed_data(master, block_id, data), data.len(), pos, need) == Some(data.skip(pos as int)),
    decreases data.len() - pos,
{
    let len = data.len();
    let full = sealed_data(master, block_id, data);
    if pos == len {
        assert(data.skip(pos as int) =~= Seq::<u8>::empty());
    } else {
        let k = (pos / (CHUNK_SIZE as nat)) as nat;
        assert(pos == k * CHUNK_SIZE && k < num_chunks(len)) by (nonlinear_arith)
            requires
                pos % (CHUNK_SIZE as nat) == 0,
                k == pos / (CHUNK_SIZE as nat),
                pos < len,
                num_chunks(len) == (len + CHUNK_SIZE - 1) / CHUNK_SIZE as int,
        ;
        lemma_read_sealed_chunk(master, block_id, data, k);
        lemma_chunk_len(data, k);
        let c = chunk_of(data, k);
        let next = pos + c.len();
        if k + 1 < num_chunks(len) {
            assert(next == (k + 1) * CHUNK_SIZE) by (nonlinear_arith)
                requires
                    pos == k * CHUNK_SIZE,
                    c.len() == CHUNK_SIZE,
                    next == pos + c.len(),
            ;
            assert(next % (CHUNK_SIZE as nat) == 0) by (nonlinear_arith)
                requires
                    next == (k + 1) * CHUNK_SIZE,
            ;
        }
        lemma_stream_sealed(master, block_id, data, next, need - c.len());
        assert(data.skip(pos as int) =~= c + data.skip(next as int));
    }
}

} // verus!
