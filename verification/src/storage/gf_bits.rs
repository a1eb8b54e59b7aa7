//! Laws of GF(2^8) multiplication established by bit-level reasoning.

use vstd::prelude::*;
use super::gf_spec::{xtime, gf_mul};

verus! {

// ---------------------------------------------------------------------------
// Laws proved by bit-blasting
// ---------------------------------------------------------------------------

/// Multiplication is commutative.
#[verifier::rlimit(100)]
pub proof fn lemma_mul_comm()
    by (bit_vector)
    ensures
        forall|a: u8, b: u8| #[trigger] gf_mul(a, b) == gf_mul(b, a),
{
}

/// Multiplication distributes over addition (xor).
#[verifier::rlimit(100)]
pub proof fn lemma_mul_distrib()
    by (bit_vector)
    ensures
        forall|a: u8, b: u8, c: u8| #[trigger] gf_mul(a, b ^ c) == gf_mul(a, b) ^ gf_mul(a, c),
{
}

/// Multiplying the right factor by x multiplies the product by x.
#[verifier::rlimit(100)]
pub proof fn lemma_mul_xtime()
    by (bit_vector)
    ensures
        forall|a: u8, y: u8| #[trigger] gf_mul(a, xtime(y)) == xtime(gf_mul(a, y)),
{
}

/// 0 is absorbing and 1 is neutral for multiplication.
pub proof fn lemma_mul_basics()
    by (bit_vector)
    ensures
        forall|a: u8| #[trigger] gf_mul(a, 0u8) == 0u8,
        forall|a: u8| #[trigger] gf_mul(0u8, a) == 0u8,
        forall|a: u8| #[trigger] gf_mul(a, 1u8) == a,
        forall|a: u8| #[trigger] gf_mul(1u8, a) == a,
{
}

/// A product of two nonzero elements is nonzero.
#[verifier::rlimit(100)]
pub proof fn lemma_no_zero_divisors()
    by (bit_vector)
    ensures
        forall|a: u8, b: u8| #[trigger] gf_mul(a, b) == 0u8 ==> a == 0u8 || b == 0u8,
{
}

/// Facts about xor, the field addition.
pub proof fn lemma_xor(a: u8, b: u8, c: u8)
    by (bit_vector)
    ensures
        a ^ b == b ^ a,
        (a ^ b) ^ c == a ^ (b ^ c),
        a ^ 0u8 == a,
        0u8 ^ a == a,
        a ^ a == 0u8,
        (a ^ b == 0u8) <==> a == b,
        (a ^ b) ^ b == a,
{
}

/// Rearrangements of sums (xors) of three and four terms.
pub proof fn lemma_xor_rearrange(a: u8, b: u8, c: u8, d: u8)
    by (bit_vector)
    ensures
        (a ^ b) ^ c == (a ^ c) ^ b,
        (a ^ b) ^ (c ^ d) == (a ^ c) ^ (b ^ d),
        (a ^ b == c) ==> a == (c ^ b),
        (a ^ b == a ^ c) ==> b == c,
{
}

} // verus!
