//! Concrete facts about the generator 3, established by bit-level evaluation.

use vstd::prelude::*;
use super::gf_spec::gf_mul;

verus! {

/// The squares 3^(2^k) and the products that decide the order of 3.
pub proof fn lemma_generator_constants()
    by (bit_vector)
    ensures
        gf_mul(1u8, 3u8) == 3u8,
        gf_mul(3u8, 3u8) == 0x05u8,
        gf_mul(0x05u8, 0x05u8) == 0x11u8,
        gf_mul(0x11u8, 0x11u8) == 0x1au8,
        gf_mul(0x1au8, 0x1au8) == 0x5fu8,
        gf_mul(0x5fu8, 0x5fu8) == 0xe5u8,
        gf_mul(0xe5u8, 0xe5u8) == 0x4cu8,
        gf_mul(0x4cu8, 0x4cu8) == 0xfbu8,
        gf_mul(gf_mul(gf_mul(3u8, 0x05u8), 0x11u8), 0x1au8) != 1u8,
        gf_mul(gf_mul(gf_mul(3u8, 0x05u8), 0x5fu8), 0xe5u8) != 1u8,
        gf_mul(gf_mul(gf_mul(3u8, 0x11u8), 0x5fu8), 0x4cu8) != 1u8,
        gf_mul(
            gf_mul(
                gf_mul(
                    gf_mul(gf_mul(gf_mul(gf_mul(3u8, 0x05u8), 0x11u8), 0x1au8), 0x5fu8),
                    0xe5u8,
                ),
                0x4cu8,
            ),
            0xfbu8,
        ) == 1u8,
{
}

/// Every proper divisor of 255 divides 15, 51 or 85.
pub proof fn lemma_divisors_255()
    by (bit_vector)
    ensures
        forall|k: u8|
            0u8 < k && k < 255u8 && #[trigger] (255u8 % k) == 0u8 ==> (15u8 % k == 0u8 || 51u8 % k
                == 0u8 || 85u8 % k == 0u8),
{
}

} // verus!
