//! Field laws of GF(2^8) derived from the bit-level facts: associativity,
//! cancellation, the generator 3, logarithms and inverses.

use vstd::prelude::*;
use vstd::set_lib::*;
use vstd::relations::injective_on;
use super::gf_spec::{gf_mul, gf_pow, exp3, gf_log, gf_inv, gf_div};
use super::gf_bits::{lemma_mul_comm, lemma_mul_distrib, lemma_mul_xtime, lemma_mul_basics, lemma_no_zero_divisors, lemma_xor};
use super::gf_pow3::{lemma_generator_constants, lemma_divisors_255};
use vstd::arithmetic::div_mod::lemma_fundamental_div_mod;

verus! {

// ---------------------------------------------------------------------------
// Derived field laws
// ---------------------------------------------------------------------------

/// Multiplication is associative.
pub proof fn lemma_mul_assoc(a: u8, b: u8, c: u8)
    ensures
        gf_mul(gf_mul(a, b), c) == gf_mul(a, gf_mul(b, c)),
{
    lemma_mul_distrib();
    lemma_mul_xtime();
    lemma_mul_basics();
}

/// Multiplication distributes over addition on the left too.
pub proof fn lemma_mul_distrib_left(a: u8, b: u8, c: u8)
    ensures
        gf_mul(a ^ b, c) == gf_mul(a, c) ^ gf_mul(b, c),
{
    lemma_mul_comm();
    lemma_mul_distrib();
}

/// Cancellation: a nonzero factor can be removed from both sides.
pub proof fn lemma_mul_cancel(a: u8, x: u8, y: u8)
    requires
        a != 0,
        gf_mul(a, x) == gf_mul(a, y),
    ensures
        x == y,
{
    lemma_mul_distrib();
    lemma_no_zero_divisors();
    lemma_xor(gf_mul(a, x), gf_mul(a, y), 0);
    lemma_xor(x, y, 0);
    assert(gf_mul(a, x ^ y) == gf_mul(a, x) ^ gf_mul(a, y));
}

/// Exponent law: 3^(m+n) = 3^m * 3^n.
pub proof fn lemma_exp3_add(m: nat, n: nat)
    ensures
        exp3(m + n) == gf_mul(exp3(m), exp3(n)),
    decreases n,
{
    lemma_mul_basics();
    if n > 0 {
        lemma_exp3_add(m, (n - 1) as nat);
        assert(exp3(m + n) == gf_mul(exp3((m + n - 1) as nat), 3u8));
        lemma_mul_assoc(exp3(m), exp3((n - 1) as nat), 3u8);
    }
}

/// The powers of 3 whose values decide the order of 3: 3^15, 3^51, 3^85 differ from 1,
/// and 3^255 = 1.
pub proof fn lemma_exp3_order_witnesses()
    ensures
        exp3(255) == 1u8,
        exp3(15) != 1u8,
        exp3(51) != 1u8,
        exp3(85) != 1u8,
{
    lemma_generator_constants();
    assert(exp3(0) == 1u8);
    assert(exp3(1) == gf_mul(exp3(0), 3u8));
    assert(exp3(1) == 3u8);
    lemma_exp3_add(1, 1);
    lemma_exp3_add(2, 2);
    lemma_exp3_add(4, 4);
    lemma_exp3_add(8, 8);
    lemma_exp3_add(16, 16);
    lemma_exp3_add(32, 32);
    lemma_exp3_add(64, 64);
    lemma_exp3_add(1, 2);
    lemma_exp3_add(3, 4);
    lemma_exp3_add(7, 8);
    lemma_exp3_add(15, 16);
    lemma_exp3_add(31, 32);
    lemma_exp3_add(63, 64);
    lemma_exp3_add(127, 128);
    lemma_exp3_add(3, 16);
    lemma_exp3_add(19, 32);
    lemma_exp3_add(1, 4);
    lemma_exp3_add(5, 16);
    lemma_exp3_add(21, 64);
}

/// 3^255 = 1.
pub proof fn lemma_exp3_255()
    ensures
        exp3(255) == 1u8,
{
    lemma_exp3_order_witnesses();
}

/// Powers of 1 are 1.
pub proof fn lemma_pow_one(e: nat)
    ensures
        gf_pow(1u8, e) == 1u8,
    decreases e,
{
    lemma_mul_basics();
    if e > 0 {
        lemma_pow_one((e - 1) as nat);
    }
}

/// Powers of 3 repeat with period 255.
pub proof fn lemma_exp3_mod(n: nat)
    ensures
        exp3(n) == exp3(n % 255),
    decreases n,
{
    if n >= 255 {
        lemma_exp3_mod((n - 255) as nat);
        lemma_exp3_add((n - 255) as nat, 255);
        lemma_exp3_255();
        lemma_mul_basics();
        assert((n - 255) as nat % 255 == n % 255) by (nonlinear_arith)
            requires
                n >= 255,
        ;
    }
}

/// Powers of 3 are never zero.
pub proof fn lemma_exp3_nonzero(n: nat)
    ensures
        exp3(n) != 0u8,
    decreases n,
{
    lemma_no_zero_divisors();
    if n > 0 {
        lemma_exp3_nonzero((n - 1) as nat);
    }
}

/// Powers of 3 below 255 other than 3^0 differ from 1: the order of 3 is 255.
pub proof fn lemma_exp3_not_one(k: nat)
    requires
        0 < k < 255,
    ensures
        exp3(k) != 1u8,
    decreases k,
{
    if exp3(k) == 1u8 {
        let q: nat = 255nat / k;
        let r: nat = 255nat % k;
        lemma_fundamental_div_mod(255, k as int);
        assert(255 == k * q + r);
        lemma_pow_exp3(k, q);
        lemma_pow_one(q);
        lemma_exp3_add(k * q, r);
        lemma_exp3_order_witnesses();
        lemma_mul_basics();
        assert(exp3(r) == 1u8);
        if r > 0 {
            lemma_exp3_not_one(r);
        } else {
            lemma_divisors_255();
            assert(255u8 % (k as u8) == 0u8);
            if 15u8 % (k as u8) == 0u8 {
                lemma_fundamental_div_mod(15, k as int);
                lemma_pow_exp3(k, 15nat / k);
                lemma_pow_one(15nat / k);
            } else if 51u8 % (k as u8) == 0u8 {
                lemma_fundamental_div_mod(51, k as int);
                lemma_pow_exp3(k, 51nat / k);
                lemma_pow_one(51nat / k);
            } else {
                lemma_fundamental_div_mod(85, k as int);
                lemma_pow_exp3(k, 85nat / k);
                lemma_pow_one(85nat / k);
            }
        }
    }
}

/// Distinct exponents below 255 give distinct powers.
pub proof fn lemma_exp3_injective(i: nat, j: nat)
    requires
        i < 255,
        j < 255,
        exp3(i) == exp3(j),
    ensures
        i == j,
{
    if i != j {
        let (lo, hi) = if i < j {
            (i, j)
        } else {
            (j, i)
        };
        lemma_exp3_add(lo, (hi - lo) as nat);
        assert(lo + (hi - lo) as nat == hi);
        lemma_mul_basics();
        lemma_exp3_nonzero(lo);
        lemma_mul_cancel(exp3(lo), exp3((hi - lo) as nat), 1u8);
        lemma_exp3_not_one((hi - lo) as nat);
    }
}

/// Every nonzero element is a power of 3 below 255.
pub proof fn lemma_exp3_onto(a: u8)
    requires
        a != 0,
    ensures
        exists|k: nat| k < 255 && exp3(k) == a,
{
    let dom = set_int_range(0, 255);
    let f = |k: int| exp3(k as nat) as int;
    let img = dom.map(f);
    let all = set_int_range(1, 256);
    lemma_int_range(0, 255);
    lemma_int_range(1, 256);
    assert(injective_on(f, dom)) by {
        assert forall|x: int, y: int| dom.contains(x) && dom.contains(y) && #[trigger] f(x) == #[trigger] f(y) implies x == y by {
            lemma_exp3_injective(x as nat, y as nat);
        }
    }
    lemma_map_size(dom, img, f);
    assert(img.subset_of(all)) by {
        assert forall|v: int| img.contains(v) implies all.contains(v) by {
            let k = choose|k: int| dom.contains(k) && f(k) == v;
            lemma_exp3_nonzero(k as nat);
        }
    }
    lemma_subset_equality(img, all);
    assert(all.contains(a as int));
    assert(img.contains(a as int));
    let k = choose|k: int| dom.contains(k) && f(k) == a as int;
    assert(exp3(k as nat) == a);
}

/// The discrete logarithm is a left inverse of exponentiation.
pub proof fn lemma_log(a: u8)
    requires
        a != 0,
    ensures
        gf_log(a) < 255,
        exp3(gf_log(a)) == a,
{
    lemma_exp3_onto(a);
}

/// Every nonzero element has an inverse, and it is unique.
pub proof fn lemma_inv(a: u8)
    requires
        a != 0,
    ensures
        gf_mul(a, gf_inv(a)) == 1u8,
        gf_mul(gf_inv(a), a) == 1u8,
        gf_inv(a) != 0,
        forall|b: u8| gf_mul(a, b) == 1u8 ==> b == gf_inv(a),
{
    lemma_log(a);
    let k = gf_log(a);
    let b = exp3((255 - k) as nat);
    lemma_exp3_add(k, (255 - k) as nat);
    lemma_exp3_255();
    assert(k + (255 - k) as nat == 255);
    assert(gf_mul(a, b) == 1u8);
    lemma_mul_comm();
    lemma_mul_basics();
    assert forall|c: u8| gf_mul(a, c) == 1u8 implies c == gf_inv(a) by {
        lemma_mul_cancel(a, c, gf_inv(a));
    }
}

/// The inverse of a product is the product of the inverses.
pub proof fn lemma_inv_mul(a: u8, b: u8)
    requires
        a != 0,
        b != 0,
    ensures
        gf_inv(gf_mul(a, b)) == gf_mul(gf_inv(a), gf_inv(b)),
        gf_mul(a, b) != 0,
{
    lemma_no_zero_divisors();
    lemma_inv(a);
    lemma_inv(b);
    lemma_inv(gf_mul(a, b));
    let ia = gf_inv(a);
    let ib = gf_inv(b);
    lemma_mul_assoc(a, b, gf_mul(ia, ib));
    lemma_mul_assoc(b, ia, ib);
    lemma_mul_comm();
    lemma_mul_assoc(ia, b, ib);
    lemma_mul_basics();
    assert(gf_mul(b, gf_mul(ia, ib)) == gf_mul(ia, gf_mul(b, ib)));
    assert(gf_mul(gf_mul(a, b), gf_mul(ia, ib)) == 1u8);
}

/// Powers of a power of 3 are powers of 3.
pub proof fn lemma_pow_exp3(k: nat, e: nat)
    ensures
        gf_pow(exp3(k), e) == exp3(k * e),
    decreases e,
{
    lemma_mul_basics();
    if e > 0 {
        lemma_pow_exp3(k, (e - 1) as nat);
        assert(k * e == k + k * (e - 1) as nat) by (nonlinear_arith)
            requires
                e > 0,
        ;
        let e1 = (e - 1) as nat;
        lemma_exp3_add(k, k * e1);
        assert(gf_pow(exp3(k), e) == gf_mul(exp3(k), gf_pow(exp3(k), e1)));
        assert(exp3(k + k * e1) == exp3(k * e));
    }
}

/// Powers of zero.
pub proof fn lemma_pow_zero(e: nat)
    ensures
        gf_pow(0u8, e) == (if e == 0 {
            1u8
        } else {
            0u8
        }),
{
    lemma_mul_basics();
}

/// x^(m+1) = x^m * x.
pub proof fn lemma_pow_succ(x: u8, m: nat)
    ensures
        gf_pow(x, m + 1) == gf_mul(gf_pow(x, m), x),
{
    lemma_mul_comm();
}

/// Division undoes multiplication: for nonzero `b`, `(a * b) / b == a` and `(a / b) * b == a`.
pub proof fn lemma_div_mul(a: u8, b: u8)
    requires
        b != 0,
    ensures
        gf_div(gf_mul(a, b), b) == a,
        gf_mul(gf_div(a, b), b) == a,
{
    lemma_inv(b);
    lemma_mul_basics();
    lemma_mul_assoc(a, b, gf_inv(b));
    lemma_mul_assoc(a, gf_inv(b), b);
}

} // verus!
