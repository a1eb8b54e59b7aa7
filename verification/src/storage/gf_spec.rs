//! Mathematical model of GF(2^8) with reduction polynomial x^8 + x^4 + x^3 + x + 1,
//! and the field laws that the table-driven implementation relies on.

use vstd::prelude::*;

verus! {

/// Multiplication by x, reduced modulo x^8 + x^4 + x^3 + x + 1.
pub open spec fn xtime(a: u8) -> u8 {
    if a & 0x80u8 != 0u8 {
        ((a << 1u8) ^ 0x1bu8) as u8
    } else {
        (a << 1u8) as u8
    }
}

/// Product of two field elements: carry-less multiplication reduced by the polynomial.
pub open spec fn gf_mul(a: u8, b: u8) -> u8 {
    let p0 = a;
    let p1 = xtime(p0);
    let p2 = xtime(p1);
    let p3 = xtime(p2);
    let p4 = xtime(p3);
    let p5 = xtime(p4);
    let p6 = xtime(p5);
    let p7 = xtime(p6);
    ((if b & 1u8 != 0u8 { p0 } else { 0u8 }) ^ (if b & 2u8 != 0u8 { p1 } else { 0u8 }) ^ (
    if b & 4u8 != 0u8 {
        p2
    } else {
        0u8
    }) ^ (if b & 8u8 != 0u8 { p3 } else { 0u8 }) ^ (if b & 16u8 != 0u8 { p4 } else { 0u8 }) ^ (
    if b & 32u8 != 0u8 {
        p5
    } else {
        0u8
    }) ^ (if b & 64u8 != 0u8 { p6 } else { 0u8 }) ^ (if b & 128u8 != 0u8 {
        p7
    } else {
        0u8
    })) as u8
}

/// `base` raised to the power `e` in the field (with 0^0 = 1).
pub open spec fn gf_pow(base: u8, e: nat) -> u8
    decreases e,
{
    if e == 0 {
        1u8
    } else {
        gf_mul(base, gf_pow(base, (e - 1) as nat))
    }
}

/// Powers of the generator 3.
pub open spec fn exp3(n: nat) -> u8
    decreases n,
{
    if n == 0 {
        1u8
    } else {
        gf_mul(exp3((n - 1) as nat), 3u8)
    }
}

/// The discrete logarithm (base 3) of a nonzero element.
pub open spec fn gf_log(a: u8) -> nat {
    choose|k: nat| k < 255 && exp3(k) == a
}

/// The multiplicative inverse of a nonzero element.
pub open spec fn gf_inv(a: u8) -> u8 {
    choose|b: u8| gf_mul(a, b) == 1u8
}

/// Field division `a / b`, i.e. `a` times the inverse of `b`.
pub open spec fn gf_div(a: u8, b: u8) -> u8 {
    gf_mul(a, gf_inv(b))
}

} // verus!
