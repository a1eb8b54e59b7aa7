//! Polynomials over GF(2^8) and Lagrange interpolation at zero: definitions.

use vstd::prelude::*;
use super::gf_spec::{gf_mul, gf_pow, gf_div};

verus! {

/// Value of the polynomial `p[0] + p[1] x + ... + p[n-1] x^(n-1)` at `x`.
pub open spec fn poly_eval(p: Seq<u8>, x: u8) -> u8
    decreases p.len(),
{
    if p.len() == 0 {
        0u8
    } else {
        poly_eval(p.drop_last(), x) ^ gf_mul(p.last(), gf_pow(x, (p.len() - 1) as nat))
    }
}

/// All points have pairwise different x-coordinates.
pub open spec fn distinct_xs(pts: Seq<(u8, u8)>) -> bool {
    forall|i: int, j: int| 0 <= i < pts.len() && 0 <= j < pts.len() && i != j ==> #[trigger] pts[i].0 != #[trigger] pts[j].0
}

/// Product of the x-coordinates of the first `t` points, skipping point `i`.
pub open spec fn lag_num(pts: Seq<(u8, u8)>, i: int, t: nat) -> u8
    decreases t,
{
    if t == 0 {
        1u8
    } else if t - 1 == i {
        lag_num(pts, i, (t - 1) as nat)
    } else {
        gf_mul(lag_num(pts, i, (t - 1) as nat), pts[t - 1].0)
    }
}

/// Product of `x_i - x_j` over the first `t` points `j`, skipping `j == i`.
pub open spec fn lag_den(pts: Seq<(u8, u8)>, i: int, t: nat) -> u8
    decreases t,
{
    if t == 0 {
        1u8
    } else if t - 1 == i {
        lag_den(pts, i, (t - 1) as nat)
    } else {
        gf_mul(lag_den(pts, i, (t - 1) as nat), pts[i].0 ^ pts[t - 1].0)
    }
}

/// Contribution `y_i * L_i(0)` of point `i` to the interpolated value at zero.
pub open spec fn lag_term(pts: Seq<(u8, u8)>, i: int) -> u8 {
    gf_mul(
        pts[i].1,
        gf_div(lag_num(pts, i, pts.len()), lag_den(pts, i, pts.len())),
    )
}

/// Sum of the contributions of the first `k` points.
pub open spec fn lag_sum(pts: Seq<(u8, u8)>, k: nat) -> u8
    decreases k,
{
    if k == 0 {
        0u8
    } else {
        lag_sum(pts, (k - 1) as nat) ^ lag_term(pts, k - 1)
    }
}

/// The value at zero of the Lagrange interpolation polynomial through `pts`.
pub open spec fn lagrange_at_zero(pts: Seq<(u8, u8)>) -> u8 {
    lag_sum(pts, pts.len())
}

} // verus!
