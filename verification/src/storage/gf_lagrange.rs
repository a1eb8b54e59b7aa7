//! Correctness of Lagrange interpolation at zero over GF(2^8): through any set of
//! points with distinct x-coordinates that lie on a polynomial of fewer coefficients
//! than there are points, the interpolated value at zero is the polynomial's value at zero.

use vstd::prelude::*;
use super::gf_spec::{gf_mul, gf_pow, gf_inv, gf_div};
use super::gf_bits::{
    lemma_mul_comm, lemma_mul_distrib, lemma_mul_basics, lemma_no_zero_divisors, lemma_xor,
    lemma_xor_rearrange,
};
use super::gf_laws::{lemma_mul_assoc, lemma_mul_distrib_left, lemma_inv, lemma_inv_mul, lemma_pow_succ};
use super::gf_poly::{poly_eval, distinct_xs, lag_num, lag_den, lag_term, lag_sum, lagrange_at_zero};

verus! {

// ---------------------------------------------------------------------------
// Sums and products over sequences of field elements
// ---------------------------------------------------------------------------

/// Sum (xor) of `f(v)` over the elements `v` of `s`.
spec fn xsum(s: Seq<u8>, f: spec_fn(u8) -> u8) -> u8
    decreases s.len(),
{
    if s.len() == 0 {
        0u8
    } else {
        xsum(s.drop_last(), f) ^ f(s.last())
    }
}

/// Product of `f(v)` over the elements `v` of `s`.
spec fn gprod(s: Seq<u8>, f: spec_fn(u8) -> u8) -> u8
    decreases s.len(),
{
    if s.len() == 0 {
        1u8
    } else {
        gf_mul(gprod(s.drop_last(), f), f(s.last()))
    }
}

proof fn lemma_mul_swap(a: u8, b: u8, c: u8)
    ensures
        gf_mul(gf_mul(a, b), c) == gf_mul(gf_mul(a, c), b),
{
    lemma_mul_assoc(a, b, c);
    lemma_mul_comm();
    lemma_mul_assoc(a, c, b);
}

/// `(a p)(q / a) = p q` for nonzero `a`.
proof fn lemma_mul_cancel_pair(a: u8, p: u8, q: u8)
    requires
        a != 0,
    ensures
        gf_mul(gf_mul(a, p), gf_mul(q, gf_inv(a))) == gf_mul(p, q),
{
    let ia = gf_inv(a);
    lemma_inv(a);
    lemma_mul_comm();
    lemma_mul_basics();
    lemma_mul_assoc(a, p, gf_mul(q, ia));
    lemma_mul_assoc(p, q, ia);
    lemma_mul_assoc(a, ia, gf_mul(p, q));
    assert(gf_mul(p, gf_mul(q, ia)) == gf_mul(gf_mul(p, q), ia));
    assert(gf_mul(gf_mul(p, q), ia) == gf_mul(ia, gf_mul(p, q)));
    assert(gf_mul(a, gf_mul(ia, gf_mul(p, q))) == gf_mul(gf_mul(a, ia), gf_mul(p, q)));
}

proof fn lemma_xsum_remove(s: Seq<u8>, f: spec_fn(u8) -> u8, k: int)
    requires
        0 <= k < s.len(),
    ensures
        xsum(s, f) == xsum(s.remove(k), f) ^ f(s[k]),
    decreases s.len(),
{
    if k == s.len() - 1 {
        assert(s.remove(k) =~= s.drop_last());
    } else {
        let t = s.drop_last();
        lemma_xsum_remove(t, f, k);
        assert(s.remove(k).drop_last() =~= t.remove(k));
        assert(s.remove(k).last() == s.last());
        assert(t[k] == s[k]);
        lemma_xor_rearrange(xsum(t.remove(k), f), f(s[k]), f(s.last()), 0u8);
    }
}

proof fn lemma_gprod_remove(s: Seq<u8>, f: spec_fn(u8) -> u8, k: int)
    requires
        0 <= k < s.len(),
    ensures
        gprod(s, f) == gf_mul(gprod(s.remove(k), f), f(s[k])),
    decreases s.len(),
{
    if k == s.len() - 1 {
        assert(s.remove(k) =~= s.drop_last());
    } else {
        let t = s.drop_last();
        lemma_gprod_remove(t, f, k);
        assert(s.remove(k).drop_last() =~= t.remove(k));
        assert(s.remove(k).last() == s.last());
        assert(t[k] == s[k]);
        lemma_mul_swap(gprod(t.remove(k), f), f(s[k]), f(s.last()));
    }
}

proof fn lemma_xsum_congr(s: Seq<u8>, f: spec_fn(u8) -> u8, g: spec_fn(u8) -> u8)
    requires
        forall|i: int| 0 <= i < s.len() ==> f(#[trigger] s[i]) == g(s[i]),
    ensures
        xsum(s, f) == xsum(s, g),
    decreases s.len(),
{
    if s.len() > 0 {
        let t = s.drop_last();
        assert forall|i: int| 0 <= i < t.len() implies f(#[trigger] t[i]) == g(t[i]) by {
            assert(t[i] == s[i]);
        }
        lemma_xsum_congr(t, f, g);
        assert(f(s[s.len() - 1]) == g(s[s.len() - 1]));
    }
}

proof fn lemma_gprod_congr(s: Seq<u8>, f: spec_fn(u8) -> u8, g: spec_fn(u8) -> u8)
    requires
        forall|i: int| 0 <= i < s.len() ==> f(#[trigger] s[i]) == g(s[i]),
    ensures
        gprod(s, f) == gprod(s, g),
    decreases s.len(),
{
    if s.len() > 0 {
        let t = s.drop_last();
        assert forall|i: int| 0 <= i < t.len() implies f(#[trigger] t[i]) == g(t[i]) by {
            assert(t[i] == s[i]);
        }
        lemma_gprod_congr(t, f, g);
        assert(f(s[s.len() - 1]) == g(s[s.len() - 1]));
    }
}

proof fn lemma_xsum_add(s: Seq<u8>, f: spec_fn(u8) -> u8, g: spec_fn(u8) -> u8, h: spec_fn(u8) -> u8)
    requires
        forall|i: int| 0 <= i < s.len() ==> h(#[trigger] s[i]) == f(s[i]) ^ g(s[i]),
    ensures
        xsum(s, h) == xsum(s, f) ^ xsum(s, g),
    decreases s.len(),
{
    if s.len() == 0 {
        lemma_xor(0u8, 0u8, 0u8);
    } else {
        let t = s.drop_last();
        assert forall|i: int| 0 <= i < t.len() implies h(#[trigger] t[i]) == f(t[i]) ^ g(t[i]) by {
            assert(t[i] == s[i]);
        }
        lemma_xsum_add(t, f, g, h);
        assert(h(s[s.len() - 1]) == f(s[s.len() - 1]) ^ g(s[s.len() - 1]));
        lemma_xor_rearrange(xsum(t, f), xsum(t, g), f(s.last()), g(s.last()));
    }
}

proof fn lemma_xsum_scale(s: Seq<u8>, c: u8, f: spec_fn(u8) -> u8, h: spec_fn(u8) -> u8)
    requires
        forall|i: int| 0 <= i < s.len() ==> h(#[trigger] s[i]) == gf_mul(c, f(s[i])),
    ensures
        xsum(s, h) == gf_mul(c, xsum(s, f)),
    decreases s.len(),
{
    lemma_mul_basics();
    lemma_mul_distrib();
    if s.len() > 0 {
        let t = s.drop_last();
        assert forall|i: int| 0 <= i < t.len() implies h(#[trigger] t[i]) == gf_mul(c, f(t[i])) by {
            assert(t[i] == s[i]);
        }
        lemma_xsum_scale(t, c, f, h);
        assert(h(s[s.len() - 1]) == gf_mul(c, f(s[s.len() - 1])));
    }
}

proof fn lemma_xsum_zero(s: Seq<u8>, f: spec_fn(u8) -> u8)
    requires
        forall|i: int| 0 <= i < s.len() ==> f(#[trigger] s[i]) == 0u8,
    ensures
        xsum(s, f) == 0u8,
    decreases s.len(),
{
    if s.len() > 0 {
        let t = s.drop_last();
        assert forall|i: int| 0 <= i < t.len() implies f(#[trigger] t[i]) == 0u8 by {
            assert(t[i] == s[i]);
        }
        lemma_xsum_zero(t, f);
        assert(f(s[s.len() - 1]) == 0u8);
        lemma_xor(0u8, 0u8, 0u8);
    }
}

proof fn lemma_gprod_nonzero(s: Seq<u8>, f: spec_fn(u8) -> u8)
    requires
        forall|i: int| 0 <= i < s.len() ==> f(#[trigger] s[i]) != 0u8,
    ensures
        gprod(s, f) != 0u8,
    decreases s.len(),
{
    if s.len() > 0 {
        let t = s.drop_last();
        assert forall|i: int| 0 <= i < t.len() implies f(#[trigger] t[i]) != 0u8 by {
            assert(t[i] == s[i]);
        }
        lemma_gprod_nonzero(t, f);
        assert(f(s[s.len() - 1]) != 0u8);
        lemma_no_zero_divisors();
    }
}

proof fn lemma_remove_no_dup(s: Seq<u8>, k: int)
    requires
        s.no_duplicates(),
        0 <= k < s.len(),
    ensures
        s.remove(k).no_duplicates(),
        forall|i: int| 0 <= i < s.remove(k).len() ==> #[trigger] s.remove(k)[i] != s[k],
{
    let r = s.remove(k);
    assert forall|i: int, j: int| 0 <= i < r.len() && 0 <= j < r.len() && i != j implies r[i] != r[j] by {
        let ii = if i < k { i } else { i + 1 };
        let jj = if j < k { j } else { j + 1 };
        assert(r[i] == s[ii]);
        assert(r[j] == s[jj]);
    }
    assert forall|i: int| 0 <= i < r.len() implies #[trigger] r[i] != s[k] by {
        let ii = if i < k { i } else { i + 1 };
        assert(r[i] == s[ii]);
    }
}

// ---------------------------------------------------------------------------
// The weights of Lagrange interpolation
// ---------------------------------------------------------------------------

/// Factor `v - w` of the denominator of the basis polynomial at `v` (1 for `w == v`).
spec fn den_fn(v: u8) -> spec_fn(u8) -> u8 {
    |w: u8|
        if w == v {
            1u8
        } else {
            v ^ w
        }
}

/// Factor `w` of the numerator of the basis polynomial at `v` (1 for `w == v`).
spec fn num_fn(v: u8) -> spec_fn(u8) -> u8 {
    |w: u8|
        if w == v {
            1u8
        } else {
            w
        }
}

spec fn id_fn() -> spec_fn(u8) -> u8 {
    |w: u8| w
}

/// Product of `v - w` over the other nodes `w`.
spec fn wt(xs: Seq<u8>, v: u8) -> u8 {
    gprod(xs, den_fn(v))
}

spec fn s_fn(xs: Seq<u8>, m: nat) -> spec_fn(u8) -> u8 {
    |v: u8| gf_mul(gf_pow(v, m), gf_inv(wt(xs, v)))
}

/// Sum over the nodes `v` of `v^m / prod_{w != v} (v - w)`.
spec fn ssum(xs: Seq<u8>, m: nat) -> u8 {
    xsum(xs, s_fn(xs, m))
}

proof fn lemma_wt_nonzero(xs: Seq<u8>, v: u8)
    ensures
        wt(xs, v) != 0u8,
{
    assert forall|i: int| 0 <= i < xs.len() implies den_fn(v)(#[trigger] xs[i]) != 0u8 by {
        lemma_xor(v, xs[i], 0u8);
    }
    lemma_gprod_nonzero(xs, den_fn(v));
}

/// Removing node `xs[k]` relates the sums of consecutive powers.
proof fn lemma_ssum_remove(xs: Seq<u8>, k: int, m: nat)
    requires
        xs.no_duplicates(),
        0 <= k < xs.len(),
    ensures
        ssum(xs, m + 1) == gf_mul(xs[k], ssum(xs, m)) ^ ssum(xs.remove(k), m),
{
    let b = xs[k];
    let ys = xs.remove(k);
    let h = |v: u8| gf_mul(gf_mul(v ^ b, gf_pow(v, m)), gf_inv(wt(xs, v)));
    let bs = |v: u8| gf_mul(b, s_fn(xs, m)(v));
    lemma_mul_basics();
    assert forall|i: int| 0 <= i < xs.len() implies s_fn(xs, m + 1)(#[trigger] xs[i]) == bs(xs[i]) ^ h(xs[i]) by {
        let v = xs[i];
        let p = gf_pow(v, m);
        let iw = gf_inv(wt(xs, v));
        lemma_pow_succ(v, m);
        lemma_mul_comm();
        lemma_mul_distrib_left(v, b, p);
        lemma_mul_distrib_left(gf_mul(v, p), gf_mul(b, p), iw);
        lemma_mul_assoc(b, p, iw);
        let x = gf_mul(b, gf_mul(p, iw));
        let y = gf_mul(gf_mul(v, p), iw);
        assert(h(v) == y ^ x);
        assert(bs(v) == x);
        assert(s_fn(xs, m + 1)(v) == y);
        lemma_xor(y, x, 0u8);
        lemma_xor(x, y ^ x, 0u8);
    }
    lemma_xsum_add(xs, bs, h, s_fn(xs, m + 1));
    lemma_xsum_scale(xs, b, s_fn(xs, m), bs);
    lemma_xsum_remove(xs, h, k);
    lemma_xor(b, b, 0u8);
    assert(h(b) == 0u8);
    lemma_remove_no_dup(xs, k);
    assert forall|i: int| 0 <= i < ys.len() implies h(#[trigger] ys[i]) == s_fn(ys, m)(ys[i]) by {
        let v = ys[i];
        assert(v != b);
        lemma_gprod_remove(xs, den_fn(v), k);
        assert(den_fn(v)(b) == v ^ b);
        let d = v ^ b;
        lemma_xor(v, b, 0u8);
        assert(d != 0u8);
        lemma_wt_nonzero(ys, v);
        assert(wt(xs, v) == gf_mul(wt(ys, v), d));
        lemma_inv_mul(wt(ys, v), d);
        lemma_mul_cancel_pair(d, gf_pow(v, m), gf_inv(wt(ys, v)));
    }
    lemma_xsum_congr(ys, h, s_fn(ys, m));
    lemma_xor(xsum(ys, h), 0u8, 0u8);
}

/// For distinct nodes, `sum_v v^m / prod_{w != v} (v - w)` is 0 for `m < n - 1` and 1 for `m = n - 1`.
proof fn lemma_ssum_value(xs: Seq<u8>, m: nat)
    requires
        xs.no_duplicates(),
        xs.len() >= 1,
        m <= xs.len() - 1,
    ensures
        ssum(xs, m) == (if m == xs.len() - 1 {
            1u8
        } else {
            0u8
        }),
    decreases xs.len(), m,
{
    lemma_mul_basics();
    let n = xs.len();
    if n == 1 {
        let a = xs[0];
        assert(xs.drop_last() =~= Seq::<u8>::empty());
        assert(xs.last() == a);
        assert(gprod(xs.drop_last(), den_fn(a)) == 1u8);
        assert(wt(xs, a) == gf_mul(gprod(xs.drop_last(), den_fn(a)), den_fn(a)(xs.last())));
        assert(den_fn(a)(a) == 1u8);
        assert(wt(xs, a) == 1u8);
        assert(xsum(xs.drop_last(), s_fn(xs, 0)) == 0u8);
        assert(ssum(xs, 0) == xsum(xs.drop_last(), s_fn(xs, 0)) ^ s_fn(xs, 0)(a));
        lemma_inv(1u8);
        assert(gf_inv(1u8) == 1u8);
        assert(s_fn(xs, 0)(a) == 1u8);
        lemma_xor(1u8, 0u8, 0u8);
    } else if m == 0 {
        let a = xs[0];
        let b = xs[n - 1];
        let ya = xs.remove(0);
        let yb = xs.remove(n - 1);
        lemma_remove_no_dup(xs, 0);
        lemma_remove_no_dup(xs, n - 1);
        lemma_ssum_remove(xs, 0, 0);
        lemma_ssum_remove(xs, n - 1, 0);
        lemma_ssum_value(ya, 0);
        lemma_ssum_value(yb, 0);
        let s0 = ssum(xs, 0);
        let c = ssum(ya, 0);
        assert(ssum(yb, 0) == c);
        lemma_xor(gf_mul(a, s0), c, 0u8);
        lemma_xor(gf_mul(b, s0), c, 0u8);
        lemma_xor_rearrange(c, gf_mul(a, s0), gf_mul(b, s0), 0u8);
        assert(gf_mul(a, s0) == gf_mul(b, s0));
        lemma_mul_distrib_left(a, b, s0);
        lemma_xor(gf_mul(a, s0), gf_mul(b, s0), 0u8);
        lemma_xor(a, b, 0u8);
        lemma_no_zero_divisors();
        assert(a != b);
    } else {
        let b = xs[n - 1];
        let yb = xs.remove(n - 1);
        lemma_remove_no_dup(xs, n - 1);
        lemma_ssum_remove(xs, n - 1, (m - 1) as nat);
        lemma_ssum_value(xs, (m - 1) as nat);
        lemma_ssum_value(yb, (m - 1) as nat);
        lemma_xor(ssum(yb, (m - 1) as nat), 0u8, 0u8);
    }
}

/// Value at `v` of the term `v^m q(v) / prod_{w != v}(v - w)`.
spec fn v_fn(xs: Seq<u8>, q: Seq<u8>, m: nat) -> spec_fn(u8) -> u8 {
    |v: u8| gf_mul(gf_mul(gf_pow(v, m), poly_eval(q, v)), gf_inv(wt(xs, v)))
}

/// Horner form of polynomial evaluation.
proof fn lemma_horner(q: Seq<u8>, v: u8)
    requires
        q.len() >= 1,
    ensures
        poly_eval(q, v) == q[0] ^ gf_mul(v, poly_eval(q.drop_first(), v)),
    decreases q.len(),
{
    lemma_mul_basics();
    lemma_mul_comm();
    if q.len() == 1 {
        assert(q.drop_last() =~= Seq::<u8>::empty());
        assert(q.drop_first() =~= Seq::<u8>::empty());
        lemma_xor(q[0], 0u8, 0u8);
    } else {
        let n = q.len();
        let dl = q.drop_last();
        let df = q.drop_first();
        lemma_horner(dl, v);
        assert(dl.drop_first() =~= df.drop_last());
        assert(df.last() == q.last());
        let c = q.last();
        let pn2 = gf_pow(v, (n - 2) as nat);
        assert(gf_pow(v, (n - 1) as nat) == gf_mul(v, pn2));
        lemma_mul_distrib();
        lemma_mul_assoc(v, c, pn2);
        lemma_mul_assoc(c, v, pn2);
        let a = poly_eval(df.drop_last(), v);
        assert(poly_eval(df, v) == a ^ gf_mul(c, pn2));
        assert(gf_mul(v, poly_eval(df, v)) == gf_mul(v, a) ^ gf_mul(v, gf_mul(c, pn2)));
        assert(gf_mul(v, gf_mul(c, pn2)) == gf_mul(c, gf_mul(v, pn2)));
        lemma_xor(q[0], gf_mul(v, a), gf_mul(c, gf_mul(v, pn2)));
    }
}

/// Sums of `v^m q(v) / prod_{w != v}(v - w)` vanish when `m + deg q < n - 1`.
proof fn lemma_vsum_zero(xs: Seq<u8>, q: Seq<u8>, m: nat)
    requires
        xs.no_duplicates(),
        xs.len() >= 1,
        m + q.len() <= xs.len() - 1,
    ensures
        xsum(xs, v_fn(xs, q, m)) == 0u8,
    decreases q.len(),
{
    lemma_mul_basics();
    if q.len() == 0 {
        assert forall|i: int| 0 <= i < xs.len() implies v_fn(xs, q, m)(#[trigger] xs[i]) == 0u8 by {}
        lemma_xsum_zero(xs, v_fn(xs, q, m));
    } else {
        let q0 = q[0];
        let qt = q.drop_first();
        let sc = |v: u8| gf_mul(q0, s_fn(xs, m)(v));
        assert forall|i: int| 0 <= i < xs.len() implies v_fn(xs, q, m)(#[trigger] xs[i]) == sc(xs[i])
            ^ v_fn(xs, qt, m + 1)(xs[i]) by {
            let v = xs[i];
            let p = gf_pow(v, m);
            let iw = gf_inv(wt(xs, v));
            let g = poly_eval(qt, v);
            lemma_horner(q, v);
            lemma_mul_comm();
            lemma_mul_distrib();
            lemma_mul_distrib_left(gf_mul(p, q0), gf_mul(p, gf_mul(v, g)), iw);
            lemma_mul_assoc(p, q0, iw);
            lemma_mul_assoc(q0, p, iw);
            lemma_mul_assoc(p, v, g);
            lemma_pow_succ(v, m);
        }
        lemma_xsum_add(xs, sc, v_fn(xs, qt, m + 1), v_fn(xs, q, m));
        lemma_xsum_scale(xs, q0, s_fn(xs, m), sc);
        lemma_ssum_value(xs, m);
        lemma_vsum_zero(xs, qt, m + 1);
        lemma_xor(0u8, 0u8, 0u8);
    }
}

spec fn i_fn(xs: Seq<u8>) -> spec_fn(u8) -> u8 {
    |v: u8| gf_mul(gf_inv(v), gf_inv(wt(xs, v)))
}

/// For distinct nonzero nodes, `sum_v 1 / (v prod_{w != v}(v - w)) = 1 / prod_v v`.
proof fn lemma_inverse_sum(xs: Seq<u8>)
    requires
        xs.no_duplicates(),
        xs.len() >= 1,
        forall|i: int| 0 <= i < xs.len() ==> #[trigger] xs[i] != 0u8,
    ensures
        xsum(xs, i_fn(xs)) == gf_inv(gprod(xs, id_fn())),
{
    lemma_mul_basics();
    lemma_mul_comm();
    let zs = xs.push(0u8);
    assert(zs.drop_last() =~= xs);
    assert(zs.last() == 0u8);
    assert(zs.no_duplicates()) by {
        assert forall|i: int, j: int| 0 <= i < zs.len() && 0 <= j < zs.len() && i != j implies zs[i] != zs[j] by {
            if i < xs.len() && j < xs.len() {
                assert(zs[i] == xs[i] && zs[j] == xs[j]);
            } else if i < xs.len() {
                assert(zs[i] == xs[i]);
            } else if j < xs.len() {
                assert(zs[j] == xs[j]);
            }
        }
    }
    lemma_ssum_value(zs, 0);
    assert(ssum(zs, 0) == 0u8);
    let f0 = s_fn(zs, 0);
    assert(ssum(zs, 0) == xsum(xs, f0) ^ f0(0u8));
    // The term of the extra node 0.
    assert forall|i: int| 0 <= i < xs.len() implies den_fn(0u8)(#[trigger] xs[i]) == id_fn()(xs[i]) by {
        lemma_xor(xs[i], 0u8, 0u8);
    }
    lemma_gprod_congr(xs, den_fn(0u8), id_fn());
    assert(wt(zs, 0u8) == gf_mul(gprod(xs, den_fn(0u8)), den_fn(0u8)(0u8)));
    assert(wt(zs, 0u8) == gprod(xs, id_fn()));
    assert(f0(0u8) == gf_inv(gprod(xs, id_fn())));
    // The terms of the other nodes.
    assert forall|i: int| 0 <= i < xs.len() implies f0(#[trigger] xs[i]) == i_fn(xs)(xs[i]) by {
        let v = xs[i];
        assert(wt(zs, v) == gf_mul(gprod(xs, den_fn(v)), den_fn(v)(0u8)));
        lemma_xor(v, 0u8, 0u8);
        assert(den_fn(v)(0u8) == v);
        lemma_wt_nonzero(xs, v);
        lemma_inv_mul(wt(xs, v), v);
    }
    lemma_xsum_congr(xs, f0, i_fn(xs));
    lemma_xor(xsum(xs, i_fn(xs)), f0(0u8), 0u8);
}

// ---------------------------------------------------------------------------
// From the index-based definitions to the node-based ones
// ---------------------------------------------------------------------------

spec fn xs_of(pts: Seq<(u8, u8)>) -> Seq<u8> {
    pts.map_values(|p: (u8, u8)| p.0)
}

proof fn lemma_xs_of(pts: Seq<(u8, u8)>)
    requires
        distinct_xs(pts),
    ensures
        xs_of(pts).len() == pts.len(),
        xs_of(pts).no_duplicates(),
        forall|i: int| 0 <= i < pts.len() ==> #[trigger] xs_of(pts)[i] == pts[i].0,
{
    let xs = xs_of(pts);
    assert forall|i: int, j: int| 0 <= i < xs.len() && 0 <= j < xs.len() && i != j implies xs[i] != xs[j] by {
        assert(pts[i].0 != pts[j].0);
    }
}

proof fn lemma_lag_products(pts: Seq<(u8, u8)>, i: int, t: nat)
    requires
        distinct_xs(pts),
        0 <= i < pts.len(),
        t <= pts.len(),
    ensures
        lag_den(pts, i, t) == gprod(xs_of(pts).take(t as int), den_fn(pts[i].0)),
        lag_num(pts, i, t) == gprod(xs_of(pts).take(t as int), num_fn(pts[i].0)),
    decreases t,
{
    lemma_xs_of(pts);
    lemma_mul_basics();
    let xs = xs_of(pts);
    if t > 0 {
        lemma_lag_products(pts, i, (t - 1) as nat);
        assert(xs.take(t as int).drop_last() =~= xs.take(t - 1));
        assert(xs.take(t as int).last() == pts[t - 1].0);
        if t - 1 != i {
            assert(pts[t - 1].0 != pts[i].0);
        }
    }
}

spec fn f_fn(xs: Seq<u8>, p: Seq<u8>) -> spec_fn(u8) -> u8 {
    |v: u8| gf_mul(poly_eval(p, v), gf_div(gprod(xs, num_fn(v)), wt(xs, v)))
}

proof fn lemma_lag_sum_nodes(pts: Seq<(u8, u8)>, p: Seq<u8>, k: nat)
    requires
        distinct_xs(pts),
        k <= pts.len(),
        forall|i: int| 0 <= i < pts.len() ==> #[trigger] pts[i].1 == poly_eval(p, pts[i].0),
    ensures
        lag_sum(pts, k) == xsum(xs_of(pts).take(k as int), f_fn(xs_of(pts), p)),
    decreases k,
{
    lemma_xs_of(pts);
    let xs = xs_of(pts);
    if k > 0 {
        lemma_lag_sum_nodes(pts, p, (k - 1) as nat);
        assert(xs.take(k as int).drop_last() =~= xs.take(k - 1));
        assert(xs.take(k as int).last() == pts[k - 1].0);
        lemma_lag_products(pts, k - 1, pts.len());
        assert(xs.take(pts.len() as int) =~= xs);
        assert(lag_term(pts, k - 1) == f_fn(xs, p)(pts[k - 1].0));
    }
}

// ---------------------------------------------------------------------------
// The interpolation law
// ---------------------------------------------------------------------------

/// Lagrange interpolation at zero recovers the constant term: if every point lies on the
/// polynomial `p`, the x-coordinates are distinct, and `p` has no more coefficients than
/// there are points, then the interpolated value at zero is `p(0)`.
pub proof fn lemma_lagrange_recovers(pts: Seq<(u8, u8)>, p: Seq<u8>)
    requires
        distinct_xs(pts),
        p.len() <= pts.len(),
        forall|i: int| 0 <= i < pts.len() ==> #[trigger] pts[i].1 == poly_eval(p, pts[i].0),
    ensures
        lagrange_at_zero(pts) == poly_eval(p, 0u8),
{
    lemma_xs_of(pts);
    lemma_mul_basics();
    lemma_mul_comm();
    let xs = xs_of(pts);
    let n = xs.len();
    let f = f_fn(xs, p);
    lemma_lag_sum_nodes(pts, p, pts.len());
    assert(xs.take(n as int) =~= xs);
    assert(lagrange_at_zero(pts) == xsum(xs, f));
    if n == 0 {
        assert(p.len() == 0);
    } else if p.len() == 0 {
        assert forall|i: int| 0 <= i < xs.len() implies f(#[trigger] xs[i]) == 0u8 by {}
        lemma_xsum_zero(xs, f);
    } else if exists|k: int| 0 <= k < n && xs[k] == 0u8 {
        let k = choose|k: int| 0 <= k < n && xs[k] == 0u8;
        let ys = xs.remove(k);
        lemma_remove_no_dup(xs, k);
        lemma_xsum_remove(xs, f, k);
        // Every other node's numerator contains the factor 0.
        assert forall|i: int| 0 <= i < ys.len() implies f(#[trigger] ys[i]) == 0u8 by {
            let v = ys[i];
            lemma_gprod_remove(xs, num_fn(v), k);
            assert(num_fn(v)(0u8) == 0u8);
        }
        lemma_xsum_zero(ys, f);
        // The node 0: numerator and denominator agree.
        lemma_gprod_remove(xs, num_fn(0u8), k);
        lemma_gprod_remove(xs, den_fn(0u8), k);
        assert forall|i: int| 0 <= i < ys.len() implies num_fn(0u8)(#[trigger] ys[i]) == den_fn(0u8)(ys[i]) by {
            lemma_xor(ys[i], 0u8, 0u8);
        }
        lemma_gprod_congr(ys, num_fn(0u8), den_fn(0u8));
        let g = gprod(ys, den_fn(0u8));
        assert(gprod(xs, num_fn(0u8)) == g);
        assert(wt(xs, 0u8) == g);
        lemma_wt_nonzero(ys, 0u8);
        lemma_inv(g);
        assert(f(0u8) == poly_eval(p, 0u8));
        lemma_xor(poly_eval(p, 0u8), 0u8, 0u8);
    } else {
        assert forall|i: int| 0 <= i < n implies #[trigger] xs[i] != 0u8 by {}
        let d = gprod(xs, id_fn());
        assert forall|i: int| 0 <= i < n implies id_fn()(#[trigger] xs[i]) != 0u8 by {}
        lemma_gprod_nonzero(xs, id_fn());
        let p0 = p[0];
        let pt = p.drop_first();
        let h = |v: u8| gf_mul(gf_mul(poly_eval(p, v), gf_inv(v)), gf_inv(wt(xs, v)));
        let sc = |v: u8| gf_mul(p0, i_fn(xs)(v));
        // f(v) = d * h(v) and h(v) = p0 / (v w(v)) + pt(v) / w(v).
        assert forall|i: int| 0 <= i < n implies f(#[trigger] xs[i]) == gf_mul(d, h(xs[i])) && h(xs[i])
            == sc(xs[i]) ^ v_fn(xs, pt, 0)(xs[i]) by {
            let v = xs[i];
            let ys = xs.remove(i);
            lemma_remove_no_dup(xs, i);
            lemma_gprod_remove(xs, num_fn(v), i);
            lemma_gprod_remove(xs, id_fn(), i);
            assert forall|j: int| 0 <= j < ys.len() implies num_fn(v)(#[trigger] ys[j]) == id_fn()(ys[j]) by {}
            lemma_gprod_congr(ys, num_fn(v), id_fn());
            let nv = gprod(xs, num_fn(v));
            let gy = gprod(ys, id_fn());
            assert(nv == gy);
            assert(d == gf_mul(gy, v));
            lemma_inv(v);
            let iv = gf_inv(v);
            let iw = gf_inv(wt(xs, v));
            let fv = poly_eval(p, v);
            // nv = d / v
            lemma_mul_assoc(gy, v, iv);
            assert(gf_mul(d, iv) == nv);
            // f(v) = fv * (nv * iw) = d * ((fv * iv) * iw)
            lemma_mul_assoc(d, iv, iw);
            lemma_mul_assoc(fv, gf_mul(d, iv), iw);
            lemma_mul_assoc(fv, d, gf_mul(iv, iw));
            lemma_mul_assoc(d, fv, gf_mul(iv, iw));
            lemma_mul_assoc(fv, iv, iw);
            assert(gf_mul(fv, gf_mul(gf_mul(d, iv), iw)) == gf_mul(fv, gf_mul(d, gf_mul(iv, iw))));
            assert(gf_mul(fv, gf_mul(d, gf_mul(iv, iw))) == gf_mul(gf_mul(fv, d), gf_mul(iv, iw)));
            assert(gf_mul(gf_mul(fv, d), gf_mul(iv, iw)) == gf_mul(gf_mul(d, fv), gf_mul(iv, iw)));
            assert(gf_mul(gf_mul(d, fv), gf_mul(iv, iw)) == gf_mul(d, gf_mul(fv, gf_mul(iv, iw))));
            assert(gf_mul(fv, gf_mul(iv, iw)) == gf_mul(gf_mul(fv, iv), iw));
            // h(v) via Horner
            lemma_horner(p, v);
            let gv = poly_eval(pt, v);
            lemma_mul_distrib_left(p0, gf_mul(v, gv), iv);
            lemma_mul_assoc(v, gv, iv);
            lemma_mul_assoc(gv, v, iv);
            assert(gf_mul(gf_mul(v, gv), iv) == gv);
            lemma_mul_distrib_left(gf_mul(p0, iv), gv, iw);
            lemma_mul_assoc(p0, iv, iw);
            assert(v_fn(xs, pt, 0)(v) == gf_mul(gf_mul(1u8, gv), iw));
        }
        lemma_xsum_scale(xs, d, h, f);
        lemma_xsum_add(xs, sc, v_fn(xs, pt, 0), h);
        lemma_xsum_scale(xs, p0, i_fn(xs), sc);
        lemma_inverse_sum(xs);
        lemma_vsum_zero(xs, pt, 0);
        lemma_xor(gf_mul(p0, gf_inv(d)), 0u8, 0u8);
        lemma_inv(d);
        lemma_mul_assoc(d, p0, gf_inv(d));
        lemma_mul_assoc(p0, d, gf_inv(d));
        assert(gf_mul(d, gf_mul(p0, gf_inv(d))) == p0);
        lemma_horner(p, 0u8);
        lemma_xor(p0, 0u8, 0u8);
    }
}

} // verus!
