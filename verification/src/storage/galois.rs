//! Galois Field GF(256) arithmetic operations
//!
//! This module implements arithmetic in the Galois Field GF(2^8) using the
//! irreducible polynomial x^8 + x^4 + x^3 + x + 1 (0x11b). Multiplication,
//! division, inverses and powers go through logarithm / antilogarithm tables
//! built from the generator 3.

use vstd::prelude::*;
use super::gf_spec::{xtime, gf_mul, gf_pow, exp3, gf_log, gf_inv, gf_div};
use super::gf_bits::{lemma_mul_basics, lemma_mul_comm, lemma_no_zero_divisors, lemma_xor, lemma_mul_distrib};
use super::gf_laws::{
    lemma_exp3_add, lemma_exp3_mod, lemma_exp3_nonzero, lemma_exp3_injective, lemma_exp3_255,
    lemma_log, lemma_inv, lemma_mul_cancel, lemma_pow_exp3, lemma_pow_zero, lemma_pow_succ,
    lemma_mul_assoc,
};
use super::gf_poly::{poly_eval, distinct_xs, lag_num, lag_den, lag_term, lag_sum, lagrange_at_zero};

verus! {

/// Galois Field GF(256) implementation
#[derive(Debug)]
pub struct GF256 {
    /// Precomputed logarithm table for fast multiplication
    log_table: [u8; 256],
    /// Precomputed antilog table for fast multiplication
    antilog_table: [u8; 256],
}

/// Multiplication by the generator 3 (that is, `x + 1`).
fn times_three(a: u8) -> (r: u8)
    ensures
        r == gf_mul(a, 3u8),
{
    let doubled: u8 = if a & 0x80u8 != 0u8 {
        (a << 1u8) ^ 0x1bu8
    } else {
        a << 1u8
    };
    assert(doubled == xtime(a));
    assert(gf_mul(a, 3u8) == a ^ xtime(a)) by (bit_vector);
    a ^ doubled
}

/// Logarithm and antilogarithm tables filled in from the powers of 3.
fn build_tables(log_table: &mut [u8; 256], antilog_table: &mut [u8; 256])
    ensures
        forall|k: int| 0 <= k < 255 ==> #[trigger] final(antilog_table)[k] == exp3(k as nat),
        final(antilog_table)[255] == 1u8,
        forall|a: int|
            1 <= a < 256 ==> (#[trigger] final(log_table)[a]) < 255 && exp3(
                final(log_table)[a] as nat,
            ) == a as u8,
        final(log_table)[0] == 0u8,
{
    let mut value: u8 = 1;
    let mut i: usize = 0;
    while i < 255
        invariant
            0 <= i <= 255,
            value == exp3(i as nat),
            forall|k: int| 0 <= k < i ==> #[trigger] antilog_table[k] == exp3(k as nat),
            forall|k: int| 0 <= k < i ==> #[trigger] log_table[exp3(k as nat) as int] == k,
        decreases 255 - i,
    {
        proof {
            assert forall|k: int| 0 <= k < i implies #[trigger] exp3(k as nat) != exp3(i as nat) by {
                if exp3(k as nat) == exp3(i as nat) {
                    lemma_exp3_injective(k as nat, i as nat);
                }
            }
        }
        antilog_table[i] = value;
        log_table[value as usize] = i as u8;
        value = times_three(value);
        i = i + 1;
    }
    antilog_table[255] = antilog_table[0];
    proof {
        lemma_exp3_nonzero(0);
        assert forall|a: int| 1 <= a < 256 implies (#[trigger] log_table[a]) < 255 && exp3(
            log_table[a] as nat,
        ) == a as u8 by {
            lemma_log(a as u8);
            let k = gf_log(a as u8);
            let ki = k as int;
            assert(0 <= ki < 255);
            assert(log_table[exp3(ki as nat) as int] == ki);
        }
        assert forall|k: int| 0 <= k < 255 implies #[trigger] exp3(k as nat) != 0u8 by {
            lemma_exp3_nonzero(k as nat);
        }
    }
    log_table[0] = 0;
}

impl GF256 {
    /// The tables hold the powers of 3 and their logarithms.
    #[verifier::type_invariant]
    spec fn tables_hold_powers(self) -> bool {
        &&& forall|k: int| 0 <= k < 255 ==> #[trigger] self.antilog_table[k] == exp3(k as nat)
        &&& forall|a: int|
            1 <= a < 256 ==> (#[trigger] self.log_table[a]) < 255 && exp3(
                self.log_table[a] as nat,
            ) == a as u8
    }

    /// Entry `k` of the antilogarithm table.
    pub closed spec fn antilog_entry(&self, k: int) -> u8 {
        self.antilog_table[k]
    }

    /// Entry `a` of the logarithm table.
    pub closed spec fn log_entry(&self, a: int) -> u8 {
        self.log_table[a]
    }

    /// Create a new GF(256) instance with precomputed tables: entry `k` of the
    /// antilogarithm table is 3 to the `k` (entry 255 closes the cycle with 1),
    /// entry `a` of the logarithm table is the logarithm of `a` to base 3 (0 for 0).
    pub fn new() -> (gf: Self)
        ensures
            forall|k: int| 0 <= k < 255 ==> #[trigger] gf.antilog_entry(k) == exp3(k as nat),
            gf.antilog_entry(255) == 1u8,
            forall|a: int| 1 <= a < 256 ==> #[trigger] gf.log_entry(a) == gf_log(a as u8),
            gf.log_entry(0) == 0u8,
    {
        let mut log_table = [0u8; 256];
        let mut antilog_table = [0u8; 256];
        build_tables(&mut log_table, &mut antilog_table);
        proof {
            assert forall|a: int| 1 <= a < 256 implies #[trigger] log_table[a] == gf_log(a as u8) by {
                lemma_log(a as u8);
                let t = log_table[a] as nat;
                if t != gf_log(a as u8) {
                    lemma_exp3_injective(t, gf_log(a as u8));
                }
            }
        }
        GF256 { log_table, antilog_table }
    }

    /// Logarithm of a nonzero element, read from the table.
    fn log_of(&self, a: u8) -> (r: u16)
        requires
            a != 0,
        ensures
            r < 255,
            r == gf_log(a),
            exp3(r as nat) == a,
    {
        proof {
            use_type_invariant(self);
            lemma_log(a);
            let t = self.log_table[a as int] as nat;
            if t != gf_log(a) {
                lemma_exp3_injective(t, gf_log(a));
            }
        }
        self.log_table[a as usize] as u16
    }

    /// Antilogarithm (power of 3), read from the table.
    fn exp_of(&self, n: u16) -> (r: u8)
        requires
            n < 255,
        ensures
            r == exp3(n as nat),
    {
        proof {
            use_type_invariant(self);
        }
        self.antilog_table[n as usize]
    }

    /// Addition in GF(256) - same as XOR
    pub fn add(&self, a: u8, b: u8) -> (r: u8)
        ensures
            r == a ^ b,
    {
        a ^ b
    }

    /// Subtraction in GF(256) - same as XOR (since -x = x in GF(2^n))
    pub fn subtract(&self, a: u8, b: u8) -> (r: u8)
        ensures
            r == a ^ b,
    {
        a ^ b
    }

    /// Multiplication in GF(256) using log/antilog tables
    pub fn multiply(&self, a: u8, b: u8) -> (r: u8)
        ensures
            r == gf_mul(a, b),
    {
        if a == 0 || b == 0 {
            proof {
                lemma_mul_basics();
            }
            return 0;
        }
        let log_a = self.log_of(a);
        let log_b = self.log_of(b);
        let log_result = (log_a + log_b) % 255;
        proof {
            lemma_exp3_mod(log_a as nat + log_b as nat);
            lemma_exp3_add(log_a as nat, log_b as nat);
        }
        self.exp_of(log_result)
    }

    /// Division in GF(256) - multiplication by multiplicative inverse
    pub fn divide(&self, a: u8, b: u8) -> (r: Result<u8, &'static str>)
        ensures
            r is Err <==> b == 0,
            r matches Ok(v) ==> v == gf_div(a, b),
    {
        if b == 0 {
            return Err("Division by zero in GF(256)");
        }
        if a == 0 {
            proof {
                lemma_mul_basics();
            }
            return Ok(0);
        }
        let log_a = self.log_of(a);
        let log_b = self.log_of(b);
        let log_result = (255 + log_a - log_b) % 255;
        let r = self.exp_of(log_result);
        proof {
            let n = (255 + log_a - log_b) as nat;
            lemma_exp3_mod(n);
            lemma_exp3_add(n, log_b as nat);
            lemma_exp3_add(255, log_a as nat);
            lemma_exp3_255();
            lemma_mul_basics();
            // r * b == a, and (a / b) * b == a, so r == a / b.
            assert(gf_mul(r, b) == a);
            lemma_inv(b);
            lemma_mul_assoc(a, gf_inv(b), b);
            lemma_mul_comm();
            lemma_mul_cancel(b, r, gf_div(a, b));
        }
        Ok(r)
    }

    /// Multiplicative inverse in GF(256)
    pub fn inverse(&self, a: u8) -> (r: Result<u8, &'static str>)
        ensures
            r is Err <==> a == 0,
            r matches Ok(v) ==> v == gf_inv(a) && gf_mul(a, v) == 1u8,
    {
        if a == 0 {
            return Err("Zero has no multiplicative inverse");
        }
        let log_a = self.log_of(a);
        let log_inverse = (255 - log_a) % 255;
        let r = self.exp_of(log_inverse);
        proof {
            let n = (255 - log_a) as nat;
            lemma_exp3_mod(n);
            lemma_exp3_add(log_a as nat, n);
            lemma_exp3_255();
            lemma_inv(a);
        }
        Ok(r)
    }

    /// Power operation in GF(256)
    pub fn power(&self, base: u8, exponent: u8) -> (r: u8)
        ensures
            r == gf_pow(base, exponent as nat),
    {
        if base == 0 {
            proof {
                lemma_pow_zero(exponent as nat);
            }
            return if exponent == 0 {
                1
            } else {
                0
            };
        }
        if exponent == 0 {
            return 1;
        }
        let log_base = self.log_of(base);
        assert(log_base * (exponent as u16) <= 254 * 255) by (nonlinear_arith)
            requires
                log_base < 255,
        ;
        let log_result = (log_base * exponent as u16) % 255;
        proof {
            lemma_exp3_mod(log_base as nat * exponent as nat);
            lemma_pow_exp3(log_base as nat, exponent as nat);
        }
        self.exp_of(log_result)
    }

    /// Evaluate polynomial at given point
    /// poly[0] + poly[1]*x + poly[2]*x^2 + ... + poly[n]*x^n
    pub fn eval_polynomial(&self, poly: &[u8], x: u8) -> (r: u8)
        ensures
            r == poly_eval(poly@, x),
    {
        if poly.len() == 0 {
            return 0;
        }
        let mut result = poly[0];
        let mut x_power = x;
        proof {
            lemma_mul_basics();
            lemma_xor(gf_mul(poly@[0], 1u8), 0u8, 0u8);
            assert(poly@.take(1).drop_last() =~= Seq::<u8>::empty());
            assert(poly@.take(1).last() == poly@[0]);
            assert(gf_pow(x, 0) == 1u8);
            assert(poly_eval(poly@.take(1).drop_last(), x) == 0u8);
            assert(poly_eval(poly@.take(1), x) == 0u8 ^ gf_mul(poly@[0], 1u8));
            assert(gf_pow(x, 1) == gf_mul(x, gf_pow(x, 0)));
        }
        let mut k: usize = 1;
        while k < poly.len()
            invariant
                1 <= k <= poly.len(),
                result == poly_eval(poly@.take(k as int), x),
                x_power == gf_pow(x, k as nat),
            decreases poly.len() - k,
        {
            let coeff = poly[k];
            let term = self.multiply(coeff, x_power);
            result = self.add(result, term);
            x_power = self.multiply(x_power, x);
            proof {
                assert(poly@.take(k + 1).drop_last() =~= poly@.take(k as int));
                lemma_pow_succ(x, k as nat);
            }
            k = k + 1;
        }
        assert(poly@.take(poly.len() as int) =~= poly@);
        result
    }

    /// Lagrange interpolation to find polynomial value at x=0
    /// Given points (x_i, y_i), compute the polynomial value at 0
    pub fn lagrange_interpolate_at_zero(&self, points: &[(u8, u8)]) -> (r: Result<u8, &'static str>)
        ensures
            match r {
                Ok(v) => distinct_xs(points@) && v == lagrange_at_zero(points@),
                Err(_) => !distinct_xs(points@),
            },
    {
        let n = points.len();
        let mut result: u8 = 0;
        let mut i: usize = 0;
        while i < n
            invariant
                n == points@.len(),
                0 <= i <= n,
                result == lag_sum(points@, i as nat),
                forall|a: int, b: int|
                    0 <= a < i && 0 <= b < n && a != b ==> #[trigger] points@[a].0 != #[trigger] points@[b].0,
            decreases n - i,
        {
            let (xi, yi) = points[i];
            let mut numerator: u8 = 1;
            let mut denominator: u8 = 1;
            let mut j: usize = 0;
            while j < n
                invariant
                    n == points@.len(),
                    0 <= i < n,
                    0 <= j <= n,
                    xi == points@[i as int].0,
                    numerator == lag_num(points@, i as int, j as nat),
                    denominator == lag_den(points@, i as int, j as nat),
                decreases n - j,
            {
                if i != j {
                    let (xj, _) = points[j];
                    numerator = self.multiply(numerator, xj);
                    denominator = self.multiply(denominator, self.subtract(xi, xj));
                }
                j = j + 1;
            }
            proof {
                lemma_lag_den_zero(points@, i as int, n as nat);
            }
            let lagrange_coeff = match self.divide(numerator, denominator) {
                Ok(c) => c,
                Err(e) => {
                    return Err(e);
                },
            };
            let term = self.multiply(yi, lagrange_coeff);
            result = self.add(result, term);
            i = i + 1;
        }
        Ok(result)
    }
}

/// The denominator of point `i` vanishes exactly when another point shares its x-coordinate.
pub proof fn lemma_lag_den_zero(pts: Seq<(u8, u8)>, i: int, t: nat)
    requires
        0 <= i < pts.len(),
        t <= pts.len(),
    ensures
        (lag_den(pts, i, t) == 0u8) <==> (exists|j: int| 0 <= j < t && j != i && #[trigger] pts[j].0 == pts[i].0),
    decreases t,
{
    if t > 0 {
        lemma_lag_den_zero(pts, i, (t - 1) as nat);
        lemma_no_zero_divisors();
        lemma_mul_basics();
        lemma_xor(pts[i].0, pts[t - 1].0, 0u8);
        if t - 1 != i {
            let d = lag_den(pts, i, (t - 1) as nat);
            let f = pts[i].0 ^ pts[t - 1].0;
            assert(lag_den(pts, i, t) == gf_mul(d, f));
            if pts[t - 1].0 == pts[i].0 {
                assert(f == 0u8);
            }
        }
    }
}

impl Default for GF256 {
    fn default() -> (gf: Self) {
        Self::new()
    }
}

} // verus!
