//! Fixed-point arithmetic helpers: rounding division, integer square
//! root and shared range lemmas.
//!
//! One drawing unit is `PICO` counts; divisions round half away from
//! zero so that the spec-level and executable values coincide exactly.
use vstd::prelude::*;

verus! {

/// Fixed-point counts per drawing unit.
pub const PICO: i64 = 1_000_000_000_000;

/// Rounding division, half away from zero, as a mathematical function.
pub open spec fn rdiv(x: int, d: int) -> int {
    if x >= 0 {
        (x + d / 2) / d
    } else {
        -(((-x) + d / 2) / d)
    }
}

/// `rdiv` on machine integers.  Operands are split by sign so that
/// every machine division runs on non-negative values, where Rust's
/// truncating division agrees with the mathematical (Euclidean) one.
pub fn round_div(x: i128, d: i128) -> (r: i128)
    requires
        0 < d,
        d < 0x4000_0000_0000_0000_0000_0000_0000_0000,
        -0x4000_0000_0000_0000_0000_0000_0000_0000 < x
            < 0x4000_0000_0000_0000_0000_0000_0000_0000,
    ensures
        r == rdiv(x as int, d as int),
        x >= 0 ==> 0 <= r <= x,
        x < 0 ==> x <= r <= 0,
{
    if x >= 0 {
        let ghost xi = x as int;
        let ghost di = d as int;
        let q = ((x as u128) + (d as u128) / 2) / (d as u128);
        assert((xi + di / 2) / di <= xi) by {
            assert(xi + di / 2 < (xi + 1) * di) by (nonlinear_arith)
                requires 0 < di, 0 <= xi;
            assert((xi + di / 2) / di < xi + 1) by (nonlinear_arith)
                requires 0 < di, xi + di / 2 < (xi + 1) * di, 0 <= xi;
        }
        q as i128
    } else {
        let nx = -x;
        let ghost ni = nx as int;
        let ghost di = d as int;
        let q = ((nx as u128) + (d as u128) / 2) / (d as u128);
        assert((ni + di / 2) / di <= ni) by {
            assert(ni + di / 2 < (ni + 1) * di) by (nonlinear_arith)
                requires 0 < di, 0 < ni;
            assert((ni + di / 2) / di < ni + 1) by (nonlinear_arith)
                requires 0 < di, ni + di / 2 < (ni + 1) * di, 0 < ni;
        }
        -(q as i128)
    }
}

/// Division of non-negative machine integers; matches the spec-level
/// Euclidean quotient.
pub fn div_nn(a: i128, d: i128) -> (r: i128)
    requires
        0 <= a,
        0 < d,
    ensures
        r == a as int / d as int,
        0 <= r <= a,
{
    let ghost ai = a as int;
    let ghost di = d as int;
    assert(ai / di <= ai) by {
        assert(ai < (ai + 1) * di) by (nonlinear_arith)
            requires 0 < di, 0 <= ai;
        assert(ai / di < ai + 1) by (nonlinear_arith)
            requires 0 < di, ai < (ai + 1) * di, 0 <= ai;
    }
    ((a as u128) / (d as u128)) as i128
}

/// Quotients of ordered numerators are ordered.
pub proof fn lemma_div_le(a: int, b: int, d: int)
    requires
        0 <= a <= b,
        0 < d,
    ensures
        a / d <= b / d,
{
    assert(a / d <= b / d) by (nonlinear_arith)
        requires 0 <= a <= b, 0 < d;
}

/// Dividing by a larger denominator gives a smaller quotient.
pub proof fn lemma_div_denom(a: int, d1: int, d2: int)
    requires
        0 <= a,
        0 < d2 <= d1,
    ensures
        a / d1 <= a / d2,
{
    assert(a / d1 <= a / d2) by (nonlinear_arith)
        requires 0 <= a, 0 < d2 <= d1;
}

/// A rounding division by `d` of a product bounded by `m * d` stays
/// within `m`.
pub proof fn lemma_rdiv_bound(x: int, d: int, m: int)
    requires
        0 < d,
        0 <= m,
        -(m * d) <= x <= m * d,
    ensures
        -m <= rdiv(x, d) <= m,
{
    if x >= 0 {
        assert(x + d / 2 < (m + 1) * d) by (nonlinear_arith)
            requires 0 < d, 0 <= m, x <= m * d;
        assert((x + d / 2) / d < m + 1) by (nonlinear_arith)
            requires 0 < d, x + d / 2 < (m + 1) * d, 0 <= x;
    } else {
        assert((-x) + d / 2 < (m + 1) * d) by (nonlinear_arith)
            requires 0 < d, 0 <= m, -(m * d) <= x;
        assert(((-x) + d / 2) / d < m + 1) by (nonlinear_arith)
            requires 0 < d, (-x) + d / 2 < (m + 1) * d, 0 <= -x;
    }
}

/// `rdiv` is monotone in its numerator over non-negative values.
pub proof fn lemma_rdiv_mono(x: int, y: int, d: int)
    requires
        0 <= x <= y,
        0 < d,
    ensures
        rdiv(x, d) <= rdiv(y, d),
{
    lemma_div_le(x + d / 2, y + d / 2, d);
}

/// `rdiv` undoes an exact multiplication.
pub proof fn lemma_rdiv_mult(s: int, n: int)
    requires
        0 < n,
    ensures
        rdiv(n * s, n) == s,
{
    if s >= 0 {
        assert(n * s >= 0) by (nonlinear_arith)
            requires 0 < n, 0 <= s;
        assert((n * s + n / 2) / n == s) by (nonlinear_arith)
            requires 0 < n, 0 <= s;
    } else {
        assert(n * s < 0) by (nonlinear_arith)
            requires 0 < n, s < 0;
        assert(-(n * s) == n * (-s)) by (nonlinear_arith);
        assert((n * (-s) + n / 2) / n == -s) by (nonlinear_arith)
            requires 0 < n, 0 < -s;
    }
}

/// The rounding error of `rdiv` is at most half the divisor.
pub proof fn lemma_rdiv_err(x: int, d: int)
    requires
        0 < d,
    ensures
        -(d / 2) <= rdiv(x, d) * d - x <= d / 2,
{
    if x >= 0 {
        vstd::arithmetic::div_mod::lemma_fundamental_div_mod(x + d / 2, d);
        vstd::arithmetic::div_mod::lemma_mod_bound(x + d / 2, d);
        assert(d * ((x + d / 2) / d) == ((x + d / 2) / d) * d) by (nonlinear_arith);
    } else {
        vstd::arithmetic::div_mod::lemma_fundamental_div_mod((-x) + d / 2, d);
        vstd::arithmetic::div_mod::lemma_mod_bound((-x) + d / 2, d);
        assert(d * (((-x) + d / 2) / d) == (((-x) + d / 2) / d) * d) by (nonlinear_arith);
        assert((-(((-x) + d / 2) / d)) * d == -((((-x) + d / 2) / d) * d)) by (nonlinear_arith);
    }
}

/// Floor of the square root as a mathematical function.
pub open spec fn floor_sqrt(n: int) -> int {
    choose|r: int| 0 <= r && #[trigger] (r * r) <= n && (r + 1) * (r + 1) > n
}

/// The floor square root is unique, so any witness pins `floor_sqrt`.
pub proof fn lemma_floor_sqrt_unique(n: int, r: int)
    requires
        0 <= r,
        r * r <= n,
        (r + 1) * (r + 1) > n,
    ensures
        floor_sqrt(n) == r,
{
    assert(0 <= r && r * r <= n && (r + 1) * (r + 1) > n);
    let rc = floor_sqrt(n);
    assert(0 <= rc && rc * rc <= n && (rc + 1) * (rc + 1) > n);
    assert(rc == r) by (nonlinear_arith)
        requires
            0 <= r, r * r <= n, (r + 1) * (r + 1) > n,
            0 <= rc, rc * rc <= n, (rc + 1) * (rc + 1) > n;
}

/// Floor of the square root: the greatest `r` with `r * r <= n`.
pub fn isqrt(n: i128) -> (r: i128)
    requires
        0 <= n < 0x4000_0000_0000_0000_0000_0000_0000_0000,
    ensures
        0 <= r,
        r * r <= n,
        (r + 1) * (r + 1) > n,
        r == floor_sqrt(n as int),
{
    let mut lo: i128 = 0;
    let mut hi: i128 = 0x8000_0000_0000_0000;
    assert((hi as int) * (hi as int) > n as int) by (nonlinear_arith)
        requires hi == 0x8000_0000_0000_0000i128, (n as int) < 0x4000_0000_0000_0000_0000_0000_0000_0000;
    while lo + 1 < hi
        invariant
            0 <= lo < hi <= 0x8000_0000_0000_0000,
            lo * lo <= n,
            hi * hi > n,
        decreases hi - lo,
    {
        let mid = lo + (hi - lo) / 2;
        assert(lo < mid < hi);
        assert((mid as int) * (mid as int) < 0x4000_0000_0000_0000_0000_0000_0000_0000) by (nonlinear_arith)
            requires 0 < mid < 0x8000_0000_0000_0000i128;
        if mid * mid <= n {
            lo = mid;
        } else {
            hi = mid;
        }
    }
    proof {
        lemma_floor_sqrt_unique(n as int, lo as int);
    }
    lo
}

} // verus!
