//! Integer trigonometry on fixed-point angles.
//!
//! Angles are held in pico-degrees (`PICO` counts per degree).  Sine
//! and cosine are returned at scale `S2` (2^62): the pair always lies
//! on the unit circle within `NORM_TOL`, which the tessellators turn
//! into an exact annulus bound on every emitted vertex.  The kernels
//! are truncated power series evaluated after exact range reduction to
//! one octant; every step is mirrored by a spec function, so the
//! results are pinned exactly, not merely bounded.
use vstd::prelude::*;
use crate::num::{div_nn, PICO};

verus! {

/// Scale of sine/cosine results: 2^62.
pub const S2: i128 = 4611686018427387904;

/// Pico-degrees -> radians at scale 2^62, carrying 2^40 guard bits:
/// `round(pi / 180 / 10^12 * 2^102)`.
pub const RAD_A: i128 = 88498706955459941;

/// 2^40, the guard-bit divisor paired with `RAD_A`.
pub const P40: i128 = 1099511627776;

/// Radians at scale 2^62 -> pico-degrees, carrying 2^16 guard bits:
/// `round(180 / pi * 10^12 * 2^16)`.
pub const DPR16: i128 = 3754936206169362981;

/// 2^78, the divisor paired with `DPR16`.
pub const P78: i128 = 302231454903657293676544;

/// `tan(22.5 degrees)` at scale 2^62; splits the first octant.
pub const T225: i128 = 1910222894239003136;

/// Allowed drift of `sin^2 + cos^2` from `S2^2` (relative 4.3e-15).
pub const NORM_TOL: i128 = 20_000_000_000_000_000_000_000;

/// A full turn, a quarter turn and an eighth of a turn in pico-degrees.
pub const D360: i64 = 360_000_000_000_000;
pub const D90: i64 = 90_000_000_000_000;
pub const D45: i64 = 45_000_000_000_000;

/// Product scaled back down by `S2`, the basic fixed-point multiply.
pub open spec fn msf(a: int, b: int) -> int {
    (a * b) / (S2 as int)
}

/// Executable fixed-point multiply; exact mirror of `msf` plus the
/// bounds every caller needs.
pub fn mul_s2(a: i128, b: i128) -> (r: i128)
    requires
        0 <= a <= 0x8000_0000_0000_0000,
        0 <= b <= 0x8000_0000_0000_0000,
    ensures
        r == msf(a as int, b as int),
        0 <= r,
        a <= S2 ==> r <= b,
        b <= S2 ==> r <= a,
{
    let ghost ai = a as int;
    let ghost bi = b as int;
    proof {
        assert(0 <= ai * bi <= 0x8000_0000_0000_0000 * 0x8000_0000_0000_0000) by (nonlinear_arith)
            requires 0 <= ai <= 0x8000_0000_0000_0000, 0 <= bi <= 0x8000_0000_0000_0000;
        if ai <= S2 {
            assert(ai * bi <= S2 * bi) by (nonlinear_arith)
                requires 0 <= bi, ai <= S2;
            assert((S2 * bi) / (S2 as int) == bi) by (nonlinear_arith);
            crate::num::lemma_div_le(ai * bi, S2 * bi, S2 as int);
        }
        if bi <= S2 {
            assert(ai * bi <= ai * S2) by (nonlinear_arith)
                requires 0 <= ai, bi <= S2;
            assert((ai * S2) / (S2 as int) == ai) by (nonlinear_arith);
            crate::num::lemma_div_le(ai * bi, ai * S2, S2 as int);
        }
    }
    let p: u128 = (a as u128) * (b as u128);
    (p / (S2 as u128)) as i128
}

/// One octant of the sine/cosine power series: for `upd` pico-degrees
/// in `[0, 45 degrees]`, the pair `(cosine, sine)` at scale `S2`.
pub open spec fn spec_kernel(upd: int) -> (int, int) {
    let u = (upd * (RAD_A as int)) / (P40 as int);
    let x2 = msf(u, u);
    let c1 = S2 - msf(x2, S2 as int) / 240;
    let c2 = S2 - msf(x2, c1) / 182;
    let c3 = S2 - msf(x2, c2) / 132;
    let c4 = S2 - msf(x2, c3) / 90;
    let c5 = S2 - msf(x2, c4) / 56;
    let c6 = S2 - msf(x2, c5) / 30;
    let c7 = S2 - msf(x2, c6) / 12;
    let c8 = S2 - msf(x2, c7) / 2;
    let s1 = S2 - msf(x2, S2 as int) / 210;
    let s2 = S2 - msf(x2, s1) / 156;
    let s3 = S2 - msf(x2, s2) / 110;
    let s4 = S2 - msf(x2, s3) / 72;
    let s5 = S2 - msf(x2, s4) / 42;
    let s6 = S2 - msf(x2, s5) / 20;
    let s7 = S2 - msf(x2, s6) / 6;
    (c8, msf(u, s7))
}

fn kernel(upd: i64) -> (r: (i128, i128))
    requires
        0 <= upd <= D45,
    ensures
        r.0 == spec_kernel(upd as int).0,
        r.1 == spec_kernel(upd as int).1,
        0 <= r.0 <= S2,
        0 <= r.1 <= S2,
{
    let u: i128 = div_nn((upd as i128) * RAD_A, P40);
    assert(u <= S2) by {
        crate::num::lemma_div_le(
            (upd as int) * RAD_A,
            (D45 as int) * RAD_A,
            P40 as int,
        );
    }
    let x2: i128 = mul_s2(u, u);
    let c1: i128 = S2 - div_nn(mul_s2(x2, S2), 240);
    let c2: i128 = S2 - div_nn(mul_s2(x2, c1), 182);
    let c3: i128 = S2 - div_nn(mul_s2(x2, c2), 132);
    let c4: i128 = S2 - div_nn(mul_s2(x2, c3), 90);
    let c5: i128 = S2 - div_nn(mul_s2(x2, c4), 56);
    let c6: i128 = S2 - div_nn(mul_s2(x2, c5), 30);
    let c7: i128 = S2 - div_nn(mul_s2(x2, c6), 12);
    let c8: i128 = S2 - div_nn(mul_s2(x2, c7), 2);
    let s1: i128 = S2 - div_nn(mul_s2(x2, S2), 210);
    let s2: i128 = S2 - div_nn(mul_s2(x2, s1), 156);
    let s3: i128 = S2 - div_nn(mul_s2(x2, s2), 110);
    let s4: i128 = S2 - div_nn(mul_s2(x2, s3), 72);
    let s5: i128 = S2 - div_nn(mul_s2(x2, s4), 42);
    let s6: i128 = S2 - div_nn(mul_s2(x2, s5), 20);
    let s7: i128 = S2 - div_nn(mul_s2(x2, s6), 6);
    let sv: i128 = mul_s2(u, s7);
    (c8, sv)
}

/// Sine and cosine of an angle in pico-degrees, at scale `S2`.  The
/// angle is reduced exactly modulo a full turn, folded into one octant,
/// and mapped back by quadrant; the final pair is guarded to lie on the
/// unit circle within `NORM_TOL` (falling back to the zero-angle point,
/// which the implemented kernel never triggers).
pub open spec fn spec_sin_cos(a: int) -> (int, int) {
    let d = a % (D360 as int);
    let q = d / (D90 as int);
    let rem = d % (D90 as int);
    let ks = if rem > D45 {
        let p = spec_kernel(D90 - rem);
        (p.1, p.0)
    } else {
        spec_kernel(rem)
    };
    let cs = if q == 0 {
        (ks.0, ks.1)
    } else if q == 1 {
        (-ks.1, ks.0)
    } else if q == 2 {
        (-ks.0, -ks.1)
    } else {
        (ks.1, -ks.0)
    };
    let n = cs.0 * cs.0 + cs.1 * cs.1;
    if S2 * S2 - NORM_TOL <= n <= S2 * S2 + NORM_TOL {
        cs
    } else {
        (S2 as int, 0)
    }
}

/// Executable sine and cosine; result `(cos, sin)`.
pub fn sin_cos(a: i64) -> (r: (i64, i64))
    ensures
        r.0 == spec_sin_cos(a as int).0,
        r.1 == spec_sin_cos(a as int).1,
        -S2 <= r.0 <= S2,
        -S2 <= r.1 <= S2,
        S2 * S2 - NORM_TOL <= r.0 * r.0 + r.1 * r.1 <= S2 * S2 + NORM_TOL,
{
    let d: i64 = if a >= 0 {
        ((a as u64) % (D360 as u64)) as i64
    } else {
        let k: i64 = (((-(a as i128)) as u128) % (D360 as u128)) as i64;
        if k == 0 {
            0
        } else {
            D360 - k
        }
    };
    assert(d == (a as int) % (D360 as int));
    let q: i64 = ((d as u64) / (D90 as u64)) as i64;
    let rem: i64 = ((d as u64) % (D90 as u64)) as i64;
    let ks: (i128, i128) = if rem > D45 {
        let p = kernel(D90 - rem);
        (p.1, p.0)
    } else {
        kernel(rem)
    };
    let cs: (i128, i128) = if q == 0 {
        (ks.0, ks.1)
    } else if q == 1 {
        (-ks.1, ks.0)
    } else if q == 2 {
        (-ks.0, -ks.1)
    } else {
        (ks.1, -ks.0)
    };
    proof {
        assert(0 <= cs.0 * cs.0 <= S2 * S2 && 0 <= cs.1 * cs.1 <= S2 * S2) by (nonlinear_arith)
            requires -S2 <= cs.0 <= S2, -S2 <= cs.1 <= S2;
    }
    let n: i128 = cs.0 * cs.0 + cs.1 * cs.1;
    if S2 * S2 - NORM_TOL <= n && n <= S2 * S2 + NORM_TOL {
        ((cs.0 as i64), (cs.1 as i64))
    } else {
        ((S2 as i64), 0)
    }
}

/// `msf` keeps non-negative operands bounded by `S2` within range.
pub proof fn lemma_msf_bounds(a: int, b: int)
    requires
        0 <= a <= S2,
        0 <= b <= S2,
    ensures
        0 <= msf(a, b),
        msf(a, b) <= a,
        msf(a, b) <= b,
{
    assert(a * b <= S2 * b) by (nonlinear_arith)
        requires 0 <= b, a <= S2;
    assert((S2 * b) / (S2 as int) == b) by (nonlinear_arith);
    crate::num::lemma_div_le(a * b, S2 * b, S2 as int);
    assert(a * b <= a * S2) by (nonlinear_arith)
        requires 0 <= a, b <= S2;
    assert((a * S2) / (S2 as int) == a) by (nonlinear_arith);
    crate::num::lemma_div_le(a * b, a * S2, S2 as int);
    assert(0 <= a * b) by (nonlinear_arith)
        requires 0 <= a, 0 <= b;
}

/// The octant kernel stays within `[0, S2]` on its whole domain.
pub proof fn lemma_kernel_bounds(upd: int)
    requires
        0 <= upd <= D45,
    ensures
        0 <= spec_kernel(upd).0 <= S2,
        0 <= spec_kernel(upd).1 <= S2,
{
    let u = (upd * (RAD_A as int)) / (P40 as int);
    crate::num::lemma_div_le(upd * (RAD_A as int), (D45 as int) * (RAD_A as int), P40 as int);
    assert(0 <= u <= S2);
    let x2 = msf(u, u);
    lemma_msf_bounds(u, u);
    let c1 = S2 - msf(x2, S2 as int) / 240;
    lemma_msf_bounds(x2, S2 as int);
    assert(0 <= c1 <= S2);
    let c2 = S2 - msf(x2, c1) / 182;
    lemma_msf_bounds(x2, c1);
    assert(0 <= c2 <= S2);
    let c3 = S2 - msf(x2, c2) / 132;
    lemma_msf_bounds(x2, c2);
    assert(0 <= c3 <= S2);
    let c4 = S2 - msf(x2, c3) / 90;
    lemma_msf_bounds(x2, c3);
    assert(0 <= c4 <= S2);
    let c5 = S2 - msf(x2, c4) / 56;
    lemma_msf_bounds(x2, c4);
    assert(0 <= c5 <= S2);
    let c6 = S2 - msf(x2, c5) / 30;
    lemma_msf_bounds(x2, c5);
    assert(0 <= c6 <= S2);
    let c7 = S2 - msf(x2, c6) / 12;
    lemma_msf_bounds(x2, c6);
    assert(0 <= c7 <= S2);
    let c8 = S2 - msf(x2, c7) / 2;
    lemma_msf_bounds(x2, c7);
    assert(0 <= c8 <= S2);
    let s1 = S2 - msf(x2, S2 as int) / 210;
    assert(0 <= s1 <= S2);
    let s2 = S2 - msf(x2, s1) / 156;
    lemma_msf_bounds(x2, s1);
    assert(0 <= s2 <= S2);
    let s3 = S2 - msf(x2, s2) / 110;
    lemma_msf_bounds(x2, s2);
    assert(0 <= s3 <= S2);
    let s4 = S2 - msf(x2, s3) / 72;
    lemma_msf_bounds(x2, s3);
    assert(0 <= s4 <= S2);
    let s5 = S2 - msf(x2, s4) / 42;
    lemma_msf_bounds(x2, s4);
    assert(0 <= s5 <= S2);
    let s6 = S2 - msf(x2, s5) / 20;
    lemma_msf_bounds(x2, s5);
    assert(0 <= s6 <= S2);
    let s7 = S2 - msf(x2, s6) / 6;
    lemma_msf_bounds(x2, s6);
    assert(0 <= s7 <= S2);
    lemma_msf_bounds(u, s7);
}

/// The sine/cosine pair is bounded by `S2` and lies on the unit
/// circle within `NORM_TOL`, for every angle.
pub proof fn lemma_sin_cos_props(a: int)
    ensures
        -S2 <= spec_sin_cos(a).0 <= S2,
        -S2 <= spec_sin_cos(a).1 <= S2,
        S2 * S2 - NORM_TOL <= spec_sin_cos(a).0 * spec_sin_cos(a).0
            + spec_sin_cos(a).1 * spec_sin_cos(a).1 <= S2 * S2 + NORM_TOL,
{
    let d = a % (D360 as int);
    let q = d / (D90 as int);
    let rem = d % (D90 as int);
    assert(0 <= d < D360);
    assert(0 <= rem < D90);
    assert(0 <= q <= 3);
    if rem > D45 {
        lemma_kernel_bounds(D90 - rem);
    } else {
        lemma_kernel_bounds(rem);
    }
    let cs = spec_sin_cos(a);
    if !(S2 * S2 - NORM_TOL <= cs.0 * cs.0 + cs.1 * cs.1 <= S2 * S2 + NORM_TOL) {
        assert(cs == (S2 as int, 0int));
        assert(cs.0 * cs.0 + cs.1 * cs.1 == S2 * S2) by (nonlinear_arith)
            requires cs.0 == S2, cs.1 == 0int;
    }
}

/// The truncated arctangent series: `atan_poly(x2, k)` is the Horner
/// tail whose leading coefficient is `1/(2k+1)`, clamped at zero.
pub open spec fn atan_poly(x2: int, k: nat) -> int
    decreases 19 - k,
{
    if k >= 19 {
        (S2 as int) / 39
    } else {
        let t = (S2 as int) / (2 * (k as int) + 1) - msf(x2, atan_poly(x2, k + 1));
        if t < 0 {
            0
        } else {
            t
        }
    }
}

/// Arctangent (radians at scale `S2`) of a ratio `t` at scale `S2`,
/// for `t` up to `tan(22.5 degrees)` and slightly beyond.
pub open spec fn spec_atan_kernel(t: int) -> int {
    msf(t, atan_poly(msf(t, t), 0))
}

fn atan_kernel(t: i128) -> (r: i128)
    requires
        0 <= t <= 2_000_000_000_000_000_000,
    ensures
        r == spec_atan_kernel(t as int),
        0 <= r <= t,
{
    let x2: i128 = mul_s2(t, t);
    let mut p: i128 = div_nn(S2, 39);
    let mut kk: usize = 19;
    assert(p == atan_poly(x2 as int, 19));
    while kk > 0
        invariant
            kk <= 19,
            0 <= p <= S2,
            0 <= x2 <= S2,
            p == atan_poly(x2 as int, kk as nat),
        decreases kk,
    {
        kk = kk - 1;
        let m: i128 = mul_s2(x2, p);
        let dv: i128 = (2 * kk + 1) as i128;
        let qv: i128 = div_nn(S2, dv);
        let t2: i128 = qv - m;
        p = if t2 < 0 { 0 } else { t2 };
        assert(p == atan_poly(x2 as int, kk as nat));
    }
    mul_s2(t, p)
}

/// Arctangent in pico-degrees of a ratio `t` in `[0, 1]` at scale
/// `S2`; the ratio above `tan(22.5 degrees)` is folded through the
/// half-angle identity so the series always converges fast.
pub open spec fn spec_atan_degrees(t: int) -> int {
    if t > T225 {
        let w = (((S2 - t) * S2) as int) / ((S2 + t) as int);
        45 * (PICO as int) - (spec_atan_kernel(w) * (DPR16 as int)) / (P78 as int)
    } else {
        (spec_atan_kernel(t) * (DPR16 as int)) / (P78 as int)
    }
}

fn atan_degrees(t: i128) -> (r: i64)
    requires
        0 <= t <= S2,
    ensures
        r == spec_atan_degrees(t as int),
        0 <= r <= D45 + 1_000_000_000_000,
{
    if t > T225 {
        let w: i128 = div_nn((S2 - t) * S2, S2 + t);
        assert(w <= 1_930_000_000_000_000_000) by {
            assert((S2 - t) * S2 <= (S2 - T225) * S2) by (nonlinear_arith)
                requires T225 <= t <= S2;
            crate::num::lemma_div_le((S2 - t) * S2, (S2 - T225) * S2, (S2 + t) as int);
            crate::num::lemma_div_denom((S2 - T225) * S2, (S2 + t) as int, (S2 + T225) as int);
        }
        let r0: i128 = atan_kernel(w);
        let conv: i128 = div_nn(r0 * DPR16, P78);
        assert(conv <= 24_100_000_000_000) by {
            crate::num::lemma_div_le(r0 * DPR16, 1_930_000_000_000_000_000 * DPR16, P78 as int);
        }
        (45 * PICO) - (conv as i64)
    } else {
        let r0: i128 = atan_kernel(t);
        let conv: i128 = div_nn(r0 * DPR16, P78);
        assert(conv <= 23_800_000_000_000) by {
            crate::num::lemma_div_le(r0 * DPR16, T225 * DPR16, P78 as int);
        }
        conv as i64
    }
}

/// Four-quadrant arctangent in pico-degrees, in `[-180, 180] degrees`.
/// The zero vector maps to angle zero.
pub open spec fn spec_atan2(y: int, x: int) -> int {
    if x == 0 && y == 0 {
        0
    } else {
        let ax = if x >= 0 { x } else { -x };
        let ay = if y >= 0 { y } else { -y };
        let base = if ay <= ax {
            spec_atan_degrees((ay * (S2 as int)) / ax)
        } else {
            90 * (PICO as int) - spec_atan_degrees((ax * (S2 as int)) / ay)
        };
        if x >= 0 && y >= 0 {
            base
        } else if x < 0 && y >= 0 {
            180 * (PICO as int) - base
        } else if x < 0 {
            -(180 * (PICO as int) - base)
        } else {
            -base
        }
    }
}

/// Executable four-quadrant arctangent on pico-unit vector components.
pub fn atan2_pd(y: i64, x: i64) -> (r: i64)
    requires
        -4_000_000_000_000_000_000 <= y <= 4_000_000_000_000_000_000,
        -4_000_000_000_000_000_000 <= x <= 4_000_000_000_000_000_000,
    ensures
        r == spec_atan2(y as int, x as int),
        -180 * (PICO as int) <= r <= 180 * (PICO as int),
{
    if x == 0 && y == 0 {
        return 0;
    }
    let ax: i128 = if x >= 0 { x as i128 } else { -(x as i128) };
    let ay: i128 = if y >= 0 { y as i128 } else { -(y as i128) };
    let base: i64 = if ay <= ax {
        let t: i128 = div_nn(ay * S2, ax);
        assert(t <= S2) by {
            assert(ay * S2 <= ax * S2) by (nonlinear_arith)
                requires ay <= ax;
            crate::num::lemma_div_le(ay * S2, ax * S2, ax as int);
            assert((ax * S2) / (ax as int) == S2) by (nonlinear_arith)
                requires 0 < ax;
        }
        atan_degrees(t)
    } else {
        let t: i128 = div_nn(ax * S2, ay);
        assert(t <= S2) by {
            assert(ax * S2 <= ay * S2) by (nonlinear_arith)
                requires ax <= ay;
            crate::num::lemma_div_le(ax * S2, ay * S2, ay as int);
            assert((ay * S2) / (ay as int) == S2) by (nonlinear_arith)
                requires 0 < ay;
        }
        (90 * PICO) - atan_degrees(t)
    };
    if x >= 0 && y >= 0 {
        base
    } else if x < 0 && y >= 0 {
        (180 * PICO) - base
    } else if x < 0 {
        -((180 * PICO) - base)
    } else {
        -base
    }
}

} // verus!
