//! Circular arcs and their tessellation into vertex paths.
//!
//! An arc carries its centre, radius and start/end angles in
//! pico-degrees; the signed span `end - start` encodes sweep direction
//! and magnitude (it may exceed a full turn).  Tessellation samples
//! the span uniformly; the step count follows the arc-length heuristic
//! `clamp(round(length * 1.5), 6, 25)`.
use vstd::prelude::*;
use crate::num::{rdiv, round_div, PICO};
use crate::trig::{S2, NORM_TOL, lemma_sin_cos_props};
use crate::vertex::{Vertex, in_bounds, dist_sq, spec_from_polar};

verus! {

/// Bound on the centre coordinates, radius and angles of a
/// well-formed arc (half the stored-vertex range, so every sampled
/// point stays in range).
pub const GEO_MAX: i64 = 1_000_000_000_000_000_000;

/// Numerator of pi at denominator 10^18.
pub const PIN: i128 = 3_141_592_653_589_793_238;

/// 180 * 10^18, the divisor converting pico-degrees to pico-radians
/// when paired with `PIN`.
pub const DEG_RAD: i128 = 180_000_000_000_000_000_000;

/// 2 * 10^24: converts 1.5 * (pico-unit * pico-radian) products into
/// drawing-unit arc length.
pub const LEN_DIV: i128 = 2_000_000_000_000_000_000_000_000;

/// A circular arc: centre, radius (pico-units), start and end angles
/// (pico-degrees; the signed span encodes the sweep).
#[derive(Clone, Copy, PartialEq, Eq, Structural, Debug)]
pub struct Arc {
    pub centre: Vertex,
    pub radius: i64,
    pub start_angle: i64,
    pub end_angle: i64,
}

/// Geometry an arc must satisfy before tessellation.
pub open spec fn wf_arc(a: Arc) -> bool {
    &&& -GEO_MAX <= a.centre.x <= GEO_MAX
    &&& -GEO_MAX <= a.centre.y <= GEO_MAX
    &&& 0 <= a.radius <= GEO_MAX
    &&& -GEO_MAX <= a.start_angle <= GEO_MAX
    &&& -GEO_MAX <= a.end_angle <= GEO_MAX
}

/// The tessellation step count: `clamp(round(arc length * 1.5), 6, 25)`
/// with the arc length computed as `radius * |span in radians|`.
pub open spec fn spec_arc_steps(a: Arc) -> int {
    let span = a.end_angle - a.start_angle;
    let aspan = if span >= 0 { span } else { -span };
    let spanr = rdiv(aspan * PIN, DEG_RAD as int);
    let raw = rdiv(3 * (a.radius * spanr), LEN_DIV as int);
    if raw < 6 {
        6
    } else if raw > 25 {
        25
    } else {
        raw
    }
}

/// The angle of sample `k` of `n`: the span divided uniformly,
/// endpoints exact.
pub open spec fn spec_arc_angle(a: Arc, k: int, n: int) -> int {
    a.start_angle + rdiv(k * (a.end_angle - a.start_angle), n)
}

/// The point at angle `ang` on the circle of radius `r` around `c`.
pub open spec fn spec_polar_point(c: Vertex, r: int, ang: int) -> Vertex {
    let o = spec_from_polar(r, ang);
    Vertex { x: (c.x + o.x) as i64, y: (c.y + o.y) as i64 }
}

/// Sample `k` of `n` on an arc.
pub open spec fn spec_arc_point(a: Arc, k: int, n: int) -> Vertex {
    spec_polar_point(a.centre, a.radius as int, spec_arc_angle(a, k, n))
}

/// The whole tessellation of an arc, as a path value.
pub open spec fn spec_arc_path(a: Arc) -> crate::polyline::PathView {
    (Seq::new((spec_arc_steps(a) + 1) as nat, |k: int| spec_arc_point(a, k, spec_arc_steps(a))),
        false)
}

/// The point lies at distance `r` from `c` within one nano-unit
/// (1000 pico-unit counts), stated on squared distances.
pub open spec fn annulus_ok(p: Vertex, c: Vertex, r: int) -> bool {
    &&& dist_sq(p, c) <= (r + 1000) * (r + 1000)
    &&& (r >= 1000 ==> dist_sq(p, c) >= (r - 1000) * (r - 1000))
}

/// A polar offset of length `r` has squared length within the
/// annulus `[r - 1000, r + 1000]`, and components within `r`.
pub proof fn lemma_from_polar_annulus(r: int, az: int)
    requires
        0 <= r <= GEO_MAX,
    ensures
        ({
            let o = spec_from_polar(r, az);
            &&& -r <= o.x <= r
            &&& -r <= o.y <= r
            &&& o.x * o.x + o.y * o.y <= (r + 1000) * (r + 1000)
            &&& (r >= 1000 ==> o.x * o.x + o.y * o.y >= (r - 1000) * (r - 1000))
        }),
{
    lemma_sin_cos_props(az);
    let c = crate::trig::spec_sin_cos(az).0;
    let s = crate::trig::spec_sin_cos(az).1;
    let xq = rdiv(r * c, S2 as int);
    let yq = rdiv(r * s, S2 as int);
    assert(-(r * S2) <= r * c <= r * S2 && -(r * S2) <= r * s <= r * S2) by (nonlinear_arith)
        requires 0 <= r, -S2 <= c <= S2, -S2 <= s <= S2;
    crate::num::lemma_rdiv_bound(r * c, S2 as int, r);
    crate::num::lemma_rdiv_bound(r * s, S2 as int, r);
    let o = spec_from_polar(r, az);
    assert(o.x == xq && o.y == yq);
    crate::num::lemma_rdiv_err(r * c, S2 as int);
    crate::num::lemma_rdiv_err(r * s, S2 as int);
    let e1 = xq * (S2 as int) - r * c;
    let e2 = yq * (S2 as int) - r * s;
    assert(-(S2 / 2) <= e1 <= S2 / 2 && -(S2 / 2) <= e2 <= S2 / 2);
    let nsq = c * c + s * s;
    let sq2 = (S2 as int) * (S2 as int);
    // Work at scale S2^2, where every term is exact.
    let xs = xq * (S2 as int);
    let ys = yq * (S2 as int);
    assert(xs == r * c + e1 && ys == r * s + e2);
    assert(xs * xs == (r * c) * (r * c) + 2 * ((r * c) * e1) + e1 * e1) by (nonlinear_arith)
        requires xs == r * c + e1;
    assert(ys * ys == (r * s) * (r * s) + 2 * ((r * s) * e2) + e2 * e2) by (nonlinear_arith)
        requires ys == r * s + e2;
    assert((r * c) * (r * c) + (r * s) * (r * s) == (r * r) * nsq) by (nonlinear_arith)
        requires nsq == c * c + s * s;
    // Bound each term.
    assert((r * r) * nsq <= (r * r) * sq2 + r * ((GEO_MAX as int) * NORM_TOL)
        && (r * r) * nsq >= (r * r) * sq2 - r * ((GEO_MAX as int) * NORM_TOL)) by (nonlinear_arith)
        requires 0 <= r <= GEO_MAX, sq2 - NORM_TOL <= nsq <= sq2 + NORM_TOL,
            sq2 == (S2 as int) * (S2 as int);
    assert(-(r * (S2 * (S2 / 2))) <= (r * c) * e1 && (r * c) * e1 <= r * (S2 * (S2 / 2))
        && -(r * (S2 * (S2 / 2))) <= (r * s) * e2 && (r * s) * e2 <= r * (S2 * (S2 / 2)))
        by (nonlinear_arith)
        requires 0 <= r, -S2 <= c <= S2, -S2 <= s <= S2,
            -(S2 / 2) <= e1 <= S2 / 2, -(S2 / 2) <= e2 <= S2 / 2;
    assert(0 <= e1 * e1 <= (S2 / 2) * (S2 / 2) && 0 <= e2 * e2 <= (S2 / 2) * (S2 / 2))
        by (nonlinear_arith)
        requires -(S2 / 2) <= e1 <= S2 / 2, -(S2 / 2) <= e2 <= S2 / 2;
    // The error terms stay within the tolerance budget.
    assert(r * ((GEO_MAX as int) * NORM_TOL) + r * (4 * (S2 * (S2 / 2)))
        + 2 * ((S2 / 2) * (S2 / 2)) <= r * (2000 * sq2) + 1000000 * sq2) by (nonlinear_arith)
        requires 0 <= r, sq2 == (S2 as int) * (S2 as int);
    // The target bounds, expanded at scale S2^2.
    assert(((r + 1000) * (r + 1000)) * sq2 == (r * r) * sq2 + r * (2000 * sq2) + 1000000 * sq2)
        by (nonlinear_arith);
    assert(r * (4 * (S2 * (S2 / 2))) == 4 * (r * (S2 * (S2 / 2)))) by (nonlinear_arith);
    assert(xs * xs + ys * ys <= ((r + 1000) * (r + 1000)) * sq2);
    assert(xs * xs == (xq * xq) * sq2 && ys * ys == (yq * yq) * sq2) by (nonlinear_arith)
        requires xs == xq * (S2 as int), ys == yq * (S2 as int), sq2 == (S2 as int) * (S2 as int);
    assert(xq * xq + yq * yq <= (r + 1000) * (r + 1000)) by (nonlinear_arith)
        requires (xq * xq) * sq2 + (yq * yq) * sq2 <= ((r + 1000) * (r + 1000)) * sq2,
            sq2 == (S2 as int) * (S2 as int);
    if r >= 1000 {
        assert(((r - 1000) * (r - 1000)) * sq2 == (r * r) * sq2 - r * (2000 * sq2) + 1000000 * sq2)
            by (nonlinear_arith);
        assert(r * ((GEO_MAX as int) * NORM_TOL) + r * (4 * (S2 * (S2 / 2)))
            <= r * (2000 * sq2) - 1000000 * sq2) by (nonlinear_arith)
            requires 1000 <= r, sq2 == (S2 as int) * (S2 as int);
        assert(xs * xs + ys * ys >= ((r - 1000) * (r - 1000)) * sq2);
        assert(xq * xq + yq * yq >= (r - 1000) * (r - 1000)) by (nonlinear_arith)
            requires (xq * xq) * sq2 + (yq * yq) * sq2 >= ((r - 1000) * (r - 1000)) * sq2,
                sq2 == (S2 as int) * (S2 as int);
    }
}

/// Executable step count for an arc.
pub fn arc_steps(a: &Arc) -> (n: i64)
    requires
        wf_arc(*a),
    ensures
        n == spec_arc_steps(*a),
        6 <= n <= 25,
{
    let span: i128 = (a.end_angle as i128) - (a.start_angle as i128);
    let aspan: i128 = if span >= 0 { span } else { -span };
    let spanr: i128 = round_div(aspan * PIN, DEG_RAD);
    proof {
        crate::num::lemma_rdiv_mono(aspan * PIN, 2 * (GEO_MAX as int) * PIN, DEG_RAD as int);
        assert(aspan * PIN <= 2 * (GEO_MAX as int) * PIN) by (nonlinear_arith)
            requires 0 <= aspan <= 2 * (GEO_MAX as int);
        assert(0 <= a.radius * spanr
            && a.radius * spanr <= (GEO_MAX as int) * 34_906_585_039_887_100) by (nonlinear_arith)
            requires 0 <= a.radius <= GEO_MAX, 0 <= spanr <= 34_906_585_039_887_100;
    }
    let raw: i128 = round_div(3 * ((a.radius as i128) * spanr), LEN_DIV);
    if raw < 6 {
        6
    } else if raw > 25 {
        25
    } else {
        raw as i64
    }
}

/// Executable sample point `k` of `n` on an arc; the result is in
/// stored-vertex range and on the arc's annulus.
pub fn arc_point(a: &Arc, k: i64, n: i64) -> (v: Vertex)
    requires
        wf_arc(*a),
        0 <= k <= n,
        1 <= n <= 25,
    ensures
        v == spec_arc_point(*a, k as int, n as int),
        in_bounds(v),
        annulus_ok(v, a.centre, a.radius as int),
{
    let span: i128 = (a.end_angle as i128) - (a.start_angle as i128);
    proof {
        let aspan = if span >= 0 { span as int } else { -(span as int) };
        assert(-(aspan * n) <= (k as int) * span <= aspan * n
            && aspan * n <= 2 * (GEO_MAX as int) * 25) by (nonlinear_arith)
            requires 0 <= k <= n <= 25, 0 <= aspan <= 2 * (GEO_MAX as int),
                aspan == if span >= 0 { span as int } else { -(span as int) };
        crate::num::lemma_rdiv_bound((k as int) * span, n as int, aspan);
    }
    let off: i128 = round_div((k as i128) * span, n as i128);
    let ang: i64 = (a.start_angle as i128 + off) as i64;
    let o: Vertex = Vertex::from_polar(a.radius, ang);
    let v = Vertex { x: a.centre.x + o.x, y: a.centre.y + o.y };
    proof {
        lemma_from_polar_annulus(a.radius as int, ang as int);
        assert((v.x - a.centre.x) * (v.x - a.centre.x) == o.x * o.x
            && (v.y - a.centre.y) * (v.y - a.centre.y) == o.y * o.y) by (nonlinear_arith)
            requires v.x == a.centre.x + o.x, v.y == a.centre.y + o.y;
    }
    v
}

impl Arc {
    /// Tessellate the arc into an open path of `steps + 1` vertices
    /// sampled uniformly over the signed span; the first and last
    /// vertices sit at exactly the start and end angles.
    pub fn into_polyline(self) -> (r: crate::polyline::PolyLine)
        requires
            wf_arc(self),
        ensures
            ({
                let n = spec_arc_steps(self);
                &&& r.view_of() == spec_arc_path(self)
                &&& r.view_of().1 == false
                &&& r.vertices@.len() == n + 1
                &&& forall|k: int| 0 <= k <= n
                    ==> r.vertices@[k] == spec_arc_point(self, k, n)
                &&& r.vertices@[0] == spec_polar_point(self.centre, self.radius as int,
                    self.start_angle as int)
                &&& r.vertices@.last() == spec_polar_point(self.centre, self.radius as int,
                    self.end_angle as int)
                &&& crate::polyline::wf_path(r.view_of())
                &&& forall|k: int| 0 <= k <= n
                    ==> annulus_ok(#[trigger] r.vertices@[k], self.centre, self.radius as int)
            }),
    {
        let n: i64 = arc_steps(&self);
        let mut vs: Vec<Vertex> = Vec::new();
        let mut k: i64 = 0;
        while k <= n
            invariant
                0 <= k <= n + 1,
                6 <= n <= 25,
                n == spec_arc_steps(self),
                wf_arc(self),
                vs@.len() == k,
                forall|j: int| 0 <= j < k ==> vs@[j] == spec_arc_point(self, j, n as int),
                forall|j: int| 0 <= j < k ==> in_bounds(#[trigger] vs@[j]),
                forall|j: int| 0 <= j < k
                    ==> annulus_ok(#[trigger] vs@[j], self.centre, self.radius as int),
            decreases n - k + 1,
        {
            let v = arc_point(&self, k, n);
            vs.push(v);
            k = k + 1;
        }
        proof {
            let span = self.end_angle - self.start_angle;
            assert(0 * span == 0) by (nonlinear_arith);
            assert(rdiv(0, n as int) == 0) by (nonlinear_arith)
                requires 6 <= n;
            assert(spec_arc_angle(self, 0, n as int) == self.start_angle);
            crate::num::lemma_rdiv_mult(span, n as int);
            assert(spec_arc_angle(self, n as int, n as int) == self.end_angle);
            assert(vs@ =~= spec_arc_path(self).0);
        }
        crate::polyline::PolyLine { vertices: vs, closed: false }
    }
}

/// The interior samples of an arc: points `1 .. steps`, excluding both
/// endpoints; used when a curved segment is spliced between two
/// existing vertices.
pub fn arc_interior(a: &Arc) -> (r: Vec<Vertex>)
    requires
        wf_arc(*a),
    ensures
        ({
            let n = spec_arc_steps(*a);
            &&& r@.len() == n - 1
            &&& forall|j: int| 0 <= j < n - 1
                ==> r@[j] == spec_arc_point(*a, j + 1, n)
            &&& forall|j: int| 0 <= j < n - 1 ==> in_bounds(#[trigger] r@[j])
            &&& forall|j: int| 0 <= j < n - 1
                ==> annulus_ok(#[trigger] r@[j], a.centre, a.radius as int)
        }),
{
    let n: i64 = arc_steps(a);
    let mut vs: Vec<Vertex> = Vec::new();
    let mut k: i64 = 1;
    while k < n
        invariant
            1 <= k <= n,
            6 <= n <= 25,
            n == spec_arc_steps(*a),
            wf_arc(*a),
            vs@.len() == k - 1,
            forall|j: int| 0 <= j < k - 1 ==> vs@[j] == spec_arc_point(*a, j + 1, n as int),
            forall|j: int| 0 <= j < k - 1 ==> in_bounds(#[trigger] vs@[j]),
            forall|j: int| 0 <= j < k - 1
                ==> annulus_ok(#[trigger] vs@[j], a.centre, a.radius as int),
        decreases n - k,
    {
        let v = arc_point(a, k, n);
        vs.push(v);
        k = k + 1;
    }
    vs
}

} // verus!
