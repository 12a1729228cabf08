//! Cubic Bezier splines (exactly four control points) and their
//! tessellation into open vertex paths.
use vstd::prelude::*;
use crate::num::{rdiv, round_div, floor_sqrt, PICO};
use crate::vertex::{Vertex, V_MAX, P_BOUND, in_bounds, dist_sq};

verus! {

/// 10^24: the divisor that brings a triple product of scale-`PICO`
/// blend factors back to scale `PICO`.
pub const E24: i128 = 1_000_000_000_000_000_000_000_000;

/// A cubic Bezier: exactly four control points.
#[derive(Debug)]
pub struct Spline {
    pub control_points: Vec<Vertex>,
}

/// Four parsed control points.
pub open spec fn wf_spline(s: Spline) -> bool {
    &&& s.control_points@.len() == 4
    &&& forall|i: int| 0 <= i < 4 ==> -V_MAX <= (#[trigger] s.control_points@[i]).x <= V_MAX
        && -V_MAX <= s.control_points@[i].y <= V_MAX
}

/// Coordinates of tessellated points are kept inside the stored range.
pub open spec fn clamp_coord(v: int) -> int {
    if v < -P_BOUND {
        -P_BOUND as int
    } else if v > P_BOUND {
        P_BOUND as int
    } else {
        v
    }
}

/// Step count: `clamp(round(distance(p0, p3) * 4), 6, 25)`.
pub open spec fn spec_spline_steps_of(cps: Seq<Vertex>) -> int {
    let d = floor_sqrt(dist_sq(cps[0], cps[3]));
    let raw = rdiv(4 * d, PICO as int);
    if raw < 6 {
        6
    } else if raw > 25 {
        25
    } else {
        raw
    }
}

/// Step count of a spline value.
pub open spec fn spec_spline_steps(s: Spline) -> int {
    let d = floor_sqrt(dist_sq(s.control_points@[0], s.control_points@[3]));
    let raw = rdiv(4 * d, PICO as int);
    if raw < 6 {
        6
    } else if raw > 25 {
        25
    } else {
        raw
    }
}

/// The standard cubic blend at parameter `t` (scale `PICO`), each
/// axis rounded to a count and clamped into the stored range.
pub open spec fn spec_bezier_point_of(cps: Seq<Vertex>, t: int) -> Vertex {
    let omt = (PICO as int) - t;
    let w0 = rdiv(omt * omt * omt, E24 as int);
    let w1 = rdiv(3 * (omt * omt) * t, E24 as int);
    let w2 = rdiv(3 * omt * (t * t), E24 as int);
    let w3 = rdiv(t * t * t, E24 as int);
    let p0 = cps[0];
    let p1 = cps[1];
    let p2 = cps[2];
    let p3 = cps[3];
    let x = clamp_coord(rdiv(w0 * p0.x + w1 * p1.x + w2 * p2.x + w3 * p3.x, PICO as int));
    let y = clamp_coord(rdiv(w0 * p0.y + w1 * p1.y + w2 * p2.y + w3 * p3.y, PICO as int));
    Vertex { x: x as i64, y: y as i64 }
}

/// The blend of a spline value.
pub open spec fn spec_bezier_point(s: Spline, t: int) -> Vertex {
    spec_bezier_point_of(s.control_points@, t)
}

/// The interior sample parameter `k` of `n`: `k / (n - 1)`.
pub open spec fn spec_spline_t(k: int, n: int) -> int {
    rdiv(k * (PICO as int), n - 1)
}

fn bezier_at(s: &Spline, t: i64) -> (v: Vertex)
    requires
        wf_spline(*s),
        0 <= t <= PICO,
    ensures
        v == spec_bezier_point(*s, t as int),
        in_bounds(v),
{
    let ti: i128 = t as i128;
    let omt: i128 = (PICO as i128) - ti;
    proof {
        assert(0 <= omt * omt <= (PICO as int) * (PICO as int)
            && 0 <= ti * ti <= (PICO as int) * (PICO as int)) by (nonlinear_arith)
            requires 0 <= omt <= PICO, 0 <= ti <= PICO;
        assert(0 <= omt * omt * omt <= (E24 as int) * (PICO as int)
            && 0 <= ti * ti * ti <= (E24 as int) * (PICO as int)
            && 0 <= 3 * (omt * omt) * ti <= 3 * ((E24 as int) * (PICO as int))
            && 0 <= 3 * omt * (ti * ti) <= 3 * ((E24 as int) * (PICO as int))) by (nonlinear_arith)
            requires 0 <= omt <= PICO, 0 <= ti <= PICO,
                0 <= omt * omt <= (PICO as int) * (PICO as int),
                0 <= ti * ti <= (PICO as int) * (PICO as int),
                E24 == (PICO as int) * (PICO as int);
    }
    let w0: i128 = round_div(omt * omt * omt, E24);
    let w1: i128 = round_div(3 * (omt * omt) * ti, E24);
    let w2: i128 = round_div(3 * omt * (ti * ti), E24);
    let w3: i128 = round_div(ti * ti * ti, E24);
    proof {
        crate::num::lemma_rdiv_mono(omt * omt * omt, (E24 as int) * (PICO as int), E24 as int);
        crate::num::lemma_rdiv_mono(ti * ti * ti, (E24 as int) * (PICO as int), E24 as int);
        crate::num::lemma_rdiv_mono(3 * (omt * omt) * ti, 3 * ((E24 as int) * (PICO as int)),
            E24 as int);
        crate::num::lemma_rdiv_mono(3 * omt * (ti * ti), 3 * ((E24 as int) * (PICO as int)),
            E24 as int);
        assert(rdiv((E24 as int) * (PICO as int), E24 as int) == PICO);
        assert(rdiv(3 * ((E24 as int) * (PICO as int)), E24 as int) == 3 * (PICO as int));
    }
    let p0: Vertex = s.control_points[0];
    let p1: Vertex = s.control_points[1];
    let p2: Vertex = s.control_points[2];
    let p3: Vertex = s.control_points[3];
    proof {
        assert(forall|w: int, c: int| 0 <= w <= 3 * (PICO as int) && -V_MAX <= c <= V_MAX
            ==> -(3 * (PICO as int) * (V_MAX as int)) <= #[trigger] (w * c)
                <= 3 * (PICO as int) * (V_MAX as int)) by (nonlinear_arith);
    }
    let sx: i128 = w0 * (p0.x as i128) + w1 * (p1.x as i128) + w2 * (p2.x as i128)
        + w3 * (p3.x as i128);
    let sy: i128 = w0 * (p0.y as i128) + w1 * (p1.y as i128) + w2 * (p2.y as i128)
        + w3 * (p3.y as i128);
    let rx: i128 = round_div(sx, PICO as i128);
    let ry: i128 = round_div(sy, PICO as i128);
    proof {
        crate::num::lemma_rdiv_bound(sx as int, PICO as int, 12 * (V_MAX as int) + 4);
        crate::num::lemma_rdiv_bound(sy as int, PICO as int, 12 * (V_MAX as int) + 4);
    }
    let cx: i128 = if rx < -(P_BOUND as i128) {
        -(P_BOUND as i128)
    } else if rx > P_BOUND as i128 {
        P_BOUND as i128
    } else {
        rx
    };
    let cy: i128 = if ry < -(P_BOUND as i128) {
        -(P_BOUND as i128)
    } else if ry > P_BOUND as i128 {
        P_BOUND as i128
    } else {
        ry
    };
    Vertex { x: cx as i64, y: cy as i64 }
}

/// The whole tessellation, as a path value: the first and last
/// control points with the blended interior between them.
pub open spec fn spec_spline_path_of(cps: Seq<Vertex>) -> crate::polyline::PathView {
    let n = spec_spline_steps_of(cps);
    (Seq::new((n - 1) as nat, |k: int|
        if k == 0 {
            cps[0]
        } else if k == n - 2 {
            cps[3]
        } else {
            spec_bezier_point_of(cps, spec_spline_t(k, n))
        }), false)
}

/// The whole tessellation of a spline value, as a path value.
pub open spec fn spec_spline_path(s: Spline) -> crate::polyline::PathView {
    spec_spline_path_of(s.control_points@)
}

impl Spline {
    /// Tessellate into an open path: the first and last control
    /// points exactly, with blended interior samples at parameters
    /// `k / (steps - 1)` for `k` in `1 .. steps - 2`.
    pub fn into_polyline(self) -> (r: crate::polyline::PolyLine)
        requires
            wf_spline(self),
        ensures
            ({
                let n = spec_spline_steps(self);
                &&& r.view_of() == spec_spline_path(self)
                &&& r.view_of().1 == false
                &&& r.vertices@.len() == n - 1
                &&& r.vertices@[0] == self.control_points@[0]
                &&& r.vertices@.last() == self.control_points@[3]
                &&& forall|k: int| 1 <= k < n - 2
                    ==> r.vertices@[k] == spec_bezier_point(self, spec_spline_t(k, n))
                &&& crate::polyline::wf_path(r.view_of())
            }),
    {
        let p0: Vertex = self.control_points[0];
        let p3: Vertex = self.control_points[3];
        let d: i64 = p0.distance_to(&p3);
        let raw: i128 = round_div(4 * (d as i128), PICO as i128);
        let n: i64 = if raw < 6 {
            6
        } else if raw > 25 {
            25
        } else {
            raw as i64
        };
        assert(n == spec_spline_steps(self));
        let mut vs: Vec<Vertex> = Vec::new();
        vs.push(p0);
        let mut k: i64 = 1;
        while k < n - 2
            invariant
                1 <= k <= n - 2,
                6 <= n <= 25,
                n == spec_spline_steps(self),
                wf_spline(self),
                vs@.len() == k,
                vs@[0] == self.control_points@[0],
                forall|j: int| 1 <= j < k
                    ==> vs@[j] == spec_bezier_point(self, spec_spline_t(j, n as int)),
                forall|j: int| 0 <= j < k ==> in_bounds(#[trigger] vs@[j]),
            decreases n - k,
        {
            proof {
                assert(0 <= k * (PICO as int) <= (n - 1) * (PICO as int)) by (nonlinear_arith)
                    requires 0 <= k <= n - 1, 0 < PICO;
                crate::num::lemma_rdiv_bound(k * (PICO as int), (n - 1) as int, PICO as int);
            }
            let t: i128 = round_div((k as i128) * (PICO as i128), (n as i128) - 1);
            let v: Vertex = bezier_at(&self, t as i64);
            vs.push(v);
            k = k + 1;
        }
        vs.push(p3);
        proof {
            assert(vs@ =~= spec_spline_path(self).0);
        }
        crate::polyline::PolyLine { vertices: vs, closed: false }
    }
}

} // verus!
