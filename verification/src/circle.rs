//! Full circles and their tessellation into closed vertex paths.
use vstd::prelude::*;
use crate::num::{rdiv, round_div, div_nn, PICO};
use crate::vertex::{Vertex, V_MAX, in_bounds};
use crate::arc::{PIN, spec_polar_point, annulus_ok, lemma_from_polar_annulus};

verus! {

/// 10^18: pairs with `PIN` to turn `2 * radius * PIN` into a
/// pico-unit circumference.
pub const E18: i128 = 1_000_000_000_000_000_000;

/// A full circle: centre and radius in pico-units.
#[derive(Clone, Copy, PartialEq, Eq, Structural, Debug)]
pub struct Circle {
    pub centre: Vertex,
    pub radius: i64,
}

/// Geometry a circle must satisfy before tessellation: parsed
/// centre coordinates and a non-negative parsed radius.
pub open spec fn wf_circle(c: Circle) -> bool {
    &&& -V_MAX <= c.centre.x <= V_MAX
    &&& -V_MAX <= c.centre.y <= V_MAX
    &&& 0 <= c.radius <= V_MAX
}

/// Whole degrees per tessellation step: `360 / clamp(circumference,
/// 6, 180)`, truncated to an integer; always in `[2, 60]`.
pub open spec fn spec_circle_step(c: Circle) -> int {
    let circ = rdiv(2 * c.radius * (PIN as int), E18 as int);
    let clamped = if circ < 6 * (PICO as int) {
        6 * (PICO as int)
    } else if circ > 180 * (PICO as int) {
        180 * (PICO as int)
    } else {
        circ
    };
    360 * (PICO as int) / clamped
}

/// Vertex count: one vertex per whole step over the 0..360 degree
/// range (no wrap duplicate; the final gap may be uneven).
pub open spec fn spec_circle_count(c: Circle) -> int {
    359int / spec_circle_step(c) + 1
}

/// Vertex `i`: the point at `i * step` whole degrees on the circle.
pub open spec fn spec_circle_point(c: Circle, i: int) -> Vertex {
    spec_polar_point(c.centre, c.radius as int, i * spec_circle_step(c) * (PICO as int))
}

/// The whole tessellation of a circle, as a path value.
pub open spec fn spec_circle_path(c: Circle) -> crate::polyline::PathView {
    (Seq::new(spec_circle_count(c) as nat, |i: int| spec_circle_point(c, i)), true)
}

impl Circle {
    /// Tessellate the circle into a closed path: one vertex per
    /// whole-degree step, starting at angle zero.  Every vertex lies
    /// at distance `radius` from the centre within one nano-unit.
    pub fn into_polyline(self) -> (r: crate::polyline::PolyLine)
        requires
            wf_circle(self),
        ensures
            r.view_of() == spec_circle_path(self),
            r.view_of().1 == true,
            r.vertices@.len() == spec_circle_count(self),
            forall|i: int| 0 <= i < r.vertices@.len()
                ==> r.vertices@[i] == spec_circle_point(self, i),
            r.vertices@[0] == spec_polar_point(self.centre, self.radius as int, 0),
            crate::polyline::wf_path(r.view_of()),
            forall|i: int| 0 <= i < r.vertices@.len()
                ==> annulus_ok(#[trigger] r.vertices@[i], self.centre, self.radius as int),
    {
        let circ: i128 = round_div(2 * (self.radius as i128) * PIN, E18);
        let clamped: i128 = if circ < 6 * (PICO as i128) {
            6 * (PICO as i128)
        } else if circ > 180 * (PICO as i128) {
            180 * (PICO as i128)
        } else {
            circ
        };
        let step: i64 = div_nn(360 * (PICO as i128), clamped) as i64;
        assert(2 <= step <= 60) by {
            assert(6 * (PICO as int) <= clamped <= 180 * (PICO as int));
            crate::num::lemma_div_denom(360 * (PICO as int), clamped as int, 6 * (PICO as int));
            crate::num::lemma_div_denom(360 * (PICO as int), 180 * (PICO as int), clamped as int);
            assert(360 * (PICO as int) / (6 * (PICO as int)) == 60);
            assert(360 * (PICO as int) / (180 * (PICO as int)) == 2);
        }
        assert(step == spec_circle_step(self));
        let ghost cnt = spec_circle_count(self);
        assert(6 <= cnt <= 180) by {
            assert(cnt == 359int / (step as int) + 1);
            crate::num::lemma_div_denom(359int, step as int, 2int);
            crate::num::lemma_div_denom(359int, 60int, step as int);
            assert(359int / 2int == 179int);
            assert(359int / 60int == 5int);
        }
        let mut vs: Vec<Vertex> = Vec::new();
        let mut deg: i64 = 0;
        let mut i: i64 = 0;
        while deg < 360
            invariant
                0 <= i <= 200,
                deg == i * step,
                2 <= step <= 60,
                step == spec_circle_step(self),
                deg < 360 + step,
                wf_circle(self),
                vs@.len() == i,
                forall|j: int| 0 <= j < i ==> vs@[j] == spec_circle_point(self, j),
                forall|j: int| 0 <= j < i ==> in_bounds(#[trigger] vs@[j]),
                forall|j: int| 0 <= j < i
                    ==> annulus_ok(#[trigger] vs@[j], self.centre, self.radius as int),
            decreases 420 - deg,
        {
            let ang: i64 = deg * PICO;
            let o: Vertex = Vertex::from_polar(self.radius, ang);
            let v = Vertex { x: self.centre.x + o.x, y: self.centre.y + o.y };
            proof {
                lemma_from_polar_annulus(self.radius as int, ang as int);
                assert((v.x - self.centre.x) * (v.x - self.centre.x) == o.x * o.x
                    && (v.y - self.centre.y) * (v.y - self.centre.y) == o.y * o.y)
                    by (nonlinear_arith)
                    requires v.x == self.centre.x + o.x, v.y == self.centre.y + o.y;
                assert(ang == i * (step as int) * (PICO as int)) by (nonlinear_arith)
                    requires deg == i * step, ang == deg * (PICO as int);
                assert((i + 1) * step == i * step + step) by (nonlinear_arith);
                assert(i < 200) by (nonlinear_arith)
                    requires 0 <= i, i * step < 360, step >= 2;
            }
            vs.push(v);
            deg = deg + step;
            i = i + 1;
        }
        proof {
            assert(i >= 1) by (nonlinear_arith)
                requires deg >= 360, deg == i * step, 0 <= i, 2 <= step <= 60;
            assert((i - 1) * (step as int) == i * (step as int) - step) by (nonlinear_arith);
            assert(i - 1 == 359int / (step as int)) by (nonlinear_arith)
                requires
                    (i - 1) * (step as int) <= 359,
                    i * (step as int) >= 360,
                    2 <= step <= 60,
                    1 <= i;
            assert(vs@.len() == spec_circle_count(self));
            assert(vs@[0] == spec_circle_point(self, 0));
            assert(0 * spec_circle_step(self) * (PICO as int) == 0) by (nonlinear_arith);
            assert(spec_circle_point(self, 0)
                == spec_polar_point(self.centre, self.radius as int, 0));
            assert(vs@ =~= spec_circle_path(self).0);
        }
        crate::polyline::PolyLine { vertices: vs, closed: true }
    }
}

} // verus!
