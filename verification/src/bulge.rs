//! Expansion of curvature-hinted polyline vertices into arc
//! tessellations.
//!
//! A vertex may carry a signed bulge factor (`tan` of a quarter of the
//! included angle, at scale `PICO`); a nonzero bulge curves the
//! segment to the next vertex.  The arc is reconstructed from chord
//! and sagitta; its interior samples are spliced between the two
//! vertices.  Degenerate geometry — a zero-length chord, a zero
//! sagitta, or a reconstructed radius or centre outside the supported
//! range — is resolved explicitly by keeping the segment straight.
use vstd::prelude::*;
use crate::num::{rdiv, round_div, floor_sqrt, PICO};
use crate::vertex::{Vertex, V_MAX, in_bounds, dist_sq};
use crate::arc::{Arc, GEO_MAX, wf_arc, spec_arc_steps, spec_arc_point, arc_interior};
use crate::trig::spec_atan2;

verus! {

/// A polyline vertex with its signed curvature factor (scale `PICO`;
/// zero means the segment to the next vertex is straight).
#[derive(Clone, Copy, PartialEq, Eq, Structural, Debug)]
pub struct VertexWithBulge {
    pub vertex: Vertex,
    pub bulge: i64,
}

/// A parsed vertex-with-bulge: both within the parsed-value range.
pub open spec fn wf_vb(v: VertexWithBulge) -> bool {
    &&& -V_MAX <= v.vertex.x <= V_MAX
    &&& -V_MAX <= v.vertex.y <= V_MAX
    &&& -V_MAX <= v.bulge <= V_MAX
}

/// The arc a bulge encodes between `a` and `b`, or `None` when the
/// geometry is degenerate (the segment then stays straight).
pub open spec fn spec_bulge_arc(a: Vertex, b: Vertex, bulge: int) -> Option<Arc> {
    let chord = floor_sqrt(dist_sq(a, b));
    let ab = if bulge >= 0 { bulge } else { -bulge };
    let sag = rdiv(chord * ab, 2 * (PICO as int));
    if chord == 0 || sag == 0 || sag > GEO_MAX {
        None
    } else {
        let radius = rdiv(sag, 2) + rdiv(chord * chord, 8 * sag);
        if radius > GEO_MAX {
            None
        } else {
            let apothem = radius - sag;
            let m = if bulge >= 0 { -apothem } else { apothem };
            let midx = a.x + rdiv(b.x - a.x, 2);
            let midy = a.y + rdiv(b.y - a.y, 2);
            let nx = b.y - a.y;
            let ny = -(b.x - a.x);
            let nmag = floor_sqrt(nx * nx + ny * ny);
            let cx = midx + rdiv(nx * m, nmag);
            let cy = midy + rdiv(ny * m, nmag);
            if cx < -GEO_MAX || cx > GEO_MAX || cy < -GEO_MAX || cy > GEO_MAX {
                None
            } else {
                let start = spec_atan2(a.y - cy, a.x - cx);
                let end0 = spec_atan2(b.y - cy, b.x - cx);
                let end = if end0 < start && bulge > 0 {
                    end0 + 360 * (PICO as int)
                } else if end0 > start && bulge < 0 {
                    end0 - 360 * (PICO as int)
                } else {
                    end0
                };
                Some(Arc {
                    centre: Vertex { x: cx as i64, y: cy as i64 },
                    radius: radius as i64,
                    start_angle: start as i64,
                    end_angle: end as i64,
                })
            }
        }
    }
}

/// Reconstruct the arc a bulge encodes between `a` and `b`.  A
/// positive bulge sweeps counter-clockwise from `a` to `b` (the end
/// angle is unwrapped above the start angle); a negative bulge sweeps
/// clockwise.  Degenerate geometry yields `None`.
pub fn get_bulge_arc(a: &Vertex, b: &Vertex, bulge: i64) -> (r: Option<Arc>)
    requires
        -V_MAX <= a.x <= V_MAX,
        -V_MAX <= a.y <= V_MAX,
        -V_MAX <= b.x <= V_MAX,
        -V_MAX <= b.y <= V_MAX,
        -V_MAX <= bulge <= V_MAX,
    ensures
        r == spec_bulge_arc(*a, *b, bulge as int),
        r matches Some(arc) ==> wf_arc(arc),
        bulge > 0 ==> (r matches Some(arc) ==> arc.start_angle <= arc.end_angle
            <= arc.start_angle + 360 * (PICO as int)),
        bulge < 0 ==> (r matches Some(arc) ==> arc.start_angle - 360 * (PICO as int)
            <= arc.end_angle <= arc.start_angle),
{
    let chord: i64 = a.distance_to(b);
    let ab: i64 = if bulge >= 0 { bulge } else { -bulge };
    proof {
        assert(dist_sq(*a, *b) <= 8 * (V_MAX as int) * (V_MAX as int)) by (nonlinear_arith)
            requires -V_MAX <= a.x <= V_MAX, -V_MAX <= a.y <= V_MAX,
                -V_MAX <= b.x <= V_MAX, -V_MAX <= b.y <= V_MAX;
        assert(chord <= 2_000_000_000_000_000_000) by (nonlinear_arith)
            requires 0 <= chord,
                (chord as int) * (chord as int) <= 8 * (V_MAX as int) * (V_MAX as int);
        assert(0 <= (chord as int) * (ab as int)
            && (chord as int) * (ab as int) <= 2_000_000_000_000_000_000 * (V_MAX as int))
            by (nonlinear_arith)
            requires 0 <= chord <= 2_000_000_000_000_000_000, 0 <= ab <= V_MAX;
    }
    let sag: i128 = round_div((chord as i128) * (ab as i128), 2 * (PICO as i128));
    if chord == 0 || sag == 0 || sag > GEO_MAX as i128 {
        return None;
    }
    proof {
        assert(0 <= (chord as int) * (chord as int)
            <= 2_000_000_000_000_000_000 * 2_000_000_000_000_000_000) by (nonlinear_arith)
            requires 0 <= chord <= 2_000_000_000_000_000_000;
    }
    let radius: i128 = round_div(sag, 2) + round_div((chord as i128) * (chord as i128), 8 * sag);
    if radius > GEO_MAX as i128 {
        return None;
    }
    let apothem: i128 = radius - sag;
    let m: i64 = (if bulge >= 0 { -apothem } else { apothem }) as i64;
    let mid: Vertex = a.midpoint(b);
    let nv: Vertex = a.vector_to(b).normal();
    proof {
        if nv.x == 0 && nv.y == 0 {
            assert(dist_sq(*a, *b) == 0);
            assert((chord as int) * (chord as int) >= 1) by (nonlinear_arith)
                requires 1 <= chord;
        }
    }
    let cv: Vertex = nv.with_magnitude(m);
    let cx: i64 = mid.x + cv.x;
    let cy: i64 = mid.y + cv.y;
    if cx < -GEO_MAX || cx > GEO_MAX || cy < -GEO_MAX || cy > GEO_MAX {
        return None;
    }
    let centre = Vertex { x: cx, y: cy };
    let start: i64 = centre.angle_to(a);
    let end0: i64 = centre.angle_to(b);
    let end: i64 = if end0 < start && bulge > 0 {
        end0 + 360 * PICO
    } else if end0 > start && bulge < 0 {
        end0 - 360 * PICO
    } else {
        end0
    };
    Some(Arc { centre, radius: radius as i64, start_angle: start, end_angle: end })
}

/// The interior samples of an arc, as a sequence.
pub open spec fn spec_interior(a: Arc) -> Seq<Vertex> {
    Seq::new((spec_arc_steps(a) - 1) as nat, |j: int| spec_arc_point(a, j + 1, spec_arc_steps(a)))
}

/// What one vertex contributes: itself, then — when its bulge is
/// nonzero and the geometry is not degenerate — the interior of its
/// arc towards `next`.
pub open spec fn spec_seg(l: VertexWithBulge, next: Vertex) -> Seq<Vertex> {
    if l.bulge == 0 {
        seq![l.vertex]
    } else {
        match spec_bulge_arc(l.vertex, next, l.bulge as int) {
            Some(arc) => seq![l.vertex] + spec_interior(arc),
            None => seq![l.vertex],
        }
    }
}

/// The expansion from index `i` on; the last vertex curves back
/// towards the first one when it carries a bulge.
pub open spec fn spec_explode_from(vs: Seq<VertexWithBulge>, i: int) -> Seq<Vertex>
    decreases vs.len() - i,
{
    if i < 0 || i >= vs.len() {
        Seq::empty()
    } else if i + 1 < vs.len() {
        spec_seg(vs[i], vs[i + 1].vertex) + spec_explode_from(vs, i + 1)
    } else {
        seq![vs[i].vertex] + if vs[i].bulge != 0 {
            match spec_bulge_arc(vs[i].vertex, vs[0].vertex, vs[i].bulge as int) {
                Some(arc) => spec_interior(arc),
                None => Seq::empty(),
            }
        } else {
            Seq::empty()
        }
    }
}

/// The full expansion of a bulge-tagged vertex list.
pub open spec fn spec_explode(vs: Seq<VertexWithBulge>) -> Seq<Vertex> {
    spec_explode_from(vs, 0)
}

/// Append every vertex of `pts` to `out`.
fn append_all(out: &mut Vec<Vertex>, pts: &Vec<Vertex>)
    ensures
        final(out)@ == old(out)@ + pts@,
{
    let mut j: usize = 0;
    while j < pts.len()
        invariant
            0 <= j <= pts@.len(),
            out@ == old(out)@ + pts@.subrange(0, j as int),
        decreases pts@.len() - j,
    {
        out.push(pts[j]);
        proof {
            assert(out@ =~= old(out)@ + pts@.subrange(0, j as int + 1));
        }
        j = j + 1;
    }
    proof {
        assert(out@ =~= old(out)@ + pts@);
    }
}

/// Expand every nonzero-bulge segment into its arc tessellation,
/// keeping the original vertices and their order; zero-bulge vertices
/// pass through unchanged.
#[verifier::rlimit(100)]
#[verifier::spinoff_prover]
pub fn explode_bulged_vertices(vertices: Vec<VertexWithBulge>) -> (r: Vec<Vertex>)
    requires
        forall|i: int| 0 <= i < vertices@.len() ==> wf_vb(#[trigger] vertices@[i]),
    ensures
        r@ == spec_explode(vertices@),
        forall|i: int| 0 <= i < r@.len() ==> in_bounds(#[trigger] r@[i]),
        r@.len() >= vertices@.len(),
{
    let ghost vs = vertices@;
    let mut out: Vec<Vertex> = Vec::new();
    let n: usize = vertices.len();
    if n == 0 {
        proof {
            assert(out@ =~= spec_explode(vs));
        }
        return out;
    }
    let mut i: usize = 0;
    while i < n - 1
        invariant
            0 <= i <= n - 1,
            1 <= n == vs.len(),
            vs == vertices@,
            forall|j: int| 0 <= j < vs.len() ==> wf_vb(#[trigger] vs[j]),
            out@.len() >= i,
            forall|j: int| 0 <= j < out@.len() ==> in_bounds(#[trigger] out@[j]),
            out@ + spec_explode_from(vs, i as int) == spec_explode(vs),
        decreases n - i,
    {
        let ghost out0 = out@;
        let l: VertexWithBulge = vertices[i];
        out.push(l.vertex);
        if l.bulge != 0 {
            match get_bulge_arc(&l.vertex, &vertices[i + 1].vertex, l.bulge) {
                Some(arc) => {
                    let pts: Vec<Vertex> = arc_interior(&arc);
                    proof {
                        assert(pts@ =~= spec_interior(arc));
                    }
                    append_all(&mut out, &pts);
                    proof {
                        assert(out@ =~= out0 + spec_seg(l, vs[i as int + 1].vertex));
                    }
                },
                None => {
                    proof {
                        assert(out@ =~= out0 + spec_seg(l, vs[i as int + 1].vertex));
                    }
                },
            }
        } else {
            proof {
                assert(out@ =~= out0 + spec_seg(l, vs[i as int + 1].vertex));
            }
        }
        proof {
            assert(out0 + spec_seg(l, vs[i as int + 1].vertex)
                + spec_explode_from(vs, i as int + 1)
                =~= out0 + spec_explode_from(vs, i as int));
        }
        i = i + 1;
    }
    let ghost out0 = out@;
    let last: VertexWithBulge = vertices[n - 1];
    out.push(last.vertex);
    if last.bulge != 0 {
        match get_bulge_arc(&last.vertex, &vertices[0].vertex, last.bulge) {
            Some(arc) => {
                let pts: Vec<Vertex> = arc_interior(&arc);
                proof {
                    assert(pts@ =~= spec_interior(arc));
                }
                append_all(&mut out, &pts);
            },
            None => {},
        }
    }
    proof {
        assert(out@ =~= out0 + spec_explode_from(vs, vs.len() - 1));
        assert(out@ =~= spec_explode(vs));
    }
    out
}

} // verus!
