use rust_cnc::vertex::Vertex;
use rust_cnc::circle::Circle;
use rust_cnc::arc::Arc;
use rust_cnc::bulge::{VertexWithBulge, get_bulge_arc, explode_bulged_vertices};
use rust_cnc::spline::Spline;
use rust_cnc::trig::{sin_cos, atan2_pd, S2};

const PICO: f64 = 1e12;

fn v(x: f64, y: f64) -> Vertex {
    Vertex { x: (x * PICO).round() as i64, y: (y * PICO).round() as i64 }
}

fn fx(n: i64) -> f64 {
    n as f64 / PICO
}

#[test]
fn circle_vertices_lie_on_the_circle() {
    // Every tessellated vertex of a circle of radius r lies at
    // distance r (within 1e-9) from the centre; the output is closed;
    // the count matches the degrees-per-step formula.
    for &(cx, cy, r) in &[(0.0, 0.0, 5.0), (3.0, -4.0, 0.5), (100.0, 100.0, 40.0)] {
        let c = Circle { centre: v(cx, cy), radius: (r * PICO) as i64 };
        let p = c.into_polyline();
        assert!(p.closed);
        // degrees per step: 360 / clamp(circumference, 6, 180).
        let circ = 2.0 * std::f64::consts::PI * r;
        let step = (360.0 / circ.max(6.0).min(180.0)) as i64;
        let expect = 359 / step + 1;
        assert_eq!(p.vertices.len() as i64, expect);
        for q in &p.vertices {
            let d = ((fx(q.x) - cx).powi(2) + (fx(q.y) - cy).powi(2)).sqrt();
            assert!((d - r).abs() <= 1e-9, "distance {} vs radius {}", d, r);
        }
    }
}

#[test]
fn arc_endpoints_match_the_analytic_points() {
    // Arc tessellation endpoints lie within 1e-6 of the analytic
    // start/end points for valid angle spans.
    for &(r, a0, a1) in &[(10.0, 0.0, 90.0), (5.0, 45.0, 300.0), (2.0, 180.0, 540.0),
        (7.5, 90.0, 30.0)] {
        let arc = Arc {
            centre: v(1.0, 2.0),
            radius: (r * PICO) as i64,
            start_angle: (a0 * PICO) as i64,
            end_angle: (a1 * PICO) as i64,
        };
        let p = arc.into_polyline();
        assert!(!p.closed);
        let sx = 1.0 + r * a0.to_radians().cos();
        let sy = 2.0 + r * a0.to_radians().sin();
        let ex = 1.0 + r * a1.to_radians().cos();
        let ey = 2.0 + r * a1.to_radians().sin();
        let first = p.vertices.first().unwrap();
        let last = p.vertices.last().unwrap();
        assert!((fx(first.x) - sx).abs() < 1e-6 && (fx(first.y) - sy).abs() < 1e-6);
        assert!((fx(last.x) - ex).abs() < 1e-6 && (fx(last.y) - ey).abs() < 1e-6);
        // Interior vertices stay on the arc's circle.
        for q in &p.vertices {
            let d = ((fx(q.x) - 1.0).powi(2) + (fx(q.y) - 2.0).powi(2)).sqrt();
            assert!((d - r).abs() <= 1e-9);
        }
    }
}

#[test]
fn positive_bulge_sweeps_counter_clockwise() {
    // bulge = +1 between (0,0) and (10,0): a half circle; the end
    // angle is unwrapped above the start angle (counter-clockwise).
    let a = v(0.0, 0.0);
    let b = v(10.0, 0.0);
    let arc = get_bulge_arc(&a, &b, (1.0 * PICO) as i64).unwrap();
    assert!(arc.start_angle <= arc.end_angle);
    // Centre at the chord midpoint, radius 5.
    assert!((fx(arc.centre.x) - 5.0).abs() < 1e-6);
    assert!(fx(arc.centre.y).abs() < 1e-6);
    assert!((fx(arc.radius) - 5.0).abs() < 1e-6);
    // The swept middle lies below the chord for this orientation.
    let p = arc.into_polyline();
    let mid = &p.vertices[p.vertices.len() / 2];
    assert!(fx(mid.y) < -4.0);
}

#[test]
fn negative_bulge_sweeps_clockwise() {
    let a = v(0.0, 0.0);
    let b = v(10.0, 0.0);
    let arc = get_bulge_arc(&a, &b, (-1.0 * PICO) as i64).unwrap();
    assert!(arc.end_angle <= arc.start_angle);
    let p = arc.into_polyline();
    let mid = &p.vertices[p.vertices.len() / 2];
    assert!(fx(mid.y) > 4.0);
}

#[test]
fn zero_bulge_vertices_pass_through_unchanged() {
    let vs = vec![
        VertexWithBulge { vertex: v(0.0, 0.0), bulge: 0 },
        VertexWithBulge { vertex: v(1.0, 0.0), bulge: 0 },
        VertexWithBulge { vertex: v(1.0, 1.0), bulge: 0 },
    ];
    let out = explode_bulged_vertices(vs);
    assert_eq!(out, vec![v(0.0, 0.0), v(1.0, 0.0), v(1.0, 1.0)]);
}

#[test]
fn bulge_expansion_splices_interior_points() {
    // A quarter-circle bulge between two vertices inserts the arc's
    // interior samples between them, in order.
    let vs = vec![
        VertexWithBulge { vertex: v(0.0, 0.0), bulge: (0.5 * PICO) as i64 },
        VertexWithBulge { vertex: v(10.0, 0.0), bulge: 0 },
    ];
    let out = explode_bulged_vertices(vs);
    assert!(out.len() > 2);
    assert_eq!(out[0], v(0.0, 0.0));
    assert_eq!(*out.last().unwrap(), v(10.0, 0.0));
}

#[test]
fn spline_tessellation_keeps_its_endpoints() {
    let s = Spline {
        control_points: vec![v(0.0, 0.0), v(1.0, 2.0), v(3.0, 2.0), v(4.0, 0.0)],
    };
    let p = s.into_polyline();
    assert!(!p.closed);
    // steps = clamp(round(distance(p0,p3) * 4), 6, 25) = 16; the path
    // holds steps - 1 vertices.
    assert_eq!(p.vertices.len(), 15);
    assert_eq!(p.vertices[0], v(0.0, 0.0));
    assert_eq!(*p.vertices.last().unwrap(), v(4.0, 0.0));
    // Interior samples follow the cubic blend.
    for (k, q) in p.vertices.iter().enumerate().skip(1).take(p.vertices.len() - 2) {
        let t = k as f64 / 15.0;
        let bx = (1.0 - t).powi(3) * 0.0 + 3.0 * (1.0 - t).powi(2) * t * 1.0
            + 3.0 * (1.0 - t) * t * t * 3.0 + t.powi(3) * 4.0;
        let by = (1.0 - t).powi(3) * 0.0 + 3.0 * (1.0 - t).powi(2) * t * 2.0
            + 3.0 * (1.0 - t) * t * t * 2.0 + t.powi(3) * 0.0;
        assert!((fx(q.x) - bx).abs() < 1e-9, "k={} {} vs {}", k, fx(q.x), bx);
        assert!((fx(q.y) - by).abs() < 1e-9);
    }
}

#[test]
fn trig_matches_the_analytic_functions() {
    let scale = S2 as f64;
    for d in -720..=720 {
        let ang = d as f64 * 0.5;
        let (c, s) = sin_cos((ang * PICO) as i64);
        assert!((c as f64 / scale - ang.to_radians().cos()).abs() < 1e-9);
        assert!((s as f64 / scale - ang.to_radians().sin()).abs() < 1e-9);
    }
    for &(y, x) in &[(1.0, 1.0), (3.0, -4.0), (-2.0, 7.0), (-1.0, -1.0), (0.0, 5.0),
        (5.0, 0.0), (0.0, -5.0), (-5.0, 0.0)] {
        let r = atan2_pd((y * PICO) as i64, (x * PICO) as i64);
        let e = f64::atan2(y, x).to_degrees();
        assert!((r as f64 / PICO - e).abs() < 1e-9, "atan2({y},{x}) {} vs {}", r, e);
    }
}

#[test]
fn vector_algebra_is_exact() {
    let a = v(0.0, 0.0);
    let b = v(3.0, 4.0);
    assert_eq!(a.distance_to(&b), 5_000_000_000_000);
    assert_eq!(a.midpoint(&b), v(1.5, 2.0));
    let d = a.vector_to(&b);
    assert_eq!(d, v(3.0, 4.0));
    assert_eq!(d.normal(), v(4.0, -3.0));
    assert_eq!(d.magnitude(), 5_000_000_000_000);
    let u = d.unit_vector();
    assert_eq!(u, v(0.6, 0.8));
    let w = d.with_magnitude(10_000_000_000_000);
    assert_eq!(w, v(6.0, 8.0));
    let polar = Vertex::from_polar(5_000_000_000_000, 90_000_000_000_000);
    assert_eq!(polar, v(0.0, 5.0));
    // A negative radius flips the vector.
    let flipped = Vertex::from_polar(-5_000_000_000_000, 90_000_000_000_000);
    assert_eq!(flipped, v(0.0, -5.0));
    assert_eq!(a.angle_to(&v(0.0, 9.0)), 90_000_000_000_000);
}
