use rust_cnc::vertex::Vertex;
use rust_cnc::polyline::{PolyLine, glue_polylines};
use rust_cnc::parser::{parse_value, parse_count};
use rust_cnc::gcode::{dec_str, fmt_hundredths};
use rust_cnc::wrap_gcode;

const PICO: f64 = 1e12;

fn v(x: f64, y: f64) -> Vertex {
    Vertex { x: (x * PICO).round() as i64, y: (y * PICO).round() as i64 }
}

fn pl(vs: &[(f64, f64)], closed: bool) -> PolyLine {
    PolyLine { vertices: vs.iter().map(|&(x, y)| v(x, y)).collect(), closed }
}

fn verts(p: &PolyLine) -> Vec<(i64, i64)> {
    p.vertices.iter().map(|q| (q.x, q.y)).collect()
}

#[test]
fn stitching_a_fully_glued_list_is_a_no_op() {
    // No adjacent pair touches in either orientation: identical
    // vertices, identical path count.
    let lines = vec![
        pl(&[(0.0, 0.0), (1.0, 0.0)], false),
        pl(&[(5.0, 5.0), (6.0, 5.0)], true),
        pl(&[(9.0, 0.0), (9.0, 1.0)], false),
    ];
    let want: Vec<Vec<(i64, i64)>> = lines.iter().map(verts).collect();
    let flags: Vec<bool> = lines.iter().map(|p| p.closed).collect();
    let out = glue_polylines(lines);
    assert_eq!(out.len(), 3);
    for (i, p) in out.iter().enumerate() {
        assert_eq!(verts(p), want[i]);
        assert_eq!(p.closed, flags[i]);
    }
}

#[test]
fn stitching_appends_a_forward_continuation() {
    let lines = vec![
        pl(&[(0.0, 0.0), (1.0, 0.0)], false),
        pl(&[(1.0, 0.0), (2.0, 0.0)], false),
    ];
    let out = glue_polylines(lines);
    assert_eq!(out.len(), 1);
    assert_eq!(verts(&out[0]), verts(&pl(&[(0.0, 0.0), (1.0, 0.0), (2.0, 0.0)], false)));
    assert!(!out[0].closed);
}

#[test]
fn stitching_reverses_a_segment_that_ends_at_the_run() {
    // B's last vertex touches A's last vertex: the result is A
    // followed by reverse(B), the shared vertex deduplicated.
    let a = pl(&[(0.0, 0.0), (1.0, 0.0)], false);
    let b = pl(&[(2.0, 0.0), (1.0, 0.0)], false);
    let out = glue_polylines(vec![a, b]);
    assert_eq!(out.len(), 1);
    assert_eq!(verts(&out[0]), verts(&pl(&[(0.0, 0.0), (1.0, 0.0), (2.0, 0.0)], false)));
}

#[test]
fn stitching_tolerance_is_a_thousandth_of_a_unit() {
    // Just inside the tolerance merges; just outside flushes.
    let near = vec![
        pl(&[(0.0, 0.0), (1.0, 0.0)], false),
        pl(&[(1.0005, 0.0), (2.0, 0.0)], false),
    ];
    assert_eq!(glue_polylines(near).len(), 1);
    let far = vec![
        pl(&[(0.0, 0.0), (1.0, 0.0)], false),
        pl(&[(1.002, 0.0), (2.0, 0.0)], false),
    ];
    assert_eq!(glue_polylines(far).len(), 2);
}

#[test]
fn continuation_predicates_compare_endpoints() {
    let a = pl(&[(0.0, 0.0), (1.0, 0.0)], false);
    let fwd = pl(&[(1.0, 0.0), (2.0, 0.0)], false);
    let rev = pl(&[(2.0, 0.0), (1.0, 0.0)], false);
    assert!(fwd.continues_from(&a));
    assert!(!rev.continues_from(&a));
    assert!(rev.continues_from_reversed(&a));
    assert!(!a.continues_from(&fwd));
}

#[test]
fn from_sections_drops_the_shared_vertex() {
    let a = pl(&[(0.0, 0.0), (1.0, 0.0)], false);
    let b = pl(&[(1.0, 0.0), (2.0, 0.0)], true);
    let m = PolyLine::from_sections(&a, &b);
    assert_eq!(verts(&m), verts(&pl(&[(0.0, 0.0), (1.0, 0.0), (2.0, 0.0)], false)));
    assert!(!m.closed);
}

#[test]
fn reverse_runs_the_path_backwards() {
    let a = pl(&[(0.0, 0.0), (1.0, 0.0), (2.0, 1.0)], true);
    let r = a.reverse();
    assert_eq!(verts(&r), verts(&pl(&[(2.0, 1.0), (1.0, 0.0), (0.0, 0.0)], false)));
    assert!(!r.closed);
}

#[test]
fn numeric_fields_parse_to_pico_units() {
    assert_eq!(parse_value("10.5"), Some(10_500_000_000_000));
    assert_eq!(parse_value("-0.001"), Some(-1_000_000_000));
    assert_eq!(parse_value("+.25"), Some(250_000_000_000));
    assert_eq!(parse_value("7."), Some(7_000_000_000_000));
    assert_eq!(parse_value("0"), Some(0));
    assert_eq!(parse_value("500000"), Some(500_000_000_000_000_000));
    // Fraction digits beyond the twelfth are ignored.
    assert_eq!(parse_value("0.1234567890123999"), Some(123_456_789_012));
    // Malformed or out-of-range literals.
    assert_eq!(parse_value(""), None);
    assert_eq!(parse_value("."), None);
    assert_eq!(parse_value("-"), None);
    assert_eq!(parse_value("1e3"), None);
    assert_eq!(parse_value("1.2.3"), None);
    assert_eq!(parse_value("500001"), None);
    assert_eq!(parse_value("nan"), None);
}

#[test]
fn count_fields_parse_as_plain_integers() {
    assert_eq!(parse_count("4"), Some(4));
    assert_eq!(parse_count("0"), Some(0));
    assert_eq!(parse_count("12"), Some(12));
    assert_eq!(parse_count("4.0"), None);
    assert_eq!(parse_count(""), None);
    assert_eq!(parse_count("-4"), None);
}

#[test]
fn decimal_rendering_is_exact() {
    assert_eq!(dec_str(0), "0");
    assert_eq!(dec_str(255), "255");
    assert_eq!(dec_str(1000), "1000");
    assert_eq!(fmt_hundredths(0), "0.00");
    assert_eq!(fmt_hundredths(5), "0.05");
    assert_eq!(fmt_hundredths(1234), "12.34");
    assert_eq!(wrap_gcode("BODY"), "G01\nBODYM05 F2000 X0 Y0");
}
