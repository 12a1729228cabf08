use rust_cnc::process;
use rust_cnc::parser::parse;

fn dxf(lines: &[&str]) -> String {
    let mut s = String::new();
    for l in lines {
        s.push_str(l);
        s.push('\n');
    }
    s
}

#[test]
fn line_entity_end_to_end() {
    // A line from (0,0) to (10,0): one positioning move, one cut.
    let input = dxf(&["100", "AcDbLine", "10", "0", "20", "0", "11", "10", "21", "0"]);
    let out = process(&input).unwrap();
    assert_eq!(
        out,
        "G01\nM05 F2000 X0.00 Y0.00\nM03 F1000 X10.00 Y0.00 S255\nM05 F2000 X0 Y0"
    );
}

#[test]
fn closed_polyline_end_to_end() {
    // A closed 4-vertex polyline, all zero bulge: a positioning move
    // to vertex 1, three cuts through vertices 2-4, one closing cut
    // back to vertex 1, wrapped in the fixed preamble/postamble.
    let input = dxf(&[
        "100", "AcDbPolyline", "70", "1", "10", "0", "20", "0", "10", "10", "20", "0", "10",
        "10", "20", "10", "10", "0", "20", "10", "0", "ENDSEC",
    ]);
    let out = process(&input).unwrap();
    assert_eq!(
        out,
        "G01\n\
         M05 F2000 X0.00 Y0.00\n\
         M03 F1000 X10.00 Y0.00 S255\n\
         M03 F1000 X10.00 Y10.00 S255\n\
         M03 F1000 X0.00 Y10.00 S255\n\
         M03 F1000 X0.00 Y0.00 S255\n\
         M05 F2000 X0 Y0"
    );
}

#[test]
fn circle_end_to_end_first_vertex() {
    // A circle of radius 5 at the origin: a closed path whose first
    // vertex is (5.00, 0.00).
    let input = dxf(&["100", "AcDbCircle", "10", "0", "20", "0", "40", "5", "0", "ENDSEC"]);
    let paths = parse(&input).unwrap();
    assert_eq!(paths.len(), 1);
    assert!(paths[0].closed);
    assert_eq!(paths[0].vertices[0].x, 5_000_000_000_000);
    assert_eq!(paths[0].vertices[0].y, 0);
    let out = process(&input).unwrap();
    assert!(out.starts_with("G01\nM05 F2000 X5.00 Y0.00\n"));
    // Closed: the last command before the postamble cuts back to the
    // first vertex.
    assert!(out.ends_with("M03 F1000 X5.00 Y0.00 S255\nM05 F2000 X0 Y0"));
}

#[test]
fn polyline_missing_closed_flag_yields_nothing() {
    // A polyline entity with no closed-flag record: no path, no error.
    let input = dxf(&[
        "100", "AcDbPolyline", "10", "0", "20", "0", "10", "10", "20", "10", "0", "ENDSEC",
    ]);
    let paths = parse(&input).unwrap();
    assert_eq!(paths.len(), 0);
    assert_eq!(process(&input).unwrap(), "G01\nM05 F2000 X0 Y0");
}

#[test]
fn malformed_numeral_is_fatal() {
    let input = dxf(&["100", "AcDbLine", "10", "abc", "20", "0", "11", "10", "21", "0"]);
    assert!(process(&input).is_none());
    assert!(parse(&input).is_none());
}

#[test]
fn unknown_entities_are_skipped() {
    let input = dxf(&[
        "100", "AcDbText", "10", "3", "20", "4", "100", "AcDbLine", "10", "1", "20", "2",
        "11", "3", "21", "4",
    ]);
    let paths = parse(&input).unwrap();
    assert_eq!(paths.len(), 1);
    assert_eq!(paths[0].vertices.len(), 2);
    assert_eq!(paths[0].vertices[0].x, 1_000_000_000_000);
    assert_eq!(paths[0].vertices[1].y, 4_000_000_000_000);
}

#[test]
fn incomplete_line_entity_yields_nothing() {
    let input = dxf(&["100", "AcDbLine", "10", "0", "20", "0", "11", "10"]);
    let paths = parse(&input).unwrap();
    assert_eq!(paths.len(), 0);
}

#[test]
fn circle_without_radius_is_dropped() {
    let input = dxf(&["100", "AcDbCircle", "10", "0", "20", "0", "0", "ENDSEC"]);
    let paths = parse(&input).unwrap();
    assert_eq!(paths.len(), 0);
}

#[test]
fn trailing_unpaired_record_line_is_dropped() {
    // The final code line has no value line: it is ignored.
    let input = "100\nAcDbLine\n10\n0\n20\n0\n11\n10\n21\n0\n0";
    let out = process(input).unwrap();
    assert_eq!(
        out,
        "G01\nM05 F2000 X0.00 Y0.00\nM03 F1000 X10.00 Y0.00 S255\nM05 F2000 X0 Y0"
    );
}

#[test]
fn whitespace_is_trimmed() {
    let input = " 100 \r\n AcDbLine \r\n\t10\r\n 0 \r\n20\r\n0\r\n11\r\n10\r\n21\r\n0\r\n";
    let out = process(input).unwrap();
    assert_eq!(
        out,
        "G01\nM05 F2000 X0.00 Y0.00\nM03 F1000 X10.00 Y0.00 S255\nM05 F2000 X0 Y0"
    );
}

#[test]
fn unicode_whitespace_is_trimmed() {
    // Fields padded with form feed, vertical tab and no-break space
    // still parse: trimming covers the whole White_Space set.
    let input =
        "100\nAcDbLine\n10\n\u{c}0\u{b}\n20\n\u{a0}0\u{a0}\n11\n 10\n21\n0\n";
    let out = process(input).unwrap();
    assert_eq!(
        out,
        "G01\nM05 F2000 X0.00 Y0.00\nM03 F1000 X10.00 Y0.00 S255\nM05 F2000 X0 Y0"
    );
}

#[test]
fn negative_coordinates_render_with_sign() {
    let input = dxf(&["100", "AcDbLine", "10", "-1.5", "20", "-0.25", "11", "0", "21", "0"]);
    let out = process(&input).unwrap();
    assert_eq!(
        out,
        "G01\nM05 F2000 X-1.50 Y-0.25\nM03 F1000 X0.00 Y0.00 S255\nM05 F2000 X0 Y0"
    );
}

#[test]
fn dxf_bulge_clockwise_test() {
    // A two-vertex polyline whose first vertex carries bulge -1: a
    // clockwise half circle from (0,0) to (10,0), swept above the
    // chord, spliced into the path between the two vertices.
    let input = dxf(&[
        "100", "AcDbPolyline", "70", "0", "10", "0", "20", "0", "42", "-1", "10", "10",
        "20", "0", "0", "ENDSEC",
    ]);
    let paths = rust_cnc::parser::parse(&input).unwrap();
    assert_eq!(paths.len(), 1);
    let vs = &paths[0].vertices;
    assert!(vs.len() > 2);
    assert_eq!(vs[0].x, 0);
    assert_eq!(vs.last().unwrap().x, 10_000_000_000_000);
    for q in vs.iter().skip(1).take(vs.len() - 2) {
        assert!(q.y > 0, "clockwise sweep stays above the chord");
    }
    let out = process(&input).unwrap();
    assert!(out.starts_with("G01\nM05 F2000 X0.00 Y0.00\n"));
    assert!(out.contains("X5.00 Y5.00"));
}

#[test]
fn dxf_bulge_anticlockwise_test() {
    // The same half circle with bulge +1 sweeps counter-clockwise,
    // below the chord.
    let input = dxf(&[
        "100", "AcDbPolyline", "70", "0", "10", "0", "20", "0", "42", "1", "10", "10",
        "20", "0", "0", "ENDSEC",
    ]);
    let paths = rust_cnc::parser::parse(&input).unwrap();
    assert_eq!(paths.len(), 1);
    let vs = &paths[0].vertices;
    assert!(vs.len() > 2);
    for q in vs.iter().skip(1).take(vs.len() - 2) {
        assert!(q.y < 0, "counter-clockwise sweep stays below the chord");
    }
    let out = process(&input).unwrap();
    assert!(out.contains("X5.00 Y-5.00"));
}

#[test]
fn closing_bulge_curves_back_to_the_first_vertex() {
    // The last vertex's bulge curves back towards the first vertex;
    // the splice keeps the path open (the closed flag alone closes it).
    let input = dxf(&[
        "100", "AcDbPolyline", "70", "1", "10", "0", "20", "0", "10", "10", "20", "0",
        "42", "1", "0", "ENDSEC",
    ]);
    let paths = rust_cnc::parser::parse(&input).unwrap();
    assert_eq!(paths.len(), 1);
    assert!(paths[0].closed);
    let vs = &paths[0].vertices;
    assert!(vs.len() > 2, "interior samples of the closing arc are spliced in");
    assert_eq!(vs[0].x, 0);
    // The appended interior samples follow the last original vertex.
    assert!(vs.iter().any(|q| q.y > 4_000_000_000_000));
}
