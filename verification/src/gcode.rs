//! The control-code generator: fixed two-decimal coordinate
//! rendering and the per-path move/cut command stream.
use vstd::prelude::*;
use vstd::string::StringExecFns;
use crate::num::{rdiv, round_div};
use crate::vertex::Vertex;
use crate::polyline::{PolyLine, PathView, views, spec_glue, glue_polylines};
use crate::parser::{spec_parse, parse};

verus! {

/// Pico-units per hundredth of a drawing unit.
pub const E10: i64 = 10_000_000_000;

/// The character of one decimal digit.
pub open spec fn digit_char(d: int) -> char {
    if d == 0 {
        '0'
    } else if d == 1 {
        '1'
    } else if d == 2 {
        '2'
    } else if d == 3 {
        '3'
    } else if d == 4 {
        '4'
    } else if d == 5 {
        '5'
    } else if d == 6 {
        '6'
    } else if d == 7 {
        '7'
    } else if d == 8 {
        '8'
    } else {
        '9'
    }
}

/// The decimal digits of a non-negative number.
pub open spec fn spec_dec(n: int) -> Seq<char>
    decreases n,
{
    if n < 10 {
        seq![digit_char(n)]
    } else {
        spec_dec(n / 10) + seq![digit_char(n % 10)]
    }
}

/// A non-negative count of hundredths rendered at two decimals.
pub open spec fn spec_fmt_h(hd: int) -> Seq<char> {
    spec_dec(hd / 100) + seq!['.', digit_char((hd / 10) % 10), digit_char(hd % 10)]
}

/// A coordinate at fixed two-decimal precision: the pico-unit count
/// rounded to hundredths, a leading minus sign exactly when the count
/// is negative.
pub open spec fn spec_fmt_coord(v: int) -> Seq<char> {
    let a = if v >= 0 { v } else { -v };
    let h = rdiv(a, E10 as int);
    let sign: Seq<char> = if v < 0 { seq!['-'] } else { Seq::empty() };
    sign + spec_fmt_h(h)
}

/// One non-cutting positioning move.
pub open spec fn spec_move_line(v: Vertex) -> Seq<char> {
    "M05 F2000 X"@ + spec_fmt_coord(v.x as int) + " Y"@ + spec_fmt_coord(v.y as int) + "\n"@
}

/// One cutting move at fixed power.
pub open spec fn spec_cut_line(v: Vertex) -> Seq<char> {
    "M03 F1000 X"@ + spec_fmt_coord(v.x as int) + " Y"@ + spec_fmt_coord(v.y as int)
        + " S255\n"@
}

/// The cutting moves through the path's vertices from index `i` on.
pub open spec fn spec_cut_lines(vs: Seq<Vertex>, i: int) -> Seq<char>
    decreases vs.len() - i,
{
    if i < 0 || i >= vs.len() {
        Seq::empty()
    } else {
        spec_cut_line(vs[i]) + spec_cut_lines(vs, i + 1)
    }
}

/// One path's commands: a positioning move to its first vertex, a
/// cutting move through each further vertex, and — when the path is
/// closed — one closing cut back to the first vertex.
pub open spec fn spec_path_gcode(p: PathView) -> Seq<char> {
    if p.0.len() == 0 {
        Seq::empty()
    } else {
        spec_move_line(p.0[0]) + spec_cut_lines(p.0, 1)
            + if p.1 {
                spec_cut_line(p.0[0])
            } else {
                Seq::empty()
            }
    }
}

/// The commands of all paths from index `i` on, concatenated.
pub open spec fn spec_gcode(paths: Seq<PathView>, i: int) -> Seq<char>
    decreases paths.len() - i,
{
    if i < 0 || i >= paths.len() {
        Seq::empty()
    } else {
        spec_path_gcode(paths[i]) + spec_gcode(paths, i + 1)
    }
}

/// The whole drawing-to-commands conversion: parse, stitch, emit.
pub open spec fn spec_dxf_to_gcode(s: Seq<char>) -> Option<Seq<char>> {
    match spec_parse(s) {
        None => None,
        Some(pvs) => Some(spec_gcode(spec_glue(pvs), 0)),
    }
}

/// One decimal digit as text.
fn digit_str(d: u64) -> (r: &'static str)
    requires
        d < 10,
    ensures
        r@ == seq![digit_char(d as int)],
{
    proof {
        reveal_strlit("0");
        reveal_strlit("1");
        reveal_strlit("2");
        reveal_strlit("3");
        reveal_strlit("4");
        reveal_strlit("5");
        reveal_strlit("6");
        reveal_strlit("7");
        reveal_strlit("8");
        reveal_strlit("9");
    }
    if d == 0 {
        "0"
    } else if d == 1 {
        "1"
    } else if d == 2 {
        "2"
    } else if d == 3 {
        "3"
    } else if d == 4 {
        "4"
    } else if d == 5 {
        "5"
    } else if d == 6 {
        "6"
    } else if d == 7 {
        "7"
    } else if d == 8 {
        "8"
    } else {
        "9"
    }
}

/// A non-negative number in decimal.
pub fn dec_str(n: u64) -> (r: String)
    ensures
        r@ == spec_dec(n as int),
    decreases n,
{
    if n < 10 {
        String::from_str(digit_str(n))
    } else {
        let mut s: String = dec_str(n / 10);
        s.append(digit_str(n % 10));
        s
    }
}

/// A non-negative count of hundredths at two decimals.
pub fn fmt_hundredths(h: u64) -> (r: String)
    ensures
        r@ == spec_fmt_h(h as int),
{
    let mut s: String = dec_str(h / 100);
    proof {
        reveal_strlit(".");
    }
    s.append(".");
    s.append(digit_str((h / 10) % 10));
    s.append(digit_str(h % 10));
    proof {
        assert(s@ =~= spec_fmt_h(h as int));
    }
    s
}

/// A coordinate at fixed two-decimal precision.
fn fmt_coord(v: i64) -> (r: String)
    requires
        -4_000_000_000_000_000_000 <= v <= 4_000_000_000_000_000_000,
    ensures
        r@ == spec_fmt_coord(v as int),
{
    let a: i64 = if v >= 0 { v } else { -v };
    let h64: i128 = round_div(a as i128, E10 as i128);
    let h: u64 = h64 as u64;
    let f: String = fmt_hundredths(h);
    if v < 0 {
        proof {
            reveal_strlit("-");
        }
        let mut s: String = String::from_str("-");
        s.append(f.as_str());
        proof {
            assert(s@ =~= spec_fmt_coord(v as int));
        }
        s
    } else {
        proof {
            assert(f@ =~= spec_fmt_coord(v as int));
        }
        f
    }
}

/// One command line for a vertex: a positioning move or a cut.
fn vertex_line(v: &Vertex, cut: bool) -> (r: String)
    requires
        crate::vertex::in_bounds(*v),
    ensures
        cut ==> r@ == spec_cut_line(*v),
        !cut ==> r@ == spec_move_line(*v),
{
    let mut s: String = if cut {
        String::from_str("M03 F1000 X")
    } else {
        String::from_str("M05 F2000 X")
    };
    let fx: String = fmt_coord(v.x);
    s.append(fx.as_str());
    s.append(" Y");
    let fy: String = fmt_coord(v.y);
    s.append(fy.as_str());
    if cut {
        s.append(" S255\n");
        proof {
            assert(s@ =~= spec_cut_line(*v));
        }
    } else {
        s.append("\n");
        proof {
            assert(s@ =~= spec_move_line(*v));
        }
    }
    s
}

/// The command stream of one path.
fn polyline_to_gcode(line: &PolyLine) -> (r: String)
    requires
        crate::polyline::wf_path(line.view_of()) || line.vertices@.len() == 0,
    ensures
        r@ == spec_path_gcode(line.view_of()),
{
    let mut s: String = String::new();
    if line.vertices.len() == 0 {
        proof {
            assert(s@ =~= spec_path_gcode(line.view_of()));
        }
        return s;
    }
    let first: Vertex = line.vertices[0];
    let ml: String = vertex_line(&first, false);
    s.append(ml.as_str());
    let mut i: usize = 1;
    while i < line.vertices.len()
        invariant
            1 <= i <= line.vertices@.len(),
            crate::polyline::wf_path(line.view_of()),
            s@ == spec_move_line(line.vertices@[0]) + spec_cut_lines_upto(line.vertices@, i as int),
        decreases line.vertices@.len() - i,
    {
        let cl: String = vertex_line(&line.vertices[i], true);
        s.append(cl.as_str());
        proof {
            assert(spec_cut_lines_upto(line.vertices@, i as int)
                + spec_cut_line(line.vertices@[i as int])
                =~= spec_cut_lines_upto(line.vertices@, i as int + 1));
            assert(s@ =~= spec_move_line(line.vertices@[0])
                + spec_cut_lines_upto(line.vertices@, i as int + 1));
        }
        i = i + 1;
    }
    proof {
        lemma_cut_lines_upto_all(line.vertices@);
    }
    if line.closed {
        let cl: String = vertex_line(&first, true);
        s.append(cl.as_str());
    }
    proof {
        assert(s@ =~= spec_path_gcode(line.view_of()));
    }
    s
}

/// The cutting moves through the path's vertices before index `i`,
/// starting after the first vertex.
pub open spec fn spec_cut_lines_upto(vs: Seq<Vertex>, i: int) -> Seq<char>
    decreases i,
{
    if i <= 1 {
        Seq::empty()
    } else {
        spec_cut_lines_upto(vs, i - 1) + spec_cut_line(vs[i - 1])
    }
}

proof fn lemma_cut_lines_split(vs: Seq<Vertex>, i: int)
    requires
        1 <= i <= vs.len(),
    ensures
        spec_cut_lines_upto(vs, i) + spec_cut_lines(vs, i) == spec_cut_lines_upto(vs,
            vs.len() as int),
    decreases vs.len() - i,
{
    if i == vs.len() {
        assert(spec_cut_lines_upto(vs, i) + spec_cut_lines(vs, i)
            =~= spec_cut_lines_upto(vs, vs.len() as int));
    } else {
        lemma_cut_lines_split(vs, i + 1);
        assert(spec_cut_lines_upto(vs, i + 1) == spec_cut_lines_upto(vs, i)
            + spec_cut_line(vs[i]));
        assert(spec_cut_lines_upto(vs, i) + (spec_cut_line(vs[i]) + spec_cut_lines(vs, i + 1))
            =~= (spec_cut_lines_upto(vs, i) + spec_cut_line(vs[i])) + spec_cut_lines(vs, i + 1));
    }
}

proof fn lemma_cut_lines_upto_all(vs: Seq<Vertex>)
    requires
        vs.len() >= 1,
    ensures
        spec_cut_lines_upto(vs, vs.len() as int) == spec_cut_lines(vs, 1),
{
    lemma_cut_lines_split(vs, 1);
    assert(spec_cut_lines_upto(vs, 1) + spec_cut_lines(vs, 1) =~= spec_cut_lines(vs, 1));
}

/// The command stream of a path list, in order.
fn generate_gcode(lines: &Vec<PolyLine>) -> (r: String)
    requires
        forall|j: int| 0 <= j < lines@.len()
            ==> crate::polyline::wf_path(#[trigger] lines@[j].view_of()),
    ensures
        r@ == spec_gcode(views(lines@), 0),
{
    let ghost pvs = views(lines@);
    let mut s: String = String::new();
    let mut i: usize = 0;
    while i < lines.len()
        invariant
            0 <= i <= lines@.len(),
            pvs == views(lines@),
            forall|j: int| 0 <= j < lines@.len()
                ==> crate::polyline::wf_path(#[trigger] lines@[j].view_of()),
            s@ + spec_gcode(pvs, i as int) == spec_gcode(pvs, 0),
        decreases lines@.len() - i,
    {
        let ghost s0 = s@;
        let pg: String = polyline_to_gcode(&lines[i]);
        s.append(pg.as_str());
        proof {
            assert(s0 + (spec_path_gcode(pvs[i as int]) + spec_gcode(pvs, i as int + 1))
                =~= s@ + spec_gcode(pvs, i as int + 1));
        }
        i = i + 1;
    }
    proof {
        assert(s@ + Seq::<char>::empty() =~= s@);
    }
    s
}

/// Convert a drawing to its raw command stream: parse the entities,
/// stitch contiguous paths, and emit the moves.  `None` reports a
/// malformed numeric literal in the drawing.
pub fn dxf_to_gcode(dxf_contents: &str) -> (r: Option<String>)
    ensures
        (r matches Some(s) ==> spec_dxf_to_gcode(dxf_contents@) == Some(s@)),
        r is None <==> spec_dxf_to_gcode(dxf_contents@) is None,
{
    match parse(dxf_contents) {
        None => None,
        Some(lines) => {
            let glued: Vec<PolyLine> = glue_polylines(lines);
            Some(generate_gcode(&glued))
        },
    }
}

} // verus!
