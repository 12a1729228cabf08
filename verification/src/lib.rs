//! Converter from a two-line-record CAD interchange format to a
//! cutter control-code stream.
//!
//! Coordinates are held in fixed-point: one drawing unit is `PICO`
//! (10^12) counts of an `i64`.  All geometry — tessellation of arcs,
//! circles and splines, expansion of curvature-hinted polyline
//! vertices, endpoint stitching and output formatting — is exact
//! integer arithmetic and carries a full functional contract.
#![verifier::loop_isolation(false)]

pub mod num;
pub mod trig;
pub mod vertex;
pub mod polyline;
pub mod arc;
pub mod circle;
pub mod spline;
pub mod bulge;
pub mod parser;
pub mod gcode;
pub mod bitmap;

use vstd::prelude::*;
use vstd::string::StringExecFns;

verus! {

/// The fixed mode-select preamble of every emitted program.
pub const GCODE_HEADER: &'static str = "G01\n";

/// The fixed return-to-origin postamble of every emitted program.
pub const GCODE_FOOTER: &'static str = "M05 F2000 X0 Y0";

/// A raw command stream wrapped in the fixed preamble and postamble.
pub open spec fn spec_wrap(body: Seq<char>) -> Seq<char> {
    "G01\n"@ + body + "M05 F2000 X0 Y0"@
}

/// The whole drawing-to-program conversion: `None` reports a
/// malformed numeric literal in a recognized field.
pub open spec fn spec_process(s: Seq<char>) -> Option<Seq<char>> {
    match crate::gcode::spec_dxf_to_gcode(s) {
        None => None,
        Some(body) => Some(spec_wrap(body)),
    }
}

/// Wrap a raw command stream in the fixed preamble and postamble.
pub fn wrap_gcode(gcode: &str) -> (r: String)
    ensures
        r@ == spec_wrap(gcode@),
{
    let mut s: String = String::from_str(GCODE_HEADER);
    s.append(gcode);
    s.append(GCODE_FOOTER);
    s
}

/// Convert a drawing document to a complete control-code program.
/// `None` reports a malformed numeric literal (the conversion fails
/// atomically; there is no partial result).
pub fn process(dxf_contents: &str) -> (r: Option<String>)
    ensures
        r matches Some(s) ==> spec_process(dxf_contents@) == Some(s@),
        r is None <==> spec_process(dxf_contents@) is None,
{
    match crate::gcode::dxf_to_gcode(dxf_contents) {
        None => None,
        Some(body) => Some(wrap_gcode(body.as_str())),
    }
}

/// Convert a bitmap document to a complete control-code program; a
/// document the library does not accept (undecodable, unsupported, or
/// with out-of-range header geometry — see
/// `bitmap::spec_bmp_safe`) yields the bare preamble and postamble.
pub fn process_bmp(bmp_contents: &[u8], dpi: u16) -> (r: String)
    requires
        dpi >= 1,
    ensures
        r@ == spec_wrap(crate::bitmap::spec_bmp_gcode(bmp_contents@, dpi as int)),
{
    let body: String = crate::bitmap::bmp_to_gcode(bmp_contents, dpi);
    wrap_gcode(body.as_str())
}

} // verus!
