//! Raster-image conversion: a scan-line brightness-threshold emitter.
//!
//! The bitmap itself is decoded by the `bmp` crate behind one trusted
//! wrapper; the scan-line walk, the brightness threshold and the
//! millimetre arithmetic are verified integer code.  Rows are walked
//! top to bottom, alternating direction (boustrophedon); a move is
//! emitted whenever the laser power changes, at `25.4 / dpi`
//! millimetres per pixel, rendered at two decimals.
use vstd::prelude::*;
use vstd::string::StringExecFns;
use crate::num::{rdiv, round_div};
use crate::gcode::{spec_dec, spec_fmt_h, dec_str, fmt_hundredths};

verus! {

/// A decoded raster image: dimensions and pixels in row-major order,
/// top row first, as (red, green, blue) triples.
pub struct Bitmap {
    pub width: u32,
    pub height: u32,
    pub pixels: Vec<(u8, u8, u8)>,
}

/// One pixel per cell, top row first.
pub open spec fn wf_bitmap(b: Bitmap) -> bool {
    b.pixels@.len() == (b.width as int) * (b.height as int)
}

/// What the bitmap decoder yields for a byte stream: dimensions and
/// row-major pixels, or nothing for an undecodable stream.  The
/// result depends on the bytes alone.
pub uninterp spec fn decoded_image(data: Seq<u8>) -> Option<(u32, u32, Seq<(u8, u8, u8)>)>;

/// A little-endian 16-bit field of the stream.
pub open spec fn le16(d: Seq<u8>, i: int) -> int {
    d[i] + 0x100 * d[i + 1]
}

/// A little-endian 32-bit field of the stream.
pub open spec fn le32(d: Seq<u8>, i: int) -> int {
    d[i] + 0x100 * d[i + 1] + 0x1_0000 * d[i + 2] + 0x100_0000 * d[i + 3]
}

/// A bitmap stream this library accepts: one the decoder both handles
/// and indexes safely.  The checks follow the decoder's own reads:
/// the magic bytes; a version 3/4/5 header (size 40, 108 or 124); no
/// compression (type 1, 2 or 3); a supported colour depth (1, 4, 8 or
/// 24 bits per pixel); dimensions whose 32-bit absolute values are
/// well defined; positive dimensions with a bounded pixel count, and
/// a bounded palette size (the decoder allocates and walks both up
/// front); for palette depths, a palette covering
/// every representable index (the decoder indexes it by raw pixel
/// bits) and every pixel row lying inside the stream (the decoder
/// slices rows at header-derived offsets); and no palette on 24-bit
/// streams (the decoder's bit arithmetic cannot take that shape).
/// Streams outside this set are rejected up front and convert to an
/// empty command stream; the decoder itself would refuse most of
/// them, and could crash on the out-of-range ones.
pub open spec fn spec_bmp_safe(d: Seq<u8>) -> bool {
    &&& d.len() >= 54
    &&& d[0] == 66
    &&& d[1] == 77
    &&& ({
        let off = le32(d, 10);
        let hs = le32(d, 14);
        let wr = le32(d, 18);
        let hr = le32(d, 22);
        let bpp = le16(d, 28);
        let comp = le32(d, 30);
        let ncol = le32(d, 46);
        let w = if wr >= 0x8000_0000 { 0x1_0000_0000 - wr } else { wr };
        let h = if hr >= 0x8000_0000 { 0x1_0000_0000 - hr } else { hr };
        &&& (hs == 40 || hs == 108 || hs == 124)
        &&& comp != 1
        &&& comp != 2
        &&& comp != 3
        &&& (bpp == 1 || bpp == 4 || bpp == 8 || bpp == 24)
        &&& wr != 0x8000_0000
        &&& hr != 0x8000_0000
        &&& 1 <= w
        &&& 1 <= h
        &&& w * h <= 0x100_0000
        &&& ncol <= 1024
        &&& (bpp == 24 ==> ncol == 0)
        &&& (bpp != 24 ==> ({
            let cover = if bpp == 1 { 2int } else if bpp == 4 { 16int } else { 256int };
            let entries = if ncol != 0 { ncol } else { cover };
            let bpr = (w * bpp + 7) / 8;
            let pad = if bpr % 4 == 0 { 0int } else { 4 - bpr % 4 };
            &&& entries >= cover
            &&& off + (bpr + pad) * (h - 1) + bpr <= d.len()
        }))
    })
}

/// A little-endian 16-bit field, executably.
fn rd16(data: &[u8], i: usize) -> (r: u64)
    requires
        i + 2 <= data@.len(),
    ensures
        r == le16(data@, i as int),
        r < 0x1_0000,
{
    (data[i] as u64) + 0x100 * (data[i + 1] as u64)
}

/// A little-endian 32-bit field, executably.
fn rd32(data: &[u8], i: usize) -> (r: u64)
    requires
        i + 4 <= data@.len(),
    ensures
        r == le32(data@, i as int),
        r < 0x1_0000_0000,
{
    (data[i] as u64) + 0x100 * (data[i + 1] as u64) + 0x1_0000 * (data[i + 2] as u64)
        + 0x100_0000 * (data[i + 3] as u64)
}

/// Whether the library accepts this bitmap stream.
pub fn bmp_stream_safe(data: &[u8]) -> (r: bool)
    ensures
        r == spec_bmp_safe(data@),
{
    if data.len() < 54 {
        return false;
    }
    if data[0] != 66 || data[1] != 77 {
        return false;
    }
    let off: u64 = rd32(data, 10);
    let hs: u64 = rd32(data, 14);
    let wr: u64 = rd32(data, 18);
    let hr: u64 = rd32(data, 22);
    let bpp: u64 = rd16(data, 28);
    let comp: u64 = rd32(data, 30);
    let ncol: u64 = rd32(data, 46);
    let w: u64 = if wr >= 0x8000_0000 { 0x1_0000_0000 - wr } else { wr };
    let h: u64 = if hr >= 0x8000_0000 { 0x1_0000_0000 - hr } else { hr };
    if !(hs == 40 || hs == 108 || hs == 124) {
        return false;
    }
    if comp == 1 || comp == 2 || comp == 3 {
        return false;
    }
    if !(bpp == 1 || bpp == 4 || bpp == 8 || bpp == 24) {
        return false;
    }
    if wr == 0x8000_0000 || hr == 0x8000_0000 {
        return false;
    }
    if w < 1 || h < 1 {
        return false;
    }
    proof {
        assert(0 <= w * h && w * h <= 0x1_0000_0000 * 0x1_0000_0000) by (nonlinear_arith)
            requires 0 <= w < 0x1_0000_0000, 0 <= h < 0x1_0000_0000;
    }
    if (w as u128) * (h as u128) > 0x100_0000 {
        return false;
    }
    if ncol > 1024 {
        return false;
    }
    if bpp == 24 {
        return ncol == 0;
    }
    let cover: u64 = if bpp == 1 { 2 } else if bpp == 4 { 16 } else { 256 };
    let entries: u64 = if ncol != 0 { ncol } else { cover };
    if entries < cover {
        return false;
    }
    let bpr: u128 = ((w as u128) * (bpp as u128) + 7) / 8;
    let pad: u128 = if bpr % 4 == 0 { 0 } else { 4 - bpr % 4 };
    proof {
        assert(0 <= w * bpp && w * bpp <= 0x1_0000_0000 * 24) by (nonlinear_arith)
            requires 0 <= w < 0x1_0000_0000, 0 <= bpp <= 24;
        assert((bpr + pad) * (h - 1) <= (0x1_0000_0000 * 24 + 10) * 0x1_0000_0000)
            by (nonlinear_arith)
            requires 0 <= bpr + pad <= 0x1_0000_0000 * 24 + 10, 0 <= h - 1 < 0x1_0000_0000;
        assert(0 <= (bpr + pad) * (h - 1)) by (nonlinear_arith)
            requires 0 <= bpr + pad, 0 <= h - 1;
    }
    (off as u128) + (bpr + pad) * ((h as u128) - 1) + bpr <= data.len() as u128
}

/// Relies on `bmp::from_reader` (decodes a bitmap document; an error
/// for an undecodable one) and on `bmp::Image::{get_width, get_height,
/// get_pixel, coordinates}`: the coordinate iterator walks every cell
/// of the width-by-height grid, column fastest, top row first, so the
/// copied-out pixel vector is row-major and full.  The caller must
/// have validated the stream (`spec_bmp_safe`): on that domain the
/// decoder's row slices and palette lookups stay in range and its
/// size arithmetic cannot overflow, so the call returns normally.
#[verifier::external_body]
fn decode_bitmap(data: &[u8]) -> (r: Option<Bitmap>)
    requires
        spec_bmp_safe(data@),
    ensures
        decoded_image(data@) is Some <==> r is Some,
        r matches Some(b) ==> decoded_image(data@) matches Some(d)
            && b.width == d.0 && b.height == d.1 && b.pixels@ == d.2
            && b.pixels@.len() == (b.width as int) * (b.height as int),
{
    let mut reader: &[u8] = data;
    match bmp::from_reader(&mut reader) {
        Ok(image) => {
            let width = image.get_width();
            let height = image.get_height();
            let mut pixels: Vec<(u8, u8, u8)> = Vec::new();
            for (x, y) in image.coordinates() {
                let p = image.get_pixel(x, y);
                pixels.push((p.r, p.g, p.b));
            }
            Some(Bitmap { width, height, pixels })
        },
        Err(_) => None,
    }
}

/// The brightness of a pixel: the mean of its three channels.
pub open spec fn spec_greyscale(p: (u8, u8, u8)) -> int {
    (p.0 + p.1 + p.2) / 3
}

/// The laser power a pixel asks for: full power for black.
pub open spec fn spec_power(p: (u8, u8, u8)) -> int {
    255 - spec_greyscale(p)
}

/// The brightness of a pixel as executable code.
pub fn to_greyscale(p: (u8, u8, u8)) -> (r: u8)
    ensures
        r == spec_greyscale(p),
{
    (((p.0 as u16) + (p.1 as u16) + (p.2 as u16)) / 3) as u8
}

/// One emitted command for a cell: a positioning move when the laser
/// was off, a cutting move at the previous power otherwise.
pub open spec fn spec_cell_line(xb: int, y: int, w: int, h: int, dpi: int, last: int)
    -> Seq<char> {
    let hx = rdiv(xb * 2540, dpi);
    let hy = rdiv((h - 1 - y) * 2540, dpi);
    if last == 0 {
        "M05 F2000 X"@ + spec_fmt_h(hx) + " Y"@ + spec_fmt_h(hy) + "\n"@
    } else {
        "M03 F1000 X"@ + spec_fmt_h(hx) + " Y"@ + spec_fmt_h(hy) + " S"@ + spec_dec(last)
            + "\n"@
    }
}

/// The command stream of the scan from cell `i` on, with the laser at
/// power `last`.  Cell `i` sits at row `i / w`; its column alternates
/// direction row by row.  A cell whose power matches the current one
/// is skipped, except at the row edges while the laser is on.
pub open spec fn spec_image_gcode(w: int, h: int, px: Seq<(u8, u8, u8)>, dpi: int, i: int,
    last: int) -> Seq<char>
    decreases w * h - i,
{
    if w <= 0 || i < 0 || i >= w * h {
        Seq::empty()
    } else {
        let y = i / w;
        let x = i % w;
        let xb = if y % 2 == 1 { w - 1 - x } else { x };
        let power = spec_power(px[y * w + xb]);
        if power == last && ((xb != 0 && xb != w - 1) || last == 0) {
            spec_image_gcode(w, h, px, dpi, i + 1, last)
        } else {
            spec_cell_line(xb, y, w, h, dpi, last) + spec_image_gcode(w, h, px, dpi, i + 1,
                power)
        }
    }
}

/// Emit the scan-line command stream of a decoded bitmap.
pub fn process_image(bitmap: &Bitmap, dpi: u16) -> (r: String)
    requires
        wf_bitmap(*bitmap),
        dpi >= 1,
    ensures
        r@ == spec_image_gcode(bitmap.width as int, bitmap.height as int, bitmap.pixels@,
            dpi as int, 0, 0),
{
    let ghost w = bitmap.width as int;
    let ghost h = bitmap.height as int;
    let ghost px = bitmap.pixels@;
    let mut s: String = String::new();
    let n: usize = bitmap.pixels.len();
    let mut i: usize = 0;
    let mut last: u8 = 0;
    proof {
        assert(w * h == px.len());
    }
    if bitmap.width == 0 {
        proof {
            assert(s@ =~= spec_image_gcode(w, h, px, dpi as int, 0, 0));
        }
        return s;
    }
    while i < n
        invariant
            0 <= i <= n,
            n == px.len(),
            w == bitmap.width as int,
            h == bitmap.height as int,
            px == bitmap.pixels@,
            w >= 1,
            dpi >= 1,
            w * h == px.len(),
            s@ + spec_image_gcode(w, h, px, dpi as int, i as int, last as int)
                == spec_image_gcode(w, h, px, dpi as int, 0, 0),
        decreases n - i,
    {
        let ghost s0 = s@;
        let wu: usize = bitmap.width as usize;
        let y: usize = i / wu;
        let x: usize = i % wu;
        proof {
            assert(y * w + (w - 1 - x) < px.len() && y * w + x < px.len()
                && y < h) by (nonlinear_arith)
                requires
                    w >= 1,
                    y == i as int / w,
                    x == i as int % w,
                    0 <= i < px.len(),
                    w * h == px.len();
        }
        let xb: usize = if y % 2 == 1 { wu - 1 - x } else { x };
        let p: (u8, u8, u8) = bitmap.pixels[y * wu + xb];
        let power: u8 = 255 - to_greyscale(p);
        if power == last && ((xb != 0 && xb != wu - 1) || last == 0) {
            // skipped cell
        } else {
            proof {
                assert((h - 1 - y) * 2540 <= 2540 * 0x1_0000_0000 && 0 <= (h - 1 - y) * 2540)
                    by (nonlinear_arith)
                    requires 0 <= y < h <= 0x1_0000_0000;
                assert(xb * 2540 <= 2540 * 0x1_0000_0000) by (nonlinear_arith)
                    requires 0 <= xb <= 0x1_0000_0000;
            }
            let hx: i128 = round_div((xb as i128) * 2540, dpi as i128);
            let hy: i128 = round_div((((bitmap.height as i128) - 1) - (y as i128)) * 2540,
                dpi as i128);
            let mut line: String = if last == 0 {
                String::from_str("M05 F2000 X")
            } else {
                String::from_str("M03 F1000 X")
            };
            let fx: String = fmt_hundredths(hx as u64);
            line.append(fx.as_str());
            line.append(" Y");
            let fy: String = fmt_hundredths(hy as u64);
            line.append(fy.as_str());
            if last == 0 {
                line.append("\n");
            } else {
                line.append(" S");
                let dp: String = dec_str(last as u64);
                line.append(dp.as_str());
                line.append("\n");
            }
            proof {
                assert(line@ =~= spec_cell_line(xb as int, y as int, w, h, dpi as int,
                    last as int));
            }
            s.append(line.as_str());
            last = power;
            proof {
                assert(s0 + (line@
                    + spec_image_gcode(w, h, px, dpi as int, i as int + 1, power as int))
                    =~= s@ + spec_image_gcode(w, h, px, dpi as int, i as int + 1,
                        power as int));
            }
        }
        i = i + 1;
    }
    proof {
        assert(s@ + Seq::<char>::empty() =~= s@);
    }
    s
}

/// Convert a bitmap document to its raw command stream; a stream the
/// library does not accept (see `spec_bmp_safe`), or one the decoder
/// rejects, yields no commands.
pub fn bmp_to_gcode(bmp_contents: &[u8], dpi: u16) -> (r: String)
    requires
        dpi >= 1,
    ensures
        r@ == spec_bmp_gcode(bmp_contents@, dpi as int),
{
    if !bmp_stream_safe(bmp_contents) {
        let s = String::new();
        proof {
            assert(s@ =~= spec_bmp_gcode(bmp_contents@, dpi as int));
        }
        return s;
    }
    match decode_bitmap(bmp_contents) {
        Some(image) => process_image(&image, dpi),
        None => {
            let s = String::new();
            proof {
                assert(s@ =~= spec_bmp_gcode(bmp_contents@, dpi as int));
            }
            s
        },
    }
}

/// The raster conversion of a byte stream.
pub open spec fn spec_bmp_gcode(data: Seq<u8>, dpi: int) -> Seq<char> {
    if !spec_bmp_safe(data) {
        Seq::empty()
    } else {
        match decoded_image(data) {
            None => Seq::empty(),
            Some(d) => spec_image_gcode(d.0 as int, d.1 as int, d.2, dpi, 0, 0),
        }
    }
}

} // verus!
