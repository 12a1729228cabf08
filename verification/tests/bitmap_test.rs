use rust_cnc::bitmap::{Bitmap, process_image, to_greyscale};
use rust_cnc::process_bmp;

#[test]
fn greyscale_is_the_channel_mean() {
    assert_eq!(to_greyscale((0, 0, 0)), 0);
    assert_eq!(to_greyscale((255, 255, 255)), 255);
    assert_eq!(to_greyscale((10, 20, 40)), 23);
}

#[test]
fn scan_line_emitter_tracks_power_changes() {
    // Two pixels at 254 dpi (0.1 mm per pixel): black then white.
    // The laser starts off, so the black pixel emits a positioning
    // move; the white pixel switches it off again with one cut at the
    // previous power.
    let bm = Bitmap { width: 2, height: 1, pixels: vec![(0, 0, 0), (255, 255, 255)] };
    let out = process_image(&bm, 254);
    assert_eq!(out, "M05 F2000 X0.00 Y0.00\nM03 F1000 X0.10 Y0.00 S255\n");
}

#[test]
fn rows_alternate_direction() {
    // A 2x2 image, black only in the top-left and bottom-right cells.
    // The second row is walked right to left.
    let bm = Bitmap {
        width: 2,
        height: 2,
        pixels: vec![(0, 0, 0), (255, 255, 255), (255, 255, 255), (0, 0, 0)],
    };
    let out = process_image(&bm, 254);
    assert_eq!(
        out,
        "M05 F2000 X0.00 Y0.10\nM03 F1000 X0.10 Y0.10 S255\n\
         M05 F2000 X0.10 Y0.00\nM03 F1000 X0.00 Y0.00 S255\n"
    );
}

#[test]
fn bmp_documents_decode_and_convert() {
    // A 2x1 bitmap, black then white, rendered through the real
    // decoder at 254 dpi.
    let mut img = bmp::Image::new(2, 1);
    img.set_pixel(1, 0, bmp::Pixel::new(255, 255, 255));
    let mut bytes: Vec<u8> = Vec::new();
    img.to_writer(&mut bytes).unwrap();
    let out = process_bmp(&bytes, 254);
    assert_eq!(
        out,
        "G01\nM05 F2000 X0.00 Y0.00\nM03 F1000 X0.10 Y0.00 S255\nM05 F2000 X0 Y0"
    );
}

#[test]
fn undecodable_documents_yield_the_bare_wrapper() {
    let out = process_bmp(&[1, 2, 3, 4], 200);
    assert_eq!(out, "G01\nM05 F2000 X0 Y0");
}

/// A 54-byte version-3 header with the given geometry fields, for
/// exercising the stream validation.
fn header(pixel_offset: u32, width: i32, height: i32, bpp: u16, compression: u32,
    num_colors: u32) -> Vec<u8> {
    let mut d = vec![0u8; 54];
    d[0] = b'B';
    d[1] = b'M';
    d[2..6].copy_from_slice(&54u32.to_le_bytes());
    d[10..14].copy_from_slice(&pixel_offset.to_le_bytes());
    d[14..18].copy_from_slice(&40u32.to_le_bytes());
    d[18..22].copy_from_slice(&width.to_le_bytes());
    d[22..26].copy_from_slice(&height.to_le_bytes());
    d[26..28].copy_from_slice(&1u16.to_le_bytes());
    d[28..30].copy_from_slice(&bpp.to_le_bytes());
    d[30..34].copy_from_slice(&compression.to_le_bytes());
    d[46..50].copy_from_slice(&num_colors.to_le_bytes());
    d
}

#[test]
fn pixel_offset_past_the_stream_is_rejected() {
    // A 1-bit stream whose pixel offset points far beyond the data:
    // the row slice the decoder would take is out of range, so the
    // stream is rejected up front and converts to the bare wrapper.
    let d = header(10_000, 8, 1, 1, 0, 0);
    assert_eq!(process_bmp(&d, 200), "G01\nM05 F2000 X0 Y0");
}

#[test]
fn truncated_palette_is_rejected() {
    // A 4-bit stream claiming a one-entry palette: raw pixel bits can
    // index up to 15, beyond the palette.
    let mut d = header(54, 2, 1, 4, 0, 1);
    d.extend_from_slice(&[0u8; 8]);
    assert_eq!(process_bmp(&d, 200), "G01\nM05 F2000 X0 Y0");
}

#[test]
fn extreme_header_geometry_is_rejected() {
    // Width i32::MIN has no 32-bit absolute value.
    let d = header(54, i32::MIN, 1, 24, 0, 0);
    assert_eq!(process_bmp(&d, 200), "G01\nM05 F2000 X0 Y0");
    // An oversized pixel count.
    let d = header(54, 1 << 16, 1 << 16, 24, 0, 0);
    assert_eq!(process_bmp(&d, 200), "G01\nM05 F2000 X0 Y0");
    // An oversized palette.
    let d = header(54, 2, 1, 8, 0, u32::MAX);
    assert_eq!(process_bmp(&d, 200), "G01\nM05 F2000 X0 Y0");
    // A compressed stream.
    let d = header(54, 2, 1, 8, 1, 0);
    assert_eq!(process_bmp(&d, 200), "G01\nM05 F2000 X0 Y0");
}

#[test]
fn in_range_palette_stream_converts() {
    // A well-formed 1-bit stream: full two-entry palette (black then
    // white), one row of eight pixels, first bit set.  The stream
    // passes validation and decodes through the real decoder.
    let mut d = header(62, 8, 1, 1, 0, 0);
    d.extend_from_slice(&[0, 0, 0, 0, 255, 255, 255, 0]); // palette: black, white
    d.extend_from_slice(&[0b0111_1111, 0, 0, 0]); // one padded row
    let out = process_bmp(&d, 254);
    assert_eq!(
        out,
        "G01\nM05 F2000 X0.00 Y0.00\nM03 F1000 X0.10 Y0.00 S255\nM05 F2000 X0 Y0"
    );
}
