use bc_mur::{
    Color, CorrectionLevel, LogoClearShape, LogoLayout, LogoOverlay, QrMatrix, fill_rect,
    nearest_neighbor_scale, render_from_matrix, render_matrix_overlay, render_qr, render_ur_qr,
};

type Preparer = fn(usize, usize) -> Option<LogoOverlay>;
const NO_LOGO: Option<&Preparer> = None;

const SHORT_UR: &str = "ur:bytes/hdcxdwinvezm";

fn pixel(img: &bc_mur::RenderedImage, x: u32, y: u32) -> [u8; 4] {
    let o = ((y * img.width + x) * 4) as usize;
    [img.pixels[o], img.pixels[o + 1], img.pixels[o + 2], img.pixels[o + 3]]
}

#[test]
fn render_basic_qr() {
    let img = render_qr(b"HELLO", CorrectionLevel::Low, 256, Color::black(), Color::white(), 1, NO_LOGO)
        .unwrap();
    assert_eq!(img.width, 256);
    assert_eq!(img.height, 256);
    assert_eq!(img.pixels.len(), 256 * 256 * 4);
}

#[test]
fn render_to_png() {
    let img = render_qr(b"TEST", CorrectionLevel::Medium, 128, Color::black(), Color::white(), 1, NO_LOGO)
        .unwrap();
    let png = img.to_png().unwrap();
    // PNG magic bytes
    assert_eq!(&png[..4], &[137, 80, 78, 71]);
}

#[test]
fn render_ur_qr_uppercases() {
    let img = render_ur_qr(
        "ur:bytes/hdcxdwinvezm",
        CorrectionLevel::Low,
        256,
        Color::black(),
        Color::white(),
        1,
        NO_LOGO,
    )
    .unwrap();
    assert_eq!(img.width, 256);
    let upper = render_ur_qr(
        "UR:BYTES/HDCXDWINVEZM",
        CorrectionLevel::Low,
        256,
        Color::black(),
        Color::white(),
        1,
        NO_LOGO,
    )
    .unwrap();
    assert_eq!(img.pixels, upper.pixels);
}

#[test]
fn single_frame_png_dimensions() {
    let img = render_ur_qr(SHORT_UR, CorrectionLevel::Low, 512, Color::black(), Color::white(), 1, NO_LOGO)
        .unwrap();
    assert_eq!(img.width, 512);
    assert_eq!(img.height, 512);

    let png = img.to_png().unwrap();
    assert!(png.len() > 100); // valid PNG, non-trivial
    assert_eq!(&png[..4], &[137, 80, 78, 71]); // PNG magic
}

#[test]
fn single_frame_jpeg() {
    let img = render_ur_qr(SHORT_UR, CorrectionLevel::Medium, 256, Color::black(), Color::white(), 1, NO_LOGO)
        .unwrap();
    let jpeg = img.to_jpeg(85).unwrap();
    // JPEG magic: FF D8 FF
    assert_eq!(&jpeg[..3], &[0xFF, 0xD8, 0xFF]);
}

#[test]
fn single_frame_custom_colors() {
    let img = render_qr(
        b"HELLO",
        CorrectionLevel::High,
        128,
        Color::from_hex("#0000FF").unwrap(),
        Color::from_hex("#FFFF00").unwrap(),
        1,
        NO_LOGO,
    )
    .unwrap();
    assert_eq!(img.width, 128);
    // Verify some pixels have the expected foreground color
    let has_blue = img.pixels.chunks_exact(4).any(|px| px[0] == 0 && px[1] == 0 && px[2] == 255);
    assert!(has_blue, "expected blue foreground pixels");
}

#[test]
fn single_frame_dark_mode() {
    let img = render_ur_qr(SHORT_UR, CorrectionLevel::Low, 256, Color::white(), Color::black(), 1, NO_LOGO)
        .unwrap();
    // Corner pixel should be background (black) — quiet zone
    assert_eq!(img.pixels[0], 0); // R
    assert_eq!(img.pixels[1], 0); // G
    assert_eq!(img.pixels[2], 0); // B
}

#[test]
fn single_frame_quiet_zone_0() {
    // No quiet zone — all modules touch the edge
    let img = render_qr(b"HELLO", CorrectionLevel::Low, 256, Color::black(), Color::white(), 0, NO_LOGO)
        .unwrap();
    assert_eq!(img.width, 256);
    // the finder pattern's corner module is dark and touches the edge
    assert_eq!(pixel(&img, 0, 0), [0, 0, 0, 255]);
}

#[test]
fn single_frame_quiet_zone_4() {
    // Wide quiet zone
    let img = render_qr(b"HELLO", CorrectionLevel::Low, 512, Color::black(), Color::white(), 4, NO_LOGO)
        .unwrap();
    assert_eq!(img.width, 512);
    // Corner pixel should be background (white)
    assert_eq!(img.pixels[0], 255);
}

#[test]
fn module_aligned_pixels() {
    // 21 modules + 2 quiet modules = 23 modules; 230 / 23 = 10 pixels each,
    // so no scaling happens and module (0, 0) covers pixels 10..20.
    let img = render_qr(b"HELLO", CorrectionLevel::Low, 230, Color::black(), Color::white(), 1, NO_LOGO)
        .unwrap();
    assert_eq!(pixel(&img, 9, 9), [255, 255, 255, 255]);
    assert_eq!(pixel(&img, 10, 10), [0, 0, 0, 255]);
    assert_eq!(pixel(&img, 19, 19), [0, 0, 0, 255]);
    // module (1, 1) is the light ring of the finder pattern
    assert_eq!(pixel(&img, 20, 20), [255, 255, 255, 255]);
}

fn red_overlay(n: usize, ppm: usize) -> Option<LogoOverlay> {
    let layout = LogoLayout::new(n, 5, 1);
    let side = layout.logo_modules * ppm;
    let mut pixels = Vec::new();
    for _ in 0..side * side {
        pixels.extend_from_slice(&[255, 0, 0, 255]);
    }
    Some(LogoOverlay { layout, clear_shape: LogoClearShape::Square, pixels })
}

#[test]
fn logo_overlay_is_centered() {
    // 23 modules of 10 pixels; logo 5 modules (50 px) centered on the
    // 210-pixel code area after the 10-pixel quiet zone: 10 + 80 = 90.
    let img = render_qr(
        b"HELLO",
        CorrectionLevel::High,
        230,
        Color::black(),
        Color::white(),
        1,
        Some(&(red_overlay as Preparer)),
    )
    .unwrap();
    assert_eq!(pixel(&img, 115, 115), [255, 0, 0, 255]);
    assert_eq!(pixel(&img, 90, 90), [255, 0, 0, 255]);
    assert_eq!(pixel(&img, 139, 139), [255, 0, 0, 255]);
    // the cleared border (7 modules, from pixel 80) is background
    assert_eq!(pixel(&img, 85, 85), [255, 255, 255, 255]);
    // the quiet zone stays background
    assert_eq!(pixel(&img, 0, 0), [255, 255, 255, 255]);
}

#[test]
fn circle_clear_keeps_corners_of_cleared_square() {
    let m = QrMatrix::encode(b"HELLO", CorrectionLevel::High).unwrap();
    let layout = LogoLayout::new(21, 1, 3); // logo 1, cleared 7 (capped at 8)
    assert_eq!(layout, LogoLayout { logo_modules: 1, cleared_modules: 7 });
    let overlay = LogoOverlay {
        layout,
        clear_shape: LogoClearShape::Circle,
        pixels: vec![0, 0, 0, 0].repeat(100), // fully transparent 10x10 logo
    };
    let plain = render_matrix_overlay(&m, 230, Color::black(), Color::white(), 1, None);
    let img = render_matrix_overlay(&m, 230, Color::black(), Color::white(), 1, Some(&overlay));
    // cleared modules 7..14; the center module (10, 10) is cleared
    assert_eq!(pixel(&img, 115, 115), [255, 255, 255, 255]);
    // module (7, 7) is outside the circle: unchanged
    assert_eq!(pixel(&img, 85, 85), pixel(&plain, 85, 85));
    let via_preparer = render_from_matrix(&m, 230, Color::black(), Color::white(), 1, NO_LOGO).unwrap();
    assert_eq!(via_preparer.pixels, plain.pixels);
}

#[test]
fn nearest_neighbor_scale_doubles() {
    // 2x1 source: red, blue
    let src = vec![255, 0, 0, 255, 0, 0, 255, 255];
    let dst = nearest_neighbor_scale(&src, 2, 1, 4, 2);
    assert_eq!(dst.len(), 4 * 2 * 4);
    let row: Vec<u8> = [[255, 0, 0, 255], [255, 0, 0, 255], [0, 0, 255, 255], [0, 0, 255, 255]].concat();
    assert_eq!(&dst[..16], &row[..]);
    assert_eq!(&dst[16..], &row[..]);
}

#[test]
fn fill_rect_paints_only_the_rectangle() {
    let mut buf = vec![0u8; 3 * 3 * 4];
    fill_rect(&mut buf, 3, 1, 1, 2, 1, Color::new(1, 2, 3, 4));
    for y in 0..3 {
        for x in 0..3 {
            let o = (y * 3 + x) * 4;
            let expect = if y == 1 && x >= 1 { [1, 2, 3, 4] } else { [0, 0, 0, 0] };
            assert_eq!(&buf[o..o + 4], &expect);
        }
    }
}

#[test]
fn empty_image_is_not_encoded() {
    let img = bc_mur::RenderedImage { pixels: Vec::new(), width: 0, height: 0 };
    assert!(matches!(img.to_png(), Err(bc_mur::Error::ImageEncode(_))));
    assert!(matches!(img.to_jpeg(90), Err(bc_mur::Error::ImageEncode(_))));
}

#[test]
fn jpeg_refuses_sides_over_65535() {
    let img = bc_mur::RenderedImage { pixels: vec![255u8; 70000 * 4], width: 70000, height: 1 };
    assert!(matches!(img.to_jpeg(90), Err(bc_mur::Error::ImageEncode(_))));
    assert!(img.to_png().is_ok());
}

#[test]
fn nearest_neighbor_scale_reads_only_the_image_prefix() {
    let src = vec![1, 2, 3, 4, 5, 6, 7, 8, 9, 9, 9, 9];
    let dst = nearest_neighbor_scale(&src, 2, 1, 2, 1);
    assert_eq!(dst, vec![1, 2, 3, 4, 5, 6, 7, 8]);
}

#[test]
fn fill_rect_wraps_onto_the_next_row() {
    // Rows of 2 pixels; a 2-pixel run starting at column 1 spills into row 1.
    let mut buf = vec![0u8; 3 * 2 * 4];
    fill_rect(&mut buf, 2, 1, 0, 2, 1, Color::new(9, 8, 7, 6));
    let mut expected = vec![0u8; 3 * 2 * 4];
    expected[4..12].copy_from_slice(&[9, 8, 7, 6, 9, 8, 7, 6]);
    assert_eq!(buf, expected);
}

#[test]
fn render_fit_depends_on_the_code_width() {
    // 33000 pixels with a quiet zone of 6: a version-1 code (21 modules)
    // needs no scaling; a version-2 code (25 modules) would need scaling
    // beyond 32-bit pixel arithmetic.
    assert!(bc_mur::render_fits_code(21, 33000, 6) == (usize::BITS == 64));
    assert!(!bc_mur::render_fits_code(25, 33000, 6));
    assert!(bc_mur::render_fits_code(21, 512, 1));
}

#[test]
fn too_large_image_is_an_invalid_parameter() {
    // A version-2 code at 33000 pixels needs scaling beyond 32-bit pixel arithmetic.
    let res = bc_mur::render_qr(&[b'A'; 30], CorrectionLevel::Low, 33000, Color::black(), Color::white(), 6, NO_LOGO);
    assert!(matches!(res, Err(bc_mur::Error::InvalidParameter(_))));
}

fn empty_overlay(n: usize, _ppm: usize) -> Option<LogoOverlay> {
    // A border of 5 modules leaves no room for a logo in a 21-module code.
    let layout = LogoLayout::new(n, 5, 5);
    assert_eq!(layout.logo_modules, 0);
    Some(LogoOverlay { layout, clear_shape: LogoClearShape::Square, pixels: Vec::new() })
}

#[test]
fn logo_without_modules_changes_nothing() {
    let plain = bc_mur::render_qr(b"HELLO", CorrectionLevel::Low, 100, Color::black(), Color::white(), 1, NO_LOGO).unwrap();
    let with = bc_mur::render_qr(
        b"HELLO",
        CorrectionLevel::Low,
        100,
        Color::black(),
        Color::white(),
        1,
        Some(&(empty_overlay as Preparer)),
    )
    .unwrap();
    assert_eq!(plain.pixels, with.pixels);
}
