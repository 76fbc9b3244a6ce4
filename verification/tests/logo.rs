use bc_mur::{Error, LogoLayout, demultiply_alpha, validate_clear_border};

#[test]
fn clear_border_validation() {
    assert!(validate_clear_border(0).is_ok());
    assert!(validate_clear_border(5).is_ok());
    assert!(validate_clear_border(6).is_err());
}

#[test]
fn clear_border_error_message() {
    match validate_clear_border(12) {
        Err(Error::InvalidParameter(m)) => assert_eq!(m, "clear_border must be 0–5, got 12"),
        other => panic!("unexpected {:?}", other),
    }
}

#[test]
fn demultiply_identity() {
    let data = vec![255, 128, 0, 255]; // fully opaque
    let out = demultiply_alpha(&data);
    assert_eq!(out, data);
}

#[test]
fn demultiply_transparent() {
    let data = vec![0, 0, 0, 0];
    let out = demultiply_alpha(&data);
    assert_eq!(out, vec![0, 0, 0, 0]);
}

#[test]
fn demultiply_half_alpha() {
    // (64 * 255 + 64) / 128 = 128; (10 * 255 + 64) / 128 = 20
    let data = vec![64, 10, 0, 128, 7, 7, 7, 0];
    let out = demultiply_alpha(&data);
    assert_eq!(out, vec![128, 20, 0, 128, 0, 0, 0, 0]);
}

#[test]
fn logo_layout_basic() {
    // 25 * 0.25 = 6.25 → round to 6 → force odd → 7
    let l = LogoLayout::new(25, (25.0f64 * 0.25).round() as usize, 1);
    assert_eq!(l.logo_modules, 7);
    // 7 + 2*1 = 9
    assert_eq!(l.cleared_modules, 9);
}

#[test]
fn logo_layout_cap_at_40_pct() {
    // 21 * 0.40 = 8.4 → floor = 8
    let l = LogoLayout::new(21, (21.0f64 * 0.5).round() as usize, 2);
    // 21 * 0.5 = 10.5 → 11 (odd), cleared = 11+4=15 > 8 → capped
    assert!(l.cleared_modules <= 8);
}

#[test]
fn logo_layout_capped_values() {
    // capped at 8, logo 8 - 4 = 4, made odd by rounding down → 3
    let l = LogoLayout::new(21, 11, 2);
    assert_eq!(l, LogoLayout { logo_modules: 3, cleared_modules: 8 });
    // border too wide for the cap: no room left for the logo
    let l = LogoLayout::new(21, 11, 5);
    assert_eq!(l, LogoLayout { logo_modules: 0, cleared_modules: 8 });
}

#[test]
fn rgba_buffer_validation() {
    assert!(bc_mur::validate_rgba_buffer(&vec![0u8; 2 * 3 * 4], 2, 3).is_ok());
    match bc_mur::validate_rgba_buffer(&vec![0u8; 7], 2, 3) {
        Err(Error::InvalidParameter(m)) => assert_eq!(m, "pixel buffer size 7 doesn't match 2x3x4"),
        other => panic!("unexpected {:?}", other),
    }
}

#[test]
fn decode_image_reads_back_a_png() {
    let img = bc_mur::RenderedImage { pixels: vec![1, 2, 3, 255, 4, 5, 6, 255], width: 2, height: 1 };
    let png = img.to_png().unwrap();
    let decoded = bc_mur::decode_image(&png).unwrap();
    assert_eq!((decoded.width, decoded.height), (2, 1));
    assert_eq!(decoded.pixels, img.pixels);
}

#[test]
fn decode_image_refuses_garbage() {
    match bc_mur::decode_image(b"not an image") {
        Err(Error::ImageEncode(m)) => assert!(m.starts_with("failed to decode image: ")),
        other => panic!("unexpected {:?}", other.map(|_| ())),
    }
}
