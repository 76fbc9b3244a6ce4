use bc_mur::{AnimateParams, Error, LogoOverlay, encode_animated_gif, generate_frames, plan_frame_count, quantize_frame};

type Preparer = fn(usize, usize) -> Option<LogoOverlay>;
const NO_LOGO: Option<&Preparer> = None;

/// Build a valid UR with a large CBOR payload that requires
/// multipart encoding.
fn long_ur() -> bc_ur::UR {
    // 500 bytes of deterministic data, wrapped as CBOR
    let data: Vec<u8> = (0u16..500).map(|i| (i % 256) as u8).collect();
    let cbor: dcbor::CBOR = data.into();
    bc_ur::UR::new("bytes", cbor).unwrap()
}

fn delay_for_fps(fps: f64) -> u16 {
    (100.0 / fps).round() as u16
}

#[test]
fn animated_gif_basic() {
    let ur = long_ur();
    let params = AnimateParams { max_fragment_len: 50, size: 256, cycles: 2, ..Default::default() };
    let frames = generate_frames(&ur, &params, NO_LOGO).unwrap();
    assert!(frames.len() >= 2, "expected multiple frames");
    let gif = encode_animated_gif(&frames, delay_for_fps(4.0), false).unwrap();
    // GIF magic: GIF89a
    assert_eq!(&gif[..6], b"GIF89a");
    assert!(gif.len() > 100);
}

#[test]
fn frame_indices_count_from_zero() {
    let ur = long_ur();
    let params = AnimateParams { max_fragment_len: 50, size: 64, cycles: 1, ..Default::default() };
    let frames = generate_frames(&ur, &params, NO_LOGO).unwrap();
    for (i, f) in frames.iter().enumerate() {
        assert_eq!(f.index, i);
        assert_eq!(f.image.width, 64);
    }
}

#[test]
fn insufficient_frames_error() {
    let ur = long_ur();
    let params = AnimateParams { max_fragment_len: 50, frame_count: Some(1), ..Default::default() };
    let result = generate_frames(&ur, &params, NO_LOGO);
    assert!(result.is_err());
    let err = result.err().unwrap();
    assert!(matches!(err, Error::InsufficientFrames { .. }), "expected InsufficientFrames, got {err:?}");
}

#[test]
fn frame_count_exact() {
    let ur = long_ur();
    // Use enough frames (>= parts_count) — should succeed.
    let params = AnimateParams { max_fragment_len: 50, frame_count: Some(100), ..Default::default() };
    let frames = generate_frames(&ur, &params, NO_LOGO).unwrap();
    assert_eq!(frames.len(), 100);
}

#[test]
fn animate_density_check() {
    let ur = long_ur();
    let params = AnimateParams {
        max_fragment_len: 500, // one huge fragment → dense QR
        max_modules: Some(21), // absurdly tight limit
        ..Default::default()
    };
    let result = generate_frames(&ur, &params, NO_LOGO);
    assert!(result.is_err());
    let err = result.err().unwrap();
    assert!(matches!(err, Error::QrCodeTooDense { .. }), "expected QrCodeTooDense, got {err:?}");
}

#[test]
fn zero_fragment_length_is_refused() {
    let ur = long_ur();
    let params = AnimateParams { max_fragment_len: 0, ..Default::default() };
    assert!(matches!(generate_frames(&ur, &params, NO_LOGO), Err(Error::Ur(_))));
}

#[test]
fn plan_frame_count_values() {
    assert_eq!(plan_frame_count(11, None, 3).unwrap(), 33);
    assert_eq!(plan_frame_count(11, Some(11), 3).unwrap(), 11);
    match plan_frame_count(11, Some(4), 3) {
        Err(Error::InsufficientFrames { requested, fragments }) => {
            assert_eq!((requested, fragments), (4, 11));
        }
        other => panic!("unexpected {:?}", other),
    }
    assert!(matches!(plan_frame_count(11, None, 0), Err(Error::InsufficientFrames { .. })));
}

#[test]
fn default_params() {
    let p = AnimateParams::default();
    assert_eq!(p.max_fragment_len, 100);
    assert_eq!(p.size, 512);
    assert_eq!(p.quiet_zone, 1);
    assert_eq!(p.cycles, 3);
    assert_eq!(p.effective_correction(false), bc_mur::CorrectionLevel::Low);
    assert_eq!(p.effective_correction(true), bc_mur::CorrectionLevel::Quartile);
}

#[test]
fn quantize_exact_palette() {
    // red, blue, red, green
    let rgba = vec![255, 0, 0, 255, 0, 0, 255, 255, 255, 0, 0, 255, 0, 255, 0, 255];
    let (palette, indexed) = quantize_frame(&rgba, 2, 2);
    assert_eq!(palette, vec![255, 0, 0, 0, 0, 255, 0, 255, 0]);
    assert_eq!(indexed, vec![0, 1, 0, 2]);
}

#[test]
fn quantize_many_colors_uses_full_palette() {
    let mut rgba = Vec::new();
    for i in 0..600u32 {
        rgba.extend_from_slice(&[(i % 256) as u8, (i / 256) as u8, 7, 255]);
    }
    let (palette, indexed) = quantize_frame(&rgba, 600, 1);
    assert_eq!(palette.len(), 256 * 3);
    assert_eq!(indexed.len(), 600);
}

#[test]
fn empty_frames_are_refused() {
    match encode_animated_gif(&Vec::new(), 10, false) {
        Err(Error::InvalidParameter(m)) => assert_eq!(m, "no frames to encode"),
        other => panic!("unexpected {:?}", other),
    }
}

#[test]
fn smaller_later_frame_is_a_gif_error() {
    let big = bc_mur::RenderedImage { pixels: vec![0u8; 2 * 2 * 4], width: 2, height: 2 };
    let small = bc_mur::RenderedImage { pixels: vec![0u8; 4], width: 1, height: 1 };
    let frames = vec![bc_mur::QrFrame { image: big, index: 0 }, bc_mur::QrFrame { image: small, index: 1 }];
    match encode_animated_gif(&frames, 10, false) {
        Err(Error::GifEncode(m)) => assert!(m.starts_with("GIF write frame: ")),
        other => panic!("unexpected {:?}", other.map(|b| b.len())),
    }
}

fn small_logo_overlay(n: usize, ppm: usize) -> Option<LogoOverlay> {
    let layout = bc_mur::LogoLayout::new(n, 5, 1);
    let side = layout.logo_modules * ppm;
    let mut pixels = Vec::with_capacity(side * side * 4);
    for i in 0..side * side {
        pixels.extend_from_slice(&[(i % 251) as u8, (i % 241) as u8, (i % 239) as u8, 255]);
    }
    Some(LogoOverlay { layout, clear_shape: bc_mur::LogoClearShape::Square, pixels })
}

#[test]
fn animated_gif_with_logo() {
    let ur = long_ur();
    let params = AnimateParams { max_fragment_len: 50, size: 256, cycles: 1, ..Default::default() };
    let frames = generate_frames(&ur, &params, Some(&(small_logo_overlay as Preparer))).unwrap();
    let gif = encode_animated_gif(&frames, delay_for_fps(4.0), true).unwrap();
    assert_eq!(&gif[..6], b"GIF89a");
}

#[test]
fn frames_show_the_fountain_parts_in_order() {
    let ur = long_ur();
    let params = AnimateParams { max_fragment_len: 50, size: 96, cycles: 2, ..Default::default() };
    let frames = generate_frames(&ur, &params, NO_LOGO).unwrap();
    let mut encoder = bc_ur::MultipartEncoder::new(&ur, 50).unwrap();
    assert_eq!(frames.len(), encoder.parts_count() * 2);
    for frame in &frames {
        let part = encoder.next_part().unwrap();
        let expected = bc_mur::render_ur_qr(
            &part,
            bc_mur::CorrectionLevel::Low,
            96,
            bc_mur::Color::black(),
            bc_mur::Color::white(),
            1,
            NO_LOGO,
        )
        .unwrap();
        assert_eq!(frame.image.pixels, expected.pixels);
    }
}

#[test]
fn gif_without_logo_uses_a_global_palette() {
    let ur = long_ur();
    let params = AnimateParams { max_fragment_len: 50, size: 64, cycles: 1, ..Default::default() };
    let frames = generate_frames(&ur, &params, NO_LOGO).unwrap();
    let gif = encode_animated_gif(&frames, 25, false).unwrap();
    // Logical screen: 64 x 64, global color table present.
    assert_eq!(&gif[6..10], &[64, 0, 64, 0]);
    assert_eq!(gif[10] & 0x80, 0x80);
    // Black and white come first in the global palette (two colors, padded to two entries).
    assert_eq!(&gif[13..19], &[255, 255, 255, 0, 0, 0]);
    assert_eq!(*gif.last().unwrap(), 0x3B);
}

#[test]
fn gif_with_many_colors_uses_local_palettes() {
    let mut pixels = Vec::new();
    for i in 0..600u32 {
        pixels.extend_from_slice(&[(i % 256) as u8, (i / 256) as u8, 7, 255]);
    }
    let frames = vec![bc_mur::QrFrame {
        image: bc_mur::RenderedImage { pixels, width: 600, height: 1 },
        index: 0,
    }];
    let gif = encode_animated_gif(&frames, 10, false).unwrap();
    assert_eq!(&gif[..6], b"GIF89a");
    // The frame carries its own 256-entry palette.
    assert!(gif.len() > 256 * 3);
}

#[test]
fn gif_with_logo_uses_per_frame_palettes() {
    let ur = long_ur();
    let params = AnimateParams { max_fragment_len: 50, size: 64, cycles: 1, ..Default::default() };
    let frames = generate_frames(&ur, &params, NO_LOGO).unwrap();
    let global = encode_animated_gif(&frames, 25, false).unwrap();
    let local = encode_animated_gif(&frames, 25, true).unwrap();
    assert_eq!(&local[..6], b"GIF89a");
    assert_ne!(global, local);
}

#[test]
fn gif_frames_follow_in_order_with_their_delay() {
    let ur = long_ur();
    let params = AnimateParams { max_fragment_len: 50, size: 32, cycles: 1, ..Default::default() };
    let frames = generate_frames(&ur, &params, NO_LOGO).unwrap();
    let gif = encode_animated_gif(&frames, 13, false).unwrap();
    // One graphic control extension per frame, each with a delay of 13 centiseconds.
    let controls = gif.windows(4).filter(|w| w[0] == 0x21 && w[1] == 0xF9 && w[2] == 4).count();
    assert_eq!(controls, frames.len());
    let delays = gif
        .windows(6)
        .filter(|w| w[0] == 0x21 && w[1] == 0xF9 && w[2] == 4 && w[4] == 13 && w[5] == 0)
        .count();
    assert_eq!(delays, frames.len());
}
