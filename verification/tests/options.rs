use bc_mur::{
    Color, CorrectionLevel, Error, OutputFormat, check_ur_density, effective_correction,
    frame_file_name, parse_colors,
};

#[test]
fn output_format_names() {
    assert_eq!(OutputFormat::parse("png").unwrap(), OutputFormat::Png);
    assert_eq!(OutputFormat::parse("jpg").unwrap(), OutputFormat::Jpeg);
    assert_eq!(OutputFormat::parse("jpeg").unwrap(), OutputFormat::Jpeg);
    assert_eq!(OutputFormat::parse("PNG").unwrap_err(), "unknown format: PNG (expected png or jpeg)");
}

#[test]
fn dark_mode_swaps_colors() {
    let (fg, bg) = parse_colors("#000000", "#FFFFFF", false).unwrap();
    assert_eq!((fg, bg), (Color::black(), Color::white()));
    let (fg, bg) = parse_colors("#000000", "#FFFFFF", true).unwrap();
    assert_eq!((fg, bg), (Color::white(), Color::black()));
    assert!(matches!(parse_colors("#000000", "#XYZ", false), Err(Error::InvalidColor(_))));
}

#[test]
fn density_check_of_ur_strings() {
    assert!(check_ur_density("ur:bytes/hdcxdwinvezm", CorrectionLevel::Low, 117).is_ok());
    match check_ur_density("ur:bytes/hdcxdwinvezm", CorrectionLevel::Low, 20) {
        Err(Error::QrCodeTooDense { module_count, max_modules }) => {
            assert!(module_count >= 21);
            assert_eq!(max_modules, 20);
        }
        other => panic!("unexpected {:?}", other),
    }
}

#[test]
fn default_correction_depends_on_logo() {
    assert_eq!(effective_correction(None, true), CorrectionLevel::High);
    assert_eq!(effective_correction(None, false), CorrectionLevel::Low);
    assert_eq!(effective_correction(Some(CorrectionLevel::Medium), true), CorrectionLevel::Medium);
}

#[test]
fn dumped_frame_names() {
    assert_eq!(frame_file_name(0), "0000.png");
    assert_eq!(frame_file_name(7), "0007.png");
    assert_eq!(frame_file_name(1234), "1234.png");
    assert_eq!(frame_file_name(12345), "12345.png");
}
