use bc_mur::{CorrectionLevel, LogoClearShape};
use std::str::FromStr;

#[test]
fn correction_names_parse_back() {
    for l in [
        CorrectionLevel::Low,
        CorrectionLevel::Medium,
        CorrectionLevel::Quartile,
        CorrectionLevel::High,
    ] {
        assert_eq!(CorrectionLevel::parse(l.name()).unwrap(), l);
    }
}

#[test]
fn correction_initials_and_case() {
    assert_eq!(CorrectionLevel::parse("L").unwrap(), CorrectionLevel::Low);
    assert_eq!(CorrectionLevel::parse("QuArTiLe").unwrap(), CorrectionLevel::Quartile);
    assert_eq!(CorrectionLevel::from_str("h").unwrap(), CorrectionLevel::High);
    assert_eq!(
        CorrectionLevel::parse("extreme").unwrap_err(),
        "unknown correction level: extreme (expected low, medium, quartile, or high)"
    );
}

#[test]
fn clear_shape_names() {
    assert_eq!(LogoClearShape::parse("Circle").unwrap(), LogoClearShape::Circle);
    assert_eq!(LogoClearShape::from_str("SQUARE").unwrap(), LogoClearShape::Square);
    assert_eq!(LogoClearShape::Square.name(), "square");
    assert_eq!(
        LogoClearShape::parse("hex").unwrap_err(),
        "unknown clear shape: hex (expected square or circle)"
    );
}
