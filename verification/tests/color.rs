use bc_mur::{Color, Error, hex_byte, hex_nibble};

#[test]
fn parse_hex_6() {
    let c = Color::from_hex("#FF8000").unwrap();
    assert_eq!(c, Color::new(255, 128, 0, 255));
}

#[test]
fn parse_hex_8() {
    let c = Color::from_hex("#FF800080").unwrap();
    assert_eq!(c, Color::new(255, 128, 0, 128));
}

#[test]
fn parse_hex_3() {
    let c = Color::from_hex("#F80").unwrap();
    assert_eq!(c, Color::new(0xFF, 0x88, 0x00, 255));
}

#[test]
fn display_rgb() {
    assert_eq!(Color::black().to_hex_string(), "#000000");
}

#[test]
fn display_rgba() {
    assert_eq!(Color::new(255, 128, 0, 128).to_hex_string(), "#FF800080");
}

#[test]
fn invalid_color_hex() {
    assert!(Color::from_hex("#ZZZZZZ").is_err());
}

#[test]
fn parse_hex_without_hash_and_lower_case() {
    assert_eq!(Color::from_hex("ff8000").unwrap(), Color::new(255, 128, 0, 255));
    assert_eq!(Color::from_hex("#abc").unwrap(), Color::new(0xAA, 0xBB, 0xCC, 255));
}

#[test]
fn invalid_digit_message_names_the_byte() {
    match Color::from_hex("#12G456") {
        Err(Error::InvalidColor(m)) => assert_eq!(m, "invalid hex digit: 71"),
        other => panic!("unexpected {:?}", other),
    }
}

#[test]
fn invalid_length_message_quotes_with_one_hash() {
    match Color::from_hex("#12345") {
        Err(Error::InvalidColor(m)) => {
            assert_eq!(m, "expected #RGB, #RRGGBB, or #RRGGBBAA, got: #12345")
        }
        other => panic!("unexpected {:?}", other),
    }
    match Color::from_hex("1234") {
        Err(Error::InvalidColor(m)) => {
            assert_eq!(m, "expected #RGB, #RRGGBB, or #RRGGBBAA, got: #1234")
        }
        other => panic!("unexpected {:?}", other),
    }
}

#[test]
fn hex_text_round_trip() {
    for c in [
        Color::new(1, 2, 3, 255),
        Color::new(0xDE, 0xAD, 0xBE, 0xEF),
        Color::white(),
        Color::transparent(),
    ] {
        assert_eq!(Color::from_hex(&c.to_hex_string()).unwrap(), c);
    }
}

#[test]
fn constants_and_transparency() {
    assert_eq!(Color::white(), Color::new(255, 255, 255, 255));
    assert_eq!(Color::transparent(), Color::new(0, 0, 0, 0));
    assert!(Color::new(9, 9, 9, 2).is_transparent());
    assert!(!Color::new(9, 9, 9, 3).is_transparent());
}

#[test]
fn nibbles_and_bytes() {
    assert_eq!(hex_nibble(b'7').unwrap(), 7);
    assert_eq!(hex_nibble(b'e').unwrap(), 14);
    assert_eq!(hex_nibble(b'E').unwrap(), 14);
    assert!(hex_nibble(b'g').is_err());
    assert_eq!(hex_byte(0xA, 0x5), 0xA5);
}
