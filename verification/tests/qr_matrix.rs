use bc_mur::{CorrectionLevel, DEFAULT_MAX_MODULES, Error, QrMatrix, check_qr_density, qr_module_count};

#[test]
fn encode_small() {
    let m = QrMatrix::encode(b"HELLO", CorrectionLevel::Low).unwrap();
    // Version 1 QR: 21x21 modules
    assert_eq!(m.width(), 21);
    assert_eq!(m.modules().len(), 21 * 21);
}

#[test]
fn encode_ur_string() {
    // UR strings are uppercased for alphanumeric QR efficiency
    let ur = "UR:BYTES/HDCXDWINVEZM";
    let m = QrMatrix::encode(ur.as_bytes(), CorrectionLevel::Low).unwrap();
    assert!(m.width() >= 21);
}

#[test]
fn finder_pattern_corner_is_dark() {
    let m = QrMatrix::encode(b"HELLO", CorrectionLevel::Low).unwrap();
    assert!(m.is_dark(0, 0));
    assert!(m.is_dark(6, 6));
    assert!(!m.is_dark(7, 7));
}

#[test]
fn too_long_message_fails_to_encode() {
    let data = vec![0xA5u8; 4000];
    match QrMatrix::encode(&data, CorrectionLevel::High) {
        Err(Error::QrEncode(_)) => {}
        Err(other) => panic!("unexpected error {:?}", other),
        Ok(_) => panic!("expected an encoding failure"),
    }
    assert!(qr_module_count(&data, CorrectionLevel::High).is_err());
}

#[test]
fn qr_module_count_small() {
    let count = qr_module_count(b"HELLO", CorrectionLevel::Low).unwrap();
    assert_eq!(count, 21); // Version 1
}

#[test]
fn check_qr_density_passes() {
    check_qr_density(21, DEFAULT_MAX_MODULES).unwrap();
}

#[test]
fn check_qr_density_fails() {
    let err = check_qr_density(150, 117).unwrap_err();
    match err {
        Error::QrCodeTooDense { module_count, max_modules } => {
            assert_eq!(module_count, 150);
            assert_eq!(max_modules, 117);
        }
        other => panic!("expected QrCodeTooDense, got {:?}", other),
    }
}

#[test]
fn check_qr_density_at_limit() {
    assert!(check_qr_density(117, 117).is_ok());
    assert!(check_qr_density(118, 117).is_err());
}

#[test]
fn density_check_on_dense_qr() {
    // Generate enough data to exceed version 25 (117 modules)
    // at Low correction. ~1000 bytes of uppercase UR data
    // should push well beyond version 25.
    let data: Vec<u8> = (0u16..1000).map(|i| (i % 256) as u8).collect();
    let cbor: dcbor::CBOR = data.into();
    let ur = bc_ur::UR::new("bytes", cbor).unwrap();
    let ur_string = ur.qr_string();
    let upper = ur_string.to_ascii_uppercase();
    let modules = qr_module_count(upper.as_bytes(), CorrectionLevel::Low).unwrap();
    assert!(
        modules > DEFAULT_MAX_MODULES,
        "expected dense QR ({modules} modules), but it fits within {DEFAULT_MAX_MODULES}"
    );
    let err = check_qr_density(modules, DEFAULT_MAX_MODULES).unwrap_err();
    assert!(matches!(err, Error::QrCodeTooDense { .. }));
}
