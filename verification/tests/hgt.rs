use imgforge::dem::hgt::{detect_resolution, hgt_elevation, HgtSizeError, UNDEF};

#[test]
fn test_resolution_detection_3arcsec() {
    let size = 1201 * 1201 * 2;
    assert_eq!(detect_resolution(size).unwrap(), 1200);
}

#[test]
fn test_resolution_detection_1arcsec() {
    let size = 3601 * 3601 * 2;
    assert_eq!(detect_resolution(size).unwrap(), 3600);
}

#[test]
fn test_resolution_detection_invalid() {
    assert!(detect_resolution(0).is_err());
    assert!(detect_resolution(7).is_err());
}

#[test]
fn detect_resolution_errors_by_kind() {
    assert_eq!(detect_resolution(0), Err(HgtSizeError::Invalid(0)));
    assert_eq!(detect_resolution(7), Err(HgtSizeError::Invalid(7)));
    assert_eq!(detect_resolution(6), Err(HgtSizeError::NotSquare(6)));
    assert_eq!(detect_resolution(18), Ok(2));
}

fn be_bytes(values: &[i16]) -> Vec<u8> {
    let mut buf = Vec::new();
    for v in values {
        buf.extend_from_slice(&v.to_be_bytes());
    }
    buf
}

#[test]
fn hgt_elevation_reads_big_endian_samples() {
    let data = be_bytes(&[100, 200, 300, 150, 250, 350, 200, 300, 400]);
    assert_eq!(hgt_elevation(&data, 3, 0, 0), Some(100));
    assert_eq!(hgt_elevation(&data, 3, 0, 2), Some(300));
    assert_eq!(hgt_elevation(&data, 3, 1, 1), Some(250));
    assert_eq!(hgt_elevation(&data, 3, 2, 2), Some(400));
    assert_eq!(hgt_elevation(&data, 3, 3, 0), None);
}

#[test]
fn hgt_elevation_void_and_negative() {
    let data = be_bytes(&[UNDEF, -12, 7, 8]);
    assert_eq!(hgt_elevation(&data, 2, 0, 0), None);
    assert_eq!(hgt_elevation(&data, 2, 0, 1), Some(-12));
    assert_eq!(hgt_elevation(&data[..6], 2, 1, 1), None);
}
