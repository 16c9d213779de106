use imgforge::dem::{detect_format_from, DemFormat};

#[test]
fn format_from_extension_any_case() {
    assert_eq!(detect_format_from(Some("hgt"), None, None), DemFormat::Hgt);
    assert_eq!(detect_format_from(Some("HGT"), None, None), DemFormat::Hgt);
    assert_eq!(detect_format_from(Some("Asc"), Some(2884802), None), DemFormat::Asc);
}

#[test]
fn format_from_hgt_sizes() {
    assert_eq!(detect_format_from(None, Some(1201 * 1201 * 2), None), DemFormat::Hgt);
    assert_eq!(detect_format_from(Some("bin"), Some(3601 * 3601 * 2), None), DemFormat::Hgt);
    assert_eq!(detect_format_from(None, Some(1200 * 1200 * 2), None), DemFormat::Unknown);
}

#[test]
fn format_from_first_line() {
    let head = b"NCOLS        3\nnrows 3\n";
    assert_eq!(detect_format_from(None, Some(100), Some(head)), DemFormat::Asc);
    // Only the first line counts.
    let later = b"header\nncols 3\n";
    assert_eq!(detect_format_from(None, None, Some(later)), DemFormat::Unknown);
    assert_eq!(detect_format_from(None, None, Some(b"")), DemFormat::Unknown);
    assert_eq!(detect_format_from(None, None, None), DemFormat::Unknown);
}
