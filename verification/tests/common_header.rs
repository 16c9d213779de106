use imgforge::img::common_header::{
    pad_to, read_i24, read_tre_bounds, unix_to_calendar, write_creation_time_fixed, write_i24, write_section, CommonHeader,
    COMMON_HEADER_LEN,
};
use imgforge::img::coord::Coord;

const NOW: u64 = 1_776_000_000;

#[test]
fn test_common_header_size() {
    let ch = CommonHeader::new(188, "GARMIN TRE");
    let mut buf = Vec::new();
    ch.write(&mut buf, NOW);
    assert_eq!(buf.len(), COMMON_HEADER_LEN);
}

#[test]
fn test_header_length_le() {
    let ch = CommonHeader::new(188, "GARMIN TRE");
    let mut buf = Vec::new();
    ch.write(&mut buf, NOW);
    assert_eq!(buf[0], 188);
    assert_eq!(buf[1], 0);
}

#[test]
fn test_type_string() {
    let ch = CommonHeader::new(188, "GARMIN TRE");
    let mut buf = Vec::new();
    ch.write(&mut buf, NOW);
    let type_str = std::str::from_utf8(&buf[2..12]).unwrap();
    assert_eq!(type_str, "GARMIN TRE");
}

#[test]
fn test_type_string_short_padded() {
    let ch = CommonHeader::new(125, "GARMIN RGN");
    let mut buf = Vec::new();
    ch.write(&mut buf, NOW);
    assert_eq!(&buf[2..12], b"GARMIN RGN");
}

#[test]
fn test_unknown_and_lock_bytes() {
    let ch = CommonHeader::new(188, "GARMIN TRE");
    let mut buf = Vec::new();
    ch.write(&mut buf, NOW);
    assert_eq!(buf[12], 0x01);
    assert_eq!(buf[13], 0x00);
}

#[test]
fn test_date_is_7_bytes() {
    let ch = CommonHeader::new(188, "GARMIN TRE");
    let mut buf = Vec::new();
    ch.write(&mut buf, NOW);
    assert_eq!(buf.len(), 21);
    let year = u16::from_le_bytes([buf[14], buf[15]]);
    assert!(year >= 2024);
}

#[test]
fn test_fixed_date() {
    let mut buf = Vec::new();
    write_creation_time_fixed(&mut buf, 2026, 3, 29, 12, 0, 0);
    assert_eq!(buf.len(), 7);
    let year = u16::from_le_bytes([buf[0], buf[1]]);
    assert_eq!(year, 2026);
    assert_eq!(buf[2], 3);
    assert_eq!(buf[3], 29);
}

#[test]
fn test_new_map_units() {
    let c = Coord::new(2_097_152, -4_194_304);
    assert_eq!(c.latitude(), 2_097_152);
    assert_eq!(c.longitude(), -4_194_304);
    assert_eq!(c.lat_delta, 0);
}

#[test]
fn creation_date_of_known_instants() {
    assert_eq!(unix_to_calendar(0), (1970, 1, 1, 0, 0, 0));
    assert_eq!(unix_to_calendar(951_782_400), (2000, 2, 29, 0, 0, 0));
    assert_eq!(unix_to_calendar(1_711_713_600), (2024, 3, 29, 12, 0, 0));
    let ch = CommonHeader::new(41, "GARMIN DEM");
    let mut buf = Vec::new();
    ch.write(&mut buf, 1_711_713_600);
    assert_eq!(&buf[14..21], &[0xE8, 0x07, 3, 29, 12, 0, 0]);
}

#[test]
fn i24_roundtrip_and_sign() {
    let mut buf = Vec::new();
    write_i24(&mut buf, -2);
    write_i24(&mut buf, 0x12_3456);
    assert_eq!(buf, vec![0xFE, 0xFF, 0xFF, 0x56, 0x34, 0x12]);
    assert_eq!(read_i24(&buf[0..3]), -2);
    assert_eq!(read_i24(&buf[3..6]), 0x12_3456);
}

#[test]
fn tre_bounds_read_back() {
    let mut tre = vec![0u8; 21];
    write_i24(&mut tre, 100);
    write_i24(&mut tre, 200);
    write_i24(&mut tre, -100);
    write_i24(&mut tre, -200);
    assert_eq!(read_tre_bounds(&tre), (100, 200, -100, -200));
}

#[test]
fn section_and_padding() {
    let mut buf = Vec::new();
    write_section(&mut buf, 0x0102_0304, 5);
    assert_eq!(buf, vec![4, 3, 2, 1, 5, 0, 0, 0]);
    pad_to(&mut buf, 10);
    assert_eq!(buf.len(), 10);
    assert_eq!(buf[9], 0);
    pad_to(&mut buf, 3);
    assert_eq!(buf, vec![4, 3, 2]);
}
