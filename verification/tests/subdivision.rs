use imgforge::img::coord::Coord;
use imgforge::img::subdivision::Subdivision;


#[test]
fn test_record_size() {
    let mut s = Subdivision::new(1, 0, 24);
    assert_eq!(s.record_size(), 14);
    s.has_children = true;
    assert_eq!(s.record_size(), 16);
}

#[test]
fn test_write_14_bytes() {
    let s = Subdivision::new(1, 0, 24);
    let buf = s.write();
    assert_eq!(buf.len(), 14);
}

#[test]
fn test_write_16_bytes_with_children() {
    let mut s = Subdivision::new(1, 0, 24);
    s.has_children = true;
    let buf = s.write();
    assert_eq!(buf.len(), 16);
}

#[test]
fn test_last_flag_in_width() {
    let mut s = Subdivision::new(1, 0, 24);
    s.width = 100;
    s.is_last = true;
    let buf = s.write();
    let w = u16::from_le_bytes([buf[10], buf[11]]);
    assert!(w & 0x8000 != 0);
    assert_eq!(w & 0x7FFF, 100);
}

#[test]
fn test_local_coords() {
    let mut s = Subdivision::new(1, 0, 20);
    s.center_lat = 2_000_000;
    s.center_lon = 1_000_000;

    let local = s.round_lat_to_local_shifted(2_000_016);
    assert_eq!(local, 1);

    let biased = s.round_lat_to_local_shifted(2_000_009);
    assert_eq!(biased, 1);
}

#[test]
fn test_set_center_alignment() {
    let mut s = Subdivision::new(1, 0, 20);
    let c = Coord::new(12345, 67890);
    s.set_center(&c);
    assert_eq!(s.center_lat % 16, 0);
    assert_eq!(s.center_lon % 16, 0);
}
