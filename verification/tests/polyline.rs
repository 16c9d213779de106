use imgforge::img::coord::Coord;
use imgforge::img::polyline::Polyline;


#[test]
fn test_polyline_write() {
    let points = vec![Coord::new(100, 200), Coord::new(110, 210)];
    let pl = Polyline::new(0x01, points);
    let bitstream = vec![0xAA, 0xBB];
    let buf = pl.write(0, 0, 0, &bitstream, false);

    assert_eq!(buf[0], 0x01);
    assert_eq!(buf[1], 0);
    assert_eq!(buf[2], 0);
    assert_eq!(buf[3], 0);
    let dx = i16::from_le_bytes([buf[4], buf[5]]);
    assert_eq!(dx, 200);
    let dy = i16::from_le_bytes([buf[6], buf[7]]);
    assert_eq!(dy, 100);
    assert_eq!(buf[8], 1);
    assert_eq!(buf[9], 0xAA);
    assert_eq!(buf[10], 0xBB);
}

#[test]
fn test_polyline_direction_flag() {
    let pl = Polyline {
        type_code: 0x01,
        label_offset: 0,
        points: vec![Coord::new(0, 0)],
        direction: true,
        has_net_info: false,
        net_offset: 0,
        road_id: None,
    };
    let buf = pl.write(0, 0, 0, &[0x00], false);
    assert!(buf[0] & 0x40 != 0);
}

#[test]
fn test_polyline_ext_write() {
    let points = vec![Coord::new(100, 200), Coord::new(110, 210)];
    let pl = Polyline::new(0x10601, points);
    let bitstream = vec![0xAA, 0xBB];
    let buf = pl.write_ext(0, 0, 0, &bitstream);

    assert_eq!(buf.len(), 9);
    assert_eq!(buf[0], 0x06);
    assert_eq!(buf[1], 0x01);
    assert_eq!(buf[6], 5);
}

#[test]
fn test_polyline_ext_with_label() {
    let points = vec![Coord::new(100, 200), Coord::new(110, 210)];
    let mut pl = Polyline::new(0x10601, points);
    pl.label_offset = 0x42;
    let bitstream = vec![0xAA, 0xBB];
    let buf = pl.write_ext(0, 0, 0, &bitstream);

    assert_eq!(buf.len(), 12);
    assert_eq!(buf[1], 0x01 | 0x20);
    assert_eq!(buf[9], 0x42);
}

#[test]
fn test_polyline_ext_boundary_127_bytes() {
    let points = vec![Coord::new(0, 0), Coord::new(10, 10)];
    let pl = Polyline::new(0x10601, points);
    let bitstream = vec![0u8; 127];
    let buf = pl.write_ext(0, 0, 0, &bitstream);

    assert_eq!(buf.len(), 134);
    assert_eq!(buf[6], 0xFF);
}

#[test]
fn test_polyline_ext_2byte_length_128() {
    let points = vec![Coord::new(0, 0), Coord::new(10, 10)];
    let pl = Polyline::new(0x10601, points);
    let bitstream = vec![0u8; 128];
    let buf = pl.write_ext(0, 0, 0, &bitstream);

    assert_eq!(buf.len(), 136);
    let len_encoded = u16::from_le_bytes([buf[6], buf[7]]);
    assert_eq!(len_encoded, (128 << 2) | 2);
}

#[test]
fn test_polyline_ext_2byte_length_large() {
    let points = vec![Coord::new(0, 0), Coord::new(10, 10)];
    let pl = Polyline::new(0x10601, points);
    let bitstream = vec![0u8; 300];
    let buf = pl.write_ext(0, 0, 0, &bitstream);

    assert_eq!(buf.len(), 308);
    let len_encoded = u16::from_le_bytes([buf[6], buf[7]]);
    assert_eq!(len_encoded, (300 << 2) | 2);
}

#[test]
fn test_write_with_net_info() {
    let points = vec![Coord::new(100, 200), Coord::new(110, 210)];
    let mut pl = Polyline::new(0x01, points);
    pl.has_net_info = true;
    pl.net_offset = 0x123456;
    let bitstream = vec![0xAA, 0xBB];
    let buf = pl.write(0, 0, 0, &bitstream, false);

    let lbl = u32::from_le_bytes([buf[1], buf[2], buf[3], 0]);
    assert!(lbl & 0x800000 != 0, "has_net_info flag should be set in label");

    assert_eq!(buf[8], 4, "blen should be bitstream(2) + net_offset(3) - 1 = 4");

    let len = buf.len();
    assert_eq!(buf[len - 3], 0x56);
    assert_eq!(buf[len - 2], 0x34);
    assert_eq!(buf[len - 1], 0x12);

    assert_eq!(len, 14);
}

#[test]
fn test_write_without_net_info() {
    let points = vec![Coord::new(100, 200), Coord::new(110, 210)];
    let pl = Polyline::new(0x01, points);
    let bitstream = vec![0xAA, 0xBB];
    let buf_without = pl.write(0, 0, 0, &bitstream, false);
    assert_eq!(buf_without.len(), 11);
}

#[test]
fn test_polyline_2byte_length() {
    let pl = Polyline::new(0x01, vec![Coord::new(0, 0)]);
    let bitstream = vec![0u8; 300];
    let buf = pl.write(0, 0, 0, &bitstream, false);
    assert!(buf[0] & 0x80 != 0);
    let blen = u16::from_le_bytes([buf[8], buf[9]]);
    assert_eq!(blen, 299);
}
