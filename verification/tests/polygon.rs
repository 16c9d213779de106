use imgforge::img::coord::Coord;
use imgforge::img::polygon::Polygon;


#[test]
fn test_polygon_ext_write() {
    let points = vec![
        Coord::new(0, 0),
        Coord::new(100, 0),
        Coord::new(100, 100),
        Coord::new(0, 100),
    ];
    let pg = Polygon::new(0x10f04, points);
    let bitstream = vec![0x12, 0x34];
    let buf = pg.write_ext(0, 0, 0, &bitstream);

    assert_eq!(buf.len(), 9);
    assert_eq!(buf[0], 0x0f);
    assert_eq!(buf[1], 0x04);
    assert_eq!(buf[6], 5);
}

#[test]
fn test_polygon_write() {
    let points = vec![
        Coord::new(0, 0),
        Coord::new(100, 0),
        Coord::new(100, 100),
        Coord::new(0, 100),
    ];
    let pg = Polygon::new(0x03, points);
    let bitstream = vec![0x12, 0x34];
    let buf = pg.write(0, 0, 0, &bitstream);
    assert_eq!(buf[0], 0x03);
    assert_eq!(buf.len(), 11);
}
