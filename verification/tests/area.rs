use imgforge::img::area::Area;
use imgforge::img::coord::Coord;

#[test]
fn test_non_zero_dimensions() {
    let a = Area::new(100, 200, 100, 200);
    assert_eq!(a.max_lat(), 101);
    assert_eq!(a.max_lon(), 201);
    assert_eq!(a.height(), 1);
    assert_eq!(a.width(), 1);
}

#[test]
fn test_contains_coord() {
    let a = Area::new(0, 0, 100, 100);
    let inside = Coord::new(50, 50);
    let outside = Coord::new(200, 200);
    assert!(a.contains_coord(&inside));
    assert!(!a.contains_coord(&outside));
}

#[test]
fn test_contains_area() {
    let big = Area::new(0, 0, 100, 100);
    let small = Area::new(10, 10, 50, 50);
    assert!(big.contains_area(&small));
    assert!(!small.contains_area(&big));
}

#[test]
fn test_intersects() {
    let a = Area::new(0, 0, 100, 100);
    let b = Area::new(50, 50, 150, 150);
    let c = Area::new(200, 200, 300, 300);
    assert!(a.intersects(&b));
    assert!(!a.intersects(&c));
}

#[test]
fn test_center() {
    let a = Area::new(0, 0, 100, 200);
    let c = a.center();
    assert_eq!(c.latitude(), 50);
    assert_eq!(c.longitude(), 100);
}

#[test]
fn test_from_coords() {
    let coords = vec![Coord::new(10, 20), Coord::new(50, 80), Coord::new(30, 40)];
    let a = Area::from_coords(&coords);
    assert_eq!(a.min_lat(), 10);
    assert_eq!(a.min_lon(), 20);
    assert_eq!(a.max_lat(), 50);
    assert_eq!(a.max_lon(), 80);
}

#[test]
fn test_split_2x2() {
    let a = Area::new(0, 0, 1000, 1000);
    let parts = a.split(2, 2, 0).unwrap();
    assert_eq!(parts.len(), 4);
}

#[test]
fn test_intersect() {
    let a = Area::new(0, 0, 100, 100);
    let b = Area::new(50, 50, 150, 150);
    let c = a.intersect(&b);
    assert_eq!(c.min_lat(), 50);
    assert_eq!(c.min_lon(), 50);
    assert_eq!(c.max_lat(), 100);
    assert_eq!(c.max_lon(), 100);
}

#[test]
fn split_rounds_inner_edges() {
    let a = Area::new(0, 0, 1000, 1000);
    let parts = a.split(2, 1, 4).unwrap();
    assert_eq!(parts.len(), 2);
    assert_eq!(parts[0].max_lon(), 496);
    assert_eq!(parts[1].min_lon(), 496);
    assert_eq!(parts[1].max_lon(), 1000);
}

#[test]
fn split_of_tiny_area_is_none() {
    let a = Area::new(0, 0, 1, 1);
    assert!(a.split(4, 4, 0).is_none());
}
