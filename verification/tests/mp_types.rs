use imgforge::img::coord::Coord;
use imgforge::parser::mp_types::{ElevationUnit, MpPolygon, MpPolyline, RoutingMode};


fn c(lat: i32, lon: i32) -> Coord {
    Coord::new(lat, lon)
}

fn pl_with(buckets: &[(u8, Vec<Coord>)]) -> MpPolyline {
    let mut sorted: Vec<(u8, Vec<Coord>)> = buckets.to_vec();
    sorted.sort_by_key(|b| b.0);
    let g = sorted;
    MpPolyline {
        type_code: 0,
        label: String::new(),
        geometries: g,
        end_level: None,
        direction: false,
        road_id: None,
        route_param: None,
    }
}

fn pg_with(buckets: &[(u8, Vec<Coord>)]) -> MpPolygon {
    let mut sorted: Vec<(u8, Vec<Coord>)> = buckets.to_vec();
    sorted.sort_by_key(|b| b.0);
    let g = sorted;
    MpPolygon {
        type_code: 0,
        label: String::new(),
        geometries: g,
        end_level: None,
    }
}

#[test]
fn geometry_for_level_exact_bucket() {
    let pl = pl_with(&[(0, vec![c(1, 1), c(2, 2)]), (2, vec![c(1, 1)])]);
    assert_eq!(pl.geometry_for_level(0).len(), 2);
    assert_eq!(pl.geometry_for_level(2).len(), 1);
}

#[test]
fn geometry_for_level_fallback_coarser_first() {
    let pl = pl_with(&[(0, vec![c(1, 1), c(2, 2), c(3, 3)]), (2, vec![c(1, 1), c(3, 3)])]);
    assert_eq!(pl.geometry_for_level(1).len(), 2, "fallback to coarser N=2");
}

#[test]
fn geometry_for_level_fallback_to_finer_when_no_coarser() {
    let pl = pl_with(&[(0, vec![c(1, 1), c(2, 2)]), (2, vec![c(1, 1)])]);
    assert_eq!(pl.geometry_for_level(3).len(), 1);
}

#[test]
fn geometry_for_level_empty() {
    let pl = pl_with(&[]);
    assert!(pl.geometry_for_level(0).is_empty());
}

#[test]
fn geometry_for_level_only_n2_request_n0() {
    let pl = pl_with(&[(2, vec![c(1, 1), c(2, 2)])]);
    assert_eq!(pl.geometry_for_level(0).len(), 2);
}

#[test]
fn routing_geometry_strict_data0() {
    let pl_with_d0 = pl_with(&[(0, vec![c(1, 1), c(2, 2)])]);
    assert!(pl_with_d0.routing_geometry().is_some());
    let pl_no_d0 = pl_with(&[(2, vec![c(1, 1)])]);
    assert!(pl_no_d0.routing_geometry().is_none());
}

#[test]
fn all_coords_unions_all_buckets() {
    let pl = pl_with(&[(0, vec![c(1, 1), c(2, 2)]), (2, vec![c(3, 3)])]);
    assert_eq!(pl.all_coords().len(), 3);
}

#[test]
fn geometry_for_level_polygon_symmetric() {
    let pg = pg_with(&[(0, vec![c(1, 1), c(2, 2), c(3, 3)]), (2, vec![c(1, 1), c(3, 3)])]);
    assert_eq!(pg.geometry_for_level(0).len(), 3);
    assert_eq!(pg.geometry_for_level(1).len(), 2);
    assert_eq!(pg.geometry_for_level(2).len(), 2);
    assert_eq!(pg.all_coords().len(), 5);
}

#[test]
fn header_enums_default() {
    assert_eq!(RoutingMode::default(), RoutingMode::Auto);
    assert_eq!(ElevationUnit::default(), ElevationUnit::Feet);
}
