use imgforge::error::ImgError;
use imgforge::img::area::Area;
use imgforge::img::coord::Coord;
use imgforge::img::nod::{RouteArc, RouteNode};
use imgforge::img::writer::{
    assign_to_parent, compute_bounds, feature_visible_at_level, find_first_route_node_offset, pick_geometry_bucket,
};
use imgforge::parser::mp_types::{MpPoint, MpPolygon, MpPolyline};

fn c(lat: i32, lon: i32) -> Coord {
    Coord::new(lat, lon)
}

fn line(geometries: Vec<(u8, Vec<Coord>)>) -> MpPolyline {
    MpPolyline {
        type_code: 0x06,
        label: String::new(),
        geometries,
        end_level: None,
        direction: false,
        road_id: None,
        route_param: None,
    }
}

fn arc(road: usize) -> RouteArc {
    RouteArc {
        dest_node_index: 0,
        road_def_index: road,
        length_meters: 10,
        forward: true,
        road_class: 0,
        speed: 0,
        access: 0,
        toll: false,
        one_way: false,
        initial_heading: 0,
    }
}

fn node(lat: i32, lon: i32, roads: &[usize]) -> RouteNode {
    RouteNode { lat, lon, arcs: roads.iter().map(|&r| arc(r)).collect(), is_boundary: false, node_class: 0 }
}

#[test]
fn visible_range_with_end_level() {
    // Data0 and Data2 with EndLevel=2: drawn at 0, 1 (from Data0) and 2.
    let g = vec![(0u8, vec![c(0, 0), c(1, 1), c(2, 2)]), (2u8, vec![c(0, 0), c(2, 2)])];
    assert!(feature_visible_at_level(Some(2), &g, 0));
    assert!(feature_visible_at_level(Some(2), &g, 1));
    assert!(feature_visible_at_level(Some(2), &g, 2));
    assert!(!feature_visible_at_level(Some(2), &g, 3));
    assert_eq!(pick_geometry_bucket(&g, 1).unwrap().len(), 3);
    assert_eq!(pick_geometry_bucket(&g, 2).unwrap().len(), 2);
}

#[test]
fn visible_strict_with_end_level_zero() {
    let g = vec![(0u8, vec![c(0, 0), c(1, 1), c(2, 2)]), (2u8, vec![c(0, 0), c(2, 2)])];
    assert!(feature_visible_at_level(Some(0), &g, 0));
    assert!(!feature_visible_at_level(Some(0), &g, 1));
    assert!(feature_visible_at_level(Some(0), &g, 2));
    assert!(feature_visible_at_level(None, &g, 2));
    assert!(!feature_visible_at_level(None, &g, 1));
}

#[test]
fn visible_beyond_end_level_excluded() {
    let g: Vec<(u8, Vec<Coord>)> = (0u8..=6).map(|l| (l, vec![c(0, 0), c(1, 1)])).collect();
    for lvl in 0..=4 {
        assert!(feature_visible_at_level(Some(4), &g, lvl));
    }
    for lvl in 5..=6 {
        assert!(!feature_visible_at_level(Some(4), &g, lvl));
    }
}

#[test]
fn pick_bucket_none_below_first_level() {
    let g = vec![(2u8, vec![c(0, 0)])];
    assert!(pick_geometry_bucket(&g, 1).is_none());
    assert!(!feature_visible_at_level(Some(3), &g, 1));
}

#[test]
fn compute_bounds_includes_all_levels() {
    let pl = line(vec![(0, vec![c(100, 200), c(110, 210)]), (1, vec![c(500, 900), c(510, 910)])]);
    let a = compute_bounds(&[], &[pl], &[]).unwrap();
    assert_eq!(a.min_lat(), 100);
    assert_eq!(a.max_lat(), 510);
    assert_eq!(a.min_lon(), 200);
    assert_eq!(a.max_lon(), 910);
}

#[test]
fn compute_bounds_points_and_shapes() {
    let p = MpPoint { type_code: 1, label: String::new(), coord: c(-5, 7), end_level: None };
    let pg = MpPolygon {
        type_code: 0x4b,
        label: String::new(),
        geometries: vec![(0, vec![c(3, 3), c(3, 40), c(20, 3)])],
        end_level: None,
    };
    let a = compute_bounds(&[p], &[], &[pg]).unwrap();
    assert_eq!((a.min_lat(), a.min_lon(), a.max_lat(), a.max_lon()), (-5, 3, 20, 40));
}

#[test]
fn compute_bounds_empty_is_an_error() {
    match compute_bounds(&[], &[], &[]) {
        Err(ImgError::InvalidFormat(m)) => assert_eq!(m, "No features to compile"),
        _ => panic!("expected an error"),
    }
}

#[test]
fn assign_to_parent_right_exclusive_then_inclusive() {
    let west = Area::new(0, 0, 100, 100);
    let east = Area::new(0, 100, 100, 200);
    let parents = [(west, 1u32), (east, 2u32)];
    assert_eq!(assign_to_parent(50, 50, &parents), Some(1));
    // On the shared edge: the eastern box, its western edge included.
    assert_eq!(assign_to_parent(50, 100, &parents), Some(2));
    // On the outer eastern edge: only the inclusive test takes it.
    assert_eq!(assign_to_parent(50, 200, &parents), Some(2));
    assert_eq!(assign_to_parent(150, 50, &parents), None);
}

#[test]
fn first_route_node_prefers_node_of_the_road() {
    let coords = [c(0, 0), c(10, 10), c(20, 20)];
    let junctions = [(10, 10), (20, 20)];
    let nodes = [node(10, 10, &[7]), node(20, 20, &[3])];
    let offsets = [100u32, 200];
    assert_eq!(find_first_route_node_offset(&coords, &junctions, &nodes, &offsets, 3), 200);
    // No node with an arc of road 5: the first node met is the fallback.
    assert_eq!(find_first_route_node_offset(&coords, &junctions, &nodes, &offsets, 5), 100);
}

#[test]
fn first_route_node_none_is_zero() {
    let coords = [c(0, 0), c(10, 10)];
    let nodes = [node(10, 10, &[0])];
    assert_eq!(find_first_route_node_offset(&coords, &[], &nodes, &[5], 0), 0);
    // A node past the offset table reads offset 0.
    assert_eq!(find_first_route_node_offset(&coords, &[(10, 10)], &nodes, &[], 0), 0);
}
