use imgforge::routing::{
    compute_node_flags, coord_to_node_id, find_junctions, parse_route_param, NodEntry, NO_BIKE, NO_BUS, NO_CAR,
    NO_DELIVERY, NO_EMERGENCY, NO_FOOT, NO_TAXI, NO_TRUCK,
};

#[test]
fn test_find_junctions_shared_point() {
    let road1 = vec![(0, 0), (100, 100), (200, 200)];
    let road2 = vec![(0, 200), (100, 100), (200, 0)];
    let junctions = find_junctions(&[road1, road2]);
    assert!(junctions.contains(&(100, 100)), "shared midpoint should be junction");
}

#[test]
fn test_find_junctions_endpoints_always_included() {
    let road1 = vec![(0, 0), (100, 100)];
    let road2 = vec![(200, 200), (300, 300)];
    let junctions = find_junctions(&[road1, road2]);
    assert!(junctions.contains(&(0, 0)));
    assert!(junctions.contains(&(100, 100)));
    assert!(junctions.contains(&(200, 200)));
    assert!(junctions.contains(&(300, 300)));
}

#[test]
fn test_compute_node_flags_endpoints() {
    let road = vec![(0, 0), (50, 50), (100, 100)];
    let junctions: Vec<(i32, i32)> = Vec::new();
    let flags = compute_node_flags(&[road], &junctions);
    assert_eq!(flags[0], vec![true, false, true]);
}

#[test]
fn test_compute_node_flags_junction_mid() {
    let road1 = vec![(0, 0), (50, 50), (100, 100)];
    let road2 = vec![(0, 100), (50, 50), (100, 0)];
    let junctions = find_junctions(&[road1.clone(), road2.clone()]);
    let flags = compute_node_flags(&[road1, road2], &junctions);
    assert_eq!(flags[0], vec![true, true, true]);
    assert_eq!(flags[1], vec![true, true, true]);
}

#[test]
fn test_parse_route_param_12_fields() {
    let p = parse_route_param("6,3,1,1,0,0,1,0,0,1,0,0");
    assert_eq!(p.speed, 6);
    assert_eq!(p.road_class, 3);
    assert!(p.one_way);
    assert!(p.toll);
    assert_eq!(p.access_flags, NO_CAR | NO_FOOT);
}

#[test]
fn test_parse_route_param_all_denied() {
    let p = parse_route_param("0,0,0,0,1,1,1,1,1,1,1,1");
    assert_eq!(p.access_flags, NO_EMERGENCY | NO_DELIVERY | NO_CAR | NO_BUS | NO_TAXI | NO_FOOT | NO_BIKE | NO_TRUCK);
}

#[test]
fn test_parse_route_param_partial() {
    let p = parse_route_param("4,2");
    assert_eq!(p.speed, 4);
    assert_eq!(p.road_class, 2);
    assert_eq!(p.access_flags, 0);
}

#[test]
fn test_coord_to_node_id_deterministic() {
    let id1 = coord_to_node_id(45_5000000, 5_7000000);
    let id2 = coord_to_node_id(45_5000000, 5_7000000);
    assert_eq!(id1, id2, "same coords must give same ID");
    assert!(id1 >= 1, "ID must be >= 1");
}

#[test]
fn test_coord_to_node_id_distinct() {
    let id1 = coord_to_node_id(45_5000000, 5_7000000);
    let id2 = coord_to_node_id(45_5000001, 5_7000000);
    assert_ne!(id1, id2, "different coords should give different IDs");
}

#[test]
fn test_nod_entry_fields() {
    let n = NodEntry { point_index: 3, node_id: 42, boundary: true };
    assert_eq!(n.point_index, 3);
    assert_eq!(n.node_id, 42);
    assert!(n.boundary);
}

#[test]
fn find_junctions_lists_each_junction_once() {
    let road1 = vec![(0, 0), (5, 5), (9, 9)];
    let road2 = vec![(9, 9), (5, 5), (0, 0)];
    let junctions = find_junctions(&[road1, road2]);
    assert_eq!(junctions.len(), 3);
    assert_eq!(junctions, vec![(0, 0), (5, 5), (9, 9)]);
}

#[test]
fn parse_route_param_empty_gives_defaults() {
    let p = parse_route_param("");
    assert_eq!(p.speed, 0);
    assert_eq!(p.road_class, 0);
    assert!(!p.one_way);
    assert!(!p.toll);
    assert_eq!(p.access_flags, 0);
}
