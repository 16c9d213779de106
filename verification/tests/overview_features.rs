use imgforge::img::coord::Coord;
use imgforge::img::overview_features::{extract_overview_features, pick_bucket};
use imgforge::parser::mp_types::MpPolygon;


fn make_mp(polygons: Vec<MpPolygon>, _polylines: Vec<()>) -> Vec<MpPolygon> {
    polygons
}

fn make_polygon(
    type_code: u32,
    end_level: Option<u8>,
    buckets: &[(u8, Vec<Coord>)],
) -> MpPolygon {
    let mut geometries: Vec<(u8, Vec<Coord>)> = buckets.to_vec();
    geometries.sort_by_key(|b| b.0);
    MpPolygon {
        type_code,
        label: String::new(),
        geometries,
        end_level,
    }
}

fn c(lat: i32, lon: i32) -> Coord {
    Coord::new(lat, lon)
}

fn tri() -> Vec<Coord> {
    vec![c(2138930, 255409), c(2143196, 255409), c(2143196, 262632)]
}

#[test]
fn test_extract_no_features_below_detail_max() {
    let mp = make_mp(
        vec![make_polygon(0x4A, Some(5), &[(5, tri())])],
        vec![],
    );
    let features = extract_overview_features(&mp, 7, 4);
    assert!(features.is_empty(), "EndLevel 5 < detail_max_level 7 → exclu");
}

#[test]
fn test_extract_no_end_level_excluded() {
    let mp = make_mp(
        vec![make_polygon(0x4A, None, &[(7, tri())])],
        vec![],
    );
    let features = extract_overview_features(&mp, 7, 4);
    assert!(features.is_empty(), "EndLevel absent → exclu");
}

#[test]
fn test_extract_palier_assignment() {
    let mp = make_mp(
        vec![
            make_polygon(0x4A, Some(7), &[(7, tri())]),
            make_polygon(0x4B, Some(8), &[(8, tri())]),
            make_polygon(0x50, Some(9), &[(9, tri())]),
            make_polygon(0x51, Some(10), &[(9, tri())]),
        ],
        vec![],
    );
    let features = extract_overview_features(&mp, 7, 4);
    assert_eq!(features.len(), 4);
    let find = |tc: u32| features.iter().find(|f| f.type_code == tc).unwrap().palier_index;
    assert_eq!(find(0x4A), 0, "EndLevel=7 → palier 0 (bits16)");
    assert_eq!(find(0x4B), 1, "EndLevel=8 → palier 1 (bits14)");
    assert_eq!(find(0x50), 2, "EndLevel=9 → palier 2 (bits12)");
    assert_eq!(find(0x51), 3, "EndLevel=10 → palier 3 (bits10, clampé)");
}

#[test]
fn test_extract_empty_geometry_skipped() {
    let mp = make_mp(
        vec![make_polygon(0x4A, Some(7), &[])],
        vec![],
    );
    let features = extract_overview_features(&mp, 7, 4);
    assert!(features.is_empty(), "Feature sans géométrie → ignorée");
}

#[test]
fn test_pick_bucket_exact() {
    let mut g: Vec<(u8, Vec<Coord>)> = Vec::new();
    g.push((7u8, tri()));
    assert_eq!(pick_bucket(&g, 7).len(), 3, "bucket exact trouvé");
}

#[test]
fn test_pick_bucket_fallback_coarser() {
    let mut g: Vec<(u8, Vec<Coord>)> = Vec::new();
    g.push((9u8, tri()));
    assert_eq!(pick_bucket(&g, 7).len(), 3, "fallback coarser (bucket 9 pour target 7)");
}

#[test]
fn test_pick_bucket_fallback_finer() {
    let mut g: Vec<(u8, Vec<Coord>)> = Vec::new();
    g.push((5u8, tri()));
    assert_eq!(pick_bucket(&g, 7).len(), 3, "fallback finer (bucket 5 pour target 7)");
}

#[test]
fn test_pick_bucket_empty_map() {
    let g: Vec<(u8, Vec<Coord>)> = Vec::new();
    assert!(pick_bucket(&g, 7).is_empty(), "map vide → slice vide");
}

#[test]
fn test_ac9_eligibility_by_end_level() {
    let mp = make_mp(
        vec![make_polygon(0x50, Some(8), &[(8, tri())])],
        vec![],
    );
    let features = extract_overview_features(&mp, 7, 4);
    assert_eq!(features.len(), 1);
    assert_eq!(features[0].palier_index, 1, "EndLevel=8 → palier 1 (bits14)");
    assert!(
        !features.iter().any(|f| f.palier_index == 3),
        "EndLevel=8 ne doit pas apparaître dans bits10 (palier_index=3)"
    );
}
