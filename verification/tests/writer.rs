use imgforge::img::coord::Coord;
use imgforge::img::splitter::{SplitLine, SplitShape};
use imgforge::img::writer::{
    align_node_flags_to_split, is_contour_type, split_large_polygons, split_large_polylines, split_type_subtype,
    MAX_POINTS_IN_ELEMENT,
};

#[test]
fn contour_types_0x20_to_0x25_recognised() {
    for t in 0x20u32..=0x25 {
        assert!(is_contour_type(t), "0x{:02X} should be contour", t);
    }
}

#[test]
fn non_contour_types_not_recognised() {
    for t in [0x1F, 0x26, 0x00, 0x06, 0x10000u32, 0x0A22, 0x0120, 0x10D20] {
        assert!(!is_contour_type(t), "0x{:X} should NOT be contour", t);
    }
}

fn coord(lat: i32, lon: i32) -> Coord {
    Coord::new(lat, lon)
}

fn make_line(n: usize) -> SplitLine {
    SplitLine {
        mp_index: 0,
        points: (0..n).map(|i| coord(i as i32 * 10, i as i32 * 10)).collect(),
    }
}

fn make_shape(n: usize, spread: i32) -> SplitShape {
    let mut pts = Vec::with_capacity(n);
    for i in 0..n {
        let angle = 2.0 * std::f64::consts::PI * (i as f64) / (n as f64);
        let lat = (spread as f64 * angle.sin()) as i32;
        let lon = (spread as f64 * angle.cos()) as i32;
        pts.push(coord(lat, lon));
    }
    SplitShape { mp_index: 0, points: pts }
}

#[test]
fn test_polyline_no_split_under_limit() {
    let lines = vec![make_line(250)];
    let result = split_large_polylines(lines);
    assert_eq!(result.len(), 1);
    assert_eq!(result[0].points.len(), 250);
}

#[test]
fn test_polyline_no_split_at_limit() {
    let lines = vec![make_line(MAX_POINTS_IN_ELEMENT)];
    let result = split_large_polylines(lines);
    assert_eq!(result.len(), 1);
    assert_eq!(result[0].points.len(), MAX_POINTS_IN_ELEMENT);
}

#[test]
fn test_polyline_split_251_points() {
    let lines = vec![make_line(251)];
    let result = split_large_polylines(lines);
    assert_eq!(result.len(), 2);
    assert_eq!(result[0].points.len(), 126);
    assert_eq!(result[1].points.len(), 126);
}

#[test]
fn test_polyline_split_overlap() {
    let lines = vec![make_line(501)];
    let result = split_large_polylines(lines);
    for i in 0..result.len() - 1 {
        let last = result[i].points.last().unwrap();
        let first = &result[i + 1].points[0];
        assert_eq!(
            last.latitude(), first.latitude(),
            "chunks {} and {} must share boundary point", i, i + 1
        );
        assert_eq!(last.longitude(), first.longitude());
    }
}

#[test]
fn test_polyline_split_preserves_all_points() {
    let original = make_line(750);
    let original_first = original.points[0];
    let original_last = original.points[749];
    let lines = vec![original];
    let result = split_large_polylines(lines);

    assert!(result.len() >= 3, "750 points should produce ≥3 chunks");

    assert_eq!(result[0].points[0].latitude(), original_first.latitude());
    let last_chunk = result.last().unwrap();
    assert_eq!(last_chunk.points.last().unwrap().latitude(), original_last.latitude());

    for (i, chunk) in result.iter().enumerate() {
        assert!(
            chunk.points.len() <= MAX_POINTS_IN_ELEMENT,
            "chunk {} has {} points (max {})",
            i, chunk.points.len(), MAX_POINTS_IN_ELEMENT
        );
        assert!(chunk.points.len() >= 2, "chunk {} has < 2 points", i);
    }
}

#[test]
fn test_polyline_split_3283_points() {
    let lines = vec![make_line(3283)];
    let result = split_large_polylines(lines);
    assert!(result.len() >= 13);
    for chunk in &result {
        assert!(chunk.points.len() <= MAX_POINTS_IN_ELEMENT);
        assert!(chunk.points.len() >= 2);
    }
    for chunk in &result {
        assert_eq!(chunk.mp_index, 0);
    }
}

#[test]
fn test_polyline_split_small_line_passthrough() {
    let lines = vec![
        make_line(10),
        make_line(500),
        make_line(5),
    ];
    let result = split_large_polylines(lines);
    assert!(result.len() >= 4);
    assert_eq!(result[0].points.len(), 10);
    assert_eq!(result.last().unwrap().points.len(), 5);
}

#[test]
fn test_polygon_no_split_under_limit() {
    let shapes = vec![make_shape(100, 1000)];
    let result = split_large_polygons(shapes);
    assert_eq!(result.len(), 1);
    assert_eq!(result[0].points.len(), 100);
}

#[test]
fn test_polygon_split_large_shape() {
    let shapes = vec![make_shape(500, 10000)];
    let result = split_large_polygons(shapes);
    assert!(result.len() >= 2, "500-point polygon should be split");
    for fragment in &result {
        assert!(
            fragment.points.len() <= MAX_POINTS_IN_ELEMENT,
            "fragment has {} points (max {})",
            fragment.points.len(), MAX_POINTS_IN_ELEMENT
        );
        assert!(fragment.points.len() >= 3, "fragment must be valid polygon");
    }
}

#[test]
fn test_polygon_split_preserves_mp_index() {
    let mut shapes = vec![make_shape(400, 5000)];
    shapes[0].mp_index = 42;
    let result = split_large_polygons(shapes);
    for fragment in &result {
        assert_eq!(fragment.mp_index, 42);
    }
}

#[test]
fn test_polygon_split_8564_points() {
    let shapes = vec![make_shape(8564, 50000)];
    let result = split_large_polygons(shapes);
    assert!(result.len() >= 4, "8564-point polygon should produce many fragments");
    for fragment in &result {
        assert!(fragment.points.len() <= MAX_POINTS_IN_ELEMENT);
        assert!(fragment.points.len() >= 3);
    }
}

#[test]
fn test_polygon_split_fifo_order() {
    let shapes = vec![
        SplitShape { mp_index: 1, points: make_shape(400, 5000).points },
        SplitShape { mp_index: 2, points: make_shape(400, 5000).points },
    ];
    let result = split_large_polygons(shapes);
    let first_idx2 = result.iter().position(|s| s.mp_index == 2).unwrap();
    let last_idx1 = result.iter().rposition(|s| s.mp_index == 1).unwrap();
    assert!(last_idx1 < first_idx2, "FIFO order: all idx=1 before idx=2");
}

#[test]
fn test_polygon_degenerate_collinear() {
    let pts: Vec<Coord> = (0..300).map(|i| coord(i * 10, 0)).collect();
    let shapes = vec![SplitShape { mp_index: 0, points: pts }];
    let result = split_large_polygons(shapes);
    assert!(!result.is_empty());
}

#[test]
fn test_mixed_small_and_large_features() {
    let shapes = vec![
        make_shape(10, 100),
        make_shape(500, 10000),
        make_shape(20, 200),
    ];
    let result = split_large_polygons(shapes);
    assert!(result.len() >= 4);
    assert_eq!(result[0].points.len(), 10);
}

#[test]
fn split_type_subtype_bytes() {
    assert_eq!(split_type_subtype(0x2A), (0x2A, 0));
    assert_eq!(split_type_subtype(0x1234), (0x12, 0x34));
}

#[test]
fn align_node_flags_finds_first_occurrence() {
    let pts = vec![coord(0, 0), coord(1, 1), coord(2, 2), coord(1, 1), coord(2, 2)];
    let flags = vec![true, false, true, false, true];
    let split = vec![coord(1, 1), coord(2, 2)];
    assert_eq!(align_node_flags_to_split(&pts, &flags, &split), Some((vec![false, true], false)));
    let tail = vec![coord(2, 2)];
    assert_eq!(align_node_flags_to_split(&pts[3..], &flags[3..], &tail), Some((vec![true], true)));
    assert_eq!(align_node_flags_to_split(&pts, &flags, &[coord(9, 9)]), None);
    assert_eq!(align_node_flags_to_split(&pts, &flags[1..], &split), None);
    assert_eq!(align_node_flags_to_split(&pts, &flags, &[]), None);
}

#[test]
fn polyline_split_exact_chunks_of_600() {
    let result = split_large_polylines(vec![make_line(600)]);
    let sizes: Vec<usize> = result.iter().map(|l| l.points.len()).collect();
    assert_eq!(sizes, vec![250, 176, 176]);
    assert_eq!(result[1].points[0], result[0].points[249]);
}
