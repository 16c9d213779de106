use imgforge::img::area::Area;
use imgforge::img::coord::Coord;
use imgforge::img::splitter::{
    add_areas_to_list, clip_polygon_to_rect, pick_area, split_features, split_max_size, MapArea, SplitLine, SplitPoint,
    SplitShape, LARGE_OBJECT_DIM, MAX_NUM_LINES, MAX_NUM_POINTS,
};


fn pt(lat: i32, lon: i32) -> Coord {
    Coord::new(lat, lon)
}

#[test]
fn test_pick_area_2x2_grid() {
    let idx = pick_area(25, 25, 0, 0, 2, 2, 50, 50, 4);
    assert_eq!(idx, 0);

    let idx = pick_area(75, 25, 0, 0, 2, 2, 50, 50, 4);
    assert_eq!(idx, 2);

    let idx = pick_area(25, 75, 0, 0, 2, 2, 50, 50, 4);
    assert_eq!(idx, 1);

    let idx = pick_area(75, 75, 0, 0, 2, 2, 50, 50, 4);
    assert_eq!(idx, 3);
}

#[test]
fn test_pick_area_clamped() {
    let idx = pick_area(-10, -10, 0, 0, 2, 2, 50, 50, 4);
    assert_eq!(idx, 0);

    let idx = pick_area(200, 200, 0, 0, 2, 2, 50, 50, 4);
    assert_eq!(idx, 3);
}

#[test]
fn test_add_size_estimation() {
    let mut area = MapArea::new(Area::new(0, 0, 100, 100), 24);

    area.add_point(SplitPoint { mp_index: 0, location: pt(50, 50) });
    assert_eq!(area.total_size(), 9);

    area.add_line(SplitLine {
        mp_index: 0,
        points: vec![pt(0, 0), pt(10, 10), pt(20, 20)],
    });
    assert_eq!(area.total_size(), 9 + 11 + 3 * 4);

    area.add_shape(SplitShape {
        mp_index: 0,
        points: vec![pt(0, 0), pt(10, 0), pt(10, 10), pt(0, 10)],
    });
    assert_eq!(area.total_size(), 32 + 11 + 4 * 4);
}

#[test]
fn test_has_data() {
    let mut area = MapArea::new(Area::new(0, 0, 100, 100), 24);
    assert!(!area.has_data());

    area.add_point(SplitPoint { mp_index: 0, location: pt(50, 50) });
    assert!(area.has_data());
}

#[test]
fn test_must_split_by_points() {
    let mut area = MapArea::new(Area::new(0, 0, 100, 100), 24);
    for i in 0..=MAX_NUM_POINTS {
        area.add_point(SplitPoint { mp_index: i, location: pt(50, 50) });
    }
    assert!(area.must_split());
}

#[test]
fn test_overflow_split_distributes_lines_when_too_small_to_divide() {
    let mut area = MapArea::new(Area::new(0, 0, 100, 100), 18);
    for i in 0..400 {
        area.add_line(SplitLine {
            mp_index: i,
            points: vec![pt(50, 50), pt(51, 51)],
        });
    }
    assert!(area.must_split());
    let result = add_areas_to_list(vec![area], usize::MAX);
    for (i, sub) in result.iter().enumerate() {
        assert!(
            sub.lines.len() <= MAX_NUM_LINES,
            "subdiv {} has {} lines > MAX_NUM_LINES",
            i, sub.lines.len()
        );
    }
    let total: usize = result.iter().map(|a| a.lines.len()).sum();
    assert_eq!(total, 400);
    assert!(
        result.len() >= 2,
        "overflow split should produce >= 2 subdivs, got {}",
        result.len()
    );
}

#[test]
fn test_must_split_by_rgn_size() {
    let mut area = MapArea::new(Area::new(0, 0, 100, 100), 24);
    for i in 0..160 {
        area.add_line(SplitLine {
            mp_index: i,
            points: (0..100).map(|j| pt(j, j)).collect(),
        });
    }
    assert!(area.must_split());
}

#[test]
fn test_no_split_small_area() {
    let mut area = MapArea::new(Area::new(0, 0, 100, 100), 24);
    area.add_point(SplitPoint { mp_index: 0, location: pt(50, 50) });
    assert!(!area.must_split());
    assert!(!area.want_split());
}

#[test]
fn test_split_distributes_points() {
    let bounds = Area::new(0, 0, 1000, 1000);
    let mut area = MapArea::new(bounds, 24);

    area.add_point(SplitPoint { mp_index: 0, location: pt(250, 250) });
    area.add_point(SplitPoint { mp_index: 1, location: pt(750, 250) });
    area.add_point(SplitPoint { mp_index: 2, location: pt(250, 750) });
    area.add_point(SplitPoint { mp_index: 3, location: pt(750, 750) });

    let subs = area.split(2, 2);
    assert!(subs.len() >= 2);

    let total: usize = subs.iter().map(|s| s.points.len()).sum();
    assert_eq!(total, 4);

    for sub in &subs {
        assert!(sub.has_data());
    }
}

#[test]
fn test_split_line_entire_in_single_cell_or_dedicated() {
    let bounds = Area::new(0, 0, 1000, 1000);
    let mut area = MapArea::new(bounds, 24);

    area.add_line(SplitLine {
        mp_index: 0,
        points: vec![pt(100, 100), pt(900, 900)],
    });

    let subs = area.split(2, 2);
    let total_lines: usize = subs.iter().map(|s| s.lines.len()).sum();
    assert_eq!(total_lines, 1, "line must not be duplicated across cells");
}

#[test]
fn test_split_large_line_gets_dedicated_area() {
    let bounds = Area::new(0, 0, (LARGE_OBJECT_DIM * 8) as i32, (LARGE_OBJECT_DIM * 8) as i32);
    let mut area = MapArea::new(bounds, 24);
    area.add_line(SplitLine {
        mp_index: 0,
        points: vec![
            pt(100, 100),
            pt((LARGE_OBJECT_DIM * 7) as i32, (LARGE_OBJECT_DIM * 7) as i32),
        ],
    });

    let subs = area.split(2, 2);
    assert!(subs.len() >= 5, "expected extra dedicated subdiv, got {}", subs.len());
    let total_lines: usize = subs.iter().map(|s| s.lines.len()).sum();
    assert_eq!(total_lines, 1);
}

#[test]
fn test_split_line_inside_cell_unchanged() {
    let bounds = Area::new(0, 0, 1000, 1000);
    let mut area = MapArea::new(bounds, 24);

    area.add_line(SplitLine {
        mp_index: 7,
        points: vec![pt(100, 100), pt(200, 150), pt(300, 250)],
    });

    let subs = area.split(2, 2);
    let total_lines: usize = subs.iter().map(|s| s.lines.len()).sum();
    assert_eq!(total_lines, 1);
    let hosted = subs.iter().find(|s| !s.lines.is_empty()).unwrap();
    assert_eq!(hosted.lines[0].points, vec![pt(100, 100), pt(200, 150), pt(300, 250)]);
}

#[test]
fn test_clip_polygon_inside() {
    let rect = Area::new(0, 0, 100, 100);
    let poly = vec![pt(10, 10), pt(10, 90), pt(90, 90), pt(90, 10)];
    let clipped = clip_polygon_to_rect(&poly, &rect);
    assert_eq!(clipped.len(), 4);
}

#[test]
fn test_clip_polygon_outside() {
    let rect = Area::new(0, 0, 100, 100);
    let poly = vec![pt(200, 200), pt(200, 300), pt(300, 300), pt(300, 200)];
    let clipped = clip_polygon_to_rect(&poly, &rect);
    assert!(clipped.len() < 3);
}

#[test]
fn test_clip_polygon_straddling() {
    let rect = Area::new(0, 0, 100, 100);
    let poly = vec![pt(-50, -50), pt(-50, 50), pt(50, 50), pt(50, -50)];
    let clipped = clip_polygon_to_rect(&poly, &rect);
    assert!(clipped.len() >= 3);

    for c in &clipped {
        assert!(c.latitude() >= 0);
        assert!(c.longitude() >= 0);
        assert!(c.latitude() <= 100);
        assert!(c.longitude() <= 100);
    }
}

#[test]
fn test_clip_triangle_corner() {
    let rect = Area::new(0, 0, 100, 100);
    let poly = vec![pt(50, 50), pt(150, 50), pt(50, 150)];
    let clipped = clip_polygon_to_rect(&poly, &rect);
    assert!(clipped.len() >= 3);
}

#[test]
fn test_split_max_size_small_area() {
    let mut area = MapArea::new(Area::new(0, 0, 100, 100), 24);
    area.add_point(SplitPoint { mp_index: 0, location: pt(50, 50) });
    let result = split_max_size(&area, 0);
    assert_eq!(result.len(), 1);
}

#[test]
fn test_split_max_size_large_area() {
    let mut area = MapArea::new(Area::new(0, 0, 0x10000, 0x10000), 24);
    area.add_point(SplitPoint { mp_index: 0, location: pt(50, 50) });
    let result = split_max_size(&area, 0);
    assert!(result.len() > 1);
}

#[test]
fn test_add_areas_filters_empty() {
    let areas = vec![
        MapArea::new(Area::new(0, 0, 100, 100), 24),
    ];
    let result = add_areas_to_list(areas, 8);
    assert!(result.is_empty());
}

#[test]
fn test_add_areas_splits_oversized() {
    let mut area = MapArea::new(Area::new(0, 0, 10000, 10000), 24);
    for i in 0..300 {
        let lat = (i * 33) % 10000;
        let lon = (i * 47) % 10000;
        area.add_point(SplitPoint { mp_index: i, location: pt(lat as i32, lon as i32) });
    }

    let result = add_areas_to_list(vec![area], 8);
    assert!(result.len() > 1);

    let total: usize = result.iter().map(|a| a.points.len()).sum();
    assert_eq!(total, 300);

    for a in &result {
        assert!(a.has_data());
    }
}

#[test]
fn test_split_features_preserves_all() {
    let bounds = Area::new(0, 0, 50000, 50000);
    let mut points = Vec::new();
    let mut lines = Vec::new();
    let mut shapes = Vec::new();

    for i in 0..50 {
        let lat = (i * 997) % 50000;
        let lon = (i * 1013) % 50000;
        points.push(SplitPoint { mp_index: i, location: pt(lat as i32, lon as i32) });
    }

    for i in 0..20 {
        let y = (i * 2500) % 50000;
        lines.push(SplitLine {
            mp_index: i,
            points: vec![pt(y as i32, 100), pt(y as i32 + 100, 200)],
        });
    }

    for i in 0..10 {
        let y = (i * 5000) % 50000;
        let x = (i * 3000) % 50000;
        shapes.push(SplitShape {
            mp_index: i,
            points: vec![
                pt(y as i32, x as i32),
                pt(y as i32 + 100, x as i32),
                pt(y as i32 + 100, x as i32 + 100),
                pt(y as i32, x as i32 + 100),
            ],
        });
    }

    let result = split_features(bounds, 24, points, lines, shapes);

    for area in &result {
        assert!(area.has_data());
    }

    let total_points: usize = result.iter().map(|a| a.points.len()).sum();
    let total_lines: usize = result.iter().map(|a| a.lines.len()).sum();
    assert_eq!(total_points, 50);
    assert!(total_lines >= 20, "got {total_lines}");
}

#[test]
fn test_split_features_keeps_every_shape_source() {
    let bounds = Area::new(0, 0, 50000, 50000);
    let mut points = Vec::new();
    for i in 0..300 {
        points.push(SplitPoint { mp_index: i, location: pt(((i * 131) % 50000) as i32, ((i * 173) % 50000) as i32) });
    }
    let mut shapes = Vec::new();
    for i in 0..6usize {
        let y = (i * 8000) as i32;
        shapes.push(SplitShape {
            mp_index: 1000 + i,
            points: vec![pt(y, 100), pt(y + 30000, 100), pt(y + 30000, 40000), pt(y, 40000)],
        });
    }
    shapes.push(SplitShape { mp_index: 2000, points: vec![pt(10, 10), pt(20, 20)] });
    let result = split_features(bounds, 24, points, Vec::new(), shapes);
    let ids: Vec<usize> = result.iter().flat_map(|a| a.shapes.iter().map(|s| s.mp_index)).collect();
    for i in 0..6usize {
        assert!(ids.contains(&(1000 + i)), "shape {} lost", 1000 + i);
    }
    for id in &ids {
        assert!((1000..1006).contains(id) || *id == 2000);
    }
    let total_points: usize = result.iter().map(|a| a.points.len()).sum();
    assert_eq!(total_points, 300);
}

#[test]
fn test_split_features_empty_input_gives_nothing() {
    let result = split_features(Area::new(0, 0, 1000, 1000), 24, Vec::new(), Vec::new(), Vec::new());
    assert!(result.is_empty());
}
