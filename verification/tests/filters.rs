use imgforge::img::coord::Coord;
use imgforge::img::filters::remove_empty::passes_remove_empty;
use imgforge::img::filters::remove_obsolete_points::{is_straight, remove_obsolete_points, Straight};
use imgforge::img::filters::round_coords::round_coords;
use imgforge::img::filters::size::passes_size_filter;

fn c(x: i32, y: i32) -> Coord {
    Coord::new(y, x)
}

#[test]
fn rejects_single_point_line() {
    assert!(!passes_remove_empty(&[c(0, 0)], false));
}

#[test]
fn accepts_two_point_line() {
    assert!(passes_remove_empty(&[c(0, 0), c(1, 1)], false));
}

#[test]
fn rejects_three_point_shape() {
    assert!(!passes_remove_empty(&[c(0, 0), c(1, 0), c(0, 1)], true));
}

#[test]
fn accepts_four_point_shape() {
    assert!(passes_remove_empty(&[c(0, 0), c(1, 0), c(0, 1), c(0, 0)], true));
}

#[test]
fn shift_zero_always_passes() {
    let pts = vec![c(0, 0), c(0, 0)];
    assert!(passes_size_filter(&pts, 0, 1));
}

#[test]
fn rejects_below_threshold() {
    let pts = vec![c(0, 0), c(32, 32)];
    assert!(!passes_size_filter(&pts, 6, 1));
}

#[test]
fn accepts_at_threshold() {
    let pts = vec![c(0, 0), c(64, 0)];
    assert!(passes_size_filter(&pts, 6, 1));
}

#[test]
fn accepts_above_threshold() {
    let pts = vec![c(0, 0), c(100, 100)];
    assert!(passes_size_filter(&pts, 6, 1));
}

#[test]
fn empty_always_passes() {
    assert!(passes_size_filter(&[], 6, 1));
}

#[test]
fn size_threshold_scales_with_size() {
    let pts = vec![c(0, 0), c(127, 0)];
    assert!(!passes_size_filter(&pts, 6, 2));
    let pts = vec![c(0, 0), c(0, 128)];
    assert!(passes_size_filter(&pts, 6, 2));
}

#[test]
fn shift_zero_is_noop() {
    let pts = vec![Coord::new(100, 200), Coord::new(103, 204)];
    assert_eq!(round_coords(&pts, 0), pts);
}

#[test]
fn shift_six_buckets_to_64() {
    let pts = vec![Coord::new(10, 10), Coord::new(50, 50)];
    let out = round_coords(&pts, 6);
    assert_eq!(out, vec![Coord::new(0, 0), Coord::new(64, 64)]);
}

#[test]
fn collapses_points_in_same_bucket() {
    let pts = vec![Coord::new(10, 10), Coord::new(11, 12), Coord::new(20, 25)];
    let out = round_coords(&pts, 6);
    assert_eq!(out, vec![Coord::new(0, 0)]);
}

#[test]
fn negative_coords_rounded_correctly() {
    let pts = vec![Coord::new(-10, -10), Coord::new(-70, -70)];
    let out = round_coords(&pts, 6);
    assert_eq!(out, vec![Coord::new(0, 0), Coord::new(-64, -64)]);
}

#[test]
fn empty_input_returns_empty() {
    assert!(round_coords(&[], 6).is_empty());
}

#[test]
fn rounding_keeps_non_adjacent_repeats() {
    let pts = vec![Coord::new(0, 0), Coord::new(100, 100), Coord::new(1, 1)];
    let out = round_coords(&pts, 6);
    assert_eq!(out, vec![Coord::new(0, 0), Coord::new(128, 128), Coord::new(0, 0)]);
}

#[test]
fn drops_strictly_straight_point() {
    let pts = vec![c(0, 0), c(1, 1), c(2, 2)];
    let out = remove_obsolete_points(&pts, false);
    assert_eq!(out, vec![c(0, 0), c(2, 2)]);
}

#[test]
fn preserves_non_collinear_point() {
    let pts = vec![c(0, 0), c(1, 5), c(2, 0)];
    let out = remove_obsolete_points(&pts, false);
    assert_eq!(out, pts);
}

#[test]
fn drops_duplicate_point() {
    let pts = vec![c(0, 0), c(1, 1), c(1, 1), c(2, 2)];
    let out = remove_obsolete_points(&pts, false);
    assert_eq!(out, vec![c(0, 0), c(2, 2)]);
}

#[test]
fn drops_abcba_back_and_forth_polyline() {
    let pts = vec![c(0, 0), c(1, 0), c(2, 0), c(1, 0), c(0, 0)];
    let out = remove_obsolete_points(&pts, false);
    assert_eq!(out, vec![c(0, 0), c(2, 0)]);
}

#[test]
fn shape_drops_spike_point() {
    let pts = vec![c(0, 0), c(2, 0), c(1, 5), c(2, 0), c(0, 0)];
    let out = remove_obsolete_points(&pts, true);
    assert!(out.len() < pts.len());
    assert!(out.len() >= 4 || out.is_empty());
}

#[test]
fn short_line_below_minimum_returns_empty() {
    let pts = vec![c(0, 0), c(0, 0)];
    let out = remove_obsolete_points(&pts, false);
    assert!(out.is_empty());
}

#[test]
fn preserves_single_point() {
    let pts = vec![c(5, 5)];
    assert_eq!(remove_obsolete_points(&pts, false), pts);
}

#[test]
fn is_straight_detects_collinear() {
    assert_eq!(is_straight(&c(0, 0), &c(1, 1), &c(2, 2)), Straight::StrictlyStraight);
    assert_eq!(is_straight(&c(0, 0), &c(1, 0), &c(0, 0)), Straight::StraightSpike);
    assert_eq!(is_straight(&c(0, 0), &c(1, 5), &c(2, 0)), Straight::NotStraight);
}

#[test]
fn filtered_polyline_has_no_repeated_neighbours() {
    let pts = vec![c(0, 0), c(0, 0), c(3, 1), c(3, 1), c(7, 9)];
    let out = remove_obsolete_points(&pts, false);
    for w in out.windows(2) {
        assert_ne!(w[0], w[1]);
    }
    assert_eq!(out, vec![c(0, 0), c(3, 1), c(7, 9)]);
}
