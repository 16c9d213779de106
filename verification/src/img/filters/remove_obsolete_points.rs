//! Removing duplicate, collinear and spike points.
use vstd::prelude::*;
use crate::img::coord::Coord;

verus! {

/// How three points lie.
#[derive(Clone, Copy, Debug, PartialEq, Eq, Structural)]
pub enum Straight {
    NotStraight,
    /// Collinear, turning back (or first and third equal)
    StraightSpike,
    /// Collinear, going on in the same direction
    StrictlyStraight,
}

/// Opposite signs.
pub open spec fn reverses(d1: int, d2: int) -> bool {
    (d1 < 0 && d2 > 0) || (d1 > 0 && d2 < 0)
}

/// How `c1`, `c2`, `c3` lie: a spike when `c1 == c3` or when they are
/// collinear (zero triangle area) and the path turns back on an axis,
/// strictly straight when collinear otherwise.
pub open spec fn spec_is_straight(c1: Coord, c2: Coord, c3: Coord) -> Straight {
    if c1 == c3 {
        Straight::StraightSpike
    } else {
        let (x1, y1, x2, y2, x3, y3) = (c1.longitude as int, c1.latitude as int, c2.longitude as int,
            c2.latitude as int, c3.longitude as int, c3.latitude as int);
        let area = x1 * y2 - x2 * y1 + x2 * y3 - x3 * y2 + x3 * y1 - x1 * y3;
        if area != 0 {
            Straight::NotStraight
        } else if reverses(y1 - y2, y2 - y3) || reverses(x1 - x2, x2 - x3) {
            Straight::StraightSpike
        } else {
            Straight::StrictlyStraight
        }
    }
}

/// How three points lie (doubled signed triangle area, then directions).
pub fn is_straight(c1: &Coord, c2: &Coord, c3: &Coord) -> (r: Straight)
    ensures
        r == spec_is_straight(*c1, *c2, *c3),
{
    if *c1 == *c3 {
        return Straight::StraightSpike;
    }
    let (x1, y1) = (c1.longitude as i128, c1.latitude as i128);
    let (x2, y2) = (c2.longitude as i128, c2.latitude as i128);
    let (x3, y3) = (c3.longitude as i128, c3.latitude as i128);
    assert(-0x4000_0000_0000_0000i128 <= x1 * y2 <= 0x4000_0000_0000_0000i128) by (nonlinear_arith)
        requires -0x8000_0000i128 <= x1 < 0x8000_0000i128, -0x8000_0000i128 <= y2 < 0x8000_0000i128;
    assert(-0x4000_0000_0000_0000i128 <= x2 * y1 <= 0x4000_0000_0000_0000i128) by (nonlinear_arith)
        requires -0x8000_0000i128 <= x2 < 0x8000_0000i128, -0x8000_0000i128 <= y1 < 0x8000_0000i128;
    assert(-0x4000_0000_0000_0000i128 <= x2 * y3 <= 0x4000_0000_0000_0000i128) by (nonlinear_arith)
        requires -0x8000_0000i128 <= x2 < 0x8000_0000i128, -0x8000_0000i128 <= y3 < 0x8000_0000i128;
    assert(-0x4000_0000_0000_0000i128 <= x3 * y2 <= 0x4000_0000_0000_0000i128) by (nonlinear_arith)
        requires -0x8000_0000i128 <= x3 < 0x8000_0000i128, -0x8000_0000i128 <= y2 < 0x8000_0000i128;
    assert(-0x4000_0000_0000_0000i128 <= x3 * y1 <= 0x4000_0000_0000_0000i128) by (nonlinear_arith)
        requires -0x8000_0000i128 <= x3 < 0x8000_0000i128, -0x8000_0000i128 <= y1 < 0x8000_0000i128;
    assert(-0x4000_0000_0000_0000i128 <= x1 * y3 <= 0x4000_0000_0000_0000i128) by (nonlinear_arith)
        requires -0x8000_0000i128 <= x1 < 0x8000_0000i128, -0x8000_0000i128 <= y3 < 0x8000_0000i128;
    let area: i128 = x1 * y2 - x2 * y1 + x2 * y3 - x3 * y2 + x3 * y1 - x1 * y3;
    if area != 0 {
        return Straight::NotStraight;
    }
    let d1: i64 = c1.latitude as i64 - c2.latitude as i64;
    let d2: i64 = c2.latitude as i64 - c3.latitude as i64;
    if (d1 < 0 && d2 > 0) || (d1 > 0 && d2 < 0) {
        return Straight::StraightSpike;
    }
    let d1: i64 = c1.longitude as i64 - c2.longitude as i64;
    let d2: i64 = c2.longitude as i64 - c3.longitude as i64;
    if (d1 < 0 && d2 > 0) || (d1 > 0 && d2 < 0) {
        return Straight::StraightSpike;
    }
    Straight::StrictlyStraight
}

/// No two consecutive points are equal.
pub open spec fn no_repeats(s: Seq<Coord>) -> bool {
    forall|k: int| 0 < k < s.len() ==> #[trigger] s[k] != s[k - 1]
}

/// Every point of `s` is a point of `src`.
pub open spec fn drawn_from(s: Seq<Coord>, src: Seq<Coord>) -> bool {
    forall|k: int| 0 <= k < s.len() ==> src.contains(#[trigger] s[k])
}

/// One point of a pass: drop a repeat; replace the middle of a strictly
/// straight triple; for a shape, drop a spike's tip (and the point itself
/// when it brings the path back onto the point before); else append.
/// The flag records a dropped spike.
pub open spec fn obsolete_step(state: (Seq<Coord>, bool), p: Coord, is_shape: bool) -> (Seq<Coord>, bool) {
    let np = state.0;
    let last = np.len() - 1;
    if np[last] == p {
        state
    } else if np.len() > 1 {
        match spec_is_straight(np[last - 1], np[last], p) {
            Straight::StrictlyStraight => (np.update(last, p), state.1),
            Straight::StraightSpike => if is_shape {
                let np2 = np.drop_last();
                if np2[np2.len() - 1] == p { (np2, true) } else { (np2.push(p), true) }
            } else {
                (np.push(p), state.1)
            },
            Straight::NotStraight => (np.push(p), state.1),
        }
    } else {
        (np.push(p), state.1)
    }
}

/// One pass over the first `i` points (the first point always kept).
pub open spec fn obsolete_pass(points: Seq<Coord>, i: int, is_shape: bool) -> (Seq<Coord>, bool)
    decreases i,
{
    if i <= 1 {
        (seq![points[0]], false)
    } else {
        obsolete_step(obsolete_pass(points, i - 1, is_shape), points[i - 1], is_shape)
    }
}

/// A pass keeps at least one point, and one fewer than it read when it
/// dropped a spike.
pub proof fn lemma_obsolete_pass_len(points: Seq<Coord>, i: int, is_shape: bool)
    requires
        1 <= i,
    ensures
        obsolete_pass(points, i, is_shape).0.len() >= 1,
        obsolete_pass(points, i, is_shape).0.len() + (if obsolete_pass(points, i, is_shape).1 { 1int } else { 0int }) <= i,
    decreases i,
{
    if i > 1 {
        lemma_obsolete_pass_len(points, i - 1, is_shape);
    }
}

/// Passes repeated while a pass drops a spike and leaves enough points.
pub open spec fn obsolete_passes(points: Seq<Coord>, is_shape: bool) -> Seq<Coord>
    decreases points.len(),
{
    if points.len() == 0 {
        points
    } else {
        let r = obsolete_pass(points, points.len() as int, is_shape);
        if !r.1 || r.0.len() < (if is_shape { 4int } else { 2int }) {
            r.0
        } else {
            proof {
                lemma_obsolete_pass_len(points, points.len() as int, is_shape);
            }
            obsolete_passes(r.0, is_shape)
        }
    }
}

/// How many points from the start equal their mirror from the end.
pub open spec fn mirror_count(points: Seq<Coord>, k: int) -> int
    decreases points.len() - k,
{
    let len = points.len();
    if k < 0 || k >= len || points[k] != points[len - 1 - k] {
        k
    } else if k + 1 > len - 1 - (k + 1) {
        k + 1
    } else {
        mirror_count(points, k + 1)
    }
}

/// A polyline going out and back the same way is cut to its outward half.
pub open spec fn fold_back(points: Seq<Coord>, is_shape: bool) -> Seq<Coord> {
    if !is_shape && points.len() > 2 && mirror_count(points, 0) > 1 {
        points.take(points.len() - mirror_count(points, 0) + 1)
    } else {
        points
    }
}

/// Spec of `remove_obsolete_points`.
pub open spec fn spec_remove_obsolete(pts: Seq<Coord>, is_shape: bool) -> Seq<Coord> {
    if pts.len() <= 1 {
        pts
    } else {
        let q = fold_back(obsolete_passes(pts, is_shape), is_shape);
        if (is_shape && q.len() <= 3) || q.len() <= 1 { Seq::empty() } else { q }
    }
}

/// Remove repeated points, the middle point of strictly straight triples,
/// and (for shapes, repeatedly) spikes; a polyline going out and back the
/// same way (a-b-c-b-a) is cut to its outward half. A result below the
/// minimum (2 points, 4 for a shape) is empty; a single point is kept.
pub fn remove_obsolete_points(pts: &[Coord], is_shape: bool) -> (r: Vec<Coord>)
    ensures
        r@ == spec_remove_obsolete(pts@, is_shape),
        pts@.len() <= 1 ==> r@ == pts@,
        pts@.len() > 1 ==> r@.len() == 0 || (r@.len() >= 2 && (is_shape ==> r@.len() >= 4)),
        pts@.len() > 1 ==> no_repeats(r@),
        drawn_from(r@, pts@),
        r@.len() <= pts@.len(),
{
    let n = pts.len();
    let mut points: Vec<Coord> = Vec::new();
    let mut i: usize = 0;
    while i < n
        invariant
            n == pts@.len(),
            i <= n,
            points@ == pts@.take(i as int),
        decreases n - i,
    {
        points.push(pts[i]);
        assert(points@ =~= pts@.take(i + 1));
        i = i + 1;
    }
    assert(points@ =~= pts@);
    if n <= 1 {
        return points;
    }
    proof {
        assert forall|k: int| 0 <= k < points@.len() implies pts@.contains(#[trigger] points@[k]) by {
            assert(pts@[k] == points@[k]);
        }
    }
    let required: usize = if is_shape { 4 } else { 2 };
    loop
        invariant_except_break
            obsolete_passes(points@, is_shape) == obsolete_passes(pts@, is_shape),
        invariant
            points@.len() >= 1,
            points@.len() <= n,
            drawn_from(points@, pts@),
            n == pts@.len() > 1,
            required == (if is_shape { 4usize } else { 2usize }),
        ensures
            points@.len() >= 1,
            points@.len() <= n,
            drawn_from(points@, pts@),
            no_repeats(points@),
            points@ == obsolete_passes(pts@, is_shape),
        decreases points@.len(),
    {
        let mut removed_spike = false;
        let mut new_points: Vec<Coord> = Vec::new();
        new_points.push(points[0]);
        let mut i: usize = 1;
        while i < points.len()
            invariant
                1 <= i <= points@.len(),
                new_points@.len() >= 1,
                new_points@.len() + (if removed_spike { 1int } else { 0int }) <= i,
                drawn_from(points@, pts@),
                drawn_from(new_points@, pts@),
                no_repeats(new_points@),
                (new_points@, removed_spike) == obsolete_pass(points@, i as int, is_shape),
            decreases points@.len() - i,
        {
            let new_p = points[i];
            let last = new_points.len() - 1;
            let last_p = new_points[last];
            assert(pts@.contains(points@[i as int]));
            if last_p == new_p {
                i = i + 1;
                continue;
            }
            if new_points.len() > 1 {
                let prev = new_points[last - 1];
                match is_straight(&prev, &last_p, &new_p) {
                    Straight::StrictlyStraight => {
                        let ghost before = new_points@;
                        new_points.set(last, new_p);
                        proof {
                            assert(prev != new_p);
                            assert forall|k: int| 0 < k < new_points@.len() implies #[trigger] new_points@[k] != new_points@[k - 1] by {
                                if k < last {
                                    assert(before[k] != before[k - 1]);
                                }
                            }
                            assert forall|k: int| 0 <= k < new_points@.len() implies pts@.contains(#[trigger] new_points@[k]) by {
                                if k < last {
                                    assert(pts@.contains(before[k]));
                                }
                            }
                        }
                        i = i + 1;
                        continue;
                    },
                    Straight::StraightSpike => {
                        if is_shape {
                            new_points.pop();
                            removed_spike = true;
                            let l2 = new_points.len() - 1;
                            if new_points[l2] == new_p {
                                i = i + 1;
                                continue;
                            }
                        }
                    },
                    Straight::NotStraight => {},
                }
            }
            let ghost before = new_points@;
            new_points.push(new_p);
            proof {
                assert forall|k: int| 0 < k < new_points@.len() implies #[trigger] new_points@[k] != new_points@[k - 1] by {
                    if k < before.len() {
                        assert(before[k] != before[k - 1]);
                    }
                }
                assert forall|k: int| 0 <= k < new_points@.len() implies pts@.contains(#[trigger] new_points@[k]) by {
                    if k < before.len() {
                        assert(pts@.contains(before[k]));
                    }
                }
            }
            i = i + 1;
        }
        proof {
            lemma_obsolete_pass_len(points@, points@.len() as int, is_shape);
        }
        let ghost old_points = points@;
        assert((new_points@, removed_spike) == obsolete_pass(old_points, old_points.len() as int, is_shape));
        points = new_points;
        if !removed_spike || points.len() < required {
            assert(obsolete_passes(old_points, is_shape) == points@);
            break;
        }
        assert(obsolete_passes(old_points, is_shape) == obsolete_passes(points@, is_shape));
    }
    let ghost passed = points@;
    if !is_shape && points.len() > 2 {
        let len = points.len();
        let mut len_dup: usize = 0;
        loop
            invariant_except_break
                2 * len_dup <= len - 1,
                mirror_count(passed, 0) == mirror_count(passed, len_dup as int),
            invariant
                len == points@.len() > 2,
                points@ == passed,
            ensures
                len == points@.len() > 2,
                2 * len_dup <= len + 1,
                len_dup == mirror_count(passed, 0),
            decreases len - len_dup,
        {
            let mirror = len - 1 - len_dup;
            if points[len_dup] != points[mirror] {
                break;
            }
            len_dup = len_dup + 1;
            if len_dup > len - 1 - len_dup {
                break;
            }
        }
        if len_dup > 1 {
            let new_len = len - len_dup + 1;
            let ghost before = points@;
            points.truncate(new_len);
            proof {
                assert forall|k: int| 0 < k < points@.len() implies #[trigger] points@[k] != points@[k - 1] by {
                    assert(before[k] != before[k - 1]);
                }
                assert forall|k: int| 0 <= k < points@.len() implies pts@.contains(#[trigger] points@[k]) by {
                    assert(pts@.contains(before[k]));
                }
            }
        }
    }
    assert(points@ == fold_back(passed, is_shape));
    if (is_shape && points.len() <= 3) || points.len() <= 1 {
        return Vec::new();
    }
    points
}

} // verus!
