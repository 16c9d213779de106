//! Preparation of features for the RGN encoder: lines and polygons cut
//! into elements of at most 250 points, and small helpers of the build.
use vstd::prelude::*;
use std::collections::VecDeque;
use crate::img::area::{Area, area_of, tdiv, wadd, seq_min_lat, seq_min_lon, seq_max_lat, seq_max_lon};
use crate::img::coord::Coord;
use crate::img::splitter::{SplitLine, SplitShape, clip_polygon_to_rect, spec_clip_polygon};
use crate::img::subdivision::Subdivision;
use crate::img::area::wsub;
use crate::parser::mp_types::{levels_sorted, push_coords, spec_all_coords, MpPoint, MpPolygon, MpPolyline};
use crate::error::ImgError;
use crate::img::nod::RouteNode;

verus! {

/// Most points one RGN element may hold.
pub const MAX_POINTS_IN_ELEMENT: usize = 250;

/// Most polygon splits made before the remaining fragments are kept as they are.
pub const MAX_POLYGON_SPLIT_ITERATIONS: usize = 10_000;

/// A feature as its source index and its points.
pub open spec fn line_view(l: SplitLine) -> (usize, Seq<Coord>) {
    (l.mp_index, l.points@)
}

pub open spec fn shape_view(s: SplitShape) -> (usize, Seq<Coord>) {
    (s.mp_index, s.points@)
}

/// The chunk bounds `(start, end)` of a line of `n` points from point
/// `pos` on, the next chunk `wanted` points long; consecutive chunks share
/// one point, and when what is left exceeds one chunk but not two it is
/// cut in two halves.
pub open spec fn line_chunks(pos: int, wanted: int, n: int, emitted: int) -> Seq<(int, int)>
    decreases n - pos,
{
    if wanted < 2 || pos >= n {
        Seq::empty()
    } else {
        let end = if pos + wanted < n { pos + wanted } else { n };
        if end >= n || emitted + 1 >= n {
            seq![(pos, end)]
        } else {
            let pos2 = end - 1;
            let rem = n - pos2;
            if rem <= MAX_POINTS_IN_ELEMENT {
                seq![(pos, end), (pos2, n)]
            } else {
                seq![(pos, end)] + line_chunks(
                    pos2,
                    if rem < 2 * MAX_POINTS_IN_ELEMENT { rem / 2 + 1 } else { MAX_POINTS_IN_ELEMENT as int },
                    n,
                    emitted + 1,
                )
            }
        }
    }
}

/// The chunk bounds of a line of `n` points: itself when short enough.
pub open spec fn split_chunks(n: int) -> Seq<(int, int)> {
    if n <= MAX_POINTS_IN_ELEMENT {
        seq![(0, n)]
    } else {
        line_chunks(
            0,
            if n < 2 * MAX_POINTS_IN_ELEMENT { n / 2 + 1 } else { MAX_POINTS_IN_ELEMENT as int },
            n,
            0,
        )
    }
}

/// The pieces of line `l` cut at bounds `bs`.
pub open spec fn pieces(l: (usize, Seq<Coord>), bs: Seq<(int, int)>) -> Seq<(usize, Seq<Coord>)> {
    Seq::new(bs.len(), |i: int| (l.0, l.1.subrange(bs[i].0, bs[i].1)))
}

/// The pieces of one line.
pub open spec fn split_line(l: (usize, Seq<Coord>)) -> Seq<(usize, Seq<Coord>)> {
    pieces(l, split_chunks(l.1.len() as int))
}

/// The pieces of the first `k` lines, in order.
pub open spec fn split_lines(ls: Seq<(usize, Seq<Coord>)>, k: int) -> Seq<(usize, Seq<Coord>)>
    decreases k,
{
    if k <= 0 { Seq::empty() } else { split_lines(ls, k - 1) + split_line(ls[k - 1]) }
}

fn slice_coords(v: &Vec<Coord>, start: usize, end: usize) -> (r: Vec<Coord>)
    requires
        start <= end <= v@.len(),
    ensures
        r@ == v@.subrange(start as int, end as int),
{
    let mut out: Vec<Coord> = Vec::new();
    let mut i = start;
    while i < end
        invariant
            start <= i <= end <= v@.len(),
            out@ == v@.subrange(start as int, i as int),
        decreases end - i,
    {
        out.push(v[i]);
        i += 1;
        assert(out@ =~= v@.subrange(start as int, i as int));
    }
    out
}

pub open spec fn lines_view(v: Seq<SplitLine>) -> Seq<(usize, Seq<Coord>)> {
    v.map_values(|l: SplitLine| line_view(l))
}

proof fn lemma_line_chunks_unfold(pos: int, wanted: int, n: int, emitted: int)
    requires
        0 <= pos < n,
        wanted >= 2,
    ensures
        ({
            let s = line_chunks(pos, wanted, n, emitted);
            let end = if pos + wanted < n { pos + wanted } else { n };
            let pos2 = end - 1;
            &&& s.len() >= 1
            &&& s[0] == (pos, end)
            &&& (end >= n || emitted + 1 >= n) ==> s == seq![(pos, end)]
            &&& !(end >= n || emitted + 1 >= n) && n - pos2 <= MAX_POINTS_IN_ELEMENT ==> s == seq![(pos, end), (pos2, n)]
            &&& !(end >= n || emitted + 1 >= n) && n - pos2 > MAX_POINTS_IN_ELEMENT ==> s == seq![(pos, end)]
                + line_chunks(
                pos2,
                if n - pos2 < 2 * MAX_POINTS_IN_ELEMENT { (n - pos2) / 2 + 1 } else { MAX_POINTS_IN_ELEMENT as int },
                n,
                emitted + 1,
            )
        }),
{
}

/// Chunk bounds are consecutive, overlap by one point, cover the line, and
/// hold 2 to 250 points each.
pub open spec fn chunks_well_cut(s: Seq<(int, int)>, pos: int, n: int) -> bool {
    &&& s.len() >= 1
    &&& s[0].0 == pos
    &&& s[s.len() - 1].1 == n
    &&& forall|i: int| 0 <= i < s.len() ==> 2 <= #[trigger] s[i].1 - s[i].0 <= MAX_POINTS_IN_ELEMENT
    &&& forall|i: int| 0 <= i < s.len() ==> pos <= #[trigger] s[i].0 && s[i].1 <= n
    &&& forall|i: int| 1 <= i < s.len() ==> #[trigger] s[i].0 == s[i - 1].1 - 1
}

proof fn lemma_line_chunks_well_cut(pos: int, wanted: int, n: int, emitted: int)
    requires
        0 <= pos,
        pos + wanted <= n,
        126 <= wanted <= MAX_POINTS_IN_ELEMENT,
        125 * emitted <= pos,
        0 <= emitted,
    ensures
        chunks_well_cut(line_chunks(pos, wanted, n, emitted), pos, n),
    decreases n - pos,
{
    lemma_line_chunks_unfold(pos, wanted, n, emitted);
    let s = line_chunks(pos, wanted, n, emitted);
    let end = pos + wanted;
    if end >= n || emitted + 1 >= n {
    } else {
        let pos2 = end - 1;
        let rem = n - pos2;
        if rem <= MAX_POINTS_IN_ELEMENT {
        } else {
            let w2 = if rem < 2 * MAX_POINTS_IN_ELEMENT { rem / 2 + 1 } else { MAX_POINTS_IN_ELEMENT as int };
            lemma_line_chunks_well_cut(pos2, w2, n, emitted + 1);
            let t = line_chunks(pos2, w2, n, emitted + 1);
            assert(s == seq![(pos, end)] + t);
            assert forall|i: int| 1 <= i < s.len() implies #[trigger] s[i].0 == s[i - 1].1 - 1 by {
                assert(s[i] == t[i - 1]);
                if i > 1 {
                    assert(s[i - 1] == t[i - 2]);
                }
            }
            assert forall|i: int| 0 <= i < s.len() implies 2 <= #[trigger] s[i].1 - s[i].0 <= MAX_POINTS_IN_ELEMENT by {
                if i > 0 {
                    assert(s[i] == t[i - 1]);
                }
            }
            assert forall|i: int| 0 <= i < s.len() implies pos <= #[trigger] s[i].0 && s[i].1 <= n by {
                if i > 0 {
                    assert(s[i] == t[i - 1]);
                }
            }
        }
    }
}

/// A line of more than 250 points is cut into pieces of 2 to 250 points,
/// the first starting at its first point and the last ending at its last,
/// each piece starting at the point where the one before ends; every
/// piece keeps the line's source index. A shorter line is its own piece.
pub proof fn lemma_split_line_pieces(l: (usize, Seq<Coord>))
    ensures
        l.1.len() <= MAX_POINTS_IN_ELEMENT ==> split_line(l) == seq![l],
        l.1.len() > MAX_POINTS_IN_ELEMENT ==> {
            let p = split_line(l);
            &&& p.len() >= 2
            &&& p[0].1[0] == l.1[0]
            &&& p[p.len() - 1].1[p[p.len() - 1].1.len() - 1] == l.1[l.1.len() - 1]
            &&& forall|i: int| 0 <= i < p.len() ==> 2 <= (#[trigger] p[i]).1.len() <= MAX_POINTS_IN_ELEMENT
            &&& forall|i: int| 0 <= i < p.len() ==> (#[trigger] p[i]).0 == l.0
            &&& forall|i: int| 0 <= i < p.len() - 1 ==>
                (#[trigger] p[i + 1]).1[0] == p[i].1[p[i].1.len() - 1]
        },
{
    let n = l.1.len() as int;
    if n <= MAX_POINTS_IN_ELEMENT {
        assert(l.1.subrange(0, n) =~= l.1);
        assert(split_line(l) =~= seq![l]);
    } else {
        let w = if n < 2 * MAX_POINTS_IN_ELEMENT { n / 2 + 1 } else { MAX_POINTS_IN_ELEMENT as int };
        lemma_line_chunks_well_cut(0, w, n, 0);
        lemma_line_chunks_unfold(0, w, n, 0);
        let s = split_chunks(n);
        let p = split_line(l);
        assert(s.len() >= 2);
        assert forall|i: int| 0 <= i < p.len() - 1 implies (#[trigger] p[i + 1]).1[0] == p[i].1[p[i].1.len() - 1] by {
            assert(s[i + 1].0 == s[(i + 1) - 1].1 - 1);
            assert(2 <= s[i].1 - s[i].0);
            assert(2 <= s[i + 1].1 - s[i + 1].0);
            assert(0 <= s[i].0 && s[i].1 <= n);
            assert(0 <= s[i + 1].0 && s[i + 1].1 <= n);
        }
        assert forall|i: int| 0 <= i < p.len() implies 2 <= (#[trigger] p[i]).1.len() <= MAX_POINTS_IN_ELEMENT by {
            assert(2 <= s[i].1 - s[i].0 <= MAX_POINTS_IN_ELEMENT);
            assert(0 <= s[i].0 && s[i].1 <= n);
        }
    }
}

/// Append the pieces of `line` to `result`.
fn push_line_chunks(line: &SplitLine, result: &mut Vec<SplitLine>)
    ensures
        lines_view(final(result)@) == lines_view(old(result)@) + split_line(line_view(*line)),
{
    let ghost start = lines_view(result@);
    let ghost l = line_view(*line);
    let npoints = line.points.len();
    let ghost n = npoints as int;
    let ghost all = split_chunks(n);
    if npoints <= MAX_POINTS_IN_ELEMENT {
        result.push(SplitLine { mp_index: line.mp_index, points: slice_coords(&line.points, 0, npoints) });
        assert(lines_view(result@) =~= start + split_line(l));
        return;
    }
    let mut pos: usize = 0;
    let mut wanted: usize = if npoints < 2 * MAX_POINTS_IN_ELEMENT {
        npoints / 2 + 1
    } else {
        MAX_POINTS_IN_ELEMENT
    };
    let max_chunks = npoints;
    let mut chunks_emitted: usize = 0;
    assert(all.subrange(0, all.len() as int) =~= all);
    loop
        invariant
            npoints == line.points@.len(),
            n == npoints,
            l == line_view(*line),
            start == lines_view(old(result)@),
            all == split_chunks(n),
            n > MAX_POINTS_IN_ELEMENT,
            pos < npoints,
            2 <= wanted <= MAX_POINTS_IN_ELEMENT,
            max_chunks == npoints,
            chunks_emitted < npoints,
            chunks_emitted <= all.len(),
            line_chunks(pos as int, wanted as int, n, chunks_emitted as int)
                == all.subrange(chunks_emitted as int, all.len() as int),
            lines_view(result@) == start + pieces(l, all.subrange(0, chunks_emitted as int)),
        decreases npoints - pos,
    {
        let ghost k = chunks_emitted as int;
        let ghost rest = line_chunks(pos as int, wanted as int, n, k);
        proof {
            lemma_line_chunks_unfold(pos as int, wanted as int, n, k);
        }
        let end = if wanted < npoints - pos { pos + wanted } else { npoints };
        assert(rest[0] == all[k]);
        assert(all.len() > k);
        let ghost before = lines_view(result@);
        let piece = SplitLine { mp_index: line.mp_index, points: slice_coords(&line.points, pos, end) };
        let ghost pv = line_view(piece);
        result.push(piece);
        chunks_emitted += 1;
        assert(lines_view(result@) =~= before.push(pv));
        assert(all.subrange(0, k + 1) =~= all.subrange(0, k).push(all[k]));
        assert(pieces(l, all.subrange(0, k + 1)) =~= pieces(l, all.subrange(0, k)).push(pv));
        assert(lines_view(result@) =~= start + pieces(l, all.subrange(0, k + 1)));
        if end >= npoints || chunks_emitted >= max_chunks {
            assert(all.len() == k + 1);
            assert(all.subrange(0, k + 1) =~= all);
            return;
        }
        pos = end - 1;
        let remaining = npoints - pos;
        if remaining <= MAX_POINTS_IN_ELEMENT {
            assert(rest[1] == all[k + 1]);
            assert(all.len() == k + 2);
            let ghost before2 = lines_view(result@);
            let last = SplitLine { mp_index: line.mp_index, points: slice_coords(&line.points, pos, npoints) };
            let ghost lv = line_view(last);
            result.push(last);
            assert(lines_view(result@) =~= before2.push(lv));
            assert(all.subrange(0, k + 2) =~= all.subrange(0, k + 1).push(all[k + 1]));
            assert(pieces(l, all.subrange(0, k + 2)) =~= pieces(l, all.subrange(0, k + 1)).push(lv));
            assert(lines_view(result@) =~= start + pieces(l, all.subrange(0, k + 2)));
            assert(all.subrange(0, k + 2) =~= all);
            return;
        } else if remaining < 2 * MAX_POINTS_IN_ELEMENT {
            wanted = remaining / 2 + 1;
        } else {
            wanted = MAX_POINTS_IN_ELEMENT;
        }
        assert(line_chunks(pos as int, wanted as int, n, chunks_emitted as int)
            =~= all.subrange(chunks_emitted as int, all.len() as int)) by {
            assert(rest =~= seq![rest[0]] + line_chunks(pos as int, wanted as int, n, k + 1));
            assert(rest.subrange(1, rest.len() as int) =~= line_chunks(pos as int, wanted as int, n, k + 1));
        }
    }
}

/// Cut every line of more than 250 points into pieces of at most 250
/// that share their end points; shorter lines pass unchanged, in order.
pub fn split_large_polylines(lines: Vec<SplitLine>) -> (r: Vec<SplitLine>)
    ensures
        lines_view(r@) == split_lines(lines_view(lines@), lines@.len() as int),
{
    let mut result: Vec<SplitLine> = Vec::new();
    let mut i: usize = 0;
    while i < lines.len()
        invariant
            i <= lines@.len(),
            lines_view(result@) == split_lines(lines_view(lines@), i as int),
        decreases lines@.len() - i,
    {
        push_line_chunks(&lines[i], &mut result);
        i += 1;
    }
    result
}

pub open spec fn shapes_view(v: Seq<SplitShape>) -> Seq<(usize, Seq<Coord>)> {
    v.map_values(|s: SplitShape| shape_view(s))
}

/// The two halves of a box, cut across the middle of its longer side
/// (across longitude when the sides are equal).
pub open spec fn box_halves(b: Area) -> (Area, Area) {
    if b.spec_width() >= b.spec_height() {
        let mid = wadd(b.min_lon, tdiv(b.spec_width() as int, 2) as i32);
        (area_of(b.min_lat, b.min_lon, b.max_lat, mid), area_of(b.min_lat, mid, b.max_lat, b.max_lon))
    } else {
        let mid = wadd(b.min_lat, tdiv(b.spec_height() as int, 2) as i32);
        (area_of(b.min_lat, b.min_lon, mid, b.max_lon), area_of(mid, b.min_lon, b.max_lat, b.max_lon))
    }
}

/// The bounding box of a polygon.
pub open spec fn bbox_of(pts: Seq<Coord>) -> Area {
    area_of(seq_min_lat(pts), seq_min_lon(pts), seq_max_lat(pts), seq_max_lon(pts))
}

/// One step of the polygon splitter on `(queue, result, iterations)`: the
/// first queued polygon is kept when small enough; otherwise it is clipped
/// to the two halves of its box and the halves of at least 3 points are
/// queued (the polygon itself is kept when neither is); past the
/// iteration limit, it and the rest of the queue are kept as they are.
pub open spec fn poly_step(
    q: Seq<(usize, Seq<Coord>)>,
    r: Seq<(usize, Seq<Coord>)>,
    it: int,
) -> (Seq<(usize, Seq<Coord>)>, Seq<(usize, Seq<Coord>)>, int) {
    let shape = q[0];
    let rest = q.drop_first();
    if shape.1.len() <= MAX_POINTS_IN_ELEMENT {
        (rest, r.push(shape), it)
    } else if it + 1 > MAX_POLYGON_SPLIT_ITERATIONS {
        (Seq::empty(), r.push(shape) + rest, it + 1)
    } else {
        let (ha, hb) = box_halves(bbox_of(shape.1));
        let ca = spec_clip_polygon(shape.1, ha);
        let cb = spec_clip_polygon(shape.1, hb);
        let q2 = rest + (if ca.len() >= 3 { seq![(shape.0, ca)] } else { Seq::empty() })
            + (if cb.len() >= 3 { seq![(shape.0, cb)] } else { Seq::empty() });
        let r2 = if ca.len() < 3 && cb.len() < 3 { r.push(shape) } else { r };
        (q2, r2, it + 1)
    }
}

/// The result of at most `fuel` splitter steps.
pub open spec fn poly_run(
    q: Seq<(usize, Seq<Coord>)>,
    r: Seq<(usize, Seq<Coord>)>,
    it: int,
    fuel: nat,
) -> Seq<(usize, Seq<Coord>)>
    decreases fuel,
{
    if fuel == 0 || q.len() == 0 {
        r
    } else {
        let (q2, r2, it2) = poly_step(q, r, it);
        poly_run(q2, r2, it2, (fuel - 1) as nat)
    }
}

/// The polygons after splitting, in first-in first-out order (every step
/// either removes a polygon or counts an iteration that adds at most two,
/// so `n + 3 * 10001` steps finish the queue).
pub open spec fn split_polygons(shapes: Seq<(usize, Seq<Coord>)>) -> Seq<(usize, Seq<Coord>)> {
    poly_run(shapes, Seq::empty(), 0, (shapes.len() + 3 * (MAX_POLYGON_SPLIT_ITERATIONS + 1)) as nat)
}

/// Clip `shape` to the two halves of its box; queue the halves of at
/// least 3 points, or keep the shape when neither is.
fn split_shape(shape: SplitShape, queue: &mut VecDeque<SplitShape>, result: &mut Vec<SplitShape>)
    ensures
        ({
            let (ha, hb) = box_halves(bbox_of(shape.points@));
            let ca = spec_clip_polygon(shape.points@, ha);
            let cb = spec_clip_polygon(shape.points@, hb);
            &&& shapes_view(final(queue)@) == shapes_view(old(queue)@)
                + (if ca.len() >= 3 { seq![(shape.mp_index, ca)] } else { Seq::empty() })
                + (if cb.len() >= 3 { seq![(shape.mp_index, cb)] } else { Seq::empty() })
            &&& shapes_view(final(result)@) == if ca.len() < 3 && cb.len() < 3 {
                shapes_view(old(result)@).push(shape_view(shape))
            } else {
                shapes_view(old(result)@)
            }
        }),
{
    let ghost q0 = shapes_view(queue@);
    let ghost r0 = shapes_view(result@);
    let bbox = Area::from_coords(shape.points.as_slice());
    let (half_a, half_b) = if bbox.width() >= bbox.height() {
        let mid = bbox.min_lon().wrapping_add(bbox.width() / 2);
        (
            Area::new(bbox.min_lat(), bbox.min_lon(), bbox.max_lat(), mid),
            Area::new(bbox.min_lat(), mid, bbox.max_lat(), bbox.max_lon()),
        )
    } else {
        let mid = bbox.min_lat().wrapping_add(bbox.height() / 2);
        (
            Area::new(bbox.min_lat(), bbox.min_lon(), mid, bbox.max_lon()),
            Area::new(mid, bbox.min_lon(), bbox.max_lat(), bbox.max_lon()),
        )
    };
    assert((half_a, half_b) == box_halves(bbox_of(shape.points@)));
    let clipped_a = clip_polygon_to_rect(shape.points.as_slice(), &half_a);
    let clipped_b = clip_polygon_to_rect(shape.points.as_slice(), &half_b);
    let ghost ca = clipped_a@;
    let ghost cb = clipped_b@;
    let a_ok = clipped_a.len() >= 3;
    let b_ok = clipped_b.len() >= 3;
    let idx = shape.mp_index;
    if a_ok {
        queue.push_back(SplitShape { mp_index: idx, points: clipped_a });
    }
    let ghost q1 = shapes_view(queue@);
    assert(q1 =~= q0 + (if a_ok { seq![(idx, ca)] } else { Seq::empty() }));
    if b_ok {
        queue.push_back(SplitShape { mp_index: idx, points: clipped_b });
    }
    assert(shapes_view(queue@) =~= q1 + (if b_ok { seq![(idx, cb)] } else { Seq::empty() }));
    if !a_ok && !b_ok {
        let ghost sv = shape_view(shape);
        result.push(shape);
        assert(shapes_view(result@) =~= r0.push(sv));
    }
}

/// Cut polygons of more than 250 points in halves along the longer side of
/// their box until every piece is small enough.
pub fn split_large_polygons(shapes: Vec<SplitShape>) -> (r: Vec<SplitShape>)
    ensures
        shapes_view(r@) == split_polygons(shapes_view(shapes@)),
{
    let ghost input = shapes_view(shapes@);
    let mut result: Vec<SplitShape> = Vec::new();
    let mut queue: VecDeque<SplitShape> = VecDeque::new();
    let n = shapes.len();
    let mut k: usize = 0;
    while k < n
        invariant
            n == shapes@.len(),
            k <= n,
            input == shapes_view(shapes@),
            shapes_view(queue@) == input.subrange(0, k as int),
        decreases n - k,
    {
        let ghost before = shapes_view(queue@);
        let s = shapes[k].copy();
        let ghost sv = shape_view(s);
        assert(sv == input[k as int]);
        queue.push_back(s);
        k += 1;
        assert(shapes_view(queue@) =~= before.push(sv));
        assert(shapes_view(queue@) =~= input.subrange(0, k as int));
    }
    assert(input.subrange(0, n as int) =~= input);
    let mut iterations: usize = 0;
    let ghost mut fuel: nat = (input.len() + 3 * (MAX_POLYGON_SPLIT_ITERATIONS + 1)) as nat;
    assert(shapes_view(result@) =~= Seq::<(usize, Seq<Coord>)>::empty());
    loop
        invariant
            input == shapes_view(shapes@),
            iterations <= MAX_POLYGON_SPLIT_ITERATIONS,
            fuel >= queue@.len() + 3 * (MAX_POLYGON_SPLIT_ITERATIONS + 1 - iterations),
            poly_run(shapes_view(queue@), shapes_view(result@), iterations as int, fuel) == split_polygons(input),
        ensures
            shapes_view(result@) == split_polygons(input),
        decreases queue@.len() + 3 * (MAX_POLYGON_SPLIT_ITERATIONS + 1 - iterations),
    {
        let ghost q0 = shapes_view(queue@);
        let ghost r0 = shapes_view(result@);
        if queue.len() == 0 {
            assert(poly_run(q0, r0, iterations as int, fuel) == r0);
            break;
        }
        let ghost step = poly_step(q0, r0, iterations as int);
        assert(poly_run(q0, r0, iterations as int, fuel) == poly_run(step.0, step.1, step.2, (fuel - 1) as nat));
        let popped = queue.pop_front();
        let shape = match popped {
            Some(s) => s,
            None => {
                break;
            },
        };
        assert(q0[0] == shape_view(shape));
        assert(shapes_view(queue@) =~= q0.drop_first());
        if shape.points.len() <= MAX_POINTS_IN_ELEMENT {
            let ghost sv = shape_view(shape);
            result.push(shape);
            assert(shapes_view(result@) =~= r0.push(sv));
        } else if iterations + 1 > MAX_POLYGON_SPLIT_ITERATIONS {
            let ghost sv = shape_view(shape);
            result.push(shape);
            assert(shapes_view(result@) =~= r0.push(sv));
            loop
                invariant
                    shapes_view(result@) + shapes_view(queue@) == step.1,
                ensures
                    shapes_view(result@) == step.1,
                decreases queue@.len(),
            {
                let ghost before_q = shapes_view(queue@);
                let ghost before_r = shapes_view(result@);
                match queue.pop_front() {
                    Some(rem) => {
                        let ghost rv = shape_view(rem);
                        result.push(rem);
                        assert(shapes_view(result@) =~= before_r.push(rv));
                        assert(before_q =~= seq![rv] + shapes_view(queue@));
                        assert(shapes_view(result@) + shapes_view(queue@) =~= before_r + before_q);
                    },
                    None => {
                        assert(shapes_view(result@) + shapes_view(queue@) =~= shapes_view(result@));
                        break;
                    },
                }
            }
            assert(poly_run(step.0, step.1, step.2, (fuel - 1) as nat) == step.1);
            return result;
        } else {
            iterations += 1;
            split_shape(shape, &mut queue, &mut result);
            assert(shapes_view(queue@) =~= step.0);
            assert(shapes_view(result@) =~= step.1);
        }
        proof {
            fuel = (fuel - 1) as nat;
        }
    }
    result
}

/// Some element of `src` has source index `x`.
pub open spec fn has_index(src: Seq<(usize, Seq<Coord>)>, x: usize) -> bool {
    exists|j: int| 0 <= j < src.len() && (#[trigger] src[j]).0 == x
}

/// Every element of `s` comes from an element of `src` with the same source index.
pub open spec fn indices_from(s: Seq<(usize, Seq<Coord>)>, src: Seq<(usize, Seq<Coord>)>) -> bool {
    forall|i: int| 0 <= i < s.len() ==> #[trigger] has_index(src, s[i].0)
}

proof fn lemma_poly_run_indices(
    q: Seq<(usize, Seq<Coord>)>,
    r: Seq<(usize, Seq<Coord>)>,
    it: int,
    fuel: nat,
    src: Seq<(usize, Seq<Coord>)>,
)
    requires
        indices_from(q, src),
        indices_from(r, src),
    ensures
        indices_from(poly_run(q, r, it, fuel), src),
    decreases fuel,
{
    if fuel > 0 && q.len() > 0 {
        let (q2, r2, it2) = poly_step(q, r, it);
        let shape = q[0];
        assert(has_index(src, shape.0));
        assert forall|i: int| 0 <= i < q2.len() implies #[trigger] has_index(src, q2[i].0) by {
            if i < q.len() - 1 {
                assert(q2[i] == q[i + 1]);
                assert(has_index(src, q[i + 1].0));
            } else {
                assert(q2[i].0 == shape.0);
            }
        }
        assert forall|i: int| 0 <= i < r2.len() implies #[trigger] has_index(src, r2[i].0) by {
            if i < r.len() {
                assert(r2[i] == r[i]);
                assert(has_index(src, r[i].0));
            } else if i == r.len() {
                assert(r2[i].0 == shape.0);
            } else {
                assert(r2[i] == q[i - r.len()]);
                assert(has_index(src, q[i - r.len()].0));
            }
        }
        lemma_poly_run_indices(q2, r2, it2, (fuel - 1) as nat, src);
    }
}

/// Splitting polygons keeps the source index of every piece: each comes
/// from an input polygon with the same index.
pub proof fn lemma_split_polygons_keep_index(shapes: Seq<(usize, Seq<Coord>)>)
    ensures
        indices_from(split_polygons(shapes), shapes),
{
    assert forall|i: int| 0 <= i < shapes.len() implies #[trigger] has_index(shapes, shapes[i].0) by {
        assert(shapes[i].0 == shapes[i].0);
    }
    lemma_poly_run_indices(
        shapes,
        Seq::empty(),
        0,
        (shapes.len() + 3 * (MAX_POLYGON_SPLIT_ITERATIONS + 1)) as nat,
        shapes,
    );
}

/// Contour lines are the types 0x20 to 0x25.
pub fn is_contour_type(type_code: u32) -> (r: bool)
    ensures
        r == (0x20 <= type_code <= 0x25),
{
    type_code >= 0x20 && type_code <= 0x25
}

/// A Polish-format type code below 0x10000 as Garmin type and subtype:
/// codes below 0x100 have subtype 0, others are split into high and low byte.
pub fn split_type_subtype(type_code: u32) -> (r: (u8, u8))
    ensures
        type_code < 0x100 ==> r == (type_code as u8, 0u8),
        type_code >= 0x100 ==> r == (((type_code >> 8u32) & 0xFF) as u8, (type_code & 0xFF) as u8),
{
    if type_code < 0x100 {
        (type_code as u8, 0)
    } else {
        (((type_code >> 8u32) & 0xFF) as u8, (type_code & 0xFF) as u8)
    }
}

/// Widen a bounding box to take in `coord`.
pub fn update_bounds(min_lat: &mut i32, max_lat: &mut i32, min_lon: &mut i32, max_lon: &mut i32, coord: &Coord)
    ensures
        *final(min_lat) == if coord.latitude < *old(min_lat) { coord.latitude } else { *old(min_lat) },
        *final(max_lat) == if coord.latitude > *old(max_lat) { coord.latitude } else { *old(max_lat) },
        *final(min_lon) == if coord.longitude < *old(min_lon) { coord.longitude } else { *old(min_lon) },
        *final(max_lon) == if coord.longitude > *old(max_lon) { coord.longitude } else { *old(max_lon) },
{
    let lat = coord.latitude();
    let lon = coord.longitude();
    if lat < *min_lat {
        *min_lat = lat;
    }
    if lat > *max_lat {
        *max_lat = lat;
    }
    if lon < *min_lon {
        *min_lon = lon;
    }
    if lon > *max_lon {
        *max_lon = lon;
    }
}

/// The steps `(longitude, latitude)` between consecutive points, in the
/// local units of `subdiv` (32-bit wrapping differences).
pub open spec fn deltas_spec(points: Seq<Coord>, subdiv: Subdivision) -> Seq<(i32, i32)> {
    if points.len() < 2 {
        Seq::empty()
    } else {
        Seq::new((points.len() - 1) as nat, |i: int| (
            wsub(
                Subdivision::spec_local(points[i + 1].longitude, subdiv.center_lon, subdiv.resolution),
                Subdivision::spec_local(points[i].longitude, subdiv.center_lon, subdiv.resolution),
            ),
            wsub(
                Subdivision::spec_local(points[i + 1].latitude, subdiv.center_lat, subdiv.resolution),
                Subdivision::spec_local(points[i].latitude, subdiv.center_lat, subdiv.resolution),
            ),
        ))
    }
}

pub fn compute_deltas(points: &[Coord], subdiv: &Subdivision) -> (r: Vec<(i32, i32)>)
    requires
        subdiv.resolution <= 24,
    ensures
        r@ == deltas_spec(points@, *subdiv),
{
    let mut deltas: Vec<(i32, i32)> = Vec::new();
    if points.len() < 2 {
        return deltas;
    }
    let mut last_lat = subdiv.round_lat_to_local_shifted(points[0].latitude());
    let mut last_lon = subdiv.round_lon_to_local_shifted(points[0].longitude());
    let mut i: usize = 1;
    while i < points.len()
        invariant
            1 <= i <= points@.len(),
            subdiv.resolution <= 24,
            last_lat == Subdivision::spec_local(points@[i - 1].latitude, subdiv.center_lat, subdiv.resolution),
            last_lon == Subdivision::spec_local(points@[i - 1].longitude, subdiv.center_lon, subdiv.resolution),
            deltas@ == deltas_spec(points@, *subdiv).subrange(0, i - 1),
        decreases points@.len() - i,
    {
        let lat = subdiv.round_lat_to_local_shifted(points[i].latitude());
        let lon = subdiv.round_lon_to_local_shifted(points[i].longitude());
        deltas.push((lon.wrapping_sub(last_lon), lat.wrapping_sub(last_lat)));
        last_lon = lon;
        last_lat = lat;
        i += 1;
        assert(deltas@ =~= deltas_spec(points@, *subdiv).subrange(0, i - 1));
    }
    assert(deltas@ =~= deltas_spec(points@, *subdiv));
    deltas
}

/// `split` occurs in `orig` at `start`.
pub open spec fn window_at(orig: Seq<Coord>, split: Seq<Coord>, start: int) -> bool {
    0 <= start && start + split.len() <= orig.len() && orig.subrange(start, start + split.len()) == split
}

/// The node flags of the piece `split_points` of a road: where the piece
/// first occurs among the road's points, its flags and whether it ends the
/// road; `None` for an empty piece, mismatched flags, or a piece that does
/// not occur.
pub fn align_node_flags_to_split(
    original_points: &[Coord],
    original_flags: &[bool],
    split_points: &[Coord],
) -> (r: Option<(Vec<bool>, bool)>)
    ensures
        (split_points@.len() == 0 || original_points@.len() != original_flags@.len()
            || split_points@.len() > original_points@.len()) ==> r is None,
        !(split_points@.len() == 0 || original_points@.len() != original_flags@.len()
            || split_points@.len() > original_points@.len()) ==> match r {
            None => forall|s: int| !#[trigger] window_at(original_points@, split_points@, s),
            Some((flags, at_end)) => exists|s: int| {
                &&& #[trigger] window_at(original_points@, split_points@, s)
                &&& forall|t: int| 0 <= t < s ==> !#[trigger] window_at(original_points@, split_points@, t)
                &&& flags@ == original_flags@.subrange(s, s + split_points@.len())
                &&& at_end == (s + split_points@.len() == original_points@.len())
            },
        },
{
    let k = split_points.len();
    let n = original_points.len();
    if k == 0 || n != original_flags.len() || k > n {
        return None;
    }
    let mut start: usize = 0;
    while start <= n - k
        invariant
            k == split_points@.len(),
            n == original_points@.len(),
            1 <= k <= n,
            n == original_flags@.len(),
            start <= n - k + 1,
            forall|t: int| 0 <= t < start ==> !#[trigger] window_at(original_points@, split_points@, t),
        decreases n - k + 1 - start,
    {
        let mut j: usize = 0;
        let mut same = true;
        while j < k
            invariant
                k == split_points@.len(),
                n == original_points@.len(),
                start + k <= n,
                j <= k,
                same == forall|m: int| 0 <= m < j ==> original_points@[start + m] == split_points@[m],
            decreases k - j,
        {
            if original_points[start + j] != split_points[j] {
                same = false;
            }
            j += 1;
        }
        if same {
            assert(original_points@.subrange(start as int, start + k) =~= split_points@);
            let end = start + k;
            let mut flags: Vec<bool> = Vec::new();
            let mut m = start;
            while m < end
                invariant
                    start <= m <= end <= n,
                    n == original_flags@.len(),
                    flags@ == original_flags@.subrange(start as int, m as int),
                decreases end - m,
            {
                flags.push(original_flags[m]);
                m += 1;
                assert(flags@ =~= original_flags@.subrange(start as int, m as int));
            }
            assert(window_at(original_points@, split_points@, start as int));
            return Some((flags, end == n));
        }
        assert(!window_at(original_points@, split_points@, start as int)) by {
            let w = original_points@.subrange(start as int, start + k);
            if w == split_points@ {
                assert forall|m: int| 0 <= m < k implies original_points@[start + m] == split_points@[m] by {
                    assert(w[m] == original_points@[start + m]);
                }
            }
        }
        start += 1;
    }
    None
}

/// The subfiles of one compiled tile.
pub struct TileResult {
    pub map_number: String,
    pub description: String,
    pub tre: Vec<u8>,
    pub rgn: Vec<u8>,
    pub lbl: Vec<u8>,
    pub net: Option<Vec<u8>>,
    pub nod: Option<Vec<u8>>,
    pub dem: Option<Vec<u8>>,
}

/// Whether some geometry of `g` has level `level`.
pub open spec fn has_level(g: Seq<(u8, Vec<Coord>)>, level: u8) -> bool {
    exists|i: int| 0 <= i < g.len() && (#[trigger] g[i]).0 == level
}

/// Whether some geometry of `g` has a level at or below `level`.
pub open spec fn has_level_upto(g: Seq<(u8, Vec<Coord>)>, level: u8) -> bool {
    exists|i: int| 0 <= i < g.len() && (#[trigger] g[i]).0 <= level
}

/// Whether a feature of end level `end_level` with geometries `g` is drawn
/// at `level`: with no end level (or 0) only where it has a geometry of
/// exactly that level; otherwise up to its end level, wherever it has a
/// geometry at or below the level.
pub open spec fn spec_feature_visible(end_level: Option<u8>, g: Seq<(u8, Vec<Coord>)>, level: u8) -> bool {
    match end_level {
        None => has_level(g, level),
        Some(el) => if el == 0 { has_level(g, level) } else { level <= el && has_level_upto(g, level) },
    }
}

/// Whether a feature is drawn at `level` (see `spec_feature_visible`).
pub fn feature_visible_at_level(end_level: Option<u8>, geometries: &Vec<(u8, Vec<Coord>)>, level: u8) -> (r: bool)
    ensures
        r == spec_feature_visible(end_level, geometries@, level),
{
    let strict = match end_level {
        None => true,
        Some(el) => el == 0,
    };
    if strict {
        let mut i: usize = 0;
        while i < geometries.len()
            invariant
                i <= geometries@.len(),
                end_level is None || end_level == Some(0u8),
                forall|k: int| 0 <= k < i ==> (#[trigger] geometries@[k]).0 != level,
            decreases geometries@.len() - i,
        {
            if geometries[i].0 == level {
                assert((geometries@[i as int]).0 == level);
                return true;
            }
            i = i + 1;
        }
        false
    } else {
        let el = match end_level {
            Some(e) => e,
            None => 0,
        };
        if level > el {
            return false;
        }
        let mut i: usize = 0;
        while i < geometries.len()
            invariant
                i <= geometries@.len(),
                end_level == Some(el),
                el != 0,
                level <= el,
                forall|k: int| 0 <= k < i ==> (#[trigger] geometries@[k]).0 > level,
            decreases geometries@.len() - i,
        {
            if geometries[i].0 <= level {
                assert((geometries@[i as int]).0 <= level);
                return true;
            }
            i = i + 1;
        }
        false
    }
}

/// The geometry drawn at `level`: that of the highest level at or below it.
pub fn pick_geometry_bucket(geometries: &Vec<(u8, Vec<Coord>)>, level: u8) -> (r: Option<&[Coord]>)
    requires
        levels_sorted(geometries@),
    ensures
        r is None <==> !has_level_upto(geometries@, level),
        r matches Some(s) ==> exists|i: int| 0 <= i < geometries@.len()
            && (#[trigger] geometries@[i]).0 <= level
            && s@ == geometries@[i].1@
            && forall|j: int| 0 <= j < geometries@.len() && geometries@[j].0 <= level ==> geometries@[j].0 <= geometries@[i].0,
{
    let mut i: usize = 0;
    while i < geometries.len() && geometries[i].0 <= level
        invariant
            i <= geometries@.len(),
            forall|k: int| 0 <= k < i ==> (#[trigger] geometries@[k]).0 <= level,
        decreases geometries@.len() - i,
    {
        i = i + 1;
    }
    proof {
        assert forall|j: int| 0 <= j < geometries@.len() && geometries@[j].0 <= level implies j < i by {
            if j >= i {
                assert(i < geometries@.len());
                if j > i {
                    assert(geometries@[i as int].0 < geometries@[j].0);
                }
            }
        }
    }
    if i == 0 {
        proof {
            assert forall|j: int| 0 <= j < geometries@.len() implies !((#[trigger] geometries@[j]).0 <= level) by {
                if geometries@[j].0 <= level {
                    assert(j < 0);
                }
            }
        }
        None
    } else {
        proof {
            let w = i - 1;
            assert(geometries@[w].0 <= level);
            assert forall|j: int| 0 <= j < geometries@.len() && geometries@[j].0 <= level
                implies geometries@[j].0 <= geometries@[w].0 by {
                if j < w {
                    assert(geometries@[j].0 < geometries@[w].0);
                }
            }
        }
        Some(geometries[i - 1].1.as_slice())
    }
}

/// Whether `(lat, lon)` lies in `a`, its north and east edges excluded.
pub open spec fn holds_excl(a: Area, lat: i32, lon: i32) -> bool {
    a.min_lat <= lat < a.max_lat && a.min_lon <= lon < a.max_lon
}

/// Whether the map-unit point `(lat, lon)` lies in `a`, edges included.
pub open spec fn holds_incl(a: Area, lat: i32, lon: i32) -> bool {
    a.spec_contains_coord(Coord { latitude: lat, longitude: lon, lat_delta: 0, lon_delta: 0 })
}

/// The number of the first parent from index `i` on holding the point with
/// its north and east edges excluded (`excl`), or edges included.
pub open spec fn first_parent_from(parents: Seq<(Area, u32)>, lat: i32, lon: i32, excl: bool, i: int) -> Option<u16>
    decreases parents.len() - i,
{
    if i < 0 || i >= parents.len() {
        None
    } else if (if excl { holds_excl(parents[i].0, lat, lon) } else { holds_incl(parents[i].0, lat, lon) }) {
        Some(parents[i].1 as u16)
    } else {
        first_parent_from(parents, lat, lon, excl, i + 1)
    }
}

/// The parent a feature at `(lat, lon)` goes to: the first holding it with
/// north and east edges excluded, else the first holding it at all.
pub open spec fn spec_assign_to_parent(lat: i32, lon: i32, parents: Seq<(Area, u32)>) -> Option<u16> {
    match first_parent_from(parents, lat, lon, true, 0) {
        Some(n) => Some(n),
        None => first_parent_from(parents, lat, lon, false, 0),
    }
}

/// The number (as `u16`) of the parent subdivision a feature whose midpoint
/// is `(lat, lon)` belongs to; none when no parent holds it.
pub fn assign_to_parent(lat: i32, lon: i32, parent_areas: &[(Area, u32)]) -> (r: Option<u16>)
    ensures
        r == spec_assign_to_parent(lat, lon, parent_areas@),
{
    let mut i: usize = 0;
    while i < parent_areas.len()
        invariant
            i <= parent_areas@.len(),
            first_parent_from(parent_areas@, lat, lon, true, 0) == first_parent_from(parent_areas@, lat, lon, true, i as int),
        decreases parent_areas@.len() - i,
    {
        let (pa, n) = parent_areas[i];
        if pa.contains_coord_right_excl(lat, lon) {
            return Some(n as u16);
        }
        i = i + 1;
    }
    let c = Coord::new(lat, lon);
    let mut j: usize = 0;
    while j < parent_areas.len()
        invariant
            j <= parent_areas@.len(),
            first_parent_from(parent_areas@, lat, lon, true, 0) is None,
            c == (Coord { latitude: lat, longitude: lon, lat_delta: 0, lon_delta: 0 }),
            first_parent_from(parent_areas@, lat, lon, false, 0) == first_parent_from(parent_areas@, lat, lon, false, j as int),
        decreases parent_areas@.len() - j,
    {
        let (pa, n) = parent_areas[j];
        if pa.contains_coord(&c) {
            return Some(n as u16);
        }
        j = j + 1;
    }
    None
}

/// The coordinates of the points, in order.
pub open spec fn points_coords(ps: Seq<MpPoint>) -> Seq<Coord>
    decreases ps.len(),
{
    if ps.len() == 0 { Seq::empty() } else { points_coords(ps.drop_last()).push(ps.last().coord) }
}

/// The coordinates of every level of the polylines, in order.
pub open spec fn lines_coords(ls: Seq<MpPolyline>) -> Seq<Coord>
    decreases ls.len(),
{
    if ls.len() == 0 { Seq::empty() } else { lines_coords(ls.drop_last()) + spec_all_coords(ls.last().geometries@) }
}

/// The coordinates of every level of the polygons, in order.
pub open spec fn shapes_coords(ss: Seq<MpPolygon>) -> Seq<Coord>
    decreases ss.len(),
{
    if ss.len() == 0 { Seq::empty() } else { shapes_coords(ss.drop_last()) + spec_all_coords(ss.last().geometries@) }
}

/// Every coordinate of a map's features.
pub open spec fn features_coords(ps: Seq<MpPoint>, ls: Seq<MpPolyline>, ss: Seq<MpPolygon>) -> Seq<Coord> {
    points_coords(ps) + lines_coords(ls) + shapes_coords(ss)
}

/// The bounding box of every coordinate of the features (all levels); an
/// error when there is none (no coordinate below the largest latitude).
pub fn compute_bounds(points: &[MpPoint], polylines: &[MpPolyline], polygons: &[MpPolygon]) -> (r: Result<Area, ImgError>)
    ensures
        ({
            let all = features_coords(points@, polylines@, polygons@);
            match r {
                Ok(a) => seq_min_lat(all) != i32::MAX
                    && a == area_of(seq_min_lat(all), seq_min_lon(all), seq_max_lat(all), seq_max_lon(all)),
                Err(e) => seq_min_lat(all) == i32::MAX
                    && (e matches ImgError::InvalidFormat(m) && m@ == "No features to compile"@),
            }
        }),
{
    let mut all: Vec<Coord> = Vec::new();
    let mut i: usize = 0;
    while i < points.len()
        invariant
            i <= points@.len(),
            all@ == points_coords(points@.take(i as int)),
        decreases points@.len() - i,
    {
        all.push(points[i].coord);
        assert(points@.take(i + 1).drop_last() =~= points@.take(i as int));
        i = i + 1;
    }
    assert(points@.take(points@.len() as int) =~= points@);
    let ghost base1 = all@;
    let mut j: usize = 0;
    while j < polylines.len()
        invariant
            j <= polylines@.len(),
            base1 == points_coords(points@),
            all@ == base1 + lines_coords(polylines@.take(j as int)),
        decreases polylines@.len() - j,
    {
        let c = polylines[j].all_coords();
        push_coords(&mut all, c.as_slice());
        assert(polylines@.take(j + 1).drop_last() =~= polylines@.take(j as int));
        assert(all@ =~= base1 + lines_coords(polylines@.take(j + 1)));
        j = j + 1;
    }
    assert(polylines@.take(polylines@.len() as int) =~= polylines@);
    let ghost base2 = all@;
    let mut k: usize = 0;
    while k < polygons.len()
        invariant
            k <= polygons@.len(),
            base2 == points_coords(points@) + lines_coords(polylines@),
            all@ == base2 + shapes_coords(polygons@.take(k as int)),
        decreases polygons@.len() - k,
    {
        let c = polygons[k].all_coords();
        push_coords(&mut all, c.as_slice());
        assert(polygons@.take(k + 1).drop_last() =~= polygons@.take(k as int));
        assert(all@ =~= base2 + shapes_coords(polygons@.take(k + 1)));
        k = k + 1;
    }
    assert(polygons@.take(polygons@.len() as int) =~= polygons@);
    assert(all@ =~= features_coords(points@, polylines@, polygons@));
    let a = Area::from_coords(all.as_slice());
    if a.min_lat == i32::MAX {
        return Err(ImgError::InvalidFormat("No features to compile".to_string()));
    }
    Ok(a)
}

/// Whether point `ci` of a road is a junction and route node `ni` stands on it.
pub open spec fn node_on_point(coords: Seq<Coord>, junctions: Seq<(i32, i32)>, nodes: Seq<RouteNode>, ci: int, ni: int) -> bool {
    &&& 0 <= ci < coords.len()
    &&& 0 <= ni < nodes.len()
    &&& junctions.contains((coords[ci].latitude, coords[ci].longitude))
    &&& nodes[ni].lat == coords[ci].latitude
    &&& nodes[ni].lon == coords[ci].longitude
}

/// Whether route node `n` has an arc of road `road`.
pub open spec fn has_road_arc(n: RouteNode, road: usize) -> bool {
    exists|a: int| 0 <= a < n.arcs@.len() && (#[trigger] n.arcs@[a]).road_def_index == road
}

/// `node_on_point` for a node with an arc of road `road`.
pub open spec fn road_node_on_point(coords: Seq<Coord>, junctions: Seq<(i32, i32)>, nodes: Seq<RouteNode>, road: usize, ci: int, ni: int) -> bool {
    node_on_point(coords, junctions, nodes, ci, ni) && has_road_arc(nodes[ni], road)
}

/// Whether the pair `(c2, n2)` comes before `(c, n)`: points in order, and
/// nodes in order on one point.
pub open spec fn pair_before(c: int, n: int, c2: int, n2: int) -> bool {
    c2 < c || (c2 == c && n2 < n)
}

/// `(c, n)` is the first pair of a junction point and a node of road `road` on it.
pub open spec fn first_road_node(coords: Seq<Coord>, junctions: Seq<(i32, i32)>, nodes: Seq<RouteNode>, road: usize, c: int, n: int) -> bool {
    &&& road_node_on_point(coords, junctions, nodes, road, c, n)
    &&& forall|c2: int, n2: int| pair_before(c, n, c2, n2) ==> !road_node_on_point(coords, junctions, nodes, road, c2, n2)
}

/// `(c, n)` is the first pair of a junction point and a node on it.
pub open spec fn first_node(coords: Seq<Coord>, junctions: Seq<(i32, i32)>, nodes: Seq<RouteNode>, c: int, n: int) -> bool {
    &&& node_on_point(coords, junctions, nodes, c, n)
    &&& forall|c2: int, n2: int| pair_before(c, n, c2, n2) ==> !node_on_point(coords, junctions, nodes, c2, n2)
}

/// The NOD1 offset of node `ni` (0 when unknown).
pub open spec fn offset_at(offsets: Seq<u32>, ni: int) -> u32 {
    if 0 <= ni < offsets.len() { offsets[ni] } else { 0 }
}

/// Whether `junctions` holds `k`.
fn holds_key(junctions: &[(i32, i32)], k: (i32, i32)) -> (r: bool)
    ensures
        r == junctions@.contains(k),
{
    let mut i: usize = 0;
    while i < junctions.len()
        invariant
            i <= junctions@.len(),
            forall|j: int| 0 <= j < i ==> junctions@[j] != k,
        decreases junctions@.len() - i,
    {
        if junctions[i].0 == k.0 && junctions[i].1 == k.1 {
            assert(junctions@[i as int] == k);
            return true;
        }
        i = i + 1;
    }
    false
}

/// Whether `n` has an arc of road `road`.
fn node_has_road_arc(n: &RouteNode, road: usize) -> (r: bool)
    ensures
        r == has_road_arc(*n, road),
{
    let mut i: usize = 0;
    while i < n.arcs.len()
        invariant
            i <= n.arcs@.len(),
            forall|j: int| 0 <= j < i ==> (#[trigger] n.arcs@[j]).road_def_index != road,
        decreases n.arcs@.len() - i,
    {
        if n.arcs[i].road_def_index == road {
            assert(n.arcs@[i as int].road_def_index == road);
            return true;
        }
        i = i + 1;
    }
    false
}

/// The NOD1 offset of the first route node met along a road: among the
/// junction points of the road, in order, the first node standing on one
/// that has an arc of this road; failing that, the first node standing on
/// one; failing that, 0.
pub fn find_first_route_node_offset(
    coords: &[Coord],
    junctions: &[(i32, i32)],
    route_nodes: &[RouteNode],
    node_offsets: &[u32],
    road_def_index: usize,
) -> (r: u32)
    ensures
        (exists|c: int, n: int| road_node_on_point(coords@, junctions@, route_nodes@, road_def_index, c, n))
            ==> exists|c: int, n: int| #[trigger] first_road_node(coords@, junctions@, route_nodes@, road_def_index, c, n)
                && r == offset_at(node_offsets@, n),
        !(exists|c: int, n: int| road_node_on_point(coords@, junctions@, route_nodes@, road_def_index, c, n))
            && (exists|c: int, n: int| node_on_point(coords@, junctions@, route_nodes@, c, n))
            ==> exists|c: int, n: int| #[trigger] first_node(coords@, junctions@, route_nodes@, c, n)
                && r == offset_at(node_offsets@, n),
        !(exists|c: int, n: int| node_on_point(coords@, junctions@, route_nodes@, c, n)) ==> r == 0,
{
    let ghost cs = coords@;
    let ghost js = junctions@;
    let ghost ns = route_nodes@;
    let road = road_def_index;
    let mut fallback: Option<u32> = None;
    let ghost mut fb_c: int = 0;
    let ghost mut fb_n: int = 0;
    let mut ci: usize = 0;
    while ci < coords.len()
        invariant
            ci <= cs.len(),
            cs == coords@, js == junctions@, ns == route_nodes@, road == road_def_index,
            forall|c2: int, n2: int| #![trigger road_node_on_point(cs, js, ns, road, c2, n2)]
                pair_before(ci as int, 0, c2, n2) ==> !road_node_on_point(cs, js, ns, road, c2, n2),
            fallback is None ==> forall|c2: int, n2: int| #![trigger node_on_point(cs, js, ns, c2, n2)]
                pair_before(ci as int, 0, c2, n2) ==> !node_on_point(cs, js, ns, c2, n2),
            fallback matches Some(f) ==> {
                &&& node_on_point(cs, js, ns, fb_c, fb_n)
                &&& f == offset_at(node_offsets@, fb_n)
                &&& forall|c2: int, n2: int| #![trigger node_on_point(cs, js, ns, c2, n2)]
                    pair_before(fb_c, fb_n, c2, n2) ==> !node_on_point(cs, js, ns, c2, n2)
            },
        decreases cs.len() - ci,
    {
        let key = (coords[ci].latitude(), coords[ci].longitude());
        if holds_key(junctions, key) {
            let mut ni: usize = 0;
            while ni < route_nodes.len()
                invariant
                    ci < cs.len(),
                    ni <= ns.len(),
                    cs == coords@, js == junctions@, ns == route_nodes@, road == road_def_index,
                    key == (cs[ci as int].latitude, cs[ci as int].longitude),
                    js.contains(key),
                    forall|c2: int, n2: int| #![trigger road_node_on_point(cs, js, ns, road, c2, n2)]
                        pair_before(ci as int, ni as int, c2, n2) ==> !road_node_on_point(cs, js, ns, road, c2, n2),
                    fallback is None ==> forall|c2: int, n2: int| #![trigger node_on_point(cs, js, ns, c2, n2)]
                        pair_before(ci as int, ni as int, c2, n2) ==> !node_on_point(cs, js, ns, c2, n2),
                    fallback matches Some(f) ==> {
                        &&& node_on_point(cs, js, ns, fb_c, fb_n)
                        &&& f == offset_at(node_offsets@, fb_n)
                        &&& forall|c2: int, n2: int| #![trigger node_on_point(cs, js, ns, c2, n2)]
                            pair_before(fb_c, fb_n, c2, n2) ==> !node_on_point(cs, js, ns, c2, n2)
                    },
                decreases ns.len() - ni,
            {
                let rn = &route_nodes[ni];
                if rn.lat == key.0 && rn.lon == key.1 {
                    let off = if ni < node_offsets.len() { node_offsets[ni] } else { 0 };
                    assert(node_on_point(cs, js, ns, ci as int, ni as int));
                    if node_has_road_arc(rn, road) {
                        assert(road_node_on_point(cs, js, ns, road, ci as int, ni as int));
                        assert(first_road_node(cs, js, ns, road, ci as int, ni as int));
                        return off;
                    }
                    if fallback.is_none() {
                        fallback = Some(off);
                        proof {
                            fb_c = ci as int;
                            fb_n = ni as int;
                        }
                    }
                } else {
                    assert(!node_on_point(cs, js, ns, ci as int, ni as int));
                }
                ni = ni + 1;
            }
        } else {
            assert forall|n2: int| !node_on_point(cs, js, ns, ci as int, n2) by {}
        }
        ci = ci + 1;
    }
    proof {
        assert forall|c: int, n: int| !road_node_on_point(cs, js, ns, road, c, n) by {
            if road_node_on_point(cs, js, ns, road, c, n) {
                assert(pair_before(ci as int, 0, c, n));
            }
        }
        if fallback is None {
            assert forall|c: int, n: int| !node_on_point(cs, js, ns, c, n) by {
                if node_on_point(cs, js, ns, c, n) {
                    assert(pair_before(ci as int, 0, c, n));
                }
            }
        } else {
            assert(first_node(cs, js, ns, fb_c, fb_n));
        }
    }
    match fallback {
        Some(f) => f,
        None => 0,
    }
}

} // verus!
