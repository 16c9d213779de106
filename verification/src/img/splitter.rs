//! Splitting map features into subdivisions: per-area size estimates, grid
//! splits with features distributed by position, overflow splits, polygon
//! clipping, and the recursive split until every area fits the limits.
use vstd::prelude::*;
use crate::img::area::{Area, area_of, wsub, tdiv, seq_min_lat, seq_min_lon, seq_max_lat, seq_max_lon};
use crate::img::coord::Coord;

verus! {

pub const MAX_DIVISION_SIZE: i32 = 0x7FFF;
pub const MAX_RGN_SIZE: usize = 0xFFF8;
pub const MAX_NUM_LINES: usize = 0xFF;
pub const MAX_NUM_POINTS: usize = 0xFF;
pub const WANTED_MAX_AREA_SIZE: usize = 0x3FFF;
pub const MIN_DIMENSION: i32 = 10;
pub const LARGE_OBJECT_DIM: i32 = 8192;

/// Estimated RGN bytes of a point.
pub const POINT_SIZE: usize = 9;
/// Estimated RGN bytes of a line besides its points.
pub const LINE_OVERHEAD: usize = 11;
/// Estimated RGN bytes per line point.
pub const LINE_POINT_SIZE: usize = 4;
/// Estimated RGN bytes of a shape besides its points.
pub const SHAPE_OVERHEAD: usize = 11;
/// Estimated RGN bytes per shape point.
pub const SHAPE_POINT_SIZE: usize = 4;

/// Bits dropped at a resolution (never negative).
pub open spec fn res_shift(resolution: u8) -> int {
    if resolution >= 24 { 0 } else { 24 - resolution }
}

/// A coordinate rounded to the unit of a resolution: `(v + half) & mask`.
pub open spec fn round_unit(v: i32, resolution: u8) -> i32 {
    let s = res_shift(resolution);
    if s == 0 { v } else {
        vstd::wrapping::i32_specs::wrapping_add(v, (1u32 << ((s - 1) as u32)) as i32) & !(((1u32 << (s as u32)) - 1) as i32)
    }
}

/// Two consecutive points that round to the same unit count once.
pub open spec fn same_unit(a: Coord, b: Coord, resolution: u8) -> bool {
    round_unit(a.latitude, resolution) == round_unit(b.latitude, resolution)
        && round_unit(a.longitude, resolution) == round_unit(b.longitude, resolution)
}

/// The points a line keeps once rounded to a resolution: consecutive
/// points in the same unit collapse into one.
pub open spec fn pred_count(points: Seq<Coord>, resolution: u8) -> int
    decreases points.len(),
{
    if points.len() == 0 {
        0
    } else if points.len() == 1 {
        1
    } else {
        pred_count(points.drop_last(), resolution) + if same_unit(points[points.len() - 2], points.last(), resolution) { 0int } else { 1int }
    }
}

proof fn lemma_pred_count_bound(points: Seq<Coord>, resolution: u8)
    ensures
        0 <= pred_count(points, resolution) <= points.len(),
    decreases points.len(),
{
    if points.len() > 1 {
        lemma_pred_count_bound(points.drop_last(), resolution);
    }
}

fn round_unit_exec(v: i32, resolution: u8) -> (r: i32)
    ensures
        r == round_unit(v, resolution),
{
    let s: u32 = if resolution >= 24 { 0 } else { (24 - resolution) as u32 };
    if s == 0 {
        v
    } else {
        let s1: u32 = s - 1;
        assert(1u32 << s >= 1 && (1u32 << s1) <= 0x80_0000u32 && (1u32 << s) <= 0x100_0000u32) by (bit_vector) requires 0 < s <= 24, s1 == s - 1;
        let half: i32 = (1u32 << (s - 1)) as i32;
        let mask: i32 = !(((1u32 << s) - 1) as i32);
        v.wrapping_add(half) & mask
    }
}

/// The number of points of a line after rounding to the resolution.
fn predicted_max_num_points(points: &Vec<Coord>, resolution: u8) -> (r: usize)
    ensures
        r == pred_count(points@, resolution),
{
    if points.len() == 0 {
        return 0;
    }
    let mut n: usize = 1;
    let mut last_lat = round_unit_exec(points[0].latitude, resolution);
    let mut last_lon = round_unit_exec(points[0].longitude, resolution);
    let mut i: usize = 1;
    assert(points@.take(1).len() == 1);
    while i < points.len()
        invariant
            1 <= i <= points@.len(),
            n == pred_count(points@.take(i as int), resolution),
            n <= i,
            last_lat == round_unit(points@[i - 1].latitude, resolution),
            last_lon == round_unit(points@[i - 1].longitude, resolution),
        decreases points@.len() - i,
    {
        let lat = round_unit_exec(points[i].latitude, resolution);
        let lon = round_unit_exec(points[i].longitude, resolution);
        assert(points@.take(i + 1).drop_last() =~= points@.take(i as int));
        if lat != last_lat || lon != last_lon {
            n = n + 1;
        }
        last_lat = lat;
        last_lon = lon;
        i = i + 1;
    }
    assert(points@.take(points@.len() as int) =~= points@);
    n
}

/// A point feature, with the index of its source object.
#[derive(Debug, Clone, Copy)]
pub struct SplitPoint {
    pub mp_index: usize,
    pub location: Coord,
}

/// A line feature: distributed whole, never clipped.
#[derive(Debug, Clone)]
pub struct SplitLine {
    pub mp_index: usize,
    pub points: Vec<Coord>,
}

/// A shape feature: an original polygon or a clipped fragment of one.
#[derive(Debug, Clone)]
pub struct SplitShape {
    pub mp_index: usize,
    pub points: Vec<Coord>,
}

fn copy_coords(v: &Vec<Coord>) -> (r: Vec<Coord>)
    ensures
        r@ == v@,
{
    let r = v.clone();
    assert(r@ =~= v@);
    r
}

impl SplitLine {
    /// A copy of the line.
    pub fn copy(&self) -> (r: SplitLine)
        ensures
            r.mp_index == self.mp_index,
            r.points@ == self.points@,
    {
        SplitLine { mp_index: self.mp_index, points: copy_coords(&self.points) }
    }
}

impl SplitShape {
    /// A copy of the shape.
    pub fn copy(&self) -> (r: SplitShape)
        ensures
            r.mp_index == self.mp_index,
            r.points@ == self.points@,
    {
        SplitShape { mp_index: self.mp_index, points: copy_coords(&self.points) }
    }
}

/// `a + b`, or `usize::MAX` when it does not fit.
pub open spec fn sat_add(a: usize, b: int) -> usize {
    if a + b > usize::MAX { usize::MAX } else { (a + b) as usize }
}

/// The bounding box `(min_lat, min_lon, max_lat, max_lon)` grown by `pts`.
pub open spec fn grow_box(b: (i32, i32, i32, i32), pts: Seq<Coord>) -> (i32, i32, i32, i32)
    decreases pts.len(),
{
    if pts.len() == 0 {
        b
    } else {
        let g = grow_box(b, pts.drop_last());
        let c = pts.last();
        (if c.latitude < g.0 { c.latitude } else { g.0 }, if c.longitude < g.1 { c.longitude } else { g.1 },
            if c.latitude > g.2 { c.latitude } else { g.2 }, if c.longitude > g.3 { c.longitude } else { g.3 })
    }
}

/// A map area and the features it holds, with estimated RGN sizes.
#[derive(Debug, Clone)]
pub struct MapArea {
    pub bounds: Area,
    pub points: Vec<SplitPoint>,
    pub lines: Vec<SplitLine>,
    pub shapes: Vec<SplitShape>,
    /// Estimated RGN bytes of the points, lines and shapes
    pub size_points: usize,
    pub size_lines: usize,
    pub size_shapes: usize,
    pub resolution: u8,
    /// Bounding box of the features added, once one was
    pub full_min_lat: i32,
    pub full_min_lon: i32,
    pub full_max_lat: i32,
    pub full_max_lon: i32,
    pub has_full_bounds: bool,
}

impl MapArea {
    /// The box of the features added so far.
    pub open spec fn full_box(&self) -> (i32, i32, i32, i32) {
        (self.full_min_lat, self.full_min_lon, self.full_max_lat, self.full_max_lon)
    }

    pub open spec fn spec_has_data(&self) -> bool {
        self.points@.len() > 0 || self.lines@.len() > 0 || self.shapes@.len() > 0
    }

    /// An empty area.
    pub fn new(bounds: Area, resolution: u8) -> (a: Self)
        ensures
            a.bounds == bounds,
            a.resolution == resolution,
            a.points@.len() == 0 && a.lines@.len() == 0 && a.shapes@.len() == 0,
            a.size_points == 0 && a.size_lines == 0 && a.size_shapes == 0,
            a.full_box() == (i32::MAX, i32::MAX, i32::MIN, i32::MIN),
            !a.has_full_bounds,
    {
        MapArea {
            bounds,
            points: Vec::new(),
            lines: Vec::new(),
            shapes: Vec::new(),
            size_points: 0,
            size_lines: 0,
            size_shapes: 0,
            resolution,
            full_min_lat: i32::MAX,
            full_min_lon: i32::MAX,
            full_max_lat: i32::MIN,
            full_max_lon: i32::MIN,
            has_full_bounds: false,
        }
    }

    /// The bounding box of the features added, or the area's bounds when
    /// none was.
    pub fn full_bounds(&self) -> (r: Area)
        ensures
            !self.has_full_bounds ==> r == self.bounds,
            self.has_full_bounds ==> r == area_of(self.full_min_lat, self.full_min_lon, self.full_max_lat, self.full_max_lon),
    {
        if !self.has_full_bounds {
            return self.bounds;
        }
        Area::new(self.full_min_lat, self.full_min_lon, self.full_max_lat, self.full_max_lon)
    }

    fn extend_bounds_points(&mut self, points: &Vec<Coord>)
        ensures
            final(self).full_box() == grow_box(old(self).full_box(), points@),
            final(self).has_full_bounds == (old(self).has_full_bounds || points@.len() > 0),
            final(self).bounds == old(self).bounds,
            final(self).points == old(self).points,
            final(self).lines == old(self).lines,
            final(self).shapes == old(self).shapes,
            final(self).size_points == old(self).size_points,
            final(self).size_lines == old(self).size_lines,
            final(self).size_shapes == old(self).size_shapes,
            final(self).resolution == old(self).resolution,
    {
        let ghost b0 = self.full_box();
        let mut i: usize = 0;
        while i < points.len()
            invariant
                i <= points@.len(),
                self.full_box() == grow_box(b0, points@.take(i as int)),
                self.has_full_bounds == (old(self).has_full_bounds || i > 0),
                self.bounds == old(self).bounds,
                self.points == old(self).points,
                self.lines == old(self).lines,
                self.shapes == old(self).shapes,
                self.size_points == old(self).size_points,
                self.size_lines == old(self).size_lines,
                self.size_shapes == old(self).size_shapes,
                self.resolution == old(self).resolution,
            decreases points@.len() - i,
        {
            let co = points[i];
            assert(points@.take(i + 1).drop_last() =~= points@.take(i as int));
            if co.latitude < self.full_min_lat { self.full_min_lat = co.latitude; }
            if co.latitude > self.full_max_lat { self.full_max_lat = co.latitude; }
            if co.longitude < self.full_min_lon { self.full_min_lon = co.longitude; }
            if co.longitude > self.full_max_lon { self.full_max_lon = co.longitude; }
            self.has_full_bounds = true;
            i = i + 1;
        }
        assert(points@.take(points@.len() as int) =~= points@);
    }

    /// Build an area from features, added in order: points, lines, shapes.
    pub fn from_split_features(bounds: Area, resolution: u8, points: Vec<SplitPoint>, lines: Vec<SplitLine>,
        shapes: Vec<SplitShape>) -> (a: Self)
        ensures
            a.bounds == bounds,
            a.resolution == resolution,
            a.points@ == points@,
            a.lines@.len() == lines@.len(),
            forall|i: int| 0 <= i < lines@.len() ==> (#[trigger] a.lines@[i]).points@ == lines@[i].points@
                && a.lines@[i].mp_index == lines@[i].mp_index,
            a.shapes@.len() == shapes@.len(),
            forall|i: int| 0 <= i < shapes@.len() ==> (#[trigger] a.shapes@[i]).points@ == shapes@[i].points@
                && a.shapes@[i].mp_index == shapes@[i].mp_index,
    {
        let mut area = Self::new(bounds, resolution);
        let mut i: usize = 0;
        while i < points.len()
            invariant
                i <= points@.len(),
                area.bounds == bounds && area.resolution == resolution,
                area.points@ == points@.take(i as int),
                area.lines@.len() == 0 && area.shapes@.len() == 0,
            decreases points@.len() - i,
        {
            area.add_point(points[i]);
            assert(area.points@ =~= points@.take(i + 1));
            i = i + 1;
        }
        assert(points@.take(points@.len() as int) =~= points@);
        i = 0;
        while i < lines.len()
            invariant
                i <= lines@.len(),
                area.bounds == bounds && area.resolution == resolution,
                area.points@ == points@,
                area.lines@.len() == i,
                forall|k: int| 0 <= k < i ==> (#[trigger] area.lines@[k]).points@ == lines@[k].points@
                    && area.lines@[k].mp_index == lines@[k].mp_index,
                area.shapes@.len() == 0,
            decreases lines@.len() - i,
        {
            area.add_line(lines[i].copy());
            i = i + 1;
        }
        i = 0;
        while i < shapes.len()
            invariant
                i <= shapes@.len(),
                area.bounds == bounds && area.resolution == resolution,
                area.points@ == points@,
                area.lines@.len() == lines@.len(),
                forall|k: int| 0 <= k < lines@.len() ==> (#[trigger] area.lines@[k]).points@ == lines@[k].points@
                    && area.lines@[k].mp_index == lines@[k].mp_index,
                area.shapes@.len() == i,
                forall|k: int| 0 <= k < i ==> (#[trigger] area.shapes@[k]).points@ == shapes@[k].points@
                    && area.shapes@[k].mp_index == shapes@[k].mp_index,
            decreases shapes@.len() - i,
        {
            area.add_shape(shapes[i].copy());
            i = i + 1;
        }
        area
    }

    /// Add a point (9 estimated bytes).
    pub fn add_point(&mut self, pt: SplitPoint)
        ensures
            final(self).points@ == old(self).points@.push(pt),
            final(self).lines == old(self).lines,
            final(self).shapes == old(self).shapes,
            final(self).size_points == sat_add(old(self).size_points, POINT_SIZE as int),
            final(self).size_lines == old(self).size_lines,
            final(self).size_shapes == old(self).size_shapes,
            final(self).bounds == old(self).bounds,
            final(self).resolution == old(self).resolution,
            final(self).full_box() == grow_box(old(self).full_box(), seq![pt.location]),
            final(self).has_full_bounds,
    {
        let v = vec![pt.location];
        assert(v@ =~= seq![pt.location]);
        self.extend_bounds_points(&v);
        self.points.push(pt);
        self.size_points = self.size_points.saturating_add(POINT_SIZE);
    }

    /// Add a line: 11 bytes plus 4 per point kept at the area's resolution.
    pub fn add_line(&mut self, line: SplitLine)
        ensures
            final(self).lines@ == old(self).lines@.push(line),
            final(self).points == old(self).points,
            final(self).shapes == old(self).shapes,
            final(self).size_lines == sat_add(old(self).size_lines,
                LINE_OVERHEAD + pred_count(line.points@, old(self).resolution) * LINE_POINT_SIZE),
            final(self).size_points == old(self).size_points,
            final(self).size_shapes == old(self).size_shapes,
            final(self).bounds == old(self).bounds,
            final(self).resolution == old(self).resolution,
            final(self).full_box() == grow_box(old(self).full_box(), line.points@),
    {
        let n = predicted_max_num_points(&line.points, self.resolution);
        self.size_lines = add_estimate(self.size_lines, LINE_OVERHEAD, n, LINE_POINT_SIZE);
        self.extend_bounds_points(&line.points);
        self.lines.push(line);
    }

    /// Add a shape: 11 bytes plus 4 per point kept at the area's resolution.
    pub fn add_shape(&mut self, shape: SplitShape)
        ensures
            final(self).shapes@ == old(self).shapes@.push(shape),
            final(self).points == old(self).points,
            final(self).lines == old(self).lines,
            final(self).size_shapes == sat_add(old(self).size_shapes,
                SHAPE_OVERHEAD + pred_count(shape.points@, old(self).resolution) * SHAPE_POINT_SIZE),
            final(self).size_points == old(self).size_points,
            final(self).size_lines == old(self).size_lines,
            final(self).bounds == old(self).bounds,
            final(self).resolution == old(self).resolution,
            final(self).full_box() == grow_box(old(self).full_box(), shape.points@),
    {
        let n = predicted_max_num_points(&shape.points, self.resolution);
        self.size_shapes = add_estimate(self.size_shapes, SHAPE_OVERHEAD, n, SHAPE_POINT_SIZE);
        self.extend_bounds_points(&shape.points);
        self.shapes.push(shape);
    }

    /// Estimated RGN bytes of the area (saturating).
    pub fn total_size(&self) -> (r: usize)
        ensures
            r == sat_add(sat_add(self.size_points, self.size_lines as int), self.size_shapes as int),
    {
        self.size_points.saturating_add(self.size_lines).saturating_add(self.size_shapes)
    }

    /// Whether the area holds any feature.
    pub fn has_data(&self) -> (r: bool)
        ensures
            r == self.spec_has_data(),
    {
        self.points.len() > 0 || self.lines.len() > 0 || self.shapes.len() > 0
    }
}


/// Number of lines with at least one point.
pub open spec fn ne_lines(lines: Seq<SplitLine>) -> int
    decreases lines.len(),
{
    if lines.len() == 0 {
        0
    } else {
        ne_lines(lines.drop_last()) + if lines.last().points@.len() > 0 { 1int } else { 0int }
    }
}

/// Points over all areas.
pub open spec fn total_points(areas: Seq<MapArea>) -> int
    decreases areas.len(),
{
    if areas.len() == 0 { 0 } else { total_points(areas.drop_last()) + areas.last().points@.len() }
}

/// Lines with points over all areas.
pub open spec fn total_lines(areas: Seq<MapArea>) -> int
    decreases areas.len(),
{
    if areas.len() == 0 { 0 } else { total_lines(areas.drop_last()) + ne_lines(areas.last().lines@) }
}

/// Every area holds a feature.
pub open spec fn all_have_data(areas: Seq<MapArea>) -> bool {
    forall|i: int| 0 <= i < areas.len() ==> (#[trigger] areas[i]).spec_has_data()
}

proof fn lemma_ne_lines_push(lines: Seq<SplitLine>, l: SplitLine)
    ensures
        ne_lines(lines.push(l)) == ne_lines(lines) + if l.points@.len() > 0 { 1int } else { 0int },
{
    assert(lines.push(l).drop_last() =~= lines);
}

proof fn lemma_ne_lines_bound(lines: Seq<SplitLine>)
    ensures
        0 <= ne_lines(lines) <= lines.len(),
    decreases lines.len(),
{
    if lines.len() > 0 {
        lemma_ne_lines_bound(lines.drop_last());
    }
}

/// The points over all areas.
pub open spec fn points_of(areas: Seq<MapArea>) -> vstd::multiset::Multiset<SplitPoint>
    decreases areas.len(),
{
    if areas.len() == 0 {
        vstd::multiset::Multiset::empty()
    } else {
        points_of(areas.drop_last()).add(areas.last().points@.to_multiset())
    }
}

/// The lines with points among `vs`, as source index and points.
pub open spec fn ne_views(vs: Seq<(usize, Seq<Coord>)>) -> vstd::multiset::Multiset<(usize, Seq<Coord>)>
    decreases vs.len(),
{
    if vs.len() == 0 {
        vstd::multiset::Multiset::empty()
    } else {
        let p = ne_views(vs.drop_last());
        if vs.last().1.len() > 0 { p.insert(vs.last()) } else { p }
    }
}

/// The lines with points of an area.
pub open spec fn area_lines(a: MapArea) -> vstd::multiset::Multiset<(usize, Seq<Coord>)> {
    ne_views(lines_view(a.lines@))
}

/// The lines with points over all areas, as source index and points.
pub open spec fn lines_of(areas: Seq<MapArea>) -> vstd::multiset::Multiset<(usize, Seq<Coord>)>
    decreases areas.len(),
{
    if areas.len() == 0 {
        vstd::multiset::Multiset::empty()
    } else {
        lines_of(areas.drop_last()).add(area_lines(areas.last()))
    }
}

/// The source indices of an area's shapes.
pub open spec fn area_shape_ids(a: MapArea) -> Set<usize> {
    Set::new(|x: usize| exists|j: int| 0 <= j < a.shapes@.len() && (#[trigger] a.shapes@[j]).mp_index == x)
}

/// The source indices of an area's shapes of three points or more.
pub open spec fn area_big_shape_ids(a: MapArea) -> Set<usize> {
    Set::new(|x: usize| exists|j: int| 0 <= j < a.shapes@.len() && (#[trigger] a.shapes@[j]).mp_index == x
        && a.shapes@[j].points@.len() >= 3)
}

/// The source indices of the shapes over all areas.
pub open spec fn shape_ids_of(areas: Seq<MapArea>) -> Set<usize>
    decreases areas.len(),
{
    if areas.len() == 0 {
        Set::empty()
    } else {
        shape_ids_of(areas.drop_last()).union(area_shape_ids(areas.last()))
    }
}

/// The source indices of the shapes of three points or more over all areas.
pub open spec fn big_shape_ids_of(areas: Seq<MapArea>) -> Set<usize>
    decreases areas.len(),
{
    if areas.len() == 0 {
        Set::empty()
    } else {
        big_shape_ids_of(areas.drop_last()).union(area_big_shape_ids(areas.last()))
    }
}

/// Replacing an area by one with the same shapes and more keeps the
/// others' shape indices.
proof fn lemma_shape_ids_update(areas: Seq<MapArea>, j: int, a: MapArea)
    requires
        0 <= j < areas.len(),
        area_shape_ids(areas[j]).subset_of(area_shape_ids(a)),
        area_big_shape_ids(areas[j]).subset_of(area_big_shape_ids(a)),
    ensures
        shape_ids_of(areas.update(j, a)) == shape_ids_of(areas).union(area_shape_ids(a)),
        big_shape_ids_of(areas.update(j, a)) == big_shape_ids_of(areas).union(area_big_shape_ids(a)),
    decreases areas.len(),
{
    if j == areas.len() - 1 {
        assert(areas.update(j, a).drop_last() =~= areas.drop_last());
    } else {
        lemma_shape_ids_update(areas.drop_last(), j, a);
        assert(areas.update(j, a).drop_last() =~= areas.drop_last().update(j, a));
    }
    assert(shape_ids_of(areas.update(j, a)) =~= shape_ids_of(areas).union(area_shape_ids(a)));
    assert(big_shape_ids_of(areas.update(j, a)) =~= big_shape_ids_of(areas).union(area_big_shape_ids(a)));
}

/// Shape indices over a concatenation, and over an added area.
proof fn lemma_shape_ids_concat(a: Seq<MapArea>, b: Seq<MapArea>)
    ensures
        shape_ids_of(a + b) == shape_ids_of(a).union(shape_ids_of(b)),
        big_shape_ids_of(a + b) == big_shape_ids_of(a).union(big_shape_ids_of(b)),
    decreases b.len(),
{
    if b.len() == 0 {
        assert(a + b =~= a);
    } else {
        lemma_shape_ids_concat(a, b.drop_last());
        assert((a + b).drop_last() =~= a + b.drop_last());
    }
    assert(shape_ids_of(a + b) =~= shape_ids_of(a).union(shape_ids_of(b)));
    assert(big_shape_ids_of(a + b) =~= big_shape_ids_of(a).union(big_shape_ids_of(b)));
}

/// Adding a shape adds its index (and to the big ones, where it has three
/// points or more); other changes that keep the shapes keep the indices.
proof fn lemma_area_shapes_push(a: MapArea, b: MapArea, mp: usize, pts: Seq<Coord>)
    requires
        shapes_view(b.shapes@) == shapes_view(a.shapes@).push((mp, pts)),
    ensures
        area_shape_ids(b) == area_shape_ids(a).insert(mp),
        area_big_shape_ids(b) == if pts.len() >= 3 { area_big_shape_ids(a).insert(mp) } else { area_big_shape_ids(a) },
{
    let n = a.shapes@.len() as int;
    assert(shapes_view(b.shapes@).len() == b.shapes@.len());
    assert(shapes_view(a.shapes@).len() == a.shapes@.len());
    assert(b.shapes@.len() == n + 1);
    assert forall|j: int| 0 <= j < n implies (#[trigger] b.shapes@[j]).mp_index == a.shapes@[j].mp_index
        && b.shapes@[j].points@ == a.shapes@[j].points@ by {
        assert(shapes_view(b.shapes@)[j] == shapes_view(a.shapes@)[j]);
    }
    assert(shapes_view(b.shapes@)[n] == (mp, pts));
    assert forall|x: usize| area_shape_ids(b).contains(x) <==> area_shape_ids(a).insert(mp).contains(x) by {
        if area_shape_ids(a).contains(x) {
            let j = choose|j: int| 0 <= j < a.shapes@.len() && (#[trigger] a.shapes@[j]).mp_index == x;
            assert(b.shapes@[j].mp_index == x);
        }
        if x == mp {
            assert(b.shapes@[n as int].mp_index == x);
        }
        if area_shape_ids(b).contains(x) {
            let j = choose|j: int| 0 <= j < b.shapes@.len() && (#[trigger] b.shapes@[j]).mp_index == x;
            if j < n {
                assert(a.shapes@[j].mp_index == x);
            }
        }
    }
    assert(area_shape_ids(b) =~= area_shape_ids(a).insert(mp));
    let bb = if pts.len() >= 3 { area_big_shape_ids(a).insert(mp) } else { area_big_shape_ids(a) };
    assert forall|x: usize| area_big_shape_ids(b).contains(x) <==> bb.contains(x) by {
        if area_big_shape_ids(a).contains(x) {
            let j = choose|j: int| 0 <= j < a.shapes@.len() && (#[trigger] a.shapes@[j]).mp_index == x
                && a.shapes@[j].points@.len() >= 3;
            assert(b.shapes@[j].mp_index == x && b.shapes@[j].points@.len() >= 3);
        }
        if x == mp && pts.len() >= 3 {
            assert(b.shapes@[n as int].mp_index == x && b.shapes@[n as int].points@.len() >= 3);
        }
        if area_big_shape_ids(b).contains(x) {
            let j = choose|j: int| 0 <= j < b.shapes@.len() && (#[trigger] b.shapes@[j]).mp_index == x
                && b.shapes@[j].points@.len() >= 3;
            if j < n {
                assert(a.shapes@[j].mp_index == x && a.shapes@[j].points@.len() >= 3);
            }
        }
    }
    assert(area_big_shape_ids(b) =~= bb);
}

/// The source indices of the shapes of three points or more of `ss`.
pub open spec fn big_ids_in(ss: Seq<SplitShape>) -> Set<usize> {
    Set::new(|x: usize| exists|j: int| 0 <= j < ss.len() && (#[trigger] ss[j]).mp_index == x && ss[j].points@.len() >= 3)
}

/// The source indices of the shapes of `ss`.
pub open spec fn ids_in(ss: Seq<SplitShape>) -> Set<usize> {
    Set::new(|x: usize| exists|j: int| 0 <= j < ss.len() && (#[trigger] ss[j]).mp_index == x)
}

/// One more shape adds its index.
proof fn lemma_ids_take(ss: Seq<SplitShape>, i: int)
    requires
        0 <= i < ss.len(),
    ensures
        ids_in(ss.take(i + 1)) == ids_in(ss.take(i)).insert(ss[i].mp_index),
{
    assert forall|x: usize| ids_in(ss.take(i + 1)).contains(x) <==> ids_in(ss.take(i)).insert(ss[i].mp_index).contains(x) by {
        if ids_in(ss.take(i + 1)).contains(x) {
            let j = choose|j: int| 0 <= j < i + 1 && (#[trigger] ss.take(i + 1)[j]).mp_index == x;
            if j < i {
                assert(ss.take(i)[j] == ss[j]);
            }
        }
        if ids_in(ss.take(i)).contains(x) {
            let j = choose|j: int| 0 <= j < i && (#[trigger] ss.take(i)[j]).mp_index == x;
            assert(ss.take(i + 1)[j] == ss[j]);
        }
        if x == ss[i].mp_index {
            assert(ss.take(i + 1)[i] == ss[i]);
        }
    }
    assert(ids_in(ss.take(i + 1)) =~= ids_in(ss.take(i)).insert(ss[i].mp_index));
}

/// One more shape adds its index where it has three points or more.
proof fn lemma_big_ids_take(ss: Seq<SplitShape>, i: int)
    requires
        0 <= i < ss.len(),
    ensures
        big_ids_in(ss.take(i + 1)) == big_ids_in(ss.take(i)).union(
            if ss[i].points@.len() >= 3 { set![ss[i].mp_index] } else { Set::<usize>::empty() }),
{
    let rhs = big_ids_in(ss.take(i)).union(if ss[i].points@.len() >= 3 { set![ss[i].mp_index] } else { Set::<usize>::empty() });
    assert forall|x: usize| big_ids_in(ss.take(i + 1)).contains(x) <==> rhs.contains(x) by {
        if big_ids_in(ss.take(i + 1)).contains(x) {
            let j = choose|j: int| 0 <= j < i + 1 && (#[trigger] ss.take(i + 1)[j]).mp_index == x
                && ss.take(i + 1)[j].points@.len() >= 3;
            if j < i {
                assert(ss.take(i)[j] == ss[j]);
            }
        }
        if big_ids_in(ss.take(i)).contains(x) {
            let j = choose|j: int| 0 <= j < i && (#[trigger] ss.take(i)[j]).mp_index == x && ss.take(i)[j].points@.len() >= 3;
            assert(ss.take(i + 1)[j] == ss[j]);
        }
        if ss[i].points@.len() >= 3 && x == ss[i].mp_index {
            assert(ss.take(i + 1)[i] == ss[i]);
        }
    }
    assert(big_ids_in(ss.take(i + 1)) =~= rhs);
}

/// Areas with the same shapes have the same shape indices.
proof fn lemma_area_shapes_same(a: MapArea, b: MapArea)
    requires
        shapes_view(b.shapes@) == shapes_view(a.shapes@),
    ensures
        area_shape_ids(b) == area_shape_ids(a),
        area_big_shape_ids(b) == area_big_shape_ids(a),
{
    assert(shapes_view(b.shapes@).len() == b.shapes@.len());
    assert(shapes_view(a.shapes@).len() == a.shapes@.len());
    assert forall|j: int| 0 <= j < a.shapes@.len() implies (#[trigger] b.shapes@[j]).mp_index == a.shapes@[j].mp_index
        && b.shapes@[j].points@ == a.shapes@[j].points@ by {
        assert(shapes_view(b.shapes@)[j] == shapes_view(a.shapes@)[j]);
    }
    assert(b.shapes@.len() == a.shapes@.len());
    assert forall|x: usize| area_shape_ids(b).contains(x) <==> area_shape_ids(a).contains(x) by {
        if area_shape_ids(a).contains(x) {
            let j = choose|j: int| 0 <= j < a.shapes@.len() && (#[trigger] a.shapes@[j]).mp_index == x;
            assert(b.shapes@[j].mp_index == x);
        }
    }
    assert forall|x: usize| area_big_shape_ids(b).contains(x) <==> area_big_shape_ids(a).contains(x) by {
        if area_big_shape_ids(a).contains(x) {
            let j = choose|j: int| 0 <= j < a.shapes@.len() && (#[trigger] a.shapes@[j]).mp_index == x
                && a.shapes@[j].points@.len() >= 3;
            assert(b.shapes@[j].mp_index == x && b.shapes@[j].points@.len() >= 3);
        }
    }
    assert(area_shape_ids(b) =~= area_shape_ids(a));
    assert(area_big_shape_ids(b) =~= area_big_shape_ids(a));
}

/// An area's shape indices are among those of all areas.
proof fn lemma_area_in_ids(areas: Seq<MapArea>, j: int)
    requires
        0 <= j < areas.len(),
    ensures
        area_shape_ids(areas[j]).subset_of(shape_ids_of(areas)),
        area_big_shape_ids(areas[j]).subset_of(big_shape_ids_of(areas)),
    decreases areas.len(),
{
    if j < areas.len() - 1 {
        lemma_area_in_ids(areas.drop_last(), j);
    }
}

/// Areas without shapes have no shape indices.
proof fn lemma_no_shapes_all(areas: Seq<MapArea>)
    requires
        forall|m: int| 0 <= m < areas.len() ==> (#[trigger] areas[m]).shapes@.len() == 0,
    ensures
        shape_ids_of(areas) == Set::<usize>::empty(),
        big_shape_ids_of(areas) == Set::<usize>::empty(),
    decreases areas.len(),
{
    if areas.len() > 0 {
        lemma_no_shapes_all(areas.drop_last());
        lemma_no_shapes(areas.last());
        assert(shape_ids_of(areas) =~= Set::<usize>::empty());
        assert(big_shape_ids_of(areas) =~= Set::<usize>::empty());
    }
}

/// An area without shapes has no shape indices.
proof fn lemma_no_shapes(a: MapArea)
    requires
        a.shapes@.len() == 0,
    ensures
        area_shape_ids(a) == Set::<usize>::empty(),
        area_big_shape_ids(a) == Set::<usize>::empty(),
{
    assert(area_shape_ids(a) =~= Set::<usize>::empty());
    assert(area_big_shape_ids(a) =~= Set::<usize>::empty());
}

proof fn lemma_totals_update(areas: Seq<MapArea>, j: int, a: MapArea)
    requires
        0 <= j < areas.len(),
    ensures
        total_points(areas.update(j, a)) == total_points(areas) - areas[j].points@.len() + a.points@.len(),
        total_lines(areas.update(j, a)) == total_lines(areas) - ne_lines(areas[j].lines@) + ne_lines(a.lines@),
        points_of(areas.update(j, a)).add(areas[j].points@.to_multiset()) == points_of(areas).add(a.points@.to_multiset()),
        lines_of(areas.update(j, a)).add(area_lines(areas[j])) == lines_of(areas).add(area_lines(a)),
        forall|x: SplitPoint| #[trigger] points_of(areas.update(j, a)).count(x) == points_of(areas).count(x)
            + a.points@.to_multiset().count(x) - areas[j].points@.to_multiset().count(x),
        forall|x: (usize, Seq<Coord>)| #[trigger] lines_of(areas.update(j, a)).count(x) == lines_of(areas).count(x)
            + area_lines(a).count(x) - area_lines(areas[j]).count(x),
    decreases areas.len(),
{
    broadcast use vstd::multiset::group_multiset_axioms;
    lemma_totals_update_eq(areas, j, a);
    assert forall|x: SplitPoint| #[trigger] points_of(areas.update(j, a)).count(x) == points_of(areas).count(x)
        + a.points@.to_multiset().count(x) - areas[j].points@.to_multiset().count(x) by {
        assert(points_of(areas.update(j, a)).add(areas[j].points@.to_multiset()).count(x)
            == points_of(areas).add(a.points@.to_multiset()).count(x));
    }
    assert forall|x: (usize, Seq<Coord>)| #[trigger] lines_of(areas.update(j, a)).count(x) == lines_of(areas).count(x)
        + area_lines(a).count(x) - area_lines(areas[j]).count(x) by {
        assert(lines_of(areas.update(j, a)).add(area_lines(areas[j])).count(x) == lines_of(areas).add(area_lines(a)).count(x));
    }
}

proof fn lemma_totals_update_eq(areas: Seq<MapArea>, j: int, a: MapArea)
    requires
        0 <= j < areas.len(),
    ensures
        total_points(areas.update(j, a)) == total_points(areas) - areas[j].points@.len() + a.points@.len(),
        total_lines(areas.update(j, a)) == total_lines(areas) - ne_lines(areas[j].lines@) + ne_lines(a.lines@),
        points_of(areas.update(j, a)).add(areas[j].points@.to_multiset()) == points_of(areas).add(a.points@.to_multiset()),
        lines_of(areas.update(j, a)).add(area_lines(areas[j])) == lines_of(areas).add(area_lines(a)),
    decreases areas.len(),
{
    broadcast use vstd::multiset::group_multiset_axioms;
    if j == areas.len() - 1 {
        assert(areas.update(j, a).drop_last() =~= areas.drop_last());
        assert(points_of(areas.update(j, a)).add(areas[j].points@.to_multiset()) =~= points_of(areas).add(a.points@.to_multiset()));
        assert(lines_of(areas.update(j, a)).add(area_lines(areas[j])) =~= lines_of(areas).add(area_lines(a)));
    } else {
        let d = areas.drop_last();
        let u = areas.update(j, a);
        lemma_totals_update_eq(d, j, a);
        assert(u.drop_last() =~= d.update(j, a));
        assert(d[j] == areas[j]);
        assert(u.last() == areas.last());
        assert(points_of(u) == points_of(d.update(j, a)).add(areas.last().points@.to_multiset()));
        assert(points_of(areas) == points_of(d).add(areas.last().points@.to_multiset()));
        assert(lines_of(u) == lines_of(d.update(j, a)).add(area_lines(areas.last())));
        assert(lines_of(areas) == lines_of(d).add(area_lines(areas.last())));
        assert forall|x: SplitPoint| #[trigger] points_of(u).add(areas[j].points@.to_multiset()).count(x)
            == points_of(areas).add(a.points@.to_multiset()).count(x) by {
            assert(points_of(d.update(j, a)).add(d[j].points@.to_multiset()).count(x)
                == points_of(d).add(a.points@.to_multiset()).count(x));
        }
        assert forall|x: (usize, Seq<Coord>)| #[trigger] lines_of(u).add(area_lines(areas[j])).count(x)
            == lines_of(areas).add(area_lines(a)).count(x) by {
            assert(lines_of(d.update(j, a)).add(area_lines(d[j])).count(x) == lines_of(d).add(area_lines(a)).count(x));
        }
        assert(points_of(u).add(areas[j].points@.to_multiset()) =~= points_of(areas).add(a.points@.to_multiset()));
        assert(lines_of(u).add(area_lines(areas[j])) =~= lines_of(areas).add(area_lines(a)));
    }
}

proof fn lemma_totals_push(areas: Seq<MapArea>, a: MapArea)
    ensures
        total_points(areas.push(a)) == total_points(areas) + a.points@.len(),
        total_lines(areas.push(a)) == total_lines(areas) + ne_lines(a.lines@),
        points_of(areas.push(a)) == points_of(areas).add(a.points@.to_multiset()),
        lines_of(areas.push(a)) == lines_of(areas).add(area_lines(a)),
{
    assert(areas.push(a).drop_last() =~= areas);
}

proof fn lemma_totals_concat(a: Seq<MapArea>, b: Seq<MapArea>)
    ensures
        total_points(a + b) == total_points(a) + total_points(b),
        total_lines(a + b) == total_lines(a) + total_lines(b),
        points_of(a + b) == points_of(a).add(points_of(b)),
        lines_of(a + b) == lines_of(a).add(lines_of(b)),
    decreases b.len(),
{
    broadcast use vstd::multiset::group_multiset_axioms;
    if b.len() == 0 {
        assert(a + b =~= a);
        assert(points_of(a + b) =~= points_of(a).add(points_of(b)));
        assert(lines_of(a + b) =~= lines_of(a).add(lines_of(b)));
    } else {
        lemma_totals_concat(a, b.drop_last());
        assert((a + b).drop_last() =~= a + b.drop_last());
        assert(points_of(a + b) =~= points_of(a).add(points_of(b)));
        assert(lines_of(a + b) =~= lines_of(a).add(lines_of(b)));
    }
}

/// The lines with points of the first `i + 1` lines.
proof fn lemma_ne_views_take(ls: Seq<SplitLine>, i: int)
    requires
        0 <= i < ls.len(),
    ensures
        ne_views(lines_view(ls.take(i + 1))) == if ls[i].points@.len() > 0 {
            ne_views(lines_view(ls.take(i))).insert(line_view(ls[i]))
        } else {
            ne_views(lines_view(ls.take(i)))
        },
{
    assert(lines_view(ls.take(i + 1)).drop_last() =~= lines_view(ls.take(i)));
}

/// Lines pushed onto an area's lines.
proof fn lemma_area_lines_push(a: MapArea, b: MapArea, l: SplitLine)
    requires
        lines_view(b.lines@) == lines_view(a.lines@).push(line_view(l)),
    ensures
        area_lines(b) == if l.points@.len() > 0 { area_lines(a).insert(line_view(l)) } else { area_lines(a) },
{
    assert(lines_view(b.lines@).drop_last() =~= lines_view(a.lines@));
}

/// An area without points adds no points.
proof fn lemma_no_points_empty(a: MapArea)
    requires
        a.points@.len() == 0,
    ensures
        a.points@.to_multiset() == vstd::multiset::Multiset::<SplitPoint>::empty(),
{
    broadcast use vstd::seq_lib::group_to_multiset_ensures;
    assert forall|x: SplitPoint| a.points@.to_multiset().count(x) == 0 by {
        assert(!a.points@.contains(x));
    }
    assert(a.points@.to_multiset() =~= vstd::multiset::Multiset::<SplitPoint>::empty());
}

/// An area without lines adds no lines.
proof fn lemma_no_lines_empty(a: MapArea)
    requires
        a.lines@.len() == 0,
    ensures
        area_lines(a) == vstd::multiset::Multiset::<(usize, Seq<Coord>)>::empty(),
{
    assert(lines_view(a.lines@).len() == 0);
}

/// The points of the first `i + 1` points.
proof fn lemma_points_take(ps: Seq<SplitPoint>, i: int)
    requires
        0 <= i < ps.len(),
    ensures
        ps.take(i + 1).to_multiset() == ps.take(i).to_multiset().insert(ps[i]),
{
    broadcast use vstd::seq_lib::group_to_multiset_ensures;
    assert(ps.take(i + 1) =~= ps.take(i).push(ps[i]));
}

/// The grid cell of position `(x, y)`: column and row by truncating
/// division from the grid origin, clamped to the grid, as one index.
pub open spec fn spec_pick_area(x: i64, y: i64, xbase: i64, ybase: i64, nx: usize, ny: usize, dx: i64, dy: i64,
    num_areas: usize) -> usize
{
    let xc: int = if dx > 0 {
        let q = crate::img::area::tdiv(x - xbase, dx as int);
        if q < 0 { 0 } else if q > nx - 1 { nx - 1 } else { q }
    } else { 0 };
    let yc: int = if dy > 0 {
        let q = crate::img::area::tdiv(y - ybase, dy as int);
        if q < 0 { 0 } else if q > ny - 1 { ny - 1 } else { q }
    } else { 0 };
    let idx = xc * ny + yc;
    (if idx > num_areas - 1 { num_areas - 1 } else { idx }) as usize
}

/// The area index of a position in an `nx` x `ny` grid of cells `dx` by
/// `dy` starting at `(xbase, ybase)`.
pub fn pick_area(x: i64, y: i64, xbase: i64, ybase: i64, nx: usize, ny: usize, dx: i64, dy: i64,
    num_areas: usize) -> (r: usize)
    requires
        nx >= 1,
        ny >= 1,
        nx * ny <= 0x0FFF_FFFF,
        num_areas >= 1,
        i32::MIN <= x <= i32::MAX,
        i32::MIN <= y <= i32::MAX,
        i32::MIN <= xbase <= i32::MAX,
        i32::MIN <= ybase <= i32::MAX,
    ensures
        r == spec_pick_area(x, y, xbase, ybase, nx, ny, dx, dy, num_areas),
        r < num_areas,
{
    assert(nx <= 0x0FFF_FFFF && ny <= 0x0FFF_FFFF) by (nonlinear_arith)
        requires nx >= 1, ny >= 1, nx * ny <= 0x0FFF_FFFF;
    let nxi: i64 = nx as i64;
    let nyi: i64 = ny as i64;
    let xcell: i64 = if dx > 0 {
        let q = (x - xbase) / dx;
        if q < 0 { 0 } else if q > nxi - 1 { nxi - 1 } else { q }
    } else {
        0
    };
    let ycell: i64 = if dy > 0 {
        let q = (y - ybase) / dy;
        if q < 0 { 0 } else if q > nyi - 1 { nyi - 1 } else { q }
    } else {
        0
    };
    assert(xcell * ny + ycell <= (nx - 1) * ny + ny - 1) by (nonlinear_arith)
        requires 0 <= xcell <= nx - 1, 0 <= ycell <= ny - 1, ny >= 1;
    assert((nx - 1) * ny + ny - 1 == nx * ny - 1) by (nonlinear_arith);
    let idx: usize = (xcell as usize) * ny + (ycell as usize);
    if idx > num_areas - 1 { num_areas - 1 } else { idx }
}

/// Sutherland-Hodgman clip edges.
#[derive(Clone, Copy)]
pub enum Edge {
    /// Keep longitude >= boundary
    Left,
    /// Keep longitude <= boundary
    Right,
    /// Keep latitude >= boundary
    Bottom,
    /// Keep latitude <= boundary
    Top,
}

/// Whether a point is on the kept side of a clip edge.
pub open spec fn spec_is_inside(c: Coord, edge: Edge, boundary: i32) -> bool {
    match edge {
        Edge::Left => c.longitude >= boundary,
        Edge::Right => c.longitude <= boundary,
        Edge::Bottom => c.latitude >= boundary,
        Edge::Top => c.latitude <= boundary,
    }
}

fn is_inside(c: Coord, edge: Edge, boundary: i32) -> (r: bool)
    ensures
        r == spec_is_inside(c, edge, boundary),
{
    match edge {
        Edge::Left => c.longitude >= boundary,
        Edge::Right => c.longitude <= boundary,
        Edge::Bottom => c.latitude >= boundary,
        Edge::Top => c.latitude <= boundary,
    }
}

/// Where segment `[a, b]` crosses a clip edge (integer interpolation,
/// truncated); `None` for a segment parallel to the edge.
pub open spec fn spec_intersect(a: Coord, b: Coord, edge: Edge, boundary: i32) -> Option<Coord> {
    match edge {
        Edge::Left | Edge::Right => {
            let d = b.longitude - a.longitude;
            if d == 0 { None } else {
                let y = a.latitude + crate::img::area::tdiv((boundary - a.longitude) * (b.latitude - a.latitude), d);
                Some(Coord { latitude: y as i32, longitude: boundary, lat_delta: 0, lon_delta: 0 })
            }
        },
        Edge::Bottom | Edge::Top => {
            let d = b.latitude - a.latitude;
            if d == 0 { None } else {
                let x = a.longitude + crate::img::area::tdiv((boundary - a.latitude) * (b.longitude - a.longitude), d);
                Some(Coord { latitude: boundary, longitude: x as i32, lat_delta: 0, lon_delta: 0 })
            }
        },
    }
}

proof fn lemma_tdiv_bound(a: int, d: int)
    requires
        d != 0,
    ensures
        -(if a < 0 { -a } else { a }) <= crate::img::area::tdiv(a, d) <= (if a < 0 { -a } else { a }),
{
    if a >= 0 {
        if d > 0 {
            assert(0 <= a / d <= a) by (nonlinear_arith) requires a >= 0, d > 0;
        } else {
            assert(-a <= a / d <= 0) by (nonlinear_arith) requires a >= 0, d < 0;
        }
    } else {
        let b = -a;
        if d > 0 {
            assert(0 <= b / d <= b) by (nonlinear_arith) requires b >= 0, d > 0;
        } else {
            assert(-b <= b / d <= 0) by (nonlinear_arith) requires b >= 0, d < 0;
        }
    }
}

/// Division toward zero leaves a remainder smaller than the divisor, of the
/// dividend's sign.
proof fn lemma_tdiv_rem(n: int, d: int)
    requires
        d != 0,
    ensures
        n >= 0 ==> 0 <= n - tdiv(n, d) * d < (if d < 0 { -d } else { d }),
        n < 0 ==> 0 <= tdiv(n, d) * d - n < (if d < 0 { -d } else { d }),
{
    if n >= 0 {
        assert(n == d * (n / d) + n % d && 0 <= n % d < (if d < 0 { -d } else { d })) by (nonlinear_arith)
            requires d != 0;
        assert(tdiv(n, d) == n / d);
        assert((n / d) * d == d * (n / d)) by (nonlinear_arith);
    } else {
        let m = -n;
        assert(m == d * (m / d) + m % d && 0 <= m % d < (if d < 0 { -d } else { d })) by (nonlinear_arith)
            requires d != 0;
        assert(tdiv(n, d) == -(m / d));
        assert((-(m / d)) * d == -(d * (m / d))) by (nonlinear_arith);
    }
}

/// Along an axis where `a0 != b0` and `k` lies between them, the point of
/// the segment from `(a0, a1)` to `(b0, b1)` at `k` has its other
/// coordinate between `a1` and `b1`, off the exact line by less than one
/// step: `|(y - a1) * (b0 - a0) - (k - a0) * (b1 - a1)| < |b0 - a0|`.
proof fn lemma_crossing(a0: int, b0: int, a1: int, b1: int, k: int)
    requires
        a0 != b0,
        a0 <= k <= b0 || b0 <= k <= a0,
    ensures
        ({
            let d = b0 - a0;
            let y = a1 + tdiv((k - a0) * (b1 - a1), d);
            let e = (y - a1) * d - (k - a0) * (b1 - a1);
            &&& a1 <= y <= b1 || b1 <= y <= a1
            &&& -(if d < 0 { -d } else { d }) < e < (if d < 0 { -d } else { d })
        }),
{
    let d = b0 - a0;
    let t = k - a0;
    let m = b1 - a1;
    let n = t * m;
    let q = tdiv(n, d);
    lemma_tdiv_rem(n, d);
    if d > 0 {
        assert(0 <= t <= d);
        if m >= 0 {
            assert(0 <= n <= d * m) by (nonlinear_arith) requires 0 <= t <= d, m >= 0, n == t * m;
            assert(0 <= q <= m) by (nonlinear_arith) requires 0 <= n - q * d < d, 0 <= n <= d * m, d > 0;
        } else {
            assert(d * m <= n <= 0) by (nonlinear_arith) requires 0 <= t <= d, m < 0, n == t * m;
            if n >= 0 {
                assert(n == 0);
                assert(q == 0) by (nonlinear_arith) requires 0 <= n - q * d < d, n == 0, d > 0;
            } else {
                assert(m <= q <= 0) by (nonlinear_arith) requires 0 <= q * d - n < d, d * m <= n < 0, d > 0;
            }
        }
    } else {
        assert(d <= t <= 0);
        if m >= 0 {
            assert(d * m <= n <= 0) by (nonlinear_arith) requires d <= t <= 0, m >= 0, n == t * m;
            if n >= 0 {
                assert(n == 0);
                assert(q == 0) by (nonlinear_arith) requires 0 <= n - q * d < -d, n == 0, d < 0;
            } else {
                assert(0 <= q <= m) by (nonlinear_arith) requires 0 <= q * d - n < -d, d * m <= n < 0, d < 0;
            }
        } else {
            assert(0 <= n <= d * m) by (nonlinear_arith) requires d <= t <= 0, m < 0, n == t * m;
            assert(m <= q <= 0) by (nonlinear_arith) requires 0 <= n - q * d < -d, 0 <= n <= d * m, d < 0;
        }
    }
    assert((a1 + q - a1) * d - t * m == q * d - n) by (nonlinear_arith) requires n == t * m;
}

/// The crossing with a clip edge lies on the segment: on the edge's line,
/// between the endpoints' other coordinates, and off the segment's exact
/// line by less than one step of the truncated division.
pub proof fn lemma_intersect_on_segment(a: Coord, b: Coord, edge: Edge, boundary: i32)
    requires
        match edge {
            Edge::Left | Edge::Right => a.longitude != b.longitude && (a.longitude <= boundary <= b.longitude
                || b.longitude <= boundary <= a.longitude),
            Edge::Bottom | Edge::Top => a.latitude != b.latitude && (a.latitude <= boundary <= b.latitude
                || b.latitude <= boundary <= a.latitude),
        },
    ensures
        spec_intersect(a, b, edge, boundary) is Some,
        ({
            let c = spec_intersect(a, b, edge, boundary)->0;
            match edge {
                Edge::Left | Edge::Right => {
                    let d = b.longitude - a.longitude;
                    let e = (c.latitude - a.latitude) * d - (boundary - a.longitude) * (b.latitude - a.latitude);
                    &&& c.longitude == boundary
                    &&& a.latitude <= c.latitude <= b.latitude || b.latitude <= c.latitude <= a.latitude
                    &&& -(if d < 0 { -d } else { d }) < e < (if d < 0 { -d } else { d })
                },
                Edge::Bottom | Edge::Top => {
                    let d = b.latitude - a.latitude;
                    let e = (c.longitude - a.longitude) * d - (boundary - a.latitude) * (b.longitude - a.longitude);
                    &&& c.latitude == boundary
                    &&& a.longitude <= c.longitude <= b.longitude || b.longitude <= c.longitude <= a.longitude
                    &&& -(if d < 0 { -d } else { d }) < e < (if d < 0 { -d } else { d })
                },
            }
        }),
{
    match edge {
        Edge::Left | Edge::Right => {
            lemma_crossing(a.longitude as int, b.longitude as int, a.latitude as int, b.latitude as int, boundary as int);
        },
        Edge::Bottom | Edge::Top => {
            lemma_crossing(a.latitude as int, b.latitude as int, a.longitude as int, b.longitude as int, boundary as int);
        },
    }
}

fn intersect_edge(a: Coord, b: Coord, edge: Edge, boundary: i32) -> (r: Option<Coord>)
    ensures
        r == spec_intersect(a, b, edge, boundary),
{
    let (ax, ay) = (a.longitude as i128, a.latitude as i128);
    let (bx, by) = (b.longitude as i128, b.latitude as i128);
    match edge {
        Edge::Left | Edge::Right => {
            let dx = bx - ax;
            if dx == 0 {
                return None;
            }
            let t_num = boundary as i128 - ax;
            assert(-0x1_0000_0000i128 <= t_num <= 0x1_0000_0000i128);
            assert(-0x1_0000_0000_0000_0000i128 <= t_num * (by - ay) <= 0x1_0000_0000_0000_0000i128) by (nonlinear_arith)
                requires -0x1_0000_0000i128 <= t_num <= 0x1_0000_0000i128, -0x1_0000_0000i128 <= by - ay <= 0x1_0000_0000i128;
            let prod = t_num * (by - ay);
            let q = prod / dx;
            proof { lemma_tdiv_bound(prod as int, dx as int); }
            let y = ay + q;
            Some(Coord { latitude: y as i32, longitude: boundary, lat_delta: 0, lon_delta: 0 })
        },
        Edge::Bottom | Edge::Top => {
            let dy = by - ay;
            if dy == 0 {
                return None;
            }
            let t_num = boundary as i128 - ay;
            assert(-0x1_0000_0000_0000_0000i128 <= t_num * (bx - ax) <= 0x1_0000_0000_0000_0000i128) by (nonlinear_arith)
                requires -0x1_0000_0000i128 <= t_num <= 0x1_0000_0000i128, -0x1_0000_0000i128 <= bx - ax <= 0x1_0000_0000i128;
            let prod = t_num * (bx - ax);
            let q = prod / dy;
            proof { lemma_tdiv_bound(prod as int, dy as int); }
            let x = ax + q;
            Some(Coord { latitude: boundary, longitude: x as i32, lat_delta: 0, lon_delta: 0 })
        },
    }
}

/// One Sutherland-Hodgman pass: for each vertex and its successor
/// (cyclically), keep the vertex when inside, and add the crossing point
/// when exactly one of the two is inside.
pub open spec fn clip_edge_spec(poly: Seq<Coord>, edge: Edge, boundary: i32, k: int) -> Seq<Coord>
    decreases k,
{
    if k <= 0 {
        Seq::empty()
    } else {
        let i = k - 1;
        let cur = poly[i];
        let next = poly[(i + 1) % (poly.len() as int)];
        let ci = spec_is_inside(cur, edge, boundary);
        let ni = spec_is_inside(next, edge, boundary);
        let x = spec_intersect(cur, next, edge, boundary);
        let cross: Seq<Coord> = if ci != ni && x is Some { seq![x->0] } else { Seq::empty() };
        clip_edge_spec(poly, edge, boundary, k - 1) + (if ci { seq![cur] } else { Seq::empty() }) + cross
    }
}

fn clip_edge(polygon: &Vec<Coord>, edge: Edge, boundary: i32) -> (r: Vec<Coord>)
    ensures
        r@ == clip_edge_spec(polygon@, edge, boundary, polygon@.len() as int),
{
    let mut output: Vec<Coord> = Vec::new();
    let n = polygon.len();
    if n == 0 {
        return output;
    }
    let mut i: usize = 0;
    while i < n
        invariant
            n == polygon@.len() > 0,
            i <= n,
            output@ == clip_edge_spec(polygon@, edge, boundary, i as int),
        decreases n - i,
    {
        let current = polygon[i];
        let next = polygon[(i + 1) % n];
        let cur_inside = is_inside(current, edge, boundary);
        let next_inside = is_inside(next, edge, boundary);
        let ghost before = output@;
        if cur_inside {
            output.push(current);
            if !next_inside {
                match intersect_edge(current, next, edge, boundary) {
                    Some(p) => output.push(p),
                    None => {},
                }
            }
        } else if next_inside {
            match intersect_edge(current, next, edge, boundary) {
                Some(p) => output.push(p),
                None => {},
            }
        }
        assert(output@ =~= clip_edge_spec(polygon@, edge, boundary, i + 1));
        i = i + 1;
    }
    output
}

/// Sutherland-Hodgman clipping of a polygon against a rectangle: left,
/// right, bottom and top edge in turn; fewer than 3 vertices after one of
/// the first three passes give nothing.
pub open spec fn spec_clip_polygon(poly: Seq<Coord>, rect: Area) -> Seq<Coord> {
    if poly.len() < 3 {
        Seq::empty()
    } else {
        let a = clip_edge_spec(poly, Edge::Left, rect.min_lon, poly.len() as int);
        if a.len() < 3 { Seq::empty() } else {
            let b = clip_edge_spec(a, Edge::Right, rect.max_lon, a.len() as int);
            if b.len() < 3 { Seq::empty() } else {
                let c = clip_edge_spec(b, Edge::Bottom, rect.min_lat, b.len() as int);
                if c.len() < 3 { Seq::empty() } else {
                    clip_edge_spec(c, Edge::Top, rect.max_lat, c.len() as int)
                }
            }
        }
    }
}

/// Clip a polygon to a rectangle (Sutherland-Hodgman).
pub fn clip_polygon_to_rect(polygon: &[Coord], rect: &Area) -> (r: Vec<Coord>)
    ensures
        r@ == spec_clip_polygon(polygon@, *rect),
{
    if polygon.len() < 3 {
        return Vec::new();
    }
    let mut output: Vec<Coord> = Vec::new();
    let mut i: usize = 0;
    while i < polygon.len()
        invariant
            i <= polygon@.len(),
            output@ == polygon@.take(i as int),
        decreases polygon@.len() - i,
    {
        output.push(polygon[i]);
        assert(output@ =~= polygon@.take(i + 1));
        i = i + 1;
    }
    assert(output@ =~= polygon@);
    let output = clip_edge(&output, Edge::Left, rect.min_lon);
    if output.len() < 3 {
        return Vec::new();
    }
    let output = clip_edge(&output, Edge::Right, rect.max_lon);
    if output.len() < 3 {
        return Vec::new();
    }
    let output = clip_edge(&output, Edge::Bottom, rect.min_lat);
    if output.len() < 3 {
        return Vec::new();
    }
    clip_edge(&output, Edge::Top, rect.max_lat)
}


/// `MIN_DIMENSION` scaled to the unit of a resolution.
pub open spec fn min_dim_scaled(resolution: u8) -> i32 {
    MIN_DIMENSION << (res_shift(resolution) as i32)
}

fn min_dim_scaled_exec(resolution: u8) -> (r: i32)
    ensures
        r == min_dim_scaled(resolution),
{
    let shift: i32 = if resolution >= 24 { 0 } else { 24 - resolution as i32 };
    MIN_DIMENSION << shift
}

impl MapArea {
    /// Another point fits: fewer than 255 points and the size stays within
    /// the wanted maximum.
    pub fn can_add_point(&self) -> (r: bool)
        ensures
            r == (self.points@.len() < MAX_NUM_POINTS && sat_add(sat_add(sat_add(self.size_points,
                self.size_lines as int), self.size_shapes as int), POINT_SIZE as int) <= WANTED_MAX_AREA_SIZE),
    {
        if self.points.len() >= MAX_NUM_POINTS {
            return false;
        }
        self.total_size().saturating_add(POINT_SIZE) <= WANTED_MAX_AREA_SIZE
    }

    /// The line fits: fewer than 255 lines, and a line of at most one kept
    /// point or one whose estimate keeps the size within the wanted maximum.
    pub fn can_add_line(&self, line: &SplitLine) -> (r: bool)
        ensures
            r == (self.lines@.len() < MAX_NUM_LINES && (pred_count(line.points@, self.resolution) <= 1
                || sat_add(sat_add(sat_add(self.size_points, self.size_lines as int), self.size_shapes as int),
                    LINE_OVERHEAD + pred_count(line.points@, self.resolution) * LINE_POINT_SIZE) <= WANTED_MAX_AREA_SIZE)),
    {
        if self.lines.len() >= MAX_NUM_LINES {
            return false;
        }
        let n = predicted_max_num_points(&line.points, self.resolution);
        if n <= 1 {
            return true;
        }
        add_estimate(self.total_size(), LINE_OVERHEAD, n, LINE_POINT_SIZE) <= WANTED_MAX_AREA_SIZE
    }

    /// The shape fits: at most three kept points, or an estimate that keeps
    /// the size within the wanted maximum.
    pub fn can_add_shape(&self, shape: &SplitShape) -> (r: bool)
        ensures
            r == (pred_count(shape.points@, self.resolution) <= 3
                || sat_add(sat_add(sat_add(self.size_points, self.size_lines as int), self.size_shapes as int),
                    SHAPE_OVERHEAD + pred_count(shape.points@, self.resolution) * SHAPE_POINT_SIZE) <= WANTED_MAX_AREA_SIZE),
    {
        let n = predicted_max_num_points(&shape.points, self.resolution);
        if n <= 3 {
            return true;
        }
        add_estimate(self.total_size(), SHAPE_OVERHEAD, n, SHAPE_POINT_SIZE) <= WANTED_MAX_AREA_SIZE
    }

    /// Hard limits exceeded: more than 255 lines, shapes or points, or more
    /// estimated bytes than an RGN subdivision may hold.
    pub open spec fn spec_must_split(&self) -> bool {
        self.lines@.len() > MAX_NUM_LINES || self.shapes@.len() > MAX_NUM_LINES || self.points@.len() > MAX_NUM_POINTS
            || sat_add(sat_add(self.size_points, self.size_lines as int), self.size_shapes as int) > MAX_RGN_SIZE
    }

    pub fn must_split(&self) -> (r: bool)
        ensures
            r == self.spec_must_split(),
    {
        self.lines.len() > MAX_NUM_LINES || self.shapes.len() > MAX_NUM_LINES || self.points.len() > MAX_NUM_POINTS
            || self.total_size() > MAX_RGN_SIZE
    }

    /// Soft limits exceeded: the area is larger than the scaled minimum
    /// dimension and holds more than the wanted size.
    pub open spec fn spec_want_split(&self) -> bool {
        self.bounds.spec_max_dimension() > min_dim_scaled(self.resolution)
            && sat_add(sat_add(self.size_points, self.size_lines as int), self.size_shapes as int) > WANTED_MAX_AREA_SIZE
    }

    pub fn want_split(&self) -> (r: bool)
        ensures
            r == self.spec_want_split(),
    {
        self.bounds.max_dimension() > min_dim_scaled_exec(self.resolution) && self.total_size() > WANTED_MAX_AREA_SIZE
    }

    /// A copy of the area.
    pub fn copy(&self) -> (r: MapArea)
        ensures
            r.bounds == self.bounds,
            r.resolution == self.resolution,
            r.points@ == self.points@,
            r.lines@.len() == self.lines@.len(),
            forall|i: int| 0 <= i < self.lines@.len() ==> (#[trigger] r.lines@[i]).points@ == self.lines@[i].points@
                && r.lines@[i].mp_index == self.lines@[i].mp_index,
            ne_lines(r.lines@) == ne_lines(self.lines@),
            lines_view(r.lines@) == lines_view(self.lines@),
            r.shapes@.len() == self.shapes@.len(),
            forall|i: int| 0 <= i < self.shapes@.len() ==> (#[trigger] r.shapes@[i]).points@ == self.shapes@[i].points@
                && r.shapes@[i].mp_index == self.shapes@[i].mp_index,
            r.size_points == self.size_points && r.size_lines == self.size_lines && r.size_shapes == self.size_shapes,
            r.full_box() == self.full_box(),
            r.has_full_bounds == self.has_full_bounds,
    {
        let points = self.points.clone();
        assert(points@ =~= self.points@);
        let mut lines: Vec<SplitLine> = Vec::new();
        let mut i: usize = 0;
        while i < self.lines.len()
            invariant
                i <= self.lines@.len(),
                lines@.len() == i,
                forall|k: int| 0 <= k < i ==> (#[trigger] lines@[k]).points@ == self.lines@[k].points@
                    && lines@[k].mp_index == self.lines@[k].mp_index,
                ne_lines(lines@) == ne_lines(self.lines@.take(i as int)),
            decreases self.lines@.len() - i,
        {
            let l = self.lines[i].copy();
            proof {
                lemma_ne_lines_push(lines@, l);
                assert(self.lines@.take(i + 1).drop_last() =~= self.lines@.take(i as int));
            }
            lines.push(l);
            i = i + 1;
        }
        assert(self.lines@.take(self.lines@.len() as int) =~= self.lines@);
        assert(lines_view(lines@) =~= lines_view(self.lines@));
        let mut shapes: Vec<SplitShape> = Vec::new();
        i = 0;
        while i < self.shapes.len()
            invariant
                i <= self.shapes@.len(),
                shapes@.len() == i,
                forall|k: int| 0 <= k < i ==> (#[trigger] shapes@[k]).points@ == self.shapes@[k].points@
                    && shapes@[k].mp_index == self.shapes@[k].mp_index,
            decreases self.shapes@.len() - i,
        {
            shapes.push(self.shapes[i].copy());
            i = i + 1;
        }
        MapArea {
            bounds: self.bounds,
            points,
            lines,
            shapes,
            size_points: self.size_points,
            size_lines: self.size_lines,
            size_shapes: self.size_shapes,
            resolution: self.resolution,
            full_min_lat: self.full_min_lat,
            full_min_lon: self.full_min_lon,
            full_max_lat: self.full_max_lat,
            full_max_lon: self.full_max_lon,
            has_full_bounds: self.has_full_bounds,
        }
    }

    /// Overflow split of an area too small to divide: the shapes, then the
    /// points, then the lines are dealt into areas with the same bounds, a
    /// new area being started whenever the current one refuses a feature
    /// (an area may stay empty when a first feature alone is too large).
    /// No feature is lost, and no area gets more than 255 points or lines.
    pub fn split_overflow(&self) -> (r: Vec<MapArea>)
        ensures
            total_points(r@) == self.points@.len(),
            total_lines(r@) == ne_lines(self.lines@),
            forall|i: int| 0 <= i < r@.len() ==> (#[trigger] r@[i]).bounds == self.bounds
                && r@[i].resolution == self.resolution && r@[i].lines@.len() <= MAX_NUM_LINES
                && r@[i].points@.len() <= MAX_NUM_POINTS,
            points_of(r@) == self.points@.to_multiset(),
            lines_of(r@) == area_lines(*self),
            shape_ids_of(r@) == area_shape_ids(*self),
            big_shape_ids_of(r@) == area_big_shape_ids(*self),
    {
        broadcast use vstd::multiset::group_multiset_axioms;
        broadcast use vstd::seq_lib::group_to_multiset_ensures;
        let mut result: Vec<MapArea> = Vec::new();
        let mut current = MapArea::new(self.bounds, self.resolution);
        let mut i: usize = 0;
        proof {
            lemma_no_shapes(current);
            assert(ids_in(self.shapes@.take(0)) =~= Set::<usize>::empty());
            assert(big_ids_in(self.shapes@.take(0)) =~= Set::<usize>::empty());
            assert(shape_ids_of(result@).union(area_shape_ids(current)) =~= Set::<usize>::empty());
            assert(big_shape_ids_of(result@).union(area_big_shape_ids(current)) =~= Set::<usize>::empty());
        }
        while i < self.shapes.len()
            invariant
                i <= self.shapes@.len(),
                total_points(result@) == 0,
                total_lines(result@) == 0,
                points_of(result@) == vstd::multiset::Multiset::<SplitPoint>::empty(),
                lines_of(result@) == vstd::multiset::Multiset::<(usize, Seq<Coord>)>::empty(),
                current.points@.len() == 0 && current.lines@.len() == 0,
                shape_ids_of(result@).union(area_shape_ids(current)) == ids_in(self.shapes@.take(i as int)),
                big_shape_ids_of(result@).union(area_big_shape_ids(current)) == big_ids_in(self.shapes@.take(i as int)),
                current.bounds == self.bounds && current.resolution == self.resolution,
                forall|k: int| 0 <= k < result@.len() ==> (#[trigger] result@[k]).bounds == self.bounds
                    && result@[k].resolution == self.resolution && result@[k].lines@.len() <= MAX_NUM_LINES
                    && result@[k].points@.len() <= MAX_NUM_POINTS,
            decreases self.shapes@.len() - i,
        {
            let shape = &self.shapes[i];
            if !current.can_add_shape(shape) {
                let ghost r0 = result@;
                let ghost c0 = current;
                let mut done = MapArea::new(self.bounds, self.resolution);
                std::mem::swap(&mut done, &mut current);
                assert(done == c0);
                proof {
                    lemma_totals_push(result@, done);
                    assert(ne_lines(done.lines@) == 0);
                    lemma_no_points_empty(done);
                    lemma_no_lines_empty(done);
                }
                result.push(done);
                assert(points_of(result@) =~= vstd::multiset::Multiset::<SplitPoint>::empty());
                assert(lines_of(result@) =~= vstd::multiset::Multiset::<(usize, Seq<Coord>)>::empty());
                proof {
                    lemma_no_shapes(current);
                    assert(result@.drop_last() =~= result@.drop_last());
                    assert(result@ == r0.push(c0));
                    assert(result@.drop_last() =~= r0);
                    assert(shape_ids_of(result@) == shape_ids_of(r0).union(area_shape_ids(c0)));
                    assert(big_shape_ids_of(result@) == big_shape_ids_of(r0).union(area_big_shape_ids(c0)));
                    assert(shape_ids_of(result@).union(area_shape_ids(current)) =~= ids_in(self.shapes@.take(i as int)));
                    assert(big_shape_ids_of(result@).union(area_big_shape_ids(current)) =~= big_ids_in(self.shapes@.take(i as int)));
                }
            }
            let ghost oc = current;
            current.add_shape(shape.copy());
            proof {
                assert(shapes_view(current.shapes@) =~= shapes_view(oc.shapes@).push((shape.mp_index, shape.points@)));
                lemma_area_shapes_push(oc, current, shape.mp_index, shape.points@);
                assert(self.shapes@.take(i + 1).drop_last() =~= self.shapes@.take(i as int));
                lemma_ids_take(self.shapes@, i as int);
                lemma_big_ids_take(self.shapes@, i as int);
                assert(shape_ids_of(result@).union(area_shape_ids(current)) =~= ids_in(self.shapes@.take(i + 1)));
                assert(big_shape_ids_of(result@).union(area_big_shape_ids(current)) =~= big_ids_in(self.shapes@.take(i + 1)));
            }
            i = i + 1;
        }
        i = 0;
        assert(self.points@.take(0) =~= Seq::<SplitPoint>::empty());
        proof { lemma_no_points_empty(current); }
        assert(points_of(result@).add(current.points@.to_multiset()) =~= self.points@.take(0).to_multiset());
        while i < self.points.len()
            invariant
                i <= self.points@.len(),
                total_points(result@) + current.points@.len() == i,
                total_lines(result@) == 0,
                points_of(result@).add(current.points@.to_multiset()) == self.points@.take(i as int).to_multiset(),
                shape_ids_of(result@).union(area_shape_ids(current)) == ids_in(self.shapes@.take(self.shapes@.len() as int)),
                big_shape_ids_of(result@).union(area_big_shape_ids(current)) == big_ids_in(self.shapes@.take(self.shapes@.len() as int)),
                lines_of(result@) == vstd::multiset::Multiset::<(usize, Seq<Coord>)>::empty(),
                current.lines@.len() == 0,
                current.bounds == self.bounds && current.resolution == self.resolution,
                current.points@.len() <= MAX_NUM_POINTS,
                forall|k: int| 0 <= k < result@.len() ==> (#[trigger] result@[k]).bounds == self.bounds
                    && result@[k].resolution == self.resolution && result@[k].lines@.len() <= MAX_NUM_LINES
                    && result@[k].points@.len() <= MAX_NUM_POINTS,
            decreases self.points@.len() - i,
        {
            if !current.can_add_point() {
                let ghost r0 = result@;
                let ghost c0 = current;
                let mut done = MapArea::new(self.bounds, self.resolution);
                std::mem::swap(&mut done, &mut current);
                assert(done == c0);
                proof {
                    lemma_totals_push(result@, done);
                    assert(ne_lines(done.lines@) == 0);
                    lemma_no_points_empty(current);
                    lemma_no_lines_empty(done);
                }
                result.push(done);
                proof {
                    lemma_no_shapes(current);
                    assert(result@ == r0.push(c0));
                    assert(result@.drop_last() =~= r0);
                    assert(shape_ids_of(result@) == shape_ids_of(r0).union(area_shape_ids(c0)));
                    assert(big_shape_ids_of(result@) == big_shape_ids_of(r0).union(area_big_shape_ids(c0)));
                    assert(shape_ids_of(result@).union(area_shape_ids(current)) =~= ids_in(self.shapes@.take(self.shapes@.len() as int)));
                    assert(big_shape_ids_of(result@).union(area_big_shape_ids(current)) =~= big_ids_in(self.shapes@.take(self.shapes@.len() as int)));
                }
                assert(points_of(result@).add(current.points@.to_multiset()) =~= self.points@.take(i as int).to_multiset());
                assert(lines_of(result@) =~= vstd::multiset::Multiset::<(usize, Seq<Coord>)>::empty());
            }
            let ghost cp = current.points@;
            let ghost oc = current;
            current.add_point(self.points[i]);
            proof {
                lemma_area_shapes_same(oc, current);
                lemma_points_take(self.points@, i as int);
                assert(current.points@ == cp.push(self.points@[i as int]));
                vstd::seq_lib::to_multiset_build(cp, self.points@[i as int]);
                assert(points_of(result@).add(current.points@.to_multiset()) =~= self.points@.take(i + 1).to_multiset());
            }
            i = i + 1;
        }
        i = 0;
        proof { lemma_ne_lines_bound(current.lines@); }
        assert(self.lines@.take(0) =~= Seq::<SplitLine>::empty());
        assert(self.points@.take(self.points@.len() as int) =~= self.points@);
        proof { lemma_no_lines_empty(current); }
        assert(lines_view(self.lines@.take(0)) =~= Seq::empty());
        assert(lines_of(result@).add(area_lines(current)) =~= ne_views(lines_view(self.lines@.take(0))));
        while i < self.lines.len()
            invariant
                i <= self.lines@.len(),
                total_points(result@) + current.points@.len() == self.points@.len(),
                total_lines(result@) + ne_lines(current.lines@) == ne_lines(self.lines@.take(i as int)),
                points_of(result@).add(current.points@.to_multiset()) == self.points@.to_multiset(),
                shape_ids_of(result@).union(area_shape_ids(current)) == ids_in(self.shapes@.take(self.shapes@.len() as int)),
                big_shape_ids_of(result@).union(area_big_shape_ids(current)) == big_ids_in(self.shapes@.take(self.shapes@.len() as int)),
                lines_of(result@).add(area_lines(current)) == ne_views(lines_view(self.lines@.take(i as int))),
                current.bounds == self.bounds && current.resolution == self.resolution,
                current.points@.len() <= MAX_NUM_POINTS,
                current.lines@.len() <= MAX_NUM_LINES,
                forall|k: int| 0 <= k < result@.len() ==> (#[trigger] result@[k]).bounds == self.bounds
                    && result@[k].resolution == self.resolution && result@[k].lines@.len() <= MAX_NUM_LINES
                    && result@[k].points@.len() <= MAX_NUM_POINTS,
            decreases self.lines@.len() - i,
        {
            let line = &self.lines[i];
            if !current.can_add_line(line) {
                let ghost r0 = result@;
                let ghost c0 = current;
                let mut done = MapArea::new(self.bounds, self.resolution);
                std::mem::swap(&mut done, &mut current);
                assert(done == c0);
                proof {
                    lemma_totals_push(result@, done);
                    lemma_no_points_empty(current);
                    lemma_no_lines_empty(current);
                }
                result.push(done);
                proof {
                    lemma_no_shapes(current);
                    assert(result@ == r0.push(c0));
                    assert(result@.drop_last() =~= r0);
                    assert(shape_ids_of(result@) == shape_ids_of(r0).union(area_shape_ids(c0)));
                    assert(big_shape_ids_of(result@) == big_shape_ids_of(r0).union(area_big_shape_ids(c0)));
                    assert(shape_ids_of(result@).union(area_shape_ids(current)) =~= ids_in(self.shapes@.take(self.shapes@.len() as int)));
                    assert(big_shape_ids_of(result@).union(area_big_shape_ids(current)) =~= big_ids_in(self.shapes@.take(self.shapes@.len() as int)));
                }
                assert(ne_lines(current.lines@) == 0);
                assert(points_of(result@).add(current.points@.to_multiset()) =~= self.points@.to_multiset());
                assert(lines_of(result@).add(area_lines(current)) =~= ne_views(lines_view(self.lines@.take(i as int))));
            }
            let l = line.copy();
            proof {
                lemma_ne_lines_push(current.lines@, l);
                assert(self.lines@.take(i + 1).drop_last() =~= self.lines@.take(i as int));
                lemma_ne_views_take(self.lines@, i as int);
            }
            let ghost old_cur = current;
            current.add_line(l);
            proof {
                lemma_area_shapes_same(old_cur, current);
                assert(lines_view(current.lines@) =~= lines_view(old_cur.lines@).push(line_view(*line)));
                lemma_area_lines_push(old_cur, current, *line);
                assert(lines_of(result@).add(area_lines(current)) =~= ne_views(lines_view(self.lines@.take(i + 1))));
            }
            i = i + 1;
        }
        assert(self.lines@.take(self.lines@.len() as int) =~= self.lines@);
        proof {
            assert(self.shapes@.take(self.shapes@.len() as int) =~= self.shapes@);
            assert(ids_in(self.shapes@) =~= area_shape_ids(*self));
            assert(big_ids_in(self.shapes@) =~= area_big_shape_ids(*self));
        }
        if current.has_data() {
            proof {
                lemma_totals_push(result@, current);
                assert(result@.push(current).drop_last() =~= result@);
            }
            result.push(current);
        } else {
            proof {
                lemma_no_shapes(current);
                assert(shape_ids_of(result@) =~= area_shape_ids(*self));
                assert(big_shape_ids_of(result@) =~= area_big_shape_ids(*self));
            }
            assert(current.points@.len() == 0);
            proof {
                lemma_ne_lines_bound(current.lines@);
                lemma_no_points_empty(current);
                lemma_no_lines_empty(current);
            }
            assert(points_of(result@) =~= self.points@.to_multiset());
            assert(lines_of(result@) =~= area_lines(*self));
        }
        result
    }
}


/// The resolution's shift as an `i32`.
fn res_shift_exec(resolution: u8) -> (r: i32)
    ensures
        r == res_shift(resolution),
        0 <= r <= 24,
{
    if resolution >= 24 { 0 } else { 24 - resolution as i32 }
}

/// The largest cell side: the side shared among `n` cells, at most half of
/// `max_size`, and at least twice the large-object dimension.
pub open spec fn spec_max_cell_side(side: i32, n: int, max_size: i32) -> i32 {
    let cell = tdiv(side as int, n);
    let half = tdiv(max_size as int, 2);
    let m = if cell < half { cell } else { half };
    (if m > LARGE_OBJECT_DIM * 2 { m } else { LARGE_OBJECT_DIM * 2 as int }) as i32
}

/// Largest cell side before a line gets an area of its own.
fn max_cell_side(side: i32, n: usize, max_size: i32) -> (r: i32)
    requires
        1 <= n <= i32::MAX,
    ensures
        r == spec_max_cell_side(side, n as int, max_size),
{
    let cell: i32 = side / (n as i32);
    let m: i32 = if cell < max_size / 2 { cell } else { max_size / 2 };
    if m > LARGE_OBJECT_DIM * 2 { m } else { LARGE_OBJECT_DIM * 2 }
}

/// A line as its source index and points.
pub open spec fn line_view(l: SplitLine) -> (usize, Seq<Coord>) {
    (l.mp_index, l.points@)
}

/// A shape as its source index and points.
pub open spec fn shape_view(s: SplitShape) -> (usize, Seq<Coord>) {
    (s.mp_index, s.points@)
}

/// Lines as source indices and points.
pub open spec fn lines_view(ls: Seq<SplitLine>) -> Seq<(usize, Seq<Coord>)> {
    ls.map_values(|l: SplitLine| line_view(l))
}

/// Shapes as source indices and points.
pub open spec fn shapes_view(ss: Seq<SplitShape>) -> Seq<(usize, Seq<Coord>)> {
    ss.map_values(|s: SplitShape| shape_view(s))
}

/// `a` has the bounds, resolution and features of `b`.
pub open spec fn same_features(a: MapArea, b: MapArea) -> bool {
    &&& a.bounds == b.bounds
    &&& a.resolution == b.resolution
    &&& a.points@ == b.points@
    &&& lines_view(a.lines@) == lines_view(b.lines@)
    &&& shapes_view(a.shapes@) == shapes_view(b.shapes@)
}

/// The grid step along one axis: the side divided by the cell count,
/// toward zero, when there are several cells.
pub open spec fn grid_step(side: i32, n: usize) -> i64 {
    if n > 1 { tdiv(side as int, n as int) as i64 } else { side as i64 }
}

/// The cell of position (longitude `x`, latitude `y`) among the `num`
/// cells of the `nx` x `ny` grid over `b`.
pub open spec fn cell_at(b: Area, nx: usize, ny: usize, num: usize, x: i64, y: i64) -> usize {
    spec_pick_area(x, y, b.min_lon as i64, b.min_lat as i64, nx, ny, grid_step(b.spec_width(), nx),
        grid_step(b.spec_height(), ny), num)
}

/// The box of a list of coordinates.
pub open spec fn coords_box(c: Seq<Coord>) -> Area {
    area_of(seq_min_lat(c), seq_min_lon(c), seq_max_lat(c), seq_max_lon(c))
}

/// The midpoint longitude of a box, toward zero.
pub open spec fn box_mid_lon(bb: Area) -> i64 {
    tdiv(bb.min_lon + bb.max_lon, 2) as i64
}

/// The midpoint latitude of a box, toward zero.
pub open spec fn box_mid_lat(bb: Area) -> i64 {
    tdiv(bb.min_lat + bb.max_lat, 2) as i64
}

/// The largest object dimension in map units at a resolution: 0x7FFF units
/// at the resolution, kept between 0x8000 and 0xFF_FFFF.
pub open spec fn split_max_units(resolution: u8) -> i32 {
    let s: u64 = 0x7FFFu64 << (res_shift(resolution) as u64);
    let c: i64 = if (s as i64) < 0xFF_FFFF { s as i64 } else { 0xFF_FFFF };
    (if c > 0x8000 { c } else { 0x8000 }) as i32
}

/// Where a line of an area split into `num` grid cells goes: nowhere
/// without points (-1), to the extra area (`num`) when its box is wider or
/// taller than a cell allows, else to the cell of its box's midpoint.
pub open spec fn line_dest(b: Area, resolution: u8, nx: usize, ny: usize, num: usize, l: SplitLine) -> int {
    if l.points@.len() == 0 {
        -1
    } else {
        let bb = coords_box(l.points@);
        let ms = split_max_units(resolution);
        if bb.spec_width() > spec_max_cell_side(b.spec_width(), nx as int, ms) || bb.spec_height()
            > spec_max_cell_side(b.spec_height(), ny as int, ms) {
            num as int
        } else {
            cell_at(b, nx, ny, num, box_mid_lon(bb), box_mid_lat(bb)) as int
        }
    }
}

/// The points that go to cell `k`, in order.
pub open spec fn points_to(pts: Seq<SplitPoint>, b: Area, nx: usize, ny: usize, num: usize, k: int) -> Seq<SplitPoint>
    decreases pts.len(),
{
    if pts.len() == 0 {
        Seq::empty()
    } else {
        let p = points_to(pts.drop_last(), b, nx, ny, num, k);
        let q = pts.last();
        if cell_at(b, nx, ny, num, q.location.longitude as i64, q.location.latitude as i64) == k { p.push(q) } else { p }
    }
}

/// The lines that go to area `k` (the extra area is `num`), in order.
pub open spec fn lines_to(lines: Seq<SplitLine>, b: Area, resolution: u8, nx: usize, ny: usize, num: usize, k: int) -> Seq<
    (usize, Seq<Coord>),
>
    decreases lines.len(),
{
    if lines.len() == 0 {
        Seq::empty()
    } else {
        let p = lines_to(lines.drop_last(), b, resolution, nx, ny, num, k);
        if line_dest(b, resolution, nx, ny, num, lines.last()) == k { p.push(line_view(lines.last())) } else { p }
    }
}

/// A shape clips to at least three points in cell `j` whose bounds meet its
/// box `bb`.
pub open spec fn clips_at(cells: Seq<Area>, pts: Seq<Coord>, bb: Area, j: int) -> bool {
    cells[j].spec_intersects(bb) && spec_clip_polygon(pts, cells[j]).len() >= 3
}

/// A shape clips to at least three points in one of the first `n` cells.
pub open spec fn clips_somewhere(cells: Seq<Area>, pts: Seq<Coord>, bb: Area, n: int) -> bool {
    exists|j: int| 0 <= j < n && #[trigger] clips_at(cells, pts, bb, j)
}

/// What cell `k` gets of a shape: nothing under three points; the whole
/// shape in the cell of its box's midpoint where that cell holds the box;
/// else its clip to every cell whose bounds meet the box and where it keeps
/// three points or more; and the whole shape in the midpoint's cell where
/// no cell keeps any.
pub open spec fn shape_part(cells: Seq<Area>, b: Area, nx: usize, ny: usize, s: SplitShape, k: int) -> Seq<
    (usize, Seq<Coord>),
> {
    let num = cells.len() as usize;
    if s.points@.len() < 3 {
        Seq::empty()
    } else {
        let bb = coords_box(s.points@);
        let t = cell_at(b, nx, ny, num, box_mid_lon(bb), box_mid_lat(bb)) as int;
        if cells[t].spec_contains_area(bb) || !clips_somewhere(cells, s.points@, bb, num as int) {
            if k == t { seq![shape_view(s)] } else { Seq::empty() }
        } else if clips_at(cells, s.points@, bb, k) {
            seq![(s.mp_index, spec_clip_polygon(s.points@, cells[k]))]
        } else {
            Seq::empty()
        }
    }
}

/// The shapes and shape pieces that go to cell `k`, in order.
pub open spec fn shapes_to(shapes: Seq<SplitShape>, cells: Seq<Area>, b: Area, nx: usize, ny: usize, k: int) -> Seq<
    (usize, Seq<Coord>),
>
    decreases shapes.len(),
{
    if shapes.len() == 0 {
        Seq::empty()
    } else {
        shapes_to(shapes.drop_last(), cells, b, nx, ny, k) + shape_part(cells, b, nx, ny, shapes.last(), k)
    }
}

/// The piece of a shape clipped to cell `m`, where it keeps three points.
pub open spec fn clip_frag(cells: Seq<Area>, s: SplitShape, m: int) -> Seq<(usize, Seq<Coord>)> {
    if clips_at(cells, s.points@, coords_box(s.points@), m) {
        seq![(s.mp_index, spec_clip_polygon(s.points@, cells[m]))]
    } else {
        Seq::empty()
    }
}

/// Cell `k` of the split of `a` holds what the first `np` points, `nl`
/// lines and `ns` shapes send there.
spec fn cell_state(a: MapArea, x: MapArea, cells: Seq<Area>, nx: usize, ny: usize, k: int, np: int, nl: int,
    ns: int) -> bool
{
    let num = cells.len() as usize;
    &&& x.bounds == cells[k]
    &&& x.resolution == a.resolution
    &&& x.points@ == points_to(a.points@.take(np), a.bounds, nx, ny, num, k)
    &&& lines_view(x.lines@) == lines_to(a.lines@.take(nl), a.bounds, a.resolution, nx, ny, num, k)
    &&& shapes_view(x.shapes@) == shapes_to(a.shapes@.take(ns), cells, a.bounds, nx, ny, k)
}

/// The grid cells of an area split `nx` x `ny`, or None where the area is
/// left whole (a zero count, no cells, or a single cell).
pub open spec fn split_cells_of(a: MapArea, nx: usize, ny: usize) -> Option<Seq<Area>> {
    if nx == 0 || ny == 0 {
        None
    } else {
        match a.bounds.spec_split(nx as nat, ny as nat, res_shift(a.resolution) as i32) {
            Some(c) => if c.len() <= 1 { None } else { Some(c) },
            None => None,
        }
    }
}

/// `r` is the split of `a` into `nx` x `ny` cells: `a` alone where it is
/// left whole; else one area per cell with the cell's bounds and the
/// points, lines and shapes that go there, then, where some line is too
/// large for a cell, an area with `a`'s bounds holding those lines.
pub open spec fn split_result(a: MapArea, nx: usize, ny: usize, r: Seq<MapArea>) -> bool {
    match split_cells_of(a, nx, ny) {
        None => r.len() == 1 && same_features(r[0], a),
        Some(cells) => {
            let num = cells.len() as usize;
            let large = lines_to(a.lines@, a.bounds, a.resolution, nx, ny, num, num as int);
            &&& r.len() == num + if large.len() > 0 { 1int } else { 0int }
            &&& forall|k: int| 0 <= k < num ==> {
                &&& (#[trigger] r[k]).bounds == cells[k]
                &&& r[k].resolution == a.resolution
                &&& r[k].points@ == points_to(a.points@, a.bounds, nx, ny, num, k)
                &&& lines_view(r[k].lines@) == lines_to(a.lines@, a.bounds, a.resolution, nx, ny, num, k)
                &&& shapes_view(r[k].shapes@) == shapes_to(a.shapes@, cells, a.bounds, nx, ny, k)
            }
            &&& large.len() > 0 ==> {
                &&& r[num as int].bounds == a.bounds
                &&& r[num as int].resolution == a.resolution
                &&& r[num as int].points@.len() == 0
                &&& lines_view(r[num as int].lines@) == large
                &&& r[num as int].shapes@.len() == 0
            }
        },
    }
}

/// Add a shape to the cells of a split (see `shape_part`): whole to the
/// cell of its box's midpoint when that cell holds the box or no cell keeps
/// three points of it, else clipped into every cell where it does.
fn distribute_shape(
    sub_areas: &mut Vec<MapArea>,
    shape: &SplitShape,
    bounds: &Area,
    nx: usize,
    ny: usize,
    xbase: i64,
    ybase: i64,
    dx: i64,
    dy: i64,
    Ghost(cells): Ghost<Seq<Area>>,
)
    requires
        1 <= nx <= i32::MAX, 1 <= ny <= i32::MAX, nx * ny <= 0x0FFF_FFFF,
        old(sub_areas)@.len() == cells.len(),
        cells.len() >= 2,
        xbase == bounds.min_lon as i64, ybase == bounds.min_lat as i64,
        dx == grid_step(bounds.spec_width(), nx),
        dy == grid_step(bounds.spec_height(), ny),
        forall|m: int| 0 <= m < cells.len() ==> (#[trigger] old(sub_areas)@[m]).bounds == cells[m],
    ensures
        final(sub_areas)@.len() == cells.len(),
        total_points(final(sub_areas)@) == total_points(old(sub_areas)@),
        total_lines(final(sub_areas)@) == total_lines(old(sub_areas)@),
        points_of(final(sub_areas)@) == points_of(old(sub_areas)@),
        lines_of(final(sub_areas)@) == lines_of(old(sub_areas)@),
        forall|m: int| 0 <= m < cells.len() ==> {
            &&& (#[trigger] final(sub_areas)@[m]).bounds == old(sub_areas)@[m].bounds
            &&& final(sub_areas)@[m].resolution == old(sub_areas)@[m].resolution
            &&& final(sub_areas)@[m].points == old(sub_areas)@[m].points
            &&& final(sub_areas)@[m].lines == old(sub_areas)@[m].lines
            &&& shapes_view(final(sub_areas)@[m].shapes@) == shapes_view(old(sub_areas)@[m].shapes@)
                + shape_part(cells, *bounds, nx, ny, *shape, m)
        },
        shape_ids_of(final(sub_areas)@) == shape_ids_of(old(sub_areas)@).union(
            if shape.points@.len() >= 3 { set![shape.mp_index] } else { Set::<usize>::empty() },
        ),
        big_shape_ids_of(final(sub_areas)@) == big_shape_ids_of(old(sub_areas)@).union(
            if shape.points@.len() >= 3 { set![shape.mp_index] } else { Set::<usize>::empty() },
        ),
{
    let num_areas = sub_areas.len();
    let ghost sh = *shape;
    let ghost start_areas = sub_areas@;
    if shape.points.len() >= 3 {
        let bbox = Area::from_coords(shape.points.as_slice());
        let mid_lat: i64 = (bbox.min_lat as i64 + bbox.max_lat as i64) / 2;
        let mid_lon: i64 = (bbox.min_lon as i64 + bbox.max_lon as i64) / 2;
        assert(mid_lat == box_mid_lat(bbox) && mid_lon == box_mid_lon(bbox));
        let target = pick_area(mid_lon, mid_lat, xbase, ybase, nx, ny, dx, dy, num_areas);
        if sub_areas[target].bounds.contains_area(&bbox) {
            let ghost before = sub_areas@;
            sub_areas[target].add_shape(shape.copy());
            proof {
                lemma_totals_update(before, target as int, sub_areas@[target as int]);
                assert(points_of(sub_areas@) =~= points_of(before));
                assert(lines_of(sub_areas@) =~= lines_of(before));
                assert(sub_areas@ =~= before.update(target as int, sub_areas@[target as int]));
                assert(shapes_view(sub_areas@[target as int].shapes@) =~= shapes_view(before[target as int].shapes@).push(
                    shape_view(sh)));
                lemma_area_shapes_push(before[target as int], sub_areas@[target as int], sh.mp_index, sh.points@);
                lemma_shape_ids_update(before, target as int, sub_areas@[target as int]);
                lemma_area_in_ids(before, target as int);
                assert(shape_ids_of(sub_areas@) =~= shape_ids_of(start_areas).union(set![sh.mp_index]));
                assert(big_shape_ids_of(sub_areas@) =~= big_shape_ids_of(start_areas).union(set![sh.mp_index]));
                assert forall|m: int| 0 <= m < num_areas implies shapes_view((#[trigger] sub_areas@[m]).shapes@)
                    == shapes_view(start_areas[m].shapes@) + shape_part(cells, *bounds, nx, ny, sh, m) by {
                    if m == target {
                        assert(shape_part(cells, *bounds, nx, ny, sh, m) =~= seq![shape_view(sh)]);
                    } else {
                        assert(shape_part(cells, *bounds, nx, ny, sh, m) =~= Seq::empty());
                        assert(shapes_view(start_areas[m].shapes@) + Seq::empty() =~= shapes_view(start_areas[m].shapes@));
                    }
                }
            }
        } else {
            let mut clipped_any = false;
            let mut j: usize = 0;
            while j < num_areas
                invariant
                    j <= num_areas,
                    target < num_areas,
                    num_areas == cells.len(),
                    sh == *shape,
                    sh.points@.len() >= 3,
                    bbox == coords_box(sh.points@),
                    sub_areas@.len() == num_areas,
                    total_points(sub_areas@) == total_points(start_areas),
                    total_lines(sub_areas@) == total_lines(start_areas),
                    points_of(sub_areas@) == points_of(start_areas),
                    lines_of(sub_areas@) == lines_of(start_areas),
                    clipped_any == clips_somewhere(cells, sh.points@, bbox, j as int),
                    shape_ids_of(sub_areas@) == shape_ids_of(start_areas).union(
                        if clipped_any { set![sh.mp_index] } else { Set::<usize>::empty() }),
                    big_shape_ids_of(sub_areas@) == big_shape_ids_of(start_areas).union(
                        if clipped_any { set![sh.mp_index] } else { Set::<usize>::empty() }),
                    forall|m: int| 0 <= m < num_areas ==> {
                        &&& (#[trigger] sub_areas@[m]).bounds == start_areas[m].bounds
                        &&& sub_areas@[m].resolution == start_areas[m].resolution
                        &&& sub_areas@[m].points == start_areas[m].points
                        &&& sub_areas@[m].lines == start_areas[m].lines
                        &&& shapes_view(sub_areas@[m].shapes@) == shapes_view(start_areas[m].shapes@)
                            + (if m < j { clip_frag(cells, sh, m) } else { Seq::empty() })
                    },
                    forall|m: int| 0 <= m < num_areas ==> #[trigger] start_areas[m].bounds == cells[m],
                decreases num_areas - j,
            {
                let ghost before = sub_areas@;
                if sub_areas[j].bounds.intersects(&bbox) {
                    let clipped = clip_polygon_to_rect(shape.points.as_slice(), &sub_areas[j].bounds);
                    if clipped.len() >= 3 {
                        let ghost cl = clipped@;
                        let ghost ids0 = shape_ids_of(before);
                        let ghost big0 = big_shape_ids_of(before);
                        sub_areas[j].add_shape(SplitShape { mp_index: shape.mp_index, points: clipped });
                        proof {
                            assert(shapes_view(sub_areas@[j as int].shapes@) =~= shapes_view(before[j as int].shapes@).push(
                                (sh.mp_index, cl)));
                            lemma_area_shapes_push(before[j as int], sub_areas@[j as int], sh.mp_index, cl);
                            lemma_shape_ids_update(before, j as int, sub_areas@[j as int]);
                            lemma_area_in_ids(before, j as int);
                            assert(sub_areas@ =~= before.update(j as int, sub_areas@[j as int]));
                            assert(shape_ids_of(sub_areas@) =~= ids0.union(set![sh.mp_index]));
                            assert(big_shape_ids_of(sub_areas@) =~= big0.union(set![sh.mp_index]));
                            assert(shape_ids_of(sub_areas@) =~= shape_ids_of(start_areas).union(set![sh.mp_index]));
                            assert(big_shape_ids_of(sub_areas@) =~= big_shape_ids_of(start_areas).union(set![sh.mp_index]));
                            lemma_totals_update(before, j as int, sub_areas@[j as int]);
                assert(points_of(sub_areas@) =~= points_of(before));
                assert(lines_of(sub_areas@) =~= lines_of(before));
                            assert(sub_areas@ =~= before.update(j as int, sub_areas@[j as int]));
                            assert(clips_at(cells, sh.points@, bbox, j as int));
                            assert(shapes_view(sub_areas@[j as int].shapes@) =~= shapes_view(before[j as int].shapes@)
                                + clip_frag(cells, sh, j as int));
                        }
                        clipped_any = true;
                    }
                }
                proof {
                    if clips_somewhere(cells, sh.points@, bbox, j + 1) {
                        let w = choose|w: int| 0 <= w < j + 1 && #[trigger] clips_at(cells, sh.points@, bbox, w);
                        if w < j {
                            assert(clips_somewhere(cells, sh.points@, bbox, j as int));
                        }
                    }
                    if clips_somewhere(cells, sh.points@, bbox, j as int) {
                        let w = choose|w: int| 0 <= w < j && #[trigger] clips_at(cells, sh.points@, bbox, w);
                        assert(clips_at(cells, sh.points@, bbox, w));
                    }
                    assert forall|m: int| 0 <= m < num_areas implies shapes_view((#[trigger] sub_areas@[m]).shapes@)
                        == shapes_view(start_areas[m].shapes@) + (if m < j + 1 { clip_frag(cells, sh, m) } else { Seq::empty() }) by {
                        if m == j {
                            if !clips_at(cells, sh.points@, bbox, m) {
                                assert(clip_frag(cells, sh, m) =~= Seq::empty());
                                assert(shapes_view(start_areas[m].shapes@) + Seq::empty() =~= shapes_view(start_areas[m].shapes@));
                            }
                        }
                    }
                }
                j = j + 1;
            }
            let ghost after_clip = sub_areas@;
            if !clipped_any {
                sub_areas[target].add_shape(shape.copy());
                proof {
                    assert(shapes_view(sub_areas@[target as int].shapes@) =~= shapes_view(after_clip[target as int].shapes@).push(
                        (sh.mp_index, sh.points@)));
                    lemma_area_shapes_push(after_clip[target as int], sub_areas@[target as int], sh.mp_index, sh.points@);
                    lemma_shape_ids_update(after_clip, target as int, sub_areas@[target as int]);
                    lemma_area_in_ids(after_clip, target as int);
                    assert(sub_areas@ =~= after_clip.update(target as int, sub_areas@[target as int]));
                    assert(shape_ids_of(sub_areas@) =~= shape_ids_of(start_areas).union(set![sh.mp_index]));
                    assert(big_shape_ids_of(sub_areas@) =~= big_shape_ids_of(start_areas).union(set![sh.mp_index]));
                    lemma_totals_update(after_clip, target as int, sub_areas@[target as int]);
                assert(points_of(sub_areas@) =~= points_of(after_clip));
                assert(lines_of(sub_areas@) =~= lines_of(after_clip));
                    assert(sub_areas@ =~= after_clip.update(target as int, sub_areas@[target as int]));
                    assert(shapes_view(sub_areas@[target as int].shapes@) =~= shapes_view(after_clip[target as int].shapes@).push(
                        shape_view(sh)));
                }
            }
            proof {
                assert forall|m: int| 0 <= m < num_areas implies shapes_view((#[trigger] sub_areas@[m]).shapes@)
                    == shapes_view(start_areas[m].shapes@) + shape_part(cells, *bounds, nx, ny, sh, m) by {
                    if clipped_any {
                        assert(shape_part(cells, *bounds, nx, ny, sh, m) == clip_frag(cells, sh, m));
                    } else {
                        if clips_at(cells, sh.points@, bbox, m) {
                            assert(clips_somewhere(cells, sh.points@, bbox, num_areas as int));
                        }
                        assert(clip_frag(cells, sh, m) =~= Seq::empty());
                        assert(shapes_view(start_areas[m].shapes@) + Seq::empty() =~= shapes_view(start_areas[m].shapes@));
                        if m == target {
                            assert(shape_part(cells, *bounds, nx, ny, sh, m) =~= seq![shape_view(sh)]);
                        } else {
                            assert(shape_part(cells, *bounds, nx, ny, sh, m) =~= Seq::empty());
                        }
                    }
                }
            }
        }
    } else {
        proof {
            assert(shape_ids_of(sub_areas@) =~= shape_ids_of(start_areas).union(Set::<usize>::empty()));
            assert(big_shape_ids_of(sub_areas@) =~= big_shape_ids_of(start_areas).union(Set::<usize>::empty()));
            assert forall|m: int| 0 <= m < num_areas implies shapes_view((#[trigger] sub_areas@[m]).shapes@)
                == shapes_view(start_areas[m].shapes@) + shape_part(cells, *bounds, nx, ny, sh, m) by {
                assert(shape_part(cells, *bounds, nx, ny, sh, m) =~= Seq::empty());
                assert(shapes_view(start_areas[m].shapes@) + Seq::empty() =~= shapes_view(start_areas[m].shapes@));
            }
        }
    }
}

impl MapArea {
    /// Split into the cells of an `nx` x `ny` grid (inner edges rounded to
    /// the resolution): each point goes to the cell of its position, each
    /// line with points whole to the cell of its bounding-box midpoint (or,
    /// when larger than a cell allows, to one extra area covering the
    /// whole), and each shape of three points or more to its cell when it
    /// fits there, else clipped into every cell it crosses. Returns the area
    /// itself when the grid has fewer than two cells. Points, and lines with
    /// points, are neither lost nor duplicated.
    #[verifier::rlimit(60)]
    #[verifier::spinoff_prover]
    pub fn split(&self, nx: usize, ny: usize) -> (r: Vec<MapArea>)
        requires
            nx <= i32::MAX,
            ny <= i32::MAX,
            nx * ny <= 0x0FFF_FFFF,
        ensures
            r@.len() >= 1,
            total_points(r@) == self.points@.len(),
            total_lines(r@) == ne_lines(self.lines@),
            forall|i: int| 0 <= i < r@.len() ==> (#[trigger] r@[i]).resolution == self.resolution,
            r@.len() == 1 ==> r@[0].spec_has_data() == self.spec_has_data(),
            split_result(*self, nx, ny, r@),
            points_of(r@) == self.points@.to_multiset(),
            lines_of(r@) == area_lines(*self),
            shape_ids_of(r@).subset_of(area_shape_ids(*self)),
            area_big_shape_ids(*self).subset_of(shape_ids_of(r@)),
            split_cells_of(*self, nx, ny) is Some ==> big_shape_ids_of(r@) == shape_ids_of(r@),
            area_big_shape_ids(*self).subset_of(big_shape_ids_of(r@)),
    {
        broadcast use vstd::multiset::group_multiset_axioms;
        broadcast use vstd::seq_lib::group_to_multiset_ensures;
        let shift = res_shift_exec(self.resolution);
        if nx == 0 || ny == 0 {
            return self.single();
        }
        let sub_bounds = match self.bounds.split(nx, ny, shift) {
            Some(a) => a,
            None => return self.single(),
        };
        if sub_bounds.len() <= 1 {
            return self.single();
        }
        let ghost cells = sub_bounds@;
        assert(split_cells_of(*self, nx, ny) == Some(cells));
        let num_areas = sub_bounds.len();
        let ghost lines_all = self.lines@;
        let mut sub_areas: Vec<MapArea> = Vec::new();
        let mut k: usize = 0;
        while k < num_areas
            invariant
                num_areas == sub_bounds@.len(),
                cells == sub_bounds@,
                k <= num_areas,
                sub_areas@.len() == k,
                total_points(sub_areas@) == 0,
                total_lines(sub_areas@) == 0,
                points_of(sub_areas@) == vstd::multiset::Multiset::<SplitPoint>::empty(),
                lines_of(sub_areas@) == vstd::multiset::Multiset::<(usize, Seq<Coord>)>::empty(),
                forall|i: int| 0 <= i < sub_areas@.len() ==> (#[trigger] sub_areas@[i]).resolution == self.resolution,
                forall|m: int| 0 <= m < k ==> cell_state(*self, #[trigger] sub_areas@[m], cells, nx, ny, m, 0, 0, 0),
            decreases num_areas - k,
        {
            let a = MapArea::new(sub_bounds[k], self.resolution);
            proof {
                lemma_totals_push(sub_areas@, a);
                assert(ne_lines(a.lines@) == 0);
                assert(self.points@.take(0) =~= Seq::<SplitPoint>::empty());
                assert(self.lines@.take(0) =~= Seq::<SplitLine>::empty());
                assert(self.shapes@.take(0) =~= Seq::<SplitShape>::empty());
                assert(lines_view(a.lines@) =~= Seq::empty());
                assert(shapes_view(a.shapes@) =~= Seq::empty());
                assert(a.points@ =~= points_to(self.points@.take(0), self.bounds, nx, ny, cells.len() as usize, k as int));
                assert(lines_view(a.lines@) =~= lines_to(self.lines@.take(0), self.bounds, self.resolution, nx, ny,
                    cells.len() as usize, k as int));
                assert(shapes_view(a.shapes@) =~= shapes_to(self.shapes@.take(0), cells, self.bounds, nx, ny, k as int));
                assert(cell_state(*self, a, cells, nx, ny, k as int, 0, 0, 0));
            }
            let ghost before = sub_areas@;
            sub_areas.push(a);
            proof {
                lemma_no_points_empty(a);
                assert(points_of(sub_areas@) =~= vstd::multiset::Multiset::<SplitPoint>::empty());
                assert(area_lines(a) =~= vstd::multiset::Multiset::<(usize, Seq<Coord>)>::empty());
                assert(lines_of(sub_areas@) =~= vstd::multiset::Multiset::<(usize, Seq<Coord>)>::empty());
                assert forall|m: int| 0 <= m < k + 1 implies cell_state(*self, #[trigger] sub_areas@[m], cells, nx, ny, m, 0, 0, 0) by {
                    if m < k {
                        assert(sub_areas@[m] == before[m]);
                    }
                }
            }
            k = k + 1;
        }
        let xbase: i64 = self.bounds.min_lon as i64;
        let ybase: i64 = self.bounds.min_lat as i64;
        let dx: i64 = if nx > 1 { self.bounds.width() as i64 / nx as i64 } else { self.bounds.width() as i64 };
        let dy: i64 = if ny > 1 { self.bounds.height() as i64 / ny as i64 } else { self.bounds.height() as i64 };
        assert(dx == grid_step(self.bounds.spec_width(), nx));
        assert(dy == grid_step(self.bounds.spec_height(), ny));
        let mut i: usize = 0;
        assert(self.points@.take(0) =~= Seq::<SplitPoint>::empty());
        while i < self.points.len()
            invariant
                i <= self.points@.len(),
                1 <= nx <= i32::MAX, 1 <= ny <= i32::MAX, nx * ny <= 0x0FFF_FFFF,
                num_areas >= 2,
                num_areas == cells.len(),
                sub_areas@.len() == num_areas,
                xbase == self.bounds.min_lon as i64, ybase == self.bounds.min_lat as i64,
                dx == grid_step(self.bounds.spec_width(), nx),
                dy == grid_step(self.bounds.spec_height(), ny),
                total_points(sub_areas@) == i,
                total_lines(sub_areas@) == 0,
                points_of(sub_areas@) == self.points@.take(i as int).to_multiset(),
                lines_of(sub_areas@) == vstd::multiset::Multiset::<(usize, Seq<Coord>)>::empty(),
                forall|i: int| 0 <= i < sub_areas@.len() ==> (#[trigger] sub_areas@[i]).resolution == self.resolution,
                forall|m: int| 0 <= m < num_areas ==> cell_state(*self, #[trigger] sub_areas@[m], cells, nx, ny, m, i as int, 0, 0),
            decreases self.points@.len() - i,
        {
            let pt = self.points[i];
            let idx = pick_area(pt.location.longitude as i64, pt.location.latitude as i64, xbase, ybase, nx, ny, dx, dy, num_areas);
            let ghost before = sub_areas@;
            sub_areas[idx].add_point(pt);
            proof {
                lemma_totals_update(before, idx as int, sub_areas@[idx as int]);
                assert(sub_areas@ =~= before.update(idx as int, sub_areas@[idx as int]));
                assert(self.points@.take(i + 1).drop_last() =~= self.points@.take(i as int));
                lemma_points_take(self.points@, i as int);
                assert(sub_areas@[idx as int].points@.to_multiset() =~= before[idx as int].points@.to_multiset().insert(pt)) by {
                    broadcast use vstd::seq_lib::group_to_multiset_ensures;
                }
                assert(points_of(sub_areas@) =~= self.points@.take(i + 1).to_multiset());
                assert(area_lines(sub_areas@[idx as int]) == area_lines(before[idx as int]));
                assert(lines_of(sub_areas@) =~= lines_of(before));
                assert forall|m: int| 0 <= m < num_areas implies cell_state(*self, #[trigger] sub_areas@[m], cells, nx, ny, m, i + 1, 0, 0) by {
                    assert(cell_state(*self, before[m], cells, nx, ny, m, i as int, 0, 0));
                }
            }
            i = i + 1;
        }
        let s64: u64 = 0x7FFFu64 << (shift as u64);
        assert(0x7FFFu64 << (shift as u64) <= 0x7FFF_0000_0000u64) by (bit_vector) requires 0 <= shift <= 24;
        let shifted: i64 = s64 as i64;
        let capped: i64 = if shifted < 0xFF_FFFF { shifted } else { 0xFF_FFFF };
        let max_size: i32 = (if capped > 0x8000 { capped } else { 0x8000 }) as i32;
        assert(max_size == split_max_units(self.resolution));
        let max_cell_w = max_cell_side(self.bounds.width(), nx, max_size);
        let max_cell_h = max_cell_side(self.bounds.height(), ny, max_size);
        let mut large = MapArea::new(self.bounds, self.resolution);
        i = 0;
        assert(lines_view(self.lines@.take(0)) =~= Seq::empty());
        assert(area_lines(large) =~= vstd::multiset::Multiset::<(usize, Seq<Coord>)>::empty());
        assert(lines_of(sub_areas@).add(area_lines(large)) =~= ne_views(lines_view(self.lines@.take(0))));
        assert(self.lines@.take(0) =~= Seq::<SplitLine>::empty());
        assert(lines_view(large.lines@) =~= Seq::empty());
        assert(self.points@.take(self.points@.len() as int) =~= self.points@);
        while i < self.lines.len()
            invariant
                i <= self.lines@.len(),
                1 <= nx <= i32::MAX, 1 <= ny <= i32::MAX, nx * ny <= 0x0FFF_FFFF,
                num_areas >= 2,
                num_areas == cells.len(),
                sub_areas@.len() == num_areas,
                xbase == self.bounds.min_lon as i64, ybase == self.bounds.min_lat as i64,
                dx == grid_step(self.bounds.spec_width(), nx),
                dy == grid_step(self.bounds.spec_height(), ny),
                max_cell_w == spec_max_cell_side(self.bounds.spec_width(), nx as int, split_max_units(self.resolution)),
                max_cell_h == spec_max_cell_side(self.bounds.spec_height(), ny as int, split_max_units(self.resolution)),
                total_points(sub_areas@) == self.points@.len(),
                large.points@.len() == 0,
                large.shapes@.len() == 0,
                large.bounds == self.bounds,
                large.resolution == self.resolution,
                lines_view(large.lines@) == lines_to(self.lines@.take(i as int), self.bounds, self.resolution, nx, ny,
                    num_areas, num_areas as int),
                total_lines(sub_areas@) + ne_lines(large.lines@) == ne_lines(self.lines@.take(i as int)),
                points_of(sub_areas@) == self.points@.to_multiset(),
                lines_of(sub_areas@).add(area_lines(large)) == ne_views(lines_view(self.lines@.take(i as int))),
                forall|i: int| 0 <= i < sub_areas@.len() ==> (#[trigger] sub_areas@[i]).resolution == self.resolution,
                forall|m: int| 0 <= m < num_areas ==> cell_state(*self, #[trigger] sub_areas@[m], cells, nx, ny, m,
                    self.points@.len() as int, i as int, 0),
            decreases self.lines@.len() - i,
        {
            let line = &self.lines[i];
            proof {
                assert(self.lines@.take(i + 1).drop_last() =~= self.lines@.take(i as int));
                lemma_ne_views_take(self.lines@, i as int);
            }
            if line.points.len() > 0 {
                let bbox = Area::from_coords(line.points.as_slice());
                let l = line.copy();
                if bbox.width() > max_cell_w || bbox.height() > max_cell_h {
                    proof { lemma_ne_lines_push(large.lines@, l); }
                    let ghost lv = large.lines@;
                    let ghost old_large = large;
                    large.add_line(l);
                    proof {
                        assert(lines_view(large.lines@) =~= lines_view(lv).push(line_view(*line)));
                        lemma_area_lines_push(old_large, large, *line);
                        assert(lines_of(sub_areas@).add(area_lines(large)) =~= ne_views(lines_view(self.lines@.take(i + 1))));
                        assert forall|m: int| 0 <= m < num_areas implies cell_state(*self, #[trigger] sub_areas@[m], cells, nx,
                            ny, m, self.points@.len() as int, i + 1, 0) by {
                            assert(cell_state(*self, sub_areas@[m], cells, nx, ny, m, self.points@.len() as int, i as int, 0));
                        }
                    }
                } else {
                    let mid_lat: i64 = (bbox.min_lat as i64 + bbox.max_lat as i64) / 2;
                    let mid_lon: i64 = (bbox.min_lon as i64 + bbox.max_lon as i64) / 2;
                    assert(mid_lat == box_mid_lat(bbox) && mid_lon == box_mid_lon(bbox));
                    let target = pick_area(mid_lon, mid_lat, xbase, ybase, nx, ny, dx, dy, num_areas);
                    let ghost before = sub_areas@;
                    proof { lemma_ne_lines_push(sub_areas@[target as int].lines@, l); }
                    sub_areas[target].add_line(l);
                    proof {
                        lemma_totals_update(before, target as int, sub_areas@[target as int]);
                        assert(sub_areas@ =~= before.update(target as int, sub_areas@[target as int]));
                        assert(lines_view(sub_areas@[target as int].lines@) =~= lines_view(before[target as int].lines@).push(
                            line_view(*line)));
                        lemma_area_lines_push(before[target as int], sub_areas@[target as int], *line);
                        assert(points_of(sub_areas@) =~= points_of(before));
                        assert(lines_of(sub_areas@).add(area_lines(large)) =~= ne_views(lines_view(self.lines@.take(i + 1))));
                        assert forall|m: int| 0 <= m < num_areas implies cell_state(*self, #[trigger] sub_areas@[m], cells, nx,
                            ny, m, self.points@.len() as int, i + 1, 0) by {
                            assert(cell_state(*self, before[m], cells, nx, ny, m, self.points@.len() as int, i as int, 0));
                        }
                    }
                }
            } else {
                proof {
                    assert forall|m: int| 0 <= m < num_areas implies cell_state(*self, #[trigger] sub_areas@[m], cells, nx,
                        ny, m, self.points@.len() as int, i + 1, 0) by {
                        assert(cell_state(*self, sub_areas@[m], cells, nx, ny, m, self.points@.len() as int, i as int, 0));
                    }
                }
            }
            i = i + 1;
        }
        assert(self.lines@.take(self.lines@.len() as int) =~= self.lines@);
        i = 0;
        assert(self.shapes@.take(0) =~= Seq::<SplitShape>::empty());
        proof {
            assert forall|m: int| 0 <= m < sub_areas@.len() implies (#[trigger] sub_areas@[m]).shapes@.len() == 0 by {
                assert(cell_state(*self, sub_areas@[m], cells, nx, ny, m, self.points@.len() as int,
                    self.lines@.len() as int, 0));
                assert(shapes_view(sub_areas@[m].shapes@).len() == sub_areas@[m].shapes@.len());
            }
            lemma_no_shapes_all(sub_areas@);
            assert(big_ids_in(self.shapes@.take(0)) =~= Set::<usize>::empty());
        }
        while i < self.shapes.len()
            invariant
                i <= self.shapes@.len(),
                1 <= nx <= i32::MAX, 1 <= ny <= i32::MAX, nx * ny <= 0x0FFF_FFFF,
                num_areas >= 2,
                num_areas == cells.len(),
                sub_areas@.len() == num_areas,
                xbase == self.bounds.min_lon as i64, ybase == self.bounds.min_lat as i64,
                dx == grid_step(self.bounds.spec_width(), nx),
                dy == grid_step(self.bounds.spec_height(), ny),
                total_points(sub_areas@) == self.points@.len(),
                total_lines(sub_areas@) + ne_lines(large.lines@) == ne_lines(self.lines@),
                points_of(sub_areas@) == self.points@.to_multiset(),
                lines_of(sub_areas@).add(area_lines(large)) == area_lines(*self),
                shape_ids_of(sub_areas@) == big_ids_in(self.shapes@.take(i as int)),
                big_shape_ids_of(sub_areas@) == big_ids_in(self.shapes@.take(i as int)),
                forall|i: int| 0 <= i < sub_areas@.len() ==> (#[trigger] sub_areas@[i]).resolution == self.resolution,
                forall|m: int| 0 <= m < num_areas ==> cell_state(*self, #[trigger] sub_areas@[m], cells, nx, ny, m,
                    self.points@.len() as int, self.lines@.len() as int, i as int),
            decreases self.shapes@.len() - i,
        {
            let shape = &self.shapes[i];
            let ghost before = sub_areas@;
            proof {
                assert(self.shapes@.take(i + 1).drop_last() =~= self.shapes@.take(i as int));
                lemma_big_ids_take(self.shapes@, i as int);
            }
            distribute_shape(&mut sub_areas, shape, &self.bounds, nx, ny, xbase, ybase, dx, dy, Ghost(cells));
            proof {
                assert forall|m: int| 0 <= m < num_areas implies cell_state(*self, #[trigger] sub_areas@[m], cells, nx, ny, m,
                    self.points@.len() as int, self.lines@.len() as int, i + 1) by {
                    assert(cell_state(*self, before[m], cells, nx, ny, m, self.points@.len() as int,
                        self.lines@.len() as int, i as int));
                }
            }
            i = i + 1;
        }
        assert(self.shapes@.take(self.shapes@.len() as int) =~= self.shapes@);
        assert(big_ids_in(self.shapes@) =~= area_big_shape_ids(*self));
        assert(area_big_shape_ids(*self).subset_of(area_shape_ids(*self)));
        let ghost final_cells = sub_areas@;
        proof { lemma_no_shapes(large); }
        if large.has_data() {
            proof {
                assert(sub_areas@.push(large).drop_last() =~= sub_areas@);
                assert(shape_ids_of(sub_areas@.push(large)) =~= shape_ids_of(sub_areas@));
                assert(big_shape_ids_of(sub_areas@.push(large)) =~= big_shape_ids_of(sub_areas@));
                lemma_totals_push(sub_areas@, large);
                lemma_no_points_empty(large);
                assert(points_of(sub_areas@.push(large)) =~= self.points@.to_multiset());
            }
            sub_areas.push(large);
        } else {
            proof {
                lemma_ne_lines_bound(large.lines@);
                assert(area_lines(large) =~= vstd::multiset::Multiset::<(usize, Seq<Coord>)>::empty());
                assert(lines_of(sub_areas@) =~= area_lines(*self));
            }
        }
        proof {
            assert forall|m: int| 0 <= m < num_areas implies cell_state(*self, #[trigger] sub_areas@[m], cells, nx, ny, m,
                self.points@.len() as int, self.lines@.len() as int, self.shapes@.len() as int) by {
                assert(sub_areas@[m] == final_cells[m]);
            }
        }
        sub_areas
    }

    /// The area alone, as a one-element list.
    fn single(&self) -> (r: Vec<MapArea>)
        ensures
            r@.len() == 1,
            total_points(r@) == self.points@.len(),
            total_lines(r@) == ne_lines(self.lines@),
            r@[0].resolution == self.resolution,
            r@[0].spec_has_data() == self.spec_has_data(),
            same_features(r@[0], *self),
            points_of(r@) == self.points@.to_multiset(),
            lines_of(r@) == area_lines(*self),
            shape_ids_of(r@) == area_shape_ids(*self),
            big_shape_ids_of(r@) == area_big_shape_ids(*self),
    {
        broadcast use vstd::multiset::group_multiset_axioms;
        let c = self.copy();
        assert(lines_view(c.lines@) =~= lines_view(self.lines@));
        assert(shapes_view(c.shapes@) =~= shapes_view(self.shapes@));
        let mut v: Vec<MapArea> = Vec::new();
        proof { lemma_totals_push(v@, c); }
        v.push(c);
        assert(points_of(v@) =~= self.points@.to_multiset());
        assert(lines_of(v@) =~= area_lines(*self));
        proof {
            lemma_area_shapes_same(*self, c);
            assert(v@.drop_last() =~= Seq::<MapArea>::empty());
            assert(v@.last() == c);
            assert(shape_ids_of(v@) == shape_ids_of(Seq::<MapArea>::empty()).union(area_shape_ids(c)));
            assert(big_shape_ids_of(v@) == big_shape_ids_of(Seq::<MapArea>::empty()).union(area_big_shape_ids(c)));
            assert(shape_ids_of(v@) =~= area_shape_ids(*self));
            assert(big_shape_ids_of(v@) =~= area_big_shape_ids(*self));
        }
        v
    }
}

/// The grid that `split_max_size` uses: cells of at most 0x7FFF units at
/// the resolution (the side scaled down by `shift` bits).
pub open spec fn max_size_grid(side: i32, shift: i32) -> int {
    let eff: i32 = if shift > 0 { side >> shift } else { side };
    let n = crate::img::area::tdiv(eff as int, MAX_DIVISION_SIZE as int) + 1;
    if n < 1 { 1 } else { n }
}

fn max_size_grid_exec(side: i32, shift: i32) -> (r: usize)
    requires
        shift < 32,
    ensures
        r == max_size_grid(side, shift),
{
    let eff: i32 = if shift > 0 { side >> shift } else { side };
    let n: i32 = eff / MAX_DIVISION_SIZE + 1;
    if n < 1 { 1 } else { n as usize }
}

/// Split an area into a grid of cells of at most 0x7FFF units at the
/// resolution; a single cell leaves the area as it is.
pub fn split_max_size(area: &MapArea, shift: i32) -> (r: Vec<MapArea>)
    requires
        shift < 32,
        max_size_grid(area.bounds.spec_width(), shift) * max_size_grid(area.bounds.spec_height(), shift) <= 0x0FFF_FFFF,
    ensures
        r@.len() >= 1,
        total_points(r@) == area.points@.len(),
        total_lines(r@) == ne_lines(area.lines@),
        forall|i: int| 0 <= i < r@.len() ==> (#[trigger] r@[i]).resolution == area.resolution,
        points_of(r@) == area.points@.to_multiset(),
        lines_of(r@) == area_lines(*area),
        shape_ids_of(r@).subset_of(area_shape_ids(*area)),
        area_big_shape_ids(*area).subset_of(big_shape_ids_of(r@)),
        max_size_grid(area.bounds.spec_width(), shift) <= 1 && max_size_grid(area.bounds.spec_height(), shift) <= 1 ==> r@.len()
            == 1 && same_features(r@[0], *area),
        !(max_size_grid(area.bounds.spec_width(), shift) <= 1 && max_size_grid(area.bounds.spec_height(), shift) <= 1)
            ==> split_result(*area, max_size_grid(area.bounds.spec_width(), shift) as usize, max_size_grid(
            area.bounds.spec_height(),
            shift,
        ) as usize, r@),
{
    let xsplit = max_size_grid_exec(area.bounds.width(), shift);
    let ysplit = max_size_grid_exec(area.bounds.height(), shift);
    if xsplit <= 1 && ysplit <= 1 {
        return area.single();
    }
    assert(xsplit <= xsplit * ysplit && ysplit <= xsplit * ysplit) by (nonlinear_arith)
        requires xsplit >= 1, ysplit >= 1;
    area.split(xsplit, ysplit)
}

/// Split an area until it fits: an area within the limits (or at depth 0)
/// is kept; one too small to divide gets an overflow split when it breaks a
/// hard limit; otherwise it is halved across its wider side and each half
/// holding data is split in turn. Appends areas that all hold data.
fn add_area_recursive(area: MapArea, depth: usize, result: &mut Vec<MapArea>)
    requires
        area.spec_has_data(),
    ensures
        final(result)@.len() >= old(result)@.len(),
        final(result)@.take(old(result)@.len() as int) == old(result)@,
        all_have_data(final(result)@.skip(old(result)@.len() as int)),
        total_points(final(result)@.skip(old(result)@.len() as int)) == area.points@.len(),
        total_lines(final(result)@.skip(old(result)@.len() as int)) == ne_lines(area.lines@),
        points_of(final(result)@.skip(old(result)@.len() as int)) == area.points@.to_multiset(),
        lines_of(final(result)@.skip(old(result)@.len() as int)) == area_lines(area),
        shape_ids_of(final(result)@.skip(old(result)@.len() as int)).subset_of(area_shape_ids(area)),
        area_big_shape_ids(area).subset_of(shape_ids_of(final(result)@.skip(old(result)@.len() as int))),
    decreases depth,
{
    broadcast use vstd::multiset::group_multiset_axioms;
    let ghost start = result@;
    let need_split = area.must_split() || area.want_split();
    if !need_split || depth == 0 {
        proof { lemma_totals_push(Seq::<MapArea>::empty(), area); }
        result.push(area);
        assert(result@.skip(start.len() as int) =~= seq![area]);
        assert(Seq::<MapArea>::empty().push(area) =~= seq![area]);
        assert(points_of(seq![area]) =~= area.points@.to_multiset());
        assert(lines_of(seq![area]) =~= area_lines(area));
        assert(seq![area].drop_last() =~= Seq::<MapArea>::empty());
        assert(seq![area].last() == area);
        assert(shape_ids_of(seq![area]) == shape_ids_of(Seq::<MapArea>::empty()).union(area_shape_ids(area)));
        assert(shape_ids_of(seq![area]) =~= area_shape_ids(area));
        assert(area_big_shape_ids(area).subset_of(area_shape_ids(area)));
        assert(result@.take(start.len() as int) =~= start);
        return;
    }
    if area.bounds.max_dimension() <= min_dim_scaled_exec(area.resolution) {
        if area.must_split() {
            let subs = area.split_overflow();
            let mut k: usize = 0;
            assert(result@.skip(start.len() as int) =~= Seq::<MapArea>::empty());
            assert(subs@.take(0) =~= Seq::<MapArea>::empty());
            assert(shape_ids_of(result@.skip(start.len() as int)) =~= shape_ids_of(subs@.take(0)));
            assert(big_shape_ids_of(result@.skip(start.len() as int)) =~= big_shape_ids_of(subs@.take(0)));
            while k < subs.len()
                invariant
                    k <= subs@.len(),
                    result@.len() >= start.len(),
                    result@.take(start.len() as int) == start,
                    all_have_data(result@.skip(start.len() as int)),
                    total_points(result@.skip(start.len() as int)) == total_points(subs@.take(k as int)),
                    total_lines(result@.skip(start.len() as int)) == total_lines(subs@.take(k as int)),
                    points_of(result@.skip(start.len() as int)) == points_of(subs@.take(k as int)),
                    lines_of(result@.skip(start.len() as int)) == lines_of(subs@.take(k as int)),
                    shape_ids_of(result@.skip(start.len() as int)) == shape_ids_of(subs@.take(k as int)),
                    big_shape_ids_of(result@.skip(start.len() as int)) == big_shape_ids_of(subs@.take(k as int)),
                decreases subs@.len() - k,
            {
                let ghost before = result@;
                proof {
                    assert(subs@.take(k + 1).drop_last() =~= subs@.take(k as int));
                }
                if subs[k].has_data() {
                    let sub = subs[k].copy();
                    result.push(sub);
                    proof {
                        assert(result@.skip(start.len() as int) =~= before.skip(start.len() as int).push(sub));
                        lemma_totals_push(before.skip(start.len() as int), sub);
                        assert(result@.take(start.len() as int) =~= before.take(start.len() as int));
                        lemma_totals_push(subs@.take(k as int), subs@[k as int]);
                        assert(subs@.take(k as int).push(subs@[k as int]) =~= subs@.take(k + 1));
                        assert(area_lines(sub) == area_lines(subs@[k as int]));
                        assert(shapes_view(sub.shapes@) =~= shapes_view(subs@[k as int].shapes@));
                        lemma_area_shapes_same(subs@[k as int], sub);
                        assert(before.skip(start.len() as int).push(sub).drop_last() =~= before.skip(start.len() as int));
                        assert(subs@.take(k + 1).drop_last() =~= subs@.take(k as int));
                        assert(shape_ids_of(result@.skip(start.len() as int)) =~= shape_ids_of(subs@.take(k + 1)));
                        assert(big_shape_ids_of(result@.skip(start.len() as int)) =~= big_shape_ids_of(subs@.take(k + 1)));
                    }
                } else {
                    proof {
                        lemma_ne_lines_bound(subs@[k as int].lines@);
                        lemma_totals_push(subs@.take(k as int), subs@[k as int]);
                        assert(subs@.take(k as int).push(subs@[k as int]) =~= subs@.take(k + 1));
                        lemma_no_points_empty(subs@[k as int]);
                        lemma_no_lines_empty(subs@[k as int]);
                        assert(points_of(subs@.take(k + 1)) =~= points_of(subs@.take(k as int)));
                        assert(lines_of(subs@.take(k + 1)) =~= lines_of(subs@.take(k as int)));
                        lemma_no_shapes(subs@[k as int]);
                        assert(subs@.take(k + 1).drop_last() =~= subs@.take(k as int));
                        assert(shape_ids_of(subs@.take(k + 1)) =~= shape_ids_of(subs@.take(k as int)));
                        assert(big_shape_ids_of(subs@.take(k + 1)) =~= big_shape_ids_of(subs@.take(k as int)));
                    }
                }
                k = k + 1;
            }
            assert(subs@.take(subs@.len() as int) =~= subs@);
            assert(area_big_shape_ids(area).subset_of(area_shape_ids(area)));
        } else {
            proof { lemma_totals_push(Seq::<MapArea>::empty(), area); }
            result.push(area);
            assert(result@.skip(start.len() as int) =~= seq![area]);
            assert(Seq::<MapArea>::empty().push(area) =~= seq![area]);
            assert(points_of(seq![area]) =~= area.points@.to_multiset());
            assert(lines_of(seq![area]) =~= area_lines(area));
            assert(seq![area].drop_last() =~= Seq::<MapArea>::empty());
            assert(seq![area].last() == area);
            assert(shape_ids_of(seq![area]) == shape_ids_of(Seq::<MapArea>::empty()).union(area_shape_ids(area)));
            assert(shape_ids_of(seq![area]) =~= area_shape_ids(area));
            assert(area_big_shape_ids(area).subset_of(area_shape_ids(area)));
            assert(result@.take(start.len() as int) =~= start);
        }
        return;
    }
    let (nx, ny): (usize, usize) = if area.bounds.width() > area.bounds.height() { (2, 1) } else { (1, 2) };
    let mut sub_areas = area.split(nx, ny);
    if sub_areas.len() <= 1 {
        let ghost r0 = sub_areas@;
        let mut only = MapArea::new(area.bounds, area.resolution);
        std::mem::swap(&mut only, &mut sub_areas[0]);
        proof {
            assert(only == r0[0]);
            assert(r0 =~= Seq::<MapArea>::empty().push(only));
            lemma_totals_push(Seq::<MapArea>::empty(), only);
            assert(Seq::<MapArea>::empty().push(only) =~= seq![only]);
            assert(points_of(seq![only]) =~= only.points@.to_multiset());
            assert(lines_of(seq![only]) =~= area_lines(only));
            assert(seq![only].drop_last() =~= Seq::<MapArea>::empty());
            assert(shape_ids_of(seq![only]) =~= shape_ids_of(r0));
        }
        result.push(only);
        assert(result@.skip(start.len() as int) =~= seq![only]);
        assert(result@.take(start.len() as int) =~= start);
        return;
    }
    let ghost subs = sub_areas@;
    let mut k: usize = 0;
    assert(result@.skip(start.len() as int) =~= Seq::<MapArea>::empty());
    assert(subs.take(0) =~= Seq::<MapArea>::empty());
    assert(shape_ids_of(result@.skip(start.len() as int)) =~= Set::<usize>::empty());
    while k < sub_areas.len()
        invariant
            k <= sub_areas@.len(),
            sub_areas@.len() == subs.len(),
            forall|i: int| k <= i < subs.len() ==> #[trigger] sub_areas@[i] == subs[i],
            depth > 0,
            result@.len() >= start.len(),
            result@.take(start.len() as int) == start,
            all_have_data(result@.skip(start.len() as int)),
            total_points(result@.skip(start.len() as int)) == total_points(subs.take(k as int)),
            total_lines(result@.skip(start.len() as int)) == total_lines(subs.take(k as int)),
            points_of(result@.skip(start.len() as int)) == points_of(subs.take(k as int)),
            lines_of(result@.skip(start.len() as int)) == lines_of(subs.take(k as int)),
            shape_ids_of(result@.skip(start.len() as int)).subset_of(shape_ids_of(subs.take(k as int))),
            big_shape_ids_of(subs.take(k as int)).subset_of(shape_ids_of(result@.skip(start.len() as int))),
        decreases subs.len() - k,
    {
        let mut sub = MapArea::new(area.bounds, area.resolution);
        std::mem::swap(&mut sub, &mut sub_areas[k]);
        assert(sub == subs[k as int]);
        proof { assert(subs.take(k + 1).drop_last() =~= subs.take(k as int)); }
        if sub.has_data() {
            let ghost before = result@;
            add_area_recursive(sub, depth - 1, result);
            proof {
                let added = result@.skip(before.len() as int);
                assert(result@.skip(start.len() as int) =~= before.skip(start.len() as int) + added);
                lemma_totals_concat(before.skip(start.len() as int), added);
                lemma_shape_ids_concat(before.skip(start.len() as int), added);
                assert(subs.take(k + 1).drop_last() =~= subs.take(k as int));
                assert(shape_ids_of(subs.take(k + 1)) == shape_ids_of(subs.take(k as int)).union(area_shape_ids(subs[k as int])));
                assert(big_shape_ids_of(subs.take(k + 1)) == big_shape_ids_of(subs.take(k as int)).union(
                    area_big_shape_ids(subs[k as int])));
                lemma_area_in_ids(subs, k as int);
                lemma_totals_push(subs.take(k as int), subs[k as int]);
                assert(subs.take(k as int).push(subs[k as int]) =~= subs.take(k + 1));
                assert(result@.take(start.len() as int) =~= result@.take(before.len() as int).take(start.len() as int));
                assert forall|i: int| 0 <= i < result@.skip(start.len() as int).len()
                    implies (#[trigger] result@.skip(start.len() as int)[i]).spec_has_data() by {
                    let bs = before.skip(start.len() as int);
                    if i < bs.len() {
                        assert(result@.skip(start.len() as int)[i] == bs[i]);
                    } else {
                        assert(result@.skip(start.len() as int)[i] == added[i - bs.len()]);
                    }
                }
            }
        } else {
            proof {
                lemma_ne_lines_bound(sub.lines@);
                lemma_totals_push(subs.take(k as int), subs[k as int]);
                assert(subs.take(k as int).push(subs[k as int]) =~= subs.take(k + 1));
                lemma_no_points_empty(sub);
                lemma_no_lines_empty(sub);
                assert(points_of(subs.take(k + 1)) =~= points_of(subs.take(k as int)));
                assert(lines_of(subs.take(k + 1)) =~= lines_of(subs.take(k as int)));
                lemma_no_shapes(sub);
                assert(subs.take(k + 1).drop_last() =~= subs.take(k as int));
                assert(shape_ids_of(subs.take(k + 1)) =~= shape_ids_of(subs.take(k as int)));
                assert(big_shape_ids_of(subs.take(k + 1)) =~= big_shape_ids_of(subs.take(k as int)));
            }
        }
        k = k + 1;
    }
    assert(subs.take(subs.len() as int) =~= subs);
}

/// Split each area holding data until it fits the limits.
pub fn add_areas_to_list(areas: Vec<MapArea>, max_depth: usize) -> (r: Vec<MapArea>)
    ensures
        all_have_data(r@),
        total_points(r@) == total_points(areas@),
        total_lines(r@) == total_lines(areas@),
        points_of(r@) == points_of(areas@),
        lines_of(r@) == lines_of(areas@),
        shape_ids_of(r@).subset_of(shape_ids_of(areas@)),
        big_shape_ids_of(areas@).subset_of(shape_ids_of(r@)),
{
    broadcast use vstd::multiset::group_multiset_axioms;
    let mut areas = areas;
    let ghost all = areas@;
    let mut result: Vec<MapArea> = Vec::new();
    let mut k: usize = 0;
    assert(all.take(0) =~= Seq::<MapArea>::empty());
    while k < areas.len()
        invariant
            k <= areas@.len(),
            areas@.len() == all.len(),
            forall|i: int| k <= i < all.len() ==> #[trigger] areas@[i] == all[i],
            all_have_data(result@),
            total_points(result@) == total_points(all.take(k as int)),
            total_lines(result@) == total_lines(all.take(k as int)),
            points_of(result@) == points_of(all.take(k as int)),
            lines_of(result@) == lines_of(all.take(k as int)),
            shape_ids_of(result@).subset_of(shape_ids_of(all.take(k as int))),
            big_shape_ids_of(all.take(k as int)).subset_of(shape_ids_of(result@)),
        decreases all.len() - k,
    {
        let mut area = MapArea::new(Area { min_lat: 0, min_lon: 0, max_lat: 0, max_lon: 0 }, 0);
        std::mem::swap(&mut area, &mut areas[k]);
        assert(area == all[k as int]);
        proof {
            assert(all.take(k + 1).drop_last() =~= all.take(k as int));
            lemma_totals_push(all.take(k as int), all[k as int]);
            assert(all.take(k as int).push(all[k as int]) =~= all.take(k + 1));
            assert(shape_ids_of(all.take(k + 1)) == shape_ids_of(all.take(k as int)).union(area_shape_ids(all[k as int])));
            assert(big_shape_ids_of(all.take(k + 1)) == big_shape_ids_of(all.take(k as int)).union(
                area_big_shape_ids(all[k as int])));
        }
        if area.has_data() {
            let ghost before = result@;
            add_area_recursive(area, max_depth, &mut result);
            proof {
                let added = result@.skip(before.len() as int);
                assert(result@ =~= before + added);
                lemma_totals_concat(before, added);
                lemma_shape_ids_concat(before, added);
                assert forall|i: int| 0 <= i < result@.len() implies (#[trigger] result@[i]).spec_has_data() by {
                    if i < before.len() {
                        assert(result@.take(before.len() as int)[i] == before[i]);
                    } else {
                        assert(result@[i] == added[i - before.len()]);
                    }
                }
            }
        } else {
            proof {
                lemma_ne_lines_bound(area.lines@);
                lemma_no_points_empty(area);
                lemma_no_lines_empty(area);
                assert(points_of(all.take(k + 1)) =~= points_of(all.take(k as int)));
                assert(lines_of(all.take(k + 1)) =~= lines_of(all.take(k as int)));
                lemma_no_shapes(area);
            }
        }
        k = k + 1;
    }
    assert(all.take(all.len() as int) =~= all);
    result
}

/// Split features into subdivisions: build one area, split it into cells
/// of at most 0x7FFF units, then split each cell until it fits. Every area
/// returned holds data; no point is lost, and no line with points.
pub fn split_features(bounds: Area, resolution: u8, points: Vec<SplitPoint>, lines: Vec<SplitLine>,
    shapes: Vec<SplitShape>) -> (r: Vec<MapArea>)
    requires
        max_size_grid(bounds.spec_width(), res_shift(resolution) as i32)
            * max_size_grid(bounds.spec_height(), res_shift(resolution) as i32) <= 0x0FFF_FFFF,
    ensures
        all_have_data(r@),
        total_points(r@) == points@.len(),
        total_lines(r@) == ne_lines(lines@),
        points_of(r@) == points@.to_multiset(),
        lines_of(r@) == ne_views(lines_view(lines@)),
        points@.len() == 0 && lines@.len() == 0 && shapes@.len() == 0 ==> r@.len() == 0,
        shape_ids_of(r@).subset_of(ids_in(shapes@)),
        big_ids_in(shapes@).subset_of(shape_ids_of(r@)),
{
    broadcast use vstd::multiset::group_multiset_axioms;
    let ghost in_lines = lines@;
    let ghost in_points = points@;
    let ghost in_shapes = shapes@;
    let area = MapArea::from_split_features(bounds, resolution, points, lines, shapes);
    proof {
        assert(area_shape_ids(area) =~= ids_in(in_shapes)) by {
            assert forall|x: usize| area_shape_ids(area).contains(x) <==> ids_in(in_shapes).contains(x) by {
                if ids_in(in_shapes).contains(x) {
                    let j = choose|j: int| 0 <= j < in_shapes.len() && (#[trigger] in_shapes[j]).mp_index == x;
                    assert(area.shapes@[j].mp_index == x);
                }
                if area_shape_ids(area).contains(x) {
                    let j = choose|j: int| 0 <= j < area.shapes@.len() && (#[trigger] area.shapes@[j]).mp_index == x;
                    assert(in_shapes[j].mp_index == x);
                }
            }
        }
        assert(area_big_shape_ids(area) =~= big_ids_in(in_shapes)) by {
            assert forall|x: usize| area_big_shape_ids(area).contains(x) <==> big_ids_in(in_shapes).contains(x) by {
                if big_ids_in(in_shapes).contains(x) {
                    let j = choose|j: int| 0 <= j < in_shapes.len() && (#[trigger] in_shapes[j]).mp_index == x
                        && in_shapes[j].points@.len() >= 3;
                    assert(area.shapes@[j].mp_index == x && area.shapes@[j].points@.len() >= 3);
                }
                if area_big_shape_ids(area).contains(x) {
                    let j = choose|j: int| 0 <= j < area.shapes@.len() && (#[trigger] area.shapes@[j]).mp_index == x
                        && area.shapes@[j].points@.len() >= 3;
                    assert(in_shapes[j].mp_index == x && in_shapes[j].points@.len() >= 3);
                }
            }
        }
        lemma_ne_lines_same(area.lines@, in_lines);
        assert(lines_view(area.lines@) =~= lines_view(in_lines));
    }
    if !area.has_data() {
        proof {
            lemma_ne_lines_bound(area.lines@);
            lemma_no_points_empty(area);
            lemma_no_lines_empty(area);
        }
        let r: Vec<MapArea> = Vec::new();
        proof { lemma_no_shapes(area); }
        assert(big_ids_in(in_shapes) =~= Set::<usize>::empty());
        assert(points_of(r@) =~= in_points.to_multiset());
        assert(lines_of(r@) =~= ne_views(lines_view(in_lines)));
        return r;
    }
    let shift = res_shift_exec(resolution);
    let initial = split_max_size(&area, shift);
    let r = add_areas_to_list(initial, usize::MAX);
    proof {
        assert(big_ids_in(in_shapes).subset_of(shape_ids_of(r@)));
    }
    r
}

/// Lines with the same point sequences have the same number of lines with points.
proof fn lemma_ne_lines_same(a: Seq<SplitLine>, b: Seq<SplitLine>)
    requires
        a.len() == b.len(),
        forall|i: int| 0 <= i < a.len() ==> (#[trigger] a[i]).points@ == b[i].points@,
    ensures
        ne_lines(a) == ne_lines(b),
    decreases a.len(),
{
    if a.len() > 0 {
        lemma_ne_lines_same(a.drop_last(), b.drop_last());
    }
}

/// `acc + overhead + n * per`, saturating.
fn add_estimate(acc: usize, overhead: usize, n: usize, per: usize) -> (r: usize)
    requires
        overhead <= 11,
        per <= 4,
    ensures
        r == sat_add(acc, overhead + n * per),
{
    assert(n * per <= n * 4) by (nonlinear_arith) requires per <= 4, n >= 0;
    assert(n * 4 <= 4 * 0xFFFF_FFFF_FFFF_FFFFu128) by (nonlinear_arith) requires n <= 0xFFFF_FFFF_FFFF_FFFFu128;
    let total: u128 = acc as u128 + overhead as u128 + (n as u128) * (per as u128);
    if total > usize::MAX as u128 { usize::MAX } else { total as usize }
}

} // verus!
