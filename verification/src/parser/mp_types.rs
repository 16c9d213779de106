//! Features of a Polish Map (.mp) file, with their per-level geometries.
use vstd::prelude::*;
use crate::img::coord::Coord;

verus! {

/// Unit of the contour elevations of a map.
#[derive(Debug, Clone, Copy, PartialEq, Eq, Structural)]
pub enum ElevationUnit {
    Feet,
    Metres,
}

impl Default for ElevationUnit {
    /// Feet.
    fn default() -> (r: Self)
        ensures
            r == ElevationUnit::Feet,
    {
        ElevationUnit::Feet
    }
}

/// How routing data is generated.
#[derive(Debug, Clone, Copy, PartialEq, Eq, Structural)]
pub enum RoutingMode {
    /// NET and NOD when roads carry ids
    Auto,
    /// Always NET and NOD
    Route,
    /// NET only
    NetOnly,
    /// No routing data
    Disabled,
}

impl Default for RoutingMode {
    /// Auto.
    fn default() -> (r: Self)
        ensures
            r == RoutingMode::Auto,
    {
        RoutingMode::Auto
    }
}

/// A point of interest.
#[derive(Debug, Clone)]
pub struct MpPoint {
    pub type_code: u32,
    pub label: String,
    pub coord: Coord,
    pub end_level: Option<u8>,
}

/// The geometries of a feature by level, ordered by strictly increasing level.
pub open spec fn levels_sorted(g: Seq<(u8, Vec<Coord>)>) -> bool {
    forall|i: int, j: int| 0 <= i < j < g.len() ==> (#[trigger] g[i]).0 < (#[trigger] g[j]).0
}

/// The number of leading geometries of a level below `level` (with sorted
/// levels: the position of the first level at or above `level`).
pub open spec fn levels_below(g: Seq<(u8, Vec<Coord>)>, level: u8) -> int
    decreases g.len(),
{
    if g.len() == 0 || g[0].0 >= level { 0 } else { 1 + levels_below(g.drop_first(), level) }
}

/// The geometry drawn at `level`: with levels sorted, the first geometry at
/// or above `level` (that level's, else the nearest coarser one), else the
/// last one below it (the nearest finer one), else none.
pub open spec fn spec_geometry_for_level(g: Seq<(u8, Vec<Coord>)>, level: u8) -> Seq<Coord> {
    let p = levels_below(g, level);
    if p < g.len() { g[p].1@ } else if p > 0 { g[p - 1].1@ } else { Seq::empty() }
}

/// All coordinates of all levels, by level.
pub open spec fn spec_all_coords(g: Seq<(u8, Vec<Coord>)>) -> Seq<Coord>
    decreases g.len(),
{
    if g.len() == 0 { Seq::empty() } else { spec_all_coords(g.drop_last()) + g.last().1@ }
}

/// The geometry for a level in sorted per-level geometries.
fn geometry_in(g: &Vec<(u8, Vec<Coord>)>, level: u8) -> (r: &[Coord])
    ensures
        r@ == spec_geometry_for_level(g@, level),
{
    let mut i: usize = 0;
    assert(g@.skip(0) =~= g@);
    while i < g.len() && g[i].0 < level
        invariant
            i <= g@.len(),
            levels_below(g@, level) == i + levels_below(g@.skip(i as int), level),
        decreases g@.len() - i,
    {
        assert(g@.skip(i as int).drop_first() =~= g@.skip(i + 1));
        i = i + 1;
    }
    proof {
        let t = g@.skip(i as int);
        assert(t.len() == 0 || t[0].0 >= level);
    }
    if i < g.len() {
        return g[i].1.as_slice();
    }
    if i > 0 {
        return g[i - 1].1.as_slice();
    }
    &[]
}

/// Append the coordinates of `src`.
pub fn push_coords(out: &mut Vec<Coord>, src: &[Coord])
    ensures
        final(out)@ == old(out)@ + src@,
{
    let ghost start = out@;
    let mut i: usize = 0;
    while i < src.len()
        invariant
            i <= src@.len(),
            out@ == start + src@.take(i as int),
        decreases src@.len() - i,
    {
        out.push(src[i]);
        assert(out@ =~= start + src@.take(i + 1));
        i = i + 1;
    }
    assert(src@.take(src@.len() as int) =~= src@);
}

/// All coordinates of sorted per-level geometries, by level.
fn all_coords_in(g: &Vec<(u8, Vec<Coord>)>) -> (r: Vec<Coord>)
    ensures
        r@ == spec_all_coords(g@),
{
    let mut out: Vec<Coord> = Vec::new();
    let mut i: usize = 0;
    while i < g.len()
        invariant
            i <= g@.len(),
            out@ == spec_all_coords(g@.take(i as int)),
        decreases g@.len() - i,
    {
        assert(g@.take(i + 1).drop_last() =~= g@.take(i as int));
        push_coords(&mut out, g[i].1.as_slice());
        i = i + 1;
    }
    assert(g@.take(g@.len() as int) =~= g@);
    out
}

/// A polyline with its geometries by level.
#[derive(Debug, Clone)]
pub struct MpPolyline {
    pub type_code: u32,
    pub label: String,
    /// Geometry of each level (`DataN=`), by increasing level; 0 is the most detailed
    pub geometries: Vec<(u8, Vec<Coord>)>,
    pub end_level: Option<u8>,
    pub direction: bool,
    pub road_id: Option<u32>,
    pub route_param: Option<String>,
}

impl MpPolyline {
    /// The geometry drawn at `level`: that level's, else the nearest
    /// coarser one, else the nearest finer one, else none.
    pub fn geometry_for_level(&self, level: u8) -> (r: &[Coord])
        requires
            levels_sorted(self.geometries@),
        ensures
            r@ == spec_geometry_for_level(self.geometries@, level),
    {
        geometry_in(&self.geometries, level)
    }

    /// The coordinates of every level, by level.
    pub fn all_coords(&self) -> (r: Vec<Coord>)
        ensures
            r@ == spec_all_coords(self.geometries@),
    {
        all_coords_in(&self.geometries)
    }

    /// The level-0 geometry, if any: routing uses no other.
    pub fn routing_geometry(&self) -> (r: Option<&[Coord]>)
        requires
            levels_sorted(self.geometries@),
        ensures
            r is Some <==> exists|i: int| 0 <= i < self.geometries@.len() && (#[trigger] self.geometries@[i]).0 == 0,
            r matches Some(s) ==> s@ == self.geometries@[0].1@,
    {
        if self.geometries.len() > 0 && self.geometries[0].0 == 0 {
            proof {
                assert(self.geometries@[0].0 == 0);
            }
            Some(self.geometries[0].1.as_slice())
        } else {
            proof {
                assert forall|i: int| 0 <= i < self.geometries@.len() implies (#[trigger] self.geometries@[i]).0 != 0 by {
                    if i > 0 {
                        assert(self.geometries@[0].0 < self.geometries@[i].0);
                    }
                }
            }
            None
        }
    }
}

/// A polygon with its geometries by level.
#[derive(Debug, Clone)]
pub struct MpPolygon {
    pub type_code: u32,
    pub label: String,
    /// Geometry of each level, by increasing level
    pub geometries: Vec<(u8, Vec<Coord>)>,
    pub end_level: Option<u8>,
}

impl MpPolygon {
    /// The geometry drawn at `level` (same rule as for polylines).
    pub fn geometry_for_level(&self, level: u8) -> (r: &[Coord])
        requires
            levels_sorted(self.geometries@),
        ensures
            r@ == spec_geometry_for_level(self.geometries@, level),
    {
        geometry_in(&self.geometries, level)
    }

    /// The coordinates of every level, by level.
    pub fn all_coords(&self) -> (r: Vec<Coord>)
        ensures
            r@ == spec_all_coords(self.geometries@),
    {
        all_coords_in(&self.geometries)
    }
}

} // verus!
