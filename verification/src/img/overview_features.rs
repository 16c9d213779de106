//! Features of the overview map: polygons taken from the coarse geometry
//! levels of a source map, each assigned to one overview level.
use vstd::prelude::*;
use crate::img::coord::Coord;
use crate::parser::mp_types::{MpPolygon, levels_below, levels_sorted};

verus! {

/// Highest level of the detail maps; features ending at or above it are overview features.
pub const OVERVIEW_DETAIL_MAX_LEVEL: u8 = 7;

/// Number of overview levels.
pub const OVERVIEW_NB_PALIERS: u8 = 4;

/// A feature of the overview map.
#[derive(Debug, Clone)]
pub struct OverviewFeature {
    pub type_code: u32,
    pub end_level: u8,
    pub geometry: Vec<Coord>,
    pub is_polygon: bool,
    /// Overview level: 0 the finest, `OVERVIEW_NB_PALIERS - 1` the coarsest.
    pub palier_index: u8,
}

/// The geometry chosen for level `t`: that of level `t` when present and
/// not empty, else that of the next coarser level when not empty, else
/// that of the finest level at or below `t` when not empty, else none.
pub open spec fn pick_bucket_spec(g: Seq<(u8, Vec<Coord>)>, t: u8) -> Seq<Coord> {
    let p = levels_below(g, t);
    let has_exact = p < g.len() && g[p].0 == t;
    let q = if has_exact { p + 1 } else { p };
    let r = if has_exact { p } else { p - 1 };
    if has_exact && g[p].1@.len() > 0 {
        g[p].1@
    } else if q < g.len() && g[q].1@.len() > 0 {
        g[q].1@
    } else if 0 <= r && g[r].1@.len() > 0 {
        g[r].1@
    } else {
        Seq::empty()
    }
}

proof fn lemma_levels_below_bound(g: Seq<(u8, Vec<Coord>)>, level: u8)
    ensures
        0 <= levels_below(g, level) <= g.len(),
    decreases g.len(),
{
    if g.len() > 0 && g[0].0 < level {
        lemma_levels_below_bound(g.drop_first(), level);
    }
}

/// The geometry of `geometries` (levels in increasing order) used at level `target_n`.
pub fn pick_bucket(geometries: &Vec<(u8, Vec<Coord>)>, target_n: u8) -> (r: &[Coord])
    requires
        levels_sorted(geometries@),
    ensures
        r@ == pick_bucket_spec(geometries@, target_n),
{
    let ghost g = geometries@;
    let mut p: usize = 0;
    assert(g.skip(0) =~= g);
    while p < geometries.len() && geometries[p].0 < target_n
        invariant
            p <= g.len(),
            g == geometries@,
            levels_below(g, target_n) == p + levels_below(g.skip(p as int), target_n),
        decreases g.len() - p,
    {
        assert(g.skip(p as int).drop_first() =~= g.skip(p + 1));
        p = p + 1;
    }
    proof {
        let t = g.skip(p as int);
        assert(t.len() == 0 || t[0].0 >= target_n);
        assert(levels_below(t, target_n) == 0);
    }
    let n = geometries.len();
    let has_exact = p < n && geometries[p].0 == target_n;
    if has_exact && geometries[p].1.len() > 0 {
        return geometries[p].1.as_slice();
    }
    let q = if has_exact { p + 1 } else { p };
    if q < n && geometries[q].1.len() > 0 {
        return geometries[q].1.as_slice();
    }
    if has_exact {
        if geometries[p].1.len() > 0 {
            return geometries[p].1.as_slice();
        }
    } else if p > 0 && geometries[p - 1].1.len() > 0 {
        return geometries[p - 1].1.as_slice();
    }
    &[]
}

/// The overview feature of one polygon, as `(type, end level, geometry,
/// overview level)`: polygons ending below `detail_max_level`, or whose
/// chosen geometry is empty, give none.
pub open spec fn overview_feature_of(pg: MpPolygon, detail_max_level: u8, nb_levels: u8) -> Option<(u32, u8, Seq<Coord>, u8)> {
    match pg.end_level {
        Some(el) if el >= detail_max_level => {
            let max_palier: int = if nb_levels >= 1 { nb_levels - 1 } else { 0 };
            let d = el - detail_max_level;
            let palier = if d < max_palier { d } else { max_palier };
            let target = if detail_max_level + palier > 255 { 255 } else { detail_max_level + palier };
            let geom = pick_bucket_spec(pg.geometries@, target as u8);
            if geom.len() == 0 { None } else { Some((pg.type_code, el, geom, palier as u8)) }
        },
        _ => None,
    }
}

/// The overview features of the first `n` polygons, in order.
pub open spec fn overview_features_spec(pgs: Seq<MpPolygon>, detail_max_level: u8, nb_levels: u8, n: int) -> Seq<(u32, u8, Seq<Coord>, u8)>
    decreases n,
{
    if n <= 0 {
        Seq::empty()
    } else {
        let rest = overview_features_spec(pgs, detail_max_level, nb_levels, n - 1);
        match overview_feature_of(pgs[n - 1], detail_max_level, nb_levels) {
            Some(f) => rest.push(f),
            None => rest,
        }
    }
}

/// A feature as `(type, end level, geometry, overview level)`.
pub open spec fn feature_view(f: OverviewFeature) -> (u32, u8, Seq<Coord>, u8) {
    (f.type_code, f.end_level, f.geometry@, f.palier_index)
}

fn copy_coords(s: &[Coord]) -> (r: Vec<Coord>)
    ensures
        r@ == s@,
{
    let mut out: Vec<Coord> = Vec::new();
    let mut i: usize = 0;
    while i < s.len()
        invariant
            i <= s@.len(),
            out@ == s@.subrange(0, i as int),
        decreases s@.len() - i,
    {
        out.push(s[i]);
        i += 1;
        assert(out@ =~= s@.subrange(0, i as int));
    }
    assert(s@.subrange(0, s@.len() as int) =~= s@);
    out
}

/// The overview polygons of a source map: each polygon ending at or above
/// `detail_max_level` goes to overview level `end_level - detail_max_level`
/// (at most the coarsest), with the geometry chosen for level
/// `detail_max_level` plus that overview level.
pub fn extract_overview_features(polygons: &[MpPolygon], detail_max_level: u8, nb_overview_levels: u8) -> (r: Vec<OverviewFeature>)
    requires
        forall|i: int| 0 <= i < polygons@.len() ==> levels_sorted(#[trigger] polygons@[i].geometries@),
    ensures
        r@.map_values(|f: OverviewFeature| feature_view(f))
            == overview_features_spec(polygons@, detail_max_level, nb_overview_levels, polygons@.len() as int),
        forall|i: int| 0 <= i < r@.len() ==> (#[trigger] r@[i]).is_polygon,
{
    let mut features: Vec<OverviewFeature> = Vec::new();
    let max_palier = nb_overview_levels.saturating_sub(1);
    let mut i: usize = 0;
    while i < polygons.len()
        invariant
            i <= polygons@.len(),
            max_palier == (if nb_overview_levels >= 1 { nb_overview_levels - 1 } else { 0 }),
            forall|k: int| 0 <= k < polygons@.len() ==> levels_sorted(#[trigger] polygons@[k].geometries@),
            features@.map_values(|f: OverviewFeature| feature_view(f))
                == overview_features_spec(polygons@, detail_max_level, nb_overview_levels, i as int),
            forall|k: int| 0 <= k < features@.len() ==> (#[trigger] features@[k]).is_polygon,
        decreases polygons@.len() - i,
    {
        let polygon = &polygons[i];
        let ghost before = features@.map_values(|f: OverviewFeature| feature_view(f));
        match polygon.end_level {
            Some(el) => {
                if el >= detail_max_level {
                    let d = el - detail_max_level;
                    let palier_index = if d < max_palier { d } else { max_palier };
                    let target_n = detail_max_level.saturating_add(palier_index);
                    let geom = pick_bucket(&polygon.geometries, target_n);
                    if geom.len() > 0 {
                        let f = OverviewFeature {
                            type_code: polygon.type_code,
                            end_level: el,
                            geometry: copy_coords(geom),
                            is_polygon: true,
                            palier_index,
                        };
                        let ghost fv = feature_view(f);
                        features.push(f);
                        assert(features@.map_values(|f: OverviewFeature| feature_view(f)) =~= before.push(fv));
                    }
                }
            },
            None => {},
        }
        i += 1;
    }
    features
}

} // verus!
