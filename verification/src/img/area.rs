//! Bounding boxes in 24-bit map units.
//!
//! Coordinate sums and differences are computed in 32-bit two's-complement
//! arithmetic (wrapping), which is what the compiled encoder produces for
//! every input; for map units (24 bits) no wrap ever happens.
use vstd::prelude::*;
use crate::img::coord::{Coord, high_prec};

verus! {

/// A bounding box in 24-bit map units.
#[derive(Debug, Clone, Copy, PartialEq, Eq, Hash, Structural)]
pub struct Area {
    pub min_lat: i32,
    pub min_lon: i32,
    pub max_lat: i32,
    pub max_lon: i32,
}

/// Quotient of `a / b` rounded toward zero (Rust's integer division).
pub open spec fn tdiv(a: int, b: int) -> int {
    if a >= 0 {
        a / b
    } else {
        -((-a) / b)
    }
}

/// `a + b` in 32-bit two's-complement arithmetic.
pub open spec fn wadd(a: i32, b: i32) -> i32 {
    vstd::wrapping::i32_specs::wrapping_add(a, b)
}

/// `a - b` in 32-bit two's-complement arithmetic.
pub open spec fn wsub(a: i32, b: i32) -> i32 {
    vstd::wrapping::i32_specs::wrapping_sub(a, b)
}

/// The area that `Area::new` builds: a degenerate side is widened by one unit.
pub open spec fn area_of(min_lat: i32, min_lon: i32, max_lat: i32, max_lon: i32) -> Area {
    Area {
        min_lat,
        min_lon,
        max_lat: if max_lat == min_lat { wadd(min_lat, 1) } else { max_lat },
        max_lon: if max_lon == min_lon { wadd(min_lon, 1) } else { max_lon },
    }
}

/// Rounds `val` to the nearest multiple of `2^shift` (no-op for `shift <= 0`).
pub open spec fn round_pof2(val: i32, shift: i32) -> i32 {
    if shift <= 0 {
        val
    } else {
        ((wadd(val >> ((shift - 1) as i32), 1i32) >> 1i32) << shift)
    }
}

/// Boundary number `k` of `n` cells between `start` and `end`: the first is
/// `start`, the last `end`, and each inner one is the previous one plus an
/// equal share of what remains, rounded to `2^shift`.
pub open spec fn split_bound(start: i32, end: i32, n: nat, k: nat, shift: i32) -> i32
    decreases k,
{
    if k == 0 {
        start
    } else if k == n {
        end
    } else {
        let prev = split_bound(start, end, n, (k - 1) as nat, shift);
        round_pof2(wadd(prev, tdiv(wsub(end, prev) as int, (n - (k - 1)) as int) as i32), shift)
    }
}


/// The cells of `split`, column by column: cell `(x, y)` spans boundaries
/// `xs[x]..xs[x+1]` and `ys[y]..ys[y+1]`; empty cells are left out.
pub open spec fn split_cells(xs: Seq<i32>, ys: Seq<i32>, nx: nat, ny: nat) -> Seq<Area>
    decreases nx, ny,
{
    if ny == 0 {
        if nx == 0 {
            Seq::empty()
        } else {
            split_cells(xs, ys, (nx - 1) as nat, (ys.len() - 1) as nat)
        }
    } else if nx == 0 {
        Seq::empty()
    } else {
        let x = (nx - 1) as int;
        let y = (ny - 1) as int;
        let prev = split_cells(xs, ys, nx, (ny - 1) as nat);
        if xs[x] < xs[x + 1] && ys[y] < ys[y + 1] {
            prev.push(area_of(ys[y], xs[x], ys[y + 1], xs[x + 1]))
        } else {
            prev
        }
    }
}

/// The `n + 1` boundaries of `n` cells between `start` and `end`.
pub open spec fn split_bounds(start: i32, end: i32, n: nat, shift: i32) -> Seq<i32> {
    Seq::new(n + 1, |k: int| split_bound(start, end, n, k as nat, shift))
}

/// Exec form of `round_pof2`.
fn round_pof2_exec(val: i32, shift: i32) -> (r: i32)
    requires
        shift < 32,
    ensures
        r == round_pof2(val, shift),
{
    if shift <= 0 {
        return val;
    }
    (val >> (shift - 1)).wrapping_add(1) >> 1i32 << shift
}

impl Area {
    /// Spec of `width`.
    pub open spec fn spec_width(self) -> i32 { wsub(self.max_lon, self.min_lon) }

    /// Spec of `height`.
    pub open spec fn spec_height(self) -> i32 { wsub(self.max_lat, self.min_lat) }

    /// Spec of `max_dimension`.
    pub open spec fn spec_max_dimension(self) -> i32 {
        if self.spec_width() >= self.spec_height() { self.spec_width() } else { self.spec_height() }
    }

    /// Spec of `contains_area`.
    pub open spec fn spec_contains_area(self, other: Area) -> bool {
        other.min_lat >= self.min_lat && other.max_lat <= self.max_lat
            && other.min_lon >= self.min_lon && other.max_lon <= self.max_lon
    }

    /// Spec of `intersects`.
    pub open spec fn spec_intersects(self, other: Area) -> bool {
        self.min_lat <= other.max_lat && self.max_lat >= other.min_lat
            && self.min_lon <= other.max_lon && self.max_lon >= other.min_lon
    }

    /// Spec of `contains_coord`: the high-precision position lies within the
    /// high-precision bounds.
    pub open spec fn spec_contains_coord(self, co: Coord) -> bool {
        let lat_hp = high_prec(co.latitude, co.lat_delta);
        let lon_hp = high_prec(co.longitude, co.lon_delta);
        lat_hp >= (self.min_lat << 6i32) && lat_hp <= (self.max_lat << 6i32)
            && lon_hp >= (self.min_lon << 6i32) && lon_hp <= (self.max_lon << 6i32)
    }

    /// Create from map units; a zero-size side is widened by one unit.
    pub fn new(min_lat: i32, min_lon: i32, max_lat: i32, max_lon: i32) -> (a: Self)
        ensures
            a == area_of(min_lat, min_lon, max_lat, max_lon),
    {
        Area {
            min_lat,
            min_lon,
            max_lat: if max_lat == min_lat { min_lat.wrapping_add(1) } else { max_lat },
            max_lon: if max_lon == min_lon { min_lon.wrapping_add(1) } else { max_lon },
        }
    }

    /// The bounding box of `coords` (an empty slice gives the inverted box
    /// `[i32::MAX, i32::MIN]` on both axes).
    pub fn from_coords(coords: &[Coord]) -> (a: Self)
        ensures
            a == area_of(
                seq_min_lat(coords@),
                seq_min_lon(coords@),
                seq_max_lat(coords@),
                seq_max_lon(coords@),
            ),
    {
        let mut min_lat = i32::MAX;
        let mut max_lat = i32::MIN;
        let mut min_lon = i32::MAX;
        let mut max_lon = i32::MIN;
        let mut i: usize = 0;
        while i < coords.len()
            invariant
                i <= coords@.len(),
                min_lat == seq_min_lat(coords@.subrange(0, i as int)),
                max_lat == seq_max_lat(coords@.subrange(0, i as int)),
                min_lon == seq_min_lon(coords@.subrange(0, i as int)),
                max_lon == seq_max_lon(coords@.subrange(0, i as int)),
            decreases coords@.len() - i,
        {
            let co = coords[i];
            let lat = co.latitude();
            let lon = co.longitude();
            if lat < min_lat { min_lat = lat; }
            if lat > max_lat { max_lat = lat; }
            if lon < min_lon { min_lon = lon; }
            if lon > max_lon { max_lon = lon; }
            assert(coords@.subrange(0, i + 1).drop_last() =~= coords@.subrange(0, i as int));
            i = i + 1;
        }
        assert(coords@.subrange(0, coords@.len() as int) =~= coords@);
        Self::new(min_lat, min_lon, max_lat, max_lon)
    }

    pub fn min_lat(&self) -> (r: i32)
        ensures r == self.min_lat,
    {
        self.min_lat
    }

    pub fn min_lon(&self) -> (r: i32)
        ensures r == self.min_lon,
    {
        self.min_lon
    }

    pub fn max_lat(&self) -> (r: i32)
        ensures r == self.max_lat,
    {
        self.max_lat
    }

    pub fn max_lon(&self) -> (r: i32)
        ensures r == self.max_lon,
    {
        self.max_lon
    }

    pub fn width(&self) -> (r: i32)
        ensures r == self.spec_width(),
    {
        self.max_lon.wrapping_sub(self.min_lon)
    }

    pub fn height(&self) -> (r: i32)
        ensures r == self.spec_height(),
    {
        self.max_lat.wrapping_sub(self.min_lat)
    }

    pub fn max_dimension(&self) -> (r: i32)
        ensures r == self.spec_max_dimension(),
    {
        let w = self.width();
        let h = self.height();
        if w >= h { w } else { h }
    }

    /// The midpoint of the box (sums halved toward zero).
    pub fn center(&self) -> (c: Coord)
        ensures
            c == Coord::new_spec(
                tdiv(wadd(self.min_lat, self.max_lat) as int, 2) as i32,
                tdiv(wadd(self.min_lon, self.max_lon) as int, 2) as i32,
            ),
    {
        Coord::new(
            self.min_lat.wrapping_add(self.max_lat) / 2,
            self.min_lon.wrapping_add(self.max_lon) / 2,
        )
    }

    /// Whether the high-precision position of `co` lies inside the box.
    pub fn contains_coord(&self, co: &Coord) -> (r: bool)
        ensures r == self.spec_contains_coord(*co),
    {
        let lat_hp = co.high_prec_lat();
        let lon_hp = co.high_prec_lon();
        lat_hp >= (self.min_lat << 6i32) && lat_hp <= (self.max_lat << 6i32)
            && lon_hp >= (self.min_lon << 6i32) && lon_hp <= (self.max_lon << 6i32)
    }

    /// Whether `(lat, lon)` lies inside the box, its north and east edges
    /// excluded: a point on a shared edge belongs to one box only.
    pub fn contains_coord_right_excl(&self, lat: i32, lon: i32) -> (r: bool)
        ensures
            r == (self.min_lat <= lat < self.max_lat && self.min_lon <= lon < self.max_lon),
    {
        self.min_lat <= lat && lat < self.max_lat && self.min_lon <= lon && lon < self.max_lon
    }

    /// Whether `other` lies entirely inside this box.
    pub fn contains_area(&self, other: &Area) -> (r: bool)
        ensures r == self.spec_contains_area(*other),
    {
        other.min_lat >= self.min_lat && other.max_lat <= self.max_lat
            && other.min_lon >= self.min_lon && other.max_lon <= self.max_lon
    }

    /// Whether the two boxes share at least one point (edges included).
    pub fn intersects(&self, other: &Area) -> (r: bool)
        ensures r == self.spec_intersects(*other),
    {
        self.min_lat <= other.max_lat && self.max_lat >= other.min_lat
            && self.min_lon <= other.max_lon && self.max_lon >= other.min_lon
    }

    /// The common part of the two boxes (a zero-size side widened by one unit).
    pub fn intersect(&self, other: &Area) -> (r: Area)
        ensures
            r == area_of(
                if self.min_lat >= other.min_lat { self.min_lat } else { other.min_lat },
                if self.min_lon >= other.min_lon { self.min_lon } else { other.min_lon },
                if self.max_lat <= other.max_lat { self.max_lat } else { other.max_lat },
                if self.max_lon <= other.max_lon { self.max_lon } else { other.max_lon },
            ),
    {
        Area::new(
            if self.min_lat >= other.min_lat { self.min_lat } else { other.min_lat },
            if self.min_lon >= other.min_lon { self.min_lon } else { other.min_lon },
            if self.max_lat <= other.max_lat { self.max_lat } else { other.max_lat },
            if self.max_lon <= other.max_lon { self.max_lon } else { other.max_lon },
        )
    }

    /// Spec of `split`: all non-empty cells of the `xsplit` x `ysplit` grid;
    /// `None` when the grid is incomplete and holds at most one cell.
    pub open spec fn spec_split(self, xsplit: nat, ysplit: nat, shift: i32) -> Option<Seq<Area>> {
        let xs = split_bounds(self.min_lon, self.max_lon, xsplit, shift);
        let ys = split_bounds(self.min_lat, self.max_lat, ysplit, shift);
        let cells = split_cells(xs, ys, xsplit, ysplit);
        if cells.len() == xsplit * ysplit {
            Some(cells)
        } else if cells.len() <= 1 {
            None
        } else {
            Some(cells)
        }
    }

    /// Split into `xsplit` x `ysplit` sub-areas whose inner edges are rounded
    /// to multiples of `2^resolution_shift`; empty cells are dropped.
    pub fn split(&self, xsplit: usize, ysplit: usize, resolution_shift: i32) -> (r: Option<Vec<Area>>)
        requires
            resolution_shift < 32,
            xsplit <= i32::MAX,
            ysplit <= i32::MAX,
            xsplit * ysplit <= 0x0FFF_FFFF,
        ensures
            r matches Some(v) ==> self.spec_split(xsplit as nat, ysplit as nat, resolution_shift) == Some(v@),
            r is None ==> self.spec_split(xsplit as nat, ysplit as nat, resolution_shift) is None,
    {
        let ghost xs = split_bounds(self.min_lon, self.max_lon, xsplit as nat, resolution_shift);
        let ghost ys = split_bounds(self.min_lat, self.max_lat, ysplit as nat, resolution_shift);
        let mut areas: Vec<Area> = Vec::new();
        let mut xstart = self.min_lon;
        let mut x: usize = 0;
        while x < xsplit
            invariant
                x <= xsplit <= i32::MAX,
                ysplit <= i32::MAX,
                resolution_shift < 32,
                xs == split_bounds(self.min_lon, self.max_lon, xsplit as nat, resolution_shift),
                ys == split_bounds(self.min_lat, self.max_lat, ysplit as nat, resolution_shift),
                xstart == xs[x as int],
                areas@ == split_cells(xs, ys, x as nat, ysplit as nat),
            decreases xsplit - x,
        {
            let xend = if x == xsplit - 1 {
                self.max_lon
            } else {
                let share = self.max_lon.wrapping_sub(xstart) / ((xsplit - x) as i32);
                round_pof2_exec(xstart.wrapping_add(share), resolution_shift)
            };
            assert(xend == xs[x + 1]);
            let mut ystart = self.min_lat;
            let mut y: usize = 0;
            while y < ysplit
                invariant
                    x < xsplit <= i32::MAX,
                    y <= ysplit <= i32::MAX,
                    resolution_shift < 32,
                    xs == split_bounds(self.min_lon, self.max_lon, xsplit as nat, resolution_shift),
                    ys == split_bounds(self.min_lat, self.max_lat, ysplit as nat, resolution_shift),
                    xstart == xs[x as int],
                    xend == xs[x + 1],
                    ystart == ys[y as int],
                    areas@ == split_cells(xs, ys, (x + 1) as nat, y as nat),
                decreases ysplit - y,
            {
                let yend = if y == ysplit - 1 {
                    self.max_lat
                } else {
                    let share = self.max_lat.wrapping_sub(ystart) / ((ysplit - y) as i32);
                    round_pof2_exec(ystart.wrapping_add(share), resolution_shift)
                };
                assert(yend == ys[y + 1]);
                if xstart < xend && ystart < yend {
                    areas.push(Area::new(ystart, xstart, yend, xend));
                }
                ystart = yend;
                y = y + 1;
            }
            xstart = xend;
            x = x + 1;
        }
        if areas.len() == xsplit * ysplit {
            Some(areas)
        } else if areas.len() <= 1 {
            None
        } else {
            Some(areas)
        }
    }
}

impl Coord {
    /// Spec of `Coord::new`.
    pub open spec fn new_spec(latitude: i32, longitude: i32) -> Coord {
        Coord { latitude, longitude, lat_delta: 0, lon_delta: 0 }
    }
}

/// Minimum latitude of a sequence (`i32::MAX` when empty).
pub open spec fn seq_min_lat(s: Seq<Coord>) -> i32
    decreases s.len(),
{
    if s.len() == 0 {
        i32::MAX
    } else {
        let m = seq_min_lat(s.drop_last());
        if s.last().latitude < m { s.last().latitude } else { m }
    }
}

/// Maximum latitude of a sequence (`i32::MIN` when empty).
pub open spec fn seq_max_lat(s: Seq<Coord>) -> i32
    decreases s.len(),
{
    if s.len() == 0 {
        i32::MIN
    } else {
        let m = seq_max_lat(s.drop_last());
        if s.last().latitude > m { s.last().latitude } else { m }
    }
}

/// Minimum longitude of a sequence (`i32::MAX` when empty).
pub open spec fn seq_min_lon(s: Seq<Coord>) -> i32
    decreases s.len(),
{
    if s.len() == 0 {
        i32::MAX
    } else {
        let m = seq_min_lon(s.drop_last());
        if s.last().longitude < m { s.last().longitude } else { m }
    }
}

/// Maximum longitude of a sequence (`i32::MIN` when empty).
pub open spec fn seq_max_lon(s: Seq<Coord>) -> i32
    decreases s.len(),
{
    if s.len() == 0 {
        i32::MIN
    } else {
        let m = seq_max_lon(s.drop_last());
        if s.last().longitude > m { s.last().longitude } else { m }
    }
}

} // verus!
