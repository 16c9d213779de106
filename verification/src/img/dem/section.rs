//! One DEM section (one zoom level): its grid of tiles, the 60-byte
//! section header, the tile descriptors and the concatenated bitstreams.
use vstd::prelude::*;
use crate::bytes::{le16, le32, push_u16, push_u32, push_bytes};
use crate::img::common_header::pad_to;
use super::predict::tdiv;
use super::tile::{DemTileResult, UNDEF, encodes, encode_dem_tile};

verus! {

/// Standard tile dimension (samples per side).
pub const STD_DIM: u32 = 64;

/// Distance below which the grid is aligned to the distance (0.1 degree in DEM units).
pub const EXTRA_DEM: i32 = 1193046;

/// Remainder with the sign of the dividend, as Rust's `%` on signed integers.
pub open spec fn trem(a: int, b: int) -> int {
    if a >= 0 { a % b } else { -((-a) % b) }
}

/// `d` rounded to the nearest multiple of 16.
pub open spec fn aligned_distance(d: int) -> int {
    tdiv(d + 8, 16) * 16
}

pub fn align_distance(d: i32) -> (r: i32)
    requires
        d <= i32::MAX - 8,
    ensures
        r == aligned_distance(d as int),
{
    assert(-0x1000_0000 <= tdiv(d + 8, 16) <= 0x1000_0000);
    ((d + 8) / 16) * 16
}

/// A latitude moved to the distance grid, one step up when not negative.
pub open spec fn moved_up(orig_lat: int, distance: int) -> int {
    if orig_lat >= 0 {
        let m = orig_lat - trem(orig_lat, distance);
        if m < 0x3FFFFFFF - distance { m + distance } else { m }
    } else {
        orig_lat - trem(orig_lat, distance)
    }
}

pub fn move_up(orig_lat: i32, distance: i32) -> (r: i32)
    requires
        distance >= 1,
    ensures
        r == moved_up(orig_lat as int, distance as int),
{
    let mut moved = orig_lat;
    if moved >= 0 {
        moved -= moved % distance;
        if moved < 0x3FFFFFFF - distance {
            moved += distance;
        }
    } else {
        moved -= moved % distance;
    }
    moved
}

/// A longitude moved to the distance grid, one step left when negative.
pub open spec fn moved_left(orig_lon: int, distance: int) -> int {
    if orig_lon >= 0 {
        orig_lon - trem(orig_lon, distance)
    } else {
        let m = orig_lon - trem(orig_lon, distance);
        if m > i32::MIN + distance { m - distance } else { m }
    }
}

pub fn move_left(orig_lon: i32, distance: i32) -> (r: i32)
    requires
        distance >= 1,
    ensures
        r == moved_left(orig_lon as int, distance as int),
{
    let mut moved = orig_lon;
    if moved >= 0 {
        moved -= moved % distance;
    } else {
        moved -= moved % distance;
        if moved > i32::MIN + distance {
            moved -= distance;
        }
    }
    moved
}

/// Tiles along one side of an area of `dem_points` DEM units at distance
/// `dem_dist`, and the samples of the last tile, kept between 1 and 95.
pub open spec fn tile_info(dem_points: int, dem_dist: int) -> (u32, u32) {
    let resolution = STD_DIM * dem_dist;
    let points = dem_points + dem_dist;
    let n_full = tdiv(points, resolution);
    let rest = trem(points, resolution);
    let nonstd = tdiv(rest, dem_dist) + if trem(rest, dem_dist) != 0 { 1int } else { 0int };
    let (num, nonstd2) = if nonstd >= STD_DIM / 2 {
        (n_full + 1, nonstd)
    } else if n_full > 0 {
        (n_full, nonstd + STD_DIM)
    } else {
        (n_full, nonstd)
    };
    ((if num == 0 { 1 } else { num }) as u32, nonstd2 as u32)
}

pub fn get_tile_info(dem_points: i32, dem_dist: i32) -> (r: (u32, u32))
    requires
        1 <= dem_dist <= i32::MAX / 64,
        dem_points + dem_dist <= i32::MAX,
        dem_points + dem_dist >= i32::MIN,
    ensures
        r == tile_info(dem_points as int, dem_dist as int),
{
    let resolution = 64 * dem_dist;
    let points = dem_points + dem_dist;
    assert(resolution >= 64);
    let n_full = points / resolution;
    assert(-0x0200_0000 <= n_full <= 0x0200_0000) by (nonlinear_arith)
        requires
            resolution >= 64,
            n_full as int == tdiv(points as int, resolution as int),
    {
        if points >= 0 {
            assert(points as int / resolution as int <= points as int / 64);
        } else {
            assert((-(points as int)) / resolution as int <= (-(points as int)) / 64);
        }
    }
    let rest = points % resolution;
    assert(rest == points - n_full * resolution) by (nonlinear_arith)
        requires
            resolution >= 64,
            n_full as int == tdiv(points as int, resolution as int),
            rest as int == trem(points as int, resolution as int),
    {
        if points >= 0 {
            assert(points as int == (points as int / resolution as int) * resolution + points as int % resolution as int);
        } else {
            assert(-(points as int) == (-(points as int) / resolution as int) * resolution + (-(points as int)) % resolution as int);
        }
    }
    let mut num = n_full;
    let mut nonstd = rest / dem_dist;
    if rest % dem_dist != 0 {
        nonstd += 1;
    }
    if nonstd >= STD_DIM as i32 / 2 {
        num += 1;
    } else if num > 0 {
        nonstd += STD_DIM as i32;
    }
    if num == 0 {
        num = 1;
    }
    (num as u32, nonstd as u32)
}

/// Where a section's grid lies and how it is cut into tiles.
#[derive(Clone, Copy, Debug)]
pub struct SectionGrid {
    pub left: u32,
    pub top: u32,
    pub tiles_lat: u32,
    pub tiles_lon: u32,
    pub non_std_height: u32,
    pub non_std_width: u32,
}

/// The grid of a section at distance `dist` over an area given in map
/// units (DEM units are map units times 256, wrapping): the corner moved
/// to the distance grid when the distance is below 0.1 degree, and the
/// tile counts of each side.
pub open spec fn section_grid_spec(dist: int, top_mu: i32, left_mu: i32, bottom_mu: i32, right_mu: i32) -> SectionGrid {
    let top_dem = top_mu.wrapping_mul(256i32);
    let left_dem = left_mu.wrapping_mul(256i32);
    let bottom_dem = bottom_mu.wrapping_mul(256i32);
    let right_dem = right_mu.wrapping_mul(256i32);
    let x_top = if dist < EXTRA_DEM { moved_up(top_dem as int, dist) } else { top_dem as int };
    let x_left = if dist < EXTRA_DEM { moved_left(left_dem as int, dist) } else { left_dem as int };
    let (tiles_lat, non_std_height) = tile_info(x_top - bottom_dem, dist);
    let (tiles_lon, non_std_width) = tile_info(right_dem - x_left, dist);
    SectionGrid {
        left: x_left as u32,
        top: x_top as u32,
        tiles_lat,
        tiles_lon,
        non_std_height,
        non_std_width,
    }
}

/// The corner in DEM units, moved to the distance grid when `dist` is below 0.1 degree.
pub open spec fn aligned_corner(dist: int, top_mu: i32, left_mu: i32) -> (int, int) {
    let top_dem = top_mu.wrapping_mul(256i32);
    let left_dem = left_mu.wrapping_mul(256i32);
    if dist < EXTRA_DEM {
        (moved_up(top_dem as int, dist), moved_left(left_dem as int, dist))
    } else {
        (top_dem as int, left_dem as int)
    }
}

pub fn section_grid(dist: i32, top_mu: i32, left_mu: i32, bottom_mu: i32, right_mu: i32) -> (r: SectionGrid)
    requires
        1 <= dist <= i32::MAX / 64,
        ({
            let (x_top, x_left) = aligned_corner(dist as int, top_mu, left_mu);
            let bottom_dem = bottom_mu.wrapping_mul(256i32);
            let right_dem = right_mu.wrapping_mul(256i32);
            &&& i32::MIN <= x_top - bottom_dem
            &&& x_top - bottom_dem + dist <= i32::MAX
            &&& i32::MIN <= right_dem - x_left
            &&& right_dem - x_left + dist <= i32::MAX
        }),
    ensures
        r == section_grid_spec(dist as int, top_mu, left_mu, bottom_mu, right_mu),
{
    let top_dem = top_mu.wrapping_mul(256);
    let left_dem = left_mu.wrapping_mul(256);
    let bottom_dem = bottom_mu.wrapping_mul(256);
    let right_dem = right_mu.wrapping_mul(256);
    let (x_top, x_left) = if dist < EXTRA_DEM {
        (move_up(top_dem, dist), move_left(left_dem, dist))
    } else {
        (top_dem, left_dem)
    };
    let area_height = x_top - bottom_dem;
    let area_width = right_dem - x_left;
    let (tiles_lat, non_std_height) = get_tile_info(area_height, dist);
    let (tiles_lon, non_std_width) = get_tile_info(area_width, dist);
    SectionGrid {
        left: x_left as u32,
        top: x_top as u32,
        tiles_lat,
        tiles_lon,
        non_std_height,
        non_std_width,
    }
}

/// One DEM section (one zoom level).
pub struct DemSection {
    pub zoom_level: u8,
    pub points_per_lat: u32,
    pub points_per_lon: u32,
    pub non_std_height: u32,
    pub non_std_width: u32,
    pub tiles_lat: u32,
    pub tiles_lon: u32,
    pub left: u32,
    pub top: u32,
    pub points_distance_lat: u32,
    pub points_distance_lon: u32,
    pub min_height: i16,
    pub max_height: i16,
    pub tile_results: Vec<DemTileResult>,
    pub flags: u16,
    pub record_desc: u16,
    pub tile_desc_size: u16,
}

/// Offset of tile `i`'s bitstream within the section's bitstream data.
pub open spec fn bitstream_offset(tiles: Seq<DemTileResult>, i: int) -> int
    decreases i,
{
    if i <= 0 { 0 } else { bitstream_offset(tiles, i - 1) + tiles[i - 1].bitstream@.len() }
}

/// The descriptor of one tile under record descriptor `rd`: the low
/// `(rd & 3) + 1` bytes of its bitstream offset, its base height in 2
/// bytes when `rd & 4` (else 1), its largest delta in 2 bytes when `rd & 8`
/// (else 1), and its encoding type when `rd & 0x10`.
pub open spec fn tile_descriptor(t: DemTileResult, offset: int, rd: u16) -> Seq<u8> {
    le32(offset as u32).subrange(0, ((rd & 3) + 1) as int)
        + (if rd & 4 != 0 { le16(t.base_height as u16) } else { seq![t.base_height as u8] })
        + le32(t.max_delta as u32).subrange(0, if rd & 8 != 0 { 2int } else { 1int })
        + (if rd & 0x10 != 0 { seq![t.encoding_type] } else { Seq::empty() })
}

/// The descriptors of the first `n` tiles.
pub open spec fn descriptors(tiles: Seq<DemTileResult>, rd: u16, n: int) -> Seq<u8>
    decreases n,
{
    if n <= 0 {
        Seq::empty()
    } else {
        descriptors(tiles, rd, n - 1) + tile_descriptor(tiles[n - 1], bitstream_offset(tiles, n - 1), rd)
    }
}

/// The bitstreams of the first `n` tiles, concatenated.
pub open spec fn bitstreams(tiles: Seq<DemTileResult>, n: int) -> Seq<u8>
    decreases n,
{
    if n <= 0 { Seq::empty() } else { bitstreams(tiles, n - 1) + tiles[n - 1].bitstream@ }
}

/// Append the low `n` bytes of `val`, little-endian.
pub fn write_le_n(buf: &mut Vec<u8>, val: u32, n: usize)
    requires
        n <= 4,
    ensures
        final(buf)@ == old(buf)@ + le32(val).subrange(0, n as int),
{
    let bytes: [u8; 4] = [val as u8, (val >> 8u32) as u8, (val >> 16u32) as u8, (val >> 24u32) as u8];
    let ghost start = buf@;
    let mut i: usize = 0;
    while i < n
        invariant
            n <= 4,
            i <= n,
            bytes@ == le32(val),
            buf@ == start + le32(val).subrange(0, i as int),
        decreases n - i,
    {
        buf.push(bytes[i]);
        i += 1;
        assert(buf@ =~= start + le32(val).subrange(0, i as int));
    }
}

/// Append a signed height in 2 little-endian bytes, or its low byte when
/// `n` is 1 (the reader sign-extends it).
pub fn write_le_n_signed(buf: &mut Vec<u8>, val: i16, n: usize)
    ensures
        final(buf)@ == old(buf)@ + if n == 2 { le16(val as u16) } else { seq![val as u8] },
{
    if n == 2 {
        push_u16(buf, val as u16);
    } else {
        buf.push(val as u8);
    }
}

/// Total bitstream length of the first `n` tiles.
proof fn lemma_offset_is_length(tiles: Seq<DemTileResult>, n: int)
    requires
        0 <= n <= tiles.len(),
    ensures
        bitstream_offset(tiles, n) == bitstreams(tiles, n).len(),
        bitstream_offset(tiles, n) >= 0,
    decreases n,
{
    if n > 0 {
        lemma_offset_is_length(tiles, n - 1);
    }
}

proof fn lemma_offset_mono(tiles: Seq<DemTileResult>, i: int, j: int)
    requires
        0 <= i <= j <= tiles.len(),
    ensures
        bitstream_offset(tiles, i) <= bitstream_offset(tiles, j),
    decreases j,
{
    if i < j {
        lemma_offset_mono(tiles, i, j - 1);
    }
}

/// The record descriptor of a list of tiles and the size of one
/// descriptor: the offset field is as wide as the total bitstream length
/// needs, the base and delta fields take 2 bytes when some tile needs them,
/// and the encoding type is present when some tile is not of type 0.
pub open spec fn record_desc_spec(tiles: Seq<DemTileResult>) -> (u16, u16) {
    let max_offset = bitstream_offset(tiles, tiles.len() as int);
    let needs_base_2 = exists|i: int| 0 <= i < tiles.len() && (#[trigger] tiles[i].base_height < -128
        || tiles[i].base_height > 127);
    let needs_delta_2 = exists|i: int| 0 <= i < tiles.len() && #[trigger] tiles[i].max_delta > 255;
    let has_extra = exists|i: int| 0 <= i < tiles.len() && #[trigger] tiles[i].encoding_type != 0;
    let offset_size: int = if max_offset <= 0xFF {
        1
    } else if max_offset <= 0xFFFF {
        2
    } else if max_offset <= 0xFF_FFFF {
        3
    } else {
        4
    };
    let desc = (offset_size - 1) + (if needs_base_2 { 4int } else { 0int }) + (if needs_delta_2 { 8int } else { 0int })
        + (if has_extra { 0x10int } else { 0int });
    let size = offset_size + (if needs_base_2 { 2int } else { 1int }) + (if needs_delta_2 { 2int } else { 1int })
        + (if has_extra { 1int } else { 0int });
    (desc as u16, size as u16)
}

pub fn calc_record_desc(tiles: &[DemTileResult]) -> (r: (u16, u16))
    requires
        bitstream_offset(tiles@, tiles@.len() as int) <= u32::MAX,
    ensures
        r == record_desc_spec(tiles@),
{
    let ghost ts = tiles@;
    let mut max_offset: u32 = 0;
    let mut needs_base_2 = false;
    let mut needs_delta_2 = false;
    let mut has_extra = false;
    let mut cumulative_offset: u32 = 0;
    let mut i: usize = 0;
    while i < tiles.len()
        invariant
            ts == tiles@,
            i <= ts.len(),
            bitstream_offset(ts, ts.len() as int) <= u32::MAX,
            cumulative_offset == bitstream_offset(ts, i as int),
            max_offset == cumulative_offset,
            needs_base_2 == exists|k: int| 0 <= k < i && (#[trigger] ts[k].base_height < -128 || ts[k].base_height > 127),
            needs_delta_2 == exists|k: int| 0 <= k < i && #[trigger] ts[k].max_delta > 255,
            has_extra == exists|k: int| 0 <= k < i && #[trigger] ts[k].encoding_type != 0,
        decreases ts.len() - i,
    {
        let tile = &tiles[i];
        proof {
            lemma_offset_mono(ts, i as int + 1, ts.len() as int);
            lemma_offset_is_length(ts, i as int);
        }
        cumulative_offset += tile.bitstream.len() as u32;
        if cumulative_offset > max_offset {
            max_offset = cumulative_offset;
        }
        if tile.base_height < -128 || tile.base_height > 127 {
            needs_base_2 = true;
        }
        if tile.max_delta > 255 {
            needs_delta_2 = true;
        }
        if tile.encoding_type != 0x00 {
            has_extra = true;
        }
        i += 1;
    }
    let offset_size: u16 = if max_offset <= 0xFF {
        1
    } else if max_offset <= 0xFFFF {
        2
    } else if max_offset <= 0xFFFFFF {
        3
    } else {
        4
    };
    let size_code: u16 = offset_size - 1;
    let mut desc: u16 = size_code & 0x03;
    assert(size_code & 0x03 == size_code) by (bit_vector)
        requires
            size_code <= 3,
    ;
    if needs_base_2 {
        desc += 0x04;
    }
    if needs_delta_2 {
        desc += 0x08;
    }
    if has_extra {
        desc += 0x10;
    }
    let base_size: u16 = if needs_base_2 { 2 } else { 1 };
    let delta_size: u16 = if needs_delta_2 { 2 } else { 1 };
    let extra_size: u16 = if has_extra { 1 } else { 0 };
    let tile_desc_size = offset_size + base_size + delta_size + extra_size;
    (desc, tile_desc_size)
}

/// Samples per side of tile `k` of a section: 64 but in the last row and column.
pub open spec fn tile_dims(g: SectionGrid, k: int) -> (int, int) {
    let row = k / (g.tiles_lon as int);
    let col = k % (g.tiles_lon as int);
    (
        if col == g.tiles_lon - 1 { g.non_std_width as int } else { STD_DIM as int },
        if row == g.tiles_lat - 1 { g.non_std_height as int } else { STD_DIM as int },
    )
}

/// `v` is the smallest value of the cells of the tiles that are not void.
pub open spec fn is_section_min(tiles: Seq<Vec<i16>>, v: int) -> bool {
    &&& exists|k: int, i: int| 0 <= k < tiles.len() && 0 <= i < tiles[k]@.len() && tiles[k]@[i] != UNDEF
        && #[trigger] tiles[k]@[i] == v
    &&& forall|k: int, i: int| 0 <= k < tiles.len() && 0 <= i < tiles[k]@.len() && tiles[k]@[i] != UNDEF
        ==> #[trigger] tiles[k]@[i] >= v
}

/// `v` is the largest value of the cells of the tiles that are not void.
pub open spec fn is_section_max(tiles: Seq<Vec<i16>>, v: int) -> bool {
    &&& exists|k: int, i: int| 0 <= k < tiles.len() && 0 <= i < tiles[k]@.len() && tiles[k]@[i] != UNDEF
        && #[trigger] tiles[k]@[i] == v
    &&& forall|k: int, i: int| 0 <= k < tiles.len() && 0 <= i < tiles[k]@.len() && tiles[k]@[i] != UNDEF
        ==> #[trigger] tiles[k]@[i] <= v
}

/// Some tile has a cell that is not void.
pub open spec fn section_has_valid(tiles: Seq<Vec<i16>>) -> bool {
    exists|k: int, i: int| 0 <= k < tiles.len() && 0 <= i < tiles[k]@.len() && #[trigger] tiles[k]@[i] != UNDEF
}

/// Bound on the bitstream of one tile of at most 127 x 127 samples.
pub const TILE_BITSTREAM_BOUND: u64 = 286300;

impl DemSection {
    /// The section at `zoom_level` with grid `grid` and sample distance
    /// `dist`, whose tiles, row by row from the top left, hold
    /// `tile_heights`: each tile compressed, the extreme values of the
    /// section (0 and 0 when it has none), and the descriptor layout.
    pub fn from_heights(zoom_level: u8, dist: u32, grid: SectionGrid, tile_heights: &Vec<Vec<i16>>) -> (s: DemSection)
        requires
            1 <= grid.tiles_lat,
            1 <= grid.tiles_lon,
            grid.tiles_lat * grid.tiles_lon == tile_heights@.len(),
            grid.non_std_height <= 127,
            grid.non_std_width <= 127,
            tile_heights@.len() * TILE_BITSTREAM_BOUND <= u32::MAX,
            forall|k: int| 0 <= k < tile_heights@.len() ==>
                #[trigger] tile_heights@[k]@.len() == tile_dims(grid, k).0 * tile_dims(grid, k).1,
        ensures
            s.zoom_level == zoom_level,
            s.points_per_lat == STD_DIM,
            s.points_per_lon == STD_DIM,
            s.non_std_height == grid.non_std_height,
            s.non_std_width == grid.non_std_width,
            s.tiles_lat == grid.tiles_lat,
            s.tiles_lon == grid.tiles_lon,
            s.left == grid.left,
            s.top == grid.top,
            s.points_distance_lat == dist,
            s.points_distance_lon == dist,
            s.flags == 0,
            s.tile_results@.len() == tile_heights@.len(),
            forall|k: int| 0 <= k < tile_heights@.len() ==>
                encodes(#[trigger] s.tile_results@[k], tile_heights@[k]@, tile_dims(grid, k).0),
            section_has_valid(tile_heights@) ==> is_section_min(tile_heights@, s.min_height as int)
                && is_section_max(tile_heights@, s.max_height as int),
            !section_has_valid(tile_heights@) ==> s.min_height == 0 && s.max_height == 0,
            (s.record_desc, s.tile_desc_size) == record_desc_spec(s.tile_results@),
    {
        let ghost th = tile_heights@;
        let n = tile_heights.len();
        let mut tile_results: Vec<DemTileResult> = Vec::new();
        let mut global_min: i16 = i16::MAX;
        let mut global_max: i16 = i16::MIN;
        let mut any = false;
        let mut k: usize = 0;
        while k < n
            invariant
                th == tile_heights@,
                n == th.len(),
                k <= n,
                1 <= grid.tiles_lon,
                grid.tiles_lat * grid.tiles_lon == n,
                grid.non_std_height <= 127,
                grid.non_std_width <= 127,
                n * TILE_BITSTREAM_BOUND <= u32::MAX,
                forall|j: int| 0 <= j < n ==> #[trigger] th[j]@.len() == tile_dims(grid, j).0 * tile_dims(grid, j).1,
                tile_results@.len() == k,
                forall|j: int| 0 <= j < k ==> encodes(#[trigger] tile_results@[j], th[j]@, tile_dims(grid, j).0),
                forall|j: int| 0 <= j < k ==> (#[trigger] tile_results@[j]).bitstream@.len() <= TILE_BITSTREAM_BOUND,
                any == exists|j: int, i: int| 0 <= j < k && 0 <= i < th[j]@.len() && #[trigger] th[j]@[i] != UNDEF,
                any ==> {
                    &&& exists|j: int, i: int| 0 <= j < k && 0 <= i < th[j]@.len() && th[j]@[i] != UNDEF
                        && #[trigger] th[j]@[i] == global_min
                    &&& forall|j: int, i: int| 0 <= j < k && 0 <= i < th[j]@.len() && th[j]@[i] != UNDEF
                        ==> #[trigger] th[j]@[i] >= global_min
                    &&& exists|j: int, i: int| 0 <= j < k && 0 <= i < th[j]@.len() && th[j]@[i] != UNDEF
                        && #[trigger] th[j]@[i] == global_max
                    &&& forall|j: int, i: int| 0 <= j < k && 0 <= i < th[j]@.len() && th[j]@[i] != UNDEF
                        ==> #[trigger] th[j]@[i] <= global_max
                },
                !any ==> global_min == i16::MAX && global_max == i16::MIN,
            decreases n - k,
        {
            let row = k / grid.tiles_lon as usize;
            let col = k % grid.tiles_lon as usize;
            let tile_h = if row == grid.tiles_lat as usize - 1 { grid.non_std_height } else { STD_DIM };
            let tile_w = if col == grid.tiles_lon as usize - 1 { grid.non_std_width } else { STD_DIM };
            assert(tile_dims(grid, k as int) == (tile_w as int, tile_h as int));
            let heights = &tile_heights[k];
            let ghost before_any = any;
            let mut i: usize = 0;
            while i < heights.len()
                invariant
                    th == tile_heights@,
                    k < n,
                    n == th.len(),
                    heights@ == th[k as int]@,
                    i <= heights@.len(),
                    (any == (before_any || exists|i2: int| 0 <= i2 < i && #[trigger] th[k as int]@[i2] != UNDEF)),
                    before_any == exists|j: int, i2: int| 0 <= j < k && 0 <= i2 < th[j]@.len() && #[trigger] th[j]@[i2] != UNDEF,
                    any ==> {
                        &&& exists|j: int, i2: int| 0 <= j <= k && 0 <= i2 < th[j]@.len() && (j < k || i2 < i)
                            && th[j]@[i2] != UNDEF && #[trigger] th[j]@[i2] == global_min
                        &&& forall|j: int, i2: int| 0 <= j <= k && 0 <= i2 < th[j]@.len() && (j < k || i2 < i)
                            && th[j]@[i2] != UNDEF ==> #[trigger] th[j]@[i2] >= global_min
                        &&& exists|j: int, i2: int| 0 <= j <= k && 0 <= i2 < th[j]@.len() && (j < k || i2 < i)
                            && th[j]@[i2] != UNDEF && #[trigger] th[j]@[i2] == global_max
                        &&& forall|j: int, i2: int| 0 <= j <= k && 0 <= i2 < th[j]@.len() && (j < k || i2 < i)
                            && th[j]@[i2] != UNDEF ==> #[trigger] th[j]@[i2] <= global_max
                    },
                    !any ==> global_min == i16::MAX && global_max == i16::MIN,
                decreases heights@.len() - i,
            {
                let h = heights[i];
                if h != UNDEF {
                    if !any {
                        global_min = h;
                        global_max = h;
                    } else {
                        if h < global_min {
                            global_min = h;
                        }
                        if h > global_max {
                            global_max = h;
                        }
                    }
                    any = true;
                }
                i += 1;
            }
            assert(tile_w * tile_h <= 127 * 127) by (nonlinear_arith)
                requires
                    tile_w <= 127,
                    tile_h <= 127,
            ;
            let result = encode_dem_tile(heights.as_slice(), tile_w, tile_h);
            assert(result.bitstream@.len() <= TILE_BITSTREAM_BOUND);
            tile_results.push(result);
            k += 1;
        }
        if !any {
            global_min = 0;
            global_max = 0;
        }
        proof {
            lemma_offset_bound(tile_results@, n as int);
        }
        let (record_desc, tile_desc_size) = calc_record_desc(tile_results.as_slice());
        DemSection {
            zoom_level,
            points_per_lat: STD_DIM,
            points_per_lon: STD_DIM,
            non_std_height: grid.non_std_height,
            non_std_width: grid.non_std_width,
            tiles_lat: grid.tiles_lat,
            tiles_lon: grid.tiles_lon,
            left: grid.left,
            top: grid.top,
            points_distance_lat: dist,
            points_distance_lon: dist,
            min_height: global_min,
            max_height: global_max,
            tile_results,
            flags: 0,
            record_desc,
            tile_desc_size,
        }
    }
}

proof fn lemma_offset_bound(tiles: Seq<DemTileResult>, n: int)
    requires
        0 <= n <= tiles.len(),
        forall|j: int| 0 <= j < tiles.len() ==> (#[trigger] tiles[j]).bitstream@.len() <= TILE_BITSTREAM_BOUND,
    ensures
        bitstream_offset(tiles, n) <= n * TILE_BITSTREAM_BOUND,
    decreases n,
{
    if n > 0 {
        lemma_offset_bound(tiles, n - 1);
    }
}

impl DemSection {
    /// The 60-byte section header with its descriptor and bitstream offsets.
    pub open spec fn header_spec(&self, data_offset: u32, data_offset2: u32) -> Seq<u8> {
        seq![0x00u8, self.zoom_level] + le32(self.points_per_lat) + le32(self.points_per_lon)
            + le32((self.non_std_height - 1) as u32) + le32((self.non_std_width - 1) as u32)
            + le16(self.flags) + le32((self.tiles_lon - 1) as u32) + le32((self.tiles_lat - 1) as u32)
            + le16(self.record_desc) + le16(self.tile_desc_size) + le32(data_offset) + le32(data_offset2)
            + le32(self.left) + le32(self.top) + le32(self.points_distance_lat)
            + le32(self.points_distance_lon) + le16(self.min_height as u16) + le16(self.max_height as u16)
    }

    /// Serialize the 60-byte section header.
    pub fn build_header(&self, data_offset: u32, data_offset2: u32) -> (r: Vec<u8>)
        requires
            self.non_std_height >= 1,
            self.non_std_width >= 1,
            self.tiles_lon >= 1,
            self.tiles_lat >= 1,
        ensures
            r@ == self.header_spec(data_offset, data_offset2),
            r@.len() == 60,
    {
        let mut buf: Vec<u8> = Vec::new();
        buf.push(0x00);
        buf.push(self.zoom_level);
        push_u32(&mut buf, self.points_per_lat);
        push_u32(&mut buf, self.points_per_lon);
        push_u32(&mut buf, self.non_std_height - 1);
        push_u32(&mut buf, self.non_std_width - 1);
        push_u16(&mut buf, self.flags);
        push_u32(&mut buf, self.tiles_lon - 1);
        push_u32(&mut buf, self.tiles_lat - 1);
        push_u16(&mut buf, self.record_desc);
        push_u16(&mut buf, self.tile_desc_size);
        push_u32(&mut buf, data_offset);
        push_u32(&mut buf, data_offset2);
        push_u32(&mut buf, self.left);
        push_u32(&mut buf, self.top);
        push_u32(&mut buf, self.points_distance_lat);
        push_u32(&mut buf, self.points_distance_lon);
        push_u16(&mut buf, self.min_height as u16);
        push_u16(&mut buf, self.max_height as u16);
        assert(buf@ =~= self.header_spec(data_offset, data_offset2));
        pad_to(&mut buf, 60);
        assert(buf@ =~= self.header_spec(data_offset, data_offset2));
        buf
    }

    /// The descriptors of every tile, in order.
    pub fn build_tile_descriptors(&self) -> (r: Vec<u8>)
        requires
            bitstream_offset(self.tile_results@, self.tile_results@.len() as int) <= u32::MAX,
        ensures
            r@ == descriptors(self.tile_results@, self.record_desc, self.tile_results@.len() as int),
    {
        let ghost ts = self.tile_results@;
        let rd = self.record_desc;
        let low = rd & 0x03;
        assert(low <= 3) by (bit_vector)
            requires
                low == rd & 0x03,
        ;
        let offset_size = (low + 1) as usize;
        let base_size: usize = if rd & 0x04 != 0 { 2 } else { 1 };
        let delta_size: usize = if rd & 0x08 != 0 { 2 } else { 1 };
        let has_extra = rd & 0x10 != 0;
        let mut buf: Vec<u8> = Vec::new();
        let mut bitstream_offset_exec: u32 = 0;
        let mut i: usize = 0;
        while i < self.tile_results.len()
            invariant
                ts == self.tile_results@,
                i <= ts.len(),
                offset_size == (rd & 3) + 1,
                offset_size <= 4,
                base_size == (if rd & 4 != 0 { 2usize } else { 1usize }),
                delta_size == (if rd & 8 != 0 { 2usize } else { 1usize }),
                has_extra == (rd & 0x10 != 0),
                rd == self.record_desc,
                bitstream_offset(ts, ts.len() as int) <= u32::MAX,
                bitstream_offset_exec == bitstream_offset(ts, i as int),
                buf@ == descriptors(ts, rd, i as int),
            decreases ts.len() - i,
        {
            let tile = &self.tile_results[i];
            let ghost start = buf@;
            write_le_n(&mut buf, bitstream_offset_exec, offset_size);
            write_le_n_signed(&mut buf, tile.base_height, base_size);
            write_le_n(&mut buf, tile.max_delta as u32, delta_size);
            if has_extra {
                buf.push(tile.encoding_type);
            }
            assert(buf@ =~= start + tile_descriptor(ts[i as int], bitstream_offset(ts, i as int), rd));
            proof {
                lemma_offset_mono(ts, i as int + 1, ts.len() as int);
            }
            bitstream_offset_exec += tile.bitstream.len() as u32;
            i += 1;
        }
        buf
    }

    /// The bitstreams of every tile, concatenated.
    pub fn build_bitstream_data(&self) -> (r: Vec<u8>)
        ensures
            r@ == bitstreams(self.tile_results@, self.tile_results@.len() as int),
    {
        let ghost ts = self.tile_results@;
        let mut buf: Vec<u8> = Vec::new();
        let mut i: usize = 0;
        while i < self.tile_results.len()
            invariant
                ts == self.tile_results@,
                i <= ts.len(),
                buf@ == bitstreams(ts, i as int),
            decreases ts.len() - i,
        {
            push_bytes(&mut buf, self.tile_results[i].bitstream.as_slice());
            i += 1;
        }
        buf
    }
}

} // verus!
