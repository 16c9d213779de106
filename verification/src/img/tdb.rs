//! The TDB companion file: product, copyright, overview and per-tile
//! detail blocks.
use vstd::prelude::*;
use vstd::utf8::encode_utf8;
use crate::bytes::{le16, le32, push_u16, push_u32};
use crate::img::mps::{block, write_block};
use crate::img::labelenc::format9::spec_encode;

verus! {

pub const BLOCK_PRODUCT: u8 = 0x50;
pub const BLOCK_COPYRIGHT: u8 = 0x44;
pub const BLOCK_OVERVIEW: u8 = 0x42;
pub const BLOCK_DETAIL: u8 = 0x4C;
/// TDB format version 4.07.
pub const TDB_V407: u16 = 407;

/// TDB writer.
pub struct TdbWriter {
    pub family_id: u16,
    pub product_id: u16,
    pub product_version: u16,
    pub series_name: String,
    pub family_name: String,
    pub area_name: String,
    pub copyright: String,
    pub country_name: String,
    pub country_abbr: String,
    pub region_name: String,
    pub region_abbr: String,
    pub overview_map_number: u32,
    pub tiles: Vec<TdbTile>,
    pub codepage: u16,
    /// Elevation profiles available (DEM present)
    pub enable_profile: bool,
}

/// A tile of the TDB.
pub struct TdbTile {
    pub map_number: u32,
    pub parent_map_number: u32,
    pub description: String,
    /// Bounds in 24-bit map units
    pub north: i32,
    pub south: i32,
    pub east: i32,
    pub west: i32,
    /// Subfile names and sizes
    pub subfiles: Vec<(String, u32)>,
}

/// A text in the codepage (a single-byte codepage other than 65001),
/// else in UTF-8; without terminator.
pub open spec fn tdb_text(codepage: u16, s: Seq<char>) -> Seq<u8> {
    if codepage > 0 && codepage != 65001 { spec_encode(s, codepage).drop_last() } else { encode_utf8(s) }
}

/// A bound in 32-bit units: the 24-bit value shifted left by 8.
pub open spec fn shifted(v: i32) -> i32 {
    v << 8i32
}

/// The product block.
pub open spec fn product_data(w: TdbWriter) -> Seq<u8> {
    le16(w.product_id) + le16(w.family_id) + le16(TDB_V407) + tdb_text(w.codepage, w.series_name@) + seq![0u8]
        + le16(w.product_version) + tdb_text(w.codepage, w.family_name@) + seq![0u8]
        + seq![0x00u8, 0x12u8, 0x01u8, 0x01u8, 0x01u8] + le32(0) + seq![0x00u8, 0x18u8] + le32(0) + le32(0) + le32(0)
        + le32(0) + seq![0u8, 0u8, 0u8] + le32(w.codepage as u32) + le32(10000) + seq![0x01u8, if w.enable_profile { 1u8 } else { 0u8 }, 0u8]
}

/// The overall bounds of the tiles `(north, east, south, west)` in 32-bit
/// units; all 0 without tiles.
pub open spec fn overall_bounds(tiles: Seq<TdbTile>) -> (i32, i32, i32, i32)
    decreases tiles.len(),
{
    if tiles.len() == 0 {
        (i32::MIN, i32::MIN, i32::MAX, i32::MAX)
    } else {
        let b = overall_bounds(tiles.drop_last());
        let t = tiles.last();
        let (n, e, s, w) = (shifted(t.north), shifted(t.east), shifted(t.south), shifted(t.west));
        (if n > b.0 { n } else { b.0 }, if e > b.1 { e } else { b.1 }, if s < b.2 { s } else { b.2 }, if w < b.3 { w } else { b.3 })
    }
}

/// The overview block data.
pub open spec fn overview_data(w: TdbWriter) -> Seq<u8> {
    let b = if w.tiles@.len() == 0 { (0i32, 0i32, 0i32, 0i32) } else { overall_bounds(w.tiles@) };
    le32(w.overview_map_number) + le32(0) + le32(b.0 as u32) + le32(b.1 as u32) + le32(b.2 as u32) + le32(b.3 as u32)
        + tdb_text(w.codepage, w.series_name@) + seq![0u8]
}

pub open spec fn subfile_sizes(s: Seq<(String, u32)>) -> Seq<u8>
    decreases s.len(),
{
    if s.len() == 0 { Seq::empty() } else { subfile_sizes(s.drop_last()) + le32(s.last().1) }
}

pub open spec fn subfile_names(s: Seq<(String, u32)>) -> Seq<u8>
    decreases s.len(),
{
    if s.len() == 0 { Seq::empty() } else { subfile_names(s.drop_last()) + encode_utf8(s.last().0@) + seq![0u8] }
}

/// The detail block data of a tile: numbers, bounds in 32-bit units,
/// description, subfile count plus one and count, sizes, the constant
/// 0xff00c301 with three zero bytes, then the null-terminated names.
pub open spec fn detail_data(codepage: u16, t: TdbTile) -> Seq<u8> {
    let n = t.subfiles@.len();
    le32(t.map_number) + le32(t.parent_map_number) + le32(shifted(t.north) as u32) + le32(shifted(t.east) as u32)
        + le32(shifted(t.south) as u32) + le32(shifted(t.west) as u32) + tdb_text(codepage, t.description@) + seq![0u8]
        + le16(vstd::wrapping::u16_specs::wrapping_add(n as u16, 1)) + le16(n as u16) + subfile_sizes(t.subfiles@)
        + le32(0xff00c301u32) + seq![0u8, 0u8, 0u8] + subfile_names(t.subfiles@)
}

pub open spec fn detail_blocks(codepage: u16, tiles: Seq<TdbTile>) -> Seq<u8>
    decreases tiles.len(),
{
    if tiles.len() == 0 { Seq::empty() } else { detail_blocks(codepage, tiles.drop_last()) + block(BLOCK_DETAIL, detail_data(codepage, tiles.last())) }
}

/// The TDB file.
pub open spec fn tdb_file(w: TdbWriter) -> Seq<u8> {
    block(BLOCK_PRODUCT, product_data(w))
        + (if w.copyright@.len() > 0 { block(BLOCK_COPYRIGHT, tdb_text(w.codepage, w.copyright@) + seq![0u8]) } else { Seq::empty() })
        + block(BLOCK_OVERVIEW, overview_data(w)) + detail_blocks(w.codepage, w.tiles@)
}

impl TdbWriter {
    pub fn new(family_id: u16, product_id: u16) -> (w: Self)
        ensures
            w.family_id == family_id && w.product_id == product_id && w.product_version == 100,
            w.series_name@.len() == 0 && w.family_name@.len() == 0 && w.area_name@.len() == 0,
            w.copyright@.len() == 0 && w.country_name@.len() == 0 && w.country_abbr@.len() == 0,
            w.region_name@.len() == 0 && w.region_abbr@.len() == 0,
            w.overview_map_number == 0 && w.tiles@.len() == 0 && w.codepage == 0 && !w.enable_profile,
    {
        TdbWriter {
            family_id,
            product_id,
            product_version: 100,
            series_name: String::new(),
            family_name: String::new(),
            area_name: String::new(),
            copyright: String::new(),
            country_name: String::new(),
            country_abbr: String::new(),
            region_name: String::new(),
            region_abbr: String::new(),
            overview_map_number: 0,
            tiles: Vec::new(),
            codepage: 0,
            enable_profile: false,
        }
    }

    /// Append a text in the writer's codepage (without terminator).
    fn push_text(&self, buf: &mut Vec<u8>, s: &str)
        ensures
            final(buf)@ == old(buf)@ + tdb_text(self.codepage, s@),
    {
        if self.codepage > 0 && self.codepage != 65001 {
            let encoded = crate::img::labelenc::format9::encode(s, self.codepage);
            let mut i: usize = 0;
            let ghost start = buf@;
            assert(encoded@.len() >= 1);
            let limit = encoded.len() - 1;
            while i < limit
                invariant
                    encoded@ == spec_encode(s@, self.codepage),
                    limit == encoded@.len() - 1,
                    i <= limit,
                    buf@ == start + encoded@.take(i as int),
                decreases encoded@.len() - i,
            {
                buf.push(encoded[i]);
                assert(buf@ =~= start + encoded@.take(i + 1));
                i = i + 1;
            }
            assert(encoded@.take(i as int) =~= encoded@.drop_last());
        } else {
            crate::bytes::push_bytes(buf, s.as_bytes());
        }
    }

    pub fn add_tile(&mut self, tile: TdbTile)
        ensures
            final(self).tiles@ == old(self).tiles@.push(tile),
    {
        self.tiles.push(tile);
    }

    fn write_product_block(&self, buf: &mut Vec<u8>)
        ensures
            final(buf)@ == old(buf)@ + block(BLOCK_PRODUCT, product_data(*self)),
    {
        let mut data: Vec<u8> = Vec::new();
        push_u16(&mut data, self.product_id);
        push_u16(&mut data, self.family_id);
        push_u16(&mut data, TDB_V407);
        self.push_text(&mut data, self.series_name.as_str());
        data.push(0);
        push_u16(&mut data, self.product_version);
        self.push_text(&mut data, self.family_name.as_str());
        data.push(0);
        data.push(0x00);
        data.push(0x12);
        data.push(0x01);
        data.push(0x01);
        data.push(0x01);
        push_u32(&mut data, 0);
        data.push(0x00);
        data.push(0x18);
        push_u32(&mut data, 0);
        push_u32(&mut data, 0);
        push_u32(&mut data, 0);
        push_u32(&mut data, 0);
        data.push(0);
        data.push(0);
        data.push(0);
        push_u32(&mut data, self.codepage as u32);
        push_u32(&mut data, 10000);
        data.push(0x01);
        data.push(if self.enable_profile { 0x01 } else { 0x00 });
        data.push(0x00);
        assert(data@ =~= product_data(*self));
        write_block(buf, BLOCK_PRODUCT, data.as_slice());
    }

    /// The overall bounds of the tiles in 32-bit units (all 0 without tiles).
    fn compute_overall_bounds(&self) -> (r: (i32, i32, i32, i32))
        ensures
            r == if self.tiles@.len() == 0 { (0i32, 0i32, 0i32, 0i32) } else { overall_bounds(self.tiles@) },
    {
        if self.tiles.len() == 0 {
            return (0, 0, 0, 0);
        }
        let mut max_lat = i32::MIN;
        let mut max_lon = i32::MIN;
        let mut min_lat = i32::MAX;
        let mut min_lon = i32::MAX;
        let mut i: usize = 0;
        while i < self.tiles.len()
            invariant
                i <= self.tiles@.len(),
                (max_lat, max_lon, min_lat, min_lon) == overall_bounds(self.tiles@.take(i as int)),
            decreases self.tiles@.len() - i,
        {
            let t = &self.tiles[i];
            let n = t.north << 8i32;
            let e = t.east << 8i32;
            let s = t.south << 8i32;
            let w = t.west << 8i32;
            assert(self.tiles@.take(i + 1).drop_last() =~= self.tiles@.take(i as int));
            if n > max_lat { max_lat = n; }
            if e > max_lon { max_lon = e; }
            if s < min_lat { min_lat = s; }
            if w < min_lon { min_lon = w; }
            i = i + 1;
        }
        assert(self.tiles@.take(self.tiles@.len() as int) =~= self.tiles@);
        (max_lat, max_lon, min_lat, min_lon)
    }

    fn write_detail_block(&self, buf: &mut Vec<u8>, tile: &TdbTile)
        ensures
            final(buf)@ == old(buf)@ + block(BLOCK_DETAIL, detail_data(self.codepage, *tile)),
    {
        let mut data: Vec<u8> = Vec::new();
        push_u32(&mut data, tile.map_number);
        push_u32(&mut data, tile.parent_map_number);
        push_u32(&mut data, (tile.north << 8i32) as u32);
        push_u32(&mut data, (tile.east << 8i32) as u32);
        push_u32(&mut data, (tile.south << 8i32) as u32);
        push_u32(&mut data, (tile.west << 8i32) as u32);
        self.push_text(&mut data, tile.description.as_str());
        data.push(0);
        let n = tile.subfiles.len();
        push_u16(&mut data, (n as u16).wrapping_add(1));
        push_u16(&mut data, n as u16);
        let ghost head = data@;
        let mut i: usize = 0;
        while i < n
            invariant
                n == tile.subfiles@.len(),
                i <= n,
                data@ == head + subfile_sizes(tile.subfiles@.take(i as int)),
            decreases n - i,
        {
            assert(tile.subfiles@.take(i + 1).drop_last() =~= tile.subfiles@.take(i as int));
            push_u32(&mut data, tile.subfiles[i].1);
            i = i + 1;
        }
        assert(tile.subfiles@.take(n as int) =~= tile.subfiles@);
        push_u32(&mut data, 0xff00c301);
        data.push(0);
        data.push(0);
        data.push(0);
        let ghost mid = data@;
        i = 0;
        while i < n
            invariant
                n == tile.subfiles@.len(),
                i <= n,
                data@ == mid + subfile_names(tile.subfiles@.take(i as int)),
            decreases n - i,
        {
            assert(tile.subfiles@.take(i + 1).drop_last() =~= tile.subfiles@.take(i as int));
            crate::bytes::push_bytes(&mut data, tile.subfiles[i].0.as_str().as_bytes());
            data.push(0);
            assert(data@ =~= mid + subfile_names(tile.subfiles@.take(i + 1)));
            i = i + 1;
        }
        assert(data@ =~= detail_data(self.codepage, *tile));
        write_block(buf, BLOCK_DETAIL, data.as_slice());
    }

    /// Append the copyright block: the copyright text, null-terminated.
    fn write_copyright_block(&self, buf: &mut Vec<u8>)
        ensures
            final(buf)@ == old(buf)@ + block(BLOCK_COPYRIGHT, tdb_text(self.codepage, self.copyright@) + seq![0u8]),
    {
        let mut data: Vec<u8> = Vec::new();
        self.push_text(&mut data, self.copyright.as_str());
        data.push(0);
        assert(data@ =~= tdb_text(self.codepage, self.copyright@) + seq![0u8]);
        write_block(buf, BLOCK_COPYRIGHT, data.as_slice());
    }

    /// Append the overview block: overview map number, parent 0, overall
    /// bounds, and the series name, null-terminated.
    fn write_overview_block(&self, buf: &mut Vec<u8>)
        ensures
            final(buf)@ == old(buf)@ + block(BLOCK_OVERVIEW, overview_data(*self)),
    {
        let mut data: Vec<u8> = Vec::new();
        push_u32(&mut data, self.overview_map_number);
        push_u32(&mut data, 0);
        let (north, east, south, west) = self.compute_overall_bounds();
        push_u32(&mut data, north as u32);
        push_u32(&mut data, east as u32);
        push_u32(&mut data, south as u32);
        push_u32(&mut data, west as u32);
        self.push_text(&mut data, self.series_name.as_str());
        data.push(0);
        assert(data@ =~= overview_data(*self));
        write_block(buf, BLOCK_OVERVIEW, data.as_slice());
    }

    /// The TDB file: product block, copyright block when there is a
    /// copyright, overview block, and one detail block per tile.
    pub fn build(&self) -> (r: Vec<u8>)
        ensures
            r@ == tdb_file(*self),
    {
        let mut buf: Vec<u8> = Vec::new();
        self.write_product_block(&mut buf);
        if self.copyright.as_str().unicode_len() > 0 {
            self.write_copyright_block(&mut buf);
        }
        self.write_overview_block(&mut buf);
        let ghost head = buf@;
        let mut i: usize = 0;
        while i < self.tiles.len()
            invariant
                i <= self.tiles@.len(),
                buf@ == head + detail_blocks(self.codepage, self.tiles@.take(i as int)),
            decreases self.tiles@.len() - i,
        {
            assert(self.tiles@.take(i + 1).drop_last() =~= self.tiles@.take(i as int));
            self.write_detail_block(&mut buf, &self.tiles[i]);
            assert(buf@ =~= head + detail_blocks(self.codepage, self.tiles@.take(i + 1)));
            i = i + 1;
        }
        assert(self.tiles@.take(self.tiles@.len() as int) =~= self.tiles@);
        buf
    }
}

} // verus!
