//! Subdivisions of the TRE hierarchy and their 14- or 16-byte records.
use vstd::prelude::*;
use crate::bytes::{le16, le24, push_u16, push_u24};
use crate::img::area::{wadd, wsub};
use crate::img::coord::Coord;
use crate::img::polygon::half_unit;

verus! {

pub const HAS_POINTS: u8 = 0x10;
pub const HAS_IND_POINTS: u8 = 0x20;
pub const HAS_POLYLINES: u8 = 0x40;
pub const HAS_POLYGONS: u8 = 0x80;

/// Record size without children.
pub const SUBDIV_REC_SIZE: usize = 14;
/// Record size with the next-level pointer.
pub const SUBDIV_REC_SIZE_WITH_END: usize = 16;

/// A subdivision of the TRE hierarchy.
#[derive(Debug, Clone)]
pub struct Subdivision {
    /// 1-based subdivision number
    pub number: u16,
    pub zoom_level: u8,
    /// Bits per coordinate
    pub resolution: u8,
    /// Center in 24-bit map units
    pub center_lat: i32,
    pub center_lon: i32,
    /// Size in units of the resolution
    pub width: u16,
    pub height: u16,
    pub rgn_offset: u32,
    /// Content flags
    pub flags: u8,
    pub end_rgn_offset: u32,
    pub has_children: bool,
    /// Last subdivision of its level
    pub is_last: bool,
    pub parent: u16,
    pub children: Vec<u16>,
}

/// `val` rounded to the nearest multiple of `2^shift` (half up); unchanged
/// for `shift <= 0`.
pub open spec fn align_to_shift(val: i32, shift: i32) -> i32 {
    if shift <= 0 { val } else { (wadd(val, (1u32 << ((shift - 1) as u32)) as i32) >> shift) << shift }
}

fn align_to_shift_exec(val: i32, shift: i32) -> (r: i32)
    requires
        shift <= 24,
    ensures
        r == align_to_shift(val, shift),
{
    if shift <= 0 {
        return val;
    }
    assert(1u32 << ((shift - 1) as u32) <= 0x80_0000u32) by (bit_vector)
        requires 0 < shift <= 24;
    let half: i32 = (1u32 << ((shift - 1) as u32)) as i32;
    (val.wrapping_add(half) >> shift) << shift
}

impl Subdivision {
    pub fn new(number: u16, zoom_level: u8, resolution: u8) -> (s: Self)
        ensures
            s.number == number && s.zoom_level == zoom_level && s.resolution == resolution,
            s.center_lat == 0 && s.center_lon == 0 && s.width == 0 && s.height == 0,
            s.rgn_offset == 0 && s.flags == 0 && s.end_rgn_offset == 0,
            !s.has_children && !s.is_last && s.parent == 0 && s.children@.len() == 0,
    {
        Subdivision {
            number,
            zoom_level,
            resolution,
            center_lat: 0,
            center_lon: 0,
            width: 0,
            height: 0,
            rgn_offset: 0,
            flags: 0,
            end_rgn_offset: 0,
            has_children: false,
            is_last: false,
            parent: 0,
            children: Vec::new(),
        }
    }

    /// Set the center to `coord` aligned to the resolution's unit.
    pub fn set_center(&mut self, coord: &Coord)
        ensures
            final(self).center_lat == align_to_shift(coord.latitude, (24 - old(self).resolution) as i32),
            final(self).center_lon == align_to_shift(coord.longitude, (24 - old(self).resolution) as i32),
            final(self).resolution == old(self).resolution,
            final(self).width == old(self).width && final(self).height == old(self).height,
    {
        let shift: i32 = 24 - self.resolution as i32;
        self.center_lat = align_to_shift_exec(coord.latitude, shift);
        self.center_lon = align_to_shift_exec(coord.longitude, shift);
    }

    /// Size `max - min` in units of the resolution, at least 1.
    pub open spec fn spec_extent(min: i32, max: i32, resolution: u8) -> u16 {
        let w = (wsub(max, min) >> ((24 - resolution) as i32)) as u16;
        if w == 0 { 1 } else { w }
    }

    /// Set width and height from a bounding box.
    pub fn set_bounds(&mut self, min_lat: i32, min_lon: i32, max_lat: i32, max_lon: i32)
        requires
            old(self).resolution <= 24,
        ensures
            final(self).width == Self::spec_extent(min_lon, max_lon, old(self).resolution),
            final(self).height == Self::spec_extent(min_lat, max_lat, old(self).resolution),
            final(self).resolution == old(self).resolution,
            final(self).center_lat == old(self).center_lat && final(self).center_lon == old(self).center_lon,
    {
        let shift: i32 = 24 - self.resolution as i32;
        let w = (max_lon.wrapping_sub(min_lon) >> shift) as u16;
        let h = (max_lat.wrapping_sub(min_lat) >> shift) as u16;
        self.width = if w == 0 { 1 } else { w };
        self.height = if h == 0 { 1 } else { h };
    }

    /// `(v - center + half unit) >> shift`: a coordinate in local units, rounded.
    pub open spec fn spec_local(v: i32, center: i32, resolution: u8) -> i32 {
        let shift = (24 - resolution) as i32;
        wadd(wsub(v, center), half_unit(shift)) >> shift
    }

    /// A latitude in local units of this subdivision, rounded to nearest.
    pub fn round_lat_to_local_shifted(&self, lat: i32) -> (r: i32)
        requires
            self.resolution <= 24,
        ensures
            r == Self::spec_local(lat, self.center_lat, self.resolution),
    {
        let shift: i32 = 24 - self.resolution as i32;
        let half = half_of(shift);
        lat.wrapping_sub(self.center_lat).wrapping_add(half) >> shift
    }

    /// A longitude in local units of this subdivision, rounded to nearest.
    pub fn round_lon_to_local_shifted(&self, lon: i32) -> (r: i32)
        requires
            self.resolution <= 24,
        ensures
            r == Self::spec_local(lon, self.center_lon, self.resolution),
    {
        let shift: i32 = 24 - self.resolution as i32;
        let half = half_of(shift);
        lon.wrapping_sub(self.center_lon).wrapping_add(half) >> shift
    }

    /// The record: RGN offset (3 bytes), flags, center longitude and
    /// latitude (3 bytes each), width with 0x8000 on the last subdivision,
    /// height, and with children the number of the first child.
    pub open spec fn spec_write(&self) -> Seq<u8> {
        let w: u16 = if self.is_last { self.width | 0x8000u16 } else { self.width };
        let first_child: u16 = if self.children@.len() == 0 { 0 } else { self.children@[0] };
        le24(self.rgn_offset) + seq![self.flags] + le24(self.center_lon as u32) + le24(self.center_lat as u32)
            + le16(w) + le16(self.height) + if self.has_children { le16(first_child) } else { Seq::empty() }
    }

    pub open spec fn spec_record_size(&self) -> usize {
        if self.has_children { SUBDIV_REC_SIZE_WITH_END } else { SUBDIV_REC_SIZE }
    }

    /// Write the record; its length is the record size.
    pub fn write(&self) -> (r: Vec<u8>)
        ensures
            r@ == self.spec_write(),
            r@.len() == self.spec_record_size(),
    {
        let mut buf: Vec<u8> = Vec::new();
        push_u24(&mut buf, self.rgn_offset);
        buf.push(self.flags);
        push_u24(&mut buf, self.center_lon as u32);
        push_u24(&mut buf, self.center_lat as u32);
        let w: u16 = if self.is_last { self.width | 0x8000 } else { self.width };
        push_u16(&mut buf, w);
        push_u16(&mut buf, self.height);
        if self.has_children {
            let first_child: u16 = if self.children.len() == 0 { 0 } else { self.children[0] };
            push_u16(&mut buf, first_child);
        }
        assert(buf@ =~= self.spec_write());
        buf
    }

    /// 16 bytes with children, else 14.
    pub fn record_size(&self) -> (r: usize)
        ensures
            r == self.spec_record_size(),
    {
        if self.has_children { SUBDIV_REC_SIZE_WITH_END } else { SUBDIV_REC_SIZE }
    }
}

/// `(1 << shift) / 2` for `0 <= shift <= 24`.
fn half_of(shift: i32) -> (r: i32)
    requires
        0 <= shift <= 24,
    ensures
        r == half_unit(shift),
{
    if shift == 0 {
        0
    } else {
        assert(1u32 << ((shift - 1) as u32) <= 0x80_0000u32) by (bit_vector)
            requires 0 < shift <= 24;
        (1u32 << ((shift - 1) as u32)) as i32
    }
}

} // verus!
