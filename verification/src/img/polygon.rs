//! Polygon records of the RGN subfile; the first point is rounded to the
//! nearest unit of the subdivision's resolution.
use vstd::prelude::*;
use crate::bytes::{le16, le24, push_u16, push_u24};
use crate::img::coord::Coord;
use crate::img::polyline::{first_delta, delta_exec, std_len_field, push_std_len, ext_record, write_ext_record};

verus! {

/// Half a unit of resolution `shift`: `(1 << shift) / 2` in 32-bit arithmetic.
pub open spec fn half_unit(shift: i32) -> i32 {
    if shift == 0 { 0i32 } else if shift == 31 { -0x4000_0000i32 } else { (1u32 << ((shift - 1) as u32)) as i32 }
}

fn half_unit_exec(shift: i32) -> (r: i32)
    requires
        0 <= shift < 32,
    ensures
        r == half_unit(shift),
{
    if shift == 0 {
        0
    } else if shift == 31 {
        -0x4000_0000
    } else {
        assert(1u32 << ((shift - 1) as u32) <= 0x4000_0000u32) by (bit_vector)
            requires 0 < shift < 31;
        (1u32 << ((shift - 1) as u32)) as i32
    }
}

/// A polygon of the map.
#[derive(Debug, Clone)]
pub struct Polygon {
    pub type_code: u32,
    pub label_offset: u32,
    pub points: Vec<Coord>,
}

impl Polygon {
    pub fn new(type_code: u32, points: Vec<Coord>) -> (p: Self)
        ensures
            p.type_code == type_code,
            p.points@ == points@,
            p.label_offset == 0,
    {
        Polygon { type_code, label_offset: 0, points }
    }

    /// The standard record: type byte (0x80 for a two-byte length), label,
    /// the rounded first-point deltas, bit stream length minus one, bit stream.
    pub open spec fn spec_write(&self, lat: i32, lon: i32, shift: i32, bitstream: Seq<u8>) -> Seq<u8> {
        let t0: u8 = (self.type_code & 0xFFu32) as u8;
        let tb: u8 = if bitstream.len() > 256 { t0 | 0x80u8 } else { t0 };
        let first = self.points@[0];
        seq![tb] + le24(self.label_offset) + le16(first_delta(first.longitude, lon, half_unit(shift), shift) as u16)
            + le16(first_delta(first.latitude, lat, half_unit(shift), shift) as u16)
            + std_len_field((bitstream.len() - 1) as usize) + bitstream
    }

    /// Write the standard record relative to a subdivision center.
    pub fn write(&self, subdiv_center_lat: i32, subdiv_center_lon: i32, shift: i32, bitstream: &[u8]) -> (r: Vec<u8>)
        requires
            self.points@.len() > 0,
            0 <= shift < 32,
            bitstream@.len() > 0,
        ensures
            r@ == self.spec_write(subdiv_center_lat, subdiv_center_lon, shift, bitstream@),
    {
        let mut buf: Vec<u8> = Vec::new();
        let t0: u8 = (self.type_code & 0xFF) as u8;
        let tb: u8 = if bitstream.len() > 256 { t0 | 0x80 } else { t0 };
        buf.push(tb);
        push_u24(&mut buf, self.label_offset);
        let half = half_unit_exec(shift);
        let first = &self.points[0];
        let dx = delta_exec(first.longitude, subdiv_center_lon, half, shift);
        let dy = delta_exec(first.latitude, subdiv_center_lat, half, shift);
        push_u16(&mut buf, dx as u16);
        push_u16(&mut buf, dy as u16);
        push_std_len(&mut buf, bitstream.len() - 1);
        crate::bytes::push_bytes(&mut buf, bitstream);
        assert(buf@ =~= self.spec_write(subdiv_center_lat, subdiv_center_lon, shift, bitstream@));
        buf
    }

    /// Write the extended record relative to a subdivision center.
    pub fn write_ext(&self, subdiv_center_lat: i32, subdiv_center_lon: i32, shift: i32, bitstream: &[u8]) -> (r: Vec<u8>)
        requires
            self.points@.len() > 0,
            0 <= shift < 32,
        ensures
            r@ == ext_record(self.type_code, self.label_offset,
                first_delta(self.points@[0].longitude, subdiv_center_lon, half_unit(shift), shift),
                first_delta(self.points@[0].latitude, subdiv_center_lat, half_unit(shift), shift), bitstream@),
    {
        let half = half_unit_exec(shift);
        let first = &self.points[0];
        let dx = delta_exec(first.longitude, subdiv_center_lon, half, shift);
        let dy = delta_exec(first.latitude, subdiv_center_lat, half, shift);
        write_ext_record(self.type_code, self.label_offset, dx, dy, bitstream)
    }
}

} // verus!
