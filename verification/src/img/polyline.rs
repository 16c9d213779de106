//! Polyline records of the RGN subfile, in the standard and the extended
//! type layout.
use vstd::prelude::*;
use crate::bytes::{le16, le24, push_u16, push_u24};
use crate::img::area::wsub;
use crate::img::coord::Coord;

verus! {

/// `v` clamped to the 16-bit signed range.
pub open spec fn clamp16(v: i32) -> i16 {
    (if v < -32768 { -32768int } else if v > 32767 { 32767int } else { v as int }) as i16
}

/// Offset of a first point from the subdivision center, scaled down by
/// `shift` bits and clamped to 16 bits.
pub open spec fn first_delta(v: i32, center: i32, bias: i32, shift: i32) -> i16 {
    clamp16(vstd::wrapping::i32_specs::wrapping_add(wsub(v, center), bias) >> shift)
}

/// The length field of an extended record: `(len << 1) | 1` in one byte
/// below 0x80, else `(len << 2) | 2` in two bytes.
pub open spec fn ext_len_field(len: usize) -> Seq<u8> {
    if len < 0x80 {
        seq![(((len as u64) << 1u64) | 1) as u8]
    } else {
        le16((((len as u64) << 2u64) | 2) as u16)
    }
}

/// The length field of a standard record: `len - 1` in one byte below 256,
/// else in two bytes.
pub open spec fn std_len_field(blen: usize) -> Seq<u8> {
    if blen >= 256 { le16(blen as u16) } else { seq![blen as u8] }
}

/// `clamp16((v - center + bias) >> shift)`.
pub fn delta_exec(v: i32, center: i32, bias: i32, shift: i32) -> (r: i16)
    requires
        0 <= shift < 32,
    ensures
        r == first_delta(v, center, bias, shift),
{
    let d: i32 = v.wrapping_sub(center).wrapping_add(bias) >> shift;
    let c: i32 = if d < -32768 { -32768 } else if d > 32767 { 32767 } else { d };
    c as i16
}

/// Append an extended record's length field.
pub fn push_ext_len(buf: &mut Vec<u8>, len: usize)
    ensures
        final(buf)@ == old(buf)@ + ext_len_field(len),
{
    let l: u64 = len as u64;
    if len < 0x80 {
        buf.push(((l << 1u64) | 1) as u8);
        assert(final(buf)@ =~= old(buf)@ + ext_len_field(len));
    } else {
        push_u16(buf, ((l << 2u64) | 2) as u16);
    }
}

/// Append a standard record's length field.
pub fn push_std_len(buf: &mut Vec<u8>, blen: usize)
    ensures
        final(buf)@ == old(buf)@ + std_len_field(blen),
{
    if blen >= 256 {
        push_u16(buf, blen as u16);
    } else {
        buf.push(blen as u8);
        assert(final(buf)@ =~= old(buf)@ + std_len_field(blen));
    }
}

/// The two type bytes of an extended record: the type's second byte, then
/// its low 5 bits with 0x20 when it has a label.
pub open spec fn ext_type_bytes(type_code: u32, has_label: bool) -> Seq<u8> {
    let low: u8 = (type_code & 0x1Fu32) as u8;
    seq![((type_code >> 8u32) & 0xFFu32) as u8, if has_label { low | 0x20u8 } else { low }]
}

/// An extended (two-byte type) record: type, first-point deltas, length,
/// bit stream, then the label when there is one.
pub open spec fn ext_record(type_code: u32, label: u32, dx: i16, dy: i16, bitstream: Seq<u8>) -> Seq<u8> {
    ext_type_bytes(type_code, label > 0) + le16(dx as u16) + le16(dy as u16)
        + ext_len_field(bitstream.len() as usize) + bitstream
        + if label > 0 { le24(label) } else { Seq::empty() }
}

/// Write an extended record.
pub fn write_ext_record(type_code: u32, label: u32, dx: i16, dy: i16, bitstream: &[u8]) -> (r: Vec<u8>)
    ensures
        r@ == ext_record(type_code, label, dx, dy, bitstream@),
{
    let mut buf: Vec<u8> = Vec::new();
    let has_label = label > 0;
    let low: u8 = (type_code & 0x1F) as u8;
    buf.push(((type_code >> 8u32) & 0xFF) as u8);
    buf.push(if has_label { low | 0x20 } else { low });
    push_u16(&mut buf, dx as u16);
    push_u16(&mut buf, dy as u16);
    push_ext_len(&mut buf, bitstream.len());
    crate::bytes::push_bytes(&mut buf, bitstream);
    if has_label {
        push_u24(&mut buf, label);
    }
    assert(buf@ =~= ext_record(type_code, label, dx, dy, bitstream@));
    buf
}

/// A polyline of the map.
#[derive(Debug, Clone)]
pub struct Polyline {
    pub type_code: u32,
    pub label_offset: u32,
    pub points: Vec<Coord>,
    pub direction: bool,
    pub has_net_info: bool,
    pub net_offset: u32,
    pub road_id: Option<u32>,
}

impl Polyline {
    pub fn new(type_code: u32, points: Vec<Coord>) -> (p: Self)
        ensures
            p.type_code == type_code,
            p.points@ == points@,
            p.label_offset == 0 && !p.direction && !p.has_net_info && p.net_offset == 0,
            p.road_id is None,
    {
        Polyline { type_code, label_offset: 0, points, direction: false, has_net_info: false, net_offset: 0, road_id: None }
    }

    /// The standard record: type byte (0x40 one-way, 0x80 two-byte length),
    /// label with 0x400000 for the extra bit and 0x800000 for NET info, the
    /// first point's deltas, the length of bit stream plus NET offset minus
    /// one, the bit stream, and the NET offset.
    pub open spec fn spec_write(&self, lat: i32, lon: i32, shift: i32, bitstream: Seq<u8>, extra_bit: bool) -> Seq<u8> {
        let total: int = if self.has_net_info { bitstream.len() + 3int } else { bitstream.len() as int };
        let t0: u8 = (self.type_code & 0xFFu32) as u8;
        let t1: u8 = if self.direction { t0 | 0x40u8 } else { t0 };
        let tb: u8 = if total > 256 { t1 | 0x80u8 } else { t1 };
        let l1: u32 = if extra_bit { self.label_offset | 0x40_0000u32 } else { self.label_offset };
        let lbl: u32 = if self.has_net_info { l1 | 0x80_0000u32 } else { l1 };
        let first = self.points@[0];
        seq![tb] + le24(lbl) + le16(first_delta(first.longitude, lon, 0, shift) as u16)
            + le16(first_delta(first.latitude, lat, 0, shift) as u16)
            + std_len_field((total - 1) as usize) + bitstream
            + if self.has_net_info { le24(self.net_offset) } else { Seq::empty() }
    }

    /// The label field of a standard record (bytes 1 to 3, little-endian)
    /// carries the label offset in its low 22 bits, bit 0x400000 when the
    /// bit stream has an extra bit per point (or the offset has it), and bit
    /// 0x800000 when NET info follows (or the offset has it).
    pub proof fn lemma_write_label_field(&self, lat: i32, lon: i32, shift: i32, bitstream: Seq<u8>, extra_bit: bool)
        requires
            self.points@.len() > 0,
        ensures
            ({
                let r = self.spec_write(lat, lon, shift, bitstream, extra_bit);
                let v = crate::bytes::u24_of(r[1], r[2], r[3]);
                &&& r.len() >= 4
                &&& v & 0x3F_FFFFu32 == self.label_offset & 0x3F_FFFFu32
                &&& ((v & 0x40_0000u32) != 0) == (extra_bit || (self.label_offset & 0x40_0000u32) != 0)
                &&& ((v & 0x80_0000u32) != 0) == (self.has_net_info || (self.label_offset & 0x80_0000u32) != 0)
            }),
    {
        let r = self.spec_write(lat, lon, shift, bitstream, extra_bit);
        let lo = self.label_offset;
        let l1: u32 = if extra_bit { lo | 0x40_0000u32 } else { lo };
        let lbl: u32 = if self.has_net_info { l1 | 0x80_0000u32 } else { l1 };
        assert(r[1] == le24(lbl)[0] && r[2] == le24(lbl)[1] && r[3] == le24(lbl)[2]);
        crate::bytes::lemma_le24_roundtrip(lbl);
        let v = lbl & 0xFF_FFFFu32;
        let e = extra_bit;
        let n = self.has_net_info;
        assert(v & 0x3F_FFFFu32 == lo & 0x3F_FFFFu32) by (bit_vector)
            requires v == lbl & 0xFF_FFFFu32, l1 == (if e { lo | 0x40_0000u32 } else { lo }),
                lbl == (if n { l1 | 0x80_0000u32 } else { l1 });
        assert(((v & 0x40_0000u32) != 0) == (e || (lo & 0x40_0000u32) != 0)) by (bit_vector)
            requires v == lbl & 0xFF_FFFFu32, l1 == (if e { lo | 0x40_0000u32 } else { lo }),
                lbl == (if n { l1 | 0x80_0000u32 } else { l1 });
        assert(((v & 0x80_0000u32) != 0) == (n || (lo & 0x80_0000u32) != 0)) by (bit_vector)
            requires v == lbl & 0xFF_FFFFu32, l1 == (if e { lo | 0x40_0000u32 } else { lo }),
                lbl == (if n { l1 | 0x80_0000u32 } else { l1 });
    }

    /// Write the standard record relative to a subdivision center.
    pub fn write(&self, subdiv_center_lat: i32, subdiv_center_lon: i32, shift: i32, bitstream: &[u8], extra_bit: bool) -> (r: Vec<u8>)
        requires
            self.points@.len() > 0,
            0 <= shift < 32,
            self.has_net_info || bitstream@.len() > 0,
            bitstream@.len() + 3 <= usize::MAX,
        ensures
            r@ == self.spec_write(subdiv_center_lat, subdiv_center_lon, shift, bitstream@, extra_bit),
    {
        let mut buf: Vec<u8> = Vec::new();
        let total_len: usize = if self.has_net_info { bitstream.len() + 3 } else { bitstream.len() };
        let t0: u8 = (self.type_code & 0xFF) as u8;
        let t1: u8 = if self.direction { t0 | 0x40 } else { t0 };
        let tb: u8 = if total_len > 256 { t1 | 0x80 } else { t1 };
        buf.push(tb);
        let l1: u32 = if extra_bit { self.label_offset | 0x40_0000 } else { self.label_offset };
        let lbl: u32 = if self.has_net_info { l1 | 0x80_0000 } else { l1 };
        push_u24(&mut buf, lbl);
        let first = &self.points[0];
        let dx = delta_exec(first.longitude, subdiv_center_lon, 0, shift);
        let dy = delta_exec(first.latitude, subdiv_center_lat, 0, shift);
        push_u16(&mut buf, dx as u16);
        push_u16(&mut buf, dy as u16);
        push_std_len(&mut buf, total_len - 1);
        crate::bytes::push_bytes(&mut buf, bitstream);
        if self.has_net_info {
            push_u24(&mut buf, self.net_offset);
        }
        assert(buf@ =~= self.spec_write(subdiv_center_lat, subdiv_center_lon, shift, bitstream@, extra_bit));
        buf
    }

    /// Write the extended record relative to a subdivision center.
    pub fn write_ext(&self, subdiv_center_lat: i32, subdiv_center_lon: i32, shift: i32, bitstream: &[u8]) -> (r: Vec<u8>)
        requires
            self.points@.len() > 0,
            0 <= shift < 32,
        ensures
            r@ == ext_record(self.type_code, self.label_offset,
                first_delta(self.points@[0].longitude, subdiv_center_lon, 0, shift),
                first_delta(self.points@[0].latitude, subdiv_center_lat, 0, shift), bitstream@),
    {
        let first = &self.points[0];
        let dx = delta_exec(first.longitude, subdiv_center_lon, 0, shift);
        let dy = delta_exec(first.latitude, subdiv_center_lat, 0, shift);
        write_ext_record(self.type_code, self.label_offset, dx, dy, bitstream)
    }

    /// Whether the polyline is a road.
    pub fn is_road(&self) -> (r: bool)
        ensures
            r == self.road_id is Some,
    {
        self.road_id.is_some()
    }
}

} // verus!
