//! The GMP container: the TRE, RGN, LBL, NET, NOD and DEM subfiles of a
//! tile in one blob, with their header offsets relocated into it.
use vstd::prelude::*;
use crate::bytes::{le16, le32, u32_of, push_u16, push_u32};
use crate::img::common_header::{calendar, unix_to_calendar};

verus! {

pub const GMP_HEADER_LEN: u16 = 0x3D;

/// The copyright block: two null-terminated strings, 179 bytes.
pub const GMP_COPYRIGHT: [u8; 179] = [
    0x43, 0x6F, 0x70, 0x79, 0x72, 0x69, 0x67, 0x68, 0x74, 0x20, 0x47, 0x61, 0x72, 0x6D, 0x69, 0x6E,
    0x20, 0x4C, 0x74, 0x64, 0x2E, 0x20, 0x6F, 0x72, 0x20, 0x69, 0x74, 0x73, 0x20, 0x73, 0x75, 0x62,
    0x73, 0x69, 0x64, 0x69, 0x61, 0x72, 0x69, 0x65, 0x73, 0x2E, 0x20, 0x20, 0x41, 0x6C, 0x6C, 0x20,
    0x72, 0x69, 0x67, 0x68, 0x74, 0x73, 0x20, 0x72, 0x65, 0x73, 0x65, 0x72, 0x76, 0x65, 0x64, 0x2E,
    0x00, 0x43, 0x6F, 0x70, 0x79, 0x69, 0x6E, 0x67, 0x20, 0x69, 0x73, 0x20, 0x65, 0x78, 0x70, 0x72,
    0x65, 0x73, 0x73, 0x6C, 0x79, 0x20, 0x70, 0x72, 0x6F, 0x68, 0x69, 0x62, 0x69, 0x74, 0x65, 0x64,
    0x20, 0x61, 0x6E, 0x64, 0x20, 0x6D, 0x61, 0x79, 0x20, 0x72, 0x65, 0x73, 0x75, 0x6C, 0x74, 0x20,
    0x69, 0x6E, 0x20, 0x63, 0x72, 0x69, 0x6D, 0x69, 0x6E, 0x61, 0x6C, 0x20, 0x63, 0x68, 0x61, 0x72,
    0x67, 0x65, 0x73, 0x20, 0x61, 0x6E, 0x64, 0x2F, 0x6F, 0x72, 0x20, 0x63, 0x69, 0x76, 0x69, 0x6C,
    0x20, 0x61, 0x63, 0x74, 0x69, 0x6F, 0x6E, 0x20, 0x62, 0x65, 0x69, 0x6E, 0x67, 0x20, 0x62, 0x72,
    0x6F, 0x75, 0x67, 0x68, 0x74, 0x20, 0x61, 0x67, 0x61, 0x69, 0x6E, 0x73, 0x74, 0x20, 0x79, 0x6F,
    0x75, 0x2E, 0x00,
];

/// `blob` with the 32-bit little-endian value at `pos` increased by
/// `delta` (wrapping), unless it is 0 or does not fit in the blob.
pub open spec fn patch_u32(blob: Seq<u8>, pos: int, delta: u32) -> Seq<u8> {
    if pos < 0 || pos + 4 > blob.len() {
        blob
    } else {
        let v = u32_of(blob[pos], blob[pos + 1], blob[pos + 2], blob[pos + 3]);
        if v == 0 {
            blob
        } else {
            let p = vstd::wrapping::u32_specs::wrapping_add(v, delta);
            blob.update(pos, le32(p)[0]).update(pos + 1, le32(p)[1]).update(pos + 2, le32(p)[2]).update(pos + 3, le32(p)[3])
        }
    }
}

/// `blob` with each offset field in `positions` relocated in turn.
pub open spec fn relocate(blob: Seq<u8>, positions: Seq<int>, delta: u32) -> Seq<u8>
    decreases positions.len(),
{
    if positions.len() == 0 {
        blob
    } else {
        patch_u32(relocate(blob, positions.drop_last(), delta), positions.last(), delta)
    }
}

/// Offset fields of the TRE header.
pub open spec fn tre_fields() -> Seq<int> { seq![33int, 41, 49, 74, 88, 102, 124, 138] }
/// Offset fields of the RGN header.
pub open spec fn rgn_fields() -> Seq<int> { seq![21int, 29, 57, 85] }
/// Offset fields of the LBL header.
pub open spec fn lbl_fields() -> Seq<int> { seq![21int, 31, 45, 59, 73, 87, 100, 114, 128, 142, 156, 176, 184] }
/// Offset fields of the NET header.
pub open spec fn net_fields() -> Seq<int> { seq![21int, 30, 39] }
/// Offset fields of the NOD header.
pub open spec fn nod_fields() -> Seq<int> { seq![21int, 37, 49, 63] }

/// Offset fields of a DEM subfile: its sections offset, then the two data
/// offsets of each zoom-level section (60 bytes each), as read before
/// patching.
pub open spec fn dem_fields(blob: Seq<u8>) -> Seq<int> {
    let zooms = (blob[25] as int) + (blob[26] as int) * 256;
    let sections = u32_of(blob[33], blob[34], blob[35], blob[36]) as int;
    seq![33int] + Seq::new((2 * zooms) as nat, |k: int| sections + (k / 2) * 60 + if k % 2 == 0 { 32int } else { 36int })
}

/// A DEM subfile relocated; shorter than its 41-byte header, unchanged.
pub open spec fn relocate_dem_spec(blob: Seq<u8>, delta: u32) -> Seq<u8> {
    if blob.len() < 41 { blob } else { relocate(blob, dem_fields(blob), delta) }
}

/// Increase the offset field at `pos` by `delta`, unless it is 0.
fn add_u32_offset(blob: &mut Vec<u8>, pos: u64, delta: u32)
    ensures
        final(blob)@ == patch_u32(old(blob)@, pos as int, delta),
{
    let len = blob.len();
    if pos > len as u64 || len as u64 - pos < 4 {
        return;
    }
    let p = pos as usize;
    let v: u32 = (blob[p] as u32) | ((blob[p + 1] as u32) << 8u32) | ((blob[p + 2] as u32) << 16u32)
        | ((blob[p + 3] as u32) << 24u32);
    if v != 0 {
        let patched = v.wrapping_add(delta);
        blob.set(p, patched as u8);
        blob.set(p + 1, (patched >> 8u32) as u8);
        blob.set(p + 2, (patched >> 16u32) as u8);
        blob.set(p + 3, (patched >> 24u32) as u8);
    }
}

/// Relocate the offset fields at `positions`, in order.
fn relocate_fields(blob: &mut Vec<u8>, positions: &[u64], delta: u32)
    ensures
        final(blob)@ == relocate(old(blob)@, positions@.map_values(|p: u64| p as int), delta),
{
    let ghost start = blob@;
    let ghost ps = positions@.map_values(|p: u64| p as int);
    let mut i: usize = 0;
    while i < positions.len()
        invariant
            i <= positions@.len(),
            ps == positions@.map_values(|p: u64| p as int),
            blob@ == relocate(start, ps.take(i as int), delta),
        decreases positions@.len() - i,
    {
        assert(ps.take(i + 1).drop_last() =~= ps.take(i as int));
        add_u32_offset(blob, positions[i], delta);
        i = i + 1;
    }
    assert(ps.take(ps.len() as int) =~= ps);
}

/// Relocate a DEM subfile: its sections offset and each section's two data
/// offsets.
fn relocate_dem(blob: &mut Vec<u8>, delta: u32)
    ensures
        final(blob)@ == relocate_dem_spec(old(blob)@, delta),
{
    if blob.len() < 41 {
        return;
    }
    let ghost start = blob@;
    let zoom_count: u64 = blob[25] as u64 + (blob[26] as u64) * 256;
    let sections: u64 = ((blob[33] as u32) | ((blob[34] as u32) << 8u32) | ((blob[35] as u32) << 16u32)
        | ((blob[36] as u32) << 24u32)) as u64;
    let ghost fields = dem_fields(start);
    add_u32_offset(blob, 33, delta);
    assert(fields.take(1) =~= seq![33int]);
    assert(relocate(start, fields.take(1), delta) == patch_u32(relocate(start, fields.take(0), delta), 33, delta)) by {
        assert(fields.take(1).drop_last() =~= fields.take(0));
    }
    let mut i: u64 = 0;
    while i < zoom_count
        invariant
            i <= zoom_count,
            zoom_count == (start[25] as int) + (start[26] as int) * 256,
            sections == u32_of(start[33], start[34], start[35], start[36]) as int,
            start.len() >= 41,
            fields == dem_fields(start),
            fields.len() == 1 + 2 * zoom_count,
            blob@ == relocate(start, fields.take(1 + 2 * i), delta),
        decreases zoom_count - i,
    {
        let base: u64 = sections + i * 60;
        assert((2 * i) / 2 == i && (2 * i) % 2 == 0 && (2 * i + 1) / 2 == i && (2 * i + 1) % 2 == 1);
        assert(fields[1 + 2 * i] == base + 32);
        assert(fields[2 + 2 * i] == base + 36);
        add_u32_offset(blob, base + 32, delta);
        assert(fields.take(2 + 2 * i).drop_last() =~= fields.take(1 + 2 * i));
        assert(blob@ == relocate(start, fields.take(2 + 2 * i), delta));
        add_u32_offset(blob, base + 36, delta);
        assert(fields.take(3 + 2 * i).drop_last() =~= fields.take(2 + 2 * i));
        assert(blob@ == relocate(start, fields.take(3 + 2 * i), delta));
        i = i + 1;
    }
    assert(fields.take(fields.len() as int) =~= fields);
}

/// The GMP header: length, magic, the date, and the start of each subfile
/// (0 for an absent one).
pub open spec fn gmp_header(date: (u16, u8, u8, u8, u8, u8), starts: Seq<u32>) -> Seq<u8> {
    le16(GMP_HEADER_LEN) + vstd::utf8::encode_utf8("GARMIN GMP"@) + seq![0x01u8, 0x00u8] + le16(date.0)
        + seq![date.1, date.2, date.3, date.4, date.5] + le32(0) + le32(starts[0]) + le32(starts[1]) + le32(starts[2])
        + le32(starts[3]) + le32(starts[4]) + le32(starts[5]) + le32(0) + Seq::new(8, |i: int| 0u8)
}

/// The date of `secs` in the header's fields.
pub open spec fn date_of(secs: u64) -> (u16, u8, u8, u8, u8, u8) {
    let c = calendar(secs);
    (c.0 as u16, c.1 as u8, c.2 as u8, c.3 as u8, c.4 as u8, c.5 as u8)
}

/// Length of an optional subfile (0 when absent).
pub open spec fn opt_len(v: Option<Vec<u8>>) -> int {
    match v { Some(b) => b@.len() as int, None => 0 }
}

fn gmp_header_exec(date: (u16, u8, u8, u8, u8, u8), starts: [u32; 6]) -> (r: Vec<u8>)
    ensures
        r@ == gmp_header(date, starts@),
{
    let mut out: Vec<u8> = Vec::new();
    push_u16(&mut out, GMP_HEADER_LEN);
    crate::bytes::push_bytes(&mut out, "GARMIN GMP".as_bytes());
    out.push(0x01);
    out.push(0x00);
    push_u16(&mut out, date.0);
    out.push(date.1);
    out.push(date.2);
    out.push(date.3);
    out.push(date.4);
    out.push(date.5);
    push_u32(&mut out, 0);
    push_u32(&mut out, starts[0]);
    push_u32(&mut out, starts[1]);
    push_u32(&mut out, starts[2]);
    push_u32(&mut out, starts[3]);
    push_u32(&mut out, starts[4]);
    push_u32(&mut out, starts[5]);
    push_u32(&mut out, 0);
    crate::bytes::push_zeros(&mut out, 8);
    assert(out@ =~= gmp_header(date, starts@));
    out
}

/// A copy of `v` with the offset fields at `positions` relocated.
fn relocated_copy(v: &Vec<u8>, positions: &[u64], delta: u32) -> (r: Vec<u8>)
    ensures
        r@ == relocate(v@, positions@.map_values(|p: u64| p as int), delta),
{
    let mut b = v.clone();
    assert(b@ =~= v@);
    relocate_fields(&mut b, positions, delta);
    b
}

/// GMP writer.
pub struct GmpWriter {
    pub tre: Vec<u8>,
    pub rgn: Vec<u8>,
    pub lbl: Vec<u8>,
    pub net: Option<Vec<u8>>,
    pub nod: Option<Vec<u8>>,
    pub dem: Option<Vec<u8>>,
    /// Build date to write in place of the current one
    pub fixed_date: Option<(u16, u8, u8, u8, u8, u8)>,
}

impl GmpWriter {
    pub fn new(tre: Vec<u8>, rgn: Vec<u8>, lbl: Vec<u8>, net: Option<Vec<u8>>, nod: Option<Vec<u8>>, dem: Option<Vec<u8>>) -> (w: Self)
        ensures
            w.tre == tre && w.rgn == rgn && w.lbl == lbl && w.net == net && w.nod == nod && w.dem == dem,
            w.fixed_date is None,
    {
        GmpWriter { tre, rgn, lbl, net, nod, dem, fixed_date: None }
    }

    /// The writer with a fixed build date.
    pub fn with_date(self, year: u16, month: u8, day: u8, hour: u8, min: u8, sec: u8) -> (w: Self)
        ensures
            w.fixed_date == Some((year, month, day, hour, min, sec)),
            w.tre == self.tre && w.rgn == self.rgn && w.lbl == self.lbl,
            w.net == self.net && w.nod == self.nod && w.dem == self.dem,
    {
        let mut w = self;
        w.fixed_date = Some((year, month, day, hour, min, sec));
        w
    }

    /// The GMP blob: the 61-byte header, the copyright block, then TRE,
    /// RGN, LBL and the NET, NOD and DEM subfiles present, each with its
    /// header offsets increased by its start in the blob. The date is the
    /// fixed one, else that of `now_secs`.
    #[verifier::rlimit(50)]
    pub fn write(&self, now_secs: u64) -> (r: Vec<u8>)
        ensures
            ({
                let base: u32 = 240u32;
                let tre_start = base;
                let rgn_start = vstd::wrapping::u32_specs::wrapping_add(tre_start, self.tre@.len() as u32);
                let lbl_start = vstd::wrapping::u32_specs::wrapping_add(rgn_start, self.rgn@.len() as u32);
                let c0 = vstd::wrapping::u32_specs::wrapping_add(lbl_start, self.lbl@.len() as u32);
                let net_start: u32 = if self.net is Some { c0 } else { 0 };
                let c1 = vstd::wrapping::u32_specs::wrapping_add(c0, opt_len(self.net) as u32);
                let nod_start: u32 = if self.nod is Some { c1 } else { 0 };
                let c2 = vstd::wrapping::u32_specs::wrapping_add(c1, opt_len(self.nod) as u32);
                let dem_start: u32 = if self.dem is Some { c2 } else { 0 };
                let date = match self.fixed_date { Some(d) => d, None => date_of(now_secs) };
                r@ == gmp_header(date, seq![tre_start, rgn_start, lbl_start, net_start, nod_start, dem_start])
                    + GMP_COPYRIGHT@
                    + relocate(self.tre@, tre_fields(), tre_start)
                    + relocate(self.rgn@, rgn_fields(), rgn_start)
                    + relocate(self.lbl@, lbl_fields(), lbl_start)
                    + match self.net { Some(b) => relocate(b@, net_fields(), net_start), None => Seq::empty() }
                    + match self.nod { Some(b) => relocate(b@, nod_fields(), nod_start), None => Seq::empty() }
                    + match self.dem { Some(b) => relocate_dem_spec(b@, dem_start), None => Seq::empty() }
            }),
    {
        let tre_start: u32 = (GMP_HEADER_LEN as u32) + 179;
        let rgn_start: u32 = tre_start.wrapping_add(self.tre.len() as u32);
        let lbl_start: u32 = rgn_start.wrapping_add(self.rgn.len() as u32);
        let mut cursor: u32 = lbl_start.wrapping_add(self.lbl.len() as u32);
        let net_start: u32 = match &self.net { Some(n) => { let s = cursor; cursor = cursor.wrapping_add(n.len() as u32); s }, None => 0 };
        let nod_start: u32 = match &self.nod { Some(n) => { let s = cursor; cursor = cursor.wrapping_add(n.len() as u32); s }, None => 0 };
        let dem_start: u32 = match &self.dem { Some(n) => { let s = cursor; s }, None => 0 };
        let (year, month, day, hour, min, sec) = match self.fixed_date {
            Some(d) => d,
            None => {
                let (y, mo, d, h, mi, s) = unix_to_calendar(now_secs);
                (y as u16, mo as u8, d as u8, h as u8, mi as u8, s as u8)
            },
        };
        let mut out = gmp_header_exec((year, month, day, hour, min, sec),
            [tre_start, rgn_start, lbl_start, net_start, nod_start, dem_start]);
        crate::bytes::push_bytes(&mut out, vstd::array::array_as_slice(&GMP_COPYRIGHT));
        let tre_pos: [u64; 8] = [33, 41, 49, 74, 88, 102, 124, 138];
        assert(tre_pos@.map_values(|p: u64| p as int) =~= tre_fields());
        let tre = relocated_copy(&self.tre, vstd::array::array_as_slice(&tre_pos), tre_start);
        crate::bytes::push_bytes(&mut out, tre.as_slice());
        let rgn_pos: [u64; 4] = [21, 29, 57, 85];
        assert(rgn_pos@.map_values(|p: u64| p as int) =~= rgn_fields());
        let rgn = relocated_copy(&self.rgn, vstd::array::array_as_slice(&rgn_pos), rgn_start);
        crate::bytes::push_bytes(&mut out, rgn.as_slice());
        let lbl_pos: [u64; 13] = [21, 31, 45, 59, 73, 87, 100, 114, 128, 142, 156, 176, 184];
        assert(lbl_pos@.map_values(|p: u64| p as int) =~= lbl_fields());
        let lbl = relocated_copy(&self.lbl, vstd::array::array_as_slice(&lbl_pos), lbl_start);
        crate::bytes::push_bytes(&mut out, lbl.as_slice());
        match &self.net {
            Some(n) => {
                let pos: [u64; 3] = [21, 30, 39];
                assert(pos@.map_values(|p: u64| p as int) =~= net_fields());
                let b = relocated_copy(n, vstd::array::array_as_slice(&pos), net_start);
                crate::bytes::push_bytes(&mut out, b.as_slice());
            },
            None => {},
        }
        match &self.nod {
            Some(n) => {
                let pos: [u64; 4] = [21, 37, 49, 63];
                assert(pos@.map_values(|p: u64| p as int) =~= nod_fields());
                let b = relocated_copy(n, vstd::array::array_as_slice(&pos), nod_start);
                crate::bytes::push_bytes(&mut out, b.as_slice());
            },
            None => {},
        }
        match &self.dem {
            Some(n) => {
                let mut b = n.clone();
                assert(b@ =~= n@);
                relocate_dem(&mut b, dem_start);
                crate::bytes::push_bytes(&mut out, b.as_slice());
            },
            None => {},
        }
        out
    }
}

} // verus!
