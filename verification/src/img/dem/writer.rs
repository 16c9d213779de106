//! The DEM subfile: its header, then every section's tile descriptors and
//! bitstreams, then the section headers.
use vstd::prelude::*;
use crate::bytes::{le16, le32, push_u16, push_u32, push_bytes};
use crate::img::common_header::{CommonHeader, header_bytes, pad_to};
use super::section::{DemSection, descriptors, bitstreams, bitstream_offset};

verus! {

/// DEM header size: the common header and 20 bytes of its own.
pub const DEM_HEADER_LEN: usize = 41;

/// The tile descriptors then the bitstreams of a section.
pub open spec fn section_body(s: DemSection) -> Seq<u8> {
    descriptors(s.tile_results@, s.record_desc, s.tile_results@.len() as int)
        + bitstreams(s.tile_results@, s.tile_results@.len() as int)
}

/// The bodies of the first `n` sections, concatenated.
pub open spec fn bodies(secs: Seq<DemSection>, n: int) -> Seq<u8>
    decreases n,
{
    if n <= 0 { Seq::empty() } else { bodies(secs, n - 1) + section_body(secs[n - 1]) }
}

/// The headers of the first `n` sections, each pointing at its descriptors
/// and bitstreams.
pub open spec fn section_headers(secs: Seq<DemSection>, n: int) -> Seq<u8>
    decreases n,
{
    if n <= 0 {
        Seq::empty()
    } else {
        let s = secs[n - 1];
        let desc_offset = DEM_HEADER_LEN + bodies(secs, n - 1).len();
        let data_offset = desc_offset + descriptors(s.tile_results@, s.record_desc, s.tile_results@.len() as int).len();
        section_headers(secs, n - 1) + s.header_spec(desc_offset as u32, data_offset as u32)
    }
}

/// The DEM subfile of `secs` created at `secs_now`: common header, metres as
/// the unit, the section count, record size 60 and the offset of the
/// section headers; the section bodies; the section headers.
pub open spec fn dem_file(secs: Seq<DemSection>, secs_now: u64) -> Seq<u8> {
    let n = secs.len() as int;
    header_bytes(DEM_HEADER_LEN as u16, "GARMIN DEM"@, secs_now) + le32(0) + le16(n as u16) + le32(0) + le16(60)
        + le32((DEM_HEADER_LEN + bodies(secs, n).len()) as u32) + le32(1) + bodies(secs, n)
        + section_headers(secs, n)
}

/// A section that can be written.
pub open spec fn section_ok(s: DemSection) -> bool {
    &&& s.non_std_height >= 1
    &&& s.non_std_width >= 1
    &&& s.tiles_lon >= 1
    &&& s.tiles_lat >= 1
    &&& bitstream_offset(s.tile_results@, s.tile_results@.len() as int) <= u32::MAX
}

/// The DEM subfile builder.
pub struct DemWriter {
    pub sections: Vec<DemSection>,
}

impl DemWriter {
    pub fn new() -> (w: Self)
        ensures
            w.sections@.len() == 0,
    {
        DemWriter { sections: Vec::new() }
    }

    /// Build the complete DEM subfile, created at `now_secs` seconds after the epoch.
    #[verifier::rlimit(60)]
    #[verifier::spinoff_prover]
    pub fn build(&self, now_secs: u64) -> (r: Vec<u8>)
        requires
            forall|i: int| 0 <= i < self.sections@.len() ==> section_ok(#[trigger] self.sections@[i]),
        ensures
            r@ == dem_file(self.sections@, now_secs),
    {
        let ghost secs = self.sections@;
        let zoom_count = self.sections.len() as u16;
        let mut buf: Vec<u8> = Vec::new();
        let ch = CommonHeader::new(DEM_HEADER_LEN as u16, "GARMIN DEM");
        ch.write(&mut buf, now_secs);
        let ghost head = buf@;
        assert(head.len() == 21);
        push_u32(&mut buf, 0);
        push_u16(&mut buf, zoom_count);
        push_u32(&mut buf, 0);
        push_u16(&mut buf, 60);
        let sections_offset_pos = buf.len();
        push_u32(&mut buf, 0);
        push_u32(&mut buf, 1);
        pad_to(&mut buf, DEM_HEADER_LEN);
        let ghost fixed = buf@;
        assert(fixed.len() == DEM_HEADER_LEN);
        let mut desc_offsets: Vec<u32> = Vec::new();
        let mut data_offsets: Vec<u32> = Vec::new();
        let mut i: usize = 0;
        while i < self.sections.len()
            invariant
                secs == self.sections@,
                i <= secs.len(),
                forall|k: int| 0 <= k < secs.len() ==> section_ok(#[trigger] secs[k]),
                fixed.len() == DEM_HEADER_LEN,
                buf@ == fixed + bodies(secs, i as int),
                desc_offsets@.len() == i,
                data_offsets@.len() == i,
                forall|k: int| 0 <= k < i ==> #[trigger] desc_offsets@[k] == (DEM_HEADER_LEN + bodies(secs, k).len()) as u32,
                forall|k: int| 0 <= k < i ==> #[trigger] data_offsets@[k] == (DEM_HEADER_LEN + bodies(secs, k).len()
                    + descriptors(secs[k].tile_results@, secs[k].record_desc, secs[k].tile_results@.len() as int).len()) as u32,
            decreases secs.len() - i,
        {
            let section = &self.sections[i];
            let descs = section.build_tile_descriptors();
            let bits = section.build_bitstream_data();
            desc_offsets.push(buf.len() as u32);
            push_bytes(&mut buf, descs.as_slice());
            data_offsets.push(buf.len() as u32);
            push_bytes(&mut buf, bits.as_slice());
            assert(buf@ =~= fixed + bodies(secs, i as int + 1));
            i += 1;
        }
        let sections_start = buf.len() as u32;
        let ghost before_patch = buf@;
        buf.set(sections_offset_pos, sections_start as u8);
        buf.set(sections_offset_pos + 1, (sections_start >> 8u32) as u8);
        buf.set(sections_offset_pos + 2, (sections_start >> 16u32) as u8);
        buf.set(sections_offset_pos + 3, (sections_start >> 24u32) as u8);
        let ghost patched = buf@;
        assert(patched =~= header_bytes(DEM_HEADER_LEN as u16, "GARMIN DEM"@, now_secs) + le32(0)
            + le16(zoom_count) + le32(0) + le16(60) + le32(sections_start) + le32(1)
            + bodies(secs, secs.len() as int));
        let mut j: usize = 0;
        while j < self.sections.len()
            invariant
                secs == self.sections@,
                j <= secs.len(),
                forall|k: int| 0 <= k < secs.len() ==> section_ok(#[trigger] secs[k]),
                desc_offsets@.len() == secs.len(),
                data_offsets@.len() == secs.len(),
                forall|k: int| 0 <= k < secs.len() ==> #[trigger] desc_offsets@[k] == (DEM_HEADER_LEN + bodies(secs, k).len()) as u32,
                forall|k: int| 0 <= k < secs.len() ==> #[trigger] data_offsets@[k] == (DEM_HEADER_LEN + bodies(secs, k).len()
                    + descriptors(secs[k].tile_results@, secs[k].record_desc, secs[k].tile_results@.len() as int).len()) as u32,
                buf@ == patched + section_headers(secs, j as int),
            decreases secs.len() - j,
        {
            let header = self.sections[j].build_header(desc_offsets[j], data_offsets[j]);
            push_bytes(&mut buf, header.as_slice());
            assert(buf@ =~= patched + section_headers(secs, j as int + 1));
            j += 1;
        }
        assert(buf@ =~= dem_file(secs, now_secs));
        buf
    }
}

} // verus!
