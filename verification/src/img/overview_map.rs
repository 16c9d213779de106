//! The overview map of a map set: a small tile over the whole set whose
//! TRE, RGN and LBL subfiles follow the fixed layout older devices expect
//! (a 120-byte TRE header, fixed creation dates, inline copyright strings).
use vstd::prelude::*;
use crate::bytes::{le16, le24, le32, u24_of, push_bytes, push_u16, push_u24, push_u32};
use crate::img::area::tdiv;
use crate::img::assembler::TileSubfiles;
use crate::img::common_header::{read_tre_bounds, sign_extend24, type_field, TYPE_LEN};
use crate::img::lbl::{places_bytes, write_places, LBL_HEADER_LEN};
use crate::img::overview_features::OverviewFeature;

verus! {

broadcast use vstd::array::group_array_axioms;

/// RGN header length of the overview: the common header and one section.
pub const OVERVIEW_RGN_HEADER_LEN: u16 = 29;

/// TRE header length of the overview; the map number ends it.
pub const OVERVIEW_TRE_HEADER_LEN: u16 = 120;

/// Size the overview TRE is padded to.
pub const OVERVIEW_TRE_LEN: usize = 301;

/// Creation date of every overview subfile, 1990-08-23 10:49:35.
pub open spec fn overview_time() -> Seq<u8> {
    seq![0xc6u8, 0x07u8, 0x08u8, 0x17u8, 0x0au8, 0x31u8, 0x23u8]
}

/// The copyright strings written inline in the overview TRE.
pub open spec fn copyright_strings() -> Seq<u8> {
    seq![0x63u8, 0x67u8, 0x70u8, 0x73u8, 0x6du8, 0x61u8, 0x70u8, 0x70u8, 0x65u8, 0x72u8, 0x20u8,
        0x76u8, 0x65u8, 0x72u8, 0x73u8, 0x69u8, 0x6fu8, 0x6eu8, 0x30u8, 0x30u8, 0x39u8, 0x36u8, 0x61u8, 0x00u8,
        0x44u8, 0x45u8, 0x46u8, 0x41u8, 0x55u8, 0x4cu8, 0x54u8, 0x00u8]
}

/// The two copyright records (3 bytes each) pointing at the strings.
pub open spec fn copyright_records() -> Seq<u8> {
    seq![0x01u8, 0x00u8, 0x00u8, 0x37u8, 0x0eu8, 0x00u8]
}

/// The polygon overview used when no feature gives types: type 0x50.
pub open spec fn default_polygon_overview() -> Seq<u8> {
    seq![0x50u8, 0x00u8]
}

/// The point overview: type 0x0B.
pub open spec fn point_overview() -> Seq<u8> {
    seq![0x0Bu8, 0x00u8, 0x00u8]
}

/// The 21-byte common header of an overview subfile of type `type_str`.
pub open spec fn overview_header(header_length: u16, type_str: Seq<char>) -> Seq<u8> {
    le16(header_length) + type_field(vstd::utf8::encode_utf8(type_str)) + seq![0x01u8, 0x00u8] + overview_time()
}

/// Append the bytes of a constant sequence.
fn push_seq(buf: &mut Vec<u8>, s: &[u8])
    ensures
        final(buf)@ == old(buf)@ + s@,
{
    push_bytes(buf, s);
}

/// Append the common header of an overview subfile.
fn write_overview_header(buf: &mut Vec<u8>, header_length: u16, type_str: &str)
    ensures
        final(buf)@ == old(buf)@ + overview_header(header_length, type_str@),
{
    let ghost start = buf@;
    push_u16(buf, header_length);
    let type_bytes = type_str.as_bytes();
    let mut i: usize = 0;
    while i < TYPE_LEN
        invariant
            i <= TYPE_LEN,
            type_bytes@ == vstd::utf8::encode_utf8(type_str@),
            buf@ == start + le16(header_length) + type_field(type_bytes@).subrange(0, i as int),
        decreases TYPE_LEN - i,
    {
        if i < type_bytes.len() {
            buf.push(type_bytes[i]);
        } else {
            buf.push(0x00);
        }
        i = i + 1;
        assert(buf@ =~= start + le16(header_length) + type_field(type_bytes@).subrange(0, i as int));
    }
    assert(type_field(type_bytes@).subrange(0, 10) =~= type_field(type_bytes@));
    buf.push(0x01);
    buf.push(0x00);
    let t: [u8; 7] = [0xc6, 0x07, 0x08, 0x17, 0x0a, 0x31, 0x23];
    push_seq(buf, &t);
    assert(t@ =~= overview_time());
    assert(buf@ =~= start + overview_header(header_length, type_str@));
}

/// Every byte sequence of `parts`, concatenated.
pub open spec fn concat(parts: Seq<Vec<u8>>) -> Seq<u8>
    decreases parts.len(),
{
    if parts.len() == 0 { Seq::empty() } else { concat(parts.drop_last()) + parts.last()@ }
}

/// The overview RGN: its header, with one section holding the data of
/// every subdivision in order.
pub open spec fn overview_rgn(parts: Seq<Vec<u8>>) -> Seq<u8> {
    overview_header(OVERVIEW_RGN_HEADER_LEN, "GARMIN RGN"@)
        + le32(OVERVIEW_RGN_HEADER_LEN as u32) + le32(concat(parts).len() as u32) + concat(parts)
}

/// Build the overview RGN from the data of each subdivision.
pub fn build_rgn(subdiv_data: &[Vec<u8>]) -> (r: Vec<u8>)
    ensures
        r@ == overview_rgn(subdiv_data@),
{
    let mut total: Vec<u8> = Vec::new();
    let mut i: usize = 0;
    while i < subdiv_data.len()
        invariant
            i <= subdiv_data@.len(),
            total@ == concat(subdiv_data@.take(i as int)),
        decreases subdiv_data@.len() - i,
    {
        push_bytes(&mut total, subdiv_data[i].as_slice());
        assert(subdiv_data@.take(i + 1).drop_last() =~= subdiv_data@.take(i as int));
        i = i + 1;
    }
    assert(subdiv_data@.take(subdiv_data@.len() as int) =~= subdiv_data@);
    let mut buf: Vec<u8> = Vec::new();
    write_overview_header(&mut buf, OVERVIEW_RGN_HEADER_LEN, "GARMIN RGN");
    push_u32(&mut buf, OVERVIEW_RGN_HEADER_LEN as u32);
    push_u32(&mut buf, total.len() as u32);
    push_bytes(&mut buf, total.as_slice());
    buf
}

/// The overview LBL for `codepage`: the LBL header with every places
/// section empty, and a single empty label.
pub open spec fn overview_lbl(codepage: u16) -> Seq<u8> {
    let end = LBL_HEADER_LEN as u32 + 1;
    overview_header(LBL_HEADER_LEN, "GARMIN LBL"@) + le32(LBL_HEADER_LEN as u32) + le32(1) + seq![0u8, 6u8]
        + places_bytes(end as u32) + le16(codepage) + seq![0u8, 0u8, 0u8, 0u8] + le32(LBL_HEADER_LEN as u32)
        + le32(0) + le32(end as u32) + seq![0u8, 0u8, 0u8, 0u8, 0u8, 0u8, 0u8, 0u8] + seq![0u8]
}

/// Build the overview LBL.
pub fn build_lbl(codepage: u16) -> (r: Vec<u8>)
    ensures
        r@ == overview_lbl(codepage),
{
    let mut buf: Vec<u8> = Vec::new();
    write_overview_header(&mut buf, LBL_HEADER_LEN, "GARMIN LBL");
    let ghost h = buf@;
    let lbl_off: u32 = LBL_HEADER_LEN as u32;
    let lbl_end: u32 = lbl_off + 1;
    push_u32(&mut buf, lbl_off);
    push_u32(&mut buf, 1);
    buf.push(0x00);
    buf.push(6);
    let ghost a = buf@;
    assert(a =~= h + le32(LBL_HEADER_LEN as u32) + le32(1) + seq![0u8, 6u8]);
    write_places(&mut buf, lbl_end);
    let ghost b = buf@;
    push_u16(&mut buf, codepage);
    let four: [u8; 4] = [0, 0, 0, 0];
    push_seq(&mut buf, &four);
    push_u32(&mut buf, LBL_HEADER_LEN as u32);
    push_u32(&mut buf, 0);
    push_u32(&mut buf, lbl_end);
    let eight: [u8; 8] = [0, 0, 0, 0, 0, 0, 0, 0];
    push_seq(&mut buf, &eight);
    buf.push(0x00);
    assert(buf@ =~= b + le16(codepage) + seq![0u8, 0u8, 0u8, 0u8] + le32(LBL_HEADER_LEN as u32)
        + le32(0) + le32(lbl_end) + seq![0u8, 0u8, 0u8, 0u8, 0u8, 0u8, 0u8, 0u8] + seq![0u8]);
    assert(buf@ =~= overview_lbl(codepage));
    buf
}

/// North, east, south and west of a tile as its TRE header stores them.
pub open spec fn tile_bounds(t: TileSubfiles) -> (int, int, int, int) {
    (
        sign_extend24(u24_of(t.tre@[21], t.tre@[22], t.tre@[23])),
        sign_extend24(u24_of(t.tre@[24], t.tre@[25], t.tre@[26])),
        sign_extend24(u24_of(t.tre@[27], t.tre@[28], t.tre@[29])),
        sign_extend24(u24_of(t.tre@[30], t.tre@[31], t.tre@[32])),
    )
}

/// The box around the tiles whose TRE holds bounds: the largest north and
/// east, the smallest south and west (the extreme 32-bit values when none).
pub open spec fn merged_bounds(tiles: Seq<TileSubfiles>) -> (int, int, int, int)
    decreases tiles.len(),
{
    if tiles.len() == 0 {
        (i32::MIN as int, i32::MIN as int, i32::MAX as int, i32::MAX as int)
    } else {
        let m = merged_bounds(tiles.drop_last());
        let t = tiles.last();
        if t.tre@.len() >= 33 {
            let b = tile_bounds(t);
            (
                if b.0 > m.0 { b.0 } else { m.0 },
                if b.1 > m.1 { b.1 } else { m.1 },
                if b.2 < m.2 { b.2 } else { m.2 },
                if b.3 < m.3 { b.3 } else { m.3 },
            )
        } else {
            m
        }
    }
}

/// The bounds `(north, east, south, west)` of a map set.
pub fn compute_merged_bounds(tiles: &[TileSubfiles]) -> (r: (i32, i32, i32, i32))
    ensures
        (r.0 as int, r.1 as int, r.2 as int, r.3 as int) == merged_bounds(tiles@),
{
    let mut n = i32::MIN;
    let mut e = i32::MIN;
    let mut s = i32::MAX;
    let mut w = i32::MAX;
    let mut i: usize = 0;
    while i < tiles.len()
        invariant
            i <= tiles@.len(),
            (n as int, e as int, s as int, w as int) == merged_bounds(tiles@.take(i as int)),
        decreases tiles@.len() - i,
    {
        assert(tiles@.take(i + 1).drop_last() =~= tiles@.take(i as int));
        let tile = &tiles[i];
        if tile.tre.len() >= 33 {
            let (tn, te, ts, tw) = read_tre_bounds(tile.tre.as_slice());
            if tn > n { n = tn; }
            if te > e { e = te; }
            if ts < s { s = ts; }
            if tw < w { w = tw; }
        }
        i = i + 1;
    }
    assert(tiles@.take(tiles@.len() as int) =~= tiles@);
    (n, e, s, w)
}

/// Whether some polygon feature has the 7-bit type `t`.
pub open spec fn has_polygon_type(fs: Seq<OverviewFeature>, t: int) -> bool {
    exists|i: int| 0 <= i < fs.len() && (#[trigger] fs[i]).is_polygon && (fs[i].type_code & 0x7F) as int == t
}

/// The 7-bit polygon types below `k`, increasing, each followed by a zero byte.
pub open spec fn polygon_types_below(fs: Seq<OverviewFeature>, k: int) -> Seq<u8>
    decreases k,
{
    if k <= 0 {
        Seq::empty()
    } else {
        polygon_types_below(fs, k - 1) + if has_polygon_type(fs, k - 1) { seq![(k - 1) as u8, 0u8] } else { Seq::empty() }
    }
}

/// The polygon overview section: the 7-bit types of the polygon features,
/// increasing, two bytes each; type 0x50 when there is none.
pub open spec fn polygon_overview_of(fs: Seq<OverviewFeature>) -> Seq<u8> {
    let l = polygon_types_below(fs, 128);
    if l.len() == 0 { default_polygon_overview() } else { l }
}

/// Build the polygon overview section from the features.
pub fn compute_polygon_overview_data(features: &[OverviewFeature]) -> (r: Vec<u8>)
    ensures
        r@ == polygon_overview_of(features@),
{
    let mut present: Vec<bool> = Vec::new();
    let mut k: usize = 0;
    while k < 128
        invariant
            k <= 128,
            present@.len() == k,
            forall|t: int| 0 <= t < k ==> !present@[t],
        decreases 128 - k,
    {
        present.push(false);
        k = k + 1;
    }
    let mut i: usize = 0;
    while i < features.len()
        invariant
            i <= features@.len(),
            present@.len() == 128,
            forall|t: int| 0 <= t < 128 ==> (present@[t] <==> has_polygon_type(features@.take(i as int), t)),
        decreases features@.len() - i,
    {
        let f = &features[i];
        let ghost prev = features@.take(i as int);
        let ghost next = features@.take(i + 1);
        assert(next =~= prev.push(features@[i as int]));
        if f.is_polygon {
            let tc = f.type_code;
            let t = tc & 0x7F;
            assert(tc & 0x7F < 128) by (bit_vector);
            present.set(t as usize, true);
            proof {
                assert(next[i as int] == features@[i as int]);
                assert forall|u: int| 0 <= u < 128 implies (present@[u] <==> has_polygon_type(next, u)) by {
                    if has_polygon_type(prev, u) {
                        let j = choose|j: int| 0 <= j < prev.len() && (#[trigger] prev[j]).is_polygon && (prev[j].type_code & 0x7F) as int == u;
                        assert(next[j] == prev[j]);
                    }
                    if has_polygon_type(next, u) && u != t {
                        let j = choose|j: int| 0 <= j < next.len() && (#[trigger] next[j]).is_polygon && (next[j].type_code & 0x7F) as int == u;
                        assert(j < prev.len());
                        assert(prev[j] == next[j]);
                    }
                }
            }
        } else {
            proof {
                assert forall|u: int| 0 <= u < 128 implies (present@[u] <==> has_polygon_type(next, u)) by {
                    if has_polygon_type(prev, u) {
                        let j = choose|j: int| 0 <= j < prev.len() && (#[trigger] prev[j]).is_polygon && (prev[j].type_code & 0x7F) as int == u;
                        assert(next[j] == prev[j]);
                    }
                    if has_polygon_type(next, u) {
                        let j = choose|j: int| 0 <= j < next.len() && (#[trigger] next[j]).is_polygon && (next[j].type_code & 0x7F) as int == u;
                        assert(j < prev.len());
                        assert(prev[j] == next[j]);
                    }
                }
            }
        }
        i = i + 1;
    }
    assert(features@.take(features@.len() as int) =~= features@);
    let mut out: Vec<u8> = Vec::new();
    let mut t: usize = 0;
    while t < 128
        invariant
            t <= 128,
            present@.len() == 128,
            forall|u: int| 0 <= u < 128 ==> (present@[u] <==> has_polygon_type(features@, u)),
            out@ == polygon_types_below(features@, t as int),
        decreases 128 - t,
    {
        if present[t] {
            out.push(t as u8);
            out.push(0x00);
        }
        t = t + 1;
    }
    if out.len() == 0 {
        let d: Vec<u8> = vec![0x50, 0x00];
        assert(d@ =~= default_polygon_overview());
        return d;
    }
    out
}

/// Half the span `span` at a level of `shift` bits below full
/// resolution, at least 1.
pub open spec fn half_span(span: i32, shift: i32) -> u16 {
    let v = ((span >> shift) as u16) / 2;
    if v < 1 { 1 } else { v }
}

fn half_span_exec(span: i32, shift: i32) -> (r: u16)
    requires
        0 <= shift < 32,
    ensures
        r == half_span(span, shift),
{
    let v = ((span >> shift) as u16) / 2;
    if v < 1 { 1 } else { v }
}

/// A subdivision with children: RGN offset, content type, centre, last at
/// its level, half width and height, and the number of its first child.
pub open spec fn node_record(rgn_off: u32, type_byte: u8, clat: i32, clon: i32, w: u16, h: u16, next: u16) -> Seq<u8> {
    le24(rgn_off) + seq![type_byte] + le24(clon as u32) + le24(clat as u32) + le16(w | 0x8000) + le16(h) + le16(next)
}

/// A leaf subdivision from `(clat, clon, half width, half height, type)`,
/// marked last at its level when `last`.
pub open spec fn leaf_record(rgn_off: u32, spec: (i32, i32, u16, u16, u8), last: bool) -> Seq<u8> {
    le24(rgn_off) + seq![spec.4] + le24(spec.1 as u32) + le24(spec.0 as u32)
        + le16(if last { spec.2 | 0x8000 } else { spec.2 }) + le16(spec.3)
}

fn write_node_record(buf: &mut Vec<u8>, rgn_off: u32, type_byte: u8, clat: i32, clon: i32, w: u16, h: u16, next: u16)
    ensures
        final(buf)@ == old(buf)@ + node_record(rgn_off, type_byte, clat, clon, w, h, next),
{
    let ghost start = buf@;
    push_u24(buf, rgn_off);
    buf.push(type_byte);
    push_u24(buf, clon as u32);
    push_u24(buf, clat as u32);
    push_u16(buf, w | 0x8000);
    push_u16(buf, h);
    push_u16(buf, next);
    assert(buf@ =~= start + node_record(rgn_off, type_byte, clat, clon, w, h, next));
}

fn write_leaf_record(buf: &mut Vec<u8>, rgn_off: u32, spec: (i32, i32, u16, u16, u8), last: bool)
    ensures
        final(buf)@ == old(buf)@ + leaf_record(rgn_off, spec, last),
{
    let ghost start = buf@;
    let (clat, clon, w_half, h_half, type_byte) = spec;
    push_u24(buf, rgn_off);
    buf.push(type_byte);
    push_u24(buf, clon as u32);
    push_u24(buf, clat as u32);
    let w_field = if last { w_half | 0x8000 } else { w_half };
    push_u16(buf, w_field);
    push_u16(buf, h_half);
    assert(buf@ =~= start + leaf_record(rgn_off, spec, last));
}

/// Total length of byte sequences, as a machine size.
fn total_len(parts: &[Vec<u8>]) -> (r: u64)
    requires
        concat(parts@).len() <= u32::MAX,
    ensures
        r == concat(parts@).len(),
{
    let mut t: u64 = 0;
    let mut i: usize = 0;
    while i < parts.len()
        invariant
            i <= parts@.len(),
            concat(parts@).len() <= u32::MAX,
            t == concat(parts@.take(i as int)).len(),
        decreases parts@.len() - i,
    {
        assert(parts@.take(i + 1).drop_last() =~= parts@.take(i as int));
        proof {
            lemma_concat_prefix_len(parts@, i + 1);
        }
        t = t + parts[i].len() as u64;
        i = i + 1;
    }
    assert(parts@.take(parts@.len() as int) =~= parts@);
    t
}

/// A prefix of the parts is no longer than all of them.
proof fn lemma_concat_prefix_len(parts: Seq<Vec<u8>>, k: int)
    requires
        0 <= k <= parts.len(),
    ensures
        concat(parts.take(k)).len() <= concat(parts).len(),
    decreases parts.len() - k,
{
    if k < parts.len() {
        lemma_concat_prefix_len(parts, k + 1);
        assert(parts.take(k + 1).drop_last() =~= parts.take(k));
    } else {
        assert(parts.take(k) =~= parts);
    }
}

/// The subdivisions of the single-level overview: one top division with
/// no content and three leaves whose data follow each other in the RGN,
/// then the total length of that data.
pub open spec fn overview_subdivs(clat_top: i32, clon_top: i32, w_top_half: u16, h_top_half: u16,
    specs: Seq<(i32, i32, u16, u16, u8)>, data: Seq<Vec<u8>>) -> Seq<u8> {
    let l0 = data[0]@.len();
    let l1 = data[1]@.len();
    node_record(0, 0, clat_top, clon_top, w_top_half, h_top_half, 2)
        + leaf_record(0, specs[0], false) + leaf_record(l0 as u32, specs[1], false)
        + leaf_record((l0 + l1) as u32, specs[2], true) + le32(concat(data).len() as u32)
}

/// Build the subdivisions of the single-level overview.
pub fn build_subdivs(clat_top: i32, clon_top: i32, w_top_half: u16, h_top_half: u16,
    leaf_specs: &[(i32, i32, u16, u16, u8)], leaf_rgn_data: &[Vec<u8>]) -> (r: Vec<u8>)
    requires
        leaf_specs@.len() == 3,
        leaf_rgn_data@.len() >= 3,
        concat(leaf_rgn_data@).len() <= u32::MAX,
    ensures
        r@ == overview_subdivs(clat_top, clon_top, w_top_half, h_top_half, leaf_specs@, leaf_rgn_data@),
        r@.len() == 62,
{
    proof {
        lemma_concat_prefix_len(leaf_rgn_data@, 2);
        let d = leaf_rgn_data@;
        assert(d.take(2).drop_last() =~= d.take(1));
        assert(d.take(1).drop_last() =~= d.take(0));
        assert(concat(d.take(0)).len() == 0);
        assert(concat(d.take(1)).len() == d[0]@.len());
        assert(concat(d.take(2)).len() == d[0]@.len() + d[1]@.len());
    }
    let total = total_len(leaf_rgn_data);
    let l0 = leaf_rgn_data[0].len() as u32;
    let l1 = leaf_rgn_data[1].len() as u32;
    let mut buf: Vec<u8> = Vec::new();
    write_node_record(&mut buf, 0, 0, clat_top, clon_top, w_top_half, h_top_half, 2);
    write_leaf_record(&mut buf, 0, leaf_specs[0], false);
    write_leaf_record(&mut buf, l0, leaf_specs[1], false);
    write_leaf_record(&mut buf, l0 + l1, leaf_specs[2], true);
    push_u32(&mut buf, total as u32);
    assert(buf@ =~= overview_subdivs(clat_top, clon_top, w_top_half, h_top_half, leaf_specs@, leaf_rgn_data@));
    buf
}

/// Content type of a subdivision with children: polygons when it has data.
pub open spec fn node_type(data: Vec<u8>) -> u8 {
    if data@.len() == 0 { 0x00 } else { 0x80 }
}

/// The subdivisions of the four-level overview: three divisions with
/// children at 10, 12 and 14 bits, each alone at its level, then three
/// leaves, their data following each other in the RGN, then the total
/// length of that data.
pub open spec fn overview_subdivs_4(center_lat: i32, center_lon: i32, north: i32, east: i32, south: i32, west: i32,
    nl: Seq<Vec<u8>>, specs: Seq<(i32, i32, u16, u16, u8)>, lf: Seq<Vec<u8>>) -> Seq<u8> {
    let (n0, n1, n2, l0, l1) = (nl[0]@.len(), nl[1]@.len(), nl[2]@.len(), lf[0]@.len(), lf[1]@.len());
    let (dx, dy) = ((east - west) as i32, (north - south) as i32);
    node_record(0, node_type(nl[0]), center_lat, center_lon, half_span(dx, 14), half_span(dy, 14), 2)
        + node_record(n0 as u32, node_type(nl[1]), center_lat, center_lon, half_span(dx, 12), half_span(dy, 12), 3)
        + node_record((n0 + n1) as u32, node_type(nl[2]), center_lat, center_lon, half_span(dx, 10), half_span(dy, 10), 4)
        + leaf_record((n0 + n1 + n2) as u32, specs[0], false)
        + leaf_record((n0 + n1 + n2 + l0) as u32, specs[1], false)
        + leaf_record((n0 + n1 + n2 + l0 + l1) as u32, specs[2], true)
        + le32((concat(nl).len() + concat(lf).len()) as u32)
}

/// The lengths of three parts add up to their concatenation.
proof fn lemma_concat3(d: Seq<Vec<u8>>)
    requires
        d.len() == 3,
    ensures
        concat(d).len() == d[0]@.len() + d[1]@.len() + d[2]@.len(),
{
    let d2 = d.drop_last();
    let d1 = d2.drop_last();
    let d0 = d1.drop_last();
    assert(concat(d) == concat(d2) + d.last()@);
    assert(concat(d2) == concat(d1) + d2.last()@);
    assert(concat(d1) == concat(d0) + d1.last()@);
    assert(d0.len() == 0);
    assert(d.last() == d[2] && d2.last() == d[1] && d1.last() == d[0]);
}

/// Build the subdivisions of the four-level overview.
pub fn build_subdivs_4levels(center_lat: i32, center_lon: i32, north: i32, east: i32, south: i32, west: i32,
    nonleaf_data: &[Vec<u8>; 3], leaf_specs: &[(i32, i32, u16, u16, u8); 3], leaf_data: &[Vec<u8>; 3]) -> (r: Vec<u8>)
    requires
        i32::MIN <= east - west <= i32::MAX,
        i32::MIN <= north - south <= i32::MAX,
        concat(nonleaf_data@).len() + concat(leaf_data@).len() <= u32::MAX,
    ensures
        r@ == overview_subdivs_4(center_lat, center_lon, north, east, south, west, nonleaf_data@, leaf_specs@, leaf_data@),
        r@.len() == 94,
{
    proof {
        lemma_concat3(nonleaf_data@);
        lemma_concat3(leaf_data@);
    }
    let dx = east - west;
    let dy = north - south;
    let n0 = nonleaf_data[0].len() as u32;
    let n1 = nonleaf_data[1].len() as u32;
    let n2 = nonleaf_data[2].len() as u32;
    let l0 = leaf_data[0].len() as u32;
    let l1 = leaf_data[1].len() as u32;
    let l2 = leaf_data[2].len() as u32;
    let t0: u8 = if nonleaf_data[0].len() == 0 { 0x00 } else { 0x80 };
    let t1: u8 = if nonleaf_data[1].len() == 0 { 0x00 } else { 0x80 };
    let t2: u8 = if nonleaf_data[2].len() == 0 { 0x00 } else { 0x80 };
    let ghost nl = nonleaf_data@;
    let ghost lf = leaf_data@;
    let ghost specs = leaf_specs@;
    assert(t0 == node_type(nl[0]) && t1 == node_type(nl[1]) && t2 == node_type(nl[2]));
    assert(n0 == nl[0]@.len() && n1 == nl[1]@.len() && n2 == nl[2]@.len());
    assert(l0 == lf[0]@.len() && l1 == lf[1]@.len() && l2 == lf[2]@.len());
    let mut buf: Vec<u8> = Vec::new();
    write_node_record(&mut buf, 0, t0, center_lat, center_lon, half_span_exec(dx, 14), half_span_exec(dy, 14), 2);
    write_node_record(&mut buf, n0, t1, center_lat, center_lon, half_span_exec(dx, 12), half_span_exec(dy, 12), 3);
    write_node_record(&mut buf, n0 + n1, t2, center_lat, center_lon, half_span_exec(dx, 10), half_span_exec(dy, 10), 4);
    let ghost nodes = buf@;
    write_leaf_record(&mut buf, n0 + n1 + n2, leaf_specs[0], false);
    write_leaf_record(&mut buf, n0 + n1 + n2 + l0, leaf_specs[1], false);
    write_leaf_record(&mut buf, n0 + n1 + n2 + l0 + l1, leaf_specs[2], true);
    let ghost leaves = buf@;
    push_u32(&mut buf, n0 + n1 + n2 + l0 + l1 + l2);
    proof {
        let (dxs, dys) = ((east - west) as i32, (north - south) as i32);
        assert(nodes =~= node_record(0, node_type(nl[0]), center_lat, center_lon, half_span(dxs, 14), half_span(dys, 14), 2)
            + node_record(n0, node_type(nl[1]), center_lat, center_lon, half_span(dxs, 12), half_span(dys, 12), 3)
            + node_record((n0 + n1) as u32, node_type(nl[2]), center_lat, center_lon, half_span(dxs, 10), half_span(dys, 10), 4));
        assert(leaves =~= nodes + leaf_record((n0 + n1 + n2) as u32, specs[0], false)
            + leaf_record((n0 + n1 + n2 + l0) as u32, specs[1], false)
            + leaf_record((n0 + n1 + n2 + l0 + l1) as u32, specs[2], true));
    }
    assert(buf@ =~= overview_subdivs_4(center_lat, center_lon, north, east, south, west, nl, specs, lf));
    buf
}

/// The 120-byte TRE header of the overview for subdivision, map-level and
/// polygon-overview sections of the given lengths, placed after the
/// copyright strings and records.
pub open spec fn overview_tre_header(north: i32, east: i32, south: i32, west: i32, map_id: u32,
    subdivs_len: int, ml_len: int, pov_len: int) -> Seq<u8> {
    let ml_off = 158 + subdivs_len;
    let pov_off = ml_off + ml_len;
    let point_off = pov_off + pov_len;
    overview_header(OVERVIEW_TRE_HEADER_LEN, "GARMIN TRE"@)
        + le24(north as u32) + le24(east as u32) + le24(south as u32) + le24(west as u32)
        + le32(ml_off as u32) + le32(ml_len as u32) + le32(158) + le32(subdivs_len as u32)
        + le32(152) + le32(6) + le16(3)
        + seq![0u8, 0u8, 0u8, 0u8, 1u8] + le24(0x19) + le32(0x00040101) + le16(1) + seq![0u8]
        + le32(pov_off as u32) + le32(0) + le16(2) + seq![0u8, 0u8, 0u8, 0u8]
        + le32(pov_off as u32) + le32(pov_len as u32) + le16(2) + seq![0u8, 0u8, 0u8, 0u8]
        + le32(point_off as u32) + le32(3) + le16(3) + seq![0u8, 0u8, 0u8, 0u8]
        + le32(map_id)
}

/// The overview TRE: header, copyright strings and records, subdivisions,
/// map levels, polygon and point overviews, zero-padded to 301 bytes.
pub open spec fn overview_tre(north: i32, east: i32, south: i32, west: i32, map_id: u32,
    subdivs: Seq<u8>, ml: Seq<u8>, pov: Seq<u8>) -> Seq<u8> {
    let body = overview_tre_header(north, east, south, west, map_id, subdivs.len() as int, ml.len() as int, pov.len() as int)
        + copyright_strings() + copyright_records() + subdivs + ml + pov + point_overview();
    if body.len() < OVERVIEW_TRE_LEN { body + Seq::new((OVERVIEW_TRE_LEN - body.len()) as nat, |i: int| 0u8) } else { body }
}

/// Write the overview TRE around the given sections.
fn write_overview_tre(north: i32, east: i32, south: i32, west: i32, map_id: u32,
    subdivs: &[u8], ml: &[u8], pov: &[u8]) -> (r: Vec<u8>)
    requires
        subdivs@.len() + ml@.len() + pov@.len() + 200 <= u32::MAX,
    ensures
        r@ == overview_tre(north, east, south, west, map_id, subdivs@, ml@, pov@),
{
    let sd_len = subdivs.len() as u32;
    let ml_len = ml.len() as u32;
    let pov_len = pov.len() as u32;
    let ml_off: u32 = 158 + sd_len;
    let pov_off = ml_off + ml_len;
    let point_off = pov_off + pov_len;
    let mut buf: Vec<u8> = Vec::new();
    write_overview_header(&mut buf, OVERVIEW_TRE_HEADER_LEN, "GARMIN TRE");
    let ghost h0 = buf@;
    push_u24(&mut buf, north as u32);
    push_u24(&mut buf, east as u32);
    push_u24(&mut buf, south as u32);
    push_u24(&mut buf, west as u32);
    push_u32(&mut buf, ml_off);
    push_u32(&mut buf, ml_len);
    push_u32(&mut buf, 158);
    push_u32(&mut buf, sd_len);
    push_u32(&mut buf, 152);
    push_u32(&mut buf, 6);
    push_u16(&mut buf, 3);
    let ghost h1 = buf@;
    let misc: [u8; 5] = [0, 0, 0, 0, 1];
    push_seq(&mut buf, &misc);
    push_u24(&mut buf, 0x19);
    push_u32(&mut buf, 0x00040101);
    push_u16(&mut buf, 1);
    buf.push(0);
    let ghost h2 = buf@;
    let four: [u8; 4] = [0, 0, 0, 0];
    push_u32(&mut buf, pov_off);
    push_u32(&mut buf, 0);
    push_u16(&mut buf, 2);
    push_seq(&mut buf, &four);
    push_u32(&mut buf, pov_off);
    push_u32(&mut buf, pov_len);
    push_u16(&mut buf, 2);
    push_seq(&mut buf, &four);
    push_u32(&mut buf, point_off);
    push_u32(&mut buf, 3);
    push_u16(&mut buf, 3);
    push_seq(&mut buf, &four);
    push_u32(&mut buf, map_id);
    let ghost h3 = buf@;
    proof {
        assert(misc@ =~= seq![0u8, 0u8, 0u8, 0u8, 1u8]);
        assert(four@ =~= seq![0u8, 0u8, 0u8, 0u8]);
        assert(h1 =~= h0 + le24(north as u32) + le24(east as u32) + le24(south as u32) + le24(west as u32)
            + le32(ml_off) + le32(ml_len) + le32(158) + le32(sd_len) + le32(152) + le32(6) + le16(3));
        assert(h2 =~= h1 + seq![0u8, 0u8, 0u8, 0u8, 1u8] + le24(0x19) + le32(0x00040101) + le16(1) + seq![0u8]);
        assert(h3 =~= h2 + le32(pov_off) + le32(0) + le16(2) + seq![0u8, 0u8, 0u8, 0u8]
            + le32(pov_off) + le32(pov_len) + le16(2) + seq![0u8, 0u8, 0u8, 0u8]
            + le32(point_off) + le32(3) + le16(3) + seq![0u8, 0u8, 0u8, 0u8] + le32(map_id));
        assert(h3 =~= overview_tre_header(north, east, south, west, map_id, subdivs@.len() as int, ml@.len() as int, pov@.len() as int));
    }
    let cs: [u8; 32] = [0x63, 0x67, 0x70, 0x73, 0x6d, 0x61, 0x70, 0x70, 0x65, 0x72, 0x20,
        0x76, 0x65, 0x72, 0x73, 0x69, 0x6f, 0x6e, 0x30, 0x30, 0x39, 0x36, 0x61, 0x00,
        0x44, 0x45, 0x46, 0x41, 0x55, 0x4c, 0x54, 0x00];
    push_seq(&mut buf, &cs);
    let cr: [u8; 6] = [0x01, 0x00, 0x00, 0x37, 0x0e, 0x00];
    push_seq(&mut buf, &cr);
    push_bytes(&mut buf, subdivs);
    push_bytes(&mut buf, ml);
    push_bytes(&mut buf, pov);
    let po: [u8; 3] = [0x0B, 0x00, 0x00];
    push_seq(&mut buf, &po);
    proof {
        assert(cs@ =~= copyright_strings());
        assert(cr@ =~= copyright_records());
        assert(po@ =~= point_overview());
        assert(buf@ =~= h3 + copyright_strings() + copyright_records() + subdivs@ + ml@ + pov@ + point_overview());
    }
    if buf.len() < OVERVIEW_TRE_LEN {
        let ghost body = buf@;
        while buf.len() < OVERVIEW_TRE_LEN
            invariant
                body.len() <= buf@.len() <= OVERVIEW_TRE_LEN,
                buf@ == body + Seq::new((buf@.len() - body.len()) as nat, |i: int| 0u8),
            decreases OVERVIEW_TRE_LEN - buf@.len(),
        {
            buf.push(0);
            assert(buf@ =~= body + Seq::new((buf@.len() - body.len()) as nat, |i: int| 0u8));
        }
    }
    buf
}

/// The map levels of the single-level overview: level 1 at 14 bits with one
/// subdivision, level 0 at 16 bits with three.
pub open spec fn overview_levels() -> Seq<u8> {
    seq![0x81u8, 14u8, 1u8, 0u8, 0x00u8, 16u8, 3u8, 0u8]
}

/// The map levels of the four-level overview: 10, 12 and 14 bits with one
/// subdivision each, then 16 bits with three.
pub open spec fn overview_levels_4() -> Seq<u8> {
    seq![0x83u8, 10u8, 1u8, 0u8, 0x82u8, 12u8, 1u8, 0u8, 0x81u8, 14u8, 1u8, 0u8, 0x00u8, 16u8, 3u8, 0u8]
}

/// Build the single-level overview TRE over the box `north, east, south,
/// west`: a top division at 14 bits centred on the box over three leaves.
pub fn build_tre(north: i32, east: i32, south: i32, west: i32, map_id: u32,
    leaf_specs: &[(i32, i32, u16, u16, u8)], leaf_rgn_data: &[Vec<u8>]) -> (r: Vec<u8>)
    requires
        i32::MIN <= north + south <= i32::MAX,
        i32::MIN <= east + west <= i32::MAX,
        i32::MIN <= east - west <= i32::MAX,
        i32::MIN <= north - south <= i32::MAX,
        leaf_specs@.len() == 3,
        leaf_rgn_data@.len() >= 3,
        concat(leaf_rgn_data@).len() <= u32::MAX,
    ensures
        r@ == overview_tre(north, east, south, west, map_id,
            overview_subdivs(tdiv(north + south, 2) as i32, tdiv(east + west, 2) as i32,
                half_span((east - west) as i32, 10), half_span((north - south) as i32, 10),
                leaf_specs@, leaf_rgn_data@),
            overview_levels(), default_polygon_overview()),
{
    let clat_top = (north + south) / 2;
    let clon_top = (east + west) / 2;
    let w_top_half = half_span_exec(east - west, 10);
    let h_top_half = half_span_exec(north - south, 10);
    let subdivs = build_subdivs(clat_top, clon_top, w_top_half, h_top_half, leaf_specs, leaf_rgn_data);
    let ml: [u8; 8] = [0x81, 14, 1, 0, 0x00, 16, 3, 0];
    let pov: [u8; 2] = [0x50, 0x00];
    assert(ml@ =~= overview_levels());
    assert(pov@ =~= default_polygon_overview());
    write_overview_tre(north, east, south, west, map_id, subdivs.as_slice(), &ml, &pov)
}

/// Build the four-level overview TRE over the box `north, east, south,
/// west`, with the given polygon overview section.
pub fn build_tre_4levels(north: i32, east: i32, south: i32, west: i32, map_id: u32,
    nonleaf_rgn_data: &[Vec<u8>; 3], leaf_specs: &[(i32, i32, u16, u16, u8); 3], leaf_rgn_data: &[Vec<u8>; 3],
    polygon_overview_data: &[u8]) -> (r: Vec<u8>)
    requires
        i32::MIN <= north + south <= i32::MAX,
        i32::MIN <= east + west <= i32::MAX,
        i32::MIN <= east - west <= i32::MAX,
        i32::MIN <= north - south <= i32::MAX,
        concat(nonleaf_rgn_data@).len() + concat(leaf_rgn_data@).len() <= u32::MAX,
        polygon_overview_data@.len() <= 0x1000_0000,
    ensures
        r@ == overview_tre(north, east, south, west, map_id,
            overview_subdivs_4(tdiv(north + south, 2) as i32, tdiv(east + west, 2) as i32, north, east, south, west,
                nonleaf_rgn_data@, leaf_specs@, leaf_rgn_data@),
            overview_levels_4(), polygon_overview_data@),
{
    let subdivs = build_subdivs_4levels((north + south) / 2, (east + west) / 2, north, east, south, west,
        nonleaf_rgn_data, leaf_specs, leaf_rgn_data);
    let ml: [u8; 16] = [0x83, 10, 1, 0, 0x82, 12, 1, 0, 0x81, 14, 1, 0, 0x00, 16, 3, 0];
    assert(ml@ =~= overview_levels_4());
    write_overview_tre(north, east, south, west, map_id, subdivs.as_slice(), &ml, polygon_overview_data)
}

} // verus!
