//! The NOD subfile: route nodes grouped into route centers (NOD1), per-road
//! node records (NOD2) and boundary nodes (NOD3, NOD4).
use vstd::prelude::*;
use crate::bytes::{le16, le24, le32, push_u16, push_u24, push_u32};
use crate::img::area::{wadd, wsub, tdiv};
use crate::img::common_header::{CommonHeader, header_bytes, write_section, pad_to};
use std::collections::{HashMap, HashSet};

verus! {

broadcast use vstd::std_specs::hash::group_hash_axioms;

pub const NOD_HEADER_LEN: u16 = 127;
/// Route-center tables are aligned to 64 bytes.
pub const NOD_ALIGNMENT: usize = 64;

/// Largest bounding-box dimension of one route center.
pub const NOD1_MAX_SIZE: i32 = 0xF800;
/// Bound on the distinct roads (Table A) of one route center.
pub const NOD1_MAX_TABA: usize = 0xF8;
/// Bound on the external destination nodes (Table B) of one route center.
pub const NOD1_MAX_TABB: usize = 0xFE;
/// Bound on the serialized node bytes of one route center.
pub const NOD1_MAX_NODES_SIZE: usize = 0x2000;
/// Groups still too large at this depth are dropped.
pub const NOD1_MAX_DEPTH: usize = 48;

/// Node flag: coordinates stored as two 16-bit deltas.
pub const F_LARGE_OFFSETS: u8 = 0x20;
/// Node flag: the node has arcs.
pub const F_ARCS: u8 = 0x40;
/// Node flag: the node lies on the tile boundary.
pub const F_BOUNDARY: u8 = 0x08;
/// Arc flag A: the arc starts a new road.
pub const FLAG_HASNET: u8 = 0x80;
/// Arc flag A: the arc runs in the road's direction.
pub const FLAG_FORWARD: u8 = 0x40;
/// Arc flag B: the node's last arc.
pub const FLAG_LAST_LINK: u8 = 0x80;

/// A node of the routing network.
#[derive(Debug, Clone)]
pub struct RouteNode {
    /// 24-bit map units
    pub lat: i32,
    pub lon: i32,
    pub arcs: Vec<RouteArc>,
    pub is_boundary: bool,
    pub node_class: u8,
}

/// An arc from one route node to another.
#[derive(Debug, Clone, Copy)]
pub struct RouteArc {
    pub dest_node_index: usize,
    pub road_def_index: usize,
    pub length_meters: u32,
    pub forward: bool,
    pub road_class: u8,
    pub speed: u8,
    pub access: u16,
    pub toll: bool,
    pub one_way: bool,
    /// Initial heading in Garmin direction units (256 per full turn)
    pub initial_heading: i8,
}

/// A group of nearby route nodes.
#[derive(Debug, Clone)]
pub struct RouteCenter {
    pub center_lat: i32,
    pub center_lon: i32,
    /// Indices into the node array
    pub nodes: Vec<usize>,
}

/// The flag-A length bits and the length bytes of an arc of raw length `raw`.
pub open spec fn spec_arc_length(raw: u32, have_curve: bool) -> (u8, Seq<u8>) {
    let threshold: u32 = if have_curve { 0x300 } else { 0x400 };
    if raw < threshold {
        let curve: u8 = if have_curve { 0x20 } else { 0 };
        (curve | (((raw >> 5u32) as u8) & 0x18u8), seq![(raw & 0xFFu32) as u8])
    } else if raw >= 0x4000 {
        (0x38u8, seq![0xC0u8 | ((raw & 0x3Fu32) as u8), ((raw >> 6u32) & 0xFFu32) as u8,
            ((raw >> 14u32) & 0xFFu32) as u8])
    } else if have_curve {
        (0x38u8, seq![(raw & 0x7Fu32) as u8, ((raw >> 7u32) & 0xFFu32) as u8])
    } else {
        (0x38u8, seq![0x80u8 | ((raw & 0x3Fu32) as u8), ((raw >> 6u32) & 0xFFu32) as u8])
    }
}

/// Encode an arc length: the flag-A bits 3..5 and 1 to 3 length bytes
/// (10-bit, 14- or 15-bit, or 22-bit form).
pub fn encode_arc_length(raw_length: u32, have_curve: bool) -> (r: (u8, Vec<u8>))
    ensures
        r.0 == spec_arc_length(raw_length, have_curve).0,
        r.1@ == spec_arc_length(raw_length, have_curve).1,
        1 <= r.1@.len() <= 3,
{
    let threshold: u32 = if have_curve { 0x300 } else { 0x400 };
    if raw_length < threshold {
        let curve: u8 = if have_curve { 0x20 } else { 0 };
        let flag_bits: u8 = curve | (((raw_length >> 5u32) as u8) & 0x18);
        let data = vec![(raw_length & 0xFF) as u8];
        (flag_bits, data)
    } else {
        let flag_bits: u8 = 0x38;
        if raw_length >= 0x4000 {
            let data = vec![
                0xC0 | ((raw_length & 0x3F) as u8),
                ((raw_length >> 6u32) & 0xFF) as u8,
                ((raw_length >> 14u32) & 0xFF) as u8,
            ];
            (flag_bits, data)
        } else if have_curve {
            let data = vec![(raw_length & 0x7F) as u8, ((raw_length >> 7u32) & 0xFF) as u8];
            (flag_bits, data)
        } else {
            let data = vec![0x80 | ((raw_length & 0x3F) as u8), ((raw_length >> 6u32) & 0xFF) as u8];
            (flag_bits, data)
        }
    }
}

/// Without a curve, the length written by `encode_arc_length` reads back:
/// from the flag bits and one byte below 0x400, from the low 6 bits and the
/// next byte below 0x4000, and from 6 + 8 + 8 bits below 2^22.
pub proof fn lemma_arc_length_roundtrip(raw: u32)
    requires
        raw < 0x40_0000,
    ensures
        ({
            let (f, d) = spec_arc_length(raw, false);
            &&& raw < 0x400 ==> d.len() == 1 && (f & 0x38) != 0x38 && (((f & 0x18u8) as u32) << 5u32) | (d[0] as u32) == raw
            &&& 0x400 <= raw < 0x4000 ==> d.len() == 2 && f == 0x38 && (d[0] & 0xC0u8) == 0x80
                && ((d[0] & 0x3Fu8) as u32) | ((d[1] as u32) << 6u32) == raw
            &&& 0x4000 <= raw ==> d.len() == 3 && f == 0x38 && (d[0] & 0xC0u8) == 0xC0
                && ((d[0] & 0x3Fu8) as u32) | ((d[1] as u32) << 6u32) | ((d[2] as u32) << 14u32) == raw
        }),
{
    let f1: u8 = ((raw >> 5u32) as u8) & 0x18u8;
    let b0: u8 = (raw & 0xFFu32) as u8;
    assert(raw < 0x400 ==> (0u8 | f1) & 0x38 != 0x38 && ((((0u8 | f1) & 0x18u8) as u32) << 5u32) | (b0 as u32) == raw) by (bit_vector)
        requires f1 == ((raw >> 5u32) as u8) & 0x18u8, b0 == (raw & 0xFFu32) as u8;
    let c0: u8 = 0x80u8 | ((raw & 0x3Fu32) as u8);
    let c1: u8 = ((raw >> 6u32) & 0xFFu32) as u8;
    assert(0x400 <= raw < 0x4000 ==> (c0 & 0xC0u8) == 0x80 && ((c0 & 0x3Fu8) as u32) | ((c1 as u32) << 6u32) == raw) by (bit_vector)
        requires c0 == 0x80u8 | ((raw & 0x3Fu32) as u8), c1 == ((raw >> 6u32) & 0xFFu32) as u8;
    let d0: u8 = 0xC0u8 | ((raw & 0x3Fu32) as u8);
    let d2: u8 = ((raw >> 14u32) & 0xFFu32) as u8;
    assert(0x4000 <= raw < 0x40_0000 ==> (d0 & 0xC0u8) == 0xC0 && ((d0 & 0x3Fu8) as u32) | ((c1 as u32) << 6u32) | ((d2 as u32) << 14u32) == raw) by (bit_vector)
        requires d0 == 0xC0u8 | ((raw & 0x3Fu32) as u8), c1 == ((raw >> 6u32) & 0xFFu32) as u8, d2 == ((raw >> 14u32) & 0xFFu32) as u8;
}

/// `round(meters / 4.8)`, halves rounded up: `(5 * meters + 12) / 24`.
pub open spec fn spec_raw_length(meters: u32) -> u32 {
    ((5 * meters + 12) / 24) as u32
}

/// Convert meters to raw arc length units of 4.8 m, rounded to nearest.
pub fn meters_to_raw_length(meters: u32) -> (r: u32)
    ensures
        r == spec_raw_length(meters),
        r * 24 <= 5 * meters + 12 < r * 24 + 24,
{
    let m: u64 = meters as u64;
    ((5 * m + 12) / 24) as u32
}

/// Table A entry: one per distinct road of a route center (5 bytes).
#[derive(Debug, Clone, Copy)]
pub struct TableAEntry {
    pub net1_offset: u32,
    pub road_class: u8,
    pub speed: u8,
    pub toll: bool,
    pub one_way: bool,
    pub access: u16,
}

/// The Table A info byte: toll, class, one-way and speed.
pub open spec fn tab_a_info(road_class: u8, speed: u8, toll: bool, one_way: bool) -> u8 {
    let base: u8 = (road_class << 4u8) | speed;
    let t: u8 = if toll { base | 0x80u8 } else { base };
    if one_way { t | 0x08u8 } else { t }
}

impl TableAEntry {
    /// The five bytes of the entry: the NET1 offset (22 bits) with the two
    /// top access bits above it, the info byte, and the low access byte.
    pub open spec fn spec_bytes(&self) -> Seq<u8> {
        le24((self.net1_offset & 0x3F_FFFFu32) | (((self.access as u32) & 0xC000u32) << 8u32))
            + seq![tab_a_info(self.road_class, self.speed, self.toll, self.one_way), self.access as u8]
    }

    pub fn write(&self, buf: &mut Vec<u8>)
        ensures
            final(buf)@ == old(buf)@ + self.spec_bytes(),
    {
        let ghost start = buf@;
        let access_top: u32 = ((self.access as u32) & 0xC000) << 8u32;
        let val: u32 = (self.net1_offset & 0x3F_FFFF) | access_top;
        push_u24(buf, val);
        let mut info: u8 = (self.road_class << 4u8) | self.speed;
        if self.toll {
            info = info | 0x80;
        }
        if self.one_way {
            info = info | 0x08;
        }
        buf.push(info);
        buf.push(self.access as u8);
        assert(buf@ =~= start + self.spec_bytes());
    }
}

/// Table B entry: one per external node of a route center (3 bytes).
#[derive(Debug, Clone, Copy)]
pub struct TableBEntry {
    pub nod1_offset: u32,
}

impl TableBEntry {
    pub fn write(&self, buf: &mut Vec<u8>)
        ensures
            final(buf)@ == old(buf)@ + le24(self.nod1_offset),
    {
        push_u24(buf, self.nod1_offset);
    }
}

/// Per-road NOD2 record input.
#[derive(Debug, Clone, Copy)]
pub struct Nod2RoadInfo {
    pub road_class: u8,
    pub speed: u8,
    /// Number of route nodes on the road
    pub num_route_nodes: u16,
    /// Whether the road's first vertex is a route node
    pub starts_with_node: bool,
    /// NOD1 offset of the road's first route node
    pub first_node_nod1_offset: u32,
}

/// Number of bits of a road's NOD2 bit stream.
pub open spec fn nod2_nbits(r: Nod2RoadInfo) -> int {
    r.num_route_nodes + if r.starts_with_node { 0int } else { 1int }
}

/// Byte `k` of the bit stream, bits packed least significant first.
pub open spec fn nod2_stream_byte(r: Nod2RoadInfo, k: int) -> u8 {
    let n = nod2_nbits(r) - 8 * k;
    let full: u8 = if n >= 8 { 0xFFu8 } else { (((1u32 << (n as u32)) - 1) as u8) };
    if k == 0 && !r.starts_with_node { full & 0xFEu8 } else { full }
}

/// The NOD2 record of one road: flags, NOD1 pointer, bit count, bit stream.
pub open spec fn nod2_record(r: Nod2RoadInfo) -> Seq<u8> {
    let flags: u8 = 0x01u8 | ((r.road_class & 0x07u8) << 4u8) | ((r.speed & 0x07u8) << 1u8);
    let nb = nod2_nbits(r);
    seq![flags] + le24(r.first_node_nod1_offset) + le16(nb as u16)
        + Seq::new(((nb + 7) / 8) as nat, |k: int| nod2_stream_byte(r, k))
}

/// The NOD2 records of `roads`, one after the other.
pub open spec fn nod2_records(roads: Seq<Nod2RoadInfo>) -> Seq<u8>
    decreases roads.len(),
{
    if roads.len() == 0 {
        Seq::empty()
    } else {
        nod2_records(roads.drop_last()) + nod2_record(roads.last())
    }
}

/// The stream byte `k` of a road, as the loop over its bits builds it.
fn nod2_byte(r: &Nod2RoadInfo, k: u32, nbits: u32) -> (b: u8)
    requires
        nbits == nod2_nbits(*r),
        8 * k < nbits,
    ensures
        b == nod2_stream_byte(*r, k as int),
{
    let n: u32 = nbits - 8 * k;
    assert(n < 8 ==> 1u32 << n >= 1) by (bit_vector);
    let full: u8 = if n >= 8 { 0xFF } else { ((1u32 << n) - 1) as u8 };
    if k == 0 && !r.starts_with_node { full & 0xFE } else { full }
}

/// Write the NOD2 records of `roads`; returns the data and the offset of
/// each road's record.
pub fn write_nod2_records(roads: &[Nod2RoadInfo]) -> (r: (Vec<u8>, Vec<u32>))
    requires
        forall|i: int| 0 <= i < roads@.len() ==> nod2_nbits(#[trigger] roads@[i]) <= u16::MAX,
    ensures
        r.0@ == nod2_records(roads@),
        r.1@.len() == roads@.len(),
        forall|i: int| 0 <= i < roads@.len() ==> #[trigger] r.1@[i] == (nod2_records(roads@.take(i)).len() as u32),
{
    let mut data: Vec<u8> = Vec::new();
    let mut offsets: Vec<u32> = Vec::new();
    let mut i: usize = 0;
    while i < roads.len()
        invariant
            i <= roads@.len(),
            forall|i: int| 0 <= i < roads@.len() ==> nod2_nbits(#[trigger] roads@[i]) <= u16::MAX,
            data@ == nod2_records(roads@.take(i as int)),
            offsets@.len() == i,
            forall|t: int| 0 <= t < i ==> #[trigger] offsets@[t] == (nod2_records(roads@.take(t)).len() as u32),
        decreases roads@.len() - i,
    {
        let road = &roads[i];
        let ghost start = data@;
        offsets.push(data.len() as u32);
        let flags: u8 = 0x01 | ((road.road_class & 0x07) << 4u8) | ((road.speed & 0x07) << 1u8);
        data.push(flags);
        push_u24(&mut data, road.first_node_nod1_offset);
        let extra: u16 = if road.starts_with_node { 0 } else { 1 };
        let nbits: u16 = road.num_route_nodes + extra;
        push_u16(&mut data, nbits);
        let nbytes: u32 = (nbits as u32 + 7) / 8;
        let ghost head = data@;
        let mut k: u32 = 0;
        while k < nbytes
            invariant
                nbits == nod2_nbits(*road),
                nbytes == (nbits + 7) / 8,
                k <= nbytes,
                data@ == head + Seq::new(k as nat, |x: int| nod2_stream_byte(*road, x)),
            decreases nbytes - k,
        {
            let b = nod2_byte(road, k, nbits as u32);
            data.push(b);
            k = k + 1;
            assert(data@ =~= head + Seq::new(k as nat, |x: int| nod2_stream_byte(*road, x)));
        }
        assert(roads@.take(i + 1).drop_last() =~= roads@.take(i as int));
        assert(data@ =~= start + nod2_record(*road));
        i = i + 1;
    }
    assert(roads@.take(roads@.len() as int) =~= roads@);
    (data, offsets)
}

/// The route-center low byte of a node: 64-byte blocks from the node to the
/// tables, minus one, kept to 8 bits.
pub open spec fn spec_low_byte(node_offset: usize, tables_offset: usize) -> u8 {
    ((tables_offset as int / 64) - (node_offset as int / 64) - 1) as u8
}

/// `(tables_offset >> 6) - (node_offset >> 6) - 1`, kept to 8 bits; the
/// node lies in an earlier 64-byte block than the tables.
pub fn calc_low_byte(node_offset: usize, tables_offset: usize) -> (r: u8)
    requires
        node_offset / 64 < tables_offset / 64,
    ensures
        r == spec_low_byte(node_offset, tables_offset),
{
    assert(tables_offset >> 6usize == tables_offset / 64) by (bit_vector);
    assert(node_offset >> 6usize == node_offset / 64) by (bit_vector);
    let low: usize = (tables_offset >> 6usize) - (node_offset >> 6usize) - 1;
    low as u8
}


/// Upper bound on the serialized size of one arc: flag A, destination
/// (two bytes at most), Table A index, heading, and the length bytes.
pub open spec fn spec_arc_bound_size(arc: RouteArc) -> int {
    5 + spec_arc_length(spec_raw_length(arc.length_meters), false).1.len() as int
}

fn arc_bound_size(arc: &RouteArc) -> (r: usize)
    ensures
        r == spec_arc_bound_size(*arc),
        6 <= r <= 8,
{
    let raw_len = meters_to_raw_length(arc.length_meters);
    let (_, len_data) = encode_arc_length(raw_len, false);
    5 + len_data.len()
}

/// Upper bound on the serialized size of a node's arcs.
pub open spec fn arcs_bound_size(arcs: Seq<RouteArc>) -> int
    decreases arcs.len(),
{
    if arcs.len() == 0 {
        0
    } else {
        arcs_bound_size(arcs.drop_last()) + spec_arc_bound_size(arcs.last())
    }
}

proof fn lemma_arcs_bound_size(arcs: Seq<RouteArc>)
    ensures
        6 * arcs.len() <= arcs_bound_size(arcs) <= 8 * arcs.len(),
    decreases arcs.len(),
{
    if arcs.len() > 0 {
        lemma_arcs_bound_size(arcs.drop_last());
        let raw = spec_raw_length(arcs.last().length_meters);
        assert(1 <= spec_arc_length(raw, false).1.len() <= 3);
    }
}

/// Upper bound on the serialized size of one node: low byte, flags, four
/// coordinate bytes, and its arcs.
pub open spec fn spec_node_bound_size(node: RouteNode) -> int {
    6 + arcs_bound_size(node.arcs@)
}

fn node_bound_size(node: &RouteNode) -> (r: usize)
    requires
        node.arcs@.len() < 0x1000_0000,
    ensures
        r == spec_node_bound_size(*node),
{
    let mut total: usize = 0;
    let mut i: usize = 0;
    while i < node.arcs.len()
        invariant
            i <= node.arcs@.len() < 0x1000_0000,
            total == arcs_bound_size(node.arcs@.take(i as int)),
        decreases node.arcs@.len() - i,
    {
        proof {
            assert(node.arcs@.take(i + 1).drop_last() =~= node.arcs@.take(i as int));
            lemma_arcs_bound_size(node.arcs@.take(i + 1));
        }
        total = total + arc_bound_size(&node.arcs[i]);
        i = i + 1;
    }
    assert(node.arcs@.take(node.arcs@.len() as int) =~= node.arcs@);
    proof {
        lemma_arcs_bound_size(node.arcs@);
    }
    6 + total
}

/// Order of route nodes within a center: by longitude, then latitude.
pub open spec fn node_le(nodes: Seq<RouteNode>, a: usize, b: usize) -> bool {
    nodes[a as int].lon < nodes[b as int].lon || (nodes[a as int].lon == nodes[b as int].lon
        && nodes[a as int].lat <= nodes[b as int].lat)
}

/// `idx` is sorted by longitude, then latitude, of the nodes it names.
pub open spec fn sorted_by_position(nodes: Seq<RouteNode>, idx: Seq<usize>) -> bool {
    forall|i: int, j: int| 0 <= i < j < idx.len() ==> node_le(nodes, #[trigger] idx[i], #[trigger] idx[j])
}

/// Every index names a node.
pub open spec fn indices_valid(nodes: Seq<RouteNode>, idx: Seq<usize>) -> bool {
    forall|i: int| 0 <= i < idx.len() ==> #[trigger] idx[i] < nodes.len()
}

/// Where node `x` goes in `s`: after every node at or before its position,
/// before the first node after it.
pub open spec fn insert_pos(nodes: Seq<RouteNode>, s: Seq<usize>, x: usize) -> int {
    choose|p: int| is_insert_pos(nodes, s, x, p)
}

/// `p` is where node `x` goes in `s`.
pub open spec fn is_insert_pos(nodes: Seq<RouteNode>, s: Seq<usize>, x: usize, p: int) -> bool {
    &&& 0 <= p <= s.len()
    &&& forall|i: int| 0 <= i < p ==> node_le(nodes, #[trigger] s[i], x)
    &&& p == s.len() || !node_le(nodes, s[p], x)
}

/// `idx` sorted by node position by insertion, one index after another:
/// equal positions keep their order.
pub open spec fn position_sorted(nodes: Seq<RouteNode>, idx: Seq<usize>) -> Seq<usize>
    decreases idx.len(),
{
    if idx.len() == 0 {
        Seq::empty()
    } else {
        let s = position_sorted(nodes, idx.drop_last());
        s.insert(insert_pos(nodes, s, idx.last()), idx.last())
    }
}

/// The indices sorted by node position (longitude, then latitude); equal
/// positions keep their order.
fn sort_by_position(nodes: &Vec<RouteNode>, indices: &Vec<usize>) -> (r: Vec<usize>)
    requires
        indices_valid(nodes@, indices@),
    ensures
        r@ == position_sorted(nodes@, indices@),
        r@.to_multiset() == indices@.to_multiset(),
        r@.len() == indices@.len(),
        indices_valid(nodes@, r@),
        sorted_by_position(nodes@, r@),
{
    broadcast use vstd::seq_lib::group_to_multiset_ensures;
    let mut out: Vec<usize> = Vec::new();
    let mut k: usize = 0;
    assert(indices@.take(0) =~= Seq::<usize>::empty());
    while k < indices.len()
        invariant
            k <= indices@.len(),
            indices_valid(nodes@, indices@),
            out@.to_multiset() == indices@.take(k as int).to_multiset(),
            out@ == position_sorted(nodes@, indices@.take(k as int)),
            out@.len() == k,
            indices_valid(nodes@, out@),
            sorted_by_position(nodes@, out@),
        decreases indices@.len() - k,
    {
        let x = indices[k];
        let mut p: usize = 0;
        while p < out.len() && !(nodes[x].lon < nodes[out[p]].lon
            || (nodes[x].lon == nodes[out[p]].lon && nodes[x].lat < nodes[out[p]].lat))
            invariant
                p <= out@.len(),
                x < nodes@.len(),
                indices_valid(nodes@, out@),
                forall|i: int| 0 <= i < p ==> node_le(nodes@, #[trigger] out@[i], x),
            decreases out@.len() - p,
        {
            p = p + 1;
        }
        let ghost before = out@;
        proof {
            assert(indices@.take(k + 1).drop_last() =~= indices@.take(k as int));
            assert(is_insert_pos(nodes@, before, x, p as int));
            let q = insert_pos(nodes@, before, x);
            assert(is_insert_pos(nodes@, before, x, q));
            if q < p {
                assert(node_le(nodes@, before[q], x));
            }
            if p < q {
                assert(node_le(nodes@, before[p as int], x));
            }
            assert forall|i: int| p <= i < before.len() implies node_le(nodes@, x, #[trigger] before[i]) by {
                assert(node_le(nodes@, before[p as int], before[i]));
            }
        }
        out.insert(p, x);
        proof {
            assert(indices@.take(k + 1) =~= indices@.take(k as int).push(x));
            vstd::seq_lib::to_multiset_build(indices@.take(k as int), x);
            vstd::seq_lib::to_multiset_insert(before, p as int, x);
            assert forall|i: int, j: int| 0 <= i < j < out@.len() implies node_le(nodes@, #[trigger] out@[i], #[trigger] out@[j]) by {
                if i < p && j == p {
                } else if i < p && j > p {
                    assert(out@[j] == before[j - 1]);
                } else if i == p {
                    assert(out@[j] == before[j - 1]);
                } else if i > p {
                    assert(out@[i] == before[i - 1] && out@[j] == before[j - 1]);
                } else {
                    assert(out@[i] == before[i] && out@[j] == before[j]);
                }
            }
        }
        k = k + 1;
    }
    assert(indices@.take(indices@.len() as int) =~= indices@);
    out
}


/// Every arc of every node leads to a node of the array.
pub open spec fn arcs_valid(nodes: Seq<RouteNode>) -> bool {
    forall|n: int, a: int| 0 <= n < nodes.len() && 0 <= a < nodes[n].arcs@.len()
        ==> #[trigger] nodes[n].arcs@[a].dest_node_index < nodes.len()
}

/// No node has an absurd number of arcs.
pub open spec fn arcs_counted(nodes: Seq<RouteNode>) -> bool {
    forall|n: int| 0 <= n < nodes.len() ==> (#[trigger] nodes[n]).arcs@.len() < 0x1000_0000
}

/// The centers that `subdivide_nodes` appended are grouped from `indices`,
/// non-empty and sorted by position.
pub open spec fn centers_from(nodes: Seq<RouteNode>, indices: Seq<usize>, added: Seq<RouteCenter>) -> bool {
    forall|c: int| 0 <= c < added.len() ==> {
        &&& (#[trigger] added[c]).nodes@.len() > 0
        &&& indices_valid(nodes, added[c].nodes@)
        &&& sorted_by_position(nodes, added[c].nodes@)
        &&& forall|i: int| 0 <= i < added[c].nodes@.len() ==> indices.contains(#[trigger] added[c].nodes@[i])
    }
}

/// The longitude (`by_lon`) or latitude of a node.
pub open spec fn coord(node: RouteNode, by_lon: bool) -> i32 {
    if by_lon { node.lon } else { node.lat }
}

/// The least longitude or latitude of the nodes `idx` (`i32::MAX` for none).
pub open spec fn min_coord(nodes: Seq<RouteNode>, idx: Seq<usize>, by_lon: bool) -> i32
    decreases idx.len(),
{
    if idx.len() == 0 {
        i32::MAX
    } else {
        let m = min_coord(nodes, idx.drop_last(), by_lon);
        let v = coord(nodes[idx.last() as int], by_lon);
        if v < m { v } else { m }
    }
}

/// The greatest longitude or latitude plus one of the nodes `idx`
/// (`i32::MIN` for none).
pub open spec fn max_coord(nodes: Seq<RouteNode>, idx: Seq<usize>, by_lon: bool) -> i32
    decreases idx.len(),
{
    if idx.len() == 0 {
        i32::MIN
    } else {
        let m = max_coord(nodes, idx.drop_last(), by_lon);
        let v = wadd(coord(nodes[idx.last() as int], by_lon), 1);
        if v > m { v } else { m }
    }
}

/// The sum of the node size bounds of the nodes `idx`.
pub open spec fn group_size(nodes: Seq<RouteNode>, idx: Seq<usize>) -> int
    decreases idx.len(),
{
    if idx.len() == 0 {
        0
    } else {
        group_size(nodes, idx.drop_last()) + spec_node_bound_size(nodes[idx.last() as int])
    }
}

/// The bounding-box width (`by_lon`) or height of the nodes `idx`.
pub open spec fn group_extent(nodes: Seq<RouteNode>, idx: Seq<usize>, by_lon: bool) -> i32 {
    wsub(max_coord(nodes, idx, by_lon), min_coord(nodes, idx, by_lon))
}

/// The nodes `idx` fit one route center: bounding box, distinct roads,
/// external destinations and node bytes all within the limits.
pub open spec fn group_fits(nodes: Seq<RouteNode>, idx: Seq<usize>) -> bool {
    let w = group_extent(nodes, idx, true);
    let h = group_extent(nodes, idx, false);
    let dim = if w >= h { w } else { h };
    let arcs = center_arcs(nodes, idx);
    &&& dim < NOD1_MAX_SIZE
    &&& roads_of(arcs).len() < NOD1_MAX_TABA
    &&& external_dests(arcs, node_set(idx)).len() < NOD1_MAX_TABB
    &&& group_size(nodes, idx) < NOD1_MAX_NODES_SIZE
}

/// The midpoint `(a + b) / 2`, the sum wrapping and the quotient rounded
/// toward zero.
pub open spec fn halve(a: i32, b: i32) -> i32 {
    tdiv(wadd(a, b) as int, 2) as i32
}

/// The nodes of `idx` below `mid` (`below`) or at or above it, along the
/// longitude or latitude, in order.
pub open spec fn part_of(nodes: Seq<RouteNode>, idx: Seq<usize>, by_lon: bool, mid: i32, below: bool) -> Seq<usize>
    decreases idx.len(),
{
    if idx.len() == 0 {
        Seq::empty()
    } else {
        let p = part_of(nodes, idx.drop_last(), by_lon, mid, below);
        if (coord(nodes[idx.last() as int], by_lon) < mid) == below { p.push(idx.last()) } else { p }
    }
}

/// The route centers that the nodes `idx` split into at depth `depth`, as
/// (center latitude, center longitude, nodes): none for no nodes; one
/// center at the bounding-box midpoint with the nodes sorted by position
/// where they fit; none below the depth limit; else the centers of the
/// nodes below the midpoint of the wider side, then those of the rest.
pub open spec fn subdivided(nodes: Seq<RouteNode>, idx: Seq<usize>, depth: int) -> Seq<(i32, i32, Seq<usize>)>
    decreases NOD1_MAX_DEPTH + 1 - depth,
{
    if idx.len() == 0 {
        Seq::empty()
    } else if group_fits(nodes, idx) {
        seq![(
            halve(min_coord(nodes, idx, false), max_coord(nodes, idx, false)),
            halve(min_coord(nodes, idx, true), max_coord(nodes, idx, true)),
            position_sorted(nodes, idx),
        )]
    } else if depth > NOD1_MAX_DEPTH {
        Seq::empty()
    } else {
        let by_lon = group_extent(nodes, idx, true) > group_extent(nodes, idx, false);
        let mid = halve(min_coord(nodes, idx, by_lon), max_coord(nodes, idx, by_lon));
        subdivided(nodes, part_of(nodes, idx, by_lon, mid, true), depth + 1) + subdivided(
            nodes,
            part_of(nodes, idx, by_lon, mid, false),
            depth + 1,
        )
    }
}

/// The added centers are those of `sub`, in order.
pub open spec fn centers_match(added: Seq<RouteCenter>, sub: Seq<(i32, i32, Seq<usize>)>) -> bool {
    &&& added.len() == sub.len()
    &&& forall|c: int| 0 <= c < added.len() ==> {
        &&& (#[trigger] added[c]).center_lat == sub[c].0
        &&& added[c].center_lon == sub[c].1
        &&& added[c].nodes@ == sub[c].2
    }
}

/// The bounds of the nodes `indices` (least latitude, greatest latitude
/// plus one, least longitude, greatest longitude plus one) and their set.
fn group_bounds(nodes: &Vec<RouteNode>, indices: &Vec<usize>) -> (r: (i32, i32, i32, i32, HashSet<usize>))
    requires
        indices_valid(nodes@, indices@),
    ensures
        r.0 == min_coord(nodes@, indices@, false),
        r.1 == max_coord(nodes@, indices@, false),
        r.2 == min_coord(nodes@, indices@, true),
        r.3 == max_coord(nodes@, indices@, true),
        r.4@ == node_set(indices@),
{
    let ghost idx = indices@;
    let mut min_lat: i32 = i32::MAX;
    let mut max_lat: i32 = i32::MIN;
    let mut min_lon: i32 = i32::MAX;
    let mut max_lon: i32 = i32::MIN;
    let mut index_set: HashSet<usize> = HashSet::new();
    let mut k: usize = 0;
    while k < indices.len()
        invariant
            k <= idx.len(),
            idx == indices@,
            indices_valid(nodes@, idx),
            min_lat == min_coord(nodes@, idx.take(k as int), false),
            max_lat == max_coord(nodes@, idx.take(k as int), false),
            min_lon == min_coord(nodes@, idx.take(k as int), true),
            max_lon == max_coord(nodes@, idx.take(k as int), true),
            index_set@ == node_set(idx.take(k as int)),
        decreases idx.len() - k,
    {
        assert(idx.take(k + 1).drop_last() =~= idx.take(k as int));
        let x = indices[k];
        let n = &nodes[x];
        if n.lat < min_lat { min_lat = n.lat; }
        if wadd_exec(n.lat, 1) > max_lat { max_lat = wadd_exec(n.lat, 1); }
        if n.lon < min_lon { min_lon = n.lon; }
        if wadd_exec(n.lon, 1) > max_lon { max_lon = wadd_exec(n.lon, 1); }
        index_set.insert(x);
        assert(index_set@ =~= node_set(idx.take(k + 1))) by {
            assert forall|y: usize| index_set@.contains(y) <==> #[trigger] idx.take(k + 1).contains(y) by {
                if idx.take(k as int).contains(y) {
                    let j = choose|j: int| 0 <= j < k && #[trigger] idx.take(k as int)[j] == y;
                    assert(idx.take(k + 1)[j] == y);
                }
                if y == x {
                    assert(idx.take(k + 1)[k as int] == y);
                }
                if idx.take(k + 1).contains(y) {
                    let j = choose|j: int| 0 <= j < k + 1 && #[trigger] idx.take(k + 1)[j] == y;
                    if j < k {
                        assert(idx.take(k as int)[j] == y);
                    }
                }
            }
        }
        k = k + 1;
    }
    assert(idx.take(idx.len() as int) =~= idx);
    (min_lat, max_lat, min_lon, max_lon, index_set)
}

/// The distinct roads of `arcs` do not repeat.
proof fn lemma_roads_of_distinct(arcs: Seq<RouteArc>)
    ensures
        roads_of(arcs).no_duplicates(),
    decreases arcs.len(),
{
    if arcs.len() > 0 {
        lemma_roads_of_distinct(arcs.drop_last());
    }
}

/// The external destinations of `arcs` do not repeat.
proof fn lemma_external_dests_distinct(arcs: Seq<RouteArc>, cset: Set<usize>)
    ensures
        external_dests(arcs, cset).no_duplicates(),
    decreases arcs.len(),
{
    if arcs.len() > 0 {
        lemma_external_dests_distinct(arcs.drop_last(), cset);
    }
}

/// Whether the nodes `indices`, with the set `index_set` and the bounding
/// box side `dim`, fit one route center.
fn group_fits_exec(nodes: &Vec<RouteNode>, indices: &Vec<usize>, index_set: &HashSet<usize>, dim: i32) -> (r: bool)
    requires
        indices_valid(nodes@, indices@),
        arcs_counted(nodes@),
        index_set@ == node_set(indices@),
        dim == (if group_extent(nodes@, indices@, true) >= group_extent(nodes@, indices@, false) {
            group_extent(nodes@, indices@, true)
        } else {
            group_extent(nodes@, indices@, false)
        }),
    ensures
        r == group_fits(nodes@, indices@),
{
    let ghost idx = indices@;
    let ghost cset = node_set(idx);
    let mut road_defs: HashSet<usize> = HashSet::new();
    let mut dest_nodes_ext: HashSet<usize> = HashSet::new();
    let mut nodes_size: usize = 0;
    let mut k: usize = 0;
    assert(roads_of(center_arcs(nodes@, idx.take(0))).to_set() =~= Set::<usize>::empty());
    assert(external_dests(center_arcs(nodes@, idx.take(0)), cset).to_set() =~= Set::<usize>::empty());
    while k < indices.len()
        invariant
            k <= idx.len(),
            idx == indices@,
            cset == node_set(idx),
            index_set@ == cset,
            indices_valid(nodes@, idx),
            arcs_counted(nodes@),
            nodes_size < NOD1_MAX_NODES_SIZE + 0x8000_0000,
            group_size(nodes@, idx.take(k as int)) < NOD1_MAX_NODES_SIZE ==> nodes_size == group_size(nodes@,
                idx.take(k as int)),
            group_size(nodes@, idx.take(k as int)) >= NOD1_MAX_NODES_SIZE ==> nodes_size >= NOD1_MAX_NODES_SIZE,
            road_defs@ == roads_of(center_arcs(nodes@, idx.take(k as int))).to_set(),
            dest_nodes_ext@ == external_dests(center_arcs(nodes@, idx.take(k as int)), cset).to_set(),
        decreases idx.len() - k,
    {
        assert(idx.take(k + 1).drop_last() =~= idx.take(k as int));
        let n = &nodes[indices[k]];
        proof {
            lemma_arcs_bound_size(n.arcs@);
        }
        if nodes_size < NOD1_MAX_NODES_SIZE {
            nodes_size = nodes_size + node_bound_size(n);
        }
        let ghost pre = center_arcs(nodes@, idx.take(k as int));
        let mut a: usize = 0;
        while a < n.arcs.len()
            invariant
                a <= n.arcs@.len(),
                index_set@ == cset,
                road_defs@ == roads_of(pre + n.arcs@.take(a as int)).to_set(),
                dest_nodes_ext@ == external_dests(pre + n.arcs@.take(a as int), cset).to_set(),
            decreases n.arcs@.len() - a,
        {
            let arc = &n.arcs[a];
            let ghost s0 = pre + n.arcs@.take(a as int);
            assert(pre + n.arcs@.take(a + 1) =~= s0.push(*arc));
            assert(s0.push(*arc).drop_last() =~= s0);
            road_defs.insert(arc.road_def_index);
            proof {
                let rs = roads_of(s0);
                if rs.contains(arc.road_def_index) {
                    assert(rs.to_set().insert(arc.road_def_index) =~= rs.to_set());
                } else {
                    rs.lemma_push_to_set_commute(arc.road_def_index);
                }
            }
            if !index_set.contains(&arc.dest_node_index) {
                dest_nodes_ext.insert(arc.dest_node_index);
            }
            proof {
                let es = external_dests(s0, cset);
                let d = arc.dest_node_index;
                if !cset.contains(d) {
                    if es.contains(d) {
                        assert(es.to_set().insert(d) =~= es.to_set());
                    } else {
                        es.lemma_push_to_set_commute(d);
                    }
                }
            }
            a = a + 1;
        }
        assert(n.arcs@.take(n.arcs@.len() as int) =~= n.arcs@);
        k = k + 1;
    }
    assert(idx.take(idx.len() as int) =~= idx);
    let ghost arcs = center_arcs(nodes@, idx);
    proof {
        lemma_roads_of_distinct(arcs);
        roads_of(arcs).unique_seq_to_set();
        lemma_external_dests_distinct(arcs, cset);
        external_dests(arcs, cset).unique_seq_to_set();
    }
    dim < NOD1_MAX_SIZE && road_defs.len() < NOD1_MAX_TABA && dest_nodes_ext.len() < NOD1_MAX_TABB
        && nodes_size < NOD1_MAX_NODES_SIZE
}

/// The nodes of `indices` below `mid` and the others, along the longitude
/// (`by_lon`) or latitude, each in order.
fn split_indices(nodes: &Vec<RouteNode>, indices: &Vec<usize>, by_lon: bool, mid: i32) -> (r: (Vec<usize>, Vec<usize>))
    requires
        indices_valid(nodes@, indices@),
    ensures
        r.0@ == part_of(nodes@, indices@, by_lon, mid, true),
        r.1@ == part_of(nodes@, indices@, by_lon, mid, false),
        indices_valid(nodes@, r.0@),
        indices_valid(nodes@, r.1@),
        forall|i: int| 0 <= i < r.0@.len() ==> indices@.contains(#[trigger] r.0@[i]),
        forall|i: int| 0 <= i < r.1@.len() ==> indices@.contains(#[trigger] r.1@[i]),
{
    let ghost idx = indices@;
    let mut left: Vec<usize> = Vec::new();
    let mut right: Vec<usize> = Vec::new();
    let mut k: usize = 0;
    while k < indices.len()
        invariant
            k <= idx.len(),
            idx == indices@,
            indices_valid(nodes@, idx),
            indices_valid(nodes@, left@),
            indices_valid(nodes@, right@),
            forall|i: int| 0 <= i < left@.len() ==> idx.contains(#[trigger] left@[i]),
            forall|i: int| 0 <= i < right@.len() ==> idx.contains(#[trigger] right@[i]),
            left@ == part_of(nodes@, idx.take(k as int), by_lon, mid, true),
            right@ == part_of(nodes@, idx.take(k as int), by_lon, mid, false),
        decreases idx.len() - k,
    {
        assert(idx.take(k + 1).drop_last() =~= idx.take(k as int));
        let i = indices[k];
        let v = if by_lon { nodes[i].lon } else { nodes[i].lat };
        if v < mid {
            left.push(i);
        } else {
            right.push(i);
        }
        proof {
            assert(idx[k as int] == i);
        }
        k = k + 1;
    }
    assert(idx.take(idx.len() as int) =~= idx);
    (left, right)
}

/// Split `indices` into route centers: a group whose bounding box, road
/// count, external-node count and node bytes are all within the limits
/// becomes one center (nodes sorted by position, center at the bounding-box
/// midpoint); otherwise it is halved across its wider side and each half is
/// split in turn. Groups still too large below the depth limit are dropped.
fn subdivide_nodes(nodes: &Vec<RouteNode>, indices: &Vec<usize>, depth: usize, centers: &mut Vec<RouteCenter>)
    requires
        indices_valid(nodes@, indices@),
        arcs_counted(nodes@),
        depth <= NOD1_MAX_DEPTH + 1,
    ensures
        final(centers)@.len() >= old(centers)@.len(),
        final(centers)@.take(old(centers)@.len() as int) == old(centers)@,
        centers_from(nodes@, indices@, final(centers)@.skip(old(centers)@.len() as int)),
        centers_match(final(centers)@.skip(old(centers)@.len() as int), subdivided(nodes@, indices@, depth as int)),
    decreases NOD1_MAX_DEPTH + 1 - depth,
{
    let ghost start = centers@;
    if indices.len() == 0 {
        assert(centers@.skip(start.len() as int) =~= Seq::<RouteCenter>::empty());
        assert(centers@.take(start.len() as int) =~= start);
        return;
    }
    let (min_lat, max_lat, min_lon, max_lon, index_set) = group_bounds(nodes, indices);
    let width: i32 = max_lon.wrapping_sub(min_lon);
    let height: i32 = max_lat.wrapping_sub(min_lat);
    let bbox_max_dim: i32 = if width >= height { width } else { height };
    let constraints_ok = group_fits_exec(nodes, indices, &index_set, bbox_max_dim);
    if constraints_ok {
        let sorted = sort_by_position(nodes, indices);
        proof {
            assert forall|i: int| 0 <= i < sorted@.len() implies indices@.contains(#[trigger] sorted@[i]) by {
                broadcast use vstd::seq_lib::group_to_multiset_ensures;
                assert(sorted@.to_multiset().count(sorted@[i]) > 0);
            }
        }
        let center_lat: i32 = wadd_exec(min_lat, max_lat) / 2;
        let center_lon: i32 = wadd_exec(min_lon, max_lon) / 2;
        assert(center_lat == halve(min_lat, max_lat));
        assert(center_lon == halve(min_lon, max_lon));
        centers.push(RouteCenter { center_lat, center_lon, nodes: sorted });
        assert(centers@.skip(start.len() as int) =~= seq![centers@.last()]);
        assert(centers@.take(start.len() as int) =~= start);
        return;
    }
    if depth > NOD1_MAX_DEPTH {
        assert(centers@.skip(start.len() as int) =~= Seq::<RouteCenter>::empty());
        assert(centers@.take(start.len() as int) =~= start);
        return;
    }
    let by_lon = width > height;
    let mid: i32 = if by_lon { wadd_exec(min_lon, max_lon) / 2 } else { wadd_exec(min_lat, max_lat) / 2 };
    assert(mid == halve(min_coord(nodes@, indices@, by_lon), max_coord(nodes@, indices@, by_lon)));
    let (left, right) = split_indices(nodes, indices, by_lon, mid);
    subdivide_nodes(nodes, &left, depth + 1, centers);
    let ghost mid_centers = centers@;
    subdivide_nodes(nodes, &right, depth + 1, centers);
    proof {
        let added = centers@.skip(start.len() as int);
        let a1 = mid_centers.skip(start.len() as int);
        let a2 = centers@.skip(mid_centers.len() as int);
        assert(added =~= a1 + a2) by {
            assert forall|c: int| 0 <= c < a1.len() implies added[c] == a1[c] by {
                assert(centers@.take(mid_centers.len() as int)[start.len() + c] == mid_centers[start.len() + c]);
            }
        }
        let s1 = subdivided(nodes@, left@, depth + 1);
        let s2 = subdivided(nodes@, right@, depth + 1);
        assert(subdivided(nodes@, indices@, depth as int) == s1 + s2);
        assert forall|c: int| 0 <= c < added.len() implies {
            &&& (#[trigger] added[c]).nodes@.len() > 0
            &&& indices_valid(nodes@, added[c].nodes@)
            &&& sorted_by_position(nodes@, added[c].nodes@)
            &&& forall|i: int| 0 <= i < added[c].nodes@.len() ==> indices@.contains(#[trigger] added[c].nodes@[i])
        } by {
            if c < a1.len() {
                assert(added[c] == a1[c]);
                assert forall|i: int| 0 <= i < added[c].nodes@.len() implies indices@.contains(#[trigger] added[c].nodes@[i]) by {
                    assert(left@.contains(a1[c].nodes@[i]));
                }
            } else {
                assert(added[c] == a2[c - a1.len()]);
                assert forall|i: int| 0 <= i < added[c].nodes@.len() implies indices@.contains(#[trigger] added[c].nodes@[i]) by {
                    assert(right@.contains(a2[c - a1.len()].nodes@[i]));
                }
            }
        }
        assert forall|c: int| 0 <= c < added.len() implies {
            &&& (#[trigger] added[c]).center_lat == (s1 + s2)[c].0
            &&& added[c].center_lon == (s1 + s2)[c].1
            &&& added[c].nodes@ == (s1 + s2)[c].2
        } by {
            if c < a1.len() {
                assert(added[c] == a1[c]);
            } else {
                assert(added[c] == a2[c - a1.len()]);
            }
        }
        assert(centers@.take(start.len() as int) =~= centers@.take(mid_centers.len() as int).take(start.len() as int));
    }
}

/// `a + b` in 32-bit two's-complement arithmetic.
fn wadd_exec(a: i32, b: i32) -> (r: i32)
    ensures
        r == wadd(a, b),
{
    a.wrapping_add(b)
}


/// A pending internal-arc destination pointer of a route center.
pub struct ArcPatchInfo {
    pub flagb_pos: usize,
    pub src_node_offset: usize,
    pub dest_node_index: usize,
    pub flag_b: u8,
}

/// A pending Table B entry (NOD1 offset of an external node).
pub struct TableBPatchInfo {
    pub byte_pos: usize,
    pub node_index: usize,
}

/// Table A positions lie inside `len` bytes, each 5 bytes long, in
/// increasing order.
pub open spec fn positions_ok(pos: Seq<(usize, usize)>, len: int) -> bool {
    &&& forall|t: int| 0 <= t < pos.len() ==> (#[trigger] pos[t]).0 + 5 <= len
    &&& forall|t: int, u: int| 0 <= t < u < pos.len() ==> (#[trigger] pos[t]).0 + 5 <= (#[trigger] pos[u]).0
}

/// The NOD1 byte range `[p, p + 3)` belongs to some Table A entry.
pub open spec fn in_table_a(pos: Seq<(usize, usize)>, i: int) -> bool {
    exists|t: int| 0 <= t < pos.len() && (#[trigger] pos[t]).0 <= i < pos[t].0 + 3
}

spec fn patches_ok(patches: Seq<ArcPatchInfo>, len: int, n: int) -> bool {
    forall|t: int| 0 <= t < patches.len() ==> (#[trigger] patches[t]).flagb_pos + 2 <= len && patches[t].dest_node_index < n
}

spec fn b_patches_ok(patches: Seq<TableBPatchInfo>, len: int, n: int) -> bool {
    forall|t: int| 0 <= t < patches.len() ==> (#[trigger] patches[t]).byte_pos + 3 <= len && patches[t].node_index < n
}

/// The destination of a node's arc: inside the center, or the arc's Table B
/// slot.
fn find_index(keys: &Vec<usize>, k: usize) -> (r: Option<usize>)
    ensures
        match r {
            Some(i) => i < keys@.len() && keys@[i as int] == k && forall|j: int| 0 <= j < i ==> keys@[j] != k,
            None => !keys@.contains(k),
        },
{
    let mut i: usize = 0;
    while i < keys.len()
        invariant
            i <= keys@.len(),
            forall|j: int| 0 <= j < i ==> keys@[j] != k,
        decreases keys@.len() - i,
    {
        if keys[i] == k {
            return Some(i);
        }
        i = i + 1;
    }
    None
}

/// NOD subfile writer.
pub struct NodWriter {
    pub nodes: Vec<RouteNode>,
    pub centers: Vec<RouteCenter>,
    pub drive_on_left: bool,
    pub nod2_data: Vec<u8>,
    /// Serialized NOD1, built by `prepare` and patched before `build`
    pub nod1_data: Option<Vec<u8>>,
    /// (byte position in NOD1 of a Table A entry, road index)
    pub table_a_positions: Vec<(usize, usize)>,
    /// NOD1 offset of each node
    pub node_offsets: Vec<u32>,
    /// First NOD1 offset of a center holding a node above each class
    pub class_boundaries: Vec<u32>,
}

/// A node belongs to a group: without arcs (`class` None), or with arcs
/// and of the given class.
pub open spec fn in_group(node: RouteNode, class: Option<u8>) -> bool {
    match class {
        None => node.arcs@.len() == 0,
        Some(c) => node.arcs@.len() > 0 && node.node_class == c,
    }
}

/// The indices below `n` of the nodes of a group, in order.
pub open spec fn group_of(nodes: Seq<RouteNode>, class: Option<u8>, n: int) -> Seq<usize>
    decreases n,
{
    if n <= 0 {
        Seq::empty()
    } else {
        let p = group_of(nodes, class, n - 1);
        if in_group(nodes[n - 1], class) { p.push((n - 1) as usize) } else { p }
    }
}

/// The group at step `k` of `build_centers`: the nodes without arcs, then
/// the nodes with arcs of class 0 to 4.
pub open spec fn group_key(k: int) -> Option<u8> {
    if k == 0 { None } else { Some((k - 1) as u8) }
}

/// The centers of the first `k` groups, each group subdivided in turn.
pub open spec fn centers_of_groups(nodes: Seq<RouteNode>, k: int) -> Seq<(i32, i32, Seq<usize>)>
    decreases k,
{
    if k <= 0 {
        Seq::empty()
    } else {
        centers_of_groups(nodes, k - 1) + subdivided(nodes, group_of(nodes, group_key(k - 1), nodes.len() as int), 0)
    }
}

/// The route centers of the nodes: those of the nodes without arcs, then
/// those of the nodes with arcs class by class from 0 to 4.
pub open spec fn built_centers(nodes: Seq<RouteNode>) -> Seq<(i32, i32, Seq<usize>)> {
    centers_of_groups(nodes, 6)
}

/// The nodes of a list of centers, center after center.
pub open spec fn center_nodes(cs: Seq<(i32, i32, Seq<usize>)>) -> Seq<usize>
    decreases cs.len(),
{
    if cs.len() == 0 {
        Seq::empty()
    } else {
        center_nodes(cs.drop_last()) + cs.last().2
    }
}

/// Subdividing the nodes `idx` from depth `depth` never reaches the depth
/// limit with a group still too large.
pub open spec fn fits_within_depth(nodes: Seq<RouteNode>, idx: Seq<usize>, depth: int) -> bool
    decreases NOD1_MAX_DEPTH + 1 - depth,
{
    if idx.len() == 0 || group_fits(nodes, idx) {
        true
    } else if depth > NOD1_MAX_DEPTH {
        false
    } else {
        let by_lon = group_extent(nodes, idx, true) > group_extent(nodes, idx, false);
        let mid = halve(min_coord(nodes, idx, by_lon), max_coord(nodes, idx, by_lon));
        fits_within_depth(nodes, part_of(nodes, idx, by_lon, mid, true), depth + 1) && fits_within_depth(
            nodes,
            part_of(nodes, idx, by_lon, mid, false),
            depth + 1,
        )
    }
}

proof fn lemma_center_nodes_concat(a: Seq<(i32, i32, Seq<usize>)>, b: Seq<(i32, i32, Seq<usize>)>)
    ensures
        center_nodes(a + b) == center_nodes(a) + center_nodes(b),
    decreases b.len(),
{
    if b.len() == 0 {
        assert(a + b =~= a);
        assert(center_nodes(a) + center_nodes(b) =~= center_nodes(a));
    } else {
        lemma_center_nodes_concat(a, b.drop_last());
        assert((a + b).drop_last() =~= a + b.drop_last());
        assert(center_nodes(a + b) =~= center_nodes(a) + center_nodes(b));
    }
}

proof fn lemma_position_sorted_perm(nodes: Seq<RouteNode>, idx: Seq<usize>)
    ensures
        position_sorted(nodes, idx).to_multiset() == idx.to_multiset(),
        position_sorted(nodes, idx).len() == idx.len(),
    decreases idx.len(),
{
    broadcast use vstd::seq_lib::group_to_multiset_ensures;
    if idx.len() > 0 {
        lemma_position_sorted_perm(nodes, idx.drop_last());
        let s = position_sorted(nodes, idx.drop_last());
        let x = idx.last();
        let p = insert_pos(nodes, s, x);
        lemma_insert_pos_exists(nodes, s, x);
        vstd::seq_lib::to_multiset_insert(s, p, x);
        vstd::seq_lib::to_multiset_build(idx.drop_last(), x);
        assert(idx.drop_last().push(x) =~= idx);
    }
}

/// Some place in `s` is where `x` goes.
proof fn lemma_insert_pos_exists(nodes: Seq<RouteNode>, s: Seq<usize>, x: usize)
    ensures
        is_insert_pos(nodes, s, x, insert_pos(nodes, s, x)),
{
    if forall|i: int| 0 <= i < s.len() ==> node_le(nodes, #[trigger] s[i], x) {
        assert(is_insert_pos(nodes, s, x, s.len() as int));
    } else {
        let k = choose|k: int| 0 <= k < s.len() && !node_le(nodes, #[trigger] s[k], x);
        lemma_first_after(nodes, s, x, k);
    }
}

/// Below a node not at or before `x` lies a first one.
proof fn lemma_first_after(nodes: Seq<RouteNode>, s: Seq<usize>, x: usize, k: int)
    requires
        0 <= k < s.len(),
        !node_le(nodes, s[k], x),
    ensures
        exists|p: int| #[trigger] is_insert_pos(nodes, s, x, p),
    decreases k,
{
    if forall|i: int| 0 <= i < k ==> node_le(nodes, #[trigger] s[i], x) {
        assert(is_insert_pos(nodes, s, x, k));
    } else {
        let j = choose|j: int| 0 <= j < k && !node_le(nodes, #[trigger] s[j], x);
        lemma_first_after(nodes, s, x, j);
    }
}

proof fn lemma_parts_perm(nodes: Seq<RouteNode>, idx: Seq<usize>, by_lon: bool, mid: i32)
    ensures
        part_of(nodes, idx, by_lon, mid, true).to_multiset().add(part_of(nodes, idx, by_lon, mid, false).to_multiset())
            == idx.to_multiset(),
    decreases idx.len(),
{
    broadcast use vstd::seq_lib::group_to_multiset_ensures;
    broadcast use vstd::multiset::group_multiset_axioms;
    if idx.len() == 0 {
        assert(part_of(nodes, idx, by_lon, mid, true).to_multiset().add(part_of(nodes, idx, by_lon, mid, false).to_multiset())
            =~= idx.to_multiset());
    } else {
        lemma_parts_perm(nodes, idx.drop_last(), by_lon, mid);
        let x = idx.last();
        vstd::seq_lib::to_multiset_build(idx.drop_last(), x);
        assert(idx.drop_last().push(x) =~= idx);
        vstd::seq_lib::to_multiset_build(part_of(nodes, idx.drop_last(), by_lon, mid, true), x);
        vstd::seq_lib::to_multiset_build(part_of(nodes, idx.drop_last(), by_lon, mid, false), x);
        assert(part_of(nodes, idx, by_lon, mid, true).to_multiset().add(part_of(nodes, idx, by_lon, mid, false).to_multiset())
            =~= idx.to_multiset());
    }
}

/// Where no group is dropped, the centers of the nodes `idx` hold each of
/// them exactly as often as `idx` does.
pub proof fn lemma_subdivided_perm(nodes: Seq<RouteNode>, idx: Seq<usize>, depth: int)
    requires
        fits_within_depth(nodes, idx, depth),
    ensures
        center_nodes(subdivided(nodes, idx, depth)).to_multiset() == idx.to_multiset(),
    decreases NOD1_MAX_DEPTH + 1 - depth,
{
    broadcast use vstd::seq_lib::group_to_multiset_ensures;
    broadcast use vstd::multiset::group_multiset_axioms;
    let sub = subdivided(nodes, idx, depth);
    if idx.len() == 0 {
        assert(center_nodes(sub) =~= Seq::<usize>::empty());
        assert(idx =~= Seq::<usize>::empty());
    } else if group_fits(nodes, idx) {
        assert(sub.drop_last() =~= Seq::<(i32, i32, Seq<usize>)>::empty());
        assert(sub.last().2 == position_sorted(nodes, idx));
        assert(center_nodes(sub) == center_nodes(sub.drop_last()) + sub.last().2);
        assert(center_nodes(sub) =~= position_sorted(nodes, idx));
        lemma_position_sorted_perm(nodes, idx);
    } else {
        let by_lon = group_extent(nodes, idx, true) > group_extent(nodes, idx, false);
        let mid = halve(min_coord(nodes, idx, by_lon), max_coord(nodes, idx, by_lon));
        let l = part_of(nodes, idx, by_lon, mid, true);
        let r = part_of(nodes, idx, by_lon, mid, false);
        lemma_subdivided_perm(nodes, l, depth + 1);
        lemma_subdivided_perm(nodes, r, depth + 1);
        lemma_center_nodes_concat(subdivided(nodes, l, depth + 1), subdivided(nodes, r, depth + 1));
        vstd::seq_lib::lemma_multiset_commutative(center_nodes(subdivided(nodes, l, depth + 1)),
            center_nodes(subdivided(nodes, r, depth + 1)));
        lemma_parts_perm(nodes, idx, by_lon, mid);
    }
}

/// How many of the first `k` groups a node belongs to.
pub open spec fn group_hits(node: RouteNode, k: int) -> int
    decreases k,
{
    if k <= 0 { 0 } else { group_hits(node, k - 1) + if in_group(node, group_key(k - 1)) { 1int } else { 0int } }
}

/// The nodes below `n` of the first `k` groups.
pub open spec fn groups_union(nodes: Seq<RouteNode>, k: int, n: int) -> vstd::multiset::Multiset<usize>
    decreases k,
{
    if k <= 0 {
        vstd::multiset::Multiset::empty()
    } else {
        groups_union(nodes, k - 1, n).add(group_of(nodes, group_key(k - 1), n).to_multiset())
    }
}

proof fn lemma_groups_union_step(nodes: Seq<RouteNode>, k: int, n: int)
    requires
        0 <= n < nodes.len() <= usize::MAX,
        0 <= k,
    ensures
        forall|x: usize| #[trigger] groups_union(nodes, k, n + 1).count(x) == groups_union(nodes, k, n).count(x)
            + if x == n { group_hits(nodes[n], k) } else { 0int },
    decreases k,
{
    broadcast use vstd::seq_lib::group_to_multiset_ensures;
    broadcast use vstd::multiset::group_multiset_axioms;
    if k > 0 {
        lemma_groups_union_step(nodes, k - 1, n);
        let g = group_of(nodes, group_key(k - 1), n);
        vstd::seq_lib::to_multiset_build(g, n as usize);
        assert(group_of(nodes, group_key(k - 1), n + 1) == if in_group(nodes[n], group_key(k - 1)) {
            g.push(n as usize)
        } else {
            g
        });
        assert forall|x: usize| #[trigger] groups_union(nodes, k, n + 1).count(x) == groups_union(nodes, k, n).count(x)
            + if x == n { group_hits(nodes[n], k) } else { 0int } by {
            assert(groups_union(nodes, k, n + 1) == groups_union(nodes, k - 1, n + 1).add(
                group_of(nodes, group_key(k - 1), n + 1).to_multiset()));
            assert(groups_union(nodes, k, n) == groups_union(nodes, k - 1, n).add(g.to_multiset()));
            assert(group_hits(nodes[n], k) == group_hits(nodes[n], k - 1) + if in_group(nodes[n], group_key(k - 1)) { 1int } else { 0int });
            assert(groups_union(nodes, k - 1, n + 1).count(x) == groups_union(nodes, k - 1, n).count(x)
                + if x == n { group_hits(nodes[n], k - 1) } else { 0int });
        }
    }
}

/// With every node with arcs of class 4 or less, the groups of
/// `build_centers` hold each node below `n` exactly once.
proof fn lemma_groups_partition(nodes: Seq<RouteNode>, n: int)
    requires
        0 <= n <= nodes.len() <= usize::MAX,
        forall|i: int| 0 <= i < nodes.len() && (#[trigger] nodes[i]).arcs@.len() > 0 ==> nodes[i].node_class <= 4,
    ensures
        groups_union(nodes, 6, n) == Seq::new(n as nat, |i: int| i as usize).to_multiset(),
    decreases n,
{
    broadcast use vstd::seq_lib::group_to_multiset_ensures;
    broadcast use vstd::multiset::group_multiset_axioms;
    if n == 0 {
        reveal_with_fuel(groups_union, 7);
        assert(Seq::new(0, |i: int| i as usize) =~= Seq::<usize>::empty());
        assert(groups_union(nodes, 6, 0) =~= vstd::multiset::Multiset::empty());
    } else {
        lemma_groups_partition(nodes, n - 1);
        lemma_groups_union_step(nodes, 6, n - 1);
        reveal_with_fuel(group_hits, 7);
        assert(group_hits(nodes[n - 1], 6) == 1);
        let r0 = Seq::new((n - 1) as nat, |i: int| i as usize);
        assert(Seq::new(n as nat, |i: int| i as usize) =~= r0.push((n - 1) as usize));
        vstd::seq_lib::to_multiset_build(r0, (n - 1) as usize);
        assert forall|x: usize| groups_union(nodes, 6, n).count(x) == Seq::new(n as nat, |i: int| i as usize).to_multiset().count(x) by {
            assert(groups_union(nodes, 6, n).count(x) == groups_union(nodes, 6, n - 1).count(x)
                + if x == n - 1 { group_hits(nodes[n - 1], 6) } else { 0int });
        }
        assert(groups_union(nodes, 6, n) =~= Seq::new(n as nat, |i: int| i as usize).to_multiset());
    }
}

/// The centers of the first `k` groups hold the nodes of those groups.
proof fn lemma_centers_of_groups_perm(nodes: Seq<RouteNode>, k: int)
    requires
        0 <= k <= 6,
        forall|j: int| 0 <= j < 6 ==> fits_within_depth(nodes, #[trigger] group_of(nodes, group_key(j), nodes.len() as int), 0),
    ensures
        center_nodes(centers_of_groups(nodes, k)).to_multiset() == groups_union(nodes, k, nodes.len() as int),
    decreases k,
{
    broadcast use vstd::multiset::group_multiset_axioms;
    if k == 0 {
        assert(center_nodes(centers_of_groups(nodes, 0)) =~= Seq::<usize>::empty());
        assert(Seq::<usize>::empty().to_multiset() =~= vstd::multiset::Multiset::<usize>::empty()) by {
            broadcast use vstd::seq_lib::group_to_multiset_ensures;
        }
    } else {
        lemma_centers_of_groups_perm(nodes, k - 1);
        let g = group_of(nodes, group_key(k - 1), nodes.len() as int);
        assert(fits_within_depth(nodes, g, 0));
        lemma_subdivided_perm(nodes, g, 0);
        lemma_center_nodes_concat(centers_of_groups(nodes, k - 1), subdivided(nodes, g, 0));
        vstd::seq_lib::lemma_multiset_commutative(center_nodes(centers_of_groups(nodes, k - 1)),
            center_nodes(subdivided(nodes, g, 0)));
    }
}

/// Every node lands in exactly one route center, when every node with arcs
/// has a class of 4 or less and no group of nodes is still too large at
/// the depth limit: the nodes of all centers are the node indices, each
/// once. (The centers of the nodes without arcs come first, then those of
/// each class in turn, as `built_centers` lists them.)
pub proof fn lemma_centers_partition(nodes: Seq<RouteNode>)
    requires
        nodes.len() <= usize::MAX,
        forall|i: int| 0 <= i < nodes.len() && (#[trigger] nodes[i]).arcs@.len() > 0 ==> nodes[i].node_class <= 4,
        forall|j: int| 0 <= j < 6 ==> fits_within_depth(nodes, #[trigger] group_of(nodes, group_key(j), nodes.len() as int), 0),
    ensures
        center_nodes(built_centers(nodes)).to_multiset() == Seq::new(nodes.len(), |i: int| i as usize).to_multiset(),
{
    lemma_centers_of_groups_perm(nodes, 6);
    lemma_groups_partition(nodes, nodes.len() as int);
}

/// Matching centers concatenate.
proof fn lemma_centers_match_concat(a: Seq<RouteCenter>, b: Seq<RouteCenter>, sa: Seq<(i32, i32, Seq<usize>)>,
    sb: Seq<(i32, i32, Seq<usize>)>)
    requires
        centers_match(a, sa),
        centers_match(b, sb),
    ensures
        centers_match(a + b, sa + sb),
{
    assert forall|c: int| 0 <= c < (a + b).len() implies {
        &&& (#[trigger] (a + b)[c]).center_lat == (sa + sb)[c].0
        &&& (a + b)[c].center_lon == (sa + sb)[c].1
        &&& (a + b)[c].nodes@ == (sa + sb)[c].2
    } by {
        if c < a.len() {
            assert((a + b)[c] == a[c]);
        } else {
            assert((a + b)[c] == b[c - a.len()]);
        }
    }
}

/// No nodes give no centers.
proof fn lemma_no_nodes_no_centers(nodes: Seq<RouteNode>, k: int)
    requires
        nodes.len() == 0,
    ensures
        centers_of_groups(nodes, k).len() == 0,
    decreases k,
{
    if k > 0 {
        lemma_no_nodes_no_centers(nodes, k - 1);
    }
}

impl NodWriter {
    /// Every arc and every center names a node of the writer.
    pub open spec fn graph_valid(&self) -> bool {
        &&& arcs_valid(self.nodes@)
        &&& arcs_counted(self.nodes@)
        &&& forall|c: int| 0 <= c < self.centers@.len() ==> indices_valid(self.nodes@, (#[trigger] self.centers@[c]).nodes@)
    }

    /// NOD1 is built, with one offset per node and its Table A positions.
    pub open spec fn prepared(&self) -> bool {
        &&& self.nod1_data is Some
        &&& positions_ok(self.table_a_positions@, self.nod1_data->0@.len() as int)
        &&& self.node_offsets@.len() == self.nodes@.len()
        &&& self.class_boundaries@.len() == 5
    }

    /// The Table A positions recorded by `prepare`.
    pub open spec fn spec_table_a_positions(&self) -> Seq<(usize, usize)> {
        self.table_a_positions@
    }

    /// The node offsets recorded by `prepare`.
    pub open spec fn spec_node_offsets(&self) -> Seq<u32> {
        self.node_offsets@
    }

    pub open spec fn spec_class_boundaries(&self) -> Seq<u32> {
        self.class_boundaries@
    }

    pub fn new() -> (w: Self)
        ensures
            w.nodes@.len() == 0,
            w.centers@.len() == 0,
            !w.drive_on_left,
            w.nod2_data@.len() == 0,
            w.nod1_data is None,
            w.spec_class_boundaries() == seq![0x7FFF_FFFFu32; 5],
    {
        NodWriter {
            nodes: Vec::new(),
            centers: Vec::new(),
            drive_on_left: false,
            nod2_data: Vec::new(),
            nod1_data: None,
            table_a_positions: Vec::new(),
            node_offsets: Vec::new(),
            class_boundaries: vec![0x7FFF_FFFFu32, 0x7FFF_FFFF, 0x7FFF_FFFF, 0x7FFF_FFFF, 0x7FFF_FFFF],
        }
    }

    /// Append a node; returns its index.
    pub fn add_node(&mut self, node: RouteNode) -> (idx: usize)
        ensures
            idx == old(self).nodes@.len(),
            final(self).nodes@ == old(self).nodes@.push(node),
            final(self).centers == old(self).centers,
            final(self).nod1_data == old(self).nod1_data,
            final(self).spec_class_boundaries() == old(self).spec_class_boundaries(),
    {
        let idx = self.nodes.len();
        self.nodes.push(node);
        idx
    }

    /// The indices of the nodes without arcs (`class` None), or of the
    /// nodes with arcs of the given class.
    fn group(&self, class: Option<u8>) -> (r: Vec<usize>)
        ensures
            indices_valid(self.nodes@, r@),
            r@ == group_of(self.nodes@, class, self.nodes@.len() as int),
    {
        let mut out: Vec<usize> = Vec::new();
        let mut i: usize = 0;
        while i < self.nodes.len()
            invariant
                i <= self.nodes@.len(),
                indices_valid(self.nodes@, out@),
                out@ == group_of(self.nodes@, class, i as int),
            decreases self.nodes@.len() - i,
        {
            let n = &self.nodes[i];
            let take = match class {
                None => n.arcs.len() == 0,
                Some(c) => n.arcs.len() > 0 && n.node_class == c,
            };
            if take {
                out.push(i);
            }
            i = i + 1;
        }
        out
    }

    /// Group the nodes into route centers: first the nodes without arcs,
    /// then the nodes with arcs class by class (0 to 4), each group split by
    /// `subdivide_nodes`.
    pub fn build_centers(&mut self)
        requires
            arcs_counted(old(self).nodes@),
        ensures
            final(self).nodes == old(self).nodes,
            final(self).nod1_data == old(self).nod1_data,
            final(self).nod2_data == old(self).nod2_data,
            final(self).drive_on_left == old(self).drive_on_left,
            final(self).spec_class_boundaries() == old(self).spec_class_boundaries(),
            forall|c: int| 0 <= c < final(self).centers@.len() ==> {
                &&& (#[trigger] final(self).centers@[c]).nodes@.len() > 0
                &&& indices_valid(final(self).nodes@, final(self).centers@[c].nodes@)
                &&& sorted_by_position(final(self).nodes@, final(self).centers@[c].nodes@)
            },
            old(self).nodes@.len() == 0 ==> final(self).centers@.len() == 0,
            centers_match(final(self).centers@, built_centers(old(self).nodes@)),
    {
        let mut centers: Vec<RouteCenter> = Vec::new();
        if self.nodes.len() == 0 {
            proof { lemma_no_nodes_no_centers(self.nodes@, 6); }
            self.centers = centers;
            return;
        }
        let mut g: u8 = 0;
        let mut first = true;
        while first || g <= 4
            invariant
                g <= 5,
                first ==> g == 0,
                arcs_counted(self.nodes@),
                forall|c: int| 0 <= c < centers@.len() ==> {
                    &&& (#[trigger] centers@[c]).nodes@.len() > 0
                    &&& indices_valid(self.nodes@, centers@[c].nodes@)
                    &&& sorted_by_position(self.nodes@, centers@[c].nodes@)
                },
                centers_match(centers@, centers_of_groups(self.nodes@, if first { 0 } else { g + 1 })),
            decreases (if first { 6int } else { 5 - g }),
        {
            let group = if first { self.group(None) } else { self.group(Some(g)) };
            let ghost step: int = if first { 0 } else { g + 1 };
            assert(group_key(step) == (if first { None } else { Some(g) }));
            let ghost before = centers@;
            if group.len() > 0 {
                subdivide_nodes(&self.nodes, &group, 0, &mut centers);
                proof {
                    let added = centers@.skip(before.len() as int);
                    assert(centers@ =~= before + added);
                    lemma_centers_match_concat(before, added, centers_of_groups(self.nodes@, step),
                        subdivided(self.nodes@, group@, 0));
                    assert forall|c: int| 0 <= c < centers@.len() implies {
                        &&& (#[trigger] centers@[c]).nodes@.len() > 0
                        &&& indices_valid(self.nodes@, centers@[c].nodes@)
                        &&& sorted_by_position(self.nodes@, centers@[c].nodes@)
                    } by {
                        if c < before.len() {
                            assert(centers@[c] == centers@.take(before.len() as int)[c]);
                        } else {
                            assert(centers@[c] == added[c - before.len()]);
                        }
                    }
                }
            } else {
                assert(subdivided(self.nodes@, group@, 0) =~= Seq::<(i32, i32, Seq<usize>)>::empty());
                assert(centers_of_groups(self.nodes@, step + 1) =~= centers_of_groups(self.nodes@, step));
            }
            if first {
                first = false;
            } else {
                g = g + 1;
            }
        }
        self.centers = centers;
    }

    /// Set the NOD2 data.
    pub fn set_nod2_data(&mut self, data: Vec<u8>)
        ensures
            final(self).nod2_data == data,
            final(self).nodes == old(self).nodes,
            final(self).centers == old(self).centers,
            final(self).nod1_data == old(self).nod1_data,
            final(self).spec_table_a_positions() == old(self).spec_table_a_positions(),
            final(self).spec_node_offsets() == old(self).spec_node_offsets(),
            final(self).spec_class_boundaries() == old(self).spec_class_boundaries(),
            old(self).prepared() ==> final(self).prepared(),
    {
        self.nod2_data = data;
    }

    /// Patch the NET1 offset of each Table A entry's road (indexed by road
    /// number in `net1_offsets`) into the entry's low 22 bits; entries of
    /// roads beyond `net1_offsets` stay as they are.
    pub fn patch_net1_offsets(&mut self, net1_offsets: &[u32])
        requires
            old(self).prepared(),
        ensures
            final(self).prepared(),
            final(self).nodes == old(self).nodes,
            final(self).centers == old(self).centers,
            final(self).spec_table_a_positions() == old(self).spec_table_a_positions(),
            final(self).spec_node_offsets() == old(self).spec_node_offsets(),
            final(self).spec_class_boundaries() == old(self).spec_class_boundaries(),
            final(self).nod1_data->0@.len() == old(self).nod1_data->0@.len(),
            forall|t: int| #![trigger old(self).spec_table_a_positions()[t]]
                0 <= t < old(self).spec_table_a_positions().len() ==> {
                let p = old(self).spec_table_a_positions()[t].0 as int;
                let road = old(self).spec_table_a_positions()[t].1;
                let before = old(self).nod1_data->0@;
                let after = final(self).nod1_data->0@;
                &&& road < net1_offsets@.len() ==> crate::bytes::u24_of(after[p], after[p + 1], after[p + 2])
                    == (net1_offsets@[road as int] & 0x3F_FFFFu32) | crate::bytes::u24_of(before[p], before[p + 1], before[p + 2])
                &&& road >= net1_offsets@.len() ==> after[p] == before[p] && after[p + 1] == before[p + 1] && after[p + 2] == before[p + 2]
            },
            forall|i: int| 0 <= i < old(self).nod1_data->0@.len() && !in_table_a(old(self).spec_table_a_positions(), i)
                ==> #[trigger] final(self).nod1_data->0@[i] == old(self).nod1_data->0@[i],
    {
        let mut nod1 = match self.nod1_data.take() {
            Some(d) => d,
            None => Vec::new(),
        };
        let ghost before = nod1@;
        let ghost pos = self.table_a_positions@;
        let mut t: usize = 0;
        while t < self.table_a_positions.len()
            invariant
                pos == self.table_a_positions@,
                positions_ok(pos, before.len() as int),
                t <= pos.len(),
                nod1@.len() == before.len(),
                forall|u: int| #![trigger pos[u]] 0 <= u < t ==> {
                    let p = pos[u].0 as int;
                    &&& pos[u].1 < net1_offsets@.len() ==> crate::bytes::u24_of(nod1@[p], nod1@[p + 1], nod1@[p + 2])
                        == (net1_offsets@[pos[u].1 as int] & 0x3F_FFFFu32) | crate::bytes::u24_of(before[p], before[p + 1], before[p + 2])
                    &&& pos[u].1 >= net1_offsets@.len() ==> nod1@[p] == before[p] && nod1@[p + 1] == before[p + 1] && nod1@[p + 2] == before[p + 2]
                },
                forall|i: int| 0 <= i < before.len() && !(exists|u: int| 0 <= u < t && (#[trigger] pos[u]).0 <= i < pos[u].0 + 3)
                    ==> #[trigger] nod1@[i] == before[i],
            decreases pos.len() - t,
        {
            let (byte_pos, road_idx) = self.table_a_positions[t];
            let nod1_len = nod1.len();
            let ghost prev = nod1@;
            proof {
                assert(pos[t as int].0 + 5 <= before.len());
                assert forall|i: int| byte_pos <= i < byte_pos + 3 implies prev[i] == before[i] by {
                    assert forall|u: int| 0 <= u < t implies !((#[trigger] pos[u]).0 <= i < pos[u].0 + 3) by {
                        assert(pos[u].0 + 5 <= pos[t as int].0);
                    }
                }
            }
            if road_idx < net1_offsets.len() {
                let offset = net1_offsets[road_idx];
                let existing: u32 = (nod1[byte_pos] as u32) | ((nod1[byte_pos + 1] as u32) << 8u32)
                    | ((nod1[byte_pos + 2] as u32) << 16u32);
                let patched: u32 = (offset & 0x3F_FFFF) | existing;
                nod1.set(byte_pos, patched as u8);
                nod1.set(byte_pos + 1, (patched >> 8u32) as u8);
                nod1.set(byte_pos + 2, (patched >> 16u32) as u8);
                proof {
                    let (b0, b1, b2) = (prev[byte_pos as int], prev[byte_pos + 1], prev[byte_pos + 2]);
                    assert(existing == crate::bytes::u24_of(b0, b1, b2));
                    assert(crate::bytes::u24_of(patched as u8, (patched >> 8u32) as u8, (patched >> 16u32) as u8) == patched) by (bit_vector)
                        requires patched == (offset & 0x3F_FFFFu32) | ((b0 as u32) | ((b1 as u32) << 8u32) | ((b2 as u32) << 16u32));
                }
            }
            proof {
                assert forall|u: int| #![trigger pos[u]] 0 <= u < t + 1 implies {
                    let p = pos[u].0 as int;
                    &&& pos[u].1 < net1_offsets@.len() ==> crate::bytes::u24_of(nod1@[p], nod1@[p + 1], nod1@[p + 2])
                        == (net1_offsets@[pos[u].1 as int] & 0x3F_FFFFu32) | crate::bytes::u24_of(before[p], before[p + 1], before[p + 2])
                    &&& pos[u].1 >= net1_offsets@.len() ==> nod1@[p] == before[p] && nod1@[p + 1] == before[p + 1] && nod1@[p + 2] == before[p + 2]
                } by {
                    if u < t {
                        assert(pos[u].0 + 5 <= pos[t as int].0);
                        let p = pos[u].0 as int;
                        assert(nod1@[p] == prev[p] && nod1@[p + 1] == prev[p + 1] && nod1@[p + 2] == prev[p + 2]);
                    }
                }
                assert forall|i: int| 0 <= i < before.len() && !(exists|u: int| 0 <= u < t + 1 && (#[trigger] pos[u]).0 <= i < pos[u].0 + 3)
                    implies #[trigger] nod1@[i] == before[i] by {
                    assert(!(pos[t as int].0 <= i < pos[t as int].0 + 3));
                    assert(!(exists|u: int| 0 <= u < t && (#[trigger] pos[u]).0 <= i < pos[u].0 + 3));
                    assert(nod1@[i] == prev[i]);
                }
            }
            t = t + 1;
        }
        self.nod1_data = Some(nod1);
    }

    /// NOD1 offset of each node, available after `prepare`.
    pub fn node_offsets(&self) -> (r: &[u32])
        ensures
            r@ == self.spec_node_offsets(),
    {
        self.node_offsets.as_slice()
    }

    /// Table A positions `(byte offset, road index)`, available after `prepare`.
    pub fn table_a_positions(&self) -> (r: &[(usize, usize)])
        ensures
            r@ == self.spec_table_a_positions(),
    {
        self.table_a_positions.as_slice()
    }
}


/// `a - b` in 32-bit two's-complement arithmetic.
fn wsub_exec(a: i32, b: i32) -> (r: i32)
    ensures
        r == wsub(a, b),
{
    a.wrapping_sub(b)
}

/// The first position of `k` in `keys`.
pub open spec fn first_pos(keys: Seq<usize>, k: usize) -> int {
    choose|i: int| 0 <= i < keys.len() && keys[i] == k && forall|j: int| 0 <= j < i ==> keys[j] != k
}

/// The one-byte table index of `k`: its first position in `keys`, or 0
/// where it is absent.
pub open spec fn key_index(keys: Seq<usize>, k: usize) -> u8 {
    if keys.contains(k) { first_pos(keys, k) as u8 } else { 0 }
}

/// The position of `k` in `keys`, as a one-byte table index.
fn table_index(keys: &Vec<usize>, k: usize) -> (r: u8)
    ensures
        r == key_index(keys@, k),
{
    match find_index(keys, k) {
        Some(i) => {
            proof {
                assert(keys@.contains(k));
                let c = first_pos(keys@, k);
                assert(0 <= c < keys@.len() && keys@[c] == k && forall|j: int| 0 <= j < c ==> keys@[j] != k);
                if c < i {
                    assert(keys@[c] != k);
                }
                if i < c {
                    assert(keys@[i as int] != k);
                }
            }
            i as u8
        },
        None => 0,
    }
}

/// The class of an arc's destination: the lower of the road class and the
/// destination node's class.
pub open spec fn arc_dest_class(nodes: Seq<RouteNode>, arc: RouteArc) -> u8 {
    let dnc = nodes[arc.dest_node_index as int].node_class;
    if arc.road_class < dnc { arc.road_class } else { dnc }
}

/// Flag A of arc `i`: destination class, length bits, the forward bit, and
/// the new-road bit where the road differs from the previous arc's.
pub open spec fn arc_flag_a(nodes: Seq<RouteNode>, arcs: Seq<RouteArc>, i: int) -> u8 {
    let arc = arcs[i];
    let f0: u8 = (arc_dest_class(nodes, arc) & 0x07u8) | spec_arc_length(spec_raw_length(arc.length_meters), false).0;
    let f1: u8 = if arc.forward { f0 | FLAG_FORWARD } else { f0 };
    if i > 0 && arc.road_def_index != arcs[i - 1].road_def_index { f1 | FLAG_HASNET } else { f1 }
}

/// The length bits of an arc without a curve lie in bits 3 to 5.
proof fn lemma_arc_length_bits(raw: u32)
    ensures
        spec_arc_length(raw, false).0 & 0xC7u8 == 0,
{
    let f: u8 = ((raw >> 5u32) as u8) & 0x18u8;
    assert((0u8 | f) & 0xC7u8 == 0) by (bit_vector) requires f == ((raw >> 5u32) as u8) & 0x18u8;
    assert(0x38u8 & 0xC7u8 == 0) by (bit_vector);
}

/// The first byte written for an arc (flag A) has the new-road bit 0x80
/// exactly when the arc's road differs from the previous arc's, the
/// forward bit 0x40 exactly when the arc runs forward, and in its low
/// three bits the lower of the road class and the destination node's
/// class.
pub proof fn lemma_arc_flag_a_bits(nodes: Seq<RouteNode>, arcs: Seq<RouteArc>, i: int, cset: Set<usize>, ta: Seq<usize>,
    tb: Seq<usize>)
    requires
        0 <= i < arcs.len(),
    ensures
        ({
            let b = arc_bytes(nodes, arcs, i, cset, ta, tb)[0];
            let arc = arcs[i];
            let dnc = nodes[arc.dest_node_index as int].node_class;
            &&& ((b & 0x80u8) != 0) == (i > 0 && arc.road_def_index != arcs[i - 1].road_def_index)
            &&& ((b & 0x40u8) != 0) == arc.forward
            &&& b & 0x07u8 == (if arc.road_class < dnc { arc.road_class } else { dnc }) & 0x07u8
        }),
{
    reveal(arc_bytes);
    let arc = arcs[i];
    let lb = spec_arc_length(spec_raw_length(arc.length_meters), false).0;
    lemma_arc_length_bits(spec_raw_length(arc.length_meters));
    let dc = arc_dest_class(nodes, arc);
    let f0: u8 = (dc & 0x07u8) | lb;
    let fw = arc.forward;
    let hn = i > 0 && arc.road_def_index != arcs[i - 1].road_def_index;
    let f1: u8 = if fw { f0 | 0x40u8 } else { f0 };
    let b: u8 = if hn { f1 | 0x80u8 } else { f1 };
    assert(b == arc_flag_a(nodes, arcs, i));
    assert(arc_bytes(nodes, arcs, i, cset, ta, tb)[0] == b);
    assert(((b & 0x80u8) != 0) == hn && ((b & 0x40u8) != 0) == fw && b & 0x07u8 == dc & 0x07u8) by (bit_vector)
        requires lb & 0xC7u8 == 0, f0 == (dc & 0x07u8) | lb, f1 == (if fw { f0 | 0x40u8 } else { f0 }),
            b == (if hn { f1 | 0x80u8 } else { f1 });
}

/// Flag B of arc `i`: the last-link bit on a node's last arc.
pub open spec fn arc_flag_b(arcs: Seq<RouteArc>, i: int) -> u8 {
    if i == arcs.len() - 1 { FLAG_LAST_LINK } else { 0 }
}

/// The destination bytes of arc `i` as first written: flag B and a zero
/// placeholder for a destination inside the center (`cset`); otherwise
/// flag B with the external bit and the Table B index, which gets a byte of
/// its own from 0x3F on.
pub open spec fn arc_dest_bytes(arcs: Seq<RouteArc>, i: int, cset: Set<usize>, tb: Seq<usize>) -> Seq<u8> {
    let fb = arc_flag_b(arcs, i);
    if cset.contains(arcs[i].dest_node_index) {
        seq![fb, 0u8]
    } else {
        let ib = key_index(tb, arcs[i].dest_node_index);
        let f: u8 = fb | 0x40u8;
        if ib >= 0x3F { seq![f | 0x3Fu8, ib] } else { seq![f | ib] }
    }
}

/// The Table A index of the road of arc `i`.
pub open spec fn arc_index_a(arcs: Seq<RouteArc>, i: int, ta: Seq<usize>) -> u8 {
    key_index(ta, arcs[i].road_def_index)
}

/// Arc `i` of a node as first written: flag A, destination, the Table A
/// index for the first arc or where it differs from the previous arc's, the
/// length bytes, and the heading for the first arc or where the Table A
/// index or the direction changes.
#[verifier::opaque]
pub open spec fn arc_bytes(nodes: Seq<RouteNode>, arcs: Seq<RouteArc>, i: int, cset: Set<usize>,
    ta: Seq<usize>, tb: Seq<usize>) -> Seq<u8>
{
    let arc = arcs[i];
    let ia = arc_index_a(arcs, i, ta);
    let new_a = i == 0 || ia != arc_index_a(arcs, i - 1, ta);
    let turn = new_a || arc.forward != arcs[i - 1].forward;
    seq![arc_flag_a(nodes, arcs, i)] + arc_dest_bytes(arcs, i, cset, tb)
        + (if new_a { seq![ia] } else { Seq::<u8>::empty() })
        + spec_arc_length(spec_raw_length(arc.length_meters), false).1
        + (if turn { seq![arc.initial_heading as u8] } else { Seq::<u8>::empty() })
}

/// The first `n` arcs of a node as first written.
pub open spec fn arcs_bytes(nodes: Seq<RouteNode>, arcs: Seq<RouteArc>, n: int, cset: Set<usize>,
    ta: Seq<usize>, tb: Seq<usize>) -> Seq<u8>
    decreases n,
{
    if n <= 0 {
        Seq::empty()
    } else {
        arcs_bytes(nodes, arcs, n - 1, cset, ta, tb) + arc_bytes(nodes, arcs, n - 1, cset, ta, tb)
    }
}

/// A pending internal-arc pointer: arc `i` of `arcs`, its flag B at `pos`,
/// leaving the node that starts at `src`.
pub open spec fn pending_pointer(arcs: Seq<RouteArc>, i: int, pos: int, src: usize) -> ArcPatchInfo {
    ArcPatchInfo {
        flagb_pos: pos as usize,
        src_node_offset: src,
        dest_node_index: arcs[i].dest_node_index,
        flag_b: arc_flag_b(arcs, i),
    }
}

/// The internal-arc pointers left to patch among the first `n` arcs of a
/// node that starts at `src` and whose arcs start at `base`.
pub open spec fn arcs_patches(nodes: Seq<RouteNode>, arcs: Seq<RouteArc>, n: int, cset: Set<usize>,
    ta: Seq<usize>, tb: Seq<usize>, base: int, src: usize) -> Seq<ArcPatchInfo>
    decreases n,
{
    if n <= 0 {
        Seq::empty()
    } else {
        let prev = arcs_patches(nodes, arcs, n - 1, cset, ta, tb, base, src);
        if cset.contains(arcs[n - 1].dest_node_index) {
            prev.push(pending_pointer(arcs, n - 1, base + arcs_bytes(nodes, arcs, n - 1, cset, ta, tb).len() + 1, src))
        } else {
            prev
        }
    }
}

/// Flag A of arc `i` of `node`.
fn flag_a_of(nodes: &Vec<RouteNode>, node: &RouteNode, i: usize) -> (r: u8)
    requires
        i < node.arcs@.len(),
        node.arcs@[i as int].dest_node_index < nodes@.len(),
    ensures
        r == arc_flag_a(nodes@, node.arcs@, i as int),
{
    let arc = &node.arcs[i];
    let raw_len = meters_to_raw_length(arc.length_meters);
    let (len_flag_bits, _) = encode_arc_length(raw_len, false);
    let dest_node_class = nodes[arc.dest_node_index].node_class;
    let dest_class: u8 = if arc.road_class < dest_node_class { arc.road_class } else { dest_node_class };
    let mut flag_a: u8 = (dest_class & 0x07) | len_flag_bits;
    if arc.forward {
        flag_a = flag_a | FLAG_FORWARD;
    }
    if i > 0 && arc.road_def_index != node.arcs[i - 1].road_def_index {
        flag_a = flag_a | FLAG_HASNET;
    }
    flag_a
}

/// Write the destination bytes of arc `i` of `node`, recording a pending
/// pointer for a destination inside the center.
fn write_arc_dest(
    node: &RouteNode,
    i: usize,
    node_start: usize,
    center_set: &HashSet<usize>,
    tb_nodes: &Vec<usize>,
    data: &mut Vec<u8>,
    arc_patches: &mut Vec<ArcPatchInfo>,
)
    requires
        i < node.arcs@.len(),
    ensures
        final(data)@ == old(data)@ + arc_dest_bytes(node.arcs@, i as int, center_set@, tb_nodes@),
        final(arc_patches)@ == if center_set@.contains(node.arcs@[i as int].dest_node_index) {
            old(arc_patches)@.push(pending_pointer(node.arcs@, i as int, old(data)@.len() as int, node_start))
        } else {
            old(arc_patches)@
        },
{
    let arc = &node.arcs[i];
    let mut flag_b: u8 = if i == node.arcs.len() - 1 { FLAG_LAST_LINK } else { 0 };
    if center_set.contains(&arc.dest_node_index) {
        let flagb_pos = data.len();
        data.push(flag_b);
        data.push(0x00);
        arc_patches.push(ArcPatchInfo {
            flagb_pos,
            src_node_offset: node_start,
            dest_node_index: arc.dest_node_index,
            flag_b,
        });
    } else {
        let index_b = table_index(tb_nodes, arc.dest_node_index);
        flag_b = flag_b | 0x40;
        if index_b >= 0x3F {
            data.push(flag_b | 0x3F);
            data.push(index_b);
        } else {
            data.push(flag_b | index_b);
        }
    }
}

/// Write arc `i` of `node`; `last_index_a` is the Table A index of the
/// previous arc. Returns this arc's Table A index.
#[verifier::rlimit(40)]
#[verifier::spinoff_prover]
fn write_arc(
    nodes: &Vec<RouteNode>,
    node: &RouteNode,
    i: usize,
    node_start: usize,
    center_set: &HashSet<usize>,
    ta_roads: &Vec<usize>,
    tb_nodes: &Vec<usize>,
    last_index_a: Option<u8>,
    data: &mut Vec<u8>,
    arc_patches: &mut Vec<ArcPatchInfo>,
) -> (r: u8)
    requires
        i < node.arcs@.len(),
        node.arcs@[i as int].dest_node_index < nodes@.len(),
        i == 0 ==> last_index_a is None,
        i > 0 ==> last_index_a == Some(arc_index_a(node.arcs@, i - 1, ta_roads@)),
    ensures
        r == arc_index_a(node.arcs@, i as int, ta_roads@),
        center_set@.contains(node.arcs@[i as int].dest_node_index) ==> final(data)@.len() >= old(data)@.len() + 3,
        final(data)@ == old(data)@ + arc_bytes(nodes@, node.arcs@, i as int, center_set@, ta_roads@, tb_nodes@),
        final(arc_patches)@ == if center_set@.contains(node.arcs@[i as int].dest_node_index) {
            old(arc_patches)@.push(pending_pointer(node.arcs@, i as int, (old(data)@.len() + 1) as int, node_start))
        } else {
            old(arc_patches)@
        },
{
    let ghost start = data@;
    let arc = &node.arcs[i];
    let flag_a = flag_a_of(nodes, node, i);
    data.push(flag_a);
    write_arc_dest(node, i, node_start, center_set, tb_nodes, data, arc_patches);
    let index_a = table_index(ta_roads, arc.road_def_index);
    let same_a = match last_index_a {
        Some(v) => v == index_a,
        None => false,
    };
    if !same_a {
        data.push(index_a);
    }
    let raw_len = meters_to_raw_length(arc.length_meters);
    let (_, len_data) = encode_arc_length(raw_len, false);
    crate::bytes::push_bytes(data, len_data.as_slice());
    if i == 0 {
        data.push(arc.initial_heading as u8);
    } else {
        let prev_arc = &node.arcs[i - 1];
        let prev_idx_a = table_index(ta_roads, prev_arc.road_def_index);
        if index_a != prev_idx_a || arc.forward != prev_arc.forward {
            data.push(arc.initial_heading as u8);
        }
    }
    assert(data@ =~= start + arc_bytes(nodes@, node.arcs@, i as int, center_set@, ta_roads@, tb_nodes@)) by {
        reveal(arc_bytes);
    }
    index_a
}

/// Write the arcs of node `ni` (its byte 0 and flags already written).
fn write_arcs(
    nodes: &Vec<RouteNode>,
    ni: usize,
    node_start: usize,
    center_set: &HashSet<usize>,
    ta_roads: &Vec<usize>,
    tb_nodes: &Vec<usize>,
    data: &mut Vec<u8>,
    arc_patches: &mut Vec<ArcPatchInfo>,
)
    requires
        ni < nodes@.len(),
        arcs_valid(nodes@),
        patches_ok(old(arc_patches)@, old(data)@.len() as int, nodes@.len() as int),
    ensures
        final(data)@ == old(data)@ + arcs_bytes(nodes@, nodes@[ni as int].arcs@, nodes@[ni as int].arcs@.len() as int,
            center_set@, ta_roads@, tb_nodes@),
        final(arc_patches)@ == old(arc_patches)@ + arcs_patches(nodes@, nodes@[ni as int].arcs@,
            nodes@[ni as int].arcs@.len() as int, center_set@, ta_roads@, tb_nodes@, old(data)@.len() as int, node_start),
        patches_ok(final(arc_patches)@, final(data)@.len() as int, nodes@.len() as int),
{
    let ghost start = data@;
    let ghost pstart = arc_patches@;
    let node = &nodes[ni];
    let ghost arcs = node.arcs@;
    let num_arcs = node.arcs.len();
    let mut last_index_a: Option<u8> = None;
    let mut arc_i: usize = 0;
    while arc_i < num_arcs
        invariant
            num_arcs == node.arcs@.len(),
            node == nodes@[ni as int],
            arcs == node.arcs@,
            ni < nodes@.len(),
            arcs_valid(nodes@),
            arc_i <= num_arcs,
            data@ == start + arcs_bytes(nodes@, arcs, arc_i as int, center_set@, ta_roads@, tb_nodes@),
            arc_patches@ == pstart + arcs_patches(nodes@, arcs, arc_i as int, center_set@, ta_roads@, tb_nodes@,
                start.len() as int, node_start),
            arc_i == 0 ==> last_index_a is None,
            arc_i > 0 ==> last_index_a == Some(arc_index_a(arcs, arc_i - 1, ta_roads@)),
            patches_ok(arc_patches@, data@.len() as int, nodes@.len() as int),
        decreases num_arcs - arc_i,
    {
        assert(node.arcs@[arc_i as int].dest_node_index < nodes@.len());
        let ia = write_arc(nodes, node, arc_i, node_start, center_set, ta_roads, tb_nodes, last_index_a, data, arc_patches);
        last_index_a = Some(ia);
        assert(data@ =~= start + arcs_bytes(nodes@, arcs, arc_i + 1, center_set@, ta_roads@, tb_nodes@));
        assert(arc_patches@ =~= pstart + arcs_patches(nodes@, arcs, arc_i + 1, center_set@, ta_roads@, tb_nodes@,
            start.len() as int, node_start));
        arc_i = arc_i + 1;
    }
}

/// The flags byte of a node: its class, the arcs bit, the large-offsets
/// bit where a coordinate delta from the center exceeds 0x7FF (or where the
/// byte would otherwise be zero), and the boundary bit.
pub open spec fn node_flags(node: RouteNode, center: RouteCenter) -> u8 {
    let dlat = wsub(node.lat, center.center_lat);
    let dlon = wsub(node.lon, center.center_lon);
    let large = dlat > 0x7FF || dlat < -0x7FF || dlon > 0x7FF || dlon < -0x7FF;
    let f0: u8 = node.node_class & 0x07u8;
    let f1: u8 = if node.arcs@.len() > 0 { f0 | F_ARCS } else { f0 };
    let f2: u8 = if large { f1 | F_LARGE_OFFSETS } else { f1 };
    let f3: u8 = if node.is_boundary { f2 | F_BOUNDARY } else { f2 };
    if f3 == 0 { f3 | F_LARGE_OFFSETS } else { f3 }
}

/// The first bytes of a node as first written: a zero placeholder for the
/// low byte, the flags, and the coordinate deltas from the center, packed
/// as two 16-bit fields (large offsets) or two 12-bit fields.
pub open spec fn node_head(node: RouteNode, center: RouteCenter) -> Seq<u8> {
    let dlat = wsub(node.lat, center.center_lat);
    let dlon = wsub(node.lon, center.center_lon);
    let flags = node_flags(node, center);
    seq![0u8, flags] + if flags & F_LARGE_OFFSETS != 0 {
        le32(((dlat as u32) << 16u32) | ((dlon as u32) & 0xFFFFu32))
    } else {
        le24((((dlat as u32) & 0xFFFu32) << 12u32) | ((dlon as u32) & 0xFFFu32))
    }
}

/// Node `ni` as first written: its head, then its arcs.
pub open spec fn node_bytes(nodes: Seq<RouteNode>, center: RouteCenter, ni: int, cset: Set<usize>,
    ta: Seq<usize>, tb: Seq<usize>) -> Seq<u8>
{
    let node = nodes[ni];
    node_head(node, center) + arcs_bytes(nodes, node.arcs@, node.arcs@.len() as int, cset, ta, tb)
}

/// The internal-arc pointers left to patch in node `ni` written at `start`.
pub open spec fn node_patches(nodes: Seq<RouteNode>, center: RouteCenter, ni: int, cset: Set<usize>,
    ta: Seq<usize>, tb: Seq<usize>, start: int) -> Seq<ArcPatchInfo>
{
    let node = nodes[ni];
    arcs_patches(nodes, node.arcs@, node.arcs@.len() as int, cset, ta, tb, start + node_head(node, center).len(),
        start as usize)
}

/// Write one node: byte 0 (patched later), flags, coordinate deltas from
/// the center, then its arcs.
fn write_node(
    nodes: &Vec<RouteNode>,
    center: &RouteCenter,
    ni: usize,
    center_set: &HashSet<usize>,
    ta_roads: &Vec<usize>,
    tb_nodes: &Vec<usize>,
    data: &mut Vec<u8>,
    arc_patches: &mut Vec<ArcPatchInfo>,
)
    requires
        ni < nodes@.len(),
        arcs_valid(nodes@),
        patches_ok(old(arc_patches)@, old(data)@.len() as int, nodes@.len() as int),
    ensures
        final(data)@ == old(data)@ + node_bytes(nodes@, *center, ni as int, center_set@, ta_roads@, tb_nodes@),
        final(arc_patches)@ == old(arc_patches)@ + node_patches(nodes@, *center, ni as int, center_set@, ta_roads@,
            tb_nodes@, old(data)@.len() as int),
        patches_ok(final(arc_patches)@, final(data)@.len() as int, nodes@.len() as int),
{
    let ghost start = data@;
    let node = &nodes[ni];
    let node_start = data.len();
    data.push(0x00);
    let delta_lat = wsub_exec(node.lat, center.center_lat);
    let delta_lon = wsub_exec(node.lon, center.center_lon);
    let delta_large = delta_lat > 0x7FF || delta_lat < -0x7FF || delta_lon > 0x7FF || delta_lon < -0x7FF;
    let mut flags: u8 = node.node_class & 0x07;
    if node.arcs.len() > 0 {
        flags = flags | F_ARCS;
    }
    if delta_large {
        flags = flags | F_LARGE_OFFSETS;
    }
    if node.is_boundary {
        flags = flags | F_BOUNDARY;
    }
    if flags == 0 {
        flags = flags | F_LARGE_OFFSETS;
    }
    assert(flags == node_flags(*node, *center));
    data.push(flags);
    if (flags & F_LARGE_OFFSETS) != 0 {
        let packed: u32 = ((delta_lat as u32) << 16u32) | ((delta_lon as u32) & 0xFFFF);
        push_u32(data, packed);
    } else {
        let packed: u32 = (((delta_lat as u32) & 0xFFF) << 12u32) | ((delta_lon as u32) & 0xFFF);
        push_u24(data, packed);
    }
    let ghost mid = data@;
    assert(mid =~= start + node_head(*node, *center));
    write_arcs(nodes, ni, node_start, center_set, ta_roads, tb_nodes, data, arc_patches);
    assert(data@ =~= start + node_bytes(nodes@, *center, ni as int, center_set@, ta_roads@, tb_nodes@));
}


/// Record `v` as the class boundary of every class below `nc` where it is
/// lower than the current one.
fn lower_class_boundaries(cb: &mut Vec<u32>, nc: usize, v: u32)
    requires
        old(cb)@.len() == 5,
        nc <= 4,
    ensures
        final(cb)@.len() == 5,
        forall|c: int| 0 <= c < 5 ==> #[trigger] final(cb)@[c] == (if c < nc && v < old(cb)@[c] { v } else { old(cb)@[c] }),
{
    let mut c: usize = 0;
    while c < nc
        invariant
            cb@.len() == 5,
            nc <= 4,
            c <= nc,
            forall|k: int| 0 <= k < 5 ==> #[trigger] cb@[k] == (if k < c && v < old(cb)@[k] { v } else { old(cb)@[k] }),
        decreases nc - c,
    {
        if v < cb[c] {
            cb.set(c, v);
        }
        c = c + 1;
    }
}

/// The arcs of the nodes `cn`, node after node.
pub open spec fn center_arcs(nodes: Seq<RouteNode>, cn: Seq<usize>) -> Seq<RouteArc>
    decreases cn.len(),
{
    if cn.len() == 0 {
        Seq::empty()
    } else {
        center_arcs(nodes, cn.drop_last()) + nodes[cn.last() as int].arcs@
    }
}

/// The distinct roads of `arcs`, in order of first use.
pub open spec fn roads_of(arcs: Seq<RouteArc>) -> Seq<usize>
    decreases arcs.len(),
{
    if arcs.len() == 0 {
        Seq::empty()
    } else {
        let p = roads_of(arcs.drop_last());
        let r = arcs.last().road_def_index;
        if p.contains(r) { p } else { p.push(r) }
    }
}

/// The distinct destinations of `arcs` outside `cset`, in order of first
/// use.
pub open spec fn external_dests(arcs: Seq<RouteArc>, cset: Set<usize>) -> Seq<usize>
    decreases arcs.len(),
{
    if arcs.len() == 0 {
        Seq::empty()
    } else {
        let p = external_dests(arcs.drop_last(), cset);
        let d = arcs.last().dest_node_index;
        if !cset.contains(d) && !p.contains(d) { p.push(d) } else { p }
    }
}

/// The nodes of a center, as a set.
pub open spec fn node_set(cn: Seq<usize>) -> Set<usize> {
    Set::new(|x: usize| cn.contains(x))
}

/// The tables of one center: its node set, its distinct roads (Table A),
/// and its external destination nodes (Table B), in order of first use.
fn center_tables(nodes: &Vec<RouteNode>, center: &RouteCenter) -> (r: (HashSet<usize>, Vec<usize>, Vec<usize>))
    requires
        indices_valid(nodes@, center.nodes@),
        arcs_valid(nodes@),
    ensures
        indices_valid(nodes@, r.2@),
        r.0@ == node_set(center.nodes@),
        r.1@ == roads_of(center_arcs(nodes@, center.nodes@)),
        r.2@ == external_dests(center_arcs(nodes@, center.nodes@), node_set(center.nodes@)),
{
    let ghost cn = center.nodes@;
    let mut set: HashSet<usize> = HashSet::new();
    let mut k: usize = 0;
    while k < center.nodes.len()
        invariant
            k <= cn.len(),
            cn == center.nodes@,
            set@ == node_set(cn.take(k as int)),
        decreases cn.len() - k,
    {
        let x = center.nodes[k];
        set.insert(x);
        assert(set@ =~= node_set(cn.take(k + 1))) by {
            assert forall|y: usize| set@.contains(y) <==> #[trigger] cn.take(k + 1).contains(y) by {
                if cn.take(k as int).contains(y) {
                    let j = choose|j: int| 0 <= j < k && #[trigger] cn.take(k as int)[j] == y;
                    assert(cn.take(k + 1)[j] == y);
                }
                if y == x {
                    assert(cn.take(k + 1)[k as int] == y);
                }
                if cn.take(k + 1).contains(y) {
                    let j = choose|j: int| 0 <= j < k + 1 && #[trigger] cn.take(k + 1)[j] == y;
                    if j < k {
                        assert(cn.take(k as int)[j] == y);
                    }
                }
            }
        }
        k = k + 1;
    }
    assert(cn.take(cn.len() as int) =~= cn);
    let mut ta: Vec<usize> = Vec::new();
    let mut tb: Vec<usize> = Vec::new();
    k = 0;
    while k < center.nodes.len()
        invariant
            k <= cn.len(),
            cn == center.nodes@,
            set@ == node_set(cn),
            indices_valid(nodes@, cn),
            arcs_valid(nodes@),
            indices_valid(nodes@, tb@),
            ta@ == roads_of(center_arcs(nodes@, cn.take(k as int))),
            tb@ == external_dests(center_arcs(nodes@, cn.take(k as int)), node_set(cn)),
        decreases cn.len() - k,
    {
        let node = &nodes[center.nodes[k]];
        let ghost pre = center_arcs(nodes@, cn.take(k as int));
        let mut a: usize = 0;
        while a < node.arcs.len()
            invariant
                a <= node.arcs@.len(),
                node == nodes@[cn[k as int] as int],
                k < cn.len(),
                cn[k as int] < nodes@.len(),
                set@ == node_set(cn),
                arcs_valid(nodes@),
                indices_valid(nodes@, tb@),
                ta@ == roads_of(pre + node.arcs@.take(a as int)),
                tb@ == external_dests(pre + node.arcs@.take(a as int), node_set(cn)),
            decreases node.arcs@.len() - a,
        {
            let arc = &node.arcs[a];
            let ghost s = pre + node.arcs@.take(a as int);
            assert(pre + node.arcs@.take(a + 1) =~= s.push(*arc));
            assert(s.push(*arc).drop_last() =~= s);
            if !set.contains(&arc.dest_node_index) && find_index(&tb, arc.dest_node_index).is_none() {
                tb.push(arc.dest_node_index);
            }
            if find_index(&ta, arc.road_def_index).is_none() {
                ta.push(arc.road_def_index);
            }
            a = a + 1;
        }
        assert(node.arcs@.take(node.arcs@.len() as int) =~= node.arcs@);
        assert(cn.take(k + 1).drop_last() =~= cn.take(k as int));
        k = k + 1;
    }
    (set, ta, tb)
}

/// The first arc of `arcs` on road `road`.
pub open spec fn first_arc_on(arcs: Seq<RouteArc>, road: usize) -> Option<RouteArc>
    decreases arcs.len(),
{
    if arcs.len() == 0 {
        None
    } else {
        match first_arc_on(arcs.drop_last(), road) {
            Some(a) => Some(a),
            None => if arcs.last().road_def_index == road { Some(arcs.last()) } else { None },
        }
    }
}

/// The Table A entry of road `road` among `arcs`: class, speed, toll,
/// one-way and access of its first arc, with the NET1 offset still zero.
pub open spec fn table_a_entry_of(arcs: Seq<RouteArc>, road: usize) -> TableAEntry {
    match first_arc_on(arcs, road) {
        Some(a) => TableAEntry {
            net1_offset: 0,
            road_class: a.road_class,
            speed: a.speed,
            toll: a.toll,
            one_way: a.one_way,
            access: a.access,
        },
        None => TableAEntry { net1_offset: 0, road_class: 0, speed: 0, toll: false, one_way: false, access: 0 },
    }
}

/// Extending `arcs` keeps an arc already found on the road.
proof fn lemma_first_arc_prefix(s: Seq<RouteArc>, u: Seq<RouteArc>, road: usize)
    requires
        first_arc_on(s, road) is Some,
        s.len() <= u.len(),
        u.take(s.len() as int) == s,
    ensures
        first_arc_on(u, road) == first_arc_on(s, road),
    decreases u.len(),
{
    if u.len() == s.len() {
        assert(u =~= s);
    } else {
        assert(u.drop_last().take(s.len() as int) =~= s);
        lemma_first_arc_prefix(s, u.drop_last(), road);
    }
}

/// The arcs of the first `j` nodes begin the arcs of all of them.
proof fn lemma_center_arcs_prefix(nodes: Seq<RouteNode>, cn: Seq<usize>, j: int)
    requires
        0 <= j <= cn.len(),
    ensures
        center_arcs(nodes, cn.take(j)).len() <= center_arcs(nodes, cn).len(),
        center_arcs(nodes, cn).take(center_arcs(nodes, cn.take(j)).len() as int) == center_arcs(nodes, cn.take(j)),
    decreases cn.len(),
{
    if j == cn.len() {
        assert(cn.take(j) =~= cn);
        assert(center_arcs(nodes, cn).take(center_arcs(nodes, cn).len() as int) =~= center_arcs(nodes, cn));
    } else {
        assert(cn.drop_last().take(j) =~= cn.take(j));
        lemma_center_arcs_prefix(nodes, cn.drop_last(), j);
        let p = center_arcs(nodes, cn.take(j));
        let d = center_arcs(nodes, cn.drop_last());
        assert(center_arcs(nodes, cn).take(p.len() as int) =~= d.take(p.len() as int));
    }
}

/// The Table A entry of road `road`: class, speed, toll, one-way and access
/// of the first arc of the center on that road; the NET1 offset is patched
/// in later.
fn table_a_entry(nodes: &Vec<RouteNode>, center: &RouteCenter, road: usize) -> (e: TableAEntry)
    requires
        indices_valid(nodes@, center.nodes@),
    ensures
        e == table_a_entry_of(center_arcs(nodes@, center.nodes@), road),
{
    let ghost cn = center.nodes@;
    let mut k: usize = 0;
    while k < center.nodes.len()
        invariant
            k <= cn.len(),
            cn == center.nodes@,
            indices_valid(nodes@, cn),
            first_arc_on(center_arcs(nodes@, cn.take(k as int)), road) is None,
        decreases cn.len() - k,
    {
        let node = &nodes[center.nodes[k]];
        let ghost pre = center_arcs(nodes@, cn.take(k as int));
        let mut a: usize = 0;
        while a < node.arcs.len()
            invariant
                a <= node.arcs@.len(),
                k < cn.len(),
                cn == center.nodes@,
                node == nodes@[cn[k as int] as int],
                first_arc_on(pre + node.arcs@.take(a as int), road) is None,
                pre == center_arcs(nodes@, cn.take(k as int)),
            decreases node.arcs@.len() - a,
        {
            let arc = &node.arcs[a];
            let ghost s = pre + node.arcs@.take(a as int);
            assert(pre + node.arcs@.take(a + 1) =~= s.push(*arc));
            assert(s.push(*arc).drop_last() =~= s);
            if arc.road_def_index == road {
                proof {
                    let t = s.push(*arc);
                    assert(first_arc_on(t, road) == Some(*arc));
                    assert(cn.take(k + 1).drop_last() =~= cn.take(k as int));
                    let full_k = center_arcs(nodes@, cn.take(k + 1));
                    assert(full_k == pre + node.arcs@);
                    assert(full_k.take(t.len() as int) =~= t);
                    lemma_first_arc_prefix(t, full_k, road);
                    lemma_center_arcs_prefix(nodes@, cn, k + 1);
                    let all = center_arcs(nodes@, cn);
                    assert(all.take(t.len() as int) =~= t) by {
                        assert(all.take(full_k.len() as int) == full_k);
                    }
                    lemma_first_arc_prefix(t, all, road);
                }
                return TableAEntry {
                    net1_offset: 0,
                    road_class: arc.road_class,
                    speed: arc.speed,
                    toll: arc.toll,
                    one_way: arc.one_way,
                    access: arc.access,
                };
            }
            a = a + 1;
        }
        assert(node.arcs@.take(node.arcs@.len() as int) =~= node.arcs@);
        assert(cn.take(k + 1).drop_last() =~= cn.take(k as int));
        k = k + 1;
    }
    assert(cn.take(cn.len() as int) =~= cn);
    TableAEntry { net1_offset: 0, road_class: 0, speed: 0, toll: false, one_way: false, access: 0 }
}

/// The tables of a center: its node set, Table A roads and Table B nodes.
pub open spec fn ctables(nodes: Seq<RouteNode>, center: RouteCenter) -> (Set<usize>, Seq<usize>, Seq<usize>) {
    let arcs = center_arcs(nodes, center.nodes@);
    let cset = node_set(center.nodes@);
    (cset, roads_of(arcs), external_dests(arcs, cset))
}

/// The first `n` nodes of a center as first written, one after another.
pub open spec fn cn_bytes(nodes: Seq<RouteNode>, center: RouteCenter, n: int) -> Seq<u8>
    decreases n,
{
    if n <= 0 {
        Seq::empty()
    } else {
        let t = ctables(nodes, center);
        cn_bytes(nodes, center, n - 1) + node_bytes(nodes, center, center.nodes@[n - 1] as int, t.0, t.1, t.2)
    }
}

/// Where each of the first `n` nodes of a center starts, written from
/// `base` on.
pub open spec fn cn_starts(nodes: Seq<RouteNode>, center: RouteCenter, n: int, base: int) -> Seq<usize>
    decreases n,
{
    if n <= 0 {
        Seq::empty()
    } else {
        cn_starts(nodes, center, n - 1, base).push((base + cn_bytes(nodes, center, n - 1).len()) as usize)
    }
}

/// The pending internal-arc pointers of the first `n` nodes of a center,
/// written from `base` on.
pub open spec fn cn_patches(nodes: Seq<RouteNode>, center: RouteCenter, n: int, base: int) -> Seq<ArcPatchInfo>
    decreases n,
{
    if n <= 0 {
        Seq::empty()
    } else {
        let t = ctables(nodes, center);
        cn_patches(nodes, center, n - 1, base) + node_patches(nodes, center, center.nodes@[n - 1] as int, t.0, t.1,
            t.2, base + cn_bytes(nodes, center, n - 1).len())
    }
}

/// Node offsets once the first `n` nodes of a center are written from
/// `base` on: each records its start.
pub open spec fn cn_offsets(offs: Seq<u32>, nodes: Seq<RouteNode>, center: RouteCenter, n: int, base: int) -> Seq<u32>
    decreases n,
{
    if n <= 0 {
        offs
    } else {
        cn_offsets(offs, nodes, center, n - 1, base).update(center.nodes@[n - 1] as int,
            (base + cn_bytes(nodes, center, n - 1).len()) as u32)
    }
}

/// `cb` with every class below `nc` lowered to `v` where `v` is lower.
pub open spec fn lowered(cb: Seq<u32>, nc: int, v: u32) -> Seq<u32> {
    Seq::new(5, |c: int| if c < nc && v < cb[c] { v } else { cb[c] })
}

/// The class of a node, at most 4.
pub open spec fn capped_class(node: RouteNode) -> int {
    if node.node_class > 4 { 4 } else { node.node_class as int }
}

/// Class boundaries once the first `n` nodes of a center that starts at
/// `v` are written: each lowers the boundaries of the classes below its own.
pub open spec fn cn_cb(cb: Seq<u32>, nodes: Seq<RouteNode>, center: RouteCenter, n: int, v: u32) -> Seq<u32>
    decreases n,
{
    if n <= 0 {
        cb
    } else {
        lowered(cn_cb(cb, nodes, center, n - 1, v), capped_class(nodes[center.nodes@[n - 1] as int]), v)
    }
}

/// Write the nodes of a center. Returns where each starts and the pending
/// internal-arc pointers.
fn write_center_nodes(
    nodes: &Vec<RouteNode>,
    center: &RouteCenter,
    center_set: &HashSet<usize>,
    ta_roads: &Vec<usize>,
    tb_nodes: &Vec<usize>,
    cb: &mut Vec<u32>,
    data: &mut Vec<u8>,
    node_offsets: &mut Vec<u32>,
) -> (r: (Vec<usize>, Vec<ArcPatchInfo>))
    requires
        indices_valid(nodes@, center.nodes@),
        arcs_valid(nodes@),
        old(cb)@.len() == 5,
        old(node_offsets)@.len() == nodes@.len(),
        center_set@ == ctables(nodes@, *center).0,
        ta_roads@ == ctables(nodes@, *center).1,
        tb_nodes@ == ctables(nodes@, *center).2,
    ensures
        final(data)@ == old(data)@ + cn_bytes(nodes@, *center, center.nodes@.len() as int),
        final(node_offsets)@ == cn_offsets(old(node_offsets)@, nodes@, *center, center.nodes@.len() as int,
            old(data)@.len() as int),
        final(cb)@ == cn_cb(old(cb)@, nodes@, *center, center.nodes@.len() as int, old(data)@.len() as u32),
        r.0@ == cn_starts(nodes@, *center, center.nodes@.len() as int, old(data)@.len() as int),
        r.1@ == cn_patches(nodes@, *center, center.nodes@.len() as int, old(data)@.len() as int),
        final(cb)@.len() == 5,
        final(node_offsets)@.len() == nodes@.len(),
        patches_ok(r.1@, final(data)@.len() as int, nodes@.len() as int),
        forall|j: int| 0 <= j < r.0@.len() ==> #[trigger] r.0@[j] < final(data)@.len(),
{
    let ghost d0 = data@;
    let ghost o0 = node_offsets@;
    let ghost cb0 = cb@;
    let center_start = data.len();
    let mut node_infos: Vec<usize> = Vec::new();
    let mut arc_patches: Vec<ArcPatchInfo> = Vec::new();
    let mut k: usize = 0;
    while k < center.nodes.len()
        invariant
            k <= center.nodes@.len(),
            center_start == d0.len(),
            indices_valid(nodes@, center.nodes@),
            arcs_valid(nodes@),
            center_set@ == ctables(nodes@, *center).0,
            ta_roads@ == ctables(nodes@, *center).1,
            tb_nodes@ == ctables(nodes@, *center).2,
            data@ == d0 + cn_bytes(nodes@, *center, k as int),
            node_offsets@ == cn_offsets(o0, nodes@, *center, k as int, d0.len() as int),
            cb@ == cn_cb(cb0, nodes@, *center, k as int, center_start as u32),
            node_infos@ == cn_starts(nodes@, *center, k as int, d0.len() as int),
            arc_patches@ == cn_patches(nodes@, *center, k as int, d0.len() as int),
            cb@.len() == 5,
            node_offsets@.len() == nodes@.len(),
            patches_ok(arc_patches@, data@.len() as int, nodes@.len() as int),
            forall|j: int| 0 <= j < node_infos@.len() ==> #[trigger] node_infos@[j] < data@.len(),
        decreases center.nodes@.len() - k,
    {
        let node_idx = center.nodes[k];
        let node_start = data.len();
        node_offsets.set(node_idx, node_start as u32);
        let class = nodes[node_idx].node_class;
        let nc: usize = if class > 4 { 4 } else { class as usize };
        let ghost cb_before = cb@;
        lower_class_boundaries(cb, nc, center_start as u32);
        assert(cb@ =~= lowered(cb_before, nc as int, center_start as u32));
        write_node(nodes, center, node_idx, center_set, ta_roads, tb_nodes, data, &mut arc_patches);
        node_infos.push(node_start);
        assert(data@ =~= d0 + cn_bytes(nodes@, *center, k + 1));
        assert(arc_patches@ =~= cn_patches(nodes@, *center, k + 1, d0.len() as int));
        assert(data@.len() > node_start);
        k = k + 1;
    }
    (node_infos, arc_patches)
}

/// `d` with the low byte of each node starting at `starts` patched for the
/// tables at `tab`.
pub open spec fn low_patched(d: Seq<u8>, starts: Seq<usize>, tab: usize) -> Seq<u8>
    decreases starts.len(),
{
    if starts.len() == 0 {
        d
    } else {
        low_patched(d, starts.drop_last(), tab).update(starts.last() as int, spec_low_byte(starts.last(), tab))
    }
}

/// The two bytes of an internal arc's destination: flag B over the 14-bit
/// offset from the source node to the destination node.
pub open spec fn arc_pointer(p: ArcPatchInfo, offs: Seq<u32>) -> u16 {
    let diff = wsub(offs[p.dest_node_index as int] as i32, p.src_node_offset as i32);
    ((p.flag_b as u16) << 8u16) | ((diff as u16) & 0x3FFFu16)
}

/// `d` with each pending internal-arc pointer written, high byte first.
pub open spec fn arc_patched(d: Seq<u8>, ps: Seq<ArcPatchInfo>, offs: Seq<u32>) -> Seq<u8>
    decreases ps.len(),
{
    if ps.len() == 0 {
        d
    } else {
        let p = ps.last();
        let v = arc_pointer(p, offs);
        arc_patched(d, ps.drop_last(), offs).update(p.flagb_pos as int, (v >> 8u16) as u8).update(
            p.flagb_pos + 1,
            (v & 0xFFu16) as u8,
        )
    }
}

/// Patch the low bytes of the nodes starting at `infos` (the tables at
/// `tables_offset`) and the internal-arc pointers.
fn patch_center(
    data: &mut Vec<u8>,
    infos: &Vec<usize>,
    patches: &Vec<ArcPatchInfo>,
    node_offsets: &Vec<u32>,
    len: usize,
    tables_offset: usize,
)
    requires
        old(data)@.len() == tables_offset,
        tables_offset == (len / 64 + 1) * 64,
        forall|j: int| 0 <= j < infos@.len() ==> #[trigger] infos@[j] < len,
        patches_ok(patches@, tables_offset as int, node_offsets@.len() as int),
    ensures
        final(data)@ == arc_patched(low_patched(old(data)@, infos@, tables_offset), patches@, node_offsets@),
        final(data)@.len() == tables_offset,
{
    let ghost d0 = data@;
    let mut k: usize = 0;
    while k < infos.len()
        invariant
            k <= infos@.len(),
            data@.len() == tables_offset,
            tables_offset == (len / 64 + 1) * 64,
            forall|j: int| 0 <= j < infos@.len() ==> #[trigger] infos@[j] < len,
            data@ == low_patched(d0, infos@.take(k as int), tables_offset),
        decreases infos@.len() - k,
    {
        let off = infos[k];
        assert(off / 64 < tables_offset / 64) by (nonlinear_arith)
            requires off < len, tables_offset == (len / 64 + 1) * 64;
        let low = calc_low_byte(off, tables_offset);
        data.set(off, low);
        assert(infos@.take(k + 1).drop_last() =~= infos@.take(k as int));
        k = k + 1;
    }
    assert(infos@.take(infos@.len() as int) =~= infos@);
    let ghost d1 = data@;
    k = 0;
    while k < patches.len()
        invariant
            k <= patches@.len(),
            data@.len() == tables_offset,
            patches_ok(patches@, tables_offset as int, node_offsets@.len() as int),
            data@ == arc_patched(d1, patches@.take(k as int), node_offsets@),
        decreases patches@.len() - k,
    {
        let patch = &patches[k];
        let dest_offset = node_offsets[patch.dest_node_index];
        let diff: i32 = (dest_offset as i32).wrapping_sub(patch.src_node_offset as i32);
        let val: u16 = ((patch.flag_b as u16) << 8u16) | ((diff as u16) & 0x3FFF);
        assert(val == arc_pointer(*patch, node_offsets@));
        data.set(patch.flagb_pos, (val >> 8u16) as u8);
        data.set(patch.flagb_pos + 1, (val & 0xFF) as u8);
        assert(patches@.take(k + 1).drop_last() =~= patches@.take(k as int));
        k = k + 1;
    }
    assert(patches@.take(patches@.len() as int) =~= patches@);
}

/// Table A of a center: the entry of each road of `ta`.
pub open spec fn table_a_bytes(arcs: Seq<RouteArc>, ta: Seq<usize>) -> Seq<u8>
    decreases ta.len(),
{
    if ta.len() == 0 {
        Seq::empty()
    } else {
        table_a_bytes(arcs, ta.drop_last()) + table_a_entry_of(arcs, ta.last()).spec_bytes()
    }
}

/// The tables header of a center: no Table C, the center's longitude and
/// latitude, and the sizes of Table A and Table B.
pub open spec fn tables_header(center: RouteCenter, na: int, nb: int) -> Seq<u8> {
    seq![0u8] + le24(center.center_lon as u32) + le24(center.center_lat as u32) + seq![na as u8, nb as u8]
}

/// A pending Table B entry at `pos` for node `node`.
pub open spec fn table_b_slot(pos: int, node: usize) -> TableBPatchInfo {
    TableBPatchInfo { byte_pos: pos as usize, node_index: node }
}

/// Write the tables of a center: the header, Table A, and zeroed Table B
/// entries, recording where the Table A entries and the Table B entries lie.
fn write_center_tables(
    nodes: &Vec<RouteNode>,
    center: &RouteCenter,
    ta_roads: &Vec<usize>,
    tb_nodes: &Vec<usize>,
    data: &mut Vec<u8>,
    tap: &mut Vec<(usize, usize)>,
    tbp: &mut Vec<TableBPatchInfo>,
)
    requires
        indices_valid(nodes@, center.nodes@),
        indices_valid(nodes@, tb_nodes@),
        positions_ok(old(tap)@, old(data)@.len() as int),
        b_patches_ok(old(tbp)@, old(data)@.len() as int, nodes@.len() as int),
    ensures
        final(data)@ == old(data)@ + tables_header(*center, ta_roads@.len() as int, tb_nodes@.len() as int)
            + table_a_bytes(center_arcs(nodes@, center.nodes@), ta_roads@) + Seq::new(3 * tb_nodes@.len(), |i: int| 0u8),
        final(tap)@ == old(tap)@ + Seq::new(ta_roads@.len(), |j: int| ((old(data)@.len() + 9 + 5 * j) as usize, ta_roads@[j])),
        final(tbp)@ == old(tbp)@ + Seq::new(tb_nodes@.len(), |j: int| table_b_slot(
            old(data)@.len() + 9 + 5 * ta_roads@.len() + 3 * j, tb_nodes@[j])),
        positions_ok(final(tap)@, final(data)@.len() as int),
        b_patches_ok(final(tbp)@, final(data)@.len() as int, nodes@.len() as int),
{
    let ghost d0 = data@;
    let ghost tap0 = tap@;
    let ghost tbp0 = tbp@;
    let ghost arcs = center_arcs(nodes@, center.nodes@);
    data.push(0x00);
    push_u24(data, center.center_lon as u32);
    push_u24(data, center.center_lat as u32);
    data.push(ta_roads.len() as u8);
    data.push(tb_nodes.len() as u8);
    let ghost h = data@;
    assert(h =~= d0 + tables_header(*center, ta_roads@.len() as int, tb_nodes@.len() as int));
    let mut k: usize = 0;
    while k < ta_roads.len()
        invariant
            k <= ta_roads@.len(),
            indices_valid(nodes@, center.nodes@),
            arcs == center_arcs(nodes@, center.nodes@),
            h.len() == d0.len() + 9,
            data@ == h + table_a_bytes(arcs, ta_roads@.take(k as int)),
            data@.len() == h.len() + 5 * k,
            tap@ == tap0 + Seq::new(k as nat, |j: int| ((d0.len() + 9 + 5 * j) as usize, ta_roads@[j])),
            positions_ok(tap@, data@.len() as int),
            b_patches_ok(tbp@, data@.len() as int, nodes@.len() as int),
        decreases ta_roads@.len() - k,
    {
        let ta_pos = data.len();
        let road = ta_roads[k];
        let entry = table_a_entry(nodes, center, road);
        entry.write(data);
        let ghost old_tap = tap@;
        tap.push((ta_pos, road));
        proof {
            assert forall|t: int, u: int| 0 <= t < u < tap@.len() implies (#[trigger] tap@[t]).0 + 5 <= (#[trigger] tap@[u]).0 by {
                if u == tap@.len() - 1 && t < old_tap.len() {
                    assert(old_tap[t].0 + 5 <= ta_pos);
                }
            }
            assert(ta_roads@.take(k + 1).drop_last() =~= ta_roads@.take(k as int));
            assert(data@ =~= h + table_a_bytes(arcs, ta_roads@.take(k + 1)));
            assert(tap@ =~= tap0 + Seq::new((k + 1) as nat, |j: int| ((d0.len() + 9 + 5 * j) as usize, ta_roads@[j])));
        }
        k = k + 1;
    }
    assert(ta_roads@.take(ta_roads@.len() as int) =~= ta_roads@);
    let ghost a_end = data@;
    k = 0;
    while k < tb_nodes.len()
        invariant
            k <= tb_nodes@.len(),
            indices_valid(nodes@, tb_nodes@),
            a_end.len() == d0.len() + 9 + 5 * ta_roads@.len(),
            data@ == a_end + Seq::new(3 * k as nat, |i: int| 0u8),
            tbp@ == tbp0 + Seq::new(k as nat, |j: int| table_b_slot(d0.len() + 9 + 5 * ta_roads@.len() + 3 * j, tb_nodes@[j])),
            positions_ok(tap@, data@.len() as int),
            b_patches_ok(tbp@, data@.len() as int, nodes@.len() as int),
        decreases tb_nodes@.len() - k,
    {
        let pos = data.len();
        data.push(0x00);
        data.push(0x00);
        data.push(0x00);
        tbp.push(TableBPatchInfo { byte_pos: pos, node_index: tb_nodes[k] });
        assert(data@ =~= a_end + Seq::new(3 * (k + 1) as nat, |i: int| 0u8));
        assert(tbp@ =~= tbp0 + Seq::new((k + 1) as nat, |j: int| table_b_slot(d0.len() + 9 + 5 * ta_roads@.len() + 3 * j, tb_nodes@[j])));
        k = k + 1;
    }
}

/// A route center written after `d0`: node offsets, class boundaries, Table
/// A positions and pending Table B entries before it are `o0`, `cb0`,
/// `tap0` and `tbp0`. Its nodes (low bytes and internal pointers patched
/// once the tables' place is known), zero padding to the next 64-byte
/// boundary, the tables header, Table A, and zeroed Table B entries.
pub open spec fn center_result(nodes: Seq<RouteNode>, center: RouteCenter, d0: Seq<u8>, o0: Seq<u32>, cb0: Seq<u32>,
    tap0: Seq<(usize, usize)>, tbp0: Seq<TableBPatchInfo>) -> (Seq<u8>, Seq<u32>, Seq<u32>, Seq<(usize, usize)>,
    Seq<TableBPatchInfo>)
{
    let t = ctables(nodes, center);
    let n = center.nodes@.len() as int;
    let base = d0.len() as int;
    let body = d0 + cn_bytes(nodes, center, n);
    let len = body.len() as int;
    let offs = cn_offsets(o0, nodes, center, n, base);
    let cb = cn_cb(cb0, nodes, center, n, base as u32);
    if len > usize::MAX - 128 {
        (body, offs, cb, tap0, tbp0)
    } else {
        let tab = (len / 64 + 1) * 64;
        let padded = body + Seq::new((tab - len) as nat, |i: int| 0u8);
        let patched = arc_patched(low_patched(padded, cn_starts(nodes, center, n, base), tab as usize),
            cn_patches(nodes, center, n, base), offs);
        (
            patched + tables_header(center, t.1.len() as int, t.2.len() as int)
                + table_a_bytes(center_arcs(nodes, center.nodes@), t.1) + Seq::new(3 * t.2.len(), |i: int| 0u8),
            offs,
            cb,
            tap0 + Seq::new(t.1.len(), |j: int| ((tab + 9 + 5 * j) as usize, t.1[j])),
            tbp0 + Seq::new(t.2.len(), |j: int| table_b_slot(tab + 9 + 5 * t.1.len() + 3 * j, t.2[j])),
        )
    }
}

/// Write one route center: its nodes and arcs, padding to the next 64-byte
/// boundary, the patched low bytes and internal arc pointers, the tables
/// header (center coordinates and table sizes), Table A and the Table B
/// placeholders.
fn write_center(
    nodes: &Vec<RouteNode>,
    center: &RouteCenter,
    cb: &mut Vec<u32>,
    data: &mut Vec<u8>,
    node_offsets: &mut Vec<u32>,
    tap: &mut Vec<(usize, usize)>,
    tbp: &mut Vec<TableBPatchInfo>,
)
    requires
        indices_valid(nodes@, center.nodes@),
        arcs_valid(nodes@),
        old(cb)@.len() == 5,
        old(node_offsets)@.len() == nodes@.len(),
        positions_ok(old(tap)@, old(data)@.len() as int),
        b_patches_ok(old(tbp)@, old(data)@.len() as int, nodes@.len() as int),
    ensures
        final(data)@ == center_result(nodes@, *center, old(data)@, old(node_offsets)@, old(cb)@, old(tap)@, old(tbp)@).0,
        final(node_offsets)@ == center_result(nodes@, *center, old(data)@, old(node_offsets)@, old(cb)@, old(tap)@,
            old(tbp)@).1,
        final(cb)@ == center_result(nodes@, *center, old(data)@, old(node_offsets)@, old(cb)@, old(tap)@, old(tbp)@).2,
        final(tap)@ == center_result(nodes@, *center, old(data)@, old(node_offsets)@, old(cb)@, old(tap)@, old(tbp)@).3,
        final(tbp)@ == center_result(nodes@, *center, old(data)@, old(node_offsets)@, old(cb)@, old(tap)@, old(tbp)@).4,
        final(cb)@.len() == 5,
        final(node_offsets)@.len() == nodes@.len(),
        positions_ok(final(tap)@, final(data)@.len() as int),
        b_patches_ok(final(tbp)@, final(data)@.len() as int, nodes@.len() as int),
{
    let ghost d0 = data@;
    let (center_set, ta_roads, tb_nodes) = center_tables(nodes, center);
    let (node_infos, arc_patches) = write_center_nodes(nodes, center, &center_set, &ta_roads, &tb_nodes, cb, data,
        node_offsets);
    let len = data.len();
    if len > usize::MAX - 128 {
        // A vector never holds that many bytes.
        return;
    }
    assert((len / 64 + 1) * 64 <= len + 64 && (len / 64 + 1) * 64 > len) by (nonlinear_arith);
    let tables_offset: usize = (len / 64 + 1) * 64;
    let ghost body = data@;
    while data.len() < tables_offset
        invariant
            data@.len() <= tables_offset,
            data@.len() >= len,
            len == body.len(),
            data@ == body + Seq::new((data@.len() - len) as nat, |i: int| 0u8),
        decreases tables_offset - data@.len(),
    {
        data.push(0x00);
        assert(data@ =~= body + Seq::new((data@.len() - len) as nat, |i: int| 0u8));
    }
    patch_center(data, &node_infos, &arc_patches, node_offsets, len, tables_offset);
    assert(data@.len() >= d0.len());
    assert(b_patches_ok(tbp@, data@.len() as int, nodes@.len() as int)) by {
        assert forall|t: int| 0 <= t < tbp@.len() implies (#[trigger] tbp@[t]).byte_pos + 3 <= data@.len()
            && tbp@[t].node_index < nodes@.len() by {}
    }
    assert(positions_ok(tap@, data@.len() as int)) by {
        assert forall|t: int| 0 <= t < tap@.len() implies (#[trigger] tap@[t]).0 + 5 <= data@.len() by {}
    }
    write_center_tables(nodes, center, &ta_roads, &tb_nodes, data, tap, tbp);
    assert(tap@ =~= center_result(nodes@, *center, d0, old(node_offsets)@, old(cb)@, old(tap)@, old(tbp)@).3);
}


/// The NOD3 (all boundary nodes) or NOD4 (boundary nodes of class above 0)
/// records: longitude, latitude and NOD1 offset, three bytes each.
pub open spec fn boundary_records(nodes: Seq<RouteNode>, offsets: Seq<u32>, high_only: bool) -> Seq<u8>
    decreases nodes.len(),
{
    if nodes.len() == 0 {
        Seq::empty()
    } else {
        let i = nodes.len() - 1;
        let n = nodes[i];
        let off: u32 = if i < offsets.len() { offsets[i] } else { 0 };
        boundary_records(nodes.drop_last(), offsets, high_only) + if n.is_boundary && (!high_only || n.node_class > 0) {
            le24(n.lon as u32) + le24(n.lat as u32) + le24(off)
        } else {
            Seq::empty()
        }
    }
}

/// Class boundaries as written: each clamped to the NOD1 size.
pub open spec fn clamped(cb: Seq<u32>, size: u32) -> Seq<u32> {
    Seq::new(5, |i: int| if cb[i] > size { size } else { cb[i] })
}

/// The NOD header (127 bytes) for sections of the given sizes.
pub open spec fn nod_header(secs: u64, n1: u32, n2: u32, n3: u32, n4: u32, left: bool, cb: Seq<u32>) -> Seq<u8> {
    let o1: u32 = NOD_HEADER_LEN as u32;
    let o2 = vstd::wrapping::u32_specs::wrapping_add(o1, n1);
    let o3 = vstd::wrapping::u32_specs::wrapping_add(o2, n2);
    let o4 = vstd::wrapping::u32_specs::wrapping_add(o3, n3);
    let flags: u32 = if left { 0x0327 } else { 0x0227 };
    let h = header_bytes(NOD_HEADER_LEN, "GARMIN NOD"@, secs) + le32(o1) + le32(n1) + le32(flags)
        + seq![0x06u8, 0x00u8] + le16(5) + le32(o2) + le32(n2) + le32(0) + le32(o3) + le32(n3)
        + le16(9) + le32(2) + le32(o4) + le32(n4) + le32(cb[0])
        + le32(vstd::wrapping::u32_specs::wrapping_sub(cb[1], cb[0]))
        + le32(vstd::wrapping::u32_specs::wrapping_sub(cb[2], cb[1]))
        + le32(vstd::wrapping::u32_specs::wrapping_sub(cb[3], cb[2]))
        + le32(vstd::wrapping::u32_specs::wrapping_sub(cb[4], cb[3]));
    h + Seq::new((NOD_HEADER_LEN - h.len()) as nat, |i: int| 0u8)
}

/// The NOD subfile: header, then NOD1, NOD2, NOD3 and NOD4.
pub open spec fn nod_file(secs: u64, nod1: Seq<u8>, nod2: Seq<u8>, nodes: Seq<RouteNode>, offsets: Seq<u32>,
    left: bool, cb: Seq<u32>) -> Seq<u8>
{
    let nod3 = boundary_records(nodes, offsets, false);
    let nod4 = boundary_records(nodes, offsets, true);
    nod_header(secs, nod1.len() as u32, nod2.len() as u32, nod3.len() as u32, nod4.len() as u32, left,
        clamped(cb, nod1.len() as u32)) + nod1 + nod2 + nod3 + nod4
}

/// NOD1 after the centers `centers` are written in turn, node offsets
/// starting at zero and class boundaries at `cb0`: the data, node offsets,
/// class boundaries, Table A positions and pending Table B entries.
pub open spec fn nod1_state(nodes: Seq<RouteNode>, centers: Seq<RouteCenter>, cb0: Seq<u32>) -> (Seq<u8>, Seq<u32>,
    Seq<u32>, Seq<(usize, usize)>, Seq<TableBPatchInfo>)
    decreases centers.len(),
{
    if centers.len() == 0 {
        (Seq::empty(), Seq::new(nodes.len(), |i: int| 0u32), cb0, Seq::empty(), Seq::empty())
    } else {
        let st = nod1_state(nodes, centers.drop_last(), cb0);
        center_result(nodes, centers.last(), st.0, st.1, st.2, st.3, st.4)
    }
}

/// `d` with each pending Table B entry set to the NOD1 offset of its node
/// (three bytes, little-endian).
pub open spec fn table_b_patched(d: Seq<u8>, ps: Seq<TableBPatchInfo>, offs: Seq<u32>) -> Seq<u8>
    decreases ps.len(),
{
    if ps.len() == 0 {
        d
    } else {
        let p = ps.last();
        let o = offs[p.node_index as int];
        table_b_patched(d, ps.drop_last(), offs).update(p.byte_pos as int, o as u8).update(
            p.byte_pos + 1,
            (o >> 8u32) as u8,
        ).update(p.byte_pos + 2, (o >> 16u32) as u8)
    }
}

/// The NOD1 bytes of the nodes grouped into `centers`: every center in
/// turn, then the Table B entries set to the offsets of their nodes.
pub open spec fn nod1_bytes(nodes: Seq<RouteNode>, centers: Seq<RouteCenter>, cb0: Seq<u32>) -> Seq<u8> {
    let st = nod1_state(nodes, centers, cb0);
    table_b_patched(st.0, st.4, st.1)
}

impl NodWriter {
    /// Build NOD1: every center in turn, then the Table B entries patched
    /// with the NOD1 offsets of their nodes. Returns the data, each node's
    /// offset, and the Table A positions.
    fn build_nod1(&mut self) -> (r: (Vec<u8>, Vec<u32>, Vec<(usize, usize)>))
        requires
            old(self).graph_valid(),
            old(self).class_boundaries@.len() == 5,
        ensures
            final(self).nodes == old(self).nodes,
            final(self).centers == old(self).centers,
            final(self).nod2_data == old(self).nod2_data,
            final(self).nod1_data == old(self).nod1_data,
            final(self).drive_on_left == old(self).drive_on_left,
            final(self).class_boundaries@.len() == 5,
            r.0@ == nod1_bytes(old(self).nodes@, old(self).centers@, old(self).class_boundaries@),
            r.1@ == nod1_state(old(self).nodes@, old(self).centers@, old(self).class_boundaries@).1,
            r.2@ == nod1_state(old(self).nodes@, old(self).centers@, old(self).class_boundaries@).3,
            final(self).class_boundaries@ == nod1_state(old(self).nodes@, old(self).centers@,
                old(self).class_boundaries@).2,
            r.1@.len() == old(self).nodes@.len(),
            positions_ok(r.2@, r.0@.len() as int),
    {
        let ghost cb0 = self.class_boundaries@;
        let mut data: Vec<u8> = Vec::new();
        let mut node_offsets: Vec<u32> = Vec::new();
        let mut i: usize = 0;
        while i < self.nodes.len()
            invariant
                i <= self.nodes@.len(),
                node_offsets@ == Seq::new(i as nat, |j: int| 0u32),
            decreases self.nodes@.len() - i,
        {
            node_offsets.push(0);
            assert(node_offsets@ =~= Seq::new((i + 1) as nat, |j: int| 0u32));
            i = i + 1;
        }
        let mut tap: Vec<(usize, usize)> = Vec::new();
        let mut tbp: Vec<TableBPatchInfo> = Vec::new();
        let mut cb: Vec<u32> = Vec::new();
        std::mem::swap(&mut cb, &mut self.class_boundaries);
        let ghost centers = self.centers@;
        let ghost nodes = self.nodes@;
        assert(centers.take(0) =~= Seq::<RouteCenter>::empty());
        let mut ci: usize = 0;
        while ci < self.centers.len()
            invariant
                ci <= self.centers@.len(),
                centers == self.centers@,
                nodes == self.nodes@,
                self.graph_valid(),
                cb@.len() == 5,
                node_offsets@.len() == self.nodes@.len(),
                positions_ok(tap@, data@.len() as int),
                b_patches_ok(tbp@, data@.len() as int, self.nodes@.len() as int),
                data@ == nod1_state(nodes, centers.take(ci as int), cb0).0,
                node_offsets@ == nod1_state(nodes, centers.take(ci as int), cb0).1,
                cb@ == nod1_state(nodes, centers.take(ci as int), cb0).2,
                tap@ == nod1_state(nodes, centers.take(ci as int), cb0).3,
                tbp@ == nod1_state(nodes, centers.take(ci as int), cb0).4,
            decreases self.centers@.len() - ci,
        {
            assert(centers.take(ci + 1).drop_last() =~= centers.take(ci as int));
            write_center(&self.nodes, &self.centers[ci], &mut cb, &mut data, &mut node_offsets, &mut tap, &mut tbp);
            ci = ci + 1;
        }
        assert(centers.take(centers.len() as int) =~= centers);
        std::mem::swap(&mut cb, &mut self.class_boundaries);
        let ghost d_end = data@;
        let mut k: usize = 0;
        while k < tbp.len()
            invariant
                k <= tbp@.len(),
                node_offsets@.len() == self.nodes@.len(),
                positions_ok(tap@, data@.len() as int),
                b_patches_ok(tbp@, data@.len() as int, self.nodes@.len() as int),
                data@ == table_b_patched(d_end, tbp@.take(k as int), node_offsets@),
                data@.len() == d_end.len(),
            decreases tbp@.len() - k,
        {
            let patch = &tbp[k];
            assert(tbp@[k as int].byte_pos + 3 <= data@.len());
            let _len = data.len();
            let off = node_offsets[patch.node_index];
            data.set(patch.byte_pos, off as u8);
            data.set(patch.byte_pos + 1, (off >> 8u32) as u8);
            data.set(patch.byte_pos + 2, (off >> 16u32) as u8);
            assert(tbp@.take(k + 1).drop_last() =~= tbp@.take(k as int));
            k = k + 1;
        }
        assert(tbp@.take(tbp@.len() as int) =~= tbp@);
        (data, node_offsets, tap)
    }

    /// Build the route centers if there are none yet, then NOD1, keeping
    /// the data, node offsets and Table A positions for patching.
    pub fn prepare(&mut self)
        requires
            old(self).graph_valid(),
            old(self).class_boundaries@.len() == 5,
        ensures
            final(self).prepared(),
            final(self).graph_valid(),
            final(self).nodes == old(self).nodes,
            final(self).nod2_data == old(self).nod2_data,
            final(self).drive_on_left == old(self).drive_on_left,
            old(self).centers@.len() > 0 ==> final(self).centers == old(self).centers,
            final(self).nod1_data->0@ == nod1_bytes(old(self).nodes@, final(self).centers@, old(self).class_boundaries@),
            final(self).node_offsets@ == nod1_state(old(self).nodes@, final(self).centers@,
                old(self).class_boundaries@).1,
            final(self).table_a_positions@ == nod1_state(old(self).nodes@, final(self).centers@,
                old(self).class_boundaries@).3,
            final(self).class_boundaries@ == nod1_state(old(self).nodes@, final(self).centers@,
                old(self).class_boundaries@).2,
    {
        if self.centers.len() == 0 {
            self.build_centers();
        }
        let (nod1_data, node_offsets, table_a_pos) = self.build_nod1();
        self.nod1_data = Some(nod1_data);
        self.node_offsets = node_offsets;
        self.table_a_positions = table_a_pos;
    }

    /// The NOD3 or NOD4 records of the nodes.
    fn build_boundary(&self, node_offsets: &Vec<u32>, high_only: bool) -> (r: Vec<u8>)
        ensures
            r@ == boundary_records(self.nodes@, node_offsets@, high_only),
    {
        let mut data: Vec<u8> = Vec::new();
        let mut i: usize = 0;
        while i < self.nodes.len()
            invariant
                i <= self.nodes@.len(),
                data@ == boundary_records(self.nodes@.take(i as int), node_offsets@, high_only),
            decreases self.nodes@.len() - i,
        {
            let node = &self.nodes[i];
            assert(self.nodes@.take(i + 1).drop_last() =~= self.nodes@.take(i as int));
            if node.is_boundary && (!high_only || node.node_class > 0) {
                push_u24(&mut data, node.lon as u32);
                push_u24(&mut data, node.lat as u32);
                let off: u32 = if i < node_offsets.len() { node_offsets[i] } else { 0 };
                push_u24(&mut data, off);
            }
            assert(data@ =~= boundary_records(self.nodes@.take(i + 1), node_offsets@, high_only));
            i = i + 1;
        }
        assert(self.nodes@.take(self.nodes@.len() as int) =~= self.nodes@);
        data
    }

    /// Build the complete NOD subfile (header, NOD1, NOD2, NOD3, NOD4),
    /// preparing NOD1 first if needed; NOD1 is consumed.
    #[verifier::rlimit(40)]
    pub fn build(&mut self, now_secs: u64) -> (r: Vec<u8>)
        requires
            old(self).graph_valid(),
            old(self).class_boundaries@.len() == 5,
        ensures
            old(self).nod1_data is Some ==> r@ == nod_file(now_secs, old(self).nod1_data->0@, old(self).nod2_data@,
                old(self).nodes@, old(self).node_offsets@, old(self).drive_on_left, old(self).class_boundaries@),
            old(self).nod1_data is None ==> r@ == nod_file(now_secs,
                nod1_bytes(old(self).nodes@, final(self).centers@, old(self).class_boundaries@), old(self).nod2_data@,
                old(self).nodes@, nod1_state(old(self).nodes@, final(self).centers@, old(self).class_boundaries@).1,
                old(self).drive_on_left, nod1_state(old(self).nodes@, final(self).centers@, old(self).class_boundaries@).2),
            old(self).nod1_data is Some || old(self).centers@.len() > 0 ==> final(self).centers == old(self).centers,
            final(self).nod1_data is None,
            final(self).nodes == old(self).nodes,
    {
        if self.nod1_data.is_none() {
            self.prepare();
        }
        let ghost cb0 = self.class_boundaries@;
        let nod1_data = match self.nod1_data.take() {
            Some(d) => d,
            None => Vec::new(),
        };
        let nod3_data = self.build_boundary(&self.node_offsets, false);
        let nod4_data = self.build_boundary(&self.node_offsets, true);
        let nod1_size: u32 = nod1_data.len() as u32;
        clamp_boundaries(&mut self.class_boundaries, nod1_size);
        let mut buf = nod_header_exec(now_secs, nod1_size, self.nod2_data.len() as u32, nod3_data.len() as u32,
            nod4_data.len() as u32, self.drive_on_left, &self.class_boundaries);
        let ghost h = buf@;
        crate::bytes::push_bytes(&mut buf, nod1_data.as_slice());
        crate::bytes::push_bytes(&mut buf, self.nod2_data.as_slice());
        crate::bytes::push_bytes(&mut buf, nod3_data.as_slice());
        crate::bytes::push_bytes(&mut buf, nod4_data.as_slice());
        assert(buf@ =~= h + nod1_data@ + self.nod2_data@ + nod3_data@ + nod4_data@);
        assert(buf@ == nod_file(now_secs, nod1_data@, self.nod2_data@, self.nodes@, self.node_offsets@,
            self.drive_on_left, cb0));
        buf
    }
}

/// Clamp each class boundary to `size`.
fn clamp_boundaries(cb: &mut Vec<u32>, size: u32)
    requires
        old(cb)@.len() == 5,
    ensures
        final(cb)@ == clamped(old(cb)@, size),
{
    let ghost cb0 = cb@;
    let mut i: usize = 0;
    while i < 5
        invariant
            i <= 5,
            cb@.len() == 5,
            forall|k: int| 0 <= k < 5 ==> #[trigger] cb@[k] == (if k < i { clamped(cb0, size)[k] } else { cb0[k] }),
        decreases 5 - i,
    {
        if cb[i] > size {
            cb.set(i, size);
        }
        i = i + 1;
    }
    assert(cb@ =~= clamped(cb0, size));
}

/// The NOD header bytes.
fn nod_header_exec(now_secs: u64, n1: u32, n2: u32, n3: u32, n4: u32, left: bool, cb: &Vec<u32>) -> (r: Vec<u8>)
    requires
        cb@.len() == 5,
    ensures
        r@ == nod_header(now_secs, n1, n2, n3, n4, left, cb@),
{
    let mut buf: Vec<u8> = Vec::new();
    let common = CommonHeader::new(NOD_HEADER_LEN, "GARMIN NOD");
    common.write(&mut buf, now_secs);
    let o1: u32 = NOD_HEADER_LEN as u32;
    write_section(&mut buf, o1, n1);
    let nod_flags: u32 = if left { 0x0327 } else { 0x0227 };
    push_u32(&mut buf, nod_flags);
    buf.push(0x06);
    buf.push(0x00);
    push_u16(&mut buf, 5);
    let o2: u32 = o1.wrapping_add(n1);
    write_section(&mut buf, o2, n2);
    push_u32(&mut buf, 0);
    let o3: u32 = o2.wrapping_add(n2);
    write_section(&mut buf, o3, n3);
    push_u16(&mut buf, 9);
    push_u32(&mut buf, 2);
    let o4: u32 = o3.wrapping_add(n3);
    write_section(&mut buf, o4, n4);
    push_u32(&mut buf, cb[0]);
    push_u32(&mut buf, cb[1].wrapping_sub(cb[0]));
    push_u32(&mut buf, cb[2].wrapping_sub(cb[1]));
    push_u32(&mut buf, cb[3].wrapping_sub(cb[2]));
    push_u32(&mut buf, cb[4].wrapping_sub(cb[3]));
    let ghost h = buf@;
    pad_to(&mut buf, NOD_HEADER_LEN as usize);
    assert(h.len() == 91);
    buf
}

} // verus!
