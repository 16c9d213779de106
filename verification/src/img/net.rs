//! The NET subfile: one variable-length record per road (NET1) and the
//! road index sorted by label (NET3).
use vstd::prelude::*;
use crate::bytes::{le16, le24, le32, push_u16, push_u24, push_u32};
use crate::img::common_header::{CommonHeader, header_bytes, write_section, pad_to};

verus! {

pub const NET_HEADER_LEN: u16 = 55;

pub const NO_CAR: u16 = 0x0001;
pub const NO_BUS: u16 = 0x0002;
pub const NO_TAXI: u16 = 0x0004;
pub const NO_FOOT: u16 = 0x0010;
pub const NO_BIKE: u16 = 0x0020;
pub const NO_TRUCK: u16 = 0x0040;
pub const NO_DELIVERY: u16 = 0x4000;
pub const NO_EMERGENCY: u16 = 0x8000;

/// A road definition.
#[derive(Debug, Clone)]
pub struct RoadDef {
    pub label_offsets: Vec<u32>,
    pub road_class: u8,
    pub speed: u8,
    pub one_way: bool,
    pub toll: bool,
    pub access_flags: u16,
    pub road_length_meters: u32,
    pub net1_offset: u32,
    pub nod2_offset: Option<u32>,
    /// Per level: (polyline number, subdivision number) of each piece
    pub subdiv_refs: Vec<Vec<(u8, u16)>>,
}

/// The first `n` labels, three bytes each; the last label of the road is flagged.
pub open spec fn label_bytes(labels: Seq<u32>, n: int) -> Seq<u8>
    decreases n,
{
    if n <= 0 {
        Seq::empty()
    } else {
        let v: u32 = labels[n - 1] & 0x3F_FFFFu32;
        label_bytes(labels, n - 1) + le24(if n == labels.len() { v | 0x80_0000u32 } else { v })
    }
}

/// The NET1 flags byte: one-way, the always-set bit 2, and NOD2 presence.
pub open spec fn net1_flags(one_way: bool, has_nod2: bool) -> u8 {
    let f: u8 = if one_way { 0x02u8 } else { 0u8 };
    let f2: u8 = f | 0x04u8;
    if has_nod2 { f2 | 0x40u8 } else { f2 }
}

/// The level-0 subdivision references of a road.
pub open spec fn level0_refs(refs: Seq<Vec<(u8, u16)>>) -> Seq<(u8, u16)> {
    if refs.len() == 0 { Seq::empty() } else { refs[0]@ }
}

/// The level divisions: one placeholder without references, else at most
/// 127 references of polyline number and subdivision number.
pub open spec fn level_divs(refs: Seq<(u8, u16)>, n: int) -> Seq<u8>
    decreases n,
{
    if n <= 0 {
        Seq::empty()
    } else {
        level_divs(refs, n - 1) + seq![refs[n - 1].0] + le16(refs[n - 1].1)
    }
}

/// The NOD2 pointer: absent, or a size indicator then a 2- or 3-byte offset.
pub open spec fn nod2_pointer(nod2: Option<u32>) -> Seq<u8> {
    match nod2 {
        None => Seq::empty(),
        Some(n) => if n < 0x7FFF { seq![0x01u8] + le16(n as u16) } else { seq![0x02u8] + le24(n) },
    }
}

impl RoadDef {
    pub fn new() -> (r: Self)
        ensures
            r.label_offsets@.len() == 0,
            r.road_class == 0 && r.speed == 0 && !r.one_way && !r.toll,
            r.access_flags == 0 && r.road_length_meters == 0 && r.net1_offset == 0,
            r.nod2_offset is None,
            r.subdiv_refs@.len() == 0,
    {
        RoadDef {
            label_offsets: Vec::new(),
            road_class: 0,
            speed: 0,
            one_way: false,
            toll: false,
            access_flags: 0,
            road_length_meters: 0,
            net1_offset: 0,
            nod2_offset: None,
            subdiv_refs: Vec::new(),
        }
    }

    /// The bytes of the record up to and including the level count.
    pub open spec fn net1_head(&self) -> Seq<u8> {
        let refs = level0_refs(self.subdiv_refs@);
        let count: int = if refs.len() < 1 { 1 } else if refs.len() > 0x7F { 0x7F } else { refs.len() as int };
        label_bytes(self.label_offsets@, self.label_offsets@.len() as int)
            + seq![net1_flags(self.one_way, self.nod2_offset is Some)]
            + le24(((5 * self.road_length_meters) / 24) as u32)
            + seq![0x80u8 | (count as u8)]
    }

    /// The record after the level count.
    pub open spec fn net1_tail(&self) -> Seq<u8> {
        let refs = level0_refs(self.subdiv_refs@);
        (if refs.len() == 0 { seq![0u8, 0u8, 0u8] } else {
            level_divs(refs, if refs.len() > 0x7F { 0x7F } else { refs.len() as int })
        }) + nod2_pointer(self.nod2_offset)
    }

    /// The NET1 record: labels (three bytes each, the last flagged), flags,
    /// length in units of 4.8 m rounded down, the level count, the level
    /// divisions, and the NOD2 pointer. Returns the record and the position
    /// of its first level division.
    pub fn write_net1(&self) -> (r: (Vec<u8>, usize))
        ensures
            r.0@ == self.net1_head() + self.net1_tail(),
            r.1 == self.net1_head().len(),
    {
        let mut buf: Vec<u8> = Vec::new();
        let n = self.label_offsets.len();
        let mut i: usize = 0;
        while i < n
            invariant
                n == self.label_offsets@.len(),
                i <= n,
                buf@ == label_bytes(self.label_offsets@, i as int),
            decreases n - i,
        {
            let mut val: u32 = self.label_offsets[i] & 0x3F_FFFF;
            if i == n - 1 {
                val = val | 0x80_0000;
            }
            push_u24(&mut buf, val);
            i = i + 1;
        }
        let f: u8 = if self.one_way { 0x02 } else { 0 };
        let f2: u8 = f | 0x04;
        let flags: u8 = if self.nod2_offset.is_some() { f2 | 0x40 } else { f2 };
        buf.push(flags);
        let m: u64 = self.road_length_meters as u64;
        let encoded_len: u32 = ((5 * m) / 24) as u32;
        push_u24(&mut buf, encoded_len);
        let empty: Vec<(u8, u16)> = Vec::new();
        let refs: &Vec<(u8, u16)> = if self.subdiv_refs.len() == 0 { &empty } else { &self.subdiv_refs[0] };
        let count: usize = if refs.len() < 1 { 1 } else if refs.len() > 0x7F { 0x7F } else { refs.len() };
        buf.push(0x80 | (count as u8));
        let level_div_offset = buf.len();
        let ghost head = buf@;
        assert(head =~= self.net1_head());
        if refs.len() == 0 {
            buf.push(0x00);
            push_u16(&mut buf, 0);
        } else {
            let lim: usize = if refs.len() > 0x7F { 0x7F } else { refs.len() };
            let mut k: usize = 0;
            while k < lim
                invariant
                    lim <= refs@.len(),
                    k <= lim,
                    buf@ == head + level_divs(refs@, k as int),
                decreases lim - k,
            {
                let (polyline_num, subdiv_num) = refs[k];
                buf.push(polyline_num);
                push_u16(&mut buf, subdiv_num);
                k = k + 1;
                assert(buf@ =~= head + level_divs(refs@, k as int));
            }
        }
        let ghost mid = buf@;
        assert(mid =~= head + (if refs@.len() == 0 { seq![0u8, 0u8, 0u8] } else {
            level_divs(refs@, if refs@.len() > 0x7F { 0x7F } else { refs@.len() as int }) })) by {
            if refs@.len() == 0 {
                assert(le16(0) =~= seq![0u8, 0u8]) by {
                    assert((0u16 >> 8u16) as u8 == 0u8) by (bit_vector);
                }
            }
        }
        match self.nod2_offset {
            Some(nod2) => {
                if nod2 < 0x7FFF {
                    buf.push(0x01);
                    push_u16(&mut buf, nod2 as u16);
                } else {
                    buf.push(0x02);
                    push_u24(&mut buf, nod2);
                }
            },
            None => {},
        }
        assert(buf@ =~= head + self.net1_tail());
        (buf, level_div_offset)
    }
}

/// The NET1 records of `roads`, one after the other.
pub open spec fn net1_records(roads: Seq<RoadDef>) -> Seq<u8>
    decreases roads.len(),
{
    if roads.len() == 0 {
        Seq::empty()
    } else {
        net1_records(roads.drop_last()) + roads.last().net1_head() + roads.last().net1_tail()
    }
}

/// The label by which a road is sorted in NET3: its first label, or 0.
pub open spec fn first_label(r: RoadDef) -> u32 {
    if r.label_offsets@.len() == 0 { 0 } else { r.label_offsets@[0] }
}

/// NET3 entries are ordered by label, then NET1 offset.
pub open spec fn entry_le(a: (u32, u32), b: (u32, u32)) -> bool {
    a.0 < b.0 || (a.0 == b.0 && a.1 <= b.1)
}

fn entry_le_exec(a: (u32, u32), b: (u32, u32)) -> (r: bool)
    ensures
        r == entry_le(a, b),
{
    a.0 < b.0 || (a.0 == b.0 && a.1 <= b.1)
}

/// NET3: the NET1 offsets as three bytes each, in entry order.
pub open spec fn net3_bytes(entries: Seq<(u32, u32)>) -> Seq<u8>
    decreases entries.len(),
{
    if entries.len() == 0 {
        Seq::empty()
    } else {
        net3_bytes(entries.drop_last()) + le24(entries.last().1)
    }
}

/// The NET header (55 bytes).
pub open spec fn net_header(secs: u64, n1: u32, n3: u32) -> Seq<u8> {
    let o1: u32 = NET_HEADER_LEN as u32;
    let o2 = vstd::wrapping::u32_specs::wrapping_add(o1, n1);
    let h = header_bytes(NET_HEADER_LEN, "GARMIN NET"@, secs) + le32(o1) + le32(n1) + seq![0u8]
        + le32(o2) + le32(0) + seq![0u8] + le32(o2) + le32(n3) + seq![0x03u8] + le32(0) + seq![0u8] + le16(1);
    h + Seq::new((NET_HEADER_LEN - h.len()) as nat, |i: int| 0u8)
}

/// NET subfile writer.
pub struct NetWriter {
    pub roads: Vec<RoadDef>,
    /// NET1 offset of each road, set by `build`
    pub net1_offsets: Vec<u32>,
    /// The NET data of the last `build`
    pub built_data: Option<Vec<u8>>,
    /// Per road: position in the NET data of its first level division
    pub level_div_positions: Vec<usize>,
}

impl NetWriter {
    pub fn new() -> (w: Self)
        ensures
            w.roads@.len() == 0,
            w.net1_offsets@.len() == 0,
            w.built_data is None,
            w.level_div_positions@.len() == 0,
    {
        NetWriter { roads: Vec::new(), net1_offsets: Vec::new(), built_data: None, level_div_positions: Vec::new() }
    }

    /// NET1 offset of each road, available after `build`.
    pub fn net1_offsets(&self) -> (r: &[u32])
        ensures
            r@ == self.net1_offsets@,
    {
        self.net1_offsets.as_slice()
    }

    /// Append a road; returns its index.
    pub fn add_road(&mut self, road: RoadDef) -> (idx: usize)
        ensures
            idx == old(self).roads@.len(),
            final(self).roads@ == old(self).roads@.push(road),
            final(self).net1_offsets == old(self).net1_offsets,
            final(self).built_data == old(self).built_data,
    {
        let idx = self.roads.len();
        self.roads.push(road);
        idx
    }

    /// NET3: the roads' NET1 offsets ordered by first label (equal labels
    /// keep road order, which is NET1 offset order).
    fn build_net3(&self, net1_offsets: &Vec<u32>) -> (r: (Vec<u8>, Ghost<Seq<(u32, u32)>>))
        requires
            net1_offsets@.len() == self.roads@.len(),
        ensures
            r.0@ == net3_bytes(r.1@),
            r.1@.to_multiset() == Seq::new(self.roads@.len(), |i: int| (first_label(self.roads@[i]), net1_offsets@[i])).to_multiset(),
            forall|i: int, j: int| 0 <= i < j < r.1@.len() ==> entry_le(#[trigger] r.1@[i], #[trigger] r.1@[j]),
    {
        broadcast use vstd::seq_lib::group_to_multiset_ensures;
        let ghost input = Seq::new(self.roads@.len(), |i: int| (first_label(self.roads@[i]), net1_offsets@[i]));
        let mut entries: Vec<(u32, u32)> = Vec::new();
        let mut k: usize = 0;
        assert(input.take(0) =~= Seq::<(u32, u32)>::empty());
        while k < self.roads.len()
            invariant
                k <= self.roads@.len(),
                net1_offsets@.len() == self.roads@.len(),
                input == Seq::new(self.roads@.len(), |i: int| (first_label(self.roads@[i]), net1_offsets@[i])),
                entries@.to_multiset() == input.take(k as int).to_multiset(),
                forall|i: int, j: int| 0 <= i < j < entries@.len() ==> entry_le(#[trigger] entries@[i], #[trigger] entries@[j]),
            decreases self.roads@.len() - k,
        {
            let road = &self.roads[k];
            let label: u32 = if road.label_offsets.len() == 0 { 0 } else { road.label_offsets[0] };
            let x: (u32, u32) = (label, net1_offsets[k]);
            assert(x == input[k as int]);
            let mut p: usize = 0;
            while p < entries.len() && entry_le_exec(entries[p], x)
                invariant
                    p <= entries@.len(),
                    forall|i: int| 0 <= i < p ==> entry_le(#[trigger] entries@[i], x),
                decreases entries@.len() - p,
            {
                p = p + 1;
            }
            let ghost before = entries@;
            proof {
                assert forall|i: int| p <= i < before.len() implies entry_le(x, #[trigger] before[i]) by {
                    assert(!entry_le(before[p as int], x));
                    if i > p {
                        assert(entry_le(before[p as int], before[i]));
                    }
                }
            }
            entries.insert(p, x);
            proof {
                assert(input.take(k + 1) =~= input.take(k as int).push(x));
                vstd::seq_lib::to_multiset_build(input.take(k as int), x);
                vstd::seq_lib::to_multiset_insert(before, p as int, x);
                assert forall|i: int, j: int| 0 <= i < j < entries@.len() implies entry_le(#[trigger] entries@[i], #[trigger] entries@[j]) by {
                    if i < p && j == p {
                    } else if i < p && j > p {
                        assert(entries@[j] == before[j - 1]);
                    } else if i == p {
                        assert(entries@[j] == before[j - 1]);
                    } else if i > p {
                        assert(entries@[i] == before[i - 1] && entries@[j] == before[j - 1]);
                    } else {
                        assert(entries@[i] == before[i] && entries@[j] == before[j]);
                    }
                }
            }
            k = k + 1;
        }
        assert(input.take(input.len() as int) =~= input);
        let mut data: Vec<u8> = Vec::new();
        let mut e: usize = 0;
        while e < entries.len()
            invariant
                e <= entries@.len(),
                data@ == net3_bytes(entries@.take(e as int)),
            decreases entries@.len() - e,
        {
            assert(entries@.take(e + 1).drop_last() =~= entries@.take(e as int));
            push_u24(&mut data, entries[e].1);
            e = e + 1;
        }
        assert(entries@.take(entries@.len() as int) =~= entries@);
        (data, Ghost(entries@))
    }

    /// Build the NET subfile: header, NET1 (the roads' records), empty NET2,
    /// NET3; records each road's NET1 offset and level-division position,
    /// and keeps a copy of the data.
    pub fn build(&mut self, now_secs: u64) -> (r: Vec<u8>)
        ensures
            final(self).roads == old(self).roads,
            final(self).net1_offsets@.len() == old(self).roads@.len(),
            forall|i: int| 0 <= i < old(self).roads@.len() ==> #[trigger] final(self).net1_offsets@[i]
                == (net1_records(old(self).roads@.take(i)).len() as u32),
            final(self).level_div_positions@.len() == old(self).roads@.len(),
            exists|order: Seq<(u32, u32)>| {
                &&& order.to_multiset() == Seq::new(old(self).roads@.len(), |i: int| (first_label(old(self).roads@[i]),
                    final(self).net1_offsets@[i])).to_multiset()
                &&& (forall|i: int, j: int| 0 <= i < j < order.len() ==> entry_le(#[trigger] order[i], #[trigger] order[j]))
                &&& r@ == net_header(now_secs, net1_records(old(self).roads@).len() as u32, net3_bytes(order).len() as u32)
                    + net1_records(old(self).roads@) + net3_bytes(order)
            },
            final(self).built_data is Some,
            final(self).built_data->0@ == r@,
    {
        let mut net1_data: Vec<u8> = Vec::new();
        let mut net1_offsets: Vec<u32> = Vec::new();
        let mut level_div_positions: Vec<usize> = Vec::new();
        let mut i: usize = 0;
        while i < self.roads.len()
            invariant
                i <= self.roads@.len(),
                net1_data@ == net1_records(self.roads@.take(i as int)),
                net1_offsets@.len() == i,
                level_div_positions@.len() == i,
                forall|t: int| 0 <= t < i ==> #[trigger] net1_offsets@[t] == (net1_records(self.roads@.take(t)).len() as u32),
            decreases self.roads@.len() - i,
        {
            let record_start = net1_data.len();
            net1_offsets.push(record_start as u32);
            let (record, level_div_off) = self.roads[i].write_net1();
            level_div_positions.push((NET_HEADER_LEN as usize).wrapping_add(record_start).wrapping_add(level_div_off));
            crate::bytes::push_bytes(&mut net1_data, record.as_slice());
            assert(self.roads@.take(i + 1).drop_last() =~= self.roads@.take(i as int));
            assert(net1_data@ =~= net1_records(self.roads@.take(i + 1)));
            i = i + 1;
        }
        assert(self.roads@.take(self.roads@.len() as int) =~= self.roads@);
        let (net3_data, Ghost(order)) = self.build_net3(&net1_offsets);
        self.net1_offsets = net1_offsets;
        self.level_div_positions = level_div_positions;
        let mut buf: Vec<u8> = Vec::new();
        let common = CommonHeader::new(NET_HEADER_LEN, "GARMIN NET");
        common.write(&mut buf, now_secs);
        let net1_offset: u32 = NET_HEADER_LEN as u32;
        let net1_size: u32 = net1_data.len() as u32;
        write_section(&mut buf, net1_offset, net1_size);
        buf.push(0x00);
        let net2_offset: u32 = net1_offset.wrapping_add(net1_size);
        write_section(&mut buf, net2_offset, 0);
        buf.push(0x00);
        write_section(&mut buf, net2_offset, net3_data.len() as u32);
        buf.push(0x03);
        push_u32(&mut buf, 0);
        buf.push(0x00);
        push_u16(&mut buf, 1);
        let ghost h0 = buf@;
        pad_to(&mut buf, NET_HEADER_LEN as usize);
        assert(h0.len() == 55);
        assert(buf@ =~= net_header(now_secs, net1_size, net3_data@.len() as u32));
        crate::bytes::push_bytes(&mut buf, net1_data.as_slice());
        crate::bytes::push_bytes(&mut buf, net3_data.as_slice());
        let copy = buf.clone();
        assert(copy@ =~= buf@);
        self.built_data = Some(copy);
        buf
    }
}

} // verus!
