//! The MPS subfile: product, per-map and version blocks.
use vstd::prelude::*;
use vstd::utf8::encode_utf8;
use crate::bytes::{le16, le32, push_u16, push_u32};

verus! {

/// MPS writer.
pub struct MpsWriter {
    pub entries: Vec<MpsMapEntry>,
    pub products: Vec<MpsProductEntry>,
}

/// Per-map entry (block 0x4C).
pub struct MpsMapEntry {
    pub product_id: u16,
    pub family_id: u16,
    pub map_number: u32,
    pub hex_number: String,
    pub map_description: String,
}

/// Product entry (block 0x46).
pub struct MpsProductEntry {
    pub product_id: u16,
    pub family_id: u16,
    pub family_name: String,
}

/// A block: type, 16-bit length, data.
pub open spec fn block(block_type: u8, data: Seq<u8>) -> Seq<u8> {
    seq![block_type] + le16(data.len() as u16) + data
}

/// The block of a product: ids and the null-terminated family name.
pub open spec fn product_block(p: MpsProductEntry) -> Seq<u8> {
    block(0x46, le16(p.product_id) + le16(p.family_id) + encode_utf8(p.family_name@) + seq![0u8])
}

/// The block of a map: ids, map number, the null-terminated hex number and
/// description, and two empty names.
pub open spec fn map_block(e: MpsMapEntry) -> Seq<u8> {
    block(0x4C, le16(e.product_id) + le16(e.family_id) + le32(e.map_number) + encode_utf8(e.hex_number@) + seq![0u8]
        + encode_utf8(e.map_description@) + seq![0u8] + seq![0u8, 0u8])
}

pub open spec fn product_blocks(ps: Seq<MpsProductEntry>) -> Seq<u8>
    decreases ps.len(),
{
    if ps.len() == 0 { Seq::empty() } else { product_blocks(ps.drop_last()) + product_block(ps.last()) }
}

pub open spec fn map_blocks(es: Seq<MpsMapEntry>) -> Seq<u8>
    decreases es.len(),
{
    if es.len() == 0 { Seq::empty() } else { map_blocks(es.drop_last()) + map_block(es.last()) }
}

/// The version block: the set's name, null-terminated, and version 0.
pub open spec fn version_block() -> Seq<u8> {
    block(0x56, encode_utf8("imgforge map set"@) + seq![0u8, 0u8])
}

/// Append a block.
pub fn write_block(buf: &mut Vec<u8>, block_type: u8, data: &[u8])
    ensures
        final(buf)@ == old(buf)@ + block(block_type, data@),
{
    let ghost start = buf@;
    buf.push(block_type);
    push_u16(buf, data.len() as u16);
    crate::bytes::push_bytes(buf, data);
    assert(buf@ =~= start + block(block_type, data@));
}

impl MpsWriter {
    pub fn new() -> (w: Self)
        ensures
            w.entries@.len() == 0,
            w.products@.len() == 0,
    {
        MpsWriter { entries: Vec::new(), products: Vec::new() }
    }

    pub fn add_map(&mut self, entry: MpsMapEntry)
        ensures
            final(self).entries@ == old(self).entries@.push(entry),
            final(self).products@ == old(self).products@,
    {
        self.entries.push(entry);
    }

    pub fn add_product(&mut self, entry: MpsProductEntry)
        ensures
            final(self).products@ == old(self).products@.push(entry),
            final(self).entries@ == old(self).entries@,
    {
        self.products.push(entry);
    }

    /// The MPS data: the product blocks, the map blocks, the version block.
    pub fn build(&self) -> (r: Vec<u8>)
        ensures
            r@ == product_blocks(self.products@) + map_blocks(self.entries@) + version_block(),
    {
        let mut buf: Vec<u8> = Vec::new();
        let mut i: usize = 0;
        while i < self.products.len()
            invariant
                i <= self.products@.len(),
                buf@ == product_blocks(self.products@.take(i as int)),
            decreases self.products@.len() - i,
        {
            let p = &self.products[i];
            let mut data: Vec<u8> = Vec::new();
            push_u16(&mut data, p.product_id);
            push_u16(&mut data, p.family_id);
            crate::bytes::push_bytes(&mut data, p.family_name.as_str().as_bytes());
            data.push(0x00);
            write_block(&mut buf, 0x46, data.as_slice());
            assert(self.products@.take(i + 1).drop_last() =~= self.products@.take(i as int));
            assert(data@ =~= le16(p.product_id) + le16(p.family_id) + encode_utf8(p.family_name@) + seq![0u8]);
            i = i + 1;
        }
        assert(self.products@.take(self.products@.len() as int) =~= self.products@);
        let ghost head = buf@;
        i = 0;
        while i < self.entries.len()
            invariant
                i <= self.entries@.len(),
                buf@ == head + map_blocks(self.entries@.take(i as int)),
            decreases self.entries@.len() - i,
        {
            let e = &self.entries[i];
            let mut data: Vec<u8> = Vec::new();
            push_u16(&mut data, e.product_id);
            push_u16(&mut data, e.family_id);
            push_u32(&mut data, e.map_number);
            crate::bytes::push_bytes(&mut data, e.hex_number.as_str().as_bytes());
            data.push(0x00);
            crate::bytes::push_bytes(&mut data, e.map_description.as_str().as_bytes());
            data.push(0x00);
            data.push(0x00);
            data.push(0x00);
            write_block(&mut buf, 0x4C, data.as_slice());
            assert(self.entries@.take(i + 1).drop_last() =~= self.entries@.take(i as int));
            assert(data@ =~= le16(e.product_id) + le16(e.family_id) + le32(e.map_number) + encode_utf8(e.hex_number@)
                + seq![0u8] + encode_utf8(e.map_description@) + seq![0u8] + seq![0u8, 0u8]);
            assert(buf@ =~= head + map_blocks(self.entries@.take(i + 1)));
            i = i + 1;
        }
        assert(self.entries@.take(self.entries@.len() as int) =~= self.entries@);
        let mut data: Vec<u8> = Vec::new();
        crate::bytes::push_bytes(&mut data, "imgforge map set".as_bytes());
        data.push(0x00);
        data.push(0x00);
        assert(data@ =~= encode_utf8("imgforge map set"@) + seq![0u8, 0u8]);
        write_block(&mut buf, 0x56, data.as_slice());
        buf
    }
}

} // verus!
