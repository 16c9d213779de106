//! The LBL subfile: the label blob and its header.
use vstd::prelude::*;
use crate::bytes::{le16, le32, push_u16, push_u32};
use crate::img::common_header::{CommonHeader, header_bytes, write_section};
use crate::img::labelenc::LabelEncoding;
use crate::img::labelenc::format9::spec_encode;
use crate::text::chars_of;

verus! {

pub const LBL_HEADER_LEN: u16 = 196;

/// The bytes of a label in an encoding (Format 9 codepage text or Format 10
/// UTF-8, null-terminated).
pub open spec fn encode_label_spec(enc: LabelEncoding, text: Seq<char>) -> Seq<u8> {
    match enc {
        LabelEncoding::Format9(cp) => spec_encode(text, cp),
        LabelEncoding::Format10 => vstd::utf8::encode_utf8(text).push(0u8),
        LabelEncoding::Format6 => Seq::empty(),
    }
}

/// The codepage written in the header for an encoding.
pub open spec fn codepage_of(enc: LabelEncoding) -> u16 {
    match enc {
        LabelEncoding::Format6 => 0,
        LabelEncoding::Format9(cp) => cp,
        LabelEncoding::Format10 => 65001,
    }
}

/// LBL subfile writer.
pub struct LblWriter {
    encoding: LabelEncoding,
    labels: Vec<u8>,
    /// Each label added so far, with its offset
    label_cache: Vec<(Vec<char>, u32)>,
    codepage: u16,
    sort_id1: u16,
    sort_id2: u16,
}

impl LblWriter {
    pub closed spec fn spec_encoding(&self) -> LabelEncoding { self.encoding }
    /// The label blob.
    pub closed spec fn spec_labels(&self) -> Seq<u8> { self.labels@ }
    /// The labels added so far, each with its offset.
    pub closed spec fn spec_cache(&self) -> Seq<(Seq<char>, u32)> {
        self.label_cache@.map_values(|e: (Vec<char>, u32)| (e.0@, e.1))
    }
    pub closed spec fn spec_codepage(&self) -> u16 { self.codepage }
    pub closed spec fn spec_sort_ids(&self) -> (u16, u16) { (self.sort_id1, self.sort_id2) }

    /// The blob starts with the reserved empty label, and each cached label
    /// is stored, encoded, at its offset; no text is cached twice.
    pub closed spec fn wf(&self) -> bool {
        &&& self.labels@.len() >= 1
        &&& self.labels@[0] == 0
        &&& self.codepage == codepage_of(self.encoding)
        &&& forall|i: int| #![trigger self.label_cache@[i]] 0 <= i < self.label_cache@.len() ==> {
            let (t, off) = (self.label_cache@[i].0@, self.label_cache@[i].1);
            &&& off + encode_label_spec(self.encoding, t).len() <= self.labels@.len()
            &&& self.labels@.subrange(off as int, off + encode_label_spec(self.encoding, t).len()) == encode_label_spec(self.encoding, t)
        }
        &&& forall|i: int, j: int| 0 <= i < j < self.label_cache@.len() ==> #[trigger] self.label_cache@[i].0@ != #[trigger] self.label_cache@[j].0@
    }

    /// A writer with the reserved empty label only.
    pub fn new(encoding: LabelEncoding) -> (w: Self)
        ensures
            w.wf(),
            w.spec_encoding() == encoding,
            w.spec_labels() == seq![0u8],
            w.spec_cache().len() == 0,
            w.spec_codepage() == codepage_of(encoding),
            w.spec_sort_ids() == (0u16, 0u16),
    {
        let codepage: u16 = match encoding {
            LabelEncoding::Format6 => 0,
            LabelEncoding::Format9(cp) => cp,
            LabelEncoding::Format10 => 65001,
        };
        let w = LblWriter {
            encoding,
            labels: vec![0u8],
            label_cache: Vec::new(),
            codepage,
            sort_id1: 0,
            sort_id2: 0,
        };
        assert(w.labels@ =~= seq![0u8]);
        w
    }

    pub fn set_sort_ids(&mut self, id1: u16, id2: u16)
        ensures
            final(self).spec_sort_ids() == (id1, id2),
            final(self).spec_labels() == old(self).spec_labels(),
            final(self).spec_cache() == old(self).spec_cache(),
            final(self).spec_encoding() == old(self).spec_encoding(),
            final(self).spec_codepage() == old(self).spec_codepage(),
            old(self).wf() ==> final(self).wf(),
    {
        self.sort_id1 = id1;
        self.sort_id2 = id2;
    }

    /// Add a label and return its offset in the blob: 0 for the empty text,
    /// the earlier offset for a text already added, otherwise the end of the
    /// blob, where the encoded text is appended.
    pub fn add_label(&mut self, text: &str) -> (r: u32)
        requires
            old(self).wf(),
            !(old(self).spec_encoding() is Format6),
            old(self).spec_labels().len() + encode_label_spec(old(self).spec_encoding(), text@).len() <= u32::MAX,
        ensures
            final(self).wf(),
            final(self).spec_encoding() == old(self).spec_encoding(),
            final(self).spec_codepage() == old(self).spec_codepage(),
            final(self).spec_sort_ids() == old(self).spec_sort_ids(),
            text@.len() == 0 ==> r == 0 && final(self).spec_labels() == old(self).spec_labels()
                && final(self).spec_cache() == old(self).spec_cache(),
            text@.len() > 0 && (exists|i: int| 0 <= i < old(self).spec_cache().len() && #[trigger] old(self).spec_cache()[i].0 == text@)
                ==> final(self).spec_labels() == old(self).spec_labels() && final(self).spec_cache() == old(self).spec_cache()
                && (exists|i: int| 0 <= i < old(self).spec_cache().len() && #[trigger] old(self).spec_cache()[i] == (text@, r)),
            text@.len() > 0 && !(exists|i: int| 0 <= i < old(self).spec_cache().len() && #[trigger] old(self).spec_cache()[i].0 == text@)
                ==> r == old(self).spec_labels().len() as u32
                && final(self).spec_labels() == old(self).spec_labels() + encode_label_spec(old(self).spec_encoding(), text@)
                && final(self).spec_cache() == old(self).spec_cache().push((text@, r)),
    {
        let chars = chars_of(text);
        if chars.len() == 0 {
            return 0;
        }
        let ghost cache = self.spec_cache();
        let mut i: usize = 0;
        while i < self.label_cache.len()
            invariant
                *self == *old(self),
                self.wf(),
                chars@ == text@,
                text@.len() > 0,
                i <= self.label_cache@.len(),
                cache == self.label_cache@.map_values(|e: (Vec<char>, u32)| (e.0@, e.1)),
                forall|k: int| 0 <= k < i ==> #[trigger] cache[k].0 != text@,
            decreases self.label_cache@.len() - i,
        {
            assert(cache[i as int] == (self.label_cache@[i as int].0@, self.label_cache@[i as int].1));
            if chars_eq(&self.label_cache[i].0, &chars) {
                let off = self.label_cache[i].1;
                assert(cache[i as int] == (text@, off));
                assert(cache == old(self).spec_cache());
                assert(old(self).spec_cache()[i as int].0 == text@);
                return off;
            }
            i = i + 1;
        }
        let offset = self.labels.len() as u32;
        let encoded = self.encode_label(text);
        let ghost old_labels = self.labels@;
        crate::bytes::push_bytes(&mut self.labels, encoded.as_slice());
        let ghost prev_cache = self.label_cache@;
        self.label_cache.push((chars, offset));
        proof {
            assert(self.spec_cache() =~= cache.push((text@, offset)));
            assert forall|k: int| #![trigger self.label_cache@[k]] 0 <= k < self.label_cache@.len() implies {
                let (t, off) = (self.label_cache@[k].0@, self.label_cache@[k].1);
                &&& off + encode_label_spec(self.encoding, t).len() <= self.labels@.len()
                &&& self.labels@.subrange(off as int, off + encode_label_spec(self.encoding, t).len()) == encode_label_spec(self.encoding, t)
            } by {
                if k < prev_cache.len() {
                    let (t, off) = (prev_cache[k].0@, prev_cache[k].1);
                    assert(self.labels@.subrange(off as int, off + encode_label_spec(self.encoding, t).len())
                        =~= old_labels.subrange(off as int, off + encode_label_spec(self.encoding, t).len()));
                } else {
                    assert(offset == old_labels.len());
                    assert(self.labels@.subrange(offset as int, offset + encoded@.len()) =~= encoded@);
                }
            }
            assert forall|a: int, b: int| 0 <= a < b < self.label_cache@.len() implies #[trigger] self.label_cache@[a].0@ != #[trigger] self.label_cache@[b].0@ by {
                if b == prev_cache.len() {
                    assert(cache[a] == (prev_cache[a].0@, prev_cache[a].1));
                    assert(self.label_cache@[a] == prev_cache[a]);
                    assert(cache[a].0 != text@);
                } else {
                    assert(prev_cache[a].0@ != prev_cache[b].0@);
                }
            }
        }
        offset
    }

    /// Spec-exact form of the null-terminated label encoding.
    fn encode_label(&self, text: &str) -> (r: Vec<u8>)
        requires
            !(self.encoding is Format6),
        ensures
            r@ == encode_label_spec(self.encoding, text@),
    {
        match self.encoding {
            LabelEncoding::Format9(cp) => crate::img::labelenc::format9::encode(text, cp),
            LabelEncoding::Format10 => crate::img::labelenc::format10::encode(text),
            LabelEncoding::Format6 => Vec::new(),
        }
    }

    /// Size of the label blob.
    pub fn label_data_size(&self) -> (r: usize)
        ensures
            r == self.spec_labels().len(),
    {
        self.labels.len()
    }

    /// The LBL header (196 bytes) then the label blob. Every places section
    /// is empty and points to the end of the labels.
    pub fn build(&self, now_secs: u64) -> (r: Vec<u8>)
        ensures
            r@ == lbl_header(now_secs, self.spec_labels().len() as u32, format_id_of(self.spec_encoding()),
                self.spec_codepage(), self.spec_sort_ids().0, self.spec_sort_ids().1) + self.spec_labels(),
    {
        let mut buf: Vec<u8> = Vec::new();
        let common = CommonHeader::new(LBL_HEADER_LEN, "GARMIN LBL");
        common.write(&mut buf, now_secs);
        let label_data_offset: u32 = LBL_HEADER_LEN as u32;
        let label_data_size: u32 = self.labels.len() as u32;
        let label_end: u32 = label_data_offset.wrapping_add(label_data_size);
        write_section(&mut buf, label_data_offset, label_data_size);
        buf.push(0x00);
        buf.push(self.encoding.format_id());
        write_places(&mut buf, label_end);
        push_u16(&mut buf, self.codepage);
        push_u16(&mut buf, self.sort_id1);
        push_u16(&mut buf, self.sort_id2);
        push_u32(&mut buf, LBL_HEADER_LEN as u32);
        push_u32(&mut buf, 0);
        push_u32(&mut buf, label_end);
        push_u32(&mut buf, 0);
        push_u16(&mut buf, 0);
        push_u16(&mut buf, 0);
        let ghost h = buf@;
        crate::bytes::push_bytes(&mut buf, self.labels.as_slice());
        assert(buf@ =~= h + self.labels@);
        buf
    }
}

/// The header's format number of an encoding.
pub open spec fn format_id_of(enc: LabelEncoding) -> u8 {
    match enc {
        LabelEncoding::Format6 => 6u8,
        LabelEncoding::Format9(_) => 9u8,
        LabelEncoding::Format10 => 10u8,
    }
}

/// Whether two character vectors are equal.
fn chars_eq(a: &Vec<char>, b: &Vec<char>) -> (r: bool)
    ensures
        r == (a@ == b@),
{
    if a.len() != b.len() {
        return false;
    }
    let mut i: usize = 0;
    while i < a.len()
        invariant
            i <= a@.len(),
            a@.len() == b@.len(),
            forall|k: int| 0 <= k < i ==> a@[k] == b@[k],
        decreases a@.len() - i,
    {
        if a[i] != b[i] {
            return false;
        }
        i = i + 1;
    }
    assert(a@ =~= b@);
    true
}

/// The places header: all sections empty, pointing at `end`.
pub open spec fn places_bytes(end: u32) -> Seq<u8> {
    empty_section(end, 3) + empty_section(end, 5) + empty_section(end, 5) + empty_section(end, 4)
        + le32(end) + le32(0) + seq![0u8, 0u8] + le16(0) + seq![0u8]
        + empty_section(end, 4) + empty_section(end, 3) + empty_section(end, 6) + empty_section(end, 5)
        + empty_section(end, 3)
}

pub(crate) fn write_places(buf: &mut Vec<u8>, end: u32)
    ensures
        final(buf)@ == old(buf)@ + places_bytes(end),
{
    let ghost start = buf@;
    write_empty_section(buf, end, 3);
    write_empty_section(buf, end, 5);
    write_empty_section(buf, end, 5);
    write_empty_section(buf, end, 4);
    push_u32(buf, end);
    push_u32(buf, 0);
    buf.push(0x00);
    buf.push(0x00);
    push_u16(buf, 0);
    buf.push(0x00);
    write_empty_section(buf, end, 4);
    write_empty_section(buf, end, 3);
    write_empty_section(buf, end, 6);
    write_empty_section(buf, end, 5);
    write_empty_section(buf, end, 3);
    assert(buf@ =~= start + places_bytes(end));
}

/// An empty places section: offset, zero size, record size, reserved.
pub open spec fn empty_section(label_end: u32, rec_size: u16) -> Seq<u8> {
    le32(label_end) + le32(0) + le16(rec_size) + le32(0)
}

/// The 196-byte LBL header for a label blob of `size` bytes.
pub open spec fn lbl_header(secs: u64, size: u32, format: u8, codepage: u16, id1: u16, id2: u16) -> Seq<u8> {
    let end = vstd::wrapping::u32_specs::wrapping_add(LBL_HEADER_LEN as u32, size);
    header_bytes(LBL_HEADER_LEN, "GARMIN LBL"@, secs) + le32(LBL_HEADER_LEN as u32) + le32(size) + seq![0u8, format]
        + places_bytes(end) + le16(codepage) + le16(id1) + le16(id2) + le32(LBL_HEADER_LEN as u32) + le32(0)
        + le32(end) + le32(0) + le16(0) + le16(0)
}

/// Append an empty places section pointing at `label_end`.
fn write_empty_section(buf: &mut Vec<u8>, label_end: u32, rec_size: u16)
    ensures
        final(buf)@ == old(buf)@ + empty_section(label_end, rec_size),
{
    let ghost start = buf@;
    push_u32(buf, label_end);
    push_u32(buf, 0);
    push_u16(buf, rec_size);
    push_u32(buf, 0);
    assert(buf@ =~= start + empty_section(label_end, rec_size));
}

} // verus!
