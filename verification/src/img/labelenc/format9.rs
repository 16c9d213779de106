//! Single-byte codepage label encoding (CP1252 by default, CP1250, CP1251).
//!
//! Each codepage keeps ASCII as is; the bytes above 0x7F map to the
//! characters of a fixed table, where `'?'` marks a byte with no character.
use vstd::prelude::*;
use crate::strings::string_push;

verus! {

broadcast use {vstd::string::axiom_spec_iter, vstd::array::group_array_axioms};

pub const CP1252_HIGH: [char; 32] = [
    '\u{20AC}', '?', '\u{201A}', '\u{0192}', '\u{201E}', '\u{2026}', '\u{2020}', '\u{2021}',
    '\u{02C6}', '\u{2030}', '\u{0160}', '\u{2039}', '\u{0152}', '?', '\u{017D}', '?',
    '?', '\u{2018}', '\u{2019}', '\u{201C}', '\u{201D}', '\u{2022}', '\u{2013}', '\u{2014}',
    '\u{02DC}', '\u{2122}', '\u{0161}', '\u{203A}', '\u{0153}', '?', '\u{017E}', '\u{0178}',
];

pub const CP1250_HIGH: [char; 128] = [
    '\u{20AC}', '?', '\u{201A}', '?', '\u{201E}', '\u{2026}', '\u{2020}', '\u{2021}',
    '?', '\u{2030}', '\u{0160}', '\u{2039}', '\u{015A}', '\u{0164}', '\u{017D}', '\u{0179}',
    '?', '\u{2018}', '\u{2019}', '\u{201C}', '\u{201D}', '\u{2022}', '\u{2013}', '\u{2014}',
    '?', '\u{2122}', '\u{0161}', '\u{203A}', '\u{015B}', '\u{0165}', '\u{017E}', '\u{017A}',
    '\u{00A0}', '\u{02C7}', '\u{02D8}', '\u{0141}', '\u{00A4}', '\u{0104}', '\u{00A6}', '\u{00A7}',
    '\u{00A8}', '\u{00A9}', '\u{015E}', '\u{00AB}', '\u{00AC}', '\u{00AD}', '\u{00AE}', '\u{017B}',
    '\u{00B0}', '\u{00B1}', '\u{02DB}', '\u{0142}', '\u{00B4}', '\u{00B5}', '\u{00B6}', '\u{00B7}',
    '\u{00B8}', '\u{0105}', '\u{015F}', '\u{00BB}', '\u{013D}', '\u{02DD}', '\u{013E}', '\u{017C}',
    '\u{0154}', '\u{00C1}', '\u{00C2}', '\u{0102}', '\u{00C4}', '\u{0139}', '\u{0106}', '\u{00C7}',
    '\u{010C}', '\u{00C9}', '\u{0118}', '\u{00CB}', '\u{011A}', '\u{00CD}', '\u{00CE}', '\u{010E}',
    '\u{0110}', '\u{0143}', '\u{0147}', '\u{00D3}', '\u{00D4}', '\u{0150}', '\u{00D6}', '\u{00D7}',
    '\u{0158}', '\u{016E}', '\u{00DA}', '\u{0170}', '\u{00DC}', '\u{00DD}', '\u{0162}', '\u{00DF}',
    '\u{0155}', '\u{00E1}', '\u{00E2}', '\u{0103}', '\u{00E4}', '\u{013A}', '\u{0107}', '\u{00E7}',
    '\u{010D}', '\u{00E9}', '\u{0119}', '\u{00EB}', '\u{011B}', '\u{00ED}', '\u{00EE}', '\u{010F}',
    '\u{0111}', '\u{0144}', '\u{0148}', '\u{00F3}', '\u{00F4}', '\u{0151}', '\u{00F6}', '\u{00F7}',
    '\u{0159}', '\u{016F}', '\u{00FA}', '\u{0171}', '\u{00FC}', '\u{00FD}', '\u{0163}', '\u{02D9}',
];

pub const CP1251_HIGH: [char; 128] = [
    '\u{0402}', '\u{0403}', '\u{201A}', '\u{0453}', '\u{201E}', '\u{2026}', '\u{2020}', '\u{2021}',
    '\u{20AC}', '\u{2030}', '\u{0409}', '\u{2039}', '\u{040A}', '\u{040C}', '\u{040B}', '\u{040F}',
    '\u{0452}', '\u{2018}', '\u{2019}', '\u{201C}', '\u{201D}', '\u{2022}', '\u{2013}', '\u{2014}',
    '?', '\u{2122}', '\u{0459}', '\u{203A}', '\u{045A}', '\u{045C}', '\u{045B}', '\u{045F}',
    '\u{00A0}', '\u{040E}', '\u{045E}', '\u{0408}', '\u{00A4}', '\u{0490}', '\u{00A6}', '\u{00A7}',
    '\u{0401}', '\u{00A9}', '\u{0404}', '\u{00AB}', '\u{00AC}', '\u{00AD}', '\u{00AE}', '\u{0407}',
    '\u{00B0}', '\u{00B1}', '\u{0406}', '\u{0456}', '\u{0491}', '\u{00B5}', '\u{00B6}', '\u{00B7}',
    '\u{0451}', '\u{2116}', '\u{0454}', '\u{00BB}', '\u{0458}', '\u{0405}', '\u{0455}', '\u{0457}',
    '\u{0410}', '\u{0411}', '\u{0412}', '\u{0413}', '\u{0414}', '\u{0415}', '\u{0416}', '\u{0417}',
    '\u{0418}', '\u{0419}', '\u{041A}', '\u{041B}', '\u{041C}', '\u{041D}', '\u{041E}', '\u{041F}',
    '\u{0420}', '\u{0421}', '\u{0422}', '\u{0423}', '\u{0424}', '\u{0425}', '\u{0426}', '\u{0427}',
    '\u{0428}', '\u{0429}', '\u{042A}', '\u{042B}', '\u{042C}', '\u{042D}', '\u{042E}', '\u{042F}',
    '\u{0430}', '\u{0431}', '\u{0432}', '\u{0433}', '\u{0434}', '\u{0435}', '\u{0436}', '\u{0437}',
    '\u{0438}', '\u{0439}', '\u{043A}', '\u{043B}', '\u{043C}', '\u{043D}', '\u{043E}', '\u{043F}',
    '\u{0440}', '\u{0441}', '\u{0442}', '\u{0443}', '\u{0444}', '\u{0445}', '\u{0446}', '\u{0447}',
    '\u{0448}', '\u{0449}', '\u{044A}', '\u{044B}', '\u{044C}', '\u{044D}', '\u{044E}', '\u{044F}',
];

pub const CP1251_ENCODABLE: [char; 64] = [
    '\u{0402}', '\u{0403}', '?', '\u{0453}', '\u{201E}', '\u{2026}', '?', '?',
    '\u{20AC}', '?', '\u{0409}', '?', '\u{040A}', '\u{040C}', '\u{040B}', '\u{040F}',
    '\u{0452}', '\u{2018}', '\u{2019}', '\u{201C}', '\u{201D}', '?', '\u{2013}', '\u{2014}',
    '?', '\u{2122}', '\u{0459}', '?', '\u{045A}', '\u{045C}', '\u{045B}', '\u{045F}',
    '\u{00A0}', '\u{040E}', '\u{045E}', '\u{0408}', '\u{00A4}', '\u{0490}', '\u{00A6}', '\u{00A7}',
    '\u{0401}', '\u{00A9}', '\u{0404}', '\u{00AB}', '\u{00AC}', '\u{00AD}', '\u{00AE}', '\u{0407}',
    '\u{00B0}', '\u{00B1}', '\u{0406}', '\u{0456}', '\u{0491}', '\u{00B5}', '\u{00B6}', '\u{00B7}',
    '\u{0451}', '\u{2116}', '\u{0454}', '\u{00BB}', '\u{0458}', '\u{0405}', '\u{0455}', '\u{0457}',
];

/// First index at or after `from` where `t` holds `c`.
pub open spec fn find_char(t: Seq<char>, c: char, from: int) -> Option<int>
    decreases t.len() - from,
{
    if from < 0 || from >= t.len() {
        None
    } else if t[from] == c {
        Some(from)
    } else {
        find_char(t, c, from + 1)
    }
}

/// The byte `0x80 + i` for the table index `i`, if found.
pub open spec fn high_byte(i: Option<int>) -> Option<u8> {
    match i {
        Some(k) => Some((0x80 + k) as u8),
        None => None,
    }
}

/// CP1252 byte of `c`: ASCII and Latin-1 (0xA0..=0xFF) map to themselves,
/// 0x80..=0x9F come from the table.
pub open spec fn unicode_to_cp1252(c: char) -> Option<u8> {
    let cp = c as u32;
    if cp <= 0x7F || (0xA0 <= cp && cp <= 0xFF) {
        Some(cp as u8)
    } else {
        high_byte(find_char(CP1252_HIGH@, c, 0))
    }
}

/// CP1250 byte of `c`: ASCII maps to itself, the rest comes from the table.
pub open spec fn unicode_to_cp1250(c: char) -> Option<u8> {
    let cp = c as u32;
    if cp <= 0x7F {
        Some(cp as u8)
    } else {
        high_byte(find_char(CP1250_HIGH@, c, 0))
    }
}

/// CP1251 byte of `c`: ASCII maps to itself, U+0410..=U+044F to
/// 0xC0..=0xFF, the rest comes from the table of encodable characters.
pub open spec fn unicode_to_cp1251(c: char) -> Option<u8> {
    let cp = c as u32;
    if cp <= 0x7F {
        Some(cp as u8)
    } else if 0x0410 <= cp && cp <= 0x044F {
        Some((cp - 0x0410 + 0xC0) as u8)
    } else {
        high_byte(find_char(CP1251_ENCODABLE@, c, 0))
    }
}

/// The byte written for `c`: its codepage byte, or `'?'` when it has none.
pub open spec fn encode_char(c: char, codepage: u16) -> u8 {
    let r = if codepage == 1250 {
        unicode_to_cp1250(c)
    } else if codepage == 1251 {
        unicode_to_cp1251(c)
    } else {
        unicode_to_cp1252(c)
    };
    match r {
        Some(b) => b,
        None => 0x3Fu8,
    }
}

/// Encoded text: one byte per character, then a null terminator.
pub open spec fn spec_encode(text: Seq<char>, codepage: u16) -> Seq<u8> {
    text.map_values(|c: char| encode_char(c, codepage)).push(0u8)
}

/// The character of a CP1252 byte.
pub open spec fn spec_cp1252_to_unicode(b: u8) -> char {
    if 0x80 <= b && b <= 0x9F { CP1252_HIGH@[b - 0x80] } else { b as char }
}

/// The character of a CP1250 byte.
pub open spec fn spec_cp1250_to_unicode(b: u8) -> char {
    if b >= 0x80 { CP1250_HIGH@[b - 0x80] } else { b as char }
}

/// The character of a CP1251 byte.
pub open spec fn spec_cp1251_to_unicode(b: u8) -> char {
    if b >= 0x80 { CP1251_HIGH@[b - 0x80] } else { b as char }
}

/// The character of byte `b` in `codepage` (CP1252 unless 1250 or 1251).
pub open spec fn decode_byte(b: u8, codepage: u16) -> char {
    if codepage == 1250 {
        spec_cp1250_to_unicode(b)
    } else if codepage == 1251 {
        spec_cp1251_to_unicode(b)
    } else {
        spec_cp1252_to_unicode(b)
    }
}

/// Index of the first zero byte of `s`, or its length.
pub open spec fn text_end(s: Seq<u8>, from: int) -> int
    decreases s.len() - from,
{
    if from < 0 || from >= s.len() {
        s.len() as int
    } else if s[from] == 0 {
        from
    } else {
        text_end(s, from + 1)
    }
}

/// Decoded text: the characters of the bytes before the first null.
pub open spec fn spec_decode(data: Seq<u8>, codepage: u16) -> Seq<char> {
    data.subrange(0, text_end(data, 0)).map_values(|b: u8| decode_byte(b, codepage))
}

/// Index of `c` in `table`, searched from the start.
fn find_in_table(table: &[char], c: char) -> (r: Option<usize>)
    ensures
        r matches Some(i) ==> i < table@.len() && find_char(table@, c, 0) == Some(i as int),
        r is None ==> find_char(table@, c, 0) is None,
{
    let mut i: usize = 0;
    while i < table.len()
        invariant
            i <= table@.len(),
            find_char(table@, c, 0) == find_char(table@, c, i as int),
        decreases table@.len() - i,
    {
        if table[i] == c {
            return Some(i);
        }
        i = i + 1;
    }
    None
}

/// Exec form of `encode_char`.
fn encode_char_exec(c: char, codepage: u16) -> (b: u8)
    ensures
        b == encode_char(c, codepage),
{
    let cp = c as u32;
    if cp <= 0x7F {
        return cp as u8;
    }
    let table: &[char] = if codepage == 1250 {
        vstd::array::array_as_slice(&CP1250_HIGH)
    } else if codepage == 1251 {
        if 0x0410 <= cp && cp <= 0x044F {
            return (cp - 0x0410 + 0xC0) as u8;
        }
        vstd::array::array_as_slice(&CP1251_ENCODABLE)
    } else {
        if 0xA0 <= cp && cp <= 0xFF {
            return cp as u8;
        }
        vstd::array::array_as_slice(&CP1252_HIGH)
    };
    let ghost r = if codepage == 1250 {
        unicode_to_cp1250(c)
    } else if codepage == 1251 {
        unicode_to_cp1251(c)
    } else {
        unicode_to_cp1252(c)
    };
    assert(r == high_byte(find_char(table@, c, 0)));
    assert(table@.len() <= 128);
    match find_in_table(table, c) {
        Some(i) => {
            (0x80 + i) as u8
        },
        None => 0x3Fu8,
    }
}

/// Encode text in a single-byte codepage, null-terminated; characters
/// without a byte become `'?'`.
pub fn encode(text: &str, codepage: u16) -> (r: Vec<u8>)
    ensures
        r@ == spec_encode(text@, codepage),
{
    let mut buf: Vec<u8> = Vec::new();
    if text.is_empty() {
        buf.push(0x00);
        assert(buf@ =~= spec_encode(text@, codepage));
        return buf;
    }
    let ghost chars = text@;
    for c in it: text.chars()
        invariant
            it.seq() == chars,
            buf@ == chars.take(it.index() as int).map_values(|c: char| encode_char(c, codepage)),
    {
        let ghost k = it.index() as int;
        buf.push(encode_char_exec(c, codepage));
        assert(chars.take(k + 1) =~= chars.take(k).push(c));
        assert(buf@ =~= chars.take(k + 1).map_values(|c: char| encode_char(c, codepage)));
    }
    assert(chars.take(chars.len() as int) =~= chars);
    buf.push(0x00);
    buf
}

/// Decode codepage bytes up to the first null (or the end).
pub fn decode(data: &[u8], codepage: u16) -> (r: String)
    ensures
        r@ == spec_decode(data@, codepage),
{
    let mut end: usize = 0;
    while end < data.len() && data[end] != 0
        invariant
            end <= data@.len(),
            text_end(data@, 0) == text_end(data@, end as int),
        decreases data@.len() - end,
    {
        end = end + 1;
    }
    let mut out = String::new();
    let mut i: usize = 0;
    while i < end
        invariant
            i <= end <= data@.len(),
            end == text_end(data@, 0),
            out@ == data@.subrange(0, i as int).map_values(|b: u8| decode_byte(b, codepage)),
        decreases end - i,
    {
        let b = data[i];
        let ch = if codepage == 1250 {
            cp1250_to_unicode(b)
        } else if codepage == 1251 {
            cp1251_to_unicode(b)
        } else {
            cp1252_to_unicode(b)
        };
        string_push(&mut out, ch);
        i = i + 1;
        assert(out@ =~= data@.subrange(0, i as int).map_values(|b: u8| decode_byte(b, codepage)));
    }
    out
}

/// Character of a CP1252 byte (`'?'` for the five undefined ones).
pub fn cp1252_to_unicode(b: u8) -> (c: char)
    ensures
        c == spec_cp1252_to_unicode(b),
{
    if 0x80 <= b && b <= 0x9F {
        CP1252_HIGH[(b - 0x80) as usize]
    } else {
        b as char
    }
}

/// Character of a CP1250 byte.
fn cp1250_to_unicode(b: u8) -> (c: char)
    ensures
        c == spec_cp1250_to_unicode(b),
{
    if b >= 0x80 { CP1250_HIGH[(b - 0x80) as usize] } else { b as char }
}

/// Character of a CP1251 byte.
fn cp1251_to_unicode(b: u8) -> (c: char)
    ensures
        c == spec_cp1251_to_unicode(b),
{
    if b >= 0x80 { CP1251_HIGH[(b - 0x80) as usize] } else { b as char }
}


/// The byte `c` has in `codepage`, if any (the codepage used by `encode_char`).
pub open spec fn codepage_byte(c: char, codepage: u16) -> Option<u8> {
    if codepage == 1250 {
        unicode_to_cp1250(c)
    } else if codepage == 1251 {
        unicode_to_cp1251(c)
    } else {
        unicode_to_cp1252(c)
    }
}

/// `find_char` finds `c` itself.
proof fn lemma_find_char(t: Seq<char>, c: char, from: int)
    requires
        0 <= from,
    ensures
        find_char(t, c, from) matches Some(i) ==> from <= i < t.len() && t[i] == c,
    decreases t.len() - from,
{
    if from < t.len() && t[from] != c {
        lemma_find_char(t, c, from + 1);
    }
}

/// Every character the CP1251 encoder finds in its table decodes back.
proof fn lemma_cp1251_tables()
    ensures
        forall|i: int| 0 <= i < 64 ==> CP1251_ENCODABLE@[i] == '?' || #[trigger] CP1251_ENCODABLE@[i] == CP1251_HIGH@[i],
        forall|k: int| 0 <= k < 64 ==> (#[trigger] CP1251_HIGH@[64 + k]) as u32 == 0x0410 + k,
{
}

/// A character with a byte in the codepage, other than NUL, decodes back
/// from that byte.
pub proof fn lemma_decode_encode_char(c: char, codepage: u16)
    requires
        c != '\0',
        codepage_byte(c, codepage) is Some,
    ensures
        encode_char(c, codepage) != 0,
        decode_byte(encode_char(c, codepage), codepage) == c,
{
    let cp = c as u32;
    lemma_cp1251_tables();
    if codepage == 1250 {
        if cp > 0x7F {
            lemma_find_char(CP1250_HIGH@, c, 0);
        }
    } else if codepage == 1251 {
        if cp > 0x7F && !(0x0410 <= cp && cp <= 0x044F) {
            lemma_find_char(CP1251_ENCODABLE@, c, 0);
            let i = find_char(CP1251_ENCODABLE@, c, 0)->0;
            assert(CP1251_ENCODABLE@[i] == CP1251_HIGH@[i]);
        } else if cp > 0x7F {
            let k = cp - 0x0410;
            assert(CP1251_HIGH@[64 + k] as u32 == cp);
        }
    } else {
        if !(cp <= 0x7F || (0xA0 <= cp && cp <= 0xFF)) {
            lemma_find_char(CP1252_HIGH@, c, 0);
        }
    }
}

/// Text whose characters all have a byte in the codepage, and hold no NUL,
/// decodes back from its encoding.
pub proof fn lemma_decode_encode(text: Seq<char>, codepage: u16)
    requires
        forall|i: int| 0 <= i < text.len() ==> #[trigger] text[i] != '\0' && codepage_byte(text[i], codepage) is Some,
    ensures
        spec_decode(spec_encode(text, codepage), codepage) == text,
{
    let e = spec_encode(text, codepage);
    assert forall|i: int| 0 <= i < text.len() implies e[i] != 0 && decode_byte(e[i], codepage) == text[i] by {
        lemma_decode_encode_char(text[i], codepage);
    }
    assert(text_end(e, 0) == text.len()) by {
        lemma_text_end(e, 0, text.len() as int);
    }
    assert(spec_decode(e, codepage) =~= text);
}

/// With no zero byte from `from` up to `end` and a zero at `end`, the text
/// ends at `end`.
proof fn lemma_text_end(s: Seq<u8>, from: int, end: int)
    requires
        0 <= from <= end < s.len(),
        s[end] == 0,
        forall|i: int| from <= i < end ==> s[i] != 0,
    ensures
        text_end(s, from) == end,
    decreases end - from,
{
    if from < end {
        lemma_text_end(s, from + 1, end);
    }
}

} // verus!
