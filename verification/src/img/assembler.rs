//! The multi-tile container: what is packed per tile, the metadata of the
//! map set, and the identifier of its overview map.
use vstd::prelude::*;
use crate::bytes::{u24_of, u32_of};
use crate::img::common_header::{read_tre_bounds, sign_extend24};
use crate::img::tdb::TdbTile;
use crate::strings::{decimal, push_decimal, push_text, string_push};
use crate::text::{chars_of, parse_uint, seq_eq_str, spec_parse_uint};
use crate::routing::{trim, trim_exec};
use crate::error::ImgError;
use vstd::utf8::{valid_utf8, decode_utf8};

verus! {

/// How a tile's subfiles are packed in the container: one file per
/// subfile, or one consolidated `.GMP` file per tile.
#[derive(Debug, Clone, Copy, PartialEq, Eq, Structural)]
pub enum Packaging {
    Legacy,
    Gmp,
}

impl Default for Packaging {
    fn default() -> (p: Self)
        ensures
            p == Packaging::Legacy,
    {
        Packaging::Legacy
    }
}

/// The subfiles of one tile.
pub struct TileSubfiles {
    pub map_number: String,
    pub description: String,
    pub tre: Vec<u8>,
    pub rgn: Vec<u8>,
    pub lbl: Vec<u8>,
    pub net: Option<Vec<u8>>,
    pub nod: Option<Vec<u8>>,
    pub dem: Option<Vec<u8>>,
}

/// Metadata of the map set.
pub struct GmapsuppMeta {
    pub family_id: u16,
    pub product_id: u16,
    pub family_name: String,
    pub area_name: String,
    pub codepage: u16,
    /// Stem of the TYP file name; the family id in 8 digits when absent.
    pub typ_basename: Option<String>,
    pub packaging: Packaging,
}

impl Default for GmapsuppMeta {
    fn default() -> (m: Self)
        ensures
            m.family_id == 1,
            m.product_id == 1,
            m.family_name@ == "Map"@,
            m.area_name@ == Seq::<char>::empty(),
            m.codepage == 0,
            m.typ_basename is None,
            m.packaging == Packaging::Legacy,
    {
        GmapsuppMeta {
            family_id: 1,
            product_id: 1,
            family_name: "Map".to_string(),
            area_name: String::new(),
            codepage: 0,
            typ_basename: None,
            packaging: Packaging::Legacy,
        }
    }
}

/// The map number of the overview map of family `family_id`: the family
/// times 10000 plus 1855, capped at 8 decimal digits.
pub fn compute_overview_map_id(family_id: u16) -> (r: u32)
    ensures
        r == if family_id * 10000 + 1855 > 99999999 { 99999999 } else { family_id * 10000 + 1855 },
{
    let base = (family_id as u32) * 10000;
    let id = base + 1855;
    if id > 99999999 { 99999999 } else { id }
}


/// The decimal form of `n`, left-padded with zeros to 8 characters.
pub open spec fn padded8(n: nat) -> Seq<char> {
    let d = decimal(n);
    if d.len() < 8 { Seq::new((8 - d.len()) as nat, |i: int| '0') + d } else { d }
}

/// The name of subfile `ext` of map `map` inside an IMG: `I`, the map
/// number on 8 digits, a dot and the extension.
pub open spec fn img_subfile_name(map: u32, ext: Seq<char>) -> Seq<char> {
    seq!['I'] + padded8(map as nat) + seq!['.'] + ext
}

/// The entry of an optional subfile, present only with the subfile.
pub open spec fn optional_entry(map: u32, ext: Seq<char>, data: Option<Vec<u8>>) -> Seq<(Seq<char>, u32)> {
    match data {
        Some(d) => seq![(img_subfile_name(map, ext), d@.len() as u32)],
        None => Seq::empty(),
    }
}

/// The subfiles a tile lists in the TDB: TRE, RGN, LBL, then NET, NOD and
/// DEM where present, each with its size.
pub open spec fn tile_entries(t: TileSubfiles, map: u32) -> Seq<(Seq<char>, u32)> {
    seq![
        (img_subfile_name(map, "TRE"@), t.tre@.len() as u32),
        (img_subfile_name(map, "RGN"@), t.rgn@.len() as u32),
        (img_subfile_name(map, "LBL"@), t.lbl@.len() as u32),
    ] + optional_entry(map, "NET"@, t.net) + optional_entry(map, "NOD"@, t.nod)
        + optional_entry(map, "DEM"@, t.dem)
}

/// The map number a tile's name reads as, 0 when it is not a number.
pub open spec fn tile_map_number(t: TileSubfiles) -> u32 {
    match spec_parse_uint(t.map_number@, u32::MAX as int) {
        Some(v) => v as u32,
        None => 0,
    }
}

/// Number of decimal digits of `n`.
fn decimal_len(n: u32) -> (r: usize)
    ensures
        r == decimal(n as nat).len(),
        r <= n as int + 1,
    decreases n,
{
    if n < 10 { 1 } else { 1 + decimal_len(n / 10) }
}

/// Append `n` in decimal, left-padded with zeros to 8 characters.
fn push_padded8(s: &mut String, n: u32)
    ensures
        final(s)@ == old(s)@ + padded8(n as nat),
{
    let len = decimal_len(n);
    let ghost start = s@;
    let mut k: usize = len;
    while k < 8
        invariant
            len <= k <= if len < 8 { 8 } else { len },
            len == decimal(n as nat).len(),
            s@ == start + Seq::new((k - len) as nat, |i: int| '0'),
        decreases 8 - k,
    {
        string_push(s, '0');
        assert(s@ =~= start + Seq::new((k + 1 - len) as nat, |i: int| '0'));
        k = k + 1;
    }
    push_decimal(s, n);
    if len >= 8 {
        assert(Seq::new((k - len) as nat, |i: int| '0') =~= Seq::<char>::empty());
    }
    assert(s@ =~= start + padded8(n as nat));
}

/// The name of subfile `ext` of map `map`.
fn subfile_name(map: u32, ext: &str) -> (r: String)
    ensures
        r@ == img_subfile_name(map, ext@),
{
    let mut s = String::new();
    string_push(&mut s, 'I');
    push_padded8(&mut s, map);
    string_push(&mut s, '.');
    push_text(&mut s, ext);
    assert(s@ =~= img_subfile_name(map, ext@));
    s
}

/// The TDB record of a tile: its map number (0 when its name is not a
/// number), the overview map as parent, its name as description, the
/// bounds stored in its TRE header, and its subfiles with their sizes.
pub fn tdb_tile(tile: &TileSubfiles, parent_map_number: u32) -> (r: TdbTile)
    requires
        tile.tre@.len() >= 33,
    ensures
        r.map_number == tile_map_number(*tile),
        r.parent_map_number == parent_map_number,
        r.description@ == tile.map_number@,
        r.north as int == sign_extend24(u24_of(tile.tre@[21], tile.tre@[22], tile.tre@[23])),
        r.east as int == sign_extend24(u24_of(tile.tre@[24], tile.tre@[25], tile.tre@[26])),
        r.south as int == sign_extend24(u24_of(tile.tre@[27], tile.tre@[28], tile.tre@[29])),
        r.west as int == sign_extend24(u24_of(tile.tre@[30], tile.tre@[31], tile.tre@[32])),
        r.subfiles@.len() == tile_entries(*tile, r.map_number).len(),
        forall|i: int| 0 <= i < r.subfiles@.len() ==> (#[trigger] r.subfiles@[i]).0@ == tile_entries(*tile, r.map_number)[i].0
            && r.subfiles@[i].1 == tile_entries(*tile, r.map_number)[i].1,
{
    let map_num: u32 = match parse_uint(&chars_of(tile.map_number.as_str()), u32::MAX) {
        Some(v) => v,
        None => 0,
    };
    let (north, east, south, west) = read_tre_bounds(tile.tre.as_slice());
    let ghost entries = tile_entries(*tile, map_num);
    let mut subfiles: Vec<(String, u32)> = Vec::new();
    subfiles.push((subfile_name(map_num, "TRE"), tile.tre.len() as u32));
    subfiles.push((subfile_name(map_num, "RGN"), tile.rgn.len() as u32));
    subfiles.push((subfile_name(map_num, "LBL"), tile.lbl.len() as u32));
    let ghost base = seq![entries[0], entries[1], entries[2]];
    assert(subfiles@.len() == 3);
    match &tile.net {
        Some(net) => subfiles.push((subfile_name(map_num, "NET"), net.len() as u32)),
        None => {},
    }
    let ghost n1 = subfiles@.len();
    match &tile.nod {
        Some(nod) => subfiles.push((subfile_name(map_num, "NOD"), nod.len() as u32)),
        None => {},
    }
    let ghost n2 = subfiles@.len();
    match &tile.dem {
        Some(dem) => subfiles.push((subfile_name(map_num, "DEM"), dem.len() as u32)),
        None => {},
    }
    proof {
        let a = optional_entry(map_num, "NET"@, tile.net);
        let b = optional_entry(map_num, "NOD"@, tile.nod);
        let c = optional_entry(map_num, "DEM"@, tile.dem);
        assert(entries =~= seq![entries[0], entries[1], entries[2]] + a + b + c);
        assert(subfiles@.len() == entries.len());
        assert forall|i: int| 0 <= i < subfiles@.len() implies (#[trigger] subfiles@[i]).0@ == entries[i].0
            && subfiles@[i].1 == entries[i].1 by {
            if i >= 3 {
                if i < n1 {
                    assert(entries[i] == a[i - 3]);
                } else if i < n2 {
                    assert(entries[i] == b[i - n1]);
                } else {
                    assert(entries[i] == c[i - n2]);
                }
            }
        }
    }
    TdbTile {
        map_number: map_num,
        parent_map_number,
        description: tile.map_number.clone(),
        north,
        south,
        east,
        west,
        subfiles,
    }
}


/// The little-endian `u16` at `i`.
pub open spec fn u16_at(s: Seq<u8>, i: int) -> u16 {
    (s[i] as u16) | ((s[i + 1] as u16) << 8u16)
}

/// The little-endian `u32` at `i`.
pub open spec fn u32_at(s: Seq<u8>, i: int) -> u32 {
    u32_of(s[i], s[i + 1], s[i + 2], s[i + 3])
}

/// Size of a directory entry of an IMG.
pub const DIR_ENTRY_SIZE: usize = 512;

/// Offset of the directory in an IMG.
pub const DIR_START: usize = 1024;

/// Number of block slots in a directory entry.
pub const DIR_BLOCK_SLOTS: usize = 240;

/// The bytes of the file whose directory entry starts at `e`, read from
/// slot `slot` on after `acc`: each block, until the `0xFFFF` end mark or
/// the last slot, adds its bytes that lie in the image, up to `size` bytes in all.
pub open spec fn gather_blocks(img: Seq<u8>, e: int, bs: int, size: int, slot: int, acc: Seq<u8>) -> Seq<u8>
    decreases 240 - slot,
{
    if slot < 0 || slot >= 240 {
        acc
    } else {
        let blk = u16_at(img, e + 0x20 + 2 * slot);
        if blk == 0xFFFF {
            acc
        } else {
            let ds = blk as int * bs;
            if ds < img.len() {
                let de = if ds + bs < img.len() { ds + bs } else { img.len() as int };
                let ce = if de - ds < size - acc.len() { acc.len() + (de - ds) } else { size };
                gather_blocks(img, e, bs, size, slot + 1, acc + img.subrange(ds, ds + (ce - acc.len())))
            } else {
                gather_blocks(img, e, bs, size, slot + 1, acc)
            }
        }
    }
}

/// A name field of a directory entry: its UTF-8 text trimmed, or nothing
/// when it is not UTF-8.
pub open spec fn field_text(b: Seq<u8>) -> Seq<char> {
    if valid_utf8(b) { trim(decode_utf8(b)) } else { Seq::empty() }
}

/// Whether every character is a space or a zero.
pub open spec fn blank_or_zeros(t: Seq<char>) -> bool {
    forall|i: int| 0 <= i < t.len() ==> t[i] == ' ' || t[i] == '0'
}

/// The subfile kind an extension names: 0 TRE, 1 RGN, 2 LBL, 3 NET, 4 NOD.
pub open spec fn subfile_kind(ext: Seq<char>) -> Option<int> {
    if ext == "TRE"@ {
        Some(0)
    } else if ext == "RGN"@ {
        Some(1)
    } else if ext == "LBL"@ {
        Some(2)
    } else if ext == "NET"@ {
        Some(3)
    } else if ext == "NOD"@ {
        Some(4)
    } else {
        None
    }
}

/// The subfile a directory entry at `e` gives, if any: a used first part
/// (flag 1, part 0), not the header entry, with a name, and a known extension.
pub open spec fn entry_subfile(img: Seq<u8>, e: int, bs: int) -> Option<(int, Seq<u8>)> {
    let name = field_text(img.subrange(e + 1, e + 9));
    let ext = field_text(img.subrange(e + 9, e + 12));
    if img[e] != 1 || u16_at(img, e + 0x11) != 0 || img[e + 0x10] == 3 || name.len() == 0
        || (blank_or_zeros(name) && ext.len() == 0) {
        None
    } else {
        match subfile_kind(ext) {
            Some(k) => Some((k, gather_blocks(img, e, bs, u32_at(img, e + 0x0C) as int, 0, Seq::empty()))),
            None => None,
        }
    }
}

/// TRE, RGN, LBL, NET and NOD as found in a directory.
pub type DirFiles = (Seq<u8>, Seq<u8>, Seq<u8>, Option<Seq<u8>>, Option<Seq<u8>>);

/// The subfiles the first `n` directory entries give, a later entry of a
/// kind replacing an earlier one.
pub open spec fn scan_dir(img: Seq<u8>, bs: int, n: int) -> DirFiles
    decreases n,
{
    if n <= 0 {
        (Seq::empty(), Seq::empty(), Seq::empty(), None, None)
    } else {
        let f = scan_dir(img, bs, n - 1);
        match entry_subfile(img, DIR_START + DIR_ENTRY_SIZE * (n - 1), bs) {
            Some((k, d)) => if k == 0 {
                (d, f.1, f.2, f.3, f.4)
            } else if k == 1 {
                (f.0, d, f.2, f.3, f.4)
            } else if k == 2 {
                (f.0, f.1, d, f.3, f.4)
            } else if k == 3 {
                (f.0, f.1, f.2, Some(d), f.4)
            } else {
                (f.0, f.1, f.2, f.3, Some(d))
            },
            None => f,
        }
    }
}

/// Block size of an IMG: 2 to the sum of the exponents at 0x61 and 0x62.
pub open spec fn img_block_size(img: Seq<u8>) -> int {
    vstd::arithmetic::power2::pow2((img[0x61] + img[0x62]) as nat) as int
}

/// The subfiles of a single-tile IMG, with its directory entries from
/// offset 1024 on.
pub open spec fn img_dir_files(img: Seq<u8>) -> DirFiles {
    scan_dir(img, img_block_size(img), (img.len() - DIR_START) / (DIR_ENTRY_SIZE as int))
}

/// The message of bad block-size exponents.
pub open spec fn bad_exponents_text(e1: u8, e2: u8) -> Seq<char> {
    "Invalid block size exponents: "@ + decimal(e1 as nat) + " + "@ + decimal(e2 as nat) + " > 24"@
}

/// `std::str::from_utf8`: the text of `bytes` when they are well-formed
/// UTF-8, else none; it claims no more than that.
#[verifier::external_body]
fn utf8_text(bytes: &[u8]) -> (r: Option<&str>)
    ensures
        match r {
            Some(t) => valid_utf8(bytes@) && t@ == decode_utf8(bytes@),
            None => !valid_utf8(bytes@),
        },
{
    std::str::from_utf8(bytes).ok()
}

/// The bytes `s[start..end]`.
fn copy_range(s: &[u8], start: usize, end: usize) -> (r: Vec<u8>)
    requires
        start <= end <= s@.len(),
    ensures
        r@ == s@.subrange(start as int, end as int),
{
    let mut out: Vec<u8> = Vec::new();
    let mut i = start;
    while i < end
        invariant
            start <= i <= end <= s@.len(),
            out@ == s@.subrange(start as int, i as int),
        decreases end - i,
    {
        out.push(s[i]);
        i = i + 1;
        assert(out@ =~= s@.subrange(start as int, i as int));
    }
    out
}

/// `field_text` of `img[start..end]`.
fn field_text_exec(img: &[u8], start: usize, end: usize) -> (r: Vec<char>)
    requires
        start <= end <= img@.len(),
    ensures
        r@ == field_text(img@.subrange(start as int, end as int)),
{
    let b = copy_range(img, start, end);
    match utf8_text(b.as_slice()) {
        Some(t) => trim_exec(&chars_of(t)),
        None => Vec::new(),
    }
}

/// The little-endian `u16` at `i`.
fn read_u16_at(s: &[u8], i: usize) -> (r: u16)
    requires
        i + 2 <= s@.len(),
    ensures
        r == u16_at(s@, i as int),
{
    (s[i] as u16) | ((s[i + 1] as u16) << 8u16)
}

/// The little-endian `u32` at `i`.
fn read_u32_at(s: &[u8], i: usize) -> (r: u32)
    requires
        i + 4 <= s@.len(),
    ensures
        r == u32_at(s@, i as int),
{
    (s[i] as u32) | ((s[i + 1] as u32) << 8u32) | ((s[i + 2] as u32) << 16u32) | ((s[i + 3] as u32) << 24u32)
}

/// The bytes of the file whose directory entry starts at `e`.
fn gather_exec(img: &[u8], e: usize, bs: u32, size: usize) -> (r: Vec<u8>)
    requires
        e + 512 <= img@.len(),
        1 <= bs <= 0x100_0000,
    ensures
        r@ == gather_blocks(img@, e as int, bs as int, size as int, 0, Seq::empty()),
{
    let mut acc: Vec<u8> = Vec::new();
    let mut slot: usize = 0;
    let len = img.len();
    while slot < DIR_BLOCK_SLOTS
        invariant
            len == img@.len(),
            e + 512 <= img@.len(),
            1 <= bs <= 0x100_0000,
            slot <= 240,
            acc@.len() <= size,
            gather_blocks(img@, e as int, bs as int, size as int, 0, Seq::empty())
                == gather_blocks(img@, e as int, bs as int, size as int, slot as int, acc@),
        decreases 240 - slot,
    {
        let blk = read_u16_at(img, e + 0x20 + 2 * slot);
        if blk == 0xFFFF {
            slot = DIR_BLOCK_SLOTS;
        } else {
            assert(blk as u64 * bs as u64 <= 0xFFFF * 0x100_0000) by (nonlinear_arith)
                requires
                    blk <= 0xFFFF,
                    bs <= 0x100_0000;
            let ds = blk as u64 * bs as u64;
            if ds < img.len() as u64 {
                let ds = ds as usize;
                let de = if (ds as u64) + (bs as u64) < img.len() as u64 { ds + bs as usize } else { img.len() };
                let ce = if de - ds < size - acc.len() { acc.len() + (de - ds) } else { size };
                let take = ce - acc.len();
                let chunk = copy_range(img, ds, ds + take);
                let ghost before = acc@;
                let mut k: usize = 0;
                while k < chunk.len()
                    invariant
                        k <= chunk@.len(),
                        acc@ == before + chunk@.take(k as int),
                    decreases chunk@.len() - k,
                {
                    acc.push(chunk[k]);
                    assert(acc@ =~= before + chunk@.take(k + 1));
                    k = k + 1;
                }
                assert(chunk@.take(chunk@.len() as int) =~= chunk@);
            }
            slot = slot + 1;
        }
    }
    acc
}

/// The subfiles of a single-tile IMG, read from its directory: TRE, RGN
/// and LBL are required, NET and NOD kept where present. The map number
/// names the tile; it has no description and no DEM.
pub fn extract_subfiles(img_data: &[u8], map_number: &str) -> (r: Result<TileSubfiles, ImgError>)
    ensures
        img_data@.len() < 2048 ==> (r matches Err(ImgError::InvalidFormat(m))
            && m@ == "IMG too small to contain directory"@),
        img_data@.len() >= 2048 && img_data@[0x61] + img_data@[0x62] > 24 ==> (r matches Err(ImgError::InvalidFormat(m))
            && m@ == bad_exponents_text(img_data@[0x61], img_data@[0x62])),
        img_data@.len() >= 2048 && img_data@[0x61] + img_data@[0x62] <= 24 ==> ({
            let f = img_dir_files(img_data@);
            if f.0.len() == 0 || f.1.len() == 0 || f.2.len() == 0 {
                r matches Err(ImgError::InvalidFormat(m))
                    && m@ == "Missing required subfiles (TRE/RGN/LBL) in tile "@ + map_number@
            } else {
                r matches Ok(t) && t.map_number@ == map_number@ && t.description@.len() == 0
                    && t.tre@ == f.0 && t.rgn@ == f.1 && t.lbl@ == f.2
                    && (match t.net { Some(v) => f.3 == Some(v@), None => f.3 is None })
                    && (match t.nod { Some(v) => f.4 == Some(v@), None => f.4 is None })
                    && t.dem is None
            }
        }),
{
    if img_data.len() < 2048 {
        return Err(ImgError::InvalidFormat("IMG too small to contain directory".to_string()));
    }
    let e1 = img_data[0x61];
    let e2 = img_data[0x62];
    if e1 as u32 + e2 as u32 > 24 {
        let mut m = String::new();
        push_text(&mut m, "Invalid block size exponents: ");
        push_decimal(&mut m, e1 as u32);
        push_text(&mut m, " + ");
        push_decimal(&mut m, e2 as u32);
        push_text(&mut m, " > 24");
        assert(m@ =~= bad_exponents_text(e1, e2));
        return Err(ImgError::InvalidFormat(m));
    }
    let exp = e1 as u32 + e2 as u32;
    let bs: u32 = 1u32 << exp;
    proof {
        vstd::bits::lemma_u32_pow2_no_overflow(exp as nat);
        vstd::bits::lemma_u32_shl_is_mul(1u32, exp);
        vstd::arithmetic::power2::lemma_pow2_adds(exp as nat, (24 - exp) as nat);
        vstd::arithmetic::power2::lemma2_to64();
        vstd::arithmetic::power2::lemma_pow2_pos((24 - exp) as nat);
        assert(vstd::arithmetic::power2::pow2(exp as nat) <= 0x100_0000) by (nonlinear_arith)
            requires
                vstd::arithmetic::power2::pow2(exp as nat) * vstd::arithmetic::power2::pow2((24 - exp) as nat) == 0x100_0000,
                vstd::arithmetic::power2::pow2((24 - exp) as nat) > 0;
    }
    let ghost img = img_data@;
    let mut tre: Vec<u8> = Vec::new();
    let mut rgn: Vec<u8> = Vec::new();
    let mut lbl: Vec<u8> = Vec::new();
    let mut net: Option<Vec<u8>> = None;
    let mut nod: Option<Vec<u8>> = None;
    let mut pos: usize = DIR_START;
    let ghost mut n: int = 0;
    let len = img_data.len();
    while pos <= len - DIR_ENTRY_SIZE
        invariant
            len == img.len(),
            img == img_data@,
            img.len() >= 2048,
            1 <= bs <= 0x100_0000,
            bs as int == img_block_size(img),
            pos == DIR_START + DIR_ENTRY_SIZE * n,
            0 <= n,
            pos <= img.len(),
            ({
                let f = scan_dir(img, bs as int, n);
                &&& tre@ == f.0
                &&& rgn@ == f.1
                &&& lbl@ == f.2
                &&& (match net { Some(v) => f.3 == Some(v@), None => f.3 is None })
                &&& (match nod { Some(v) => f.4 == Some(v@), None => f.4 is None })
            }),
        decreases img.len() - pos,
    {
        let e = pos;
        let name = field_text_exec(img_data, e + 1, e + 9);
        let ext = field_text_exec(img_data, e + 9, e + 12);
        let part = read_u16_at(img_data, e + 0x11);
        let mut all_blank = true;
        let mut i: usize = 0;
        while i < name.len()
            invariant
                i <= name@.len(),
                all_blank == forall|j: int| 0 <= j < i ==> name@[j] == ' ' || name@[j] == '0',
            decreases name@.len() - i,
        {
            if !(name[i] == ' ' || name[i] == '0') {
                all_blank = false;
            }
            i = i + 1;
        }
        let skip = img_data[e] != 1 || part != 0 || img_data[e + 0x10] == 3 || name.len() == 0
            || (all_blank && ext.len() == 0);
        let ghost f_prev = scan_dir(img, bs as int, n);
        let ghost found = entry_subfile(img, e as int, bs as int);
        assert(found == entry_subfile(img, DIR_START + DIR_ENTRY_SIZE * (n + 1 - 1), bs as int));
        if !skip {
            let kind: u8 = if seq_eq_str(&ext, "TRE") {
                0
            } else if seq_eq_str(&ext, "RGN") {
                1
            } else if seq_eq_str(&ext, "LBL") {
                2
            } else if seq_eq_str(&ext, "NET") {
                3
            } else if seq_eq_str(&ext, "NOD") {
                4
            } else {
                5
            };
            if kind < 5 {
                let size = read_u32_at(img_data, e + 0x0C) as usize;
                let data = gather_exec(img_data, e, bs, size);
                if kind == 0 {
                    tre = data;
                } else if kind == 1 {
                    rgn = data;
                } else if kind == 2 {
                    lbl = data;
                } else if kind == 3 {
                    net = Some(data);
                } else {
                    nod = Some(data);
                }
            }
        }
        pos = pos + DIR_ENTRY_SIZE;
        proof {
            n = n + 1;
        }
    }
    assert(n == (img.len() - DIR_START) / (DIR_ENTRY_SIZE as int));
    if tre.len() == 0 || rgn.len() == 0 || lbl.len() == 0 {
        let mut m = String::new();
        push_text(&mut m, "Missing required subfiles (TRE/RGN/LBL) in tile ");
        push_text(&mut m, map_number);
        return Err(ImgError::InvalidFormat(m));
    }
    Ok(TileSubfiles {
        map_number: map_number.to_string(),
        description: String::new(),
        tre,
        rgn,
        lbl,
        net,
        nod,
        dem: None,
    })
}

} // verus!
