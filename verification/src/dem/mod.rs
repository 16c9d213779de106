//! Elevation model settings and HGT file helpers.
use vstd::prelude::*;
use crate::text::{chars_of, ascii_lower, seq_eq_str, spec_ascii_lower};

pub mod asc;
pub mod hgt;

verus! {

#[verifier::external_type_specification]
#[verifier::external_body]
pub struct ExPathBuf(std::path::PathBuf);

/// Interpolation used when resampling elevations.
#[derive(Clone, Debug, PartialEq, Eq, Structural)]
pub enum InterpolationMethod {
    Bilinear,
    Bicubic,
    Auto,
}

impl InterpolationMethod {
    /// The method named by `s`, case-insensitively; any other name is Auto.
    pub fn from_str(s: &str) -> (r: Self)
        ensures
            r == (if spec_ascii_lower(s@) == "bilinear"@ {
                InterpolationMethod::Bilinear
            } else if spec_ascii_lower(s@) == "bicubic"@ {
                InterpolationMethod::Bicubic
            } else {
                InterpolationMethod::Auto
            }),
    {
        let lower = ascii_lower(&chars_of(s));
        if seq_eq_str(&lower, "bilinear") {
            InterpolationMethod::Bilinear
        } else if seq_eq_str(&lower, "bicubic") {
            InterpolationMethod::Bicubic
        } else {
            InterpolationMethod::Auto
        }
    }
}

/// Elevation settings.
#[derive(Clone, Debug)]
pub struct DemConfig {
    /// Elevation files or directories
    pub paths: Vec<std::path::PathBuf>,
    /// Distance between elevation points, per zoom level
    pub dists: Vec<i32>,
    pub interpolation: InterpolationMethod,
    /// Spatial reference of ASC files (e.g. "EPSG:2154")
    pub source_srs: Option<String>,
}

/// Format of an elevation file.
#[derive(Debug, PartialEq, Eq, Structural)]
pub enum DemFormat {
    Hgt,
    Asc,
    Unknown,
}

/// `b` with ASCII upper-case letters lowered.
pub open spec fn ascii_lower_byte(b: u8) -> u8 {
    if 65 <= b <= 90 { (b + 32) as u8 } else { b }
}

/// The bytes of `h` before its first line feed.
pub open spec fn first_line(h: Seq<u8>) -> Seq<u8>
    decreases h.len(),
{
    if h.len() == 0 {
        h
    } else if first_line(h.drop_last()).len() < h.len() - 1 {
        first_line(h.drop_last())
    } else if h.last() == 10 {
        h.drop_last()
    } else {
        h
    }
}

/// Whether `line` holds `ncols`, ASCII case ignored.
pub open spec fn has_ncols(line: Seq<u8>) -> bool {
    exists|i: int| 0 <= i && i + 5 <= line.len() && #[trigger] ncols_at(line, i)
}

/// Whether `ncols`, ASCII case ignored, starts at `i` in `line`.
pub open spec fn ncols_at(line: Seq<u8>, i: int) -> bool {
    &&& ascii_lower_byte(line[i]) == 110
    &&& ascii_lower_byte(line[i + 1]) == 99
    &&& ascii_lower_byte(line[i + 2]) == 111
    &&& ascii_lower_byte(line[i + 3]) == 108
    &&& ascii_lower_byte(line[i + 4]) == 115
}

/// Size in bytes of an HGT tile of 1201 or 3601 samples a side.
pub open spec fn is_hgt_size(size: u64) -> bool {
    size == 2 * 1201 * 1201 || size == 2 * 3601 * 3601
}

/// The format of an elevation file from what is known of it: its extension
/// (`hgt` or `asc`, case ignored), else a size that only an HGT tile has,
/// else a first line naming `ncols`, else unknown.
pub open spec fn spec_detect_format(ext: Option<Seq<char>>, size: Option<u64>, head: Option<Seq<u8>>) -> DemFormat {
    if ext is Some && spec_ascii_lower(ext->0) == "hgt"@ {
        DemFormat::Hgt
    } else if ext is Some && spec_ascii_lower(ext->0) == "asc"@ {
        DemFormat::Asc
    } else if size is Some && is_hgt_size(size->0) {
        DemFormat::Hgt
    } else if head is Some && has_ncols(first_line(head->0)) {
        DemFormat::Asc
    } else {
        DemFormat::Unknown
    }
}

/// Length of the first line of `h`.
fn first_line_len(h: &[u8]) -> (r: usize)
    ensures
        r <= h@.len(),
        first_line(h@) == h@.take(r as int),
{
    let mut i: usize = 0;
    while i < h.len() && h[i] != 10
        invariant
            i <= h@.len(),
            first_line(h@.take(i as int)) == h@.take(i as int),
            forall|k: int| 0 <= k < i ==> h@[k] != 10,
        decreases h@.len() - i,
    {
        assert(h@.take(i + 1).drop_last() =~= h@.take(i as int));
        i = i + 1;
    }
    proof {
        lemma_first_line_stops(h@, i as int);
    }
    i
}

/// A line feed at `i`, none before it: the first line ends there.
proof fn lemma_first_line_stops(h: Seq<u8>, i: int)
    requires
        0 <= i <= h.len(),
        first_line(h.take(i)) == h.take(i),
        i < h.len() ==> h[i] == 10,
    ensures
        first_line(h) == h.take(i),
    decreases h.len(),
{
    if h.len() == i {
        assert(h.take(i) =~= h);
    } else {
        lemma_first_line_stops_from(h, i, h.len() as int);
        assert(h.take(h.len() as int) =~= h);
    }
}

/// Past the first line feed, the first line does not grow.
proof fn lemma_first_line_stops_from(h: Seq<u8>, i: int, j: int)
    requires
        0 <= i < j <= h.len(),
        h[i] == 10,
        first_line(h.take(i)) == h.take(i),
    ensures
        first_line(h.take(j)) == h.take(i),
    decreases j - i,
{
    if j == i + 1 {
        assert(h.take(j).drop_last() =~= h.take(i));
        assert(h.take(j).last() == 10);
        assert(h.take(j).drop_last() =~= h.take(i));
    } else {
        lemma_first_line_stops_from(h, i, j - 1);
        assert(h.take(j).drop_last() =~= h.take(j - 1));
    }
}

/// Whether `ncols` (ASCII case ignored) occurs in the first `len` bytes of `h`.
fn find_ncols(h: &[u8], len: usize) -> (r: bool)
    requires
        len <= h@.len(),
    ensures
        r == has_ncols(h@.take(len as int)),
{
    let ghost line = h@.take(len as int);
    if len < 5 {
        return false;
    }
    let mut i: usize = 0;
    while i < len - 4
        invariant
            len <= h@.len(),
            5 <= len,
            line == h@.take(len as int),
            i <= len - 4,
            forall|k: int| 0 <= k < i ==> !ncols_at(line, k),
        decreases len - i,
    {
        let a = lower_byte(h[i]);
        let b = lower_byte(h[i + 1]);
        let c = lower_byte(h[i + 2]);
        let d = lower_byte(h[i + 3]);
        let e = lower_byte(h[i + 4]);
        if a == 110 && b == 99 && c == 111 && d == 108 && e == 115 {
            assert(ncols_at(line, i as int));
            return true;
        }
        i = i + 1;
    }
    false
}

/// `ascii_lower_byte`.
fn lower_byte(b: u8) -> (r: u8)
    ensures
        r == ascii_lower_byte(b),
{
    if 65 <= b && b <= 90 { b + 32 } else { b }
}

/// The format of an elevation file from its extension, its size and its
/// first bytes, whichever are known (see `spec_detect_format`).
pub fn detect_format_from(ext: Option<&str>, size: Option<u64>, head: Option<&[u8]>) -> (r: DemFormat)
    ensures
        r == spec_detect_format(
            match ext { Some(e) => Some(e@), None => None },
            size,
            match head { Some(h) => Some(h@), None => None },
        ),
{
    match ext {
        Some(e) => {
            let lower = ascii_lower(&chars_of(e));
            if seq_eq_str(&lower, "hgt") {
                return DemFormat::Hgt;
            }
            if seq_eq_str(&lower, "asc") {
                return DemFormat::Asc;
            }
        },
        None => {},
    }
    match size {
        Some(n) => {
            if n == 2 * 1201 * 1201 || n == 2 * 3601 * 3601 {
                return DemFormat::Hgt;
            }
        },
        None => {},
    }
    match head {
        Some(h) => {
            let len = first_line_len(h);
            if find_ncols(h, len) {
                return DemFormat::Asc;
            }
        },
        None => {},
    }
    DemFormat::Unknown
}

} // verus!
