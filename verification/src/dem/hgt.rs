//! SRTM HGT files: grid size from the file size, and big-endian samples.
use vstd::prelude::*;

verus! {

/// Value of a void cell.
pub const UNDEF: i16 = -32768;

/// Why a file size is not that of an HGT grid.
#[derive(Debug, Clone, Copy, PartialEq, Eq, Structural)]
pub enum HgtSizeError {
    /// Empty, or an odd number of bytes
    Invalid(usize),
    /// The samples do not form a square
    NotSquare(usize),
}

/// The big-endian signed value of two bytes.
pub open spec fn be_i16(b0: u8, b1: u8) -> i16 {
    (((b0 as u16) << 8u16) | (b1 as u16)) as i16
}

/// `byteorder::BigEndian::read_i16`: the first two bytes as a big-endian
/// signed value.
#[verifier::external_body]
fn read_be_i16(buf: &[u8]) -> (r: i16)
    requires
        buf@.len() >= 2,
    ensures
        r == be_i16(buf@[0], buf@[1]),
{
    <byteorder::BigEndian as byteorder::ByteOrder>::read_i16(buf)
}

/// The grid resolution of an HGT file of `file_size` bytes: the side of
/// its square of 16-bit samples, minus one.
pub fn detect_resolution(file_size: usize) -> (r: Result<u32, HgtSizeError>)
    ensures
        (file_size == 0 || file_size % 2 != 0) ==> r == Err::<u32, HgtSizeError>(HgtSizeError::Invalid(file_size)),
        (file_size > 0 && file_size % 2 == 0) ==> match r {
            Ok(res) => (res + 1) * (res + 1) == file_size / 2,
            Err(e) => e == HgtSizeError::NotSquare(file_size)
                && forall|s: int| 0 <= s ==> #[trigger] (s * s) != file_size / 2,
        },
{
    if file_size == 0 || file_size % 2 != 0 {
        return Err(HgtSizeError::Invalid(file_size));
    }
    let n: u64 = (file_size / 2) as u64;
    let mut lo: u64 = 0;
    let mut hi: u64 = 0x1_0000_0000;
    assert(hi * hi > n) by (nonlinear_arith) requires hi == 0x1_0000_0000u64, n < 0x1_0000_0000_0000_0000;
    while hi - lo > 1
        invariant
            lo < hi <= 0x1_0000_0000,
            lo * lo <= n,
            hi * hi > n,
        decreases hi - lo,
    {
        let mid = lo + (hi - lo) / 2;
        assert(mid * mid <= 0x1_0000_0000u64 * 0x1_0000_0000u64) by (nonlinear_arith)
            requires mid <= 0x1_0000_0000u64;
        if (mid as u128) * (mid as u128) <= n as u128 {
            lo = mid;
        } else {
            hi = mid;
        }
    }
    assert(hi == lo + 1);
    if lo * lo != n || lo == 0 {
        proof {
            assert forall|s: int| 0 <= s implies #[trigger] (s * s) != file_size / 2 by {
                if s <= lo {
                    if s < lo {
                        assert(s * s < lo * lo) by (nonlinear_arith) requires 0 <= s < lo;
                    }
                } else {
                    assert(s * s >= hi * hi) by (nonlinear_arith) requires s >= hi, hi >= 0;
                }
            }
        }
        return Err(HgtSizeError::NotSquare(file_size));
    }
    assert(lo <= 0xFFFF_FFFF) by (nonlinear_arith) requires lo * lo <= n, n < 0x1_0000_0000_0000_0000u128, lo < hi <= 0x1_0000_0000;
    Ok((lo - 1) as u32)
}

/// The elevation of cell `(row, col)` of an HGT grid of `side` x `side`
/// big-endian samples (row 0 northernmost); `None` outside the grid, past
/// the data, or for a void cell.
pub fn hgt_elevation(data: &[u8], side: u32, row: u32, col: u32) -> (r: Option<i16>)
    ensures
        (row >= side || col >= side || (row as int * side + col) * 2 + 2 > data@.len()) ==> r is None,
        !(row >= side || col >= side || (row as int * side + col) * 2 + 2 > data@.len()) ==> {
            let o = (row as int * side + col) * 2;
            let v = be_i16(data@[o], data@[o + 1]);
            r == if v == UNDEF { None } else { Some(v) }
        },
{
    if row >= side || col >= side {
        return None;
    }
    assert(row as u128 * side as u128 <= 0xFFFF_FFFE_0000_0001u128) by (nonlinear_arith)
        requires row <= 0xFFFF_FFFFu128, side <= 0xFFFF_FFFFu128;
    let offset: u128 = (row as u128 * side as u128 + col as u128) * 2;
    if offset > data.len() as u128 || data.len() as u128 - offset < 2 {
        return None;
    }
    let o = offset as usize;
    let (_, tail) = data.split_at(o);
    let val = read_be_i16(tail);
    if val == UNDEF { None } else { Some(val) }
}

} // verus!
