//! Dropping features smaller than the resolution's unit.
use vstd::prelude::*;
use crate::img::coord::Coord;
use crate::img::area::{seq_min_lat, seq_max_lat, seq_min_lon, seq_max_lon};

verus! {

/// The larger side of the bounding box of `pts`.
pub open spec fn max_dim(pts: Seq<Coord>) -> int {
    let dlat = seq_max_lat(pts) - seq_min_lat(pts);
    let dlon = seq_max_lon(pts) - seq_min_lon(pts);
    if dlat >= dlon { dlat } else { dlon }
}

/// Whether the feature's bounding box reaches `size << shift` on its
/// larger side; always true without points or at shift 0.
pub fn passes_size_filter(pts: &[Coord], shift: u32, size: u32) -> (r: bool)
    requires
        shift < 63,
    ensures
        r == (pts@.len() == 0 || shift == 0 || max_dim(pts@) >= size as int * vstd::arithmetic::power2::pow2(shift as nat)),
{
    if pts.len() == 0 || shift == 0 {
        return true;
    }
    let p: u64 = 1u64 << shift;
    proof {
        vstd::arithmetic::power2::lemma2_to64_rest();
        if shift < 63 {
            vstd::arithmetic::power2::lemma_pow2_strictly_increases(shift as nat, 63);
        }
        vstd::bits::lemma_u64_shl_is_mul(1u64, shift as u64);
    }
    assert(p < 0x8000_0000_0000_0000u64);
    assert((size as i128) * (p as i128) <= 0x1_0000_0000i128 * 0x8000_0000_0000_0000i128) by (nonlinear_arith)
        requires size < 0x1_0000_0000i128, p < 0x8000_0000_0000_0000i128;
    let threshold: i128 = (size as i128) * (p as i128);
    let mut min_lat = i32::MAX;
    let mut max_lat = i32::MIN;
    let mut min_lon = i32::MAX;
    let mut max_lon = i32::MIN;
    let mut i: usize = 0;
    while i < pts.len()
        invariant
            i <= pts@.len(),
            min_lat == seq_min_lat(pts@.take(i as int)),
            max_lat == seq_max_lat(pts@.take(i as int)),
            min_lon == seq_min_lon(pts@.take(i as int)),
            max_lon == seq_max_lon(pts@.take(i as int)),
        decreases pts@.len() - i,
    {
        let c = pts[i];
        assert(pts@.take(i + 1).drop_last() =~= pts@.take(i as int));
        if c.latitude < min_lat { min_lat = c.latitude; }
        if c.latitude > max_lat { max_lat = c.latitude; }
        if c.longitude < min_lon { min_lon = c.longitude; }
        if c.longitude > max_lon { max_lon = c.longitude; }
        i = i + 1;
    }
    assert(pts@.take(pts@.len() as int) =~= pts@);
    let dim_lat: i64 = (max_lat as i64) - (min_lat as i64);
    let dim_lon: i64 = (max_lon as i64) - (min_lon as i64);
    let d: i64 = if dim_lat >= dim_lon { dim_lat } else { dim_lon };
    (d as i128) >= threshold
}

} // verus!
