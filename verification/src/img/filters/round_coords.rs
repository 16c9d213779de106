//! Rounding coordinates to the unit of a resolution.
use vstd::prelude::*;
use crate::img::coord::Coord;

verus! {

/// `v` rounded to the nearest multiple of `2^shift` (half up), in 32-bit
/// two's-complement arithmetic.
pub open spec fn round_to(v: i32, shift: u32) -> i32 {
    vstd::wrapping::i32_specs::wrapping_add(v, (1u32 << (shift - 1) as u32) as i32) & !(((1u32 << shift) - 1) as i32)
}

/// The rounded points, consecutive equal ones collapsed.
pub open spec fn spec_round_coords(pts: Seq<Coord>, shift: u32) -> Seq<Coord>
    decreases pts.len(),
{
    if pts.len() == 0 {
        Seq::empty()
    } else {
        let r = spec_round_coords(pts.drop_last(), shift);
        let p = pts.last();
        let x = Coord { latitude: round_to(p.latitude, shift), longitude: round_to(p.longitude, shift), lat_delta: 0, lon_delta: 0 };
        if r.len() > 0 && r.last() == x { r } else { r.push(x) }
    }
}

/// Round each point to the unit `2^shift` and drop a point equal to the one
/// before it; shift 0 leaves the points as they are.
pub fn round_coords(pts: &[Coord], shift: u32) -> (r: Vec<Coord>)
    requires
        shift < 31,
    ensures
        shift == 0 ==> r@ == pts@,
        shift > 0 ==> r@ == spec_round_coords(pts@, shift),
{
    if shift == 0 || pts.len() == 0 {
        let mut out: Vec<Coord> = Vec::new();
        let mut i: usize = 0;
        while i < pts.len()
            invariant
                i <= pts@.len(),
                out@ == pts@.take(i as int),
            decreases pts@.len() - i,
        {
            out.push(pts[i]);
            assert(out@ =~= pts@.take(i + 1));
            i = i + 1;
        }
        assert(pts@.take(pts@.len() as int) =~= pts@);
        assert(pts@.len() == 0 ==> spec_round_coords(pts@, shift) =~= Seq::<Coord>::empty());
        return out;
    }
    let s1: u32 = shift - 1;
    assert((1u32 << s1) <= 0x2000_0000u32 && (1u32 << shift) >= 2u32 && (1u32 << shift) <= 0x4000_0000u32) by (bit_vector)
        requires 0 < shift < 31, s1 == shift - 1;
    let half: i32 = (1u32 << s1) as i32;
    let mask: i32 = !(((1u32 << shift) - 1) as i32);
    let mut out: Vec<Coord> = Vec::new();
    let mut i: usize = 0;
    while i < pts.len()
        invariant
            0 < shift < 31,
            s1 == shift - 1,
            half == (1u32 << s1) as i32,
            mask == !(((1u32 << shift) - 1) as i32),
            i <= pts@.len(),
            out@ == spec_round_coords(pts@.take(i as int), shift),
        decreases pts@.len() - i,
    {
        let p = pts[i];
        let rp = Coord::new(p.latitude.wrapping_add(half) & mask, p.longitude.wrapping_add(half) & mask);
        assert(pts@.take(i + 1).drop_last() =~= pts@.take(i as int));
        let dup = out.len() > 0 && out[out.len() - 1] == rp;
        if !dup {
            out.push(rp);
        }
        i = i + 1;
    }
    assert(pts@.take(pts@.len() as int) =~= pts@);
    out
}

} // verus!
