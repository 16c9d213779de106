//! 24-bit map-unit coordinates with a 30-bit high-precision correction.
use vstd::prelude::*;

verus! {

/// Bits of the high-precision representation.
pub const HIGH_PREC_BITS: i32 = 30;

/// Difference between high-precision and map-unit bits.
pub const DELTA_SHIFT: i32 = 6;

/// A position in 24-bit map units, with the rounding error (`*_delta`) of
/// its 30-bit high-precision value.
#[derive(Debug, Clone, Copy, PartialEq, Eq, Hash, Structural)]
pub struct Coord {
    pub latitude: i32,
    pub longitude: i32,
    pub lat_delta: i8,
    pub lon_delta: i8,
}

/// High-precision value of a map unit with its delta: `(v << 6) - delta`,
/// in 32-bit two's complement arithmetic.
pub open spec fn high_prec(v: i32, delta: i8) -> i32 {
    vstd::wrapping::i32_specs::wrapping_sub(v << 6i32, delta as i32)
}

impl Coord {
    /// A coordinate from map units, with no high-precision correction.
    pub fn new(latitude: i32, longitude: i32) -> (c: Self)
        ensures
            c == (Coord { latitude, longitude, lat_delta: 0, lon_delta: 0 }),
    {
        Coord { latitude, longitude, lat_delta: 0, lon_delta: 0 }
    }

    pub fn latitude(&self) -> (r: i32)
        ensures
            r == self.latitude,
    {
        self.latitude
    }

    pub fn longitude(&self) -> (r: i32)
        ensures
            r == self.longitude,
    {
        self.longitude
    }

    /// The 30-bit latitude: map units shifted by 6 bits, minus the delta.
    pub fn high_prec_lat(&self) -> (r: i32)
        ensures
            r == high_prec(self.latitude, self.lat_delta),
    {
        (self.latitude << 6i32).wrapping_sub(self.lat_delta as i32)
    }

    /// The 30-bit longitude: map units shifted by 6 bits, minus the delta.
    pub fn high_prec_lon(&self) -> (r: i32)
        ensures
            r == high_prec(self.longitude, self.lon_delta),
    {
        (self.longitude << 6i32).wrapping_sub(self.lon_delta as i32)
    }
}

/// For map units that fit in 25 bits the shift is exact: the high-precision
/// value is `v * 64 - delta`.
pub proof fn lemma_high_prec_exact(v: i32, delta: i8)
    requires
        -0x100_0000 <= v < 0x100_0000,
    ensures
        high_prec(v, delta) == v * 64 - delta,
{
    assert((v << 6i32) == v * 64) by (bit_vector)
        requires
            -0x100_0000 <= v < 0x100_0000,
    ;
}

} // verus!
