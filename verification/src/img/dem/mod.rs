//! The DEM subfile: elevation tiles of at most 64 x 64 samples, each
//! compressed into an MSB-first bitstream, grouped in one section per
//! zoom level.
pub mod bits;
pub mod predict;
pub mod tile;
pub mod section;
pub mod writer;
