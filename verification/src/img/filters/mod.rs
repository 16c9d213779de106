//! Geometry filters applied to polylines and polygons before splitting.
pub mod round_coords;
pub mod remove_obsolete_points;
pub mod remove_empty;
pub mod size;

pub use round_coords::round_coords;
pub use remove_obsolete_points::remove_obsolete_points;
pub use remove_empty::passes_remove_empty;
pub use size::passes_size_filter;
