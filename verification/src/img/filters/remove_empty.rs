//! Dropping degenerate features.
use vstd::prelude::*;
use crate::img::coord::Coord;

verus! {

/// A polyline needs at least 2 points, a shape at least 4.
pub fn passes_remove_empty(pts: &[Coord], is_shape: bool) -> (r: bool)
    ensures
        r == if is_shape { pts@.len() > 3 } else { pts@.len() > 1 },
{
    if is_shape { pts.len() > 3 } else { pts.len() > 1 }
}

} // verus!
