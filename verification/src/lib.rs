//! Core engine of an interactive image-labeling tool.
//!
//! Shapes (points, boxes, rotated boxes, polygons) are edited over a sequence
//! of images, with soft deletion, bounded undo/redo, per-image session
//! caching, and an edge-detection-based box refinement.  All coordinates are
//! fixed-point integers in thousandths of a coordinate unit, so that the
//! geometry and the persistence formats can be reasoned about exactly.

use vstd::prelude::*;

pub mod autoresize;
pub mod classes;
pub mod codec;
pub mod collection;
pub mod config;
pub mod editor;
pub mod export;
pub mod geometry;
pub mod hierarchy;
pub mod history;
pub mod labels;
pub mod model;
pub mod numfmt;
pub mod session;

verus! {

/// Fixed-point scale: coordinate values carry three decimal places.
pub const COORD_SCALE: i64 = 1000;

/// Bound on the magnitude of any stored coordinate, in fixed-point units.
/// Generous enough for any realistic image, small enough that sums and
/// squared distances stay far from overflow.
pub const COORD_LIMIT: i64 = 1_000_000_000_000;

/// A coordinate value that arithmetic in the library may rely on.
pub open spec fn coord_ok(v: i64) -> bool {
    -COORD_LIMIT <= v <= COORD_LIMIT
}

/// A value squeezed into the coordinate domain.  Gesture arithmetic (drag
/// normalization, resize, paste offsets) can step at most a factor of a few
/// outside the domain; storing its result clamps it back in.
pub open spec fn spec_clamp_coord(v: int) -> i64 {
    if v < -COORD_LIMIT {
        (-COORD_LIMIT) as i64
    } else if v > COORD_LIMIT {
        COORD_LIMIT
    } else {
        v as i64
    }
}

/// Exec form of [`spec_clamp_coord`].
pub fn clamp_coord(v: i64) -> (r: i64)
    ensures
        r == spec_clamp_coord(v as int),
        coord_ok(r),
{
    if v < -COORD_LIMIT {
        -COORD_LIMIT
    } else if v > COORD_LIMIT {
        COORD_LIMIT
    } else {
        v
    }
}

} // verus!
