//! Geometry and constrained-motion engine for planar puzzle pieces.
//!
//! Pieces (rectangles, triangles, regular polygons, circles, trapezoids,
//! parallelograms and free polygons with rounded corners) are posed inside
//! a bounded board. The crate generates their closed outlines, validates a
//! layout for overlaps and containment with a tolerance band, and computes
//! how far a dragged piece may actually move toward a requested delta
//! without penetrating other pieces or the board boundary.
//!
//! Coordinates are integers in micrometers (1000 units = 1 mm), so every
//! geometric predicate is decided exactly. Rotations are integers in
//! millidegrees, evaluated through the crate's own fixed-point
//! trigonometry; adding a full turn provably leaves an outline unchanged.
use vstd::prelude::*;

verus! {

/// Scale of fixed-point unit values (cosines, sines, unit vectors, fractions).
pub const FIX_ONE: i64 = 1_000_000;

/// Largest coordinate magnitude (in micrometers) the geometry accepts.
pub const COORD_LIMIT: i64 = 1_000_000_000;

/// Truncating division of a wide product by `FIX_ONE`, as Rust's `/` would
/// round toward zero.
pub open spec fn spec_div_fix(v: int) -> int {
    if v >= 0 {
        v / (FIX_ONE as int)
    } else {
        -((-v) / (FIX_ONE as int))
    }
}

/// Divide a wide fixed-point product by `FIX_ONE`, rounding toward zero.
pub fn div_fix(v: i128) -> (r: i128)
    requires
        -0x7fffffffffffffffffffffffffff <= v <= 0x7fffffffffffffffffffffffffff,
    ensures
        r == spec_div_fix(v as int),
{
    if v >= 0 {
        v / (FIX_ONE as i128)
    } else {
        -((-v) / (FIX_ONE as i128))
    }
}

} // verus!

pub mod fixed;
pub mod geom;
pub mod shape;
pub mod board;
pub mod collide;
pub mod validate;
pub mod motion;
pub mod labels;
pub mod query;
pub mod png_out;
pub mod puzzle;
