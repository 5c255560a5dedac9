//! The player pose: a continuous position in world (pixel) units, a facing
//! angle and a field of view, all fixed-point integers scaled by
//! [`crate::FP_ONE`] (angles are radians times the scale).

use vstd::prelude::*;

verus! {

/// Bound on the magnitude of pose coordinates and angles; keeps every sum
/// and product in the movement and casting arithmetic inside `i64`.
pub const POSE_MAX: i64 = 0x2000_0000_0000;

/// The player pose. `x`, `y` are the position in world units times
/// [`crate::FP_ONE`]; `a` is the facing angle and `fov` the field of view,
/// both in radians times [`crate::FP_ONE`].
pub struct Player {
    pub x: i64,
    pub y: i64,
    pub a: i64,
    pub fov: i64,
}

impl Player {
    /// All pose components are small enough for exact arithmetic.
    pub open spec fn bounded(self) -> bool {
        &&& -POSE_MAX <= self.x <= POSE_MAX
        &&& -POSE_MAX <= self.y <= POSE_MAX
        &&& -POSE_MAX <= self.a <= POSE_MAX
        &&& -POSE_MAX <= self.fov <= POSE_MAX
    }
}

} // verus!
