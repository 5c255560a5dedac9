//! A first-person grid-world renderer: a 2-D tile maze projected into a
//! pseudo-3-D view by ray casting, plus a top-down view and a minimap, all
//! drawn into a raw pixel buffer.
//!
//! Continuous world coordinates and angles are fixed-point integers scaled by
//! [`FP_ONE`]; callers supply ray directions as fixed-point unit vectors, so
//! that every computation here is exact integer arithmetic.

use vstd::prelude::*;

pub mod caster;
pub mod framebuffer;
pub mod maze;
pub mod menu;
pub mod player;
pub mod player_controller;
pub mod renderer;

verus! {

/// Fixed-point scale: one world unit.
pub const FP_ONE: i64 = 65536;

} // verus!
