//! A Barnes-Hut n-body gravity simulator on exact integer coordinates.
//!
//! Positions, velocities and masses are integers in the library's own unit
//! system (the gravitational constant is 1 and `SPEED_OF_LIGHT` is the
//! reference speed), so every arithmetic step of the simulation has an exact
//! mathematical meaning and is proved free of overflow.

use vstd::prelude::*;

pub mod arith;
pub mod geometry;

verus! {

/// Reference speed of the unit system; a body's merge radius is
/// `2 * mass / SPEED_OF_LIGHT^2`, its Schwarzschild radius in these units.
pub const SPEED_OF_LIGHT: u64 = 0x1_0000;

/// Largest mass a single tree may carry, summed over all bodies.
pub const MAX_MASS: u64 = 0x2_0000_0000;

/// Largest magnitude a body's position may have on any axis.
pub const MAX_COORD: i128 = 0x0800_0000_0000_0000;

/// Largest magnitude a body's velocity may have on any axis.
pub const MAX_VEL: i128 = 0x0800_0000_0000_0000;

/// Largest time step a single call may advance the simulation by.
pub const MAX_DT: u64 = 0x10_0000;

/// Largest force component a kinematic update accepts; the force any tree
/// within `MAX_MASS` can exert stays well below it.
pub const MAX_FORCE: i128 = 0x40_0000_0000_0000_0000;

} // verus!
