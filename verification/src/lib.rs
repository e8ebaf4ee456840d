//! A discrete-time gravitational n-body simulator over integer coordinates.
//!
//! The simulation advances a population of point-mass bodies under mutual
//! gravitational attraction, detects bodies that physically overlap, groups
//! transitively-overlapping bodies into clusters, and collapses each cluster
//! into a single resultant body.  All coordinates are integers: positions and
//! velocities are clamped to a fixed range, and every division truncates
//! toward zero, so each tick is an exactly specified function of the state.

use vstd::prelude::*;

pub mod body;
pub mod conn;
pub mod group;
pub mod math;
pub mod merge;
pub mod props;
pub mod sim;

verus! {

/// Positions are clamped to `[-POS_LIMIT, POS_LIMIT]` on each axis.
pub const POS_LIMIT: i64 = 1099511627776;

/// Velocities are clamped to `[-VEL_LIMIT, VEL_LIMIT]` on each axis.
pub const VEL_LIMIT: i64 = 1099511627776;

/// The total mass of the population never exceeds this cap; spawning
/// demands it.  Together with every mass being at least 1, it also bounds
/// the number of bodies.
pub const MASS_CAP: u64 = 1099511627776;

/// A body's radius is `isqrt(mass) * SIZE_MULT`; the radius is used only
/// for overlap testing and rendering.
pub const SIZE_MULT: u64 = 3;

/// The gravitational constant of the force law.
pub const GRAV: u64 = 1;

} // verus!
