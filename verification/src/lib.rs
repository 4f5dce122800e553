//! Core of a 2D particle-collision simulator: a deterministic
//! linear-congruential generator, an epoch-stamped uniform spatial grid for
//! the broad collision phase, and the entity bookkeeping of the world.
//!
//! Positions, velocities and radii travel through this crate as raw IEEE-754
//! bit patterns (`u32`); the host layer that owns the floating-point
//! arithmetic converts at the boundary.

pub mod grid;
pub mod rng;
pub mod sim;
pub mod world;
