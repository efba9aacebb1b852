//! A multigrid solver for interactively edited 2D vector fields.
//!
//! The library computes a staggered-grid vector field satisfying
//! user-injected divergence ("charge") and curl ("magnet") targets by
//! red-black relaxation over a pyramid of grid resolutions, and advects
//! a population of particles through the solved field with deterministic
//! stochastic rounding.
//!
//! All quantities are fixed-point numbers: an `i64` holding the value
//! scaled by `2^16`, saturated to a large magnitude bound so that every
//! arithmetic step is defined.

#![verifier::loop_isolation(false)]

pub mod fixed;
pub mod grid;
pub mod particles;
pub mod pyramid;
pub mod rng;
pub mod sim;
pub mod solver;
pub mod vcycle;
pub mod view;
