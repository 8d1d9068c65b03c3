//! A discrete-time 2D particle simulation on fixed-point coordinates.
//!
//! Circular bodies move under simple kinematics inside a rectangular
//! viewport, reflect off its walls, and exchange momentum in pairwise
//! elastic-style collisions.  All quantities are integers in thousandths
//! of a world unit, so every update has an exact arithmetic meaning and
//! is verified against it.

pub mod collision;
pub mod num;
pub mod particle;
mod rng;
pub mod vec2;
pub mod world;
