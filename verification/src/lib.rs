//! A 2D particle-physics sandbox core: circular bodies advanced by Verlet
//! integration, kept inside a bounded arena, and separated by iterative
//! position-based collision resolution with a uniform broad-phase grid.
//!
//! All coordinates are fixed-point: an `i64` counts units of one millionth of
//! a world unit, so the arena square `[-1.0, 1.0]` spans `[-UNIT, UNIT]`.

pub mod bench;
pub mod chunks;
pub mod collisions;
pub mod fixed;
pub mod generator;
pub mod grid;
pub mod object;
pub mod vec2;
pub mod world;

pub use fixed::UNIT;
