//! An asteroids-style arcade simulation kernel: an entity store with
//! component queries, and the per-tick systems (motion, spawning,
//! collisions, lifetimes, restart) over integer fixed-point state.
//!
//! Lengths are in thousandths of a pixel, velocities in thousandths of a
//! pixel per second, and time in milliseconds.

pub mod geometry;
pub mod world;
pub mod query;
pub mod collision;
pub mod systems;
pub mod random;
pub mod spawner;
pub mod player;
pub mod invariants;
