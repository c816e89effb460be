//! Simulation core of an arcade shooter: a sweeping swarm of enemy units,
//! projectiles, particle bursts, and the per-frame collision cascade.
//!
//! All lengths are fixed-point integers in millionths of a world unit, and
//! frame deltas are integers in thousandths of a nominal frame.
pub mod game;
pub mod bullets;
pub mod explosion;
pub mod alien_army;
pub mod world;
pub mod input;
mod chance;
