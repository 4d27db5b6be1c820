//! Simulation kernel of a breakout game on integer coordinates.
//!
//! Lengths are counted in billionths of a pixel, time in microseconds and
//! direction components in thousandths, so that a displacement is the plain
//! product `direction * time * speed` with speeds given in pixels per second.

pub mod units;
pub mod geometry;
pub mod collision;
pub mod player;
pub mod block;
pub mod root;
pub mod random;
pub mod ball;
pub mod level;
pub mod rules;
pub mod accounts;
pub mod engine;
pub mod invariants;
pub mod game;
pub mod laws;
