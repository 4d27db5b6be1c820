//! Units of measure and the fixed dimensions of the game.

use vstd::prelude::*;

verus! {

/// A direction component of magnitude one.
pub const UNIT: i64 = 1_000;

/// One pixel, in length units.
pub const PIXEL: i64 = 1_000_000_000;

/// Largest frame time that one update accepts: one second.
pub const MAX_DT: i64 = 1_000_000;

/// Largest width or height of the field: a million pixels.
pub const MAX_FIELD: i64 = 1_000_000_000_000_000;

/// Largest magnitude of a coordinate or extent of a rectangle.
pub const MAX_COORD: i64 = 1_000_000_000_000_000_000;

/// Width of the paddle: 150 pixels.
pub const PLAYER_WIDTH: i64 = 150_000_000_000;

/// Height of the paddle: 40 pixels.
pub const PLAYER_HEIGHT: i64 = 40_000_000_000;

/// Speed of the paddle, in pixels per second.
pub const PLAYER_SPEED: i64 = 700;

/// Distance of the paddle's top edge from the bottom of the field: 100 pixels.
pub const PLAYER_RAISE: i64 = 100_000_000_000;

/// Width of a block: 100 pixels.
pub const BLOCK_WIDTH: i64 = 100_000_000_000;

/// Height of a block: 40 pixels.
pub const BLOCK_HEIGHT: i64 = 40_000_000_000;

/// Edge of a ball: 50 pixels.
pub const BALL_SIZE: i64 = 50_000_000_000;

/// Speed of a ball whose direction has magnitude one, in pixels per second.
pub const BALL_SPEED: i64 = 400;

} // verus!
