//! Fixed parameters of the simulation.
//!
//! Positions are stored in hundredths of a world unit ("centi-units"), so the
//! per-tick speed of 0.13 units and the clamp bound of 2499.5 units are exact
//! integers and every tick is reproducible bit for bit on every peer.

use vstd::prelude::*;

verus! {

/// Bit of the input mask: move up (+Y).
pub const INPUT_UP: u8 = 1;

/// Bit of the input mask: move down (-Y).
pub const INPUT_DOWN: u8 = 2;

/// Bit of the input mask: move left (-X).
pub const INPUT_LEFT: u8 = 4;

/// Bit of the input mask: move right (+X).
pub const INPUT_RIGHT: u8 = 8;

/// Bit of the input mask: place a bomb.
pub const INPUT_FIRE: u8 = 16;

/// Most participants a session can hold; handles are dense in
/// `[0, MAX_PLAYERS)`.
pub const MAX_PLAYERS: usize = 2;

/// Number of slots in a bomb bag; the capacity never changes.
pub const BAG_CAPACITY: usize = 9;

/// Fuse duration seeded into a newly armed bomb: 4 seconds at 60 ticks per
/// second.
pub const FUSE_TICKS: u32 = 240;

/// Distance moved in one tick, in centi-units (0.13 world units).
pub const MOVE_SPEED: i32 = 13;

/// Half-extent of the square playing field, in centi-units (2499.5 world
/// units). Positions are clamped into `[-POSITION_BOUND, POSITION_BOUND]`
/// on each axis.
pub const POSITION_BOUND: i32 = 249950;

/// An explosion advances one animation frame each time this many
/// milliseconds of tick time have accumulated.
pub const EXPLOSION_FRAME_MS: u64 = 50;

/// An explosion is removed when its frame counter reaches this value.
pub const EXPLOSION_FRAMES: u32 = 16;

/// Milliseconds per second; one tick lasts `1000 / fps` milliseconds.
pub const MS_PER_SECOND: u64 = 1000;

} // verus!
