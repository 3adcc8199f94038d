//! Measures of the playfield.
//!
//! A position is a whole number of sub-units, a billionth of a playfield unit
//! each. A speed is in playfield units per second and a frame time in
//! nanoseconds, so their product is a displacement in sub-units.

use vstd::prelude::*;

verus! {

/// Sub-units in one playfield unit.
pub const UNIT: i64 = 1_000_000_000;

/// The player stays within this distance of the centre line.
pub const PLAYER_REACH: i64 = 350_000_000_000;

/// Height of the line along which the player moves.
pub const PLAYER_LINE: i64 = -200_000_000_000;

/// A bullet appears this far above the player.
pub const MUZZLE_OFFSET: i64 = 30_000_000_000;

/// A bullet above this height has left the playfield.
pub const BULLET_CEILING: i64 = 400_000_000_000;

/// An enemy below this height has left the playfield.
pub const ENEMY_FLOOR: i64 = -300_000_000_000;

/// Height at which enemies appear.
pub const ENEMY_LINE: i64 = 300_000_000_000;

/// Two centres closer than this collide.
pub const HIT_RADIUS: i64 = 20_000_000_000;

/// Speeds, in playfield units per second.
pub const PLAYER_SPEED: u32 = 300;

pub const BULLET_SPEED: u32 = 500;

pub const ENEMY_SPEED: u32 = 100;

/// Points for one hit.
pub const HIT_SCORE: u64 = 10;

/// Shortest time between two shots, in nanoseconds.
pub const FIRE_COOLDOWN: u64 = 500_000_000;

/// Time between two enemies, in nanoseconds.
pub const SPAWN_PERIOD: u64 = 1_000_000_000;

} // verus!
