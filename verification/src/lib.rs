//! The simulation core of a small arcade shooter.
//!
//! A player slides along the bottom of the playfield and fires upwards,
//! enemies appear at the top at a fixed cadence and descend, and a bullet that
//! comes close enough to an enemy removes both and scores. Positions are
//! integers in billionths of a playfield unit and time is in nanoseconds, so
//! that a speed in units per second times a frame time is an exact
//! displacement.

pub mod collision;
pub mod entity;
pub mod game;
pub mod hud;
pub mod input;
pub mod movement;
pub mod spawner;
pub mod timer;
pub mod units;
