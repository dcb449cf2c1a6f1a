//! Verified core of a terminal arcade game: invaders labeled with unique
//! one-byte hex values descend toward a firing line while the player toggles
//! eight input bits to compose a target value; a matching value fires a
//! projectile that destroys the invader.
//!
//! The simulation logic lives here and is verified; terminal rendering,
//! raw-mode setup and the input/shutdown threads are unverified collaborators
//! that drive this library through plain values.

pub mod accumulator;
pub mod arrow;
pub mod events;
pub mod game;
pub mod invader;
pub mod registry;
