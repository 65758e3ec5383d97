//! A verified model of a small Breakout-style game simulation.
//!
//! The library models a fixed-timestep world of one ball, one paddle, and a
//! set of axis-aligned rectangular colliders (indestructible walls and
//! destructible, score-awarding bricks), all over integer coordinates.
//! Each per-tick system — paddle movement, ball movement, collision
//! resolution, and scoreboard text refresh — is an executable function whose
//! exact effect on the world is stated in its contract and proved.

pub mod geometry;
pub mod scoreboard;
pub mod systems;
pub mod world;
