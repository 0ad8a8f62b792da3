//! flezzle-rs: the deterministic core of a tick-driven platformer.
//!
//! The library holds the parts of the game that decide things: the input
//! model (which actions are held during a simulation tick, and which were
//! newly pressed), the player's movement rule, the naming of uploaded
//! levels, and the frame/tick accounting that test drivers observe. Each is
//! verified against its contract. The engine around it (windowing,
//! rendering, physics, the ECS schedule) lives in the application crate.

pub mod debug;
pub mod input;
pub mod level;
pub mod player;
