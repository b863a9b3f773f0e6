//! Per-frame simulation core of a top-down arcade shooter: entities, motion,
//! collisions, scoring, explosion effects and the game-mode state machine.
//!
//! Lengths and coordinates are whole numbers of sub-pixel units, speeds are
//! units per second and frame times are microseconds.
pub mod shape;
pub mod motion;
pub mod collision;
pub mod score;
pub mod game;
pub mod spawn;
pub mod laws;
