//! A two-player territory game on a fixed square grid, with a legal-move
//! generator that floods through each player's own walls and a fixed-depth
//! search that mutates and restores one shared game state.

pub mod board;
pub mod game;
pub mod moves;
pub mod rules;
pub mod search;
