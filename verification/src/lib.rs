//! Rule engine of a two-sided naval combat game on a ten by ten grid:
//! fleet placement, shot resolution, sunk-ship detection and turn keeping.

pub mod board;
pub mod cell;
pub mod combat;
pub mod fleet;
pub mod frame;
pub mod game;
pub mod grid;
mod rng;
pub mod turn;
