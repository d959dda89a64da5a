//! Deterministic simulation core of a grid-based arena game: a tile stage,
//! time-delayed bombs, and blasts whose flames spread one cell per tick.
use vstd::prelude::*;

pub mod direction;
pub mod stage;
pub mod bomb;
pub mod world;
