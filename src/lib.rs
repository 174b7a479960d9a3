//! A toroidal grid of cells evolving under Conway's Game of Life rules.

pub mod cell;
pub mod universe;
pub mod laws;

pub use cell::Cell;
pub use universe::{Universe, UniverseError};
