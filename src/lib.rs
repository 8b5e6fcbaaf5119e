//! A toroidal grid running Conway's Game of Life, with the cell states kept
//! one bit per cell.
pub mod cell;
pub mod laws;
pub mod model;
pub mod universe;

pub use cell::Cell;
pub use universe::Universe;
