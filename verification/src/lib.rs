//! Conway's Game of Life on a fixed-size toroidal grid.
//!
//! The engine stores one generation of cells in a row-major grid, counts
//! live neighbors with wraparound addressing, and advances generations with
//! the B3/S23 rule, always reading from the old grid and writing a fresh one.

pub mod grid;
pub mod laws;
pub mod model;
pub mod run_mode;
pub mod universe;

pub use model::Cell;
pub use model::Error;
pub use model::GridView;
pub use run_mode::GameOfLife;
pub use run_mode::State;
pub use universe::Universe;
