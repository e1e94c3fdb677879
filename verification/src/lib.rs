//! A verified Minesweeper engine: a rectangular grid of cells, each hiding a
//! bomb or a hint, with bomb placement, accurate neighbor counts, cascading
//! reveal of zero-hint regions, and per-cell flagging. Every operation
//! carries a contract; rendering and input belong to the caller.

pub mod cell;
pub mod count;
pub mod flood;
pub mod generate;
pub mod grid;
pub mod laws;

pub use cell::{Cell, CellContents, CellState, Marker};
pub use generate::{generate, new_game, place_bombs_rnd, Config, Difficulty};
pub use grid::Grid;
