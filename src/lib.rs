//! Sudoku puzzles built from a small corpus of solved seeds: symmetry
//! transforms that keep a puzzle valid, box-major coordinates, conflict
//! detection and the state of one game.

pub mod coords;
pub mod grid;
pub mod puzzle_transformer;
mod random;
pub mod conflicts;
pub mod puzzle;
pub mod game;
