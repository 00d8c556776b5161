//! Conway's Game of Life on a square board with hard edges.
//!
//! [`cell`] holds the rule by which one cell lives or dies, [`grid`] the board
//! as a mathematical object, and [`cell_grid`] the board in memory. Every
//! function of [`cell_grid::CellGrid`] states its behaviour over
//! [`grid::Grid`], and Verus proves that the code meets it. [`ui`] lays a
//! board out as text for a terminal.

pub mod cell;
pub mod cell_grid;
pub mod grid;
pub mod ui;
