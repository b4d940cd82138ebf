//! Procedural terrain generation on a rectangular elevation grid.
//!
//! A [`grid::TerrainGrid`] owns a matrix of elevations, all zero at first.
//! Each mutation draws a random fault line and raises a deterministic half of
//! the cells by one; summary statistics are recomputed on demand, and the grid
//! renders as a bordered block of two-character terrain glyphs chosen by
//! caller-supplied elevation thresholds.

pub mod fault;
pub mod grid;
mod random;
pub mod render;
