//! Conway's Game of Life on a bounded or toroidal grid.
//!
//! The grid resolves 1-based `(row, column)` positions to cells under a
//! boundary policy, counts live neighbours, and computes whole generations
//! under the B3/S23 rule. The engine adds a generation counter and the
//! editing commands that a terminal front end sends it.

pub mod command;
pub mod engine;
pub mod grid;
pub mod laws;
pub mod shape;
pub mod text;
