//! Conway's Game of Life on a torus, over a bit-packed grid.
//!
//! [`grid`] is the mathematical model: a grid of cell states, the neighbour
//! count with wraparound and the transition rule. [`packing`] says how cell
//! states lie in 32-bit words. [`bitset`] states what is relied on of the
//! `fixedbitset` crate, and [`universe`] is the executable engine, whose
//! contracts speak of the model. [`laws`] proves what follows for whole
//! grids: the rule, the wraparound, a still life and an oscillator, and the
//! way from cells to words and back.

pub mod packing;
pub mod bitset;
pub mod grid;
pub mod laws;
pub mod universe;

pub use universe::{GridError, Universe, DEFAULT_HEIGHT, DEFAULT_WIDTH};
