//! A verified engine for Conway's Game of Life on a toroidal grid.
//!
//! The grid is a bit-packed, row-major sequence of cells with wraparound
//! index arithmetic: the last row's neighbor below is the first row, and
//! symmetrically for columns.  The engine exposes construction with a fill
//! policy, mutation (toggle, randomize, clear, pattern seeding, resize),
//! one-generation advancement under the B3/S23 rule, and inspection.

pub mod bits;
pub mod rules;
pub mod universe;
pub mod laws;
