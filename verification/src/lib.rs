//! A one-dimensional elementary cellular automaton that keeps every row it
//! has ever computed.
//!
//! The automaton starts from a single live cell and widens by one cell on
//! each side per step, so row `r` holds `2r + 1` cells. All rows are packed
//! into one flat buffer in which row `r` begins at position `r * r`.
pub mod rule;
pub mod model;
pub mod simulation;
pub mod laws;
