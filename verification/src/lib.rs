//! A falling-sand simulation: grains settle on a fixed rectangular grid,
//! one frame at a time, falling straight down when possible and otherwise
//! sliding towards the emptier neighbouring column, subject to a viscosity
//! threshold that resists horizontal movement.
//!
//! - [`tank`] holds the executable engine, [`tank::Tank`], whose contracts
//!   are stated against the model in [`settle`].
//! - [`settle`] gives the meaning of one settling frame as functions on
//!   sequences of rows of cells.
//! - [`laws`] proves the general properties of the rule: settling conserves
//!   grains, placement never removes one, floor grains stay put, ties go
//!   left, and sliding always clears the viscosity threshold.
//! - [`single_move`] proves that no grain is relocated more than once
//!   within one frame.

pub mod laws;
pub mod settle;
pub mod single_move;
pub mod tank;
