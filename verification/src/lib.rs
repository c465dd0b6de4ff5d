//! A verified chess engine core: a static position evaluator and a
//! fixed-depth negamax search with alpha-beta pruning.
//!
//! The rules of chess themselves — move generation, legality, terminal
//! status — are the business of the `chess` crate, reached through the
//! trusted boundary in `rules`. Everything this crate computes on top of
//! that boundary is specified and proved.

pub mod types;
pub mod tables;
pub mod eval;
pub mod rules;
pub mod search;
pub mod laws;
pub mod setup;
pub mod ui;
