//! Scores players against position formulas and searches for the
//! highest-scoring assignment of a roster to a fixed set of slots.
//!
//! Scores are integer-valued: stats are integers, and the expression
//! language evaluates in wrapping 64-bit arithmetic with truncating
//! division, so every result is pinned down exactly by the contracts.

pub mod arith;
pub mod text;
pub mod player;
pub mod evaluator;
pub mod composition;
pub mod pick;
pub mod lineup;
pub mod cli;
pub mod roster;
