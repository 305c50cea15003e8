//! The core of a search for vehicle routes: a solution under
//! construction and its invariants, the evaluation of insertions, the
//! compatibility constraint, a population ranked by dominance, the start
//! of an evolution, and the mapping of a problem definition to the set-up
//! of a search.
//!
//! Doubles are handled by their bit patterns, as `f64::to_bits` gives
//! them: the library compares them and leaves arithmetic on them to its
//! callers.

pub mod comparison;
pub mod compatibility;
pub mod domain;
pub mod evolution;
pub mod extras;
pub mod insertion;
pub mod objective;
pub mod population;
pub mod random;
pub mod reader;
pub mod selectors;
pub mod service;
pub mod solution;
pub mod state;
pub mod time;
pub mod unassigned;
pub mod variation_coefficient;
