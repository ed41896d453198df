//! A match-3 grid engine: board storage, pattern matching, special pieces,
//! swaps, gravity and the two-phase turn cycle.

pub mod activation;
pub mod board;
pub mod explanation;
pub mod gravity;
pub mod matches;
pub mod priority;
pub mod progress;
pub mod random;
pub mod resolver;
pub mod shape;
pub mod swap;
pub mod templates;
pub mod turn;
pub mod utils;
