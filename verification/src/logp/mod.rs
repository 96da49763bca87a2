//! The log density of a bound model at a point, with its gradient.

pub mod calculus;
pub mod compiled;
pub mod evaluate;
pub mod graph;
pub mod laws;
pub mod parameters;
pub mod place;
pub mod point;
pub mod steady;
