//! Multinomial no-U-turn transitions with the generalized U-turn criterion, which is also tested
//! across the joins of subtrees.
//!
//! Doubles stand here by their bit patterns. How they round, the log density and the random
//! numbers are handed in as [`services::Dynamics`].

pub mod hamiltonian;
pub mod laws;
pub mod mechanics_laws;
pub mod services;
pub mod trajectory_laws;
pub mod transition;
pub mod tree;
pub mod turning_laws;
