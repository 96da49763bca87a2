//! Predictive simulation: prior and posterior predictive draws, and generated data.

pub mod artifacts;
pub mod cells;
pub mod check;
pub mod check_laws;
pub mod fit;
pub mod fit_laws;
pub mod forward;
pub mod forward_laws;
pub mod generate;
pub mod generate_laws;
pub mod inventory;
pub mod pairs;
pub mod partial;
pub mod pick_laws;
pub mod posterior_artifacts;
pub mod prior;
pub mod prior_laws;
pub mod records;
pub mod replica_laws;
pub mod reference_laws;
pub mod replicate;
pub mod restricted;
pub mod run_laws;
pub mod sampling;
pub mod sampling_laws;
pub mod setup;
pub mod statistics;
pub mod statistics_laws;
pub mod steady;
pub mod target;
pub mod truth;
pub mod truth_laws;
pub mod vector;
