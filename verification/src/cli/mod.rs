//! What the command line asks for.

pub mod args;
pub mod commands;
pub mod documents;
pub mod flag_laws;
pub mod flags;
pub mod inputs;
pub mod scenario;
pub mod scenario_laws;
