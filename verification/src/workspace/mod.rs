//! Workspaces in which investigations are carried on.

pub mod closure;
pub mod document;
pub mod job;
pub mod laws;
pub mod metadata;
pub mod options;
pub mod record;
pub mod reports;
pub mod snapshot;
pub mod state;
pub mod transfer;
pub mod transfer_laws;
