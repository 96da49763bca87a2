//! Inspection of models as they are evaluated.

pub mod laws;
pub mod report;
pub mod report_laws;
pub mod wire;
