//! Investigation snapshots: identities, typed records, and verification of bundles.

pub mod agreement;
pub mod artifacts;
pub mod documents;
pub mod fields;
pub mod host;
pub mod identity;
pub mod laws;
pub mod ledger;
pub mod manifest;
pub mod recipe;
pub mod records;
pub mod report;
pub mod sample_laws;
pub mod samples;
pub mod snapshot_laws;
pub mod verify;
pub mod verify_laws;

pub use host::Host;
pub use report::{Verification, VerificationDimension, VerificationFailure};
pub use verify::{verify_bundle, verify_bundle_detailed};
