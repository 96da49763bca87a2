//! What the verification of a bundle reports.

use vstd::prelude::*;

use crate::error::Error;
#[allow(unused_imports)]
use crate::error::{kind_name, Fault};
use crate::json::Value;
#[allow(unused_imports)]
use crate::json::{entries_view, group_json_views, items_view, Json};
#[allow(unused_imports)]
use crate::text::bytes_of;

use super::identity::{snapshot_digest, Digest};
#[allow(unused_imports)]
use super::identity::{digest_text, SNAPSHOT_DOMAIN};

verus! {

/// What was found of a bundle that verified.
#[derive(Debug)]
pub struct Verification {
    pub snapshot_id: Digest,
    pub schema_valid: bool,
    pub reference_closure_valid: bool,
    pub object_integrity_valid: bool,
    pub current_results_valid: bool,
    pub engine_artifacts_available: bool,
    pub replay_recorded: bool,
    pub object_count: usize,
    pub ancestry_depth: usize,
    /// Exact verified closure, excluding the separately supplied root manifest. Hosts use this
    /// list; reports do not serialize it.
    pub object_digests: Vec<Digest>,
}

/// The identity of a snapshot, by the exact bytes of its manifest.
pub open spec fn snapshot_identity(manifest_bytes: Seq<u8>) -> Seq<char> {
    digest_text(bytes_of(SNAPSHOT_DOMAIN@) + manifest_bytes)
}

/// The document form of a verification.
pub open spec fn verification_json(v: Verification) -> Json {
    Json::Object(
        seq![
            ("verification_format"@, Json::Str("v0-provisional"@)),
            ("snapshot_id"@, Json::Str("sha256:"@ + v.snapshot_id@)),
            ("schema_valid"@, Json::Bool(v.schema_valid)),
            ("reference_closure_valid"@, Json::Bool(v.reference_closure_valid)),
            ("object_integrity_valid"@, Json::Bool(v.object_integrity_valid)),
            ("current_results_valid"@, Json::Bool(v.current_results_valid)),
            ("engine_artifacts_available"@, Json::Bool(v.engine_artifacts_available)),
            ("replay_recorded"@, Json::Bool(v.replay_recorded)),
            ("object_count"@, Json::Int(v.object_count as i64)),
            ("ancestry_depth"@, Json::Int(v.ancestry_depth as i64)),
            ("verification_executes_recipes"@, Json::Bool(false)),
            ("authenticity_verified"@, Json::Bool(false)),
            ("verification_complete"@, Json::Bool(true)),
            ("findings"@, Json::Array(Seq::empty())),
        ],
    )
}

impl Verification {
    pub fn to_value(&self) -> (r: Value)
        ensures
            r@ == verification_json(*self),
    {
        broadcast use group_json_views;

        let findings: Vec<Value> = Vec::new();
        assert(items_view(findings@) =~= Seq::empty());
        let entries: Vec<(String, Value)> = vec![
            ("verification_format".to_owned(), Value::Str("v0-provisional".to_owned())),
            ("snapshot_id".to_owned(), Value::Str(self.snapshot_id.prefixed())),
            ("schema_valid".to_owned(), Value::Bool(self.schema_valid)),
            ("reference_closure_valid".to_owned(), Value::Bool(self.reference_closure_valid)),
            ("object_integrity_valid".to_owned(), Value::Bool(self.object_integrity_valid)),
            ("current_results_valid".to_owned(), Value::Bool(self.current_results_valid)),
            ("engine_artifacts_available".to_owned(), Value::Bool(self.engine_artifacts_available)),
            ("replay_recorded".to_owned(), Value::Bool(self.replay_recorded)),
            ("object_count".to_owned(), Value::Int(self.object_count as i64)),
            ("ancestry_depth".to_owned(), Value::Int(self.ancestry_depth as i64)),
            ("verification_executes_recipes".to_owned(), Value::Bool(false)),
            ("authenticity_verified".to_owned(), Value::Bool(false)),
            ("verification_complete".to_owned(), Value::Bool(true)),
            ("findings".to_owned(), Value::Array(findings)),
        ];
        assert(entries_view(entries@) =~= verification_json(*self)->Object_0);
        Value::Object(entries)
    }
}

/// What a failure was found in.
#[derive(Debug, Clone, Copy, PartialEq, Eq, Structural)]
pub enum VerificationDimension {
    FormatSchema,
    ReferenceClosure,
    ObjectIntegrity,
    CurrentResults,
}

pub open spec fn dimension_text(dimension: VerificationDimension) -> Seq<char> {
    match dimension {
        VerificationDimension::FormatSchema => "format_schema"@,
        VerificationDimension::ReferenceClosure => "reference_closure"@,
        VerificationDimension::ObjectIntegrity => "object_integrity"@,
        VerificationDimension::CurrentResults => "current_results"@,
    }
}

impl VerificationDimension {
    pub fn as_str(self) -> (r: &'static str)
        ensures
            r@ == dimension_text(self),
    {
        match self {
            VerificationDimension::FormatSchema => "format_schema",
            VerificationDimension::ReferenceClosure => "reference_closure",
            VerificationDimension::ObjectIntegrity => "object_integrity",
            VerificationDimension::CurrentResults => "current_results",
        }
    }
}

/// Why a bundle did not verify.
#[derive(Debug)]
pub struct VerificationFailure {
    pub dimension: VerificationDimension,
    pub error: Error,
}

/// The mathematical content of a [`VerificationFailure`].
#[verifier::ext_equal]
pub struct FailureModel {
    pub dimension: VerificationDimension,
    pub fault: Fault,
}

impl View for VerificationFailure {
    type V = FailureModel;

    open spec fn view(&self) -> FailureModel {
        FailureModel { dimension: self.dimension, fault: self.error@ }
    }
}

/// What a failure says of one dimension. Checks of schema, closure, integrity, and results are
/// interleaved to stay bounded: a failure proves its own dimension false, but cannot prove any
/// other recursive dimension complete. The root manifest schema is the sole completed fact after
/// a later failure.
pub open spec fn dimension_status(
    failed: VerificationDimension,
    dimension: VerificationDimension,
    manifest_read: bool,
) -> Json {
    if failed == dimension {
        Json::Bool(false)
    } else if dimension == VerificationDimension::FormatSchema && manifest_read {
        Json::Bool(true)
    } else {
        Json::Null
    }
}

/// The one finding of a failure.
pub open spec fn finding_json(f: FailureModel) -> Json {
    Json::Object(
        seq![
            ("dimension"@, Json::Str(dimension_text(f.dimension))),
            ("error"@, Json::Str(kind_name(f.fault.kind))),
            ("message"@, Json::Str(f.fault.message)),
        ],
    )
}

/// The document form of a failure.
pub open spec fn failure_json(f: FailureModel, manifest_bytes: Option<Seq<u8>>) -> Json {
    let known = manifest_bytes is Some;
    Json::Object(
        seq![
            ("verification_format"@, Json::Str("v0-provisional"@)),
            (
                "snapshot_id"@,
                match manifest_bytes {
                    Some(bytes) => Json::Str("sha256:"@ + snapshot_identity(bytes)),
                    None => Json::Null,
                },
            ),
            ("verification_complete"@, Json::Bool(false)),
            (
                "schema_valid"@,
                dimension_status(f.dimension, VerificationDimension::FormatSchema, known),
            ),
            (
                "reference_closure_valid"@,
                dimension_status(f.dimension, VerificationDimension::ReferenceClosure, known),
            ),
            (
                "object_integrity_valid"@,
                dimension_status(f.dimension, VerificationDimension::ObjectIntegrity, known),
            ),
            (
                "current_results_valid"@,
                dimension_status(f.dimension, VerificationDimension::CurrentResults, known),
            ),
            ("engine_artifacts_available"@, Json::Null),
            ("replay_recorded"@, Json::Null),
            ("object_count"@, Json::Null),
            ("ancestry_depth"@, Json::Null),
            ("verification_executes_recipes"@, Json::Bool(false)),
            ("authenticity_verified"@, Json::Bool(false)),
            ("findings"@, Json::Array(seq![finding_json(f)])),
        ],
    )
}

/// The view of optional bytes.
pub open spec fn optional_bytes(bytes: Option<&[u8]>) -> Option<Seq<u8>> {
    match bytes {
        Some(found) => Some(found@),
        None => None,
    }
}

impl VerificationFailure {
    pub fn new(dimension: VerificationDimension, error: Error) -> (r: VerificationFailure)
        ensures
            r@ == (FailureModel { dimension, fault: error@ }),
    {
        VerificationFailure { dimension, error }
    }

    fn status(&self, dimension: VerificationDimension, manifest_read: bool) -> (r: Value)
        ensures
            r@ == dimension_status(self.dimension, dimension, manifest_read),
    {
        if self.dimension == dimension {
            Value::Bool(false)
        } else if dimension == VerificationDimension::FormatSchema && manifest_read {
            Value::Bool(true)
        } else {
            Value::Null
        }
    }

    fn finding(&self) -> (r: Value)
        ensures
            r@ == finding_json(self@),
    {
        broadcast use group_json_views;

        let entries: Vec<(String, Value)> = vec![
            ("dimension".to_owned(), Value::Str(self.dimension.as_str().to_owned())),
            ("error".to_owned(), Value::Str(self.error.kind.name().to_owned())),
            ("message".to_owned(), Value::Str(self.error.message.clone())),
        ];
        assert(entries_view(entries@) =~= finding_json(self@)->Object_0);
        Value::Object(entries)
    }

    pub fn to_value(&self, manifest_bytes: Option<&[u8]>) -> (r: Value)
        ensures
            r@ == failure_json(self@, optional_bytes(manifest_bytes)),
    {
        broadcast use group_json_views;

        let known: bool = manifest_bytes.is_some();
        let identity: Value = match manifest_bytes {
            Some(bytes) => Value::Str(snapshot_digest(bytes).prefixed()),
            None => Value::Null,
        };
        let findings: Vec<Value> = vec![self.finding()];
        assert(items_view(findings@) =~= seq![finding_json(self@)]);
        let entries: Vec<(String, Value)> = vec![
            ("verification_format".to_owned(), Value::Str("v0-provisional".to_owned())),
            ("snapshot_id".to_owned(), identity),
            ("verification_complete".to_owned(), Value::Bool(false)),
            ("schema_valid".to_owned(), self.status(VerificationDimension::FormatSchema, known)),
            (
                "reference_closure_valid".to_owned(),
                self.status(VerificationDimension::ReferenceClosure, known),
            ),
            (
                "object_integrity_valid".to_owned(),
                self.status(VerificationDimension::ObjectIntegrity, known),
            ),
            (
                "current_results_valid".to_owned(),
                self.status(VerificationDimension::CurrentResults, known),
            ),
            ("engine_artifacts_available".to_owned(), Value::Null),
            ("replay_recorded".to_owned(), Value::Null),
            ("object_count".to_owned(), Value::Null),
            ("ancestry_depth".to_owned(), Value::Null),
            ("verification_executes_recipes".to_owned(), Value::Bool(false)),
            ("authenticity_verified".to_owned(), Value::Bool(false)),
            ("findings".to_owned(), Value::Array(findings)),
        ];
        assert(entries_view(entries@) =~= failure_json(
            self@,
            optional_bytes(manifest_bytes),
        )->Object_0);
        Value::Object(entries)
    }
}

} // verus!
