//! References to artifacts and the identity of an engine.

use vstd::prelude::*;

use crate::error::{malformed, Error};
#[allow(unused_imports)]
use crate::error::{malformed_fault, outcome, Fault};
use crate::json::Value;
#[allow(unused_imports)]
use crate::json::{entries_view, field, group_json_views, integer_of, Json};
use crate::text;
#[allow(unused_imports)]
use crate::text::debug_text;

use super::fields::{checked_object, required_identifier, required_str};
#[allow(unused_imports)]
use super::fields::{
    identifier_field, lemma_required_field, names_view, object_complaint, text_field, valid_identifier,
};
use super::identity::Digest;
#[allow(unused_imports)]
use super::identity::{parsed_digest, valid_digest};

verus! {

pub const MAX_OBJECT_BYTES: usize = 67_108_864;

/// What an artifact holds.
#[derive(Debug, Clone, Copy, PartialEq, Eq, Hash, Structural)]
pub enum ArtifactKind {
    ModelIr,
    Data,
    Inspection,
    PosteriorDraws,
    Diagnostics,
    PosteriorCheck,
    EngineBinary,
    EngineCapabilities,
    InvestigationManifest,
    ReplayReport,
}

/// The name of a kind in documents.
pub open spec fn kind_text(kind: ArtifactKind) -> Seq<char> {
    match kind {
        ArtifactKind::ModelIr => "model_ir"@,
        ArtifactKind::Data => "data"@,
        ArtifactKind::Inspection => "inspection"@,
        ArtifactKind::PosteriorDraws => "posterior_draws"@,
        ArtifactKind::Diagnostics => "diagnostics"@,
        ArtifactKind::PosteriorCheck => "posterior_check"@,
        ArtifactKind::EngineBinary => "engine_binary"@,
        ArtifactKind::EngineCapabilities => "engine_capabilities"@,
        ArtifactKind::InvestigationManifest => "investigation_manifest"@,
        ArtifactKind::ReplayReport => "replay_report"@,
    }
}

/// The names of different kinds differ.
pub proof fn lemma_kind_text_injective(a: ArtifactKind, b: ArtifactKind)
    requires
        kind_text(a) == kind_text(b),
    ensures
        a == b,
{
    reveal_strlit("model_ir");
    reveal_strlit("data");
    reveal_strlit("inspection");
    reveal_strlit("posterior_draws");
    reveal_strlit("diagnostics");
    reveal_strlit("posterior_check");
    reveal_strlit("engine_binary");
    reveal_strlit("engine_capabilities");
    reveal_strlit("investigation_manifest");
    reveal_strlit("replay_report");
    assert("posterior_draws"@[10] != "posterior_check"@[10]);
    assert("engine_binary"@[0] != "replay_report"@[0]);
    assert("model_ir"@.len() == 8 && "data"@.len() == 4 && "inspection"@.len() == 10);
    assert("posterior_draws"@.len() == 15 && "posterior_check"@.len() == 15);
    assert("diagnostics"@.len() == 11 && "engine_binary"@.len() == 13);
    assert("engine_capabilities"@.len() == 19 && "investigation_manifest"@.len() == 22);
    assert("replay_report"@.len() == 13);
}

/// What reading the name of a kind gives.
pub open spec fn parsed_kind(value: Seq<char>, context: Seq<char>) -> Result<ArtifactKind, Fault> {
    if exists|kind: ArtifactKind| #[trigger] kind_text(kind) == value {
        Ok(choose|kind: ArtifactKind| #[trigger] kind_text(kind) == value)
    } else {
        Err(
            malformed_fault(context + " artifact kind "@ + debug_text(value) + " is unsupported"@),
        )
    }
}

/// The view of a result whose value is its own view.
pub open spec fn plain<T>(r: Result<T, Error>) -> Result<T, Fault> {
    match r {
        Ok(value) => Ok(value),
        Err(error) => Err(error@),
    }
}

impl ArtifactKind {
    pub fn as_str(self) -> (r: &'static str)
        ensures
            r@ == kind_text(self),
    {
        match self {
            ArtifactKind::ModelIr => "model_ir",
            ArtifactKind::Data => "data",
            ArtifactKind::Inspection => "inspection",
            ArtifactKind::PosteriorDraws => "posterior_draws",
            ArtifactKind::Diagnostics => "diagnostics",
            ArtifactKind::PosteriorCheck => "posterior_check",
            ArtifactKind::EngineBinary => "engine_binary",
            ArtifactKind::EngineCapabilities => "engine_capabilities",
            ArtifactKind::InvestigationManifest => "investigation_manifest",
            ArtifactKind::ReplayReport => "replay_report",
        }
    }

    pub fn parse(value: &str, context: &str) -> (r: Result<ArtifactKind, Error>)
        ensures
            plain(r) == parsed_kind(value@, context@),
    {
        let kinds: [ArtifactKind; 10] = [
            ArtifactKind::ModelIr,
            ArtifactKind::Data,
            ArtifactKind::Inspection,
            ArtifactKind::PosteriorDraws,
            ArtifactKind::Diagnostics,
            ArtifactKind::PosteriorCheck,
            ArtifactKind::EngineBinary,
            ArtifactKind::EngineCapabilities,
            ArtifactKind::InvestigationManifest,
            ArtifactKind::ReplayReport,
        ];
        let mut i: usize = 0;
        while i < 10
            invariant
                i <= 10,
                forall|j: int| 0 <= j < i ==> kind_text(#[trigger] kinds@[j]) != value@,
            decreases 10 - i,
        {
            if text::same(kinds[i].as_str(), value) {
                proof {
                    let chosen = choose|kind: ArtifactKind| #[trigger] kind_text(kind) == value@;
                    assert(kind_text(kinds@[i as int]) == value@);
                    lemma_kind_text_injective(chosen, kinds@[i as int]);
                }
                return Ok(kinds[i]);
            }
            i += 1;
        }
        proof {
            assert forall|kind: ArtifactKind| #[trigger] kind_text(kind) != value@ by {
                assert(kinds@.contains(kind)) by {
                    match kind {
                        ArtifactKind::ModelIr => assert(kinds@[0] == kind),
                        ArtifactKind::Data => assert(kinds@[1] == kind),
                        ArtifactKind::Inspection => assert(kinds@[2] == kind),
                        ArtifactKind::PosteriorDraws => assert(kinds@[3] == kind),
                        ArtifactKind::Diagnostics => assert(kinds@[4] == kind),
                        ArtifactKind::PosteriorCheck => assert(kinds@[5] == kind),
                        ArtifactKind::EngineBinary => assert(kinds@[6] == kind),
                        ArtifactKind::EngineCapabilities => assert(kinds@[7] == kind),
                        ArtifactKind::InvestigationManifest => assert(kinds@[8] == kind),
                        ArtifactKind::ReplayReport => assert(kinds@[9] == kind),
                    }
                }
            }
        }
        let shown: String = text::quoted(value);
        Err(malformed(text::cat4(context, " artifact kind ", shown.as_str(), " is unsupported")))
    }
}

/// A reference to exact bytes: their digest, their number, and what they hold.
#[derive(Debug, Clone)]
pub struct ArtifactRef {
    pub sha256: Digest,
    pub bytes: usize,
    pub kind: ArtifactKind,
    pub format: String,
}

/// The mathematical content of an [`ArtifactRef`].
#[verifier::ext_equal]
pub struct RefModel {
    pub sha256: Seq<char>,
    pub bytes: usize,
    pub kind: ArtifactKind,
    pub format: Seq<char>,
}

impl View for ArtifactRef {
    type V = RefModel;

    open spec fn view(&self) -> RefModel {
        RefModel {
            sha256: self.sha256@,
            bytes: self.bytes,
            kind: self.kind,
            format: self.format@,
        }
    }
}

pub open spec fn ref_fields() -> Seq<Seq<char>> {
    seq!["sha256"@, "bytes"@, "kind"@, "format"@]
}

/// A reference that a document can carry.
pub open spec fn valid_ref(m: RefModel) -> bool {
    valid_digest(m.sha256) && m.bytes <= MAX_OBJECT_BYTES && valid_identifier(m.format)
}

/// The document form of a reference.
pub open spec fn ref_json(m: RefModel) -> Json {
    Json::Object(
        seq![
            ("sha256"@, Json::Str(m.sha256)),
            ("bytes"@, Json::Int(m.bytes as i64)),
            ("kind"@, Json::Str(kind_text(m.kind))),
            ("format"@, Json::Str(m.format)),
        ],
    )
}

/// Reading a text field as a digest.
pub open spec fn digest_field(v: Json, name: Seq<char>, context: Seq<char>) -> Result<
    Seq<char>,
    Fault,
> {
    match text_field(v, name, context) {
        Ok(s) => parsed_digest(s, context),
        Err(fault) => Err(fault),
    }
}

pub fn required_digest(value: &Value, name: &str, context: &str) -> (r: Result<Digest, Error>)
    ensures
        outcome(r) == digest_field(value@, name@, context@),
{
    let found: &str = required_str(value, name, context)?;
    Digest::parse(found, context)
}

/// Reading a byte count.
pub open spec fn count_field(v: Json, context: Seq<char>) -> Result<usize, Fault> {
    match integer_of(field(v, "bytes"@)) {
        None => Err(malformed_fault(context + " field \"bytes\" must be an integer"@)),
        Some(n) => if 0 <= n <= MAX_OBJECT_BYTES {
            Ok(n as usize)
        } else {
            Err(malformed_fault(context + " bytes must be in 0..=67108864"@))
        },
    }
}

fn required_count(value: &Value, context: &str) -> (r: Result<usize, Error>)
    ensures
        plain(r) == count_field(value@, context@),
{
    let mut count: Option<i64> = None;
    if let Some(found) = value.get("bytes") {
        count = found.as_i64();
    }
    match count {
        None => Err(malformed(text::cat2(context, " field \"bytes\" must be an integer"))),
        Some(n) => {
            if n < 0 || n > 67_108_864 {
                Err(malformed(text::cat2(context, " bytes must be in 0..=67108864")))
            } else {
                Ok(n as usize)
            }
        },
    }
}

/// Reading the kind of an artifact.
pub open spec fn kind_field(v: Json, context: Seq<char>) -> Result<ArtifactKind, Fault> {
    match text_field(v, "kind"@, context) {
        Ok(s) => parsed_kind(s, context),
        Err(fault) => Err(fault),
    }
}

/// What reading a reference gives: the first complaint, or the reference.
pub open spec fn parsed_ref(v: Json, context: Seq<char>) -> Result<RefModel, Fault> {
    match object_complaint(v, context, ref_fields(), ref_fields()) {
        Some(message) => Err(malformed_fault(message)),
        None => match digest_field(v, "sha256"@, context) {
            Err(fault) => Err(fault),
            Ok(sha256) => match count_field(v, context) {
                Err(fault) => Err(fault),
                Ok(bytes) => match kind_field(v, context) {
                    Err(fault) => Err(fault),
                    Ok(kind) => match identifier_field(v, "format"@, context) {
                        Err(fault) => Err(fault),
                        Ok(format) => Ok(RefModel { sha256, bytes, kind, format }),
                    },
                },
            },
        },
    }
}

impl ArtifactRef {
    pub fn parse(value: &Value, context: &str) -> (r: Result<ArtifactRef, Error>)
        ensures
            outcome(r) == parsed_ref(value@, context@),
    {
        let names: [&str; 4] = ["sha256", "bytes", "kind", "format"];
        assert(names_view(names@) =~= ref_fields());
        checked_object(value, context, &names, &names)?;
        let sha256: Digest = required_digest(value, "sha256", context)?;
        let bytes: usize = required_count(value, context)?;
        let kind: ArtifactKind = ArtifactKind::parse(required_str(value, "kind", context)?, context)?;
        let format: String = required_identifier(value, "format", context)?;
        Ok(ArtifactRef { sha256, bytes, kind, format })
    }

    pub fn to_value(&self) -> (r: Value)
        ensures
            r@ == ref_json(self@),
    {
        broadcast use group_json_views;

        let entries: Vec<(String, Value)> = vec![
            ("sha256".to_owned(), Value::Str(self.sha256.0.clone())),
            ("bytes".to_owned(), Value::Int(self.bytes as i64)),
            ("kind".to_owned(), Value::Str(self.kind.as_str().to_owned())),
            ("format".to_owned(), Value::Str(self.format.clone())),
        ];
        assert(entries_view(entries@) =~= ref_json(self@)->Object_0);
        Value::Object(entries)
    }

    pub fn copy(&self) -> (r: ArtifactRef)
        ensures
            r@ == self@,
    {
        ArtifactRef {
            sha256: self.sha256.copy(),
            bytes: self.bytes,
            kind: self.kind,
            format: self.format.clone(),
        }
    }

    /// Whether two references agree in every field.
    pub fn same(&self, other: &ArtifactRef) -> (r: bool)
        ensures
            r == (self@ == other@),
    {
        self.sha256.0 == other.sha256.0 && self.bytes == other.bytes && self.kind == other.kind
            && self.format == other.format
    }
}

/// A reference field of an object, read in the context of that field.
pub open spec fn ref_field(v: Json, name: Seq<char>, context: Seq<char>) -> Result<RefModel, Fault> {
    parsed_ref(field(v, name)->0, context)
}

/// Reads a reference field that the object is known to have.
pub fn required_ref(value: &Value, name: &str, context: &str) -> (r: Result<ArtifactRef, Error>)
    requires
        field(value@, name@) is Some,
    ensures
        outcome(r) == ref_field(value@, name@, context@),
{
    ArtifactRef::parse(value.get(name).unwrap(), context)
}

/// The engine that ran a recipe: its program, its capabilities, and how it was built.
#[derive(Debug, Clone)]
pub struct EngineIdentity {
    pub binary: ArtifactRef,
    pub capabilities: ArtifactRef,
    pub target: String,
    pub profile: String,
}

/// The mathematical content of an [`EngineIdentity`].
#[verifier::ext_equal]
pub struct EngineModel {
    pub binary: RefModel,
    pub capabilities: RefModel,
    pub target: Seq<char>,
    pub profile: Seq<char>,
}

impl View for EngineIdentity {
    type V = EngineModel;

    open spec fn view(&self) -> EngineModel {
        EngineModel {
            binary: self.binary@,
            capabilities: self.capabilities@,
            target: self.target@,
            profile: self.profile@,
        }
    }
}

pub open spec fn engine_fields() -> Seq<Seq<char>> {
    seq!["binary"@, "capabilities"@, "target"@, "profile"@]
}

/// An engine identity that a document can carry.
pub open spec fn valid_engine(m: EngineModel) -> bool {
    &&& valid_ref(m.binary)
    &&& m.binary.kind == ArtifactKind::EngineBinary
    &&& valid_ref(m.capabilities)
    &&& m.capabilities.kind == ArtifactKind::EngineCapabilities
    &&& valid_identifier(m.target)
    &&& valid_identifier(m.profile)
}

/// The document form of an engine identity.
pub open spec fn engine_json(m: EngineModel) -> Json {
    Json::Object(
        seq![
            ("binary"@, ref_json(m.binary)),
            ("capabilities"@, ref_json(m.capabilities)),
            ("target"@, Json::Str(m.target)),
            ("profile"@, Json::Str(m.profile)),
        ],
    )
}

/// What reading an engine identity gives.
pub open spec fn parsed_engine(v: Json, context: Seq<char>) -> Result<EngineModel, Fault> {
    match object_complaint(v, context, engine_fields(), engine_fields()) {
        Some(message) => Err(malformed_fault(message)),
        None => match ref_field(v, "binary"@, context + ".binary"@) {
            Err(fault) => Err(fault),
            Ok(binary) => if binary.kind != ArtifactKind::EngineBinary {
                Err(malformed_fault(context + ".binary kind must be \"engine_binary\""@))
            } else {
                match ref_field(v, "capabilities"@, context + ".capabilities"@) {
                    Err(fault) => Err(fault),
                    Ok(capabilities) => if capabilities.kind != ArtifactKind::EngineCapabilities {
                        Err(
                            malformed_fault(
                                context + ".capabilities kind must be \"engine_capabilities\""@,
                            ),
                        )
                    } else {
                        match identifier_field(v, "target"@, context) {
                            Err(fault) => Err(fault),
                            Ok(target) => match identifier_field(v, "profile"@, context) {
                                Err(fault) => Err(fault),
                                Ok(profile) => Ok(
                                    EngineModel { binary, capabilities, target, profile },
                                ),
                            },
                        }
                    },
                }
            },
        },
    }
}

impl EngineIdentity {
    pub fn parse(value: &Value, context: &str) -> (r: Result<EngineIdentity, Error>)
        ensures
            outcome(r) == parsed_engine(value@, context@),
    {
        let names: [&str; 4] = ["binary", "capabilities", "target", "profile"];
        assert(names_view(names@) =~= engine_fields());
        checked_object(value, context, &names, &names)?;
        proof {
            assert(engine_fields()[0] == "binary"@ && engine_fields()[1] == "capabilities"@);
            lemma_required_field(value@, context@, engine_fields(), engine_fields(), "binary"@);
            lemma_required_field(value@, context@, engine_fields(), engine_fields(), "capabilities"@);
        }
        let binary: ArtifactRef = required_ref(
            value,
            "binary",
            text::cat2(context, ".binary").as_str(),
        )?;
        if binary.kind != ArtifactKind::EngineBinary {
            return Err(
                malformed(text::cat2(context, ".binary kind must be \"engine_binary\"")),
            );
        }
        let capabilities: ArtifactRef = required_ref(
            value,
            "capabilities",
            text::cat2(context, ".capabilities").as_str(),
        )?;
        if capabilities.kind != ArtifactKind::EngineCapabilities {
            return Err(
                malformed(
                    text::cat2(context, ".capabilities kind must be \"engine_capabilities\""),
                ),
            );
        }
        let target: String = required_identifier(value, "target", context)?;
        let profile: String = required_identifier(value, "profile", context)?;
        Ok(EngineIdentity { binary, capabilities, target, profile })
    }

    pub fn to_value(&self) -> (r: Value)
        ensures
            r@ == engine_json(self@),
    {
        broadcast use group_json_views;

        let entries: Vec<(String, Value)> = vec![
            ("binary".to_owned(), self.binary.to_value()),
            ("capabilities".to_owned(), self.capabilities.to_value()),
            ("target".to_owned(), Value::Str(self.target.clone())),
            ("profile".to_owned(), Value::Str(self.profile.clone())),
        ];
        assert(entries_view(entries@) =~= engine_json(self@)->Object_0);
        Value::Object(entries)
    }

    pub fn copy(&self) -> (r: EngineIdentity)
        ensures
            r@ == self@,
    {
        EngineIdentity {
            binary: self.binary.copy(),
            capabilities: self.capabilities.copy(),
            target: self.target.clone(),
            profile: self.profile.clone(),
        }
    }
}

} // verus!
