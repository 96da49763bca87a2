//! Carrying snapshots elsewhere: references to stored bytes, pinned engines, forks, replays, and
//! exports.

use vstd::prelude::*;

use crate::error::{invalid_settings, Error};
#[allow(unused_imports)]
use crate::error::{outcome, settings_fault, Fault};
use crate::investigation::identity::{artifact_digest, Digest};
#[allow(unused_imports)]
use crate::investigation::identity::digest_text;
use crate::investigation::ledger::{Execution, Outcome, Source};
#[allow(unused_imports)]
use crate::investigation::ledger::{views, ExecutionModel, SourceModel};
use crate::investigation::manifest::{find_recipe, Manifest};
#[allow(unused_imports)]
use crate::investigation::manifest::{decision_from, recipe_named, ManifestModel};
use crate::investigation::recipe::{Operation, Recipe};
#[allow(unused_imports)]
use crate::investigation::recipe::{output_kind_of, RecipeModel};
use crate::investigation::records::{ArtifactKind, ArtifactRef, EngineIdentity, MAX_OBJECT_BYTES};
#[allow(unused_imports)]
use crate::investigation::records::{EngineModel, RefModel};
use crate::json::Value;
#[allow(unused_imports)]
use crate::json::{field, integer_of, number_of, Json};
#[allow(unused_imports)]
use crate::model::checked;
use crate::number::Number;
#[allow(unused_imports)]
use crate::number::NumberModel;
use crate::render::Fields;
use crate::text;
#[allow(unused_imports)]
use crate::text::{debug_text, decimal_text};

use super::document::Workspace;
#[allow(unused_imports)]
use super::document::WorkspaceModel;
use super::snapshot::{copy_decisions, copy_texts};
use super::state::same_engine;
#[allow(unused_imports)]
use super::state::borrowed;

verus! {

/// A reference to stored bytes.
pub open spec fn stored_ref(bytes: Seq<u8>, kind: ArtifactKind, format: Seq<char>) -> Result<RefModel, Fault> {
    if bytes.len() > MAX_OBJECT_BYTES {
        Err(
            settings_fault(
                "artifact has "@ + decimal_text(bytes.len())
                    + " bytes, exceeding the 67108864-byte limit"@,
            ),
        )
    } else {
        Ok(
            RefModel {
                sha256: digest_text(bytes),
                bytes: bytes.len() as usize,
                kind,
                format,
            },
        )
    }
}

/// Makes a reference to bytes that are stored under their digest.
pub fn reference(bytes: &[u8], kind: ArtifactKind, format: &str) -> (r: Result<ArtifactRef, Error>)
    ensures
        outcome(r) == stored_ref(bytes@, kind, format@),
{
    if bytes.len() > MAX_OBJECT_BYTES {
        return Err(
            invalid_settings(
                text::cat3(
                    "artifact has ",
                    text::decimal(bytes.len() as u64).as_str(),
                    " bytes, exceeding the 67108864-byte limit",
                ),
            ),
        );
    }
    Ok(
        ArtifactRef {
            sha256: artifact_digest(bytes),
            bytes: bytes.len(),
            kind,
            format: format.to_owned(),
        },
    )
}

/// What is wrong with bytes that were read for a digest.
pub open spec fn content_fault(bytes: Seq<u8>, digest: Seq<char>) -> Option<Fault> {
    if bytes.len() > MAX_OBJECT_BYTES {
        Some(
            settings_fault(
                "object "@ + ("sha256:"@ + digest) + " exceeds the 67108864-byte limit"@,
            ),
        )
    } else if digest_text(bytes) != digest {
        Some(
            settings_fault(
                "object "@ + ("sha256:"@ + digest) + " is corrupt (hashes to "@ + ("sha256:"@
                    + digest_text(bytes)) + "); restore the exact object"@,
            ),
        )
    } else {
        None
    }
}

/// Checks bytes that were read for a digest.
pub fn check_content(bytes: &[u8], digest: &Digest) -> (r: Result<(), Error>)
    ensures
        checked(r) == content_fault(bytes@, digest@),
{
    if bytes.len() > MAX_OBJECT_BYTES {
        return Err(
            invalid_settings(
                text::cat3(
                    "object ",
                    digest.prefixed().as_str(),
                    " exceeds the 67108864-byte limit",
                ),
            ),
        );
    }
    let actual: Digest = artifact_digest(bytes);
    if !text::same(actual.as_str(), digest.as_str()) {
        return Err(
            invalid_settings(
                text::cat5(
                    "object ",
                    digest.prefixed().as_str(),
                    " is corrupt (hashes to ",
                    actual.prefixed().as_str(),
                    "); restore the exact object",
                ),
            ),
        );
    }
    Ok(())
}

/// What is wrong with the length of bytes that were read for a reference.
pub open spec fn length_fault(count: nat, m: RefModel) -> Option<Fault> {
    if count != m.bytes {
        Some(
            settings_fault(
                "object "@ + ("sha256:"@ + m.sha256) + " has "@ + decimal_text(count)
                    + " bytes but reference requires "@ + decimal_text(m.bytes as nat)
                    + "; restore the exact object"@,
            ),
        )
    } else {
        None
    }
}

/// Checks the length of bytes that were read for a reference.
pub fn check_length(bytes: &[u8], reference: &ArtifactRef) -> (r: Result<(), Error>)
    ensures
        checked(r) == length_fault(bytes@.len(), reference@),
{
    if bytes.len() != reference.bytes {
        return Err(
            invalid_settings(
                text::cat7(
                    "object ",
                    reference.sha256.prefixed().as_str(),
                    " has ",
                    text::decimal(bytes.len() as u64).as_str(),
                    " bytes but reference requires ",
                    text::decimal(reference.bytes as u64).as_str(),
                    "; restore the exact object",
                ),
            ),
        );
    }
    Ok(())
}

/// The engine that is running.
pub struct RunningEngine {
    pub binary: Vec<u8>,
    pub capabilities: Vec<u8>,
    pub target: String,
    pub profile: String,
}

/// What is wrong with the engine that is running, for a pinned one.
pub open spec fn engine_fault(
    pinned: EngineModel,
    binary: Seq<u8>,
    capabilities: Seq<u8>,
    target: Seq<char>,
    profile: Seq<char>,
) -> Option<Fault> {
    if digest_text(binary) != pinned.binary.sha256 || binary.len() != pinned.binary.bytes || target
        != pinned.target || profile != pinned.profile {
        Some(
            settings_fault(
                "running engine does not match recipe pin (need binary "@ + ("sha256:"@
                    + pinned.binary.sha256) + ", target "@ + pinned.target + ", profile "@
                    + pinned.profile + "); obtain and explicitly run the pinned engine"@,
            ),
        )
    } else if digest_text(capabilities) != pinned.capabilities.sha256 {
        Some(
            settings_fault(
                "running engine capabilities do not match pinned "@ + ("sha256:"@
                    + pinned.capabilities.sha256) + "; run the exact pinned binary"@,
            ),
        )
    } else {
        None
    }
}

/// Checks that the engine that is running is the pinned one.
pub fn check_engine(pinned: &EngineIdentity, running: &RunningEngine) -> (r: Result<(), Error>)
    ensures
        checked(r) == engine_fault(
            pinned@,
            running.binary@,
            running.capabilities@,
            running.target@,
            running.profile@,
        ),
{
    let binary: Digest = artifact_digest(running.binary.as_slice());
    if !text::same(binary.as_str(), pinned.binary.sha256.as_str()) || running.binary.len()
        != pinned.binary.bytes || !text::same(running.target.as_str(), pinned.target.as_str())
        || !text::same(running.profile.as_str(), pinned.profile.as_str()) {
        return Err(
            invalid_settings(
                text::cat7(
                    "running engine does not match recipe pin (need binary ",
                    pinned.binary.sha256.prefixed().as_str(),
                    ", target ",
                    pinned.target.as_str(),
                    ", profile ",
                    pinned.profile.as_str(),
                    "); obtain and explicitly run the pinned engine",
                ),
            ),
        );
    }
    let capabilities: Digest = artifact_digest(running.capabilities.as_slice());
    if !text::same(capabilities.as_str(), pinned.capabilities.sha256.as_str()) {
        return Err(
            invalid_settings(
                text::cat3(
                    "running engine capabilities do not match pinned ",
                    pinned.capabilities.sha256.prefixed().as_str(),
                    "; run the exact pinned binary",
                ),
            ),
        );
    }
    Ok(())
}

/// The format of what an operation gives.
pub open spec fn output_format(operation: Operation) -> Seq<char> {
    match operation {
        Operation::Inspect => "inspection-v0-provisional"@,
        Operation::Sample => "draws-v0-provisional-ndjson"@,
        Operation::Diagnose => "diagnostics-v0-provisional"@,
        Operation::PosteriorCheck => "posterior-check-v0-provisional"@,
    }
}

/// The kind and the format of what an operation gives.
pub fn output_description(operation: Operation) -> (r: (ArtifactKind, &'static str))
    ensures
        r.0 == output_kind_of(operation),
        r.1@ == output_format(operation),
{
    let format: &'static str = match operation {
        Operation::Inspect => "inspection-v0-provisional",
        Operation::Sample => "draws-v0-provisional-ndjson",
        Operation::Diagnose => "diagnostics-v0-provisional",
        Operation::PosteriorCheck => "posterior-check-v0-provisional",
    };
    (operation.output_kind(), format)
}

/// How a sample recipe samples.
#[derive(Debug)]
pub struct SamplePlan {
    pub chains: u64,
    pub num_warmup: usize,
    pub num_draws: usize,
    pub max_treedepth: usize,
    pub target_accept: Number,
    pub initial_step_size: Number,
    pub seed: u64,
}

/// The mathematical content of a [`SamplePlan`].
#[verifier::ext_equal]
pub struct PlanModel {
    pub chains: u64,
    pub num_warmup: usize,
    pub num_draws: usize,
    pub max_treedepth: usize,
    pub target_accept: NumberModel,
    pub initial_step_size: NumberModel,
    pub seed: u64,
}

impl View for SamplePlan {
    type V = PlanModel;

    open spec fn view(&self) -> PlanModel {
        PlanModel {
            chains: self.chains,
            num_warmup: self.num_warmup,
            num_draws: self.num_draws,
            max_treedepth: self.max_treedepth,
            target_accept: self.target_accept@,
            initial_step_size: self.initial_step_size@,
            seed: self.seed,
        }
    }
}

/// An integer setting of a resolved recipe.
pub open spec fn resolved_int(settings: Json, name: Seq<char>) -> Result<i64, Fault> {
    match integer_of(field(settings, name)) {
        Some(n) => Ok(n),
        None => Err(
            settings_fault("resolved recipe setting "@ + name + " must be an integer"@),
        ),
    }
}

/// The view of an integer that may be missing.
pub open spec fn int_outcome(r: Result<i64, Error>) -> Result<i64, Fault> {
    match r {
        Ok(n) => Ok(n),
        Err(error) => Err(error@),
    }
}

fn setting_i64(settings: &Value, name: &str) -> (r: Result<i64, Error>)
    ensures
        int_outcome(r) == resolved_int(settings@, name@),
{
    if let Some(value) = settings.get(name) {
        if let Some(n) = value.as_i64() {
            return Ok(n);
        }
    }
    Err(
        invalid_settings(
            text::cat3("resolved recipe setting ", name, " must be an integer"),
        ),
    )
}

/// A number setting of a resolved recipe.
pub open spec fn resolved_number(settings: Json, name: Seq<char>) -> Result<NumberModel, Fault> {
    match number_of(field(settings, name)) {
        Some(n) => Ok(n),
        None => Err(settings_fault(name + " must be a number"@)),
    }
}

fn setting_number(settings: &Value, name: &str) -> (r: Result<Number, Error>)
    ensures
        outcome(r) == resolved_number(settings@, name@),
{
    if let Some(value) = settings.get(name) {
        if let Some(n) = value.as_f64() {
            return Ok(n);
        }
    }
    Err(invalid_settings(text::cat2(name, " must be a number")))
}

/// What a plan without its seed comes to, held to what an investigation may sample.
pub open spec fn bounded_plan(settings: Json, plan: PlanModel) -> Result<PlanModel, Fault> {
    if plan.chains > 8 || plan.num_warmup > 10_000 || plan.num_draws > 10_000 {
        Err(
            settings_fault(
                "investigation sampling is bounded to 8 chains and 10000 warmup/draws per chain"@,
            ),
        )
    } else {
        match resolved_int(settings, "seed"@) {
            Err(fault) => Err(fault),
            Ok(seed) => Ok(PlanModel { seed: seed as u64, ..plan }),
        }
    }
}

/// How the settings of a sample recipe ask to sample.
pub open spec fn planned(settings: Json) -> Result<PlanModel, Fault> {
    match resolved_int(settings, "chains"@) {
        Err(fault) => Err(fault),
        Ok(chains) => match resolved_int(settings, "warmup"@) {
            Err(fault) => Err(fault),
            Ok(warmup) => match resolved_int(settings, "draws"@) {
                Err(fault) => Err(fault),
                Ok(draws) => match resolved_int(settings, "max_treedepth"@) {
                    Err(fault) => Err(fault),
                    Ok(depth) => match resolved_number(settings, "target_accept"@) {
                        Err(fault) => Err(fault),
                        Ok(target_accept) => match resolved_number(
                            settings,
                            "initial_step_size"@,
                        ) {
                            Err(fault) => Err(fault),
                            Ok(initial_step_size) => bounded_plan(
                                settings,
                                PlanModel {
                                    chains: chains as u64,
                                    num_warmup: warmup as usize,
                                    num_draws: draws as usize,
                                    max_treedepth: depth as usize,
                                    target_accept,
                                    initial_step_size,
                                    seed: 0,
                                },
                            ),
                        },
                    },
                },
            },
        },
    }
}

/// Reads how a sample recipe samples.
pub fn sample_plan(settings: &Value) -> (r: Result<SamplePlan, Error>)
    ensures
        outcome(r) == planned(settings@),
{
    let chains: u64 = setting_i64(settings, "chains")? as u64;
    let num_warmup: usize = setting_i64(settings, "warmup")? as usize;
    let num_draws: usize = setting_i64(settings, "draws")? as usize;
    let max_treedepth: usize = setting_i64(settings, "max_treedepth")? as usize;
    let target_accept: Number = setting_number(settings, "target_accept")?;
    let initial_step_size: Number = setting_number(settings, "initial_step_size")?;
    if chains > 8 || num_warmup > 10_000 || num_draws > 10_000 {
        return Err(
            invalid_settings(
                "investigation sampling is bounded to 8 chains and 10000 warmup/draws per chain".to_owned(),
            ),
        );
    }
    let seed: u64 = setting_i64(settings, "seed")? as u64;
    Ok(
        SamplePlan {
            chains,
            num_warmup,
            num_draws,
            max_treedepth,
            target_accept,
            initial_step_size,
            seed,
        },
    )
}

/// Reads the seed of a posterior check.
pub fn check_seed(settings: &Value) -> (r: Result<i64, Error>)
    ensures
        int_outcome(r) == resolved_int(settings@, "seed"@),
{
    setting_i64(settings, "seed")
}

/// The workspace that continues a snapshot from a decision.
pub open spec fn forked(m: ManifestModel, at: Seq<char>, snapshot: Seq<char>, manifest: RefModel) -> Result<
    WorkspaceModel,
    Fault,
> {
    if decision_from(m.decisions, at, 0) is None {
        Err(
            settings_fault(
                "source snapshot has no decision "@ + debug_text(at)
                    + "; choose an exact recorded decision id"@,
            ),
        )
    } else if m.recipes.len() == 0 {
        Err(
            settings_fault("source snapshot has no pinned recipe engine to continue with"@),
        )
    } else {
        Ok(
            WorkspaceModel {
                question: m.question,
                estimand_description: m.estimand_description,
                estimand_parameter: m.estimand_parameter,
                source: Some(SourceModel { snapshot_id: snapshot, manifest, decision: at }),
                engine: m.recipes[0].engine,
                decisions: m.decisions,
                recipes: Seq::empty(),
                attempts: Seq::empty(),
                selections: Seq::empty(),
                interpretation:
                    "Continuation is incomplete; no new scientific result has been computed."@,
                unresolved_questions: m.unresolved_questions,
            },
        )
    }
}

/// Makes the workspace that continues a snapshot from a decision.
pub fn fork_workspace(manifest: &Manifest, at: &str, snapshot_id: &Digest, source_manifest: &ArtifactRef) -> (r:
    Result<Workspace, Error>)
    ensures
        outcome(r) == forked(manifest@, at@, snapshot_id@, source_manifest@),
{
    let ghost m = manifest@;
    if manifest.decision(at).is_none() {
        return Err(
            invalid_settings(
                text::cat3(
                    "source snapshot has no decision ",
                    text::quoted(at).as_str(),
                    "; choose an exact recorded decision id",
                ),
            ),
        );
    }
    assert(m.recipes.len() == manifest.recipes@.len());
    if manifest.recipes.len() == 0 {
        return Err(
            invalid_settings(
                "source snapshot has no pinned recipe engine to continue with".to_owned(),
            ),
        );
    }
    assert(m.recipes[0] == manifest.recipes@[0]@);
    let workspace: Workspace = Workspace {
        question: manifest.question.clone(),
        estimand_description: manifest.estimand_description.clone(),
        estimand_parameter: manifest.estimand_parameter.clone(),
        source: Some(
            Source {
                snapshot_id: snapshot_id.copy(),
                manifest: source_manifest.copy(),
                decision: at.to_owned(),
            },
        ),
        engine: manifest.recipes[0].engine.copy(),
        decisions: copy_decisions(&manifest.decisions),
        recipes: Vec::new(),
        attempts: Vec::new(),
        selections: Vec::new(),
        interpretation:
            "Continuation is incomplete; no new scientific result has been computed.".to_owned(),
        unresolved_questions: copy_texts(&manifest.unresolved_questions),
    };
    assert(views(workspace.recipes@) =~= Seq::empty());
    assert(views(workspace.attempts@) =~= Seq::empty());
    assert(views(workspace.selections@) =~= Seq::empty());
    Ok(workspace)
}

/// The recipe that a replay runs.
pub open spec fn recipe_to_replay(m: ManifestModel, id: Seq<char>) -> Result<RecipeModel, Fault> {
    match recipe_named(m.recipes, id) {
        Some(recipe) => Ok(recipe),
        None => Err(settings_fault("snapshot has no recipe "@ + debug_text(id))),
    }
}

/// Finds the recipe that a replay runs.
pub fn find_replay<'a>(manifest: &'a Manifest, id: &str) -> (r: Result<&'a Recipe, Error>)
    ensures
        match r {
            Ok(recipe) => recipe_to_replay(manifest@, id@) == Ok::<RecipeModel, Fault>(recipe@),
            Err(error) => recipe_to_replay(manifest@, id@) == Err::<RecipeModel, Fault>(error@),
        },
{
    match find_recipe(&manifest.recipes, id) {
        Some(recipe) => Ok(recipe),
        None => Err(
            invalid_settings(
                text::cat2("snapshot has no recipe ", text::quoted(id).as_str()),
            ),
        ),
    }
}

/// The recorded result of a recipe, from an execution on.
pub open spec fn recorded_from(executions: Seq<ExecutionModel>, sha256: Seq<char>, i: int) -> Option<
    RefModel,
>
    decreases executions.len() - i,
{
    if i < 0 || i >= executions.len() {
        None
    } else if executions[i].recipe_sha256 == sha256 && executions[i].outcome == Outcome::Completed {
        executions[i].output
    } else {
        recorded_from(executions, sha256, i + 1)
    }
}

fn find_recorded<'a>(executions: &'a Vec<Execution>, sha256: &str) -> (r: Option<&'a ArtifactRef>)
    ensures
        borrowed(r) == recorded_from(views(executions@), sha256@, 0),
{
    let ghost all = views(executions@);
    let mut i: usize = 0;
    while i < executions.len()
        invariant
            i <= executions.len(),
            all == views(executions@),
            recorded_from(all, sha256@, 0) == recorded_from(all, sha256@, i as int),
        decreases executions.len() - i,
    {
        assert(all[i as int] == executions@[i as int]@);
        if text::same(executions[i].recipe_sha256.as_str(), sha256) && executions[i].outcome
            == Outcome::Completed {
            return match &executions[i].output {
                Some(output) => Some(output),
                None => None,
            };
        }
        i += 1;
    }
    None
}

/// A digest with its scheme, as JSON.
pub open spec fn digest_json(sha256: Seq<char>) -> Json {
    Json::Str("sha256:"@ + sha256)
}

/// The fields of the report on a replay.
pub open spec fn replay_entries(
    snapshot: Seq<char>,
    recipe: RecipeModel,
    output: Seq<char>,
    expected: Option<RefModel>,
) -> Seq<(Seq<char>, Json)> {
    seq![
        ("replay_format"@, Json::Str("v0-provisional"@)),
        ("source_snapshot_id"@, digest_json(snapshot)),
        ("input_integrity"@, Json::Str("verified"@)),
        ("engine_match"@, Json::Bool(true)),
        ("execution_outcome"@, Json::Str("completed"@)),
        ("recipe"@, Json::Str(recipe.id)),
        ("recipe_sha256"@, digest_json(recipe.sha256)),
        ("output_sha256"@, digest_json(output)),
        (
            "expected_output_sha256"@,
            match expected {
                Some(known) => digest_json(known.sha256),
                None => Json::Null,
            },
        ),
        (
            "exact_output_bytes_agree"@,
            match expected {
                Some(known) => Json::Bool(known.sha256 == output),
                None => Json::Null,
            },
        ),
        ("cross_target_numerical_comparison"@, Json::Str("unsupported"@)),
    ]
}

/// The report on a replay whose output was stored.
pub fn replay_report(manifest: &Manifest, snapshot_id: &Digest, recipe: &Recipe, output: &ArtifactRef) -> (r:
    Value)
    ensures
        r@ == Json::Object(
            replay_entries(
                snapshot_id@,
                recipe@,
                output@.sha256,
                recorded_from(manifest@.executions, recipe@.sha256, 0),
            ),
        ),
{
    let expected: Option<&ArtifactRef> = find_recorded(
        &manifest.executions,
        recipe.sha256.as_str(),
    );
    let mut out: Fields = Fields::new();
    out.put_text("replay_format", "v0-provisional");
    out.put_text("source_snapshot_id", snapshot_id.prefixed().as_str());
    out.put_text("input_integrity", "verified");
    out.put_bool("engine_match", true);
    out.put_text("execution_outcome", "completed");
    out.put_text("recipe", recipe.id.as_str());
    out.put_text("recipe_sha256", recipe.sha256.prefixed().as_str());
    out.put_text("output_sha256", output.sha256.prefixed().as_str());
    match expected {
        Some(known) => {
            out.put_text("expected_output_sha256", known.sha256.prefixed().as_str());
            out.put_bool(
                "exact_output_bytes_agree",
                text::same(known.sha256.as_str(), output.sha256.as_str()),
            );
        },
        None => {
            out.put("expected_output_sha256", Value::Null);
            out.put("exact_output_bytes_agree", Value::Null);
        },
    }
    out.put_text("cross_target_numerical_comparison", "unsupported");
    assert(out@ == replay_entries(
        snapshot_id@,
        recipe@,
        output@.sha256,
        recorded_from(manifest@.executions, recipe@.sha256, 0),
    ));
    out.done()
}

/// Whether every recipe uses one engine.
pub open spec fn one_engine(recipes: Seq<RecipeModel>) -> bool {
    forall|k: int| 0 <= k < recipes.len() ==> (#[trigger] recipes[k]).engine == recipes[0].engine
}

/// The engine that an export carries.
pub open spec fn engine_to_export(m: ManifestModel) -> Result<EngineModel, Fault> {
    if m.recipes.len() == 0 {
        Err(settings_fault("investigation export needs at least one recipe"@))
    } else if !one_engine(m.recipes) {
        Err(
            settings_fault(
                "viewer export currently requires every recipe to use one pinned engine"@,
            ),
        )
    } else {
        Ok(m.recipes[0].engine)
    }
}

/// Finds the engine that an export carries.
pub fn export_engine<'a>(manifest: &'a Manifest) -> (r: Result<&'a EngineIdentity, Error>)
    ensures
        match r {
            Ok(engine) => engine_to_export(manifest@) == Ok::<EngineModel, Fault>(engine@),
            Err(error) => engine_to_export(manifest@) == Err::<EngineModel, Fault>(error@),
        },
{
    let ghost recipes = manifest@.recipes;
    assert(recipes.len() == manifest.recipes@.len());
    if manifest.recipes.len() == 0 {
        return Err(
            invalid_settings("investigation export needs at least one recipe".to_owned()),
        );
    }
    let engine: &EngineIdentity = &manifest.recipes[0].engine;
    assert(recipes[0] == manifest.recipes@[0]@);
    let mut k: usize = 0;
    while k < manifest.recipes.len()
        invariant
            k <= manifest.recipes.len(),
            recipes == manifest@.recipes,
            recipes.len() == manifest.recipes@.len(),
            recipes.len() > 0,
            engine@ == recipes[0].engine,
            forall|j: int| 0 <= j < k ==> (#[trigger] recipes[j]).engine == recipes[0].engine,
        decreases manifest.recipes.len() - k,
    {
        assert(recipes[k as int] == manifest.recipes@[k as int]@);
        if !same_engine(&manifest.recipes[k].engine, engine) {
            return Err(
                invalid_settings(
                    "viewer export currently requires every recipe to use one pinned engine".to_owned(),
                ),
            );
        }
        k += 1;
    }
    Ok(engine)
}

/// The fields of the engine of an export.
pub open spec fn exported_engine(engine: EngineModel) -> Seq<(Seq<char>, Json)> {
    seq![
        ("target"@, Json::Str(engine.target)),
        ("profile"@, Json::Str(engine.profile)),
        ("sha256"@, Json::Str(engine.binary.sha256)),
        ("bytes"@, Json::Int(engine.binary.bytes as i64)),
        ("download"@, Json::Str("downloads/bayesite-engine"@)),
    ]
}

/// The fields of a file of the viewer.
pub open spec fn asset_entries(bytes: Seq<u8>) -> Seq<(Seq<char>, Json)> {
    seq![
        ("sha256"@, Json::Str(digest_text(bytes))),
        ("bytes"@, Json::Int(bytes.len() as i64)),
    ]
}

/// The content of named files.
pub open spec fn asset_views(assets: Seq<(String, Vec<u8>)>) -> Seq<(Seq<char>, Seq<u8>)> {
    assets.map_values(|asset: (String, Vec<u8>)| (asset.0@, asset.1@))
}

/// The fields of the files of the viewer.
pub open spec fn assets_entries(assets: Seq<(Seq<char>, Seq<u8>)>) -> Seq<(Seq<char>, Json)> {
    assets.map_values(
        |asset: (Seq<char>, Seq<u8>)| (asset.0, Json::Object(asset_entries(asset.1))),
    )
}

/// What a publication says that its viewer verifies.
pub const VERIFICATION_SCOPE: &'static str = "The viewer verifies manifest identity and displayed object bytes when WebCrypto is available; use the bundled engine for full recursive CLI verification.";

/// The file in which a bundle keeps a document.
pub open spec fn document_file(document: Seq<char>) -> Seq<char> {
    document + ".json"@
}

/// The name of the file in which a bundle keeps a document.
pub fn document_name(document: &str) -> (r: String)
    ensures
        r@ == document_file(document@),
{
    text::cat2(document, ".json")
}

/// The fields of the entry point of a publication.
pub open spec fn publication_entries(
    snapshot: Seq<char>,
    engine: EngineModel,
    assets: Seq<(Seq<char>, Seq<u8>)>,
) -> Seq<(Seq<char>, Json)> {
    seq![
        ("publication_format"@, Json::Str("v0-provisional"@)),
        ("snapshot_id"@, digest_json(snapshot)),
        ("manifest"@, Json::Str("bundle/"@ + document_file("manifest"@))),
        ("public_data_confirmed"@, Json::Bool(true)),
        ("engine"@, Json::Object(exported_engine(engine))),
        ("viewer_assets"@, Json::Object(assets_entries(assets))),
        ("verification_scope"@, Json::Str(VERIFICATION_SCOPE@)),
    ]
}

fn asset_value(bytes: &Vec<u8>) -> (r: Value)
    ensures
        r@ == Json::Object(asset_entries(bytes@)),
{
    let mut out: Fields = Fields::new();
    out.put_text("sha256", artifact_digest(bytes.as_slice()).as_str());
    out.put_int("bytes", bytes.len() as i64);
    assert(out@ == asset_entries(bytes@));
    out.done()
}

/// The entry point of a publication.
pub fn publication_value(
    snapshot_id: &Digest,
    engine: &EngineIdentity,
    assets: &Vec<(String, Vec<u8>)>,
) -> (r: Value)
    ensures
        r@ == Json::Object(
            publication_entries(snapshot_id@, engine@, asset_views(assets@)),
        ),
{
    let ghost files = asset_views(assets@);
    let ghost wanted = assets_entries(files);
    let mut listed: Fields = Fields::new();
    assert(listed@ =~= wanted.take(0));
    let mut i: usize = 0;
    while i < assets.len()
        invariant
            i <= assets.len(),
            files == asset_views(assets@),
            wanted == assets_entries(files),
            listed@ == wanted.take(i as int),
        decreases assets.len() - i,
    {
        assert(files[i as int] == (assets@[i as int].0@, assets@[i as int].1@));
        listed.put(assets[i].0.as_str(), asset_value(&assets[i].1));
        assert(wanted.take(i + 1) =~= wanted.take(i as int).push(wanted[i as int]));
        i += 1;
    }
    assert(wanted.take(i as int) =~= wanted);
    let mut carried: Fields = Fields::new();
    carried.put_text("target", engine.target.as_str());
    carried.put_text("profile", engine.profile.as_str());
    carried.put_text("sha256", engine.binary.sha256.as_str());
    carried.put_int("bytes", engine.binary.bytes as i64);
    carried.put_text("download", "downloads/bayesite-engine");
    assert(carried@ == exported_engine(engine@));
    let mut out: Fields = Fields::new();
    out.put_text("publication_format", "v0-provisional");
    out.put_text("snapshot_id", snapshot_id.prefixed().as_str());
    let manifest: String = document_name("manifest");
    out.put_text("manifest", text::cat2("bundle/", manifest.as_str()).as_str());
    out.put_bool("public_data_confirmed", true);
    out.put("engine", carried.done());
    out.put("viewer_assets", listed.done());
    out.put_text("verification_scope", VERIFICATION_SCOPE);
    assert(out@ == publication_entries(snapshot_id@, engine@, files));
    out.done()
}

/// A fork begins with no result of its own: nothing is configured, tried or selected, and it says
/// which decision of which snapshot it continues.
pub proof fn law_fork_begins_without_results(
    m: ManifestModel,
    at: Seq<char>,
    snapshot: Seq<char>,
    manifest: RefModel,
)
    requires
        forked(m, at, snapshot, manifest) is Ok,
    ensures
        ({
            let w = forked(m, at, snapshot, manifest)->Ok_0;
            &&& w.recipes.len() == 0
            &&& w.attempts.len() == 0
            &&& w.selections.len() == 0
            &&& w.decisions == m.decisions
            &&& w.source == Some(
                SourceModel { snapshot_id: snapshot, manifest, decision: at },
            )
            &&& decision_from(m.decisions, at, 0) is Some
        }),
{
}

} // verus!
