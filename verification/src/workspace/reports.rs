//! The reports of the commands on investigations.

use vstd::prelude::*;

use crate::error::Error;
#[allow(unused_imports)]
use crate::error::{outcome, Fault};
use crate::investigation::identity::Digest;
use crate::investigation::ledger::EvidenceSelection;
#[allow(unused_imports)]
use crate::investigation::ledger::{views, EvidenceModel};
use crate::investigation::recipe::Recipe;
#[allow(unused_imports)]
use crate::investigation::recipe::{operation_text, RecipeModel};
use crate::investigation::records::ArtifactRef;
#[allow(unused_imports)]
use crate::investigation::records::RefModel;
use crate::json::Value;
#[allow(unused_imports)]
use crate::json::{group_json_views, items_view, Json};
use crate::render::Fields;

use super::document::{estimand_value, optional_source_value, Workspace};
#[allow(unused_imports)]
use super::document::{estimand_json, optional_source_json, WorkspaceModel};
use super::record::{ConfiguredRecipe, Selection};
#[allow(unused_imports)]
use super::record::{ConfiguredModel, SelectionModel};
use super::state::{current_sample, is_selection_current, resolve_recipe};
#[allow(unused_imports)]
use super::state::{borrowed, resolved, sample_now, selection_current};
#[allow(unused_imports)]
use super::transfer::digest_json;

verus! {

/// The fields of a configured recipe in an inspection.
pub open spec fn readiness_entries(config: ConfiguredModel, recipe: Result<RecipeModel, Fault>) -> Seq<
    (Seq<char>, Json),
> {
    match recipe {
        Ok(found) => seq![
            ("id"@, Json::Str(config.id)),
            ("operation"@, Json::Str(operation_text(config.operation))),
            ("state"@, Json::Str("ready"@)),
            ("recipe_sha256"@, digest_json(found.sha256)),
        ],
        Err(fault) => seq![
            ("id"@, Json::Str(config.id)),
            ("operation"@, Json::Str(operation_text(config.operation))),
            ("state"@, Json::Str("blocked"@)),
            ("message"@, Json::Str(fault.message)),
        ],
    }
}

fn readiness_value(config: &ConfiguredRecipe, recipe: Result<Recipe, Error>) -> (r: Value)
    ensures
        r@ == Json::Object(readiness_entries(config@, outcome(recipe))),
{
    let ghost found = outcome(recipe);
    let mut out: Fields = Fields::new();
    out.put_text("id", config.id.as_str());
    out.put_text("operation", config.operation.as_str());
    match recipe {
        Ok(ready) => {
            out.put_text("state", "ready");
            out.put_text("recipe_sha256", ready.sha256.prefixed().as_str());
        },
        Err(error) => {
            out.put_text("state", "blocked");
            out.put_text("message", error.message.as_str());
        },
    }
    assert(out@ == readiness_entries(config@, found));
    out.done()
}

/// The fields of evidence in an inspection.
pub open spec fn standing_entries(
    name: Seq<char>,
    execution: Seq<char>,
    status: Seq<char>,
    origin: Seq<char>,
) -> Seq<(Seq<char>, Json)> {
    seq![
        ("name"@, Json::Str(name)),
        ("execution"@, Json::Str(execution)),
        ("status"@, Json::Str(status)),
        ("origin"@, Json::Str(origin)),
    ]
}

fn standing_value(name: &str, execution: &str, status: &str, origin: &str) -> (r: Value)
    ensures
        r@ == Json::Object(standing_entries(name@, execution@, status@, origin@)),
{
    let mut out: Fields = Fields::new();
    out.put_text("name", name);
    out.put_text("execution", execution);
    out.put_text("status", status);
    out.put_text("origin", origin);
    assert(out@ == standing_entries(name@, execution@, status@, origin@));
    out.done()
}

/// Evidence that a source snapshot hands on: it is historical.
pub open spec fn inherited_json(evidence: Seq<EvidenceModel>) -> Seq<Json> {
    evidence.map_values(
        |e: EvidenceModel|
            Json::Object(
                standing_entries(e.name, e.execution, "historical"@, "source_snapshot"@),
            ),
    )
}

/// The evidence of a workspace itself.
pub open spec fn own_json(w: WorkspaceModel, model: RefModel, data: RefModel) -> Seq<Json> {
    w.selections.map_values(
        |s: SelectionModel|
            Json::Object(
                standing_entries(
                    s.name,
                    s.execution,
                    if selection_current(w, s, model, data) {
                        "current"@
                    } else {
                        "historical"@
                    },
                    "workspace"@,
                ),
            ),
    )
}

/// The recipes of a workspace in an inspection.
pub open spec fn recipes_json(w: WorkspaceModel, model: RefModel, data: RefModel) -> Seq<Json> {
    w.recipes.map_values(
        |c: ConfiguredModel|
            Json::Object(readiness_entries(c, resolved(w, c, model, data))),
    )
}

/// The fields of an inspection.
pub open spec fn inspection_entries(
    w: WorkspaceModel,
    model: RefModel,
    data: RefModel,
    fit: Option<RefModel>,
    inherited: Seq<EvidenceModel>,
) -> Seq<(Seq<char>, Json)> {
    seq![
        ("workspace_inspection_format"@, Json::Str("v0-provisional"@)),
        ("question"@, Json::Str(w.question)),
        ("estimand"@, estimand_json(w.estimand_description, w.estimand_parameter)),
        ("model_sha256"@, digest_json(model.sha256)),
        ("data_sha256"@, digest_json(data.sha256)),
        (
            "current_fit_sha256"@,
            match fit {
                Some(found) => digest_json(found.sha256),
                None => Json::Null,
            },
        ),
        ("recipes"@, Json::Array(recipes_json(w, model, data))),
        ("evidence"@, Json::Array(inherited_json(inherited) + own_json(w, model, data))),
        ("source"@, optional_source_json(w.source)),
    ]
}

/// The inspection of a workspace.
pub open spec fn inspected(
    w: WorkspaceModel,
    model: RefModel,
    data: RefModel,
    inherited: Seq<EvidenceModel>,
) -> Result<Json, Fault> {
    match sample_now(w, model, data) {
        Err(fault) => Err(fault),
        Ok(fit) => Ok(Json::Object(inspection_entries(w, model, data, fit, inherited))),
    }
}

fn list_recipes(workspace: &Workspace, model: &ArtifactRef, data: &ArtifactRef) -> (r: Vec<Value>)
    ensures
        items_view(r@) == recipes_json(workspace@, model@, data@),
{
    broadcast use group_json_views;

    let ghost w = workspace@;
    let mut out: Vec<Value> = Vec::new();
    let mut i: usize = 0;
    while i < workspace.recipes.len()
        invariant
            i <= workspace.recipes.len(),
            w == workspace@,
            out.len() == i,
            forall|k: int|
                0 <= k < i ==> (#[trigger] out@[k])@ == Json::Object(
                    readiness_entries(
                        w.recipes[k],
                        resolved(w, w.recipes[k], model@, data@),
                    ),
                ),
        decreases workspace.recipes.len() - i,
    {
        let config: &ConfiguredRecipe = &workspace.recipes[i];
        assert(w.recipes[i as int] == config@);
        let recipe: Result<Recipe, Error> = resolve_recipe(workspace, config, model, data);
        out.push(readiness_value(config, recipe));
        i += 1;
    }
    assert(items_view(out@) =~= recipes_json(w, model@, data@));
    out
}

fn list_evidence(
    workspace: &Workspace,
    model: &ArtifactRef,
    data: &ArtifactRef,
    inherited: &Vec<EvidenceSelection>,
) -> (r: Vec<Value>)
    ensures
        items_view(r@) == inherited_json(views(inherited@)) + own_json(
            workspace@,
            model@,
            data@,
        ),
{
    broadcast use group_json_views;

    let ghost w = workspace@;
    let ghost handed = views(inherited@);
    let ghost first = inherited_json(handed);
    let mut out: Vec<Value> = Vec::new();
    let mut i: usize = 0;
    while i < inherited.len()
        invariant
            i <= inherited.len(),
            handed == views(inherited@),
            first == inherited_json(handed),
            out.len() == i,
            forall|k: int| 0 <= k < i ==> (#[trigger] out@[k])@ == first[k],
        decreases inherited.len() - i,
    {
        assert(handed[i as int] == inherited@[i as int]@);
        out.push(
            standing_value(
                inherited[i].name.as_str(),
                inherited[i].execution.as_str(),
                "historical",
                "source_snapshot",
            ),
        );
        i += 1;
    }
    let ghost second = own_json(w, model@, data@);
    let mut j: usize = 0;
    while j < workspace.selections.len()
        invariant
            j <= workspace.selections.len(),
            w == workspace@,
            second == own_json(w, model@, data@),
            first.len() == inherited@.len(),
            out.len() == inherited.len() + j,
            forall|k: int| 0 <= k < inherited.len() ==> (#[trigger] out@[k])@ == first[k],
            forall|k: int|
                inherited.len() <= k < inherited.len() + j ==> (#[trigger] out@[k])@
                    == second[k - inherited.len()],
        decreases workspace.selections.len() - j,
    {
        let selection: &Selection = &workspace.selections[j];
        assert(w.selections[j as int] == selection@);
        let status: &str = if is_selection_current(workspace, selection, model, data) {
            "current"
        } else {
            "historical"
        };
        out.push(
            standing_value(
                selection.name.as_str(),
                selection.execution.as_str(),
                status,
                "workspace",
            ),
        );
        j += 1;
    }
    assert(items_view(out@) =~= first + second);
    out
}

/// Inspects a workspace on its current inputs: what can run, and what evidence stands.
pub fn workspace_inspection(
    workspace: &Workspace,
    model: &ArtifactRef,
    data: &ArtifactRef,
    inherited: &Vec<EvidenceSelection>,
) -> (r: Result<Value, Error>)
    ensures
        outcome(r) == inspected(workspace@, model@, data@, views(inherited@)),
{
    let fit: Option<&ArtifactRef> = current_sample(workspace, model, data)?;
    let ghost w = workspace@;
    let recipes: Vec<Value> = list_recipes(workspace, model, data);
    let evidence: Vec<Value> = list_evidence(workspace, model, data, inherited);
    let mut out: Fields = Fields::new();
    out.put_text("workspace_inspection_format", "v0-provisional");
    out.put_text("question", workspace.question.as_str());
    out.put(
        "estimand",
        estimand_value(
            workspace.estimand_description.as_str(),
            workspace.estimand_parameter.as_str(),
        ),
    );
    out.put_text("model_sha256", model.sha256.prefixed().as_str());
    out.put_text("data_sha256", data.sha256.prefixed().as_str());
    match fit {
        Some(found) => out.put_text("current_fit_sha256", found.sha256.prefixed().as_str()),
        None => out.put("current_fit_sha256", Value::Null),
    }
    out.put("recipes", Value::Array(recipes));
    out.put("evidence", Value::Array(evidence));
    out.put("source", optional_source_value(&workspace.source));
    assert(out@ == inspection_entries(w, model@, data@, borrowed(fit), views(inherited@)));
    Ok(out.done())
}

/// What a report says of a selection.
pub open spec fn selection_note(selected: bool) -> Seq<char> {
    if selected {
        "first current successful result for this operation was selected"@
    } else {
        "result retained but not selected; edit investigation.json selections explicitly"@
    }
}

/// The fields of the report on a run.
pub open spec fn run_entries(
    recipe: RecipeModel,
    execution: Seq<char>,
    output: RefModel,
    selected: bool,
) -> Seq<(Seq<char>, Json)> {
    seq![
        ("investigation_command"@, Json::Str("run"@)),
        ("recipe"@, Json::Str(recipe.id)),
        ("recipe_sha256"@, digest_json(recipe.sha256)),
        ("execution"@, Json::Str(execution)),
        ("outcome"@, Json::Str("completed"@)),
        ("output_sha256"@, digest_json(output.sha256)),
        ("selected"@, Json::Bool(selected)),
        ("selection_note"@, Json::Str(selection_note(selected))),
    ]
}

/// The report on a run.
pub fn run_report(recipe: &Recipe, execution: &str, output: &ArtifactRef, selected: bool) -> (r: Value)
    ensures
        r@ == Json::Object(run_entries(recipe@, execution@, output@, selected)),
{
    let note: &str = if selected {
        "first current successful result for this operation was selected"
    } else {
        "result retained but not selected; edit investigation.json selections explicitly"
    };
    let mut out: Fields = Fields::new();
    out.put_text("investigation_command", "run");
    out.put_text("recipe", recipe.id.as_str());
    out.put_text("recipe_sha256", recipe.sha256.prefixed().as_str());
    out.put_text("execution", execution);
    out.put_text("outcome", "completed");
    out.put_text("output_sha256", output.sha256.prefixed().as_str());
    out.put_bool("selected", selected);
    out.put_text("selection_note", note);
    assert(out@ == run_entries(recipe@, execution@, output@, selected));
    out.done()
}

/// The fields of the report on a new workspace.
pub open spec fn init_entries(
    workspace: Seq<char>,
    model: RefModel,
    data: RefModel,
    engine: RefModel,
) -> Seq<(Seq<char>, Json)> {
    seq![
        ("investigation_command"@, Json::Str("init"@)),
        ("workspace"@, Json::Str(workspace)),
        ("model_sha256"@, digest_json(model.sha256)),
        ("data_sha256"@, digest_json(data.sha256)),
        ("engine_sha256"@, digest_json(engine.sha256)),
    ]
}

/// The report on a new workspace.
pub fn init_report(workspace: &str, model: &ArtifactRef, data: &ArtifactRef, engine: &ArtifactRef) -> (r: Value)
    ensures
        r@ == Json::Object(init_entries(workspace@, model@, data@, engine@)),
{
    let mut out: Fields = Fields::new();
    out.put_text("investigation_command", "init");
    out.put_text("workspace", workspace);
    out.put_text("model_sha256", model.sha256.prefixed().as_str());
    out.put_text("data_sha256", data.sha256.prefixed().as_str());
    out.put_text("engine_sha256", engine.sha256.prefixed().as_str());
    assert(out@ == init_entries(workspace@, model@, data@, engine@));
    out.done()
}

/// The fields of the report on a snapshot.
pub open spec fn snapshot_entries(
    snapshot: Seq<char>,
    manifest_bytes: usize,
    objects: usize,
    bundle: Seq<char>,
) -> Seq<(Seq<char>, Json)> {
    seq![
        ("investigation_command"@, Json::Str("snapshot"@)),
        ("snapshot_id"@, digest_json(snapshot)),
        ("manifest_bytes"@, Json::Int(manifest_bytes as i64)),
        ("object_count"@, Json::Int(objects as i64)),
        ("bundle"@, Json::Str(bundle)),
    ]
}

/// The report on a snapshot.
pub fn snapshot_report(snapshot_id: &Digest, manifest_bytes: usize, objects: usize, bundle: &str) -> (r: Value)
    ensures
        r@ == Json::Object(snapshot_entries(snapshot_id@, manifest_bytes, objects, bundle@)),
{
    let mut out: Fields = Fields::new();
    out.put_text("investigation_command", "snapshot");
    out.put_text("snapshot_id", snapshot_id.prefixed().as_str());
    out.put_int("manifest_bytes", manifest_bytes as i64);
    out.put_int("object_count", objects as i64);
    out.put_text("bundle", bundle);
    assert(out@ == snapshot_entries(snapshot_id@, manifest_bytes, objects, bundle@));
    out.done()
}

/// The fields of the report on a fork.
pub open spec fn fork_entries(workspace: Seq<char>, snapshot: Seq<char>, at: Seq<char>) -> Seq<
    (Seq<char>, Json),
> {
    seq![
        ("investigation_command"@, Json::Str("fork"@)),
        ("workspace"@, Json::Str(workspace)),
        ("source_snapshot_id"@, digest_json(snapshot)),
        ("branch_decision"@, Json::Str(at)),
        ("inherited_evidence_status"@, Json::Str("historical"@)),
    ]
}

/// The report on a fork.
pub fn fork_report(workspace: &str, snapshot_id: &Digest, at: &str) -> (r: Value)
    ensures
        r@ == Json::Object(fork_entries(workspace@, snapshot_id@, at@)),
{
    let mut out: Fields = Fields::new();
    out.put_text("investigation_command", "fork");
    out.put_text("workspace", workspace);
    out.put_text("source_snapshot_id", snapshot_id.prefixed().as_str());
    out.put_text("branch_decision", at);
    out.put_text("inherited_evidence_status", "historical");
    assert(out@ == fork_entries(workspace@, snapshot_id@, at@));
    out.done()
}

/// The fields of the report on an export.
pub open spec fn export_entries(snapshot: Seq<char>, directory: Seq<char>, engine: RefModel) -> Seq<
    (Seq<char>, Json),
> {
    seq![
        ("investigation_command"@, Json::Str("export"@)),
        ("snapshot_id"@, digest_json(snapshot)),
        ("out"@, Json::Str(directory)),
        ("public_data_confirmed"@, Json::Bool(true)),
        ("engine_sha256"@, digest_json(engine.sha256)),
    ]
}

/// The report on an export.
pub fn export_report(snapshot_id: &Digest, directory: &str, engine: &ArtifactRef) -> (r: Value)
    ensures
        r@ == Json::Object(export_entries(snapshot_id@, directory@, engine@)),
{
    let mut out: Fields = Fields::new();
    out.put_text("investigation_command", "export");
    out.put_text("snapshot_id", snapshot_id.prefixed().as_str());
    out.put_text("out", directory);
    out.put_bool("public_data_confirmed", true);
    out.put_text("engine_sha256", engine.sha256.prefixed().as_str());
    assert(out@ == export_entries(snapshot_id@, directory@, engine@));
    out.done()
}

} // verus!
