//! The snapshot that a workspace stands for.

use vstd::prelude::*;

use crate::error::{invalid_settings, Error};
#[allow(unused_imports)]
use crate::error::{outcome, settings_fault, Fault};
use crate::investigation::identity::Digest;
use crate::investigation::ledger::{Decision, EvidenceSelection, EvidenceStatus, Execution, Outcome, Source};
#[allow(unused_imports)]
use crate::investigation::ledger::{views, EvidenceModel, ExecutionModel};
use crate::investigation::manifest::Manifest;
#[allow(unused_imports)]
use crate::investigation::manifest::{
    manifest_json, manifest_read, optional_source, reads, recipe_named, ManifestModel,
};
use crate::investigation::recipe::Recipe;
#[allow(unused_imports)]
use crate::investigation::recipe::RecipeModel;
use crate::investigation::records::ArtifactRef;
#[allow(unused_imports)]
use crate::investigation::records::RefModel;
use crate::json::Value;
#[allow(unused_imports)]
use crate::json::{json_text, Json};
use crate::text;
#[allow(unused_imports)]
use crate::text::{bytes_of, debug_text};

use super::document::Workspace;
#[allow(unused_imports)]
use super::document::WorkspaceModel;
use super::record::{Attempt, Selection};
#[allow(unused_imports)]
use super::record::{AttemptModel, ConfiguredModel, SelectionModel};
use super::state::{is_selection_current, resolve_recipe};
#[allow(unused_imports)]
use super::state::{begun, resolved, selection_current};

verus! {

pub fn copy_execution(execution: &Execution) -> (r: Execution)
    ensures
        r@ == execution@,
{
    Execution {
        id: execution.id.clone(),
        recipe: execution.recipe.clone(),
        recipe_sha256: execution.recipe_sha256.copy(),
        outcome: execution.outcome,
        output: match &execution.output {
            Some(output) => Some(output.copy()),
            None => None,
        },
        error: match &execution.error {
            Some(message) => Some(message.clone()),
            None => None,
        },
    }
}

pub fn copy_source(source: &Option<Source>) -> (r: Option<Source>)
    ensures
        optional_source(r) == optional_source(*source),
{
    match source {
        Some(found) => Some(
            Source {
                snapshot_id: found.snapshot_id.copy(),
                manifest: found.manifest.copy(),
                decision: found.decision.clone(),
            },
        ),
        None => None,
    }
}

fn copy_decision(decision: &Decision) -> (r: Decision)
    ensures
        r@ == decision@,
{
    let mut cites: Vec<Digest> = Vec::new();
    let mut i: usize = 0;
    while i < decision.cites.len()
        invariant
            i <= decision.cites.len(),
            cites.len() == i,
            forall|k: int| 0 <= k < i ==> (#[trigger] cites@[k])@ == decision.cites@[k]@,
        decreases decision.cites.len() - i,
    {
        cites.push(decision.cites[i].copy());
        i += 1;
    }
    assert(views(cites@) =~= views(decision.cites@));
    Decision {
        id: decision.id.clone(),
        parent: match &decision.parent {
            Some(parent) => Some(parent.clone()),
            None => None,
        },
        reason: decision.reason.clone(),
        cites,
        kind: decision.kind,
        inputs: decision.inputs.copy(),
    }
}

pub fn copy_decisions(decisions: &Vec<Decision>) -> (r: Vec<Decision>)
    ensures
        views(r@) == views(decisions@),
{
    let mut out: Vec<Decision> = Vec::new();
    let mut i: usize = 0;
    while i < decisions.len()
        invariant
            i <= decisions.len(),
            out.len() == i,
            forall|k: int| 0 <= k < i ==> (#[trigger] out@[k])@ == decisions@[k]@,
        decreases decisions.len() - i,
    {
        out.push(copy_decision(&decisions[i]));
        i += 1;
    }
    assert(views(out@) =~= views(decisions@));
    out
}

pub fn copy_texts(texts: &Vec<String>) -> (r: Vec<String>)
    ensures
        views(r@) == views(texts@),
{
    let mut out: Vec<String> = Vec::new();
    let mut i: usize = 0;
    while i < texts.len()
        invariant
            i <= texts.len(),
            out.len() == i,
            forall|k: int| 0 <= k < i ==> (#[trigger] out@[k])@ == texts@[k]@,
        decreases texts.len() - i,
    {
        out.push(texts[i].clone());
        i += 1;
    }
    assert(views(out@) =~= views(texts@));
    out
}

/// Recipes and executions of a snapshot under construction.
#[verifier::ext_equal]
pub struct RunsModel {
    pub recipes: Seq<RecipeModel>,
    pub executions: Seq<ExecutionModel>,
}

/// The recipes and executions with an attempt added.
pub open spec fn with_run(before: RunsModel, a: AttemptModel) -> Result<RunsModel, Fault> {
    let executions = before.executions.push(a.execution);
    match recipe_named(before.recipes, a.recipe.id) {
        Some(existing) => if existing.sha256 != a.recipe.sha256 {
            Err(
                settings_fault(
                    "recipe id "@ + debug_text(a.recipe.id)
                        + " refers to more than one identity; rename the edited recipe to preserve both"@,
                ),
            )
        } else {
            Ok(RunsModel { recipes: before.recipes, executions })
        },
        None => Ok(RunsModel { recipes: before.recipes.push(a.recipe), executions }),
    }
}

/// The recipes and executions of attempts.
pub open spec fn runs_of(attempts: Seq<AttemptModel>) -> Result<RunsModel, Fault>
    decreases attempts.len(),
{
    if attempts.len() == 0 {
        Ok(RunsModel { recipes: Seq::empty(), executions: Seq::empty() })
    } else {
        match runs_of(attempts.drop_last()) {
            Err(fault) => Err(fault),
            Ok(before) => with_run(before, attempts.last()),
        }
    }
}

proof fn lemma_runs_fail(attempts: Seq<AttemptModel>, n: int)
    requires
        0 <= n <= attempts.len(),
        runs_of(attempts.take(n)) is Err,
    ensures
        runs_of(attempts) == runs_of(attempts.take(n)),
    decreases attempts.len(),
{
    if n < attempts.len() {
        assert(attempts.drop_last().take(n) =~= attempts.take(n));
        lemma_runs_fail(attempts.drop_last(), n);
    } else {
        assert(attempts.take(n) =~= attempts);
    }
}

/// The recipes and executions with a configured recipe added that was not run yet, where its
/// inputs are known.
pub open spec fn with_plan(before: RunsModel, recipe: Result<RecipeModel, Fault>) -> Result<
    RunsModel,
    Fault,
> {
    match recipe {
        Err(_) => Ok(before),
        Ok(planned) => match recipe_named(before.recipes, planned.id) {
            Some(existing) => if existing.sha256 != planned.sha256 {
                Err(
                    settings_fault(
                        "configured recipe "@ + debug_text(planned.id)
                            + " changed inputs; give the new recipe a new id before snapshotting"@,
                    ),
                )
            } else {
                Ok(before)
            },
            None => Ok(
                RunsModel {
                    recipes: before.recipes.push(planned),
                    executions: before.executions.push(
                        begun("planned-"@ + planned.id, planned),
                    ),
                },
            ),
        },
    }
}

/// The recipes and executions with configured recipes added.
pub open spec fn plans_of(
    w: WorkspaceModel,
    start: RunsModel,
    configs: Seq<ConfiguredModel>,
    model: RefModel,
    data: RefModel,
) -> Result<RunsModel, Fault>
    decreases configs.len(),
{
    if configs.len() == 0 {
        Ok(start)
    } else {
        match plans_of(w, start, configs.drop_last(), model, data) {
            Err(fault) => Err(fault),
            Ok(before) => with_plan(before, resolved(w, configs.last(), model, data)),
        }
    }
}

proof fn lemma_plans_fail(
    w: WorkspaceModel,
    start: RunsModel,
    configs: Seq<ConfiguredModel>,
    model: RefModel,
    data: RefModel,
    n: int,
)
    requires
        0 <= n <= configs.len(),
        plans_of(w, start, configs.take(n), model, data) is Err,
    ensures
        plans_of(w, start, configs, model, data) == plans_of(
            w,
            start,
            configs.take(n),
            model,
            data,
        ),
    decreases configs.len(),
{
    if n < configs.len() {
        assert(configs.drop_last().take(n) =~= configs.take(n));
        lemma_plans_fail(w, start, configs.drop_last(), model, data, n);
    } else {
        assert(configs.take(n) =~= configs);
    }
}

/// A selection as evidence of a snapshot.
pub open spec fn evidence_of(
    w: WorkspaceModel,
    selection: SelectionModel,
    model: RefModel,
    data: RefModel,
) -> EvidenceModel {
    EvidenceModel {
        name: selection.name,
        execution: selection.execution,
        status: if selection_current(w, selection, model, data) {
            EvidenceStatus::Current
        } else {
            EvidenceStatus::Historical
        },
    }
}

/// The recipes and executions of a workspace, run and planned.
pub open spec fn workspace_runs(w: WorkspaceModel, model: RefModel, data: RefModel) -> Result<
    RunsModel,
    Fault,
> {
    match runs_of(w.attempts) {
        Err(fault) => Err(fault),
        Ok(start) => plans_of(w, start, w.recipes, model, data),
    }
}

/// The snapshot that a workspace stands for.
pub open spec fn assembled(w: WorkspaceModel, model: RefModel, data: RefModel) -> Result<
    ManifestModel,
    Fault,
> {
    match workspace_runs(w, model, data) {
        Err(fault) => Err(fault),
        Ok(runs) => Ok(
            ManifestModel {
                question: w.question,
                estimand_description: w.estimand_description,
                estimand_parameter: w.estimand_parameter,
                source: w.source,
                model,
                data,
                decisions: w.decisions,
                recipes: runs.recipes,
                executions: runs.executions,
                evidence: w.selections.map_values(
                    |s: SelectionModel| evidence_of(w, s, model, data),
                ),
                interpretation: w.interpretation,
                unresolved_questions: w.unresolved_questions,
            },
        ),
    }
}

struct Runs {
    recipes: Vec<Recipe>,
    executions: Vec<Execution>,
}

impl View for Runs {
    type V = RunsModel;

    closed spec fn view(&self) -> RunsModel {
        RunsModel { recipes: views(self.recipes@), executions: views(self.executions@) }
    }
}

fn named<'a>(recipes: &'a Vec<Recipe>, id: &str) -> (r: Option<&'a Recipe>)
    ensures
        super::state::borrowed(r) == recipe_named(views(recipes@), id@),
{
    crate::investigation::manifest::find_recipe(recipes, id)
}

fn add_run(runs: &mut Runs, attempt: &Attempt) -> (r: Result<(), Error>)
    ensures
        match with_run(old(runs)@, attempt@) {
            Ok(after) => r is Ok && final(runs)@ == after,
            Err(fault) => r is Err && r->Err_0@ == fault,
        },
{
    let ghost before = runs@;
    match named(&runs.recipes, attempt.recipe.id.as_str()) {
        Some(existing) => {
            if !text::same(existing.sha256.as_str(), attempt.recipe.sha256.as_str()) {
                return Err(
                    invalid_settings(
                        text::cat3(
                            "recipe id ",
                            text::quoted(attempt.recipe.id.as_str()).as_str(),
                            " refers to more than one identity; rename the edited recipe to preserve both",
                        ),
                    ),
                );
            }
        },
        None => {
            let ghost old_recipes = runs.recipes@;
            runs.recipes.push(attempt.recipe.copy());
            assert(views(runs.recipes@) =~= views(old_recipes).push(attempt.recipe@));
        },
    }
    let ghost old_executions = runs.executions@;
    runs.executions.push(copy_execution(&attempt.execution));
    assert(views(runs.executions@) =~= views(old_executions).push(attempt.execution@));
    Ok(())
}

fn add_plan(runs: &mut Runs, recipe: Result<Recipe, Error>) -> (r: Result<(), Error>)
    ensures
        match with_plan(old(runs)@, outcome(recipe)) {
            Ok(after) => r is Ok && final(runs)@ == after,
            Err(fault) => r is Err && r->Err_0@ == fault,
        },
{
    let planned: Recipe = match recipe {
        Err(_) => {
            return Ok(());
        },
        Ok(planned) => planned,
    };
    match named(&runs.recipes, planned.id.as_str()) {
        Some(existing) => {
            if !text::same(existing.sha256.as_str(), planned.sha256.as_str()) {
                return Err(
                    invalid_settings(
                        text::cat3(
                            "configured recipe ",
                            text::quoted(planned.id.as_str()).as_str(),
                            " changed inputs; give the new recipe a new id before snapshotting",
                        ),
                    ),
                );
            }
        },
        None => {
            let execution: Execution = Execution {
                id: text::cat2("planned-", planned.id.as_str()),
                recipe: planned.id.clone(),
                recipe_sha256: planned.sha256.copy(),
                outcome: Outcome::Incomplete,
                output: None,
                error: None,
            };
            let ghost content = planned@;
            let ghost made = execution@;
            let ghost old_recipes = runs.recipes@;
            let ghost old_executions = runs.executions@;
            runs.recipes.push(planned);
            runs.executions.push(execution);
            assert(views(runs.recipes@) =~= views(old_recipes).push(content));
            assert(views(runs.executions@) =~= views(old_executions).push(made));
        },
    }
    Ok(())
}

fn collect_runs(workspace: &Workspace, model: &ArtifactRef, data: &ArtifactRef) -> (r: Result<
    Runs,
    Error,
>)
    ensures
        outcome(r) == workspace_runs(workspace@, model@, data@),
{
    let ghost w = workspace@;
    let mut runs: Runs = Runs { recipes: Vec::new(), executions: Vec::new() };
    assert(views(runs.recipes@) =~= Seq::empty());
    assert(views(runs.executions@) =~= Seq::empty());
    let ghost all = w.attempts;
    assert(all.take(0) =~= Seq::empty());
    let mut i: usize = 0;
    while i < workspace.attempts.len()
        invariant
            i <= workspace.attempts.len(),
            w == workspace@,
            all == w.attempts,
            runs_of(all.take(i as int)) == Ok::<RunsModel, Fault>(runs@),
        decreases workspace.attempts.len() - i,
    {
        proof {
            let done = all.take(i + 1);
            assert(done.drop_last() =~= all.take(i as int));
            assert(done.last() == workspace.attempts@[i as int]@);
            if runs_of(done) is Err {
                lemma_runs_fail(all, i + 1);
            }
        }
        add_run(&mut runs, &workspace.attempts[i])?;
        i += 1;
    }
    assert(all.take(i as int) =~= all);
    let ghost start = runs@;
    let ghost configs = w.recipes;
    assert(configs.take(0) =~= Seq::empty());
    let mut k: usize = 0;
    while k < workspace.recipes.len()
        invariant
            k <= workspace.recipes.len(),
            w == workspace@,
            configs == w.recipes,
            runs_of(w.attempts) == Ok::<RunsModel, Fault>(start),
            plans_of(w, start, configs.take(k as int), model@, data@) == Ok::<RunsModel, Fault>(
                runs@,
            ),
        decreases workspace.recipes.len() - k,
    {
        proof {
            let done = configs.take(k + 1);
            assert(done.drop_last() =~= configs.take(k as int));
            assert(done.last() == workspace.recipes@[k as int]@);
            if plans_of(w, start, done, model@, data@) is Err {
                lemma_plans_fail(w, start, configs, model@, data@, k + 1);
            }
        }
        let recipe: Result<Recipe, Error> = resolve_recipe(
            workspace,
            &workspace.recipes[k],
            model,
            data,
        );
        add_plan(&mut runs, recipe)?;
        k += 1;
    }
    assert(configs.take(k as int) =~= configs);
    Ok(runs)
}

fn collect_evidence(workspace: &Workspace, model: &ArtifactRef, data: &ArtifactRef) -> (r: Vec<
    EvidenceSelection,
>)
    ensures
        views(r@) == workspace@.selections.map_values(
            |s: SelectionModel| evidence_of(workspace@, s, model@, data@),
        ),
{
    let ghost w = workspace@;
    let mut out: Vec<EvidenceSelection> = Vec::new();
    let mut i: usize = 0;
    while i < workspace.selections.len()
        invariant
            i <= workspace.selections.len(),
            w == workspace@,
            out.len() == i,
            forall|k: int|
                0 <= k < i ==> (#[trigger] out@[k])@ == evidence_of(
                    w,
                    w.selections[k],
                    model@,
                    data@,
                ),
        decreases workspace.selections.len() - i,
    {
        let selection: &Selection = &workspace.selections[i];
        assert(w.selections[i as int] == selection@);
        let status: EvidenceStatus = if is_selection_current(workspace, selection, model, data) {
            EvidenceStatus::Current
        } else {
            EvidenceStatus::Historical
        };
        out.push(
            EvidenceSelection {
                name: selection.name.clone(),
                execution: selection.execution.clone(),
                status,
            },
        );
        i += 1;
    }
    assert(views(out@) =~= w.selections.map_values(
        |s: SelectionModel| evidence_of(w, s, model@, data@),
    ));
    out
}

/// Puts together the snapshot that a workspace stands for.
pub fn assemble_manifest(workspace: &Workspace, model: &ArtifactRef, data: &ArtifactRef) -> (r: Result<
    Manifest,
    Error,
>)
    ensures
        outcome(r) == assembled(workspace@, model@, data@),
{
    let runs: Runs = collect_runs(workspace, model, data)?;
    let evidence: Vec<EvidenceSelection> = collect_evidence(workspace, model, data);
    Ok(
        Manifest {
            question: workspace.question.clone(),
            estimand_description: workspace.estimand_description.clone(),
            estimand_parameter: workspace.estimand_parameter.clone(),
            source: copy_source(&workspace.source),
            model: model.copy(),
            data: data.copy(),
            decisions: copy_decisions(&workspace.decisions),
            recipes: runs.recipes,
            executions: runs.executions,
            evidence,
            interpretation: workspace.interpretation.clone(),
            unresolved_questions: copy_texts(&workspace.unresolved_questions),
        },
    )
}

/// Whether collecting the snapshot of a workspace can come to that: it is put together, written,
/// and read back.
pub open spec fn collected(
    reading: spec_fn(Seq<char>, Result<Json, Fault>) -> bool,
    w: WorkspaceModel,
    model: RefModel,
    data: RefModel,
    out: Result<ManifestModel, Fault>,
) -> bool {
    match assembled(w, model, data) {
        Err(fault) => out == Err::<ManifestModel, Fault>(fault),
        Ok(m) => manifest_read(reading, bytes_of(json_text(manifest_json(m))), out),
    }
}

/// Collects the snapshot that a workspace stands for.
pub fn collect_manifest<R: Fn(&str) -> Result<Value, Error>>(
    workspace: &Workspace,
    model: &ArtifactRef,
    data: &ArtifactRef,
    read_json: &R,
) -> (r: Result<Manifest, Error>)
    requires
        forall|s: &str| #[trigger] call_requires(*read_json, (s,)),
    ensures
        collected(
            |s: Seq<char>, v: Result<Json, Fault>| reads(*read_json, s, v),
            workspace@,
            model@,
            data@,
            outcome(r),
        ),
{
    let manifest: Manifest = assemble_manifest(workspace, model, data)?;
    let bytes: Vec<u8> = manifest.to_bytes()?;
    Manifest::parse_bytes(bytes.as_slice(), read_json)
}

proof fn lemma_runs_executions(attempts: Seq<AttemptModel>)
    requires
        runs_of(attempts) is Ok,
    ensures
        runs_of(attempts)->Ok_0.executions.len() == attempts.len(),
        forall|k: int|
            0 <= k < attempts.len() ==> (#[trigger] runs_of(attempts)->Ok_0.executions[k])
                == attempts[k].execution,
    decreases attempts.len(),
{
    if attempts.len() > 0 {
        lemma_runs_executions(attempts.drop_last());
        let before = runs_of(attempts.drop_last())->Ok_0.executions;
        assert forall|k: int| 0 <= k < attempts.len() implies (#[trigger] runs_of(
            attempts,
        )->Ok_0.executions[k]) == attempts[k].execution by {
            if k < attempts.len() - 1 {
                assert(before[k] == attempts.drop_last()[k].execution);
            }
        }
    }
}

proof fn lemma_plans_keep(
    w: WorkspaceModel,
    start: RunsModel,
    configs: Seq<ConfiguredModel>,
    model: RefModel,
    data: RefModel,
)
    requires
        plans_of(w, start, configs, model, data) is Ok,
    ensures
        start.executions.is_prefix_of(plans_of(w, start, configs, model, data)->Ok_0.executions),
        start.recipes.is_prefix_of(plans_of(w, start, configs, model, data)->Ok_0.recipes),
    decreases configs.len(),
{
    if configs.len() > 0 {
        lemma_plans_keep(w, start, configs.drop_last(), model, data);
        let before = plans_of(w, start, configs.drop_last(), model, data)->Ok_0;
        let after = plans_of(w, start, configs, model, data)->Ok_0;
        assert(start.executions =~= after.executions.subrange(0, start.executions.len() as int));
        assert(start.recipes =~= after.recipes.subrange(0, start.recipes.len() as int));
    }
}

/// A snapshot retains every attempt of its workspace, failed and incomplete ones too, in their
/// order.
pub proof fn law_snapshot_retains_every_attempt(w: WorkspaceModel, model: RefModel, data: RefModel)
    requires
        assembled(w, model, data) is Ok,
    ensures
        assembled(w, model, data)->Ok_0.executions.len() >= w.attempts.len(),
        forall|k: int|
            0 <= k < w.attempts.len() ==> (#[trigger] assembled(w, model, data)->Ok_0.executions[k])
                == w.attempts[k].execution,
{
    let start = runs_of(w.attempts)->Ok_0;
    let all = assembled(w, model, data)->Ok_0.executions;
    lemma_runs_executions(w.attempts);
    lemma_plans_keep(w, start, w.recipes, model, data);
    assert forall|k: int| 0 <= k < w.attempts.len() implies (#[trigger] all[k])
        == w.attempts[k].execution by {
        assert(start.executions[k] == all[k]);
    }
}

} // verus!
