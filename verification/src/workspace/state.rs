//! What is current in a workspace, and how an execution changes it.

use vstd::prelude::*;

use crate::error::{invalid_settings, Error};
#[allow(unused_imports)]
use crate::error::{outcome, settings_fault, Fault};
use crate::investigation::ledger::{Execution, Outcome};
#[allow(unused_imports)]
use crate::investigation::ledger::{optional_text, views, ExecutionModel};
use crate::investigation::recipe::{Operation, Recipe};
#[allow(unused_imports)]
use crate::investigation::recipe::{made_recipe, needs_fit, optional_ref, RecipeModel};
use crate::investigation::records::{ArtifactRef, EngineIdentity};
#[allow(unused_imports)]
use crate::investigation::records::{EngineModel, RefModel};
use crate::text;
#[allow(unused_imports)]
use crate::text::{debug_text, decimal_text};

use super::document::Workspace;
#[allow(unused_imports)]
use super::document::WorkspaceModel;
use super::record::{Attempt, ConfiguredRecipe, Selection};
#[allow(unused_imports)]
use super::record::{AttemptModel, ConfiguredModel, SelectionModel};

verus! {

/// The attempt of an execution, from one on.
pub open spec fn attempt_from(attempts: Seq<AttemptModel>, execution: Seq<char>, i: int) -> Option<
    AttemptModel,
>
    decreases attempts.len() - i,
{
    if i < 0 || i >= attempts.len() {
        None
    } else if attempts[i].execution.id == execution {
        Some(attempts[i])
    } else {
        attempt_from(attempts, execution, i + 1)
    }
}

/// The attempt of an execution.
pub open spec fn attempt_named(attempts: Seq<AttemptModel>, execution: Seq<char>) -> Option<AttemptModel> {
    attempt_from(attempts, execution, 0)
}

/// The view of a borrowed record.
pub open spec fn borrowed<T: View>(r: Option<&T>) -> Option<T::V> {
    match r {
        Some(found) => Some(found@),
        None => None,
    }
}

pub fn find_attempt<'a>(workspace: &'a Workspace, execution: &str) -> (r: Option<&'a Attempt>)
    ensures
        borrowed(r) == attempt_named(workspace@.attempts, execution@),
{
    let ghost all = workspace@.attempts;
    let mut i: usize = 0;
    while i < workspace.attempts.len()
        invariant
            i <= workspace.attempts.len(),
            all == workspace@.attempts,
            attempt_named(all, execution@) == attempt_from(all, execution@, i as int),
        decreases workspace.attempts.len() - i,
    {
        assert(all[i as int] == workspace.attempts@[i as int]@);
        if text::same(workspace.attempts[i].execution.id.as_str(), execution) {
            return Some(&workspace.attempts[i]);
        }
        i += 1;
    }
    None
}

/// The configured recipe of that name, from one on.
pub open spec fn configured_from(recipes: Seq<ConfiguredModel>, id: Seq<char>, i: int) -> Option<
    ConfiguredModel,
>
    decreases recipes.len() - i,
{
    if i < 0 || i >= recipes.len() {
        None
    } else if recipes[i].id == id {
        Some(recipes[i])
    } else {
        configured_from(recipes, id, i + 1)
    }
}

/// The configured recipe of that name.
pub open spec fn configured_named(recipes: Seq<ConfiguredModel>, id: Seq<char>) -> Option<
    ConfiguredModel,
> {
    configured_from(recipes, id, 0)
}

pub fn configured<'a>(workspace: &'a Workspace, id: &str) -> (r: Option<&'a ConfiguredRecipe>)
    ensures
        borrowed(r) == configured_named(workspace@.recipes, id@),
{
    let ghost all = workspace@.recipes;
    let mut i: usize = 0;
    while i < workspace.recipes.len()
        invariant
            i <= workspace.recipes.len(),
            all == workspace@.recipes,
            configured_named(all, id@) == configured_from(all, id@, i as int),
        decreases workspace.recipes.len() - i,
    {
        assert(all[i as int] == workspace.recipes@[i as int]@);
        if text::same(workspace.recipes[i].id.as_str(), id) {
            return Some(&workspace.recipes[i]);
        }
        i += 1;
    }
    None
}

/// Whether two engines are the same.
pub fn same_engine(a: &EngineIdentity, b: &EngineIdentity) -> (r: bool)
    ensures
        r == (a@ == b@),
{
    a.binary.same(&b.binary) && a.capabilities.same(&b.capabilities) && text::same(
        a.target.as_str(),
        b.target.as_str(),
    ) && text::same(a.profile.as_str(), b.profile.as_str())
}

/// Whether an attempt completed a sample of the current inputs with the current engine.
pub open spec fn sampled_here(a: AttemptModel, engine: EngineModel, model: RefModel, data: RefModel) -> bool {
    &&& a.execution.outcome == Outcome::Completed
    &&& a.recipe.operation == Operation::Sample
    &&& a.recipe.model == model
    &&& a.recipe.data == data
    &&& a.recipe.engine == engine
}

/// Whether the sample recipe that an attempt ran is still configured as it was.
pub open spec fn still_configured(w: WorkspaceModel, a: AttemptModel, model: RefModel, data: RefModel) -> bool {
    match configured_named(w.recipes, a.recipe.id) {
        None => false,
        Some(config) => match made_recipe(
            config.id,
            Operation::Sample,
            model,
            data,
            None,
            w.engine,
            config.settings,
        ) {
            Err(_) => false,
            Ok(current) => current.sha256 == a.recipe.sha256,
        },
    }
}

/// The draws of a selection, where it is a current sample.
pub open spec fn selected_sample(
    w: WorkspaceModel,
    selection: SelectionModel,
    model: RefModel,
    data: RefModel,
) -> Option<RefModel> {
    match attempt_named(w.attempts, selection.execution) {
        None => None,
        Some(a) => if sampled_here(a, w.engine, model, data) && still_configured(
            w,
            a,
            model,
            data,
        ) {
            a.execution.output
        } else {
            None
        },
    }
}

/// The draws of the current samples among selections.
pub open spec fn selected_samples(
    w: WorkspaceModel,
    selections: Seq<SelectionModel>,
    model: RefModel,
    data: RefModel,
) -> Seq<RefModel>
    decreases selections.len(),
{
    if selections.len() == 0 {
        Seq::empty()
    } else {
        match selected_sample(w, selections.last(), model, data) {
            None => selected_samples(w, selections.drop_last(), model, data),
            Some(output) => selected_samples(w, selections.drop_last(), model, data).push(output),
        }
    }
}

/// The draws of the current sample, of which there may be one only.
pub open spec fn sample_now(w: WorkspaceModel, model: RefModel, data: RefModel) -> Result<
    Option<RefModel>,
    Fault,
> {
    let found = selected_samples(w, w.selections, model, data);
    if found.len() > 1 {
        Err(
            settings_fault(
                decimal_text(found.len())
                    + " current sample selections conflict; edit investigation.json selections to retain exactly one before inspection or downstream execution"@,
            ),
        )
    } else if found.len() == 1 {
        Ok(Some(found[0]))
    } else {
        Ok(None)
    }
}

fn find_sample<'a>(
    workspace: &'a Workspace,
    selection: &Selection,
    model: &ArtifactRef,
    data: &ArtifactRef,
) -> (r: Option<&'a ArtifactRef>)
    ensures
        borrowed(r) == selected_sample(workspace@, selection@, model@, data@),
{
    let attempt: &Attempt = match find_attempt(workspace, selection.execution.as_str()) {
        None => {
            return None;
        },
        Some(attempt) => attempt,
    };
    if attempt.execution.outcome != Outcome::Completed || attempt.recipe.operation
        != Operation::Sample || !attempt.recipe.model.same(model) || !attempt.recipe.data.same(data)
        || !same_engine(&attempt.recipe.engine, &workspace.engine) {
        return None;
    }
    let config: &ConfiguredRecipe = match configured(workspace, attempt.recipe.id.as_str()) {
        None => {
            return None;
        },
        Some(config) => config,
    };
    match Recipe::new(
        config.id.clone(),
        Operation::Sample,
        model.copy(),
        data.copy(),
        None,
        workspace.engine.copy(),
        config.settings.copy(),
    ) {
        Err(_) => None,
        Ok(current) => if text::same(
            current.sha256.as_str(),
            attempt.recipe.sha256.as_str(),
        ) {
            match &attempt.execution.output {
                Some(output) => Some(output),
                None => None,
            }
        } else {
            None
        },
    }
}

/// The view of an optional reference that may be refused.
pub open spec fn borrowed_outcome(r: Result<Option<&ArtifactRef>, Error>) -> Result<
    Option<RefModel>,
    Fault,
> {
    match r {
        Ok(found) => Ok(borrowed(found)),
        Err(error) => Err(error@),
    }
}

/// The draws of the current sample.
pub fn current_sample<'a>(workspace: &'a Workspace, model: &ArtifactRef, data: &ArtifactRef) -> (r: Result<
    Option<&'a ArtifactRef>,
    Error,
>)
    ensures
        borrowed_outcome(r) == sample_now(workspace@, model@, data@),
{
    let ghost w = workspace@;
    let ghost all = w.selections;
    let mut first: Option<&ArtifactRef> = None;
    let mut count: usize = 0;
    assert(all.take(0) =~= Seq::empty());
    let mut i: usize = 0;
    while i < workspace.selections.len()
        invariant
            i <= workspace.selections.len(),
            w == workspace@,
            all == w.selections,
            count <= i,
            count == selected_samples(w, all.take(i as int), model@, data@).len(),
            count == 0 ==> first is None,
            count > 0 ==> borrowed(first) == Some(
                selected_samples(w, all.take(i as int), model@, data@)[0],
            ),
        decreases workspace.selections.len() - i,
    {
        proof {
            let done = all.take(i + 1);
            assert(done.drop_last() =~= all.take(i as int));
            assert(done.last() == workspace.selections@[i as int]@);
        }
        match find_sample(workspace, &workspace.selections[i], model, data) {
            None => {},
            Some(output) => {
                if count == 0 {
                    first = Some(output);
                }
                count += 1;
            },
        }
        i += 1;
    }
    assert(all.take(i as int) =~= all);
    if count > 1 {
        return Err(
            invalid_settings(
                text::cat2(
                    text::decimal(count as u64).as_str(),
                    " current sample selections conflict; edit investigation.json selections to retain exactly one before inspection or downstream execution",
                ),
            ),
        );
    }
    Ok(first)
}

/// The fit that a recipe needs.
pub open spec fn fit_for(w: WorkspaceModel, config: ConfiguredModel, model: RefModel, data: RefModel) -> Result<
    Option<RefModel>,
    Fault,
> {
    if !needs_fit(config.operation) {
        Ok(None)
    } else {
        match sample_now(w, model, data) {
            Err(fault) => Err(fault),
            Ok(None) => Err(
                settings_fault(
                    "recipe "@ + debug_text(config.id)
                        + " needs current sample evidence for the exact current model/data; run a sample recipe first"@,
                ),
            ),
            Ok(Some(fit)) => Ok(Some(fit)),
        }
    }
}

/// A configured recipe with its current inputs.
pub open spec fn resolved(w: WorkspaceModel, config: ConfiguredModel, model: RefModel, data: RefModel) -> Result<
    RecipeModel,
    Fault,
> {
    match fit_for(w, config, model, data) {
        Err(fault) => Err(fault),
        Ok(fit) => made_recipe(
            config.id,
            config.operation,
            model,
            data,
            fit,
            w.engine,
            config.settings,
        ),
    }
}

/// Resolves a configured recipe on the current inputs.
pub fn resolve_recipe(
    workspace: &Workspace,
    config: &ConfiguredRecipe,
    model: &ArtifactRef,
    data: &ArtifactRef,
) -> (r: Result<Recipe, Error>)
    ensures
        outcome(r) == resolved(workspace@, config@, model@, data@),
{
    let fit: Option<ArtifactRef> = if config.operation == Operation::Diagnose || config.operation
        == Operation::PosteriorCheck {
        match current_sample(workspace, model, data)? {
            None => {
                return Err(
                    invalid_settings(
                        text::cat3(
                            "recipe ",
                            text::quoted(config.id.as_str()).as_str(),
                            " needs current sample evidence for the exact current model/data; run a sample recipe first",
                        ),
                    ),
                );
            },
            Some(fit) => Some(fit.copy()),
        }
    } else {
        None
    };
    Recipe::new(
        config.id.clone(),
        config.operation,
        model.copy(),
        data.copy(),
        fit,
        workspace.engine.copy(),
        config.settings.copy(),
    )
}

/// Whether a selection speaks for the current inputs.
pub open spec fn selection_current(
    w: WorkspaceModel,
    selection: SelectionModel,
    model: RefModel,
    data: RefModel,
) -> bool {
    match attempt_named(w.attempts, selection.execution) {
        None => false,
        Some(a) => if a.execution.outcome != Outcome::Completed {
            false
        } else {
            match configured_named(w.recipes, a.recipe.id) {
                None => false,
                Some(config) => match resolved(w, config, model, data) {
                    Err(_) => false,
                    Ok(current) => current.sha256 == a.recipe.sha256,
                },
            }
        },
    }
}

/// Whether a selection speaks for the current inputs.
pub fn is_selection_current(
    workspace: &Workspace,
    selection: &Selection,
    model: &ArtifactRef,
    data: &ArtifactRef,
) -> (r: bool)
    ensures
        r == selection_current(workspace@, selection@, model@, data@),
{
    match find_attempt(workspace, selection.execution.as_str()) {
        None => false,
        Some(attempt) => if attempt.execution.outcome != Outcome::Completed {
            false
        } else {
            match configured(workspace, attempt.recipe.id.as_str()) {
                None => false,
                Some(config) => match resolve_recipe(workspace, config, model, data) {
                    Err(_) => false,
                    Ok(current) => text::same(
                        current.sha256.as_str(),
                        attempt.recipe.sha256.as_str(),
                    ),
                },
            }
        },
    }
}

/// Whether a recipe name was used for other inputs.
pub open spec fn used_otherwise(attempts: Seq<AttemptModel>, recipe: RecipeModel) -> bool {
    exists|k: int|
        0 <= k < attempts.len() && (#[trigger] attempts[k]).recipe.id == recipe.id
            && attempts[k].recipe.sha256 != recipe.sha256
}

fn is_used_otherwise(attempts: &Vec<Attempt>, recipe: &Recipe) -> (r: bool)
    ensures
        r == used_otherwise(views(attempts@), recipe@),
{
    let ghost all = views(attempts@);
    let mut k: usize = 0;
    while k < attempts.len()
        invariant
            k <= attempts.len(),
            all == views(attempts@),
            forall|j: int|
                0 <= j < k ==> !((#[trigger] all[j]).recipe.id == recipe@.id
                    && all[j].recipe.sha256 != recipe@.sha256),
        decreases attempts.len() - k,
    {
        assert(all[k as int] == attempts@[k as int]@);
        if text::same(attempts[k].recipe.id.as_str(), recipe.id.as_str()) && !text::same(
            attempts[k].recipe.sha256.as_str(),
            recipe.sha256.as_str(),
        ) {
            return true;
        }
        k += 1;
    }
    false
}

/// The name of the next execution of a recipe.
pub open spec fn next_execution(attempts: nat, recipe: Seq<char>) -> Seq<char> {
    "exec-"@ + decimal_text((attempts + 1) as nat) + "-"@ + recipe
}

/// An execution that has begun.
pub open spec fn begun(id: Seq<char>, recipe: RecipeModel) -> ExecutionModel {
    ExecutionModel {
        id,
        recipe: recipe.id,
        recipe_sha256: recipe.sha256,
        outcome: Outcome::Incomplete,
        output: None,
        error: None,
    }
}

/// The recipe that a run is about to execute.
pub open spec fn recipe_to_run(w: WorkspaceModel, id: Seq<char>, model: RefModel, data: RefModel) -> Result<
    RecipeModel,
    Fault,
> {
    match configured_named(w.recipes, id) {
        None => Err(
            settings_fault(
                "workspace has no recipe "@ + debug_text(id)
                    + "; add it to investigation.json"@,
            ),
        ),
        Some(config) => match resolved(w, config, model, data) {
            Err(fault) => Err(fault),
            Ok(recipe) => if used_otherwise(w.attempts, recipe) {
                Err(
                    settings_fault(
                        "recipe id "@ + debug_text(recipe.id)
                            + " was already used for different execution inputs; rename the edited recipe (for example, sample-alternative) to preserve history"@,
                    ),
                )
            } else {
                Ok(recipe)
            },
        },
    }
}

/// A workspace in which a recipe has begun to run.
pub open spec fn with_attempt(w: WorkspaceModel, recipe: RecipeModel) -> WorkspaceModel {
    WorkspaceModel {
        attempts: w.attempts.push(
            AttemptModel {
                recipe,
                execution: begun(next_execution(w.attempts.len(), recipe.id), recipe),
            },
        ),
        ..w
    }
}

/// Begins to run a recipe: it is resolved on the current inputs and recorded as incomplete.
pub fn begin_attempt(
    workspace: &mut Workspace,
    recipe_id: &str,
    model: &ArtifactRef,
    data: &ArtifactRef,
) -> (r: Result<Recipe, Error>)
    requires
        old(workspace)@.attempts.len() < u64::MAX,
    ensures
        outcome(r) == recipe_to_run(old(workspace)@, recipe_id@, model@, data@),
        final(workspace)@ == (match outcome(r) {
            Ok(recipe) => with_attempt(old(workspace)@, recipe),
            Err(_) => old(workspace)@,
        }),
{
    let ghost w = workspace@;
    let recipe: Recipe = match configured(workspace, recipe_id) {
        None => {
            return Err(
                invalid_settings(
                    text::cat3(
                        "workspace has no recipe ",
                        text::quoted(recipe_id).as_str(),
                        "; add it to investigation.json",
                    ),
                ),
            );
        },
        Some(config) => resolve_recipe(workspace, config, model, data)?,
    };
    if is_used_otherwise(&workspace.attempts, &recipe) {
        return Err(
            invalid_settings(
                text::cat3(
                    "recipe id ",
                    text::quoted(recipe.id.as_str()).as_str(),
                    " was already used for different execution inputs; rename the edited recipe (for example, sample-alternative) to preserve history",
                ),
            ),
        );
    }
    assert(w.attempts.len() == workspace.attempts@.len());
    let number: String = text::decimal(workspace.attempts.len() as u64 + 1);
    let id: String = text::cat4("exec-", number.as_str(), "-", recipe.id.as_str());
    let attempt: Attempt = Attempt {
        recipe: recipe.copy(),
        execution: Execution {
            id,
            recipe: recipe.id.clone(),
            recipe_sha256: recipe.sha256.copy(),
            outcome: Outcome::Incomplete,
            output: None,
            error: None,
        },
    };
    let ghost made = attempt@;
    let ghost before = workspace.attempts@;
    workspace.attempts.push(attempt);
    proof {
        assert(views(workspace.attempts@) =~= views(before).push(made));
        assert(workspace@ == with_attempt(w, recipe@));
    }
    Ok(recipe)
}

/// A workspace whose last execution ended.
pub open spec fn with_ending(w: WorkspaceModel, execution: ExecutionModel) -> WorkspaceModel {
    WorkspaceModel {
        attempts: w.attempts.update(
            w.attempts.len() - 1,
            AttemptModel { recipe: w.attempts.last().recipe, execution },
        ),
        ..w
    }
}

fn end_attempt(workspace: &mut Workspace, outcome: Outcome, output: Option<ArtifactRef>, error: Option<
    String,
>)
    requires
        old(workspace)@.attempts.len() > 0,
    ensures
        final(workspace)@ == with_ending(
            old(workspace)@,
            ExecutionModel {
                outcome,
                output: optional_ref(output),
                error: optional_text(error),
                ..old(workspace)@.attempts.last().execution
            },
        ),
{
    let ghost w = workspace@;
    assert(w.attempts.len() == workspace.attempts@.len());
    let last: usize = workspace.attempts.len() - 1;
    let kept: &Attempt = &workspace.attempts[last];
    assert(w.attempts.last() == kept@);
    let attempt: Attempt = Attempt {
        recipe: kept.recipe.copy(),
        execution: Execution {
            id: kept.execution.id.clone(),
            recipe: kept.execution.recipe.clone(),
            recipe_sha256: kept.execution.recipe_sha256.copy(),
            outcome,
            output,
            error,
        },
    };
    let ghost made = attempt@;
    let ghost before = workspace.attempts@;
    workspace.attempts.set(last, attempt);
    assert(views(workspace.attempts@) =~= views(before).update(last as int, made));
}

/// The ending of a failed execution.
pub open spec fn failed(execution: ExecutionModel, message: Seq<char>) -> ExecutionModel {
    ExecutionModel {
        outcome: Outcome::Failed,
        output: None,
        error: Some(message),
        ..execution
    }
}

/// Records that the last execution failed.
pub fn fail_attempt(workspace: &mut Workspace, message: &str)
    requires
        old(workspace)@.attempts.len() > 0,
        old(workspace)@.attempts.last().execution.output is None,
    ensures
        final(workspace)@ == with_ending(
            old(workspace)@,
            failed(old(workspace)@.attempts.last().execution, message@),
        ),
{
    end_attempt(workspace, Outcome::Failed, None, Some(message.to_owned()));
}

/// The ending of a completed execution.
pub open spec fn completed(execution: ExecutionModel, output: RefModel) -> ExecutionModel {
    ExecutionModel { outcome: Outcome::Completed, output: Some(output), error: None, ..execution }
}

/// Whether a current selection is one of an operation.
pub open spec fn speaks_for(
    w: WorkspaceModel,
    selection: SelectionModel,
    operation: Operation,
    model: RefModel,
    data: RefModel,
) -> bool {
    match attempt_named(w.attempts, selection.execution) {
        None => false,
        Some(a) => a.recipe.operation == operation && selection_current(w, selection, model, data),
    }
}

/// Whether some current selection is one of an operation.
pub open spec fn spoken_for(
    w: WorkspaceModel,
    operation: Operation,
    model: RefModel,
    data: RefModel,
) -> bool {
    exists|k: int|
        0 <= k < w.selections.len() && speaks_for(
            w,
            #[trigger] w.selections[k],
            operation,
            model,
            data,
        )
}

fn is_spoken_for(
    workspace: &Workspace,
    operation: Operation,
    model: &ArtifactRef,
    data: &ArtifactRef,
) -> (r: bool)
    ensures
        r == spoken_for(workspace@, operation, model@, data@),
{
    let ghost w = workspace@;
    let mut k: usize = 0;
    while k < workspace.selections.len()
        invariant
            k <= workspace.selections.len(),
            w == workspace@,
            forall|j: int|
                0 <= j < k ==> !speaks_for(
                    w,
                    #[trigger] w.selections[j],
                    operation,
                    model@,
                    data@,
                ),
        decreases workspace.selections.len() - k,
    {
        let selection: &Selection = &workspace.selections[k];
        assert(w.selections[k as int] == selection@);
        match find_attempt(workspace, selection.execution.as_str()) {
            None => {},
            Some(attempt) => {
                if attempt.recipe.operation == operation && is_selection_current(
                    workspace,
                    selection,
                    model,
                    data,
                ) {
                    return true;
                }
            },
        }
        k += 1;
    }
    false
}

/// A workspace after its last execution completed, with the result selected unless a current
/// selection of the same operation was there.
pub open spec fn with_result(
    w: WorkspaceModel,
    output: RefModel,
    model: RefModel,
    data: RefModel,
) -> WorkspaceModel {
    let ended = with_ending(w, completed(w.attempts.last().execution, output));
    let recipe = w.attempts.last().recipe;
    if spoken_for(ended, recipe.operation, model, data) {
        ended
    } else {
        WorkspaceModel {
            selections: ended.selections.push(
                SelectionModel { name: recipe.id, execution: w.attempts.last().execution.id },
            ),
            ..ended
        }
    }
}

/// Records that the last execution completed, and says whether its result was selected: the first
/// current result of an operation is.
pub fn complete_attempt(
    workspace: &mut Workspace,
    output: ArtifactRef,
    model: &ArtifactRef,
    data: &ArtifactRef,
) -> (r: bool)
    requires
        old(workspace)@.attempts.len() > 0,
        old(workspace)@.attempts.last().execution.error is None,
    ensures
        final(workspace)@ == with_result(old(workspace)@, output@, model@, data@),
        r == !spoken_for(
            with_ending(
                old(workspace)@,
                completed(old(workspace)@.attempts.last().execution, output@),
            ),
            old(workspace)@.attempts.last().recipe.operation,
            model@,
            data@,
        ),
{
    let ghost w = workspace@;
    end_attempt(workspace, Outcome::Completed, Some(output), None);
    let ghost ended = workspace@;
    assert(ended.attempts.len() == w.attempts.len());
    assert(workspace.attempts@.len() == ended.attempts.len());
    let last: usize = workspace.attempts.len() - 1;
    assert(ended.attempts[last as int] == workspace.attempts@[last as int]@);
    let operation: Operation = workspace.attempts[last].recipe.operation;
    if is_spoken_for(workspace, operation, model, data) {
        return false;
    }
    let selection: Selection = Selection {
        name: workspace.attempts[last].recipe.id.clone(),
        execution: workspace.attempts[last].execution.id.clone(),
    };
    let ghost made = selection@;
    let ghost before = workspace.selections@;
    workspace.selections.push(selection);
    proof {
        assert(views(workspace.selections@) =~= views(before).push(made));
    }
    true
}

/// A completed run leaves the earlier attempts and the earlier selections as they were: history is
/// only ever added to.
pub proof fn law_results_only_add_to_history(
    w: WorkspaceModel,
    output: RefModel,
    model: RefModel,
    data: RefModel,
)
    requires
        w.attempts.len() > 0,
    ensures
        with_result(w, output, model, data).attempts.len() == w.attempts.len(),
        forall|k: int|
            0 <= k < w.attempts.len() - 1 ==> (#[trigger] with_result(
                w,
                output,
                model,
                data,
            ).attempts[k]) == w.attempts[k],
        w.selections.is_prefix_of(with_result(w, output, model, data).selections),
        with_result(w, output, model, data).decisions == w.decisions,
        with_result(w, output, model, data).recipes == w.recipes,
        with_result(w, output, model, data).source == w.source,
{
    let after = with_result(w, output, model, data);
    assert(w.selections =~= after.selections.subrange(0, w.selections.len() as int));
}

} // verus!
