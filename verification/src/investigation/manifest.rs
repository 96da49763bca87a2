//! Typed investigation snapshot manifests and their pure validation.

use vstd::prelude::*;

use crate::error::{malformed, Error};
#[allow(unused_imports)]
use crate::error::{malformed_fault, outcome, Fault};
use crate::json;
use crate::json::Value;
#[allow(unused_imports)]
use crate::json::{entries_view, field, group_json_views, items_view, json_text, string_of, Json};
use crate::text;
#[allow(unused_imports)]
use crate::text::{bytes_of, debug_text, decimal_text};

use super::fields::{bounded_text, checked_object, required_array, required_str};
#[allow(unused_imports)]
use super::fields::{
    array_field, bounded, identified, judged, lemma_required_field, names_view, object_complaint, text_field, verdict,
};
#[allow(unused_imports)]
use super::ledger::{
    decision_json, evidence_json, execution_json, inputs_json, parsed_decision, parsed_evidence, parsed_execution,
    parsed_inputs, parsed_source, source_json, texts_json, views, DecisionModel, EvidenceModel, ExecutionModel,
    InputsModel, SourceModel,
};
use super::ledger::texts_value;
#[allow(unused_imports)]
use super::recipe::{
    operation_text, output_kind_of, parsed_recipe, recipe_json, RecipeModel,
};
#[allow(unused_imports)]
use super::records::{kind_text, RefModel};

pub use super::fields::validate_identifier;
pub use super::ledger::{
    Decision, DecisionInputs, DecisionKind, EvidenceSelection, EvidenceStatus, Execution, Outcome, Source,
};
pub use super::recipe::{Operation, Recipe};
pub use super::records::{ArtifactKind, ArtifactRef, EngineIdentity, MAX_OBJECT_BYTES};

verus! {

pub const SNAPSHOT_FORMAT: &'static str = "v0-provisional";

pub const MAX_MANIFEST_BYTES: usize = 1_048_576;

pub const MAX_OBJECTS: usize = 256;

pub const MAX_ANCESTRY: usize = 16;

pub const MAX_RECORDS: usize = 256;

/// A snapshot of an investigation.
#[derive(Debug)]
pub struct Manifest {
    pub question: String,
    pub estimand_description: String,
    pub estimand_parameter: String,
    pub source: Option<Source>,
    pub model: ArtifactRef,
    pub data: ArtifactRef,
    pub decisions: Vec<Decision>,
    pub recipes: Vec<Recipe>,
    pub executions: Vec<Execution>,
    pub evidence: Vec<EvidenceSelection>,
    pub interpretation: String,
    pub unresolved_questions: Vec<String>,
}

/// The mathematical content of a [`Manifest`].
#[verifier::ext_equal]
pub struct ManifestModel {
    pub question: Seq<char>,
    pub estimand_description: Seq<char>,
    pub estimand_parameter: Seq<char>,
    pub source: Option<SourceModel>,
    pub model: RefModel,
    pub data: RefModel,
    pub decisions: Seq<DecisionModel>,
    pub recipes: Seq<RecipeModel>,
    pub executions: Seq<ExecutionModel>,
    pub evidence: Seq<EvidenceModel>,
    pub interpretation: Seq<char>,
    pub unresolved_questions: Seq<Seq<char>>,
}

pub open spec fn optional_source(s: Option<Source>) -> Option<SourceModel> {
    match s {
        Some(source) => Some(source@),
        None => None,
    }
}

impl View for Manifest {
    type V = ManifestModel;

    open spec fn view(&self) -> ManifestModel {
        ManifestModel {
            question: self.question@,
            estimand_description: self.estimand_description@,
            estimand_parameter: self.estimand_parameter@,
            source: optional_source(self.source),
            model: self.model@,
            data: self.data@,
            decisions: views(self.decisions@),
            recipes: views(self.recipes@),
            executions: views(self.executions@),
            evidence: views(self.evidence@),
            interpretation: self.interpretation@,
            unresolved_questions: views(self.unresolved_questions@),
        }
    }
}

/// A decision of that id stands before position `end`.
pub open spec fn decided_before(decisions: Seq<DecisionModel>, id: Seq<char>, end: int) -> bool {
    exists|j: int| 0 <= j < end && (#[trigger] decisions[j]).id == id
}

/// The first complaint about a decision at or behind position `i`: an id used twice, or a parent
/// that is no earlier decision.
pub open spec fn decision_complaint(decisions: Seq<DecisionModel>, i: int) -> Option<Seq<char>>
    decreases decisions.len() - i,
{
    if i < 0 || i >= decisions.len() {
        None
    } else if decided_before(decisions, decisions[i].id, i) {
        Some("duplicate decision id "@ + debug_text(decisions[i].id))
    } else if decisions[i].parent is Some && !decided_before(decisions, decisions[i].parent->0, i) {
        Some(
            "decision "@ + debug_text(decisions[i].id) + " parent "@ + debug_text(
                decisions[i].parent->0,
            ) + " must name an earlier local decision"@,
        )
    } else {
        decision_complaint(decisions, i + 1)
    }
}

pub open spec fn recipe_before(recipes: Seq<RecipeModel>, id: Seq<char>, end: int) -> bool {
    exists|j: int| 0 <= j < end && (#[trigger] recipes[j]).id == id
}

pub open spec fn recipe_digest_before(recipes: Seq<RecipeModel>, digest: Seq<char>, end: int) -> bool {
    exists|j: int| 0 <= j < end && (#[trigger] recipes[j]).sha256 == digest
}

/// The first complaint about a recipe at or behind position `i`: an id or an identity used twice.
pub open spec fn recipe_complaint(recipes: Seq<RecipeModel>, i: int) -> Option<Seq<char>>
    decreases recipes.len() - i,
{
    if i < 0 || i >= recipes.len() {
        None
    } else if recipe_before(recipes, recipes[i].id, i) {
        Some("duplicate recipe id "@ + debug_text(recipes[i].id))
    } else if recipe_digest_before(recipes, recipes[i].sha256, i) {
        Some("duplicate recipe identity "@ + recipes[i].sha256)
    } else {
        recipe_complaint(recipes, i + 1)
    }
}

/// The first recipe of that id at or behind position `i`.
pub open spec fn recipe_from(recipes: Seq<RecipeModel>, id: Seq<char>, i: int) -> Option<RecipeModel>
    decreases recipes.len() - i,
{
    if i < 0 || i >= recipes.len() {
        None
    } else if recipes[i].id == id {
        Some(recipes[i])
    } else {
        recipe_from(recipes, id, i + 1)
    }
}

/// The recipe of that id.
pub open spec fn recipe_named(recipes: Seq<RecipeModel>, id: Seq<char>) -> Option<RecipeModel> {
    recipe_from(recipes, id, 0)
}

pub open spec fn execution_before(executions: Seq<ExecutionModel>, id: Seq<char>, end: int) -> bool {
    exists|j: int| 0 <= j < end && (#[trigger] executions[j]).id == id
}

/// The complaint about one execution on its own.
pub open spec fn one_execution_complaint(recipes: Seq<RecipeModel>, execution: ExecutionModel) -> Option<
    Seq<char>,
> {
    match recipe_named(recipes, execution.recipe) {
        None => Some(
            "execution "@ + debug_text(execution.id) + " references missing recipe "@ + debug_text(
                execution.recipe,
            ),
        ),
        Some(recipe) => if execution.recipe_sha256 != recipe.sha256 {
            Some(
                "execution "@ + debug_text(execution.id) + " recipe_sha256 does not match recipe "@
                    + debug_text(execution.recipe),
            )
        } else if execution.output is Some && execution.output->0.kind != output_kind_of(
            recipe.operation,
        ) {
            Some(
                "execution "@ + debug_text(execution.id) + " output kind must be "@ + debug_text(
                    kind_text(output_kind_of(recipe.operation)),
                ),
            )
        } else {
            None
        },
    }
}

/// The first complaint about an execution at or behind position `i`.
pub open spec fn execution_complaint(
    recipes: Seq<RecipeModel>,
    executions: Seq<ExecutionModel>,
    i: int,
) -> Option<Seq<char>>
    decreases executions.len() - i,
{
    if i < 0 || i >= executions.len() {
        None
    } else if execution_before(executions, executions[i].id, i) {
        Some("duplicate execution id "@ + debug_text(executions[i].id))
    } else {
        match one_execution_complaint(recipes, executions[i]) {
            Some(message) => Some(message),
            None => execution_complaint(recipes, executions, i + 1),
        }
    }
}

/// The first execution of that id at or behind position `i`.
pub open spec fn execution_from(executions: Seq<ExecutionModel>, id: Seq<char>, i: int) -> Option<
    ExecutionModel,
>
    decreases executions.len() - i,
{
    if i < 0 || i >= executions.len() {
        None
    } else if executions[i].id == id {
        Some(executions[i])
    } else {
        execution_from(executions, id, i + 1)
    }
}

/// The execution of that id.
pub open spec fn execution_named(executions: Seq<ExecutionModel>, id: Seq<char>) -> Option<
    ExecutionModel,
> {
    execution_from(executions, id, 0)
}

/// The recipe behind a piece of evidence.
pub open spec fn evidence_recipe(m: ManifestModel, k: int) -> Option<RecipeModel> {
    match execution_named(m.executions, m.evidence[k].execution) {
        None => None,
        Some(execution) => recipe_named(m.recipes, execution.recipe),
    }
}

/// Whether the `k`-th piece of evidence is current evidence for an operation.
pub open spec fn current_for(m: ManifestModel, k: int, operation: Operation) -> bool {
    m.evidence[k].status == EvidenceStatus::Current && evidence_recipe(m, k) is Some
        && evidence_recipe(m, k)->0.operation == operation
}

pub open spec fn evidence_before(evidence: Seq<EvidenceModel>, name: Seq<char>, end: int) -> bool {
    exists|j: int| 0 <= j < end && (#[trigger] evidence[j]).name == name
}

/// Current evidence for an operation stands before position `end`.
pub open spec fn current_before(m: ManifestModel, operation: Operation, end: int) -> bool {
    exists|k: int| 0 <= k < end && #[trigger] current_for(m, k, operation)
}

/// The complaint about the `k`-th piece of evidence as current evidence.
pub open spec fn current_complaint(m: ManifestModel, k: int, execution: ExecutionModel) -> Option<
    Seq<char>,
> {
    let recipe = recipe_named(m.recipes, execution.recipe)->0;
    if execution.outcome != Outcome::Completed {
        Some(
            "current evidence "@ + debug_text(m.evidence[k].name)
                + " must reference a completed execution"@,
        )
    } else if recipe.model != m.model || recipe.data != m.data {
        Some(
            "current evidence "@ + debug_text(m.evidence[k].name)
                + " recipe inputs do not match snapshot model/data"@,
        )
    } else if current_before(m, recipe.operation, k) {
        Some(
            "conflicting current evidence for operation "@ + debug_text(
                operation_text(recipe.operation),
            ),
        )
    } else {
        None
    }
}

/// The complaint about the `k`-th piece of evidence.
pub open spec fn one_evidence_complaint(m: ManifestModel, k: int) -> Option<Seq<char>> {
    let selection = m.evidence[k];
    if evidence_before(m.evidence, selection.name, k) {
        Some("duplicate evidence selection name "@ + debug_text(selection.name))
    } else {
        match execution_named(m.executions, selection.execution) {
            None => Some(
                "evidence "@ + debug_text(selection.name) + " references missing execution "@
                    + debug_text(selection.execution),
            ),
            Some(execution) => if selection.status == EvidenceStatus::Current {
                current_complaint(m, k, execution)
            } else {
                None
            },
        }
    }
}

/// The first complaint about evidence at or behind position `k`.
pub open spec fn evidence_complaint(m: ManifestModel, k: int) -> Option<Seq<char>>
    decreases m.evidence.len() - k,
{
    if k < 0 || k >= m.evidence.len() {
        None
    } else {
        match one_evidence_complaint(m, k) {
            Some(message) => Some(message),
            None => evidence_complaint(m, k + 1),
        }
    }
}

/// Whether the draws of that digest are the output of current sampling evidence.
pub open spec fn current_fit(m: ManifestModel, digest: Seq<char>) -> bool {
    exists|k: int|
        0 <= k < m.evidence.len() && #[trigger] current_for(m, k, Operation::Sample)
            && execution_named(m.executions, m.evidence[k].execution)->0.output->0.sha256 == digest
}

/// Whether the `k`-th piece of evidence is current and reads draws that are not current.
pub open spec fn stale_fit(m: ManifestModel, k: int) -> bool {
    m.evidence[k].status == EvidenceStatus::Current && evidence_recipe(m, k)->0.fit is Some
        && !current_fit(m, evidence_recipe(m, k)->0.fit->0.sha256)
}

/// The first complaint about draws that current evidence reads, from position `k` on.
pub open spec fn fit_complaint(m: ManifestModel, k: int) -> Option<Seq<char>>
    decreases m.evidence.len() - k,
{
    if k < 0 || k >= m.evidence.len() {
        None
    } else if stale_fit(m, k) {
        Some(
            "current evidence "@ + debug_text(m.evidence[k].name)
                + " uses a fit that is not selected as current sample evidence"@,
        )
    } else {
        fit_complaint(m, k + 1)
    }
}

/// The first complaint about how the records of a manifest hang together.
pub open spec fn relationship_complaint(m: ManifestModel) -> Option<Seq<char>> {
    if decision_complaint(m.decisions, 0) is Some {
        decision_complaint(m.decisions, 0)
    } else if recipe_complaint(m.recipes, 0) is Some {
        recipe_complaint(m.recipes, 0)
    } else if execution_complaint(m.recipes, m.executions, 0) is Some {
        execution_complaint(m.recipes, m.executions, 0)
    } else if evidence_complaint(m, 0) is Some {
        evidence_complaint(m, 0)
    } else {
        fit_complaint(m, 0)
    }
}

pub fn find_recipe<'a>(recipes: &'a Vec<Recipe>, id: &str) -> (r: Option<&'a Recipe>)
    ensures
        match r {
            Some(recipe) => recipe_named(views(recipes@), id@) == Some(recipe@),
            None => recipe_named(views(recipes@), id@) is None,
        },
{
    let mut i: usize = 0;
    while i < recipes.len()
        invariant
            i <= recipes.len(),
            recipe_named(views(recipes@), id@) == recipe_from(views(recipes@), id@, i as int),
        decreases recipes.len() - i,
    {
        assert(views(recipes@)[i as int] == recipes@[i as int]@);
        if text::same(recipes[i].id.as_str(), id) {
            return Some(&recipes[i]);
        }
        i += 1;
    }
    None
}

pub fn find_execution<'a>(executions: &'a Vec<Execution>, id: &str) -> (r: Option<&'a Execution>)
    ensures
        match r {
            Some(execution) => execution_named(views(executions@), id@) == Some(execution@),
            None => execution_named(views(executions@), id@) is None,
        },
{
    let mut i: usize = 0;
    while i < executions.len()
        invariant
            i <= executions.len(),
            execution_named(views(executions@), id@) == execution_from(
                views(executions@),
                id@,
                i as int,
            ),
        decreases executions.len() - i,
    {
        assert(views(executions@)[i as int] == executions@[i as int]@);
        if text::same(executions[i].id.as_str(), id) {
            return Some(&executions[i]);
        }
        i += 1;
    }
    None
}

fn has_decision(decisions: &Vec<Decision>, id: &str, end: usize) -> (r: bool)
    requires
        end <= decisions.len(),
    ensures
        r == decided_before(views(decisions@), id@, end as int),
{
    let mut i: usize = 0;
    while i < end
        invariant
            i <= end <= decisions.len(),
            !decided_before(views(decisions@), id@, i as int),
        decreases end - i,
    {
        assert(views(decisions@)[i as int] == decisions@[i as int]@);
        if text::same(decisions[i].id.as_str(), id) {
            return true;
        }
        i += 1;
    }
    false
}

fn check_decisions(decisions: &Vec<Decision>) -> (r: Result<(), Error>)
    ensures
        verdict(r) == judged(decision_complaint(views(decisions@), 0)),
{
    let ghost all = views(decisions@);
    let mut i: usize = 0;
    while i < decisions.len()
        invariant
            i <= decisions.len(),
            all == views(decisions@),
            decision_complaint(all, 0) == decision_complaint(all, i as int),
        decreases decisions.len() - i,
    {
        let decision: &Decision = &decisions[i];
        assert(all[i as int] == decision@);
        let shown: String = text::quoted(decision.id.as_str());
        if has_decision(decisions, decision.id.as_str(), i) {
            return Err(malformed(text::cat2("duplicate decision id ", shown.as_str())));
        }
        if let Some(parent) = &decision.parent {
            if !has_decision(decisions, parent.as_str(), i) {
                let ancestor: String = text::quoted(parent.as_str());
                return Err(
                    malformed(
                        text::cat5(
                            "decision ",
                            shown.as_str(),
                            " parent ",
                            ancestor.as_str(),
                            " must name an earlier local decision",
                        ),
                    ),
                );
            }
        }
        i += 1;
    }
    Ok(())
}

fn has_recipe(recipes: &Vec<Recipe>, id: &str, end: usize) -> (r: bool)
    requires
        end <= recipes.len(),
    ensures
        r == recipe_before(views(recipes@), id@, end as int),
{
    let mut i: usize = 0;
    while i < end
        invariant
            i <= end <= recipes.len(),
            !recipe_before(views(recipes@), id@, i as int),
        decreases end - i,
    {
        assert(views(recipes@)[i as int] == recipes@[i as int]@);
        if text::same(recipes[i].id.as_str(), id) {
            return true;
        }
        i += 1;
    }
    false
}

fn has_recipe_digest(recipes: &Vec<Recipe>, digest: &str, end: usize) -> (r: bool)
    requires
        end <= recipes.len(),
    ensures
        r == recipe_digest_before(views(recipes@), digest@, end as int),
{
    let mut i: usize = 0;
    while i < end
        invariant
            i <= end <= recipes.len(),
            !recipe_digest_before(views(recipes@), digest@, i as int),
        decreases end - i,
    {
        assert(views(recipes@)[i as int] == recipes@[i as int]@);
        if text::same(recipes[i].sha256.as_str(), digest) {
            return true;
        }
        i += 1;
    }
    false
}

fn check_recipes(recipes: &Vec<Recipe>) -> (r: Result<(), Error>)
    ensures
        verdict(r) == judged(recipe_complaint(views(recipes@), 0)),
{
    let ghost all = views(recipes@);
    let mut i: usize = 0;
    while i < recipes.len()
        invariant
            i <= recipes.len(),
            all == views(recipes@),
            recipe_complaint(all, 0) == recipe_complaint(all, i as int),
        decreases recipes.len() - i,
    {
        let recipe: &Recipe = &recipes[i];
        assert(all[i as int] == recipe@);
        if has_recipe(recipes, recipe.id.as_str(), i) {
            let shown: String = text::quoted(recipe.id.as_str());
            return Err(malformed(text::cat2("duplicate recipe id ", shown.as_str())));
        }
        if has_recipe_digest(recipes, recipe.sha256.as_str(), i) {
            return Err(
                malformed(text::cat2("duplicate recipe identity ", recipe.sha256.as_str())),
            );
        }
        i += 1;
    }
    Ok(())
}

fn has_execution(executions: &Vec<Execution>, id: &str, end: usize) -> (r: bool)
    requires
        end <= executions.len(),
    ensures
        r == execution_before(views(executions@), id@, end as int),
{
    let mut i: usize = 0;
    while i < end
        invariant
            i <= end <= executions.len(),
            !execution_before(views(executions@), id@, i as int),
        decreases end - i,
    {
        assert(views(executions@)[i as int] == executions@[i as int]@);
        if text::same(executions[i].id.as_str(), id) {
            return true;
        }
        i += 1;
    }
    false
}

fn check_execution(recipes: &Vec<Recipe>, execution: &Execution) -> (r: Result<(), Error>)
    ensures
        verdict(r) == judged(one_execution_complaint(views(recipes@), execution@)),
{
    let shown: String = text::quoted(execution.id.as_str());
    match find_recipe(recipes, execution.recipe.as_str()) {
        None => {
            let named: String = text::quoted(execution.recipe.as_str());
            Err(
                malformed(
                    text::cat4(
                        "execution ",
                        shown.as_str(),
                        " references missing recipe ",
                        named.as_str(),
                    ),
                ),
            )
        },
        Some(recipe) => {
            if execution.recipe_sha256.0 != recipe.sha256.0 {
                let named: String = text::quoted(execution.recipe.as_str());
                return Err(
                    malformed(
                        text::cat4(
                            "execution ",
                            shown.as_str(),
                            " recipe_sha256 does not match recipe ",
                            named.as_str(),
                        ),
                    ),
                );
            }
            if let Some(output) = &execution.output {
                if output.kind != recipe.operation.output_kind() {
                    let wanted: String = text::quoted(recipe.operation.output_kind().as_str());
                    return Err(
                        malformed(
                            text::cat4(
                                "execution ",
                                shown.as_str(),
                                " output kind must be ",
                                wanted.as_str(),
                            ),
                        ),
                    );
                }
            }
            Ok(())
        },
    }
}

fn check_executions(recipes: &Vec<Recipe>, executions: &Vec<Execution>) -> (r: Result<(), Error>)
    ensures
        verdict(r) == judged(execution_complaint(views(recipes@), views(executions@), 0)),
{
    let ghost all = views(executions@);
    let ghost known = views(recipes@);
    let mut i: usize = 0;
    while i < executions.len()
        invariant
            i <= executions.len(),
            all == views(executions@),
            known == views(recipes@),
            execution_complaint(known, all, 0) == execution_complaint(known, all, i as int),
        decreases executions.len() - i,
    {
        let execution: &Execution = &executions[i];
        assert(all[i as int] == execution@);
        if has_execution(executions, execution.id.as_str(), i) {
            let shown: String = text::quoted(execution.id.as_str());
            return Err(malformed(text::cat2("duplicate execution id ", shown.as_str())));
        }
        check_execution(recipes, execution)?;
        i += 1;
    }
    Ok(())
}

/// Executions without a complaint have their recipe.
proof fn lemma_execution_has_recipe(
    recipes: Seq<RecipeModel>,
    executions: Seq<ExecutionModel>,
    id: Seq<char>,
    i: int,
)
    requires
        0 <= i,
        execution_complaint(recipes, executions, i) is None,
        execution_from(executions, id, i) is Some,
    ensures
        one_execution_complaint(recipes, execution_from(executions, id, i)->0) is None,
        recipe_named(recipes, execution_from(executions, id, i)->0.recipe) is Some,
    decreases executions.len() - i,
{
    if executions[i].id != id {
        lemma_execution_has_recipe(recipes, executions, id, i + 1);
    }
}

/// Every completed execution has an output.
pub open spec fn completed_have_output(executions: Seq<ExecutionModel>) -> bool {
    forall|i: int|
        0 <= i < executions.len() && (#[trigger] executions[i]).outcome == Outcome::Completed
            ==> executions[i].output is Some
}

proof fn lemma_found_execution(executions: Seq<ExecutionModel>, id: Seq<char>, i: int)
    requires
        0 <= i,
        execution_from(executions, id, i) is Some,
    ensures
        exists|j: int| 0 <= j < executions.len() && #[trigger] executions[j] == execution_from(
            executions,
            id,
            i,
        )->0,
        execution_from(executions, id, i)->0.id == id,
    decreases executions.len() - i,
{
    if executions[i].id != id {
        lemma_found_execution(executions, id, i + 1);
    }
}

/// Whether the evidence up to position `k` gives no cause for complaint, nor the records that it
/// rests on.
pub open spec fn sound_upto(m: ManifestModel, k: int) -> bool {
    &&& decision_complaint(m.decisions, 0) is None
    &&& recipe_complaint(m.recipes, 0) is None
    &&& execution_complaint(m.recipes, m.executions, 0) is None
    &&& forall|j: int| 0 <= j <= k ==> #[trigger] one_evidence_complaint(m, j) is None
}

/// The sample runs that sound evidence selects as current have their draws.
pub open spec fn selected_draws_exist(m: ManifestModel) -> bool {
    forall|k: int|
        0 <= k < m.evidence.len() && #[trigger] current_for(m, k, Operation::Sample) && sound_upto(
            m,
            k,
        ) ==> execution_named(m.executions, m.evidence[k].execution)->0.output is Some
}

/// Where every completed execution has an output, the selected draws are there.
proof fn lemma_completed_draws_exist(m: ManifestModel)
    requires
        completed_have_output(m.executions),
    ensures
        selected_draws_exist(m),
{
    assert forall|k: int|
        0 <= k < m.evidence.len() && #[trigger] current_for(m, k, Operation::Sample) && sound_upto(
            m,
            k,
        ) implies execution_named(m.executions, m.evidence[k].execution)->0.output is Some by {
        assert(one_evidence_complaint(m, k) is None);
        lemma_found_execution(m.executions, m.evidence[k].execution, 0);
    }
}

/// Evidence without a complaint has its execution.
proof fn lemma_evidence_has_execution(m: ManifestModel, i: int, k: int)
    requires
        0 <= i <= k < m.evidence.len(),
        evidence_complaint(m, i) is None,
    ensures
        one_evidence_complaint(m, k) is None,
        execution_named(m.executions, m.evidence[k].execution) is Some,
    decreases k - i,
{
    if i < k {
        lemma_evidence_has_execution(m, i + 1, k);
    }
}

impl Manifest {
    fn has_evidence(&self, name: &str, end: usize) -> (r: bool)
        requires
            end <= self.evidence.len(),
        ensures
            r == evidence_before(self@.evidence, name@, end as int),
    {
        let mut i: usize = 0;
        while i < end
            invariant
                i <= end <= self.evidence.len(),
                !evidence_before(self@.evidence, name@, i as int),
            decreases end - i,
        {
            assert(self@.evidence[i as int] == self.evidence@[i as int]@);
            if text::same(self.evidence[i].name.as_str(), name) {
                return true;
            }
            i += 1;
        }
        false
    }

    /// Whether the `k`-th piece of evidence is current evidence for an operation.
    fn is_current_for(&self, k: usize, operation: Operation) -> (r: bool)
        requires
            k < self.evidence.len(),
        ensures
            r == current_for(self@, k as int, operation),
    {
        assert(self@.evidence[k as int] == self.evidence@[k as int]@);
        if self.evidence[k].status != EvidenceStatus::Current {
            return false;
        }
        if let Some(execution) = find_execution(
            &self.executions,
            self.evidence[k].execution.as_str(),
        ) {
            if let Some(recipe) = find_recipe(&self.recipes, execution.recipe.as_str()) {
                return recipe.operation == operation;
            }
        }
        false
    }

    fn has_current(&self, operation: Operation, end: usize) -> (r: bool)
        requires
            end <= self.evidence.len(),
        ensures
            r == current_before(self@, operation, end as int),
    {
        let mut k: usize = 0;
        while k < end
            invariant
                k <= end <= self.evidence.len(),
                !current_before(self@, operation, k as int),
            decreases end - k,
        {
            if self.is_current_for(k, operation) {
                return true;
            }
            k += 1;
        }
        false
    }

    fn check_one_evidence(&self, k: usize) -> (r: Result<(), Error>)
        requires
            k < self.evidence.len(),
            execution_complaint(self@.recipes, self@.executions, 0) is None,
        ensures
            verdict(r) == judged(one_evidence_complaint(self@, k as int)),
    {
        let selection: &EvidenceSelection = &self.evidence[k];
        assert(self@.evidence[k as int] == selection@);
        let shown: String = text::quoted(selection.name.as_str());
        if self.has_evidence(selection.name.as_str(), k) {
            return Err(malformed(text::cat2("duplicate evidence selection name ", shown.as_str())));
        }
        match find_execution(&self.executions, selection.execution.as_str()) {
            None => {
                let wanted: String = text::quoted(selection.execution.as_str());
                Err(
                    malformed(
                        text::cat4(
                            "evidence ",
                            shown.as_str(),
                            " references missing execution ",
                            wanted.as_str(),
                        ),
                    ),
                )
            },
            Some(execution) => {
                if selection.status == EvidenceStatus::Current {
                    if execution.outcome != Outcome::Completed {
                        return Err(
                            malformed(
                                text::cat3(
                                    "current evidence ",
                                    shown.as_str(),
                                    " must reference a completed execution",
                                ),
                            ),
                        );
                    }
                    proof {
                        lemma_execution_has_recipe(
                            self@.recipes,
                            self@.executions,
                            selection.execution@,
                            0,
                        );
                    }
                    let recipe: &Recipe = find_recipe(
                        &self.recipes,
                        execution.recipe.as_str(),
                    ).unwrap();
                    if !recipe.model.same(&self.model) || !recipe.data.same(&self.data) {
                        return Err(
                            malformed(
                                text::cat3(
                                    "current evidence ",
                                    shown.as_str(),
                                    " recipe inputs do not match snapshot model/data",
                                ),
                            ),
                        );
                    }
                    if self.has_current(recipe.operation, k) {
                        let named: String = text::quoted(recipe.operation.as_str());
                        return Err(
                            malformed(
                                text::cat2(
                                    "conflicting current evidence for operation ",
                                    named.as_str(),
                                ),
                            ),
                        );
                    }
                }
                Ok(())
            },
        }
    }

    fn check_evidence(&self) -> (r: Result<(), Error>)
        requires
            execution_complaint(self@.recipes, self@.executions, 0) is None,
        ensures
            verdict(r) == judged(evidence_complaint(self@, 0)),
    {
        let mut k: usize = 0;
        while k < self.evidence.len()
            invariant
                k <= self.evidence.len(),
                execution_complaint(self@.recipes, self@.executions, 0) is None,
                evidence_complaint(self@, 0) == evidence_complaint(self@, k as int),
            decreases self.evidence.len() - k,
        {
            self.check_one_evidence(k)?;
            k += 1;
        }
        Ok(())
    }

    /// Whether the draws of that digest are the output of current sampling evidence.
    fn has_current_fit(&self, digest: &str) -> (r: bool)
        requires
            selected_draws_exist(self@),
            decision_complaint(self@.decisions, 0) is None,
            recipe_complaint(self@.recipes, 0) is None,
            execution_complaint(self@.recipes, self@.executions, 0) is None,
            evidence_complaint(self@, 0) is None,
        ensures
            r == current_fit(self@, digest@),
    {
        let mut k: usize = 0;
        while k < self.evidence.len()
            invariant
                k <= self.evidence.len(),
                selected_draws_exist(self@),
                decision_complaint(self@.decisions, 0) is None,
                recipe_complaint(self@.recipes, 0) is None,
                execution_complaint(self@.recipes, self@.executions, 0) is None,
                evidence_complaint(self@, 0) is None,
                forall|j: int|
                    0 <= j < k && #[trigger] current_for(self@, j, Operation::Sample)
                        ==> execution_named(
                        self@.executions,
                        self@.evidence[j].execution,
                    )->0.output->0.sha256 != digest@,
            decreases self.evidence.len() - k,
        {
            if self.is_current_for(k, Operation::Sample) {
                let selection: &EvidenceSelection = &self.evidence[k];
                proof {
                    assert(self@.evidence[k as int] == selection@);
                    assert forall|j: int| 0 <= j <= k implies #[trigger] one_evidence_complaint(
                        self@,
                        j,
                    ) is None by {
                        lemma_evidence_has_execution(self@, 0, j);
                    }
                    assert(sound_upto(self@, k as int));
                    lemma_evidence_has_execution(self@, 0, k as int);
                }
                let execution: &Execution = find_execution(
                    &self.executions,
                    selection.execution.as_str(),
                ).unwrap();
                assert(execution@.output is Some);
                if let Some(output) = &execution.output {
                    if text::same(output.sha256.as_str(), digest) {
                        return true;
                    }
                }
            }
            k += 1;
        }
        false
    }

    fn check_fits(&self) -> (r: Result<(), Error>)
        requires
            selected_draws_exist(self@),
            decision_complaint(self@.decisions, 0) is None,
            recipe_complaint(self@.recipes, 0) is None,
            execution_complaint(self@.recipes, self@.executions, 0) is None,
            evidence_complaint(self@, 0) is None,
        ensures
            verdict(r) == judged(fit_complaint(self@, 0)),
    {
        let mut k: usize = 0;
        while k < self.evidence.len()
            invariant
                k <= self.evidence.len(),
                selected_draws_exist(self@),
                decision_complaint(self@.decisions, 0) is None,
                recipe_complaint(self@.recipes, 0) is None,
                execution_complaint(self@.recipes, self@.executions, 0) is None,
                evidence_complaint(self@, 0) is None,
                fit_complaint(self@, 0) == fit_complaint(self@, k as int),
            decreases self.evidence.len() - k,
        {
            let selection: &EvidenceSelection = &self.evidence[k];
            assert(self@.evidence[k as int] == selection@);
            if selection.status == EvidenceStatus::Current {
                proof {
                    lemma_evidence_has_execution(self@, 0, k as int);
                    lemma_execution_has_recipe(
                        self@.recipes,
                        self@.executions,
                        selection.execution@,
                        0,
                    );
                }
                let execution: &Execution = find_execution(
                    &self.executions,
                    selection.execution.as_str(),
                ).unwrap();
                let recipe: &Recipe = find_recipe(
                    &self.recipes,
                    execution.recipe.as_str(),
                ).unwrap();
                if let Some(fit) = &recipe.fit {
                    if !self.has_current_fit(fit.sha256.as_str()) {
                        let shown: String = text::quoted(selection.name.as_str());
                        return Err(
                            malformed(
                                text::cat3(
                                    "current evidence ",
                                    shown.as_str(),
                                    " uses a fit that is not selected as current sample evidence",
                                ),
                            ),
                        );
                    }
                }
            }
            k += 1;
        }
        Ok(())
    }

    /// Checks how the records hang together: unique names, earlier parents, known recipes and
    /// executions, and current evidence that speaks for this model and data.
    pub fn validate_relationships(&self) -> (r: Result<(), Error>)
        requires
            selected_draws_exist(self@),
        ensures
            verdict(r) == judged(relationship_complaint(self@)),
    {
        check_decisions(&self.decisions)?;
        check_recipes(&self.recipes)?;
        check_executions(&self.recipes, &self.executions)?;
        self.check_evidence()?;
        self.check_fits()
    }
}

/// Reading the first `n` records of a list, each in the context of its place.
pub open spec fn records_upto<M>(
    items: Seq<Json>,
    name: Seq<char>,
    parser: spec_fn(Json, Seq<char>) -> Result<M, Fault>,
    n: nat,
) -> Result<Seq<M>, Fault>
    decreases n,
{
    if n == 0 {
        Ok(Seq::empty())
    } else {
        match records_upto(items, name, parser, (n - 1) as nat) {
            Err(fault) => Err(fault),
            Ok(before) => match parser(items[n - 1], record_place(name, (n - 1) as nat)) {
                Err(fault) => Err(fault),
                Ok(record) => Ok(before.push(record)),
            },
        }
    }
}

/// Where a record stands.
pub open spec fn record_place(name: Seq<char>, index: nat) -> Seq<char> {
    "manifest "@ + name + "["@ + decimal_text(index) + "]"@
}

/// What reading a list of records gives.
pub open spec fn parsed_records<M>(
    v: Json,
    name: Seq<char>,
    context: Seq<char>,
    parser: spec_fn(Json, Seq<char>) -> Result<M, Fault>,
) -> Result<Seq<M>, Fault> {
    match array_field(v, name, context) {
        Err(fault) => Err(fault),
        Ok(items) => if items.len() > MAX_RECORDS {
            Err(
                malformed_fault(
                    "investigation manifest "@ + name + " exceeds the 256-record limit"@,
                ),
            )
        } else {
            records_upto(items, name, parser, items.len())
        },
    }
}

/// The view of a result that carries a list.
pub open spec fn list_outcome<T: View>(r: Result<Vec<T>, Error>) -> Result<Seq<T::V>, Fault> {
    match r {
        Ok(list) => Ok(views(list@)),
        Err(error) => Err(error@),
    }
}

proof fn lemma_records_fail<M>(
    items: Seq<Json>,
    name: Seq<char>,
    parser: spec_fn(Json, Seq<char>) -> Result<M, Fault>,
    m: nat,
    n: nat,
)
    requires
        m <= n,
        records_upto(items, name, parser, m) is Err,
    ensures
        records_upto(items, name, parser, n) == records_upto(items, name, parser, m),
    decreases n - m,
{
    if m < n {
        lemma_records_fail(items, name, parser, m, (n - 1) as nat);
    }
}

fn parse_record_array<T: View, P: Fn(&Value, &str) -> Result<T, Error>>(
    document: &Value,
    name: &str,
    context: &str,
    parser: P,
    meaning: Ghost<spec_fn(Json, Seq<char>) -> Result<T::V, Fault>>,
) -> (r: Result<Vec<T>, Error>)
    requires
        forall|v: &Value, c: &str| #[trigger] call_requires(parser, (v, c)),
        forall|v: &Value, c: &str, out: Result<T, Error>| #[trigger]
            call_ensures(parser, (v, c), out) ==> outcome(out) == (meaning@)(v@, c@),
    ensures
        list_outcome(r) == parsed_records(document@, name@, context@, meaning@),
{
    broadcast use group_json_views;

    let entries: &Vec<Value> = required_array(document, name, context)?;
    if entries.len() > MAX_RECORDS {
        return Err(
            malformed(
                text::cat3("investigation manifest ", name, " exceeds the 256-record limit"),
            ),
        );
    }
    let ghost all = items_view(entries@);
    let mut out: Vec<T> = Vec::new();
    assert(views(out@) =~= Seq::empty());
    let mut i: usize = 0;
    while i < entries.len()
        invariant
            i <= entries.len(),
            all == items_view(entries@),
            all.len() == entries.len() <= MAX_RECORDS,
            array_field(document@, name@, context@) == Ok::<Seq<Json>, Fault>(all),
            forall|v: &Value, c: &str| #[trigger] call_requires(parser, (v, c)),
            forall|v: &Value, c: &str, out: Result<T, Error>| #[trigger]
                call_ensures(parser, (v, c), out) ==> outcome(out) == (meaning@)(v@, c@),
            records_upto(all, name@, meaning@, i as nat) == Ok::<Seq<T::V>, Fault>(views(out@)),
        decreases entries.len() - i,
    {
        broadcast use group_json_views;

        assert(all[i as int] == entries@[i as int]@);
        let index: String = text::decimal(i as u64);
        let place: String = text::cat5("manifest ", name, "[", index.as_str(), "]");
        let read: Result<T, Error> = parser(&entries[i], place.as_str());
        match read {
            Err(error) => {
                proof {
                    lemma_records_fail(all, name@, meaning@, (i + 1) as nat, all.len());
                }
                return Err(error);
            },
            Ok(record) => {
                let ghost before = out@;
                out.push(record);
                assert(views(out@) =~= views(before).push(record@));
            },
        }
        i += 1;
    }
    Ok(out)
}

/// Reading the first `n` unresolved questions.
pub open spec fn questions_upto(items: Seq<Json>, n: nat) -> Result<Seq<Seq<char>>, Fault>
    decreases n,
{
    if n == 0 {
        Ok(Seq::empty())
    } else {
        match questions_upto(items, (n - 1) as nat) {
            Err(fault) => Err(fault),
            Ok(before) => match string_of(Some(items[n - 1])) {
                None => Err(
                    malformed_fault(
                        "manifest unresolved_questions["@ + decimal_text((n - 1) as nat)
                            + "] must be a string"@,
                    ),
                ),
                Some(question) => match bounded(question, "unresolved question"@) {
                    Err(fault) => Err(fault),
                    Ok(kept) => Ok(before.push(kept)),
                },
            },
        }
    }
}

proof fn lemma_questions_fail(items: Seq<Json>, m: nat, n: nat)
    requires
        m <= n,
        questions_upto(items, m) is Err,
    ensures
        questions_upto(items, n) == questions_upto(items, m),
    decreases n - m,
{
    if m < n {
        lemma_questions_fail(items, m, (n - 1) as nat);
    }
}

fn read_questions(items: &Vec<Value>) -> (r: Result<Vec<String>, Error>)
    ensures
        list_outcome(r) == questions_upto(items_view(items@), items@.len()),
{
    broadcast use group_json_views;

    let ghost all = items_view(items@);
    let mut out: Vec<String> = Vec::new();
    assert(views(out@) =~= Seq::empty());
    let mut i: usize = 0;
    while i < items.len()
        invariant
            i <= items.len(),
            all == items_view(items@),
            questions_upto(all, i as nat) == Ok::<Seq<Seq<char>>, Fault>(views(out@)),
        decreases items.len() - i,
    {
        broadcast use group_json_views;

        assert(all[i as int] == items@[i as int]@);
        match items[i].as_str() {
            None => {
                proof {
                    lemma_questions_fail(all, (i + 1) as nat, items@.len());
                }
                let index: String = text::decimal(i as u64);
                return Err(
                    malformed(
                        text::cat3(
                            "manifest unresolved_questions[",
                            index.as_str(),
                            "] must be a string",
                        ),
                    ),
                );
            },
            Some(question) => {
                match bounded_text(question, "unresolved question") {
                    Err(error) => {
                        proof {
                            lemma_questions_fail(all, (i + 1) as nat, items@.len());
                        }
                        return Err(error);
                    },
                    Ok(kept) => {
                        let ghost before = out@;
                        out.push(kept);
                        assert(views(out@) =~= views(before).push(kept@));
                    },
                }
            },
        }
        i += 1;
    }
    Ok(out)
}

pub open spec fn manifest_fields() -> Seq<Seq<char>> {
    seq![
        "investigation_snapshot"@,
        "question"@,
        "estimand"@,
        "source"@,
        "inputs"@,
        "decisions"@,
        "recipes"@,
        "executions"@,
        "evidence"@,
        "interpretation"@,
        "unresolved_questions"@,
    ]
}

pub open spec fn estimand_fields() -> Seq<Seq<char>> {
    seq!["description"@, "parameter"@]
}

pub open spec fn decision_parser() -> spec_fn(Json, Seq<char>) -> Result<DecisionModel, Fault> {
    |v: Json, c: Seq<char>| parsed_decision(v, c)
}

pub open spec fn recipe_parser() -> spec_fn(Json, Seq<char>) -> Result<RecipeModel, Fault> {
    |v: Json, c: Seq<char>| parsed_recipe(v, c)
}

pub open spec fn execution_parser() -> spec_fn(Json, Seq<char>) -> Result<ExecutionModel, Fault> {
    |v: Json, c: Seq<char>| parsed_execution(v, c)
}

pub open spec fn evidence_parser() -> spec_fn(Json, Seq<char>) -> Result<EvidenceModel, Fault> {
    |v: Json, c: Seq<char>| parsed_evidence(v, c)
}

/// The lists of a manifest.
#[verifier::ext_equal]
pub struct ListsModel {
    pub decisions: Seq<DecisionModel>,
    pub recipes: Seq<RecipeModel>,
    pub executions: Seq<ExecutionModel>,
    pub evidence: Seq<EvidenceModel>,
    pub unresolved_questions: Seq<Seq<char>>,
}

/// What reading the lists of a manifest gives.
pub open spec fn parsed_lists(v: Json) -> Result<ListsModel, Fault> {
    let context = "investigation manifest"@;
    match parsed_records(v, "decisions"@, context, decision_parser()) {
        Err(fault) => Err(fault),
        Ok(decisions) => match parsed_records(v, "recipes"@, context, recipe_parser()) {
            Err(fault) => Err(fault),
            Ok(recipes) => match parsed_records(v, "executions"@, context, execution_parser()) {
                Err(fault) => Err(fault),
                Ok(executions) => match parsed_records(v, "evidence"@, context, evidence_parser()) {
                    Err(fault) => Err(fault),
                    Ok(evidence) => match array_field(v, "unresolved_questions"@, context) {
                        Err(fault) => Err(fault),
                        Ok(items) => match questions_upto(items, items.len()) {
                            Err(fault) => Err(fault),
                            Ok(unresolved_questions) => Ok(
                                ListsModel {
                                    decisions,
                                    recipes,
                                    executions,
                                    evidence,
                                    unresolved_questions,
                                },
                            ),
                        },
                    },
                },
            },
        },
    }
}

/// Reading a text field that must stay short; `label` names it in the complaint.
pub open spec fn bounded_field(v: Json, name: Seq<char>, context: Seq<char>, label: Seq<char>) -> Result<
    Seq<char>,
    Fault,
> {
    match text_field(v, name, context) {
        Err(fault) => Err(fault),
        Ok(s) => bounded(s, label),
    }
}

fn required_bounded(value: &Value, name: &str, context: &str, label: &str) -> (r: Result<
    String,
    Error,
>)
    ensures
        outcome(r) == bounded_field(value@, name@, context@, label@),
{
    let found: &str = required_str(value, name, context)?;
    bounded_text(found, label)
}

/// The texts of a manifest.
#[verifier::ext_equal]
pub struct TextsModel {
    pub question: Seq<char>,
    pub estimand_description: Seq<char>,
    pub estimand_parameter: Seq<char>,
    pub interpretation: Seq<char>,
}

/// What reading the texts of a manifest gives.
pub open spec fn parsed_texts(v: Json) -> Result<TextsModel, Fault> {
    let context = "investigation manifest"@;
    let estimand = field(v, "estimand"@)->0;
    match bounded_field(v, "question"@, context, "question"@) {
        Err(fault) => Err(fault),
        Ok(question) => match bounded_field(
            estimand,
            "description"@,
            "estimand"@,
            "estimand description"@,
        ) {
            Err(fault) => Err(fault),
            Ok(estimand_description) => match text_field(estimand, "parameter"@, "estimand"@) {
                Err(fault) => Err(fault),
                Ok(parameter) => match identified(parameter, "estimand parameter"@) {
                    Err(fault) => Err(fault),
                    Ok(estimand_parameter) => match bounded_field(
                        v,
                        "interpretation"@,
                        context,
                        "interpretation"@,
                    ) {
                        Err(fault) => Err(fault),
                        Ok(interpretation) => Ok(
                            TextsModel {
                                question,
                                estimand_description,
                                estimand_parameter,
                                interpretation,
                            },
                        ),
                    },
                },
            },
        },
    }
}

/// What reading the source of a manifest gives.
pub open spec fn parsed_optional_source(v: Json) -> Result<Option<SourceModel>, Fault> {
    if v == Json::Null {
        Ok(None)
    } else {
        match parsed_source(v, "investigation manifest source"@) {
            Err(fault) => Err(fault),
            Ok(source) => Ok(Some(source)),
        }
    }
}

/// The rest of reading a manifest, once its source and inputs were read.
#[verifier::opaque]
pub open spec fn manifest_tail(v: Json, source: Option<SourceModel>, inputs: InputsModel) -> Result<
    ManifestModel,
    Fault,
> {
    match parsed_lists(v) {
        Err(fault) => Err(fault),
        Ok(lists) => match parsed_texts(v) {
            Err(fault) => Err(fault),
            Ok(texts) => {
                let m = ManifestModel {
                    question: texts.question,
                    estimand_description: texts.estimand_description,
                    estimand_parameter: texts.estimand_parameter,
                    source,
                    model: inputs.model,
                    data: inputs.data,
                    decisions: lists.decisions,
                    recipes: lists.recipes,
                    executions: lists.executions,
                    evidence: lists.evidence,
                    interpretation: texts.interpretation,
                    unresolved_questions: lists.unresolved_questions,
                };
                match relationship_complaint(m) {
                    Some(message) => Err(malformed_fault(message)),
                    None => Ok(m),
                }
            },
        },
    }
}

/// What reading a manifest gives: the first complaint, or the manifest.
pub open spec fn parsed_manifest(v: Json) -> Result<ManifestModel, Fault> {
    let context = "investigation manifest"@;
    match object_complaint(v, context, manifest_fields(), manifest_fields()) {
        Some(message) => Err(malformed_fault(message)),
        None => match text_field(v, "investigation_snapshot"@, context) {
            Err(fault) => Err(fault),
            Ok(version) => if version != SNAPSHOT_FORMAT@ {
                Err(
                    malformed_fault(
                        "unsupported investigation_snapshot version; expected "@ + debug_text(
                            SNAPSHOT_FORMAT@,
                        ),
                    ),
                )
            } else {
                match object_complaint(
                    field(v, "estimand"@)->0,
                    "investigation manifest estimand"@,
                    estimand_fields(),
                    estimand_fields(),
                ) {
                    Some(message) => Err(malformed_fault(message)),
                    None => match parsed_optional_source(field(v, "source"@)->0) {
                        Err(fault) => Err(fault),
                        Ok(source) => match parsed_inputs(
                            field(v, "inputs"@)->0,
                            "investigation manifest inputs"@,
                            "investigation manifest input kinds must be model_ir and data"@,
                        ) {
                            Err(fault) => Err(fault),
                            Ok(inputs) => manifest_tail(v, source, inputs),
                        },
                    },
                }
            },
        },
    }
}

/// Reading a list without failure keeps what each single reading gives.
pub proof fn lemma_records_each<M>(
    items: Seq<Json>,
    name: Seq<char>,
    parser: spec_fn(Json, Seq<char>) -> Result<M, Fault>,
    n: nat,
    i: int,
)
    requires
        records_upto(items, name, parser, n) is Ok,
        0 <= i < n,
    ensures
        records_upto(items, name, parser, n)->Ok_0.len() == n,
        parser(items[i], record_place(name, i as nat)) == Ok::<M, Fault>(
            records_upto(items, name, parser, n)->Ok_0[i],
        ),
    decreases n,
{
    if i < n - 1 {
        lemma_records_each(items, name, parser, (n - 1) as nat, i);
    } else {
        lemma_records_len(items, name, parser, (n - 1) as nat);
    }
}

pub proof fn lemma_records_len<M>(
    items: Seq<Json>,
    name: Seq<char>,
    parser: spec_fn(Json, Seq<char>) -> Result<M, Fault>,
    n: nat,
)
    requires
        records_upto(items, name, parser, n) is Ok,
    ensures
        records_upto(items, name, parser, n)->Ok_0.len() == n,
    decreases n,
{
    if n > 0 {
        lemma_records_len(items, name, parser, (n - 1) as nat);
    }
}

/// Executions that were read are complete in themselves.
proof fn lemma_read_executions(v: Json, context: Seq<char>)
    requires
        parsed_records(v, "executions"@, context, execution_parser()) is Ok,
    ensures
        completed_have_output(
            parsed_records(v, "executions"@, context, execution_parser())->Ok_0,
        ),
{
    let items = array_field(v, "executions"@, context)->Ok_0;
    let list = parsed_records(v, "executions"@, context, execution_parser())->Ok_0;
    lemma_records_len(items, "executions"@, execution_parser(), items.len());
    assert forall|i: int|
        0 <= i < list.len() && (#[trigger] list[i]).outcome == Outcome::Completed implies list[i].output is Some by {
        lemma_records_each(items, "executions"@, execution_parser(), items.len(), i);
        assert(parsed_execution(items[i], record_place("executions"@, i as nat)) == Ok::<
            ExecutionModel,
            Fault,
        >(list[i]));
    }
}

fn read_lists(value: &Value) -> (r: Result<
    (Vec<Decision>, Vec<Recipe>, Vec<Execution>, Vec<EvidenceSelection>, Vec<String>),
    Error,
>)
    ensures
        match r {
            Ok(lists) => parsed_lists(value@) == Ok::<ListsModel, Fault>(
                ListsModel {
                    decisions: views(lists.0@),
                    recipes: views(lists.1@),
                    executions: views(lists.2@),
                    evidence: views(lists.3@),
                    unresolved_questions: views(lists.4@),
                },
            ) && completed_have_output(views(lists.2@)),
            Err(error) => parsed_lists(value@) == Err::<ListsModel, Fault>(error@),
        },
{
    broadcast use group_json_views;

    let context: &str = "investigation manifest";
    let decisions: Vec<Decision> = parse_record_array(
        value,
        "decisions",
        context,
        Decision::parse,
        Ghost(decision_parser()),
    )?;
    let recipes: Vec<Recipe> = parse_record_array(
        value,
        "recipes",
        context,
        Recipe::parse,
        Ghost(recipe_parser()),
    )?;
    let executions: Vec<Execution> = parse_record_array(
        value,
        "executions",
        context,
        Execution::parse,
        Ghost(execution_parser()),
    )?;
    proof {
        lemma_read_executions(value@, context@);
    }
    let evidence: Vec<EvidenceSelection> = parse_record_array(
        value,
        "evidence",
        context,
        EvidenceSelection::parse,
        Ghost(evidence_parser()),
    )?;
    let asked: &Vec<Value> = required_array(value, "unresolved_questions", context)?;
    let questions: Vec<String> = read_questions(asked)?;
    Ok((decisions, recipes, executions, evidence, questions))
}

fn read_texts(value: &Value, estimand: &Value) -> (r: Result<
    (String, String, String, String),
    Error,
>)
    requires
        field(value@, "estimand"@) == Some(estimand@),
    ensures
        match r {
            Ok(texts) => parsed_texts(value@) == Ok::<TextsModel, Fault>(
                TextsModel {
                    question: texts.0@,
                    estimand_description: texts.1@,
                    estimand_parameter: texts.2@,
                    interpretation: texts.3@,
                },
            ),
            Err(error) => parsed_texts(value@) == Err::<TextsModel, Fault>(error@),
        },
{
    let context: &str = "investigation manifest";
    let question: String = required_bounded(value, "question", context, "question")?;
    let description: String = required_bounded(
        estimand,
        "description",
        "estimand",
        "estimand description",
    )?;
    let parameter: String = validate_identifier(
        required_str(estimand, "parameter", "estimand")?,
        "estimand parameter",
    )?;
    let interpretation: String = required_bounded(
        value,
        "interpretation",
        context,
        "interpretation",
    )?;
    Ok((question, description, parameter, interpretation))
}

fn read_source(value: &Value) -> (r: Result<Option<Source>, Error>)
    ensures
        match r {
            Ok(source) => parsed_optional_source(value@) == Ok::<Option<SourceModel>, Fault>(
                optional_source(source),
            ),
            Err(error) => parsed_optional_source(value@) == Err::<Option<SourceModel>, Fault>(error@),
        },
{
    match value {
        Value::Null => Ok(None),
        _ => {
            let source: Source = Source::parse(value, "investigation manifest source")?;
            Ok(Some(source))
        },
    }
}

fn read_tail(value: &Value, estimand: &Value, source: Option<Source>, inputs: DecisionInputs) -> (r:
    Result<Manifest, Error>)
    requires
        field(value@, "estimand"@) == Some(estimand@),
    ensures
        outcome(r) == manifest_tail(value@, optional_source(source), inputs@),
{
    reveal(manifest_tail);
    let (decisions, recipes, executions, evidence, unresolved_questions) = read_lists(value)?;
    let (question, estimand_description, estimand_parameter, interpretation) = read_texts(
        value,
        estimand,
    )?;
    let manifest: Manifest = Manifest {
        question,
        estimand_description,
        estimand_parameter,
        source,
        model: inputs.model,
        data: inputs.data,
        decisions,
        recipes,
        executions,
        evidence,
        interpretation,
        unresolved_questions,
    };
    proof {
        lemma_completed_draws_exist(manifest@);
    }
    manifest.validate_relationships()?;
    Ok(manifest)
}

impl Manifest {
    pub fn parse(value: &Value) -> (r: Result<Manifest, Error>)
        ensures
            outcome(r) == parsed_manifest(value@),
    {
        let context: &str = "investigation manifest";
        let names: [&str; 11] = [
            "investigation_snapshot",
            "question",
            "estimand",
            "source",
            "inputs",
            "decisions",
            "recipes",
            "executions",
            "evidence",
            "interpretation",
            "unresolved_questions",
        ];
        assert(names_view(names@) =~= manifest_fields());
        checked_object(value, context, &names, &names)?;
        proof {
            let all = manifest_fields();
            assert(all[2] == "estimand"@ && all[3] == "source"@ && all[4] == "inputs"@);
            lemma_required_field(value@, context@, all, all, "estimand"@);
            lemma_required_field(value@, context@, all, all, "source"@);
            lemma_required_field(value@, context@, all, all, "inputs"@);
        }
        let version: &str = required_str(value, "investigation_snapshot", context)?;
        if !text::same(version, SNAPSHOT_FORMAT) {
            let shown: String = text::quoted(SNAPSHOT_FORMAT);
            return Err(
                malformed(
                    text::cat2(
                        "unsupported investigation_snapshot version; expected ",
                        shown.as_str(),
                    ),
                ),
            );
        }
        let estimand: &Value = value.get("estimand").unwrap();
        let parts: [&str; 2] = ["description", "parameter"];
        assert(names_view(parts@) =~= estimand_fields());
        checked_object(estimand, "investigation manifest estimand", &parts, &parts)?;
        let source: Option<Source> = read_source(value.get("source").unwrap())?;
        let inputs: DecisionInputs = DecisionInputs::read(
            value.get("inputs").unwrap(),
            "investigation manifest inputs",
            "investigation manifest input kinds must be model_ir and data",
        )?;
        read_tail(value, estimand, source, inputs)
    }

    /// Reads the exact bytes of a manifest. `read_json` turns JSON text into a document.
    pub fn parse_bytes<R: Fn(&str) -> Result<Value, Error>>(bytes: &[u8], read_json: &R) -> (r: Result<
        Manifest,
        Error,
    >)
        requires
            forall|s: &str| #[trigger] call_requires(*read_json, (s,)),
        ensures
            manifest_read(
                |s: Seq<char>, v: Result<Json, Fault>| reads(*read_json, s, v),
                bytes@,
                outcome(r),
            ),
    {
        if bytes.len() > MAX_MANIFEST_BYTES {
            return Err(malformed("manifest exceeds the 1048576-byte limit".to_owned()));
        }
        match text::utf8_text(bytes) {
            None => Err(malformed("manifest must be UTF-8 JSON".to_owned())),
            Some(s) => {
                let document: Result<Value, Error> = read_json(s);
                proof {
                    let reading = |t: Seq<char>, v: Result<Json, Fault>| reads(*read_json, t, v);
                    assert(reads(*read_json, s@, outcome(document)));
                    assert(reading(s@, outcome(document)));
                }
                match document {
                    Err(error) => Err(error),
                    Ok(value) => Manifest::parse(&value),
                }
            },
        }
    }
}

/// Whether a reader of JSON text can read a text as that.
pub open spec fn reads<R: Fn(&str) -> Result<Value, Error>>(
    read_json: R,
    text: Seq<char>,
    document: Result<Json, Fault>,
) -> bool {
    exists|s: &str, r: Result<Value, Error>|
        s@ == text && #[trigger] call_ensures(read_json, (s,), r) && outcome(r) == document
}

/// What a manifest is read as, given what its text was read as.
pub open spec fn read_manifest(document: Result<Json, Fault>) -> Result<ManifestModel, Fault> {
    match document {
        Err(fault) => Err(fault),
        Ok(value) => parsed_manifest(value),
    }
}

/// Whether the exact bytes of a manifest can be read as that, by what texts can be read as.
pub open spec fn manifest_read(
    reading: spec_fn(Seq<char>, Result<Json, Fault>) -> bool,
    bytes: Seq<u8>,
    out: Result<ManifestModel, Fault>,
) -> bool {
    if bytes.len() > MAX_MANIFEST_BYTES {
        out == Err::<ManifestModel, Fault>(
            malformed_fault("manifest exceeds the 1048576-byte limit"@),
        )
    } else if !vstd::utf8::valid_utf8(bytes) {
        out == Err::<ManifestModel, Fault>(malformed_fault("manifest must be UTF-8 JSON"@))
    } else {
        exists|document: Result<Json, Fault>| #[trigger]
            reading(vstd::utf8::decode_utf8(bytes), document) && out == read_manifest(document)
    }
}

/// The document form of a manifest.
pub open spec fn manifest_json(m: ManifestModel) -> Json {
    Json::Object(
        seq![
            ("investigation_snapshot"@, Json::Str(SNAPSHOT_FORMAT@)),
            ("question"@, Json::Str(m.question)),
            (
                "estimand"@,
                Json::Object(
                    seq![
                        ("description"@, Json::Str(m.estimand_description)),
                        ("parameter"@, Json::Str(m.estimand_parameter)),
                    ],
                ),
            ),
            (
                "source"@,
                match m.source {
                    Some(source) => source_json(source),
                    None => Json::Null,
                },
            ),
            ("inputs"@, inputs_json(InputsModel { model: m.model, data: m.data })),
            ("decisions"@, Json::Array(m.decisions.map_values(|d: DecisionModel| decision_json(d)))),
            ("recipes"@, Json::Array(m.recipes.map_values(|r: RecipeModel| recipe_json(r)))),
            (
                "executions"@,
                Json::Array(m.executions.map_values(|e: ExecutionModel| execution_json(e))),
            ),
            ("evidence"@, Json::Array(m.evidence.map_values(|e: EvidenceModel| evidence_json(e)))),
            ("interpretation"@, Json::Str(m.interpretation)),
            ("unresolved_questions"@, texts_json(m.unresolved_questions)),
        ],
    )
}

/// The direct references of one decision.
pub open spec fn decision_refs(d: DecisionModel) -> Seq<RefModel> {
    seq![d.inputs.model, d.inputs.data]
}

/// The direct references of one recipe.
pub open spec fn recipe_refs(r: RecipeModel) -> Seq<RefModel> {
    (match r.fit {
        Some(fit) => seq![r.model, r.data, fit],
        None => seq![r.model, r.data],
    }) + seq![r.engine.binary, r.engine.capabilities]
}

/// The direct references of one execution.
pub open spec fn execution_refs(e: ExecutionModel) -> Seq<RefModel> {
    match e.output {
        Some(output) => seq![output],
        None => Seq::empty(),
    }
}

/// What a list of records refers to, in order.
pub open spec fn gathered<M>(records: Seq<M>, refs: spec_fn(M) -> Seq<RefModel>) -> Seq<RefModel>
    decreases records.len(),
{
    if records.len() == 0 {
        Seq::empty()
    } else {
        gathered(records.drop_last(), refs) + refs(records.last())
    }
}

/// Every artifact that a manifest names itself, in the order of its records.
pub open spec fn references(m: ManifestModel) -> Seq<RefModel> {
    seq![m.model, m.data] + (match m.source {
        Some(source) => seq![source.manifest],
        None => Seq::empty(),
    }) + gathered(m.decisions, |d: DecisionModel| decision_refs(d)) + gathered(
        m.recipes,
        |r: RecipeModel| recipe_refs(r),
    ) + gathered(m.executions, |e: ExecutionModel| execution_refs(e))
}

/// The views of borrowed references.
pub open spec fn ref_views(s: Seq<&ArtifactRef>) -> Seq<RefModel> {
    s.map_values(|r: &ArtifactRef| r@)
}

/// The first decision of that id at or behind position `i`.
pub open spec fn decision_from(decisions: Seq<DecisionModel>, id: Seq<char>, i: int) -> Option<
    DecisionModel,
>
    decreases decisions.len() - i,
{
    if i < 0 || i >= decisions.len() {
        None
    } else if decisions[i].id == id {
        Some(decisions[i])
    } else {
        decision_from(decisions, id, i + 1)
    }
}

fn push_ref<'a>(out: &mut Vec<&'a ArtifactRef>, reference: &'a ArtifactRef)
    ensures
        ref_views(final(out)@) == ref_views(old(out)@) + seq![reference@],
{
    out.push(reference);
    assert(ref_views(out@) =~= ref_views(old(out)@) + seq![reference@]);
}

fn decision_values(list: &Vec<Decision>) -> (r: Value)
    ensures
        r@ == Json::Array(views(list@).map_values(|d: DecisionModel| decision_json(d))),
{
    broadcast use group_json_views;

    let mut out: Vec<Value> = Vec::new();
    let mut i: usize = 0;
    while i < list.len()
        invariant
            i <= list.len(),
            out.len() == i,
            forall|j: int| 0 <= j < i ==> (#[trigger] out@[j])@ == decision_json(list@[j]@),
        decreases list.len() - i,
    {
        out.push(list[i].to_value());
        i += 1;
    }
    assert(items_view(out@) =~= views(list@).map_values(|d: DecisionModel| decision_json(d)));
    Value::Array(out)
}

fn recipe_values(list: &Vec<Recipe>) -> (r: Value)
    ensures
        r@ == Json::Array(views(list@).map_values(|d: RecipeModel| recipe_json(d))),
{
    broadcast use group_json_views;

    let mut out: Vec<Value> = Vec::new();
    let mut i: usize = 0;
    while i < list.len()
        invariant
            i <= list.len(),
            out.len() == i,
            forall|j: int| 0 <= j < i ==> (#[trigger] out@[j])@ == recipe_json(list@[j]@),
        decreases list.len() - i,
    {
        out.push(list[i].to_value());
        i += 1;
    }
    assert(items_view(out@) =~= views(list@).map_values(|d: RecipeModel| recipe_json(d)));
    Value::Array(out)
}

fn execution_values(list: &Vec<Execution>) -> (r: Value)
    ensures
        r@ == Json::Array(views(list@).map_values(|d: ExecutionModel| execution_json(d))),
{
    broadcast use group_json_views;

    let mut out: Vec<Value> = Vec::new();
    let mut i: usize = 0;
    while i < list.len()
        invariant
            i <= list.len(),
            out.len() == i,
            forall|j: int| 0 <= j < i ==> (#[trigger] out@[j])@ == execution_json(list@[j]@),
        decreases list.len() - i,
    {
        out.push(list[i].to_value());
        i += 1;
    }
    assert(items_view(out@) =~= views(list@).map_values(|d: ExecutionModel| execution_json(d)));
    Value::Array(out)
}

fn evidence_values(list: &Vec<EvidenceSelection>) -> (r: Value)
    ensures
        r@ == Json::Array(views(list@).map_values(|d: EvidenceModel| evidence_json(d))),
{
    broadcast use group_json_views;

    let mut out: Vec<Value> = Vec::new();
    let mut i: usize = 0;
    while i < list.len()
        invariant
            i <= list.len(),
            out.len() == i,
            forall|j: int| 0 <= j < i ==> (#[trigger] out@[j])@ == evidence_json(list@[j]@),
        decreases list.len() - i,
    {
        out.push(list[i].to_value());
        i += 1;
    }
    assert(items_view(out@) =~= views(list@).map_values(|d: EvidenceModel| evidence_json(d)));
    Value::Array(out)
}

impl Manifest {
    pub fn to_value(&self) -> (r: Value)
        ensures
            r@ == manifest_json(self@),
    {
        broadcast use group_json_views;

        let ghost m = self@;
        let estimand: Vec<(String, Value)> = vec![
            ("description".to_owned(), Value::Str(self.estimand_description.clone())),
            ("parameter".to_owned(), Value::Str(self.estimand_parameter.clone())),
        ];
        assert(entries_view(estimand@) =~= seq![
            ("description"@, Json::Str(m.estimand_description)),
            ("parameter"@, Json::Str(m.estimand_parameter)),
        ]);
        let inputs: Vec<(String, Value)> = vec![
            ("model".to_owned(), self.model.to_value()),
            ("data".to_owned(), self.data.to_value()),
        ];
        assert(entries_view(inputs@) =~= inputs_json(
            InputsModel { model: m.model, data: m.data },
        )->Object_0);
        let source: Value = match &self.source {
            Some(source) => source.to_value(),
            None => Value::Null,
        };
        let entries: Vec<(String, Value)> = vec![
            ("investigation_snapshot".to_owned(), Value::Str(SNAPSHOT_FORMAT.to_owned())),
            ("question".to_owned(), Value::Str(self.question.clone())),
            ("estimand".to_owned(), Value::Object(estimand)),
            ("source".to_owned(), source),
            ("inputs".to_owned(), Value::Object(inputs)),
            ("decisions".to_owned(), decision_values(&self.decisions)),
            ("recipes".to_owned(), recipe_values(&self.recipes)),
            ("executions".to_owned(), execution_values(&self.executions)),
            ("evidence".to_owned(), evidence_values(&self.evidence)),
            ("interpretation".to_owned(), Value::Str(self.interpretation.clone())),
            ("unresolved_questions".to_owned(), texts_value(&self.unresolved_questions)),
        ];
        assert(entries_view(entries@) =~= manifest_json(m)->Object_0);
        Value::Object(entries)
    }

    /// The exact bytes that a snapshot is identified by.
    pub fn to_bytes(&self) -> (r: Result<Vec<u8>, Error>)
        ensures
            r is Ok,
            r->Ok_0@ == bytes_of(json_text(manifest_json(self@))),
    {
        let written: String = json::write(&self.to_value());
        let mut out: Vec<u8> = Vec::new();
        text::push_bytes(&mut out, written.as_str().as_bytes());
        assert(out@ =~= bytes_of(written@));
        Ok(out)
    }

    pub fn direct_references(&self) -> (r: Vec<&ArtifactRef>)
        ensures
            ref_views(r@) == references(self@),
    {
        let ghost m = self@;
        let mut out: Vec<&ArtifactRef> = vec![&self.model, &self.data];
        if let Some(source) = &self.source {
            push_ref(&mut out, &source.manifest);
        }
        let ghost of_decision = |d: DecisionModel| decision_refs(d);
        let ghost of_recipe = |r: RecipeModel| recipe_refs(r);
        let ghost of_execution = |e: ExecutionModel| execution_refs(e);
        let ghost base = ref_views(out@);
        assert(base =~= seq![m.model, m.data] + (match m.source {
            Some(source) => seq![source.manifest],
            None => Seq::empty(),
        }));
        let mut i: usize = 0;
        assert(base =~= base + gathered(m.decisions.take(0), of_decision));
        while i < self.decisions.len()
            invariant
                i <= self.decisions.len(),
                m == self@,
                of_decision == (|d: DecisionModel| decision_refs(d)),
                ref_views(out@) == base + gathered(m.decisions.take(i as int), of_decision),
            decreases self.decisions.len() - i,
        {
            let decision: &Decision = &self.decisions[i];
            push_ref(&mut out, &decision.inputs.model);
            push_ref(&mut out, &decision.inputs.data);
            proof {
                let done = m.decisions.take(i + 1);
                assert(done.drop_last() =~= m.decisions.take(i as int));
                assert(done.last() == decision@);
                assert(ref_views(out@) =~= base + gathered(done, of_decision));
            }
            i += 1;
        }
        assert(m.decisions.take(i as int) =~= m.decisions);
        let ghost with_decisions = ref_views(out@);
        i = 0;
        assert(with_decisions =~= with_decisions + gathered(m.recipes.take(0), of_recipe));
        while i < self.recipes.len()
            invariant
                i <= self.recipes.len(),
                m == self@,
                of_recipe == (|r: RecipeModel| recipe_refs(r)),
                ref_views(out@) == with_decisions + gathered(m.recipes.take(i as int), of_recipe),
            decreases self.recipes.len() - i,
        {
            let recipe: &Recipe = &self.recipes[i];
            push_ref(&mut out, &recipe.model);
            push_ref(&mut out, &recipe.data);
            if let Some(fit) = &recipe.fit {
                push_ref(&mut out, fit);
            }
            push_ref(&mut out, &recipe.engine.binary);
            push_ref(&mut out, &recipe.engine.capabilities);
            proof {
                let done = m.recipes.take(i + 1);
                assert(done.drop_last() =~= m.recipes.take(i as int));
                assert(done.last() == recipe@);
                assert(ref_views(out@) =~= with_decisions + gathered(done, of_recipe));
            }
            i += 1;
        }
        assert(m.recipes.take(i as int) =~= m.recipes);
        let ghost with_recipes = ref_views(out@);
        i = 0;
        assert(with_recipes =~= with_recipes + gathered(m.executions.take(0), of_execution));
        while i < self.executions.len()
            invariant
                i <= self.executions.len(),
                m == self@,
                of_execution == (|e: ExecutionModel| execution_refs(e)),
                ref_views(out@) == with_recipes + gathered(
                    m.executions.take(i as int),
                    of_execution,
                ),
            decreases self.executions.len() - i,
        {
            let execution: &Execution = &self.executions[i];
            if let Some(output) = &execution.output {
                push_ref(&mut out, output);
            }
            proof {
                let done = m.executions.take(i + 1);
                assert(done.drop_last() =~= m.executions.take(i as int));
                assert(done.last() == execution@);
                assert(ref_views(out@) =~= with_recipes + gathered(done, of_execution));
            }
            i += 1;
        }
        assert(m.executions.take(i as int) =~= m.executions);
        out
    }

    pub fn decision(&self, id: &str) -> (r: Option<&Decision>)
        ensures
            match r {
                Some(found) => decision_from(self@.decisions, id@, 0) == Some(found@),
                None => decision_from(self@.decisions, id@, 0) is None,
            },
    {
        let mut i: usize = 0;
        while i < self.decisions.len()
            invariant
                i <= self.decisions.len(),
                decision_from(self@.decisions, id@, 0) == decision_from(
                    self@.decisions,
                    id@,
                    i as int,
                ),
            decreases self.decisions.len() - i,
        {
            assert(self@.decisions[i as int] == self.decisions@[i as int]@);
            if text::same(self.decisions[i].id.as_str(), id) {
                return Some(&self.decisions[i]);
            }
            i += 1;
        }
        None
    }
}

} // verus!
