//! Laws of whole snapshots: what coherence means, and that a manifest is read back from its
//! document form.

use vstd::prelude::*;

use crate::error::Fault;
use crate::json::{field, Json};

use super::fields::{fits_text, valid_identifier};
use super::laws::{
    distinct, law_decision_round_trip, law_evidence_round_trip, law_execution_round_trip, law_inputs_round_trip,
    law_read_decision_is_valid, law_read_evidence_is_valid, law_read_execution_is_valid, law_read_inputs_are_valid,
    law_read_recipe_is_valid, law_read_source_is_valid, law_recipe_round_trip, law_source_round_trip,
    lemma_exact_object, spells, valid_recipe,
};
use super::ledger::{
    decision_json, evidence_json, execution_json, inputs_json, source_json, texts_json, valid_decision,
    valid_evidence, valid_execution, valid_inputs, valid_source, DecisionModel, EvidenceModel, EvidenceStatus,
    ExecutionModel, InputsModel, Outcome, SourceModel,
};
use super::manifest::{
    current_before, current_fit, current_for, decided_before, decision_complaint, decision_parser, estimand_fields,
    evidence_before, evidence_complaint, evidence_parser, evidence_recipe, execution_before, execution_complaint,
    execution_named, execution_parser, fit_complaint, manifest_fields, manifest_json, manifest_tail,
    one_evidence_complaint, one_execution_complaint, parsed_lists, parsed_manifest, parsed_optional_source,
    parsed_records, parsed_texts, questions_upto, lemma_records_each, lemma_records_len, recipe_before,
    recipe_complaint, recipe_digest_before, recipe_named, recipe_parser, record_place, records_upto,
    relationship_complaint, stale_fit, ListsModel, ManifestModel, TextsModel, MAX_RECORDS, SNAPSHOT_FORMAT,
};
use super::recipe::{output_kind_of, recipe_json, Operation, RecipeModel};

verus! {

/// The decisions form a forest: ids are unique, and a parent comes before its children.
pub open spec fn coherent_decisions(decisions: Seq<DecisionModel>) -> bool {
    &&& forall|i: int, j: int|
        0 <= i < j < decisions.len() ==> (#[trigger] decisions[i]).id != (#[trigger] decisions[j]).id
    &&& forall|i: int|
        0 <= i < decisions.len() && (#[trigger] decisions[i]).parent is Some ==> decided_before(
            decisions,
            decisions[i].parent->0,
            i,
        )
}

/// Recipes have unique ids and unique identities.
pub open spec fn coherent_recipes(recipes: Seq<RecipeModel>) -> bool {
    forall|i: int, j: int|
        0 <= i < j < recipes.len() ==> (#[trigger] recipes[i]).id != (#[trigger] recipes[j]).id
            && recipes[i].sha256 != recipes[j].sha256
}

/// An execution names a recipe and its identity, and its output is of the kind that the recipe
/// puts out.
pub open spec fn follows_recipe(recipes: Seq<RecipeModel>, execution: ExecutionModel) -> bool {
    let recipe = recipe_named(recipes, execution.recipe);
    &&& recipe is Some
    &&& execution.recipe_sha256 == recipe->0.sha256
    &&& execution.output is Some ==> execution.output->0.kind == output_kind_of(recipe->0.operation)
}

/// Executions have unique ids and follow their recipes.
pub open spec fn coherent_executions(recipes: Seq<RecipeModel>, executions: Seq<ExecutionModel>) -> bool {
    &&& forall|i: int, j: int|
        0 <= i < j < executions.len() ==> (#[trigger] executions[i]).id != (
        #[trigger] executions[j]).id
    &&& forall|i: int|
        0 <= i < executions.len() ==> follows_recipe(recipes, #[trigger] executions[i])
}

/// Current evidence is a completed execution on the snapshot's own model and data.
pub open spec fn sound_current(m: ManifestModel, k: int) -> bool {
    let execution = execution_named(m.executions, m.evidence[k].execution)->0;
    let recipe = recipe_named(m.recipes, execution.recipe)->0;
    execution.outcome == Outcome::Completed && recipe.model == m.model && recipe.data == m.data
}

/// Evidence has unique names and known executions; current evidence is sound, there is at most
/// one piece of it per operation, and the draws it reads are themselves current.
pub open spec fn coherent_evidence(m: ManifestModel) -> bool {
    &&& forall|i: int, j: int|
        0 <= i < j < m.evidence.len() ==> (#[trigger] m.evidence[i]).name != (
        #[trigger] m.evidence[j]).name
    &&& forall|k: int|
        0 <= k < m.evidence.len() ==> execution_named(
            m.executions,
            (#[trigger] m.evidence[k]).execution,
        ) is Some
    &&& forall|k: int|
        0 <= k < m.evidence.len() && (#[trigger] m.evidence[k]).status == EvidenceStatus::Current
            ==> sound_current(m, k)
    &&& forall|j: int, k: int, operation: Operation|
        0 <= j < k < m.evidence.len() && #[trigger] current_for(m, j, operation) ==> !(
        #[trigger] current_for(m, k, operation))
    &&& forall|k: int|
        0 <= k < m.evidence.len() && (#[trigger] m.evidence[k]).status == EvidenceStatus::Current
            && evidence_recipe(m, k)->0.fit is Some ==> current_fit(
            m,
            evidence_recipe(m, k)->0.fit->0.sha256,
        )
}

/// The records of a manifest hang together.
pub open spec fn coherent(m: ManifestModel) -> bool {
    &&& coherent_decisions(m.decisions)
    &&& coherent_recipes(m.recipes)
    &&& coherent_executions(m.recipes, m.executions)
    &&& coherent_evidence(m)
}

proof fn lemma_decisions(decisions: Seq<DecisionModel>, i: int)
    requires
        0 <= i <= decisions.len(),
    ensures
        decision_complaint(decisions, i) is None <==> forall|k: int|
            i <= k < decisions.len() ==> !decided_before(decisions, (#[trigger] decisions[k]).id, k)
                && (decisions[k].parent is Some ==> decided_before(
                decisions,
                decisions[k].parent->0,
                k,
            )),
    decreases decisions.len() - i,
{
    if i < decisions.len() {
        lemma_decisions(decisions, i + 1);
        if decision_complaint(decisions, i) is Some && decision_complaint(decisions, i + 1) is None {
            assert(decided_before(decisions, decisions[i].id, i) || (decisions[i].parent is Some
                && !decided_before(decisions, decisions[i].parent->0, i)));
        }
    }
}

proof fn lemma_coherent_decisions(decisions: Seq<DecisionModel>)
    ensures
        decision_complaint(decisions, 0) is None <==> coherent_decisions(decisions),
{
    lemma_decisions(decisions, 0);
    if decision_complaint(decisions, 0) is None {
        assert forall|i: int, j: int| 0 <= i < j < decisions.len() implies (
        #[trigger] decisions[i]).id != (#[trigger] decisions[j]).id by {
            assert(!decided_before(decisions, decisions[j].id, j));
        }
    }
    if coherent_decisions(decisions) {
        assert forall|k: int| 0 <= k < decisions.len() implies !decided_before(
            decisions,
            (#[trigger] decisions[k]).id,
            k,
        ) && (decisions[k].parent is Some ==> decided_before(
            decisions,
            decisions[k].parent->0,
            k,
        )) by {}
    }
}

proof fn lemma_recipes(recipes: Seq<RecipeModel>, i: int)
    requires
        0 <= i <= recipes.len(),
    ensures
        recipe_complaint(recipes, i) is None <==> forall|k: int|
            i <= k < recipes.len() ==> !recipe_before(recipes, (#[trigger] recipes[k]).id, k)
                && !recipe_digest_before(recipes, recipes[k].sha256, k),
    decreases recipes.len() - i,
{
    if i < recipes.len() {
        lemma_recipes(recipes, i + 1);
        if recipe_complaint(recipes, i) is Some && recipe_complaint(recipes, i + 1) is None {
            assert(recipe_before(recipes, recipes[i].id, i) || recipe_digest_before(
                recipes,
                recipes[i].sha256,
                i,
            ));
        }
    }
}

proof fn lemma_coherent_recipes(recipes: Seq<RecipeModel>)
    ensures
        recipe_complaint(recipes, 0) is None <==> coherent_recipes(recipes),
{
    lemma_recipes(recipes, 0);
    if recipe_complaint(recipes, 0) is None {
        assert forall|i: int, j: int| 0 <= i < j < recipes.len() implies (#[trigger] recipes[i]).id
            != (#[trigger] recipes[j]).id && recipes[i].sha256 != recipes[j].sha256 by {
            assert(!recipe_before(recipes, recipes[j].id, j));
            assert(!recipe_digest_before(recipes, recipes[j].sha256, j));
        }
    }
    if coherent_recipes(recipes) {
        assert forall|k: int| 0 <= k < recipes.len() implies !recipe_before(
            recipes,
            (#[trigger] recipes[k]).id,
            k,
        ) && !recipe_digest_before(recipes, recipes[k].sha256, k) by {}
    }
}

proof fn lemma_executions(recipes: Seq<RecipeModel>, executions: Seq<ExecutionModel>, i: int)
    requires
        0 <= i <= executions.len(),
    ensures
        execution_complaint(recipes, executions, i) is None <==> forall|k: int|
            i <= k < executions.len() ==> !execution_before(
                executions,
                (#[trigger] executions[k]).id,
                k,
            ) && follows_recipe(recipes, executions[k]),
    decreases executions.len() - i,
{
    if i < executions.len() {
        lemma_executions(recipes, executions, i + 1);
        assert(one_execution_complaint(recipes, executions[i]) is None <==> follows_recipe(
            recipes,
            executions[i],
        ));
        if execution_complaint(recipes, executions, i) is Some && execution_complaint(
            recipes,
            executions,
            i + 1,
        ) is None {
            assert(execution_before(executions, executions[i].id, i) || !follows_recipe(
                recipes,
                executions[i],
            ));
        }
    }
}

proof fn lemma_coherent_executions(recipes: Seq<RecipeModel>, executions: Seq<ExecutionModel>)
    ensures
        execution_complaint(recipes, executions, 0) is None <==> coherent_executions(
            recipes,
            executions,
        ),
{
    lemma_executions(recipes, executions, 0);
    if execution_complaint(recipes, executions, 0) is None {
        assert forall|i: int, j: int| 0 <= i < j < executions.len() implies (
        #[trigger] executions[i]).id != (#[trigger] executions[j]).id by {
            assert(!execution_before(executions, executions[j].id, j));
        }
    }
    if coherent_executions(recipes, executions) {
        assert forall|k: int| 0 <= k < executions.len() implies !execution_before(
            executions,
            (#[trigger] executions[k]).id,
            k,
        ) && follows_recipe(recipes, executions[k]) by {}
    }
}

/// One piece of evidence on its own.
spec fn sound_evidence(m: ManifestModel, k: int) -> bool {
    &&& !evidence_before(m.evidence, m.evidence[k].name, k)
    &&& execution_named(m.executions, m.evidence[k].execution) is Some
    &&& m.evidence[k].status == EvidenceStatus::Current ==> sound_current(m, k) && !current_before(
        m,
        recipe_named(
            m.recipes,
            execution_named(m.executions, m.evidence[k].execution)->0.recipe,
        )->0.operation,
        k,
    )
}

proof fn lemma_evidence(m: ManifestModel, i: int)
    requires
        0 <= i <= m.evidence.len(),
    ensures
        evidence_complaint(m, i) is None <==> forall|k: int|
            i <= k < m.evidence.len() ==> #[trigger] sound_evidence(m, k),
    decreases m.evidence.len() - i,
{
    if i < m.evidence.len() {
        lemma_evidence(m, i + 1);
        assert(one_evidence_complaint(m, i) is None <==> sound_evidence(m, i));
    }
}

proof fn lemma_fits(m: ManifestModel, i: int)
    requires
        0 <= i <= m.evidence.len(),
    ensures
        fit_complaint(m, i) is None <==> forall|k: int|
            i <= k < m.evidence.len() ==> !(#[trigger] stale_fit(m, k)),
    decreases m.evidence.len() - i,
{
    if i < m.evidence.len() {
        lemma_fits(m, i + 1);
    }
}

proof fn lemma_coherent_evidence(m: ManifestModel)
    requires
        coherent_executions(m.recipes, m.executions),
    ensures
        (evidence_complaint(m, 0) is None && fit_complaint(m, 0) is None) <==> coherent_evidence(m),
{
    lemma_evidence(m, 0);
    lemma_fits(m, 0);
    if evidence_complaint(m, 0) is None && fit_complaint(m, 0) is None {
        assert forall|i: int, j: int| 0 <= i < j < m.evidence.len() implies (
        #[trigger] m.evidence[i]).name != (#[trigger] m.evidence[j]).name by {
            assert(sound_evidence(m, j));
        }
        assert forall|k: int| 0 <= k < m.evidence.len() implies execution_named(
            m.executions,
            (#[trigger] m.evidence[k]).execution,
        ) is Some by {
            assert(sound_evidence(m, k));
        }
        assert forall|k: int|
            0 <= k < m.evidence.len() && (#[trigger] m.evidence[k]).status
                == EvidenceStatus::Current implies sound_current(m, k) by {
            assert(sound_evidence(m, k));
        }
        assert forall|j: int, k: int, operation: Operation|
            0 <= j < k < m.evidence.len() && #[trigger] current_for(m, j, operation) implies !(
        #[trigger] current_for(m, k, operation)) by {
            assert(sound_evidence(m, k));
            if current_for(m, k, operation) {
                assert(current_before(m, operation, k));
            }
        }
        assert forall|k: int|
            0 <= k < m.evidence.len() && (#[trigger] m.evidence[k]).status
                == EvidenceStatus::Current && evidence_recipe(m, k)->0.fit is Some implies current_fit(
            m,
            evidence_recipe(m, k)->0.fit->0.sha256,
        ) by {
            assert(!stale_fit(m, k));
        }
    }
    if coherent_evidence(m) {
        assert forall|k: int| 0 <= k < m.evidence.len() implies #[trigger] sound_evidence(m, k) by {
            assert(m.evidence[k].execution == m.evidence[k].execution);
            if m.evidence[k].status == EvidenceStatus::Current {
                let execution = execution_named(m.executions, m.evidence[k].execution)->0;
                lemma_named_follows(m.recipes, m.executions, m.evidence[k].execution, 0);
                let operation = recipe_named(m.recipes, execution.recipe)->0.operation;
                assert(current_for(m, k, operation));
                if current_before(m, operation, k) {
                    let j = choose|j: int| 0 <= j < k && #[trigger] current_for(m, j, operation);
                    assert(!current_for(m, k, operation));
                }
            }
        }
        assert forall|k: int| 0 <= k < m.evidence.len() implies !(#[trigger] stale_fit(m, k)) by {
            assert(m.evidence[k].status == m.evidence[k].status);
        }
    }
}

proof fn lemma_named_follows(
    recipes: Seq<RecipeModel>,
    executions: Seq<ExecutionModel>,
    id: Seq<char>,
    i: int,
)
    requires
        0 <= i,
        coherent_executions(recipes, executions),
        super::manifest::execution_from(executions, id, i) is Some,
    ensures
        follows_recipe(recipes, super::manifest::execution_from(executions, id, i)->0),
    decreases executions.len() - i,
{
    if executions[i].id != id {
        lemma_named_follows(recipes, executions, id, i + 1);
    } else {
        assert(follows_recipe(recipes, executions[i]));
    }
}

/// The relationships of a manifest draw no complaint exactly when its records hang together.
pub proof fn law_no_complaint_means_coherent(m: ManifestModel)
    ensures
        relationship_complaint(m) is None <==> coherent(m),
{
    lemma_coherent_decisions(m.decisions);
    lemma_coherent_recipes(m.recipes);
    lemma_coherent_executions(m.recipes, m.executions);
    if execution_complaint(m.recipes, m.executions, 0) is None {
        lemma_coherent_evidence(m);
    }
}

/// A manifest that a document can carry.
pub open spec fn valid_manifest(m: ManifestModel) -> bool {
    &&& fits_text(m.question)
    &&& fits_text(m.estimand_description)
    &&& valid_identifier(m.estimand_parameter)
    &&& m.source is Some ==> valid_source(m.source->0)
    &&& valid_inputs(InputsModel { model: m.model, data: m.data })
    &&& m.decisions.len() <= MAX_RECORDS
    &&& forall|i: int| 0 <= i < m.decisions.len() ==> valid_decision(#[trigger] m.decisions[i])
    &&& m.recipes.len() <= MAX_RECORDS
    &&& forall|i: int| 0 <= i < m.recipes.len() ==> valid_recipe(#[trigger] m.recipes[i])
    &&& m.executions.len() <= MAX_RECORDS
    &&& forall|i: int| 0 <= i < m.executions.len() ==> valid_execution(#[trigger] m.executions[i])
    &&& m.evidence.len() <= MAX_RECORDS
    &&& forall|i: int| 0 <= i < m.evidence.len() ==> valid_evidence(#[trigger] m.evidence[i])
    &&& fits_text(m.interpretation)
    &&& forall|i: int|
        0 <= i < m.unresolved_questions.len() ==> fits_text(#[trigger] m.unresolved_questions[i])
    &&& coherent(m)
}

proof fn lemma_manifest_fields()
    ensures
        distinct(manifest_fields()),
        distinct(estimand_fields()),
{
    reveal_strlit("investigation_snapshot");
    reveal_strlit("question");
    reveal_strlit("estimand");
    reveal_strlit("source");
    reveal_strlit("inputs");
    reveal_strlit("decisions");
    reveal_strlit("recipes");
    reveal_strlit("executions");
    reveal_strlit("evidence");
    reveal_strlit("interpretation");
    reveal_strlit("unresolved_questions");
    assert("investigation_snapshot"@.len() == 22 && "question"@.len() == 8);
    assert("estimand"@.len() == 8 && "source"@.len() == 6 && "inputs"@.len() == 6);
    assert("decisions"@.len() == 9 && "recipes"@.len() == 7 && "executions"@.len() == 10);
    assert("evidence"@.len() == 8 && "interpretation"@.len() == 14);
    assert("unresolved_questions"@.len() == 20);
    assert("question"@[0] == 'q' && "estimand"@[0] == 'e' && "evidence"@[0] == 'e');
    assert("estimand"@[1] == 's' && "evidence"@[1] == 'v');
    assert("source"@[0] == 's' && "inputs"@[0] == 'i');
    reveal_strlit("description");
    reveal_strlit("parameter");
    assert("description"@.len() == 11 && "parameter"@.len() == 9);
}

proof fn lemma_records_round_trip<M>(
    list: Seq<M>,
    items: Seq<Json>,
    name: Seq<char>,
    parser: spec_fn(Json, Seq<char>) -> Result<M, Fault>,
    n: nat,
)
    requires
        n <= list.len() == items.len(),
        forall|i: int, place: Seq<char>|
            0 <= i < list.len() ==> #[trigger] parser(items[i], place) == Ok::<M, Fault>(list[i]),
    ensures
        records_upto(items, name, parser, n) == Ok::<Seq<M>, Fault>(list.take(n as int)),
    decreases n,
{
    if n == 0 {
        assert(list.take(0) =~= Seq::empty());
    } else {
        lemma_records_round_trip(list, items, name, parser, (n - 1) as nat);
        assert(list.take(n as int) =~= list.take(n - 1).push(list[n - 1]));
        assert(parser(items[n - 1], record_place(name, (n - 1) as nat)) == Ok::<M, Fault>(
            list[n - 1],
        ));
    }
}

proof fn lemma_questions_round_trip(list: Seq<Seq<char>>, n: nat)
    requires
        n <= list.len(),
        forall|i: int| 0 <= i < list.len() ==> fits_text(#[trigger] list[i]),
    ensures
        questions_upto(texts_json(list)->Array_0, n) == Ok::<Seq<Seq<char>>, Fault>(
            list.take(n as int),
        ),
    decreases n,
{
    if n == 0 {
        assert(list.take(0) =~= Seq::empty());
    } else {
        lemma_questions_round_trip(list, (n - 1) as nat);
        assert(list.take(n as int) =~= list.take(n - 1).push(list[n - 1]));
        assert(fits_text(list[n - 1]));
    }
}

/// The fields of the document form of a manifest.
proof fn lemma_manifest_document(m: ManifestModel)
    ensures
        forall|context: Seq<char>| #[trigger]
            super::fields::object_complaint(
                manifest_json(m),
                context,
                manifest_fields(),
                manifest_fields(),
            ) is None,
        field(manifest_json(m), "investigation_snapshot"@) == Some(Json::Str(SNAPSHOT_FORMAT@)),
        field(manifest_json(m), "question"@) == Some(Json::Str(m.question)),
        field(manifest_json(m), "estimand"@) == Some(manifest_json(m)->Object_0[2].1),
        field(manifest_json(m), "source"@) == Some(
            match m.source {
                Some(source) => source_json(source),
                None => Json::Null,
            },
        ),
        field(manifest_json(m), "inputs"@) == Some(
            inputs_json(InputsModel { model: m.model, data: m.data }),
        ),
        field(manifest_json(m), "decisions"@) == Some(
            Json::Array(m.decisions.map_values(|d: DecisionModel| decision_json(d))),
        ),
        field(manifest_json(m), "recipes"@) == Some(
            Json::Array(m.recipes.map_values(|r: RecipeModel| recipe_json(r))),
        ),
        field(manifest_json(m), "executions"@) == Some(
            Json::Array(m.executions.map_values(|e: ExecutionModel| execution_json(e))),
        ),
        field(manifest_json(m), "evidence"@) == Some(
            Json::Array(m.evidence.map_values(|e: EvidenceModel| evidence_json(e))),
        ),
        field(manifest_json(m), "interpretation"@) == Some(Json::Str(m.interpretation)),
        field(manifest_json(m), "unresolved_questions"@) == Some(
            texts_json(m.unresolved_questions),
        ),
{
    let v = manifest_json(m);
    let names = manifest_fields();
    lemma_manifest_fields();
    assert(spells(v->Object_0, names));
    lemma_exact_object(v->Object_0, names);
    assert(names[0] == "investigation_snapshot"@ && names[1] == "question"@ && names[2]
        == "estimand"@ && names[3] == "source"@);
    assert(names[4] == "inputs"@ && names[5] == "decisions"@ && names[6] == "recipes"@ && names[7]
        == "executions"@);
    assert(names[8] == "evidence"@ && names[9] == "interpretation"@ && names[10]
        == "unresolved_questions"@);
    assert(field(v, names[0]) == Some(v->Object_0[0].1));
    assert(field(v, names[1]) == Some(v->Object_0[1].1));
    assert(field(v, names[2]) == Some(v->Object_0[2].1));
    assert(field(v, names[3]) == Some(v->Object_0[3].1));
    assert(field(v, names[4]) == Some(v->Object_0[4].1));
    assert(field(v, names[5]) == Some(v->Object_0[5].1));
    assert(field(v, names[6]) == Some(v->Object_0[6].1));
    assert(field(v, names[7]) == Some(v->Object_0[7].1));
    assert(field(v, names[8]) == Some(v->Object_0[8].1));
    assert(field(v, names[9]) == Some(v->Object_0[9].1));
    assert(field(v, names[10]) == Some(v->Object_0[10].1));
}

proof fn lemma_decisions_round_trip(m: ManifestModel)
    requires
        valid_manifest(m),
    ensures
        parsed_records(
            manifest_json(m),
            "decisions"@,
            "investigation manifest"@,
            decision_parser(),
        ) == Ok::<Seq<DecisionModel>, Fault>(m.decisions),
{
    lemma_manifest_document(m);
    let items = m.decisions.map_values(|r: DecisionModel| decision_json(r));
    assert forall|i: int, place: Seq<char>| 0 <= i < m.decisions.len() implies #[trigger]
        decision_parser()(items[i], place) == Ok::<DecisionModel, Fault>(m.decisions[i]) by {
        assert(valid_decision(m.decisions[i]));
        law_decision_round_trip(m.decisions[i], place);
    }
    lemma_records_round_trip(m.decisions, items, "decisions"@, decision_parser(), m.decisions.len());
    assert(m.decisions.take(m.decisions.len() as int) =~= m.decisions);
}

proof fn lemma_recipes_round_trip(m: ManifestModel)
    requires
        valid_manifest(m),
    ensures
        parsed_records(
            manifest_json(m),
            "recipes"@,
            "investigation manifest"@,
            recipe_parser(),
        ) == Ok::<Seq<RecipeModel>, Fault>(m.recipes),
{
    lemma_manifest_document(m);
    let items = m.recipes.map_values(|r: RecipeModel| recipe_json(r));
    assert forall|i: int, place: Seq<char>| 0 <= i < m.recipes.len() implies #[trigger]
        recipe_parser()(items[i], place) == Ok::<RecipeModel, Fault>(m.recipes[i]) by {
        assert(valid_recipe(m.recipes[i]));
        law_recipe_round_trip(m.recipes[i], place);
    }
    lemma_records_round_trip(m.recipes, items, "recipes"@, recipe_parser(), m.recipes.len());
    assert(m.recipes.take(m.recipes.len() as int) =~= m.recipes);
}

proof fn lemma_executions_round_trip(m: ManifestModel)
    requires
        valid_manifest(m),
    ensures
        parsed_records(
            manifest_json(m),
            "executions"@,
            "investigation manifest"@,
            execution_parser(),
        ) == Ok::<Seq<ExecutionModel>, Fault>(m.executions),
{
    lemma_manifest_document(m);
    let items = m.executions.map_values(|r: ExecutionModel| execution_json(r));
    assert forall|i: int, place: Seq<char>| 0 <= i < m.executions.len() implies #[trigger]
        execution_parser()(items[i], place) == Ok::<ExecutionModel, Fault>(m.executions[i]) by {
        assert(valid_execution(m.executions[i]));
        law_execution_round_trip(m.executions[i], place);
    }
    lemma_records_round_trip(m.executions, items, "executions"@, execution_parser(), m.executions.len());
    assert(m.executions.take(m.executions.len() as int) =~= m.executions);
}

proof fn lemma_evidence_list_round_trip(m: ManifestModel)
    requires
        valid_manifest(m),
    ensures
        parsed_records(
            manifest_json(m),
            "evidence"@,
            "investigation manifest"@,
            evidence_parser(),
        ) == Ok::<Seq<EvidenceModel>, Fault>(m.evidence),
{
    lemma_manifest_document(m);
    let items = m.evidence.map_values(|r: EvidenceModel| evidence_json(r));
    assert forall|i: int, place: Seq<char>| 0 <= i < m.evidence.len() implies #[trigger]
        evidence_parser()(items[i], place) == Ok::<EvidenceModel, Fault>(m.evidence[i]) by {
        assert(valid_evidence(m.evidence[i]));
        law_evidence_round_trip(m.evidence[i], place);
    }
    lemma_records_round_trip(m.evidence, items, "evidence"@, evidence_parser(), m.evidence.len());
    assert(m.evidence.take(m.evidence.len() as int) =~= m.evidence);
}

proof fn lemma_lists_round_trip(m: ManifestModel)
    requires
        valid_manifest(m),
    ensures
        parsed_lists(manifest_json(m)) == Ok::<ListsModel, Fault>(
            ListsModel {
                decisions: m.decisions,
                recipes: m.recipes,
                executions: m.executions,
                evidence: m.evidence,
                unresolved_questions: m.unresolved_questions,
            },
        ),
{
    lemma_manifest_document(m);
    lemma_decisions_round_trip(m);
    lemma_recipes_round_trip(m);
    lemma_executions_round_trip(m);
    lemma_evidence_list_round_trip(m);
    lemma_questions_round_trip(m.unresolved_questions, m.unresolved_questions.len());
    assert(m.unresolved_questions.take(m.unresolved_questions.len() as int)
        =~= m.unresolved_questions);
}

proof fn lemma_texts_round_trip(m: ManifestModel)
    requires
        valid_manifest(m),
    ensures
        super::fields::object_complaint(
            field(manifest_json(m), "estimand"@)->0,
            "investigation manifest estimand"@,
            estimand_fields(),
            estimand_fields(),
        ) is None,
        parsed_texts(manifest_json(m)) == Ok::<TextsModel, Fault>(
            TextsModel {
                question: m.question,
                estimand_description: m.estimand_description,
                estimand_parameter: m.estimand_parameter,
                interpretation: m.interpretation,
            },
        ),
{
    lemma_manifest_document(m);
    lemma_manifest_fields();
    let estimand = manifest_json(m)->Object_0[2].1;
    let names = estimand_fields();
    assert(spells(estimand->Object_0, names));
    lemma_exact_object(estimand->Object_0, names);
    assert(names[0] == "description"@ && names[1] == "parameter"@);
    assert(field(estimand, names[0]) == Some(Json::Str(m.estimand_description)));
    assert(field(estimand, names[1]) == Some(Json::Str(m.estimand_parameter)));
}

/// A valid manifest is read back from its document form.
pub proof fn law_manifest_round_trip(m: ManifestModel)
    requires
        valid_manifest(m),
    ensures
        parsed_manifest(manifest_json(m)) == Ok::<ManifestModel, Fault>(m),
{
    let v = manifest_json(m);
    let inputs = InputsModel { model: m.model, data: m.data };
    lemma_manifest_document(m);
    lemma_lists_round_trip(m);
    lemma_texts_round_trip(m);
    law_inputs_round_trip(
        inputs,
        "investigation manifest inputs"@,
        "investigation manifest input kinds must be model_ir and data"@,
    );
    assert(parsed_optional_source(field(v, "source"@)->0) == Ok::<Option<SourceModel>, Fault>(
        m.source,
    )) by {
        if m.source is Some {
            law_source_round_trip(m.source->0, "investigation manifest source"@);
        }
    }
    law_no_complaint_means_coherent(m);
    assert(manifest_tail(v, m.source, inputs) == Ok::<ManifestModel, Fault>(m)) by {
        reveal(manifest_tail);
    }
}

proof fn lemma_read_decisions(v: Json)
    requires
        parsed_records(v, "decisions"@, "investigation manifest"@, decision_parser()) is Ok,
    ensures
        parsed_records(v, "decisions"@, "investigation manifest"@, decision_parser())->Ok_0.len()
            <= MAX_RECORDS,
        forall|i: int|
            0 <= i < parsed_records(
                v,
                "decisions"@,
                "investigation manifest"@,
                decision_parser(),
            )->Ok_0.len() ==> valid_decision(
                #[trigger] parsed_records(
                    v,
                    "decisions"@,
                    "investigation manifest"@,
                    decision_parser(),
                )->Ok_0[i],
            ),
{
    let context = "investigation manifest"@;
    let items = super::fields::array_field(v, "decisions"@, context)->Ok_0;
    let list = parsed_records(v, "decisions"@, context, decision_parser())->Ok_0;
    lemma_records_len(items, "decisions"@, decision_parser(), items.len());
    assert forall|i: int| 0 <= i < list.len() implies valid_decision(#[trigger] list[i]) by {
        lemma_records_each(items, "decisions"@, decision_parser(), items.len(), i);
        let place = record_place("decisions"@, i as nat);
        assert(super::ledger::parsed_decision(items[i], place) == Ok::<DecisionModel, Fault>(list[i]));
        law_read_decision_is_valid(items[i], place);
    }
}

proof fn lemma_read_recipes(v: Json)
    requires
        parsed_records(v, "recipes"@, "investigation manifest"@, recipe_parser()) is Ok,
    ensures
        parsed_records(v, "recipes"@, "investigation manifest"@, recipe_parser())->Ok_0.len()
            <= MAX_RECORDS,
        forall|i: int|
            0 <= i < parsed_records(
                v,
                "recipes"@,
                "investigation manifest"@,
                recipe_parser(),
            )->Ok_0.len() ==> valid_recipe(
                #[trigger] parsed_records(
                    v,
                    "recipes"@,
                    "investigation manifest"@,
                    recipe_parser(),
                )->Ok_0[i],
            ),
{
    let context = "investigation manifest"@;
    let items = super::fields::array_field(v, "recipes"@, context)->Ok_0;
    let list = parsed_records(v, "recipes"@, context, recipe_parser())->Ok_0;
    lemma_records_len(items, "recipes"@, recipe_parser(), items.len());
    assert forall|i: int| 0 <= i < list.len() implies valid_recipe(#[trigger] list[i]) by {
        lemma_records_each(items, "recipes"@, recipe_parser(), items.len(), i);
        let place = record_place("recipes"@, i as nat);
        assert(super::recipe::parsed_recipe(items[i], place) == Ok::<RecipeModel, Fault>(list[i]));
        law_read_recipe_is_valid(items[i], place);
    }
}

proof fn lemma_read_executions(v: Json)
    requires
        parsed_records(v, "executions"@, "investigation manifest"@, execution_parser()) is Ok,
    ensures
        parsed_records(v, "executions"@, "investigation manifest"@, execution_parser())->Ok_0.len()
            <= MAX_RECORDS,
        forall|i: int|
            0 <= i < parsed_records(
                v,
                "executions"@,
                "investigation manifest"@,
                execution_parser(),
            )->Ok_0.len() ==> valid_execution(
                #[trigger] parsed_records(
                    v,
                    "executions"@,
                    "investigation manifest"@,
                    execution_parser(),
                )->Ok_0[i],
            ),
{
    let context = "investigation manifest"@;
    let items = super::fields::array_field(v, "executions"@, context)->Ok_0;
    let list = parsed_records(v, "executions"@, context, execution_parser())->Ok_0;
    lemma_records_len(items, "executions"@, execution_parser(), items.len());
    assert forall|i: int| 0 <= i < list.len() implies valid_execution(#[trigger] list[i]) by {
        lemma_records_each(items, "executions"@, execution_parser(), items.len(), i);
        let place = record_place("executions"@, i as nat);
        assert(super::ledger::parsed_execution(items[i], place) == Ok::<ExecutionModel, Fault>(list[i]));
        law_read_execution_is_valid(items[i], place);
    }
}

proof fn lemma_read_evidence(v: Json)
    requires
        parsed_records(v, "evidence"@, "investigation manifest"@, evidence_parser()) is Ok,
    ensures
        parsed_records(v, "evidence"@, "investigation manifest"@, evidence_parser())->Ok_0.len()
            <= MAX_RECORDS,
        forall|i: int|
            0 <= i < parsed_records(
                v,
                "evidence"@,
                "investigation manifest"@,
                evidence_parser(),
            )->Ok_0.len() ==> valid_evidence(
                #[trigger] parsed_records(
                    v,
                    "evidence"@,
                    "investigation manifest"@,
                    evidence_parser(),
                )->Ok_0[i],
            ),
{
    let context = "investigation manifest"@;
    let items = super::fields::array_field(v, "evidence"@, context)->Ok_0;
    let list = parsed_records(v, "evidence"@, context, evidence_parser())->Ok_0;
    lemma_records_len(items, "evidence"@, evidence_parser(), items.len());
    assert forall|i: int| 0 <= i < list.len() implies valid_evidence(#[trigger] list[i]) by {
        lemma_records_each(items, "evidence"@, evidence_parser(), items.len(), i);
        let place = record_place("evidence"@, i as nat);
        assert(super::ledger::parsed_evidence(items[i], place) == Ok::<EvidenceModel, Fault>(list[i]));
        law_read_evidence_is_valid(items[i], place);
    }
}

proof fn lemma_read_questions(items: Seq<Json>, n: nat)
    requires
        questions_upto(items, n) is Ok,
    ensures
        forall|i: int|
            0 <= i < questions_upto(items, n)->Ok_0.len() ==> fits_text(
                #[trigger] questions_upto(items, n)->Ok_0[i],
            ),
    decreases n,
{
    if n > 0 {
        lemma_read_questions(items, (n - 1) as nat);
    }
}

/// A manifest that was read is valid.
pub proof fn law_read_manifest_is_valid(v: Json)
    requires
        parsed_manifest(v) is Ok,
    ensures
        valid_manifest(parsed_manifest(v)->Ok_0),
{
    reveal(manifest_tail);
    let m = parsed_manifest(v)->Ok_0;
    let context = "investigation manifest"@;
    law_read_inputs_are_valid(
        field(v, "inputs"@)->0,
        "investigation manifest inputs"@,
        "investigation manifest input kinds must be model_ir and data"@,
    );
    if m.source is Some {
        law_read_source_is_valid(field(v, "source"@)->0, "investigation manifest source"@);
    }
    lemma_read_decisions(v);
    lemma_read_recipes(v);
    lemma_read_executions(v);
    lemma_read_evidence(v);
    let items = super::fields::array_field(v, "unresolved_questions"@, context)->Ok_0;
    lemma_read_questions(items, items.len());
    law_no_complaint_means_coherent(m);
}

} // verus!
