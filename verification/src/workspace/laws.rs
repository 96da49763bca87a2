//! Workspaces are read back from their document form.

use vstd::prelude::*;

#[allow(unused_imports)]
use crate::error::Fault;
#[allow(unused_imports)]
use crate::investigation::fields::{fits_text, valid_identifier};
#[allow(unused_imports)]
use crate::investigation::laws::{
    distinct, law_decision_round_trip, law_engine_round_trip, law_execution_round_trip, law_recipe_round_trip,
    law_source_round_trip, lemma_exact_object, spells, valid_recipe,
};
#[allow(unused_imports)]
use crate::investigation::ledger::{
    decision_json, texts_json, valid_decision, valid_execution, valid_source, DecisionModel, SourceModel,
};
#[allow(unused_imports)]
use crate::investigation::recipe::{operation_text, parsed_operation, Operation};
#[allow(unused_imports)]
use crate::investigation::records::valid_engine;
#[allow(unused_imports)]
use crate::json::{field, Json};

#[allow(unused_imports)]
use super::document::{
    estimand_fields, estimand_json, optional_source_json, parsed_asked, parsed_lists, parsed_source_field,
    parsed_workspace, workspace_entries, workspace_fault, workspace_fields, AskedModel, WorkspaceLists, WorkspaceModel,
};
#[allow(unused_imports)]
use super::record::{
    attempt_fields, attempt_json, attempt_parser, belongs, configured_fields, configured_json, configured_parser,
    decision_parser, items_read, list_read, object_fault, parsed_attempt, parsed_configured, parsed_selection, place,
    question_parser, selection_fields, selection_json, selection_parser, AttemptModel, ConfiguredModel,
    SelectionModel,
};

verus! {

/// An attempt that a document can carry.
pub open spec fn valid_attempt(m: AttemptModel) -> bool {
    &&& valid_recipe(m.recipe)
    &&& valid_execution(m.execution)
    &&& belongs(m.execution, m.recipe)
}

/// A selection that a document can carry.
pub open spec fn valid_selection(m: SelectionModel) -> bool {
    valid_identifier(m.name) && valid_identifier(m.execution)
}

/// A workspace that a document can carry.
pub open spec fn valid_workspace(m: WorkspaceModel) -> bool {
    &&& fits_text(m.question)
    &&& fits_text(m.estimand_description)
    &&& valid_identifier(m.estimand_parameter)
    &&& m.source is Some ==> valid_source(m.source->0)
    &&& valid_engine(m.engine)
    &&& forall|i: int| 0 <= i < m.decisions.len() ==> valid_decision(#[trigger] m.decisions[i])
    &&& forall|i: int| 0 <= i < m.recipes.len() ==> valid_identifier((#[trigger] m.recipes[i]).id)
    &&& forall|i: int| 0 <= i < m.attempts.len() ==> valid_attempt(#[trigger] m.attempts[i])
    &&& forall|i: int| 0 <= i < m.selections.len() ==> valid_selection(#[trigger] m.selections[i])
    &&& fits_text(m.interpretation)
    &&& forall|i: int|
        0 <= i < m.unresolved_questions.len() ==> fits_text(#[trigger] m.unresolved_questions[i])
    &&& workspace_fault(m) is None
}

proof fn lemma_operation_round_trip(operation: Operation, context: Seq<char>)
    ensures
        parsed_operation(operation_text(operation), context) == Ok::<Operation, Fault>(operation),
{
    reveal_strlit("inspect");
    reveal_strlit("sample");
    reveal_strlit("diagnose");
    reveal_strlit("posterior-check");
    assert("inspect"@.len() == 7 && "sample"@.len() == 6 && "diagnose"@.len() == 8);
    assert("posterior-check"@.len() == 15);
}

/// A configured recipe is read back from its document form.
pub proof fn law_configured_round_trip(m: ConfiguredModel, context: Seq<char>)
    requires
        valid_identifier(m.id),
    ensures
        parsed_configured(configured_json(m), context) == Ok::<ConfiguredModel, Fault>(m),
{
    let v = configured_json(m);
    let names = configured_fields();
    reveal_strlit("id");
    reveal_strlit("operation");
    reveal_strlit("settings");
    assert("id"@.len() == 2 && "operation"@.len() == 9 && "settings"@.len() == 8);
    assert(distinct(names));
    assert(spells(v->Object_0, names));
    lemma_exact_object(v->Object_0, names);
    assert(names[0] == "id"@ && names[1] == "operation"@ && names[2] == "settings"@);
    assert(field(v, names[0]) == Some(v->Object_0[0].1));
    assert(field(v, names[1]) == Some(v->Object_0[1].1));
    assert(field(v, names[2]) == Some(v->Object_0[2].1));
    lemma_operation_round_trip(m.operation, context);
}

/// An attempt is read back from its document form.
#[verifier::rlimit(40)]
pub proof fn law_attempt_round_trip(m: AttemptModel, context: Seq<char>)
    requires
        valid_attempt(m),
    ensures
        parsed_attempt(attempt_json(m), context) == Ok::<AttemptModel, Fault>(m),
{
    let v = attempt_json(m);
    let names = attempt_fields();
    reveal_strlit("recipe");
    reveal_strlit("execution");
    assert("recipe"@.len() == 6 && "execution"@.len() == 9);
    assert(distinct(names));
    assert(spells(v->Object_0, names));
    lemma_exact_object(v->Object_0, names);
    assert(names[0] == "recipe"@ && names[1] == "execution"@);
    assert(field(v, names[0]) == Some(v->Object_0[0].1));
    assert(field(v, names[1]) == Some(v->Object_0[1].1));
    law_recipe_round_trip(m.recipe, context + ".recipe"@);
    law_execution_round_trip(m.execution, context + ".execution"@);
}

/// A selection is read back from its document form.
pub proof fn law_selection_round_trip(m: SelectionModel, context: Seq<char>)
    requires
        valid_selection(m),
    ensures
        parsed_selection(selection_json(m), context) == Ok::<SelectionModel, Fault>(m),
{
    let v = selection_json(m);
    let names = selection_fields();
    reveal_strlit("name");
    reveal_strlit("execution");
    assert("name"@.len() == 4 && "execution"@.len() == 9);
    assert(distinct(names));
    assert(spells(v->Object_0, names));
    lemma_exact_object(v->Object_0, names);
    assert(names[0] == "name"@ && names[1] == "execution"@);
    assert(field(v, names[0]) == Some(v->Object_0[0].1));
    assert(field(v, names[1]) == Some(v->Object_0[1].1));
}

proof fn lemma_items_round_trip<M>(
    list: Seq<M>,
    items: Seq<Json>,
    name: Seq<char>,
    parser: spec_fn(Json, Seq<char>) -> Result<M, Fault>,
    n: nat,
)
    requires
        n <= list.len() == items.len(),
        forall|i: int, at: Seq<char>|
            0 <= i < list.len() ==> #[trigger] parser(items[i], at) == Ok::<M, Fault>(list[i]),
    ensures
        items_read(items, name, parser, n) == Ok::<Seq<M>, Fault>(list.take(n as int)),
    decreases n,
{
    if n == 0 {
        assert(list.take(0) =~= Seq::empty());
    } else {
        lemma_items_round_trip(list, items, name, parser, (n - 1) as nat);
        assert(list.take(n as int) =~= list.take(n - 1).push(list[n - 1]));
        assert(parser(items[n - 1], place(name, (n - 1) as nat)) == Ok::<M, Fault>(list[n - 1]));
    }
}

proof fn lemma_workspace_fields()
    ensures
        distinct(workspace_fields()),
        distinct(estimand_fields()),
{
    reveal_strlit("investigation_workspace");
    reveal_strlit("question");
    reveal_strlit("estimand");
    reveal_strlit("source");
    reveal_strlit("engine");
    reveal_strlit("decisions");
    reveal_strlit("recipes");
    reveal_strlit("attempts");
    reveal_strlit("selections");
    reveal_strlit("interpretation");
    reveal_strlit("unresolved_questions");
    assert("investigation_workspace"@.len() == 23 && "question"@.len() == 8);
    assert("estimand"@.len() == 8 && "source"@.len() == 6 && "engine"@.len() == 6);
    assert("decisions"@.len() == 9 && "recipes"@.len() == 7 && "attempts"@.len() == 8);
    assert("selections"@.len() == 10 && "interpretation"@.len() == 14);
    assert("unresolved_questions"@.len() == 20);
    assert("question"@[0] == 'q' && "estimand"@[0] == 'e' && "attempts"@[0] == 'a');
    assert("source"@[0] == 's' && "engine"@[0] == 'e');
    reveal_strlit("description");
    reveal_strlit("parameter");
    assert("description"@.len() == 11 && "parameter"@.len() == 9);
}

/// The fields of the document form of a workspace.
proof fn lemma_workspace_document(m: WorkspaceModel)
    ensures
        forall|context: Seq<char>| #[trigger]
            object_fault(
                Json::Object(workspace_entries(m)),
                context,
                workspace_fields(),
            ) is None,
        forall|i: int|
            0 <= i < workspace_fields().len() ==> #[trigger] field(
                Json::Object(workspace_entries(m)),
                workspace_fields()[i],
            ) == Some(workspace_entries(m)[i].1),
{
    let entries = workspace_entries(m);
    let names = workspace_fields();
    lemma_workspace_fields();
    assert(spells(entries, names));
    lemma_exact_object(entries, names);
    assert forall|context: Seq<char>| #[trigger]
        object_fault(Json::Object(entries), context, names) is None by {
        assert(crate::investigation::fields::object_complaint(
            Json::Object(entries),
            context,
            names,
            names,
        ) is None);
    }
}

proof fn lemma_decisions_round_trip(m: WorkspaceModel)
    requires
        valid_workspace(m),
    ensures
        list_read(
            Json::Object(workspace_entries(m)),
            "decisions"@,
            "investigation workspace"@,
            "workspace decisions"@,
            decision_parser(),
        ) == Ok::<Seq<DecisionModel>, Fault>(m.decisions),
{
    let v = Json::Object(workspace_entries(m));
    let names = workspace_fields();
    lemma_workspace_document(m);
    assert(names[5] == "decisions"@);
    assert(field(v, names[5]) == Some(workspace_entries(m)[5].1));
    let items = m.decisions.map_values(|d: DecisionModel| decision_json(d));
    assert forall|i: int, at: Seq<char>| 0 <= i < m.decisions.len() implies #[trigger]
        decision_parser()(items[i], at) == Ok::<DecisionModel, Fault>(m.decisions[i]) by {
        assert(valid_decision(m.decisions[i]));
        law_decision_round_trip(m.decisions[i], at);
    }
    lemma_items_round_trip(m.decisions, items, "workspace decisions"@, decision_parser(), m.decisions.len());
    assert(m.decisions.take(m.decisions.len() as int) =~= m.decisions);
}

proof fn lemma_recipes_round_trip(m: WorkspaceModel)
    requires
        valid_workspace(m),
    ensures
        list_read(
            Json::Object(workspace_entries(m)),
            "recipes"@,
            "investigation workspace"@,
            "workspace recipes"@,
            configured_parser(),
        ) == Ok::<Seq<ConfiguredModel>, Fault>(m.recipes),
{
    let v = Json::Object(workspace_entries(m));
    let names = workspace_fields();
    lemma_workspace_document(m);
    assert(names[6] == "recipes"@);
    assert(field(v, names[6]) == Some(workspace_entries(m)[6].1));
    let items = m.recipes.map_values(|c: ConfiguredModel| configured_json(c));
    assert forall|i: int, at: Seq<char>| 0 <= i < m.recipes.len() implies #[trigger]
        configured_parser()(items[i], at) == Ok::<ConfiguredModel, Fault>(m.recipes[i]) by {
        assert(valid_identifier(m.recipes[i].id));
        law_configured_round_trip(m.recipes[i], at);
    }
    lemma_items_round_trip(m.recipes, items, "workspace recipes"@, configured_parser(), m.recipes.len());
    assert(m.recipes.take(m.recipes.len() as int) =~= m.recipes);
}

#[verifier::rlimit(60)]
#[verifier::spinoff_prover]
proof fn lemma_attempts_round_trip(m: WorkspaceModel)
    requires
        valid_workspace(m),
    ensures
        list_read(
            Json::Object(workspace_entries(m)),
            "attempts"@,
            "investigation workspace"@,
            "workspace attempts"@,
            attempt_parser(),
        ) == Ok::<Seq<AttemptModel>, Fault>(m.attempts),
{
    let v = Json::Object(workspace_entries(m));
    let names = workspace_fields();
    lemma_workspace_document(m);
    assert(names[7] == "attempts"@);
    assert(field(v, names[7]) == Some(workspace_entries(m)[7].1));
    let items = m.attempts.map_values(|a: AttemptModel| attempt_json(a));
    assert forall|i: int, at: Seq<char>| 0 <= i < m.attempts.len() implies #[trigger]
        attempt_parser()(items[i], at) == Ok::<AttemptModel, Fault>(m.attempts[i]) by {
        assert(valid_attempt(m.attempts[i]));
        law_attempt_round_trip(m.attempts[i], at);
    }
    lemma_items_round_trip(m.attempts, items, "workspace attempts"@, attempt_parser(), m.attempts.len());
    assert(m.attempts.take(m.attempts.len() as int) =~= m.attempts);
}

proof fn lemma_selections_round_trip(m: WorkspaceModel)
    requires
        valid_workspace(m),
    ensures
        list_read(
            Json::Object(workspace_entries(m)),
            "selections"@,
            "investigation workspace"@,
            "workspace selections"@,
            selection_parser(),
        ) == Ok::<Seq<SelectionModel>, Fault>(m.selections),
{
    let v = Json::Object(workspace_entries(m));
    let names = workspace_fields();
    lemma_workspace_document(m);
    assert(names[8] == "selections"@);
    assert(field(v, names[8]) == Some(workspace_entries(m)[8].1));
    let items = m.selections.map_values(|s: SelectionModel| selection_json(s));
    assert forall|i: int, at: Seq<char>| 0 <= i < m.selections.len() implies #[trigger]
        selection_parser()(items[i], at) == Ok::<SelectionModel, Fault>(m.selections[i]) by {
        assert(valid_selection(m.selections[i]));
        law_selection_round_trip(m.selections[i], at);
    }
    lemma_items_round_trip(m.selections, items, "workspace selections"@, selection_parser(), m.selections.len());
    assert(m.selections.take(m.selections.len() as int) =~= m.selections);
}

proof fn lemma_questions_round_trip(m: WorkspaceModel)
    requires
        valid_workspace(m),
    ensures
        list_read(
            Json::Object(workspace_entries(m)),
            "unresolved_questions"@,
            "investigation workspace"@,
            "workspace unresolved_questions"@,
            question_parser(),
        ) == Ok::<Seq<Seq<char>>, Fault>(m.unresolved_questions),
{
    let v = Json::Object(workspace_entries(m));
    let names = workspace_fields();
    lemma_workspace_document(m);
    assert(names[10] == "unresolved_questions"@);
    assert(field(v, names[10]) == Some(workspace_entries(m)[10].1));
    let items = texts_json(m.unresolved_questions)->Array_0;
    assert forall|i: int, at: Seq<char>| 0 <= i < m.unresolved_questions.len() implies #[trigger]
        question_parser()(items[i], at) == Ok::<Seq<char>, Fault>(m.unresolved_questions[i]) by {
        assert(fits_text(m.unresolved_questions[i]));
    }
    lemma_items_round_trip(m.unresolved_questions, items, "workspace unresolved_questions"@, question_parser(), m.unresolved_questions.len());
    assert(m.unresolved_questions.take(m.unresolved_questions.len() as int) =~= m.unresolved_questions);
}

proof fn lemma_lists_round_trip(m: WorkspaceModel)
    requires
        valid_workspace(m),
    ensures
        parsed_lists(Json::Object(workspace_entries(m))) == Ok::<WorkspaceLists, Fault>(
            WorkspaceLists {
                decisions: m.decisions,
                recipes: m.recipes,
                attempts: m.attempts,
                selections: m.selections,
                unresolved_questions: m.unresolved_questions,
            },
        ),
{
    lemma_decisions_round_trip(m);
    lemma_recipes_round_trip(m);
    lemma_attempts_round_trip(m);
    lemma_selections_round_trip(m);
    lemma_questions_round_trip(m);
}

/// A valid workspace is read back from its document form.
#[verifier::rlimit(60)]
#[verifier::spinoff_prover]
pub proof fn law_workspace_round_trip(m: WorkspaceModel)
    requires
        valid_workspace(m),
    ensures
        parsed_workspace(Json::Object(workspace_entries(m))) == Ok::<WorkspaceModel, Fault>(m),
{
    let v = Json::Object(workspace_entries(m));
    let names = workspace_fields();
    lemma_workspace_document(m);
    lemma_workspace_fields();
    lemma_lists_round_trip(m);
    assert(names[0] == "investigation_workspace"@ && names[1] == "question"@ && names[2]
        == "estimand"@ && names[3] == "source"@ && names[4] == "engine"@);
    assert(names[9] == "interpretation"@);
    assert(field(v, names[0]) == Some(workspace_entries(m)[0].1));
    assert(field(v, names[1]) == Some(workspace_entries(m)[1].1));
    assert(field(v, names[2]) == Some(workspace_entries(m)[2].1));
    assert(field(v, names[3]) == Some(workspace_entries(m)[3].1));
    assert(field(v, names[4]) == Some(workspace_entries(m)[4].1));
    assert(field(v, names[9]) == Some(workspace_entries(m)[9].1));
    let estimand = estimand_json(m.estimand_description, m.estimand_parameter);
    let parts = estimand_fields();
    assert(spells(estimand->Object_0, parts));
    lemma_exact_object(estimand->Object_0, parts);
    assert(parts[0] == "description"@ && parts[1] == "parameter"@);
    assert(field(estimand, parts[0]) == Some(Json::Str(m.estimand_description)));
    assert(field(estimand, parts[1]) == Some(Json::Str(m.estimand_parameter)));
    assert(crate::investigation::fields::object_complaint(
        estimand,
        "workspace estimand"@,
        parts,
        parts,
    ) is None);
    law_engine_round_trip(m.engine, "workspace engine"@);
    if m.source is Some {
        law_source_round_trip(m.source->0, "workspace source"@);
    }
    assert(parsed_source_field(optional_source_json(m.source)) == Ok::<Option<SourceModel>, Fault>(
        m.source,
    ));
    assert(parsed_asked(v, "investigation workspace"@, "workspace estimand"@) == Ok::<
        AskedModel,
        Fault,
    >(
        AskedModel {
            question: m.question,
            estimand_description: m.estimand_description,
            estimand_parameter: m.estimand_parameter,
        },
    ));
}

} // verus!
