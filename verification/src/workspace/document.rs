//! The document of a workspace.

use vstd::prelude::*;

use crate::error::{invalid_settings, Error};
#[allow(unused_imports)]
use crate::error::{outcome, settings_fault, Fault};
#[allow(unused_imports)]
use crate::investigation::fields::{lemma_required_field, names_view};
use crate::investigation::ledger::{texts_value, Decision, Source};
#[allow(unused_imports)]
use crate::investigation::ledger::{
    decision_json, parsed_source, source_json, texts_json, views, DecisionModel, SourceModel,
};
#[allow(unused_imports)]
use crate::investigation::manifest::optional_source;
use crate::investigation::records::EngineIdentity;
#[allow(unused_imports)]
use crate::investigation::records::{engine_json, parsed_engine, EngineModel};
use crate::json::Value;
#[allow(unused_imports)]
use crate::json::{field, group_json_views, items_view, Json};
#[allow(unused_imports)]
use crate::model::checked;
use crate::render::Fields;
use crate::text;
#[allow(unused_imports)]
use crate::text::debug_text;

use super::record::{
    exact_object, parse_question, read_list, required_name, required_short, required_string, Attempt, ConfiguredRecipe, Selection,
    WORKSPACE_FORMAT,
};
#[allow(unused_imports)]
use super::record::{
    attempt_json, attempt_parser, configured_json, configured_parser, decision_parser, list_read, name_field,
    object_fault, question_parser, selection_json, selection_parser, short_field, string_field, AttemptModel,
    ConfiguredModel, SelectionModel,
};

verus! {

/// A workspace: what is asked, what was decided, configured and tried, and what counts.
#[derive(Debug)]
pub struct Workspace {
    pub question: String,
    pub estimand_description: String,
    pub estimand_parameter: String,
    pub source: Option<Source>,
    pub engine: EngineIdentity,
    pub decisions: Vec<Decision>,
    pub recipes: Vec<ConfiguredRecipe>,
    pub attempts: Vec<Attempt>,
    pub selections: Vec<Selection>,
    pub interpretation: String,
    pub unresolved_questions: Vec<String>,
}

/// The mathematical content of a [`Workspace`].
#[verifier::ext_equal]
pub struct WorkspaceModel {
    pub question: Seq<char>,
    pub estimand_description: Seq<char>,
    pub estimand_parameter: Seq<char>,
    pub source: Option<SourceModel>,
    pub engine: EngineModel,
    pub decisions: Seq<DecisionModel>,
    pub recipes: Seq<ConfiguredModel>,
    pub attempts: Seq<AttemptModel>,
    pub selections: Seq<SelectionModel>,
    pub interpretation: Seq<char>,
    pub unresolved_questions: Seq<Seq<char>>,
}

impl View for Workspace {
    type V = WorkspaceModel;

    open spec fn view(&self) -> WorkspaceModel {
        WorkspaceModel {
            question: self.question@,
            estimand_description: self.estimand_description@,
            estimand_parameter: self.estimand_parameter@,
            source: optional_source(self.source),
            engine: self.engine@,
            decisions: views(self.decisions@),
            recipes: views(self.recipes@),
            attempts: views(self.attempts@),
            selections: views(self.selections@),
            interpretation: self.interpretation@,
            unresolved_questions: views(self.unresolved_questions@),
        }
    }
}

/// Whether a decision of that name stands before a position.
pub open spec fn decision_before(decisions: Seq<DecisionModel>, id: Seq<char>, end: int) -> bool {
    exists|k: int| 0 <= k < end && (#[trigger] decisions[k]).id == id
}

/// What is wrong with the decisions, from one on.
pub open spec fn decisions_fault(decisions: Seq<DecisionModel>, i: int) -> Option<Fault>
    decreases decisions.len() - i,
{
    if i < 0 || i >= decisions.len() {
        None
    } else if decision_before(decisions, decisions[i].id, i) {
        Some(
            settings_fault("workspace has duplicate decision id "@ + debug_text(decisions[i].id)),
        )
    } else if decisions[i].parent is Some && !decision_before(
        decisions,
        decisions[i].parent->0,
        i,
    ) {
        Some(
            settings_fault(
                "decision "@ + debug_text(decisions[i].id) + " parent "@ + debug_text(
                    decisions[i].parent->0,
                ) + " must name an earlier decision"@,
            ),
        )
    } else {
        decisions_fault(decisions, i + 1)
    }
}

/// Whether a recipe of that name stands before a position.
pub open spec fn recipe_before(recipes: Seq<ConfiguredModel>, id: Seq<char>, end: int) -> bool {
    exists|k: int| 0 <= k < end && (#[trigger] recipes[k]).id == id
}

/// What is wrong with the recipes, from one on.
pub open spec fn recipes_fault(recipes: Seq<ConfiguredModel>, i: int) -> Option<Fault>
    decreases recipes.len() - i,
{
    if i < 0 || i >= recipes.len() {
        None
    } else if recipe_before(recipes, recipes[i].id, i) {
        Some(settings_fault("workspace has duplicate recipe id "@ + debug_text(recipes[i].id)))
    } else {
        recipes_fault(recipes, i + 1)
    }
}

/// Whether an attempt of that execution stands before a position.
pub open spec fn attempt_before(attempts: Seq<AttemptModel>, id: Seq<char>, end: int) -> bool {
    exists|k: int| 0 <= k < end && (#[trigger] attempts[k]).execution.id == id
}

/// What is wrong with the attempts, from one on.
pub open spec fn attempts_fault(attempts: Seq<AttemptModel>, i: int) -> Option<Fault>
    decreases attempts.len() - i,
{
    if i < 0 || i >= attempts.len() {
        None
    } else if attempt_before(attempts, attempts[i].execution.id, i) {
        Some(
            settings_fault(
                "workspace has duplicate execution id "@ + debug_text(attempts[i].execution.id),
            ),
        )
    } else {
        attempts_fault(attempts, i + 1)
    }
}

/// What is wrong with the selections, from one on.
pub open spec fn selections_fault(
    attempts: Seq<AttemptModel>,
    selections: Seq<SelectionModel>,
    i: int,
) -> Option<Fault>
    decreases selections.len() - i,
{
    if i < 0 || i >= selections.len() {
        None
    } else if !attempt_before(attempts, selections[i].execution, attempts.len() as int) {
        Some(
            settings_fault(
                "selection "@ + debug_text(selections[i].name) + " references missing execution "@
                    + debug_text(selections[i].execution),
            ),
        )
    } else {
        selections_fault(attempts, selections, i + 1)
    }
}

/// What is wrong with how the records of a workspace hang together.
pub open spec fn workspace_fault(m: WorkspaceModel) -> Option<Fault> {
    match decisions_fault(m.decisions, 0) {
        Some(fault) => Some(fault),
        None => match recipes_fault(m.recipes, 0) {
            Some(fault) => Some(fault),
            None => match attempts_fault(m.attempts, 0) {
                Some(fault) => Some(fault),
                None => selections_fault(m.attempts, m.selections, 0),
            },
        },
    }
}

pub open spec fn workspace_fields() -> Seq<Seq<char>> {
    seq![
        "investigation_workspace"@,
        "question"@,
        "estimand"@,
        "source"@,
        "engine"@,
        "decisions"@,
        "recipes"@,
        "attempts"@,
        "selections"@,
        "interpretation"@,
        "unresolved_questions"@,
    ]
}

pub open spec fn estimand_fields() -> Seq<Seq<char>> {
    seq!["description"@, "parameter"@]
}

/// The lists of a workspace.
#[verifier::ext_equal]
pub struct WorkspaceLists {
    pub decisions: Seq<DecisionModel>,
    pub recipes: Seq<ConfiguredModel>,
    pub attempts: Seq<AttemptModel>,
    pub selections: Seq<SelectionModel>,
    pub unresolved_questions: Seq<Seq<char>>,
}

/// What reading the lists of a workspace gives.
pub open spec fn parsed_lists(v: Json) -> Result<WorkspaceLists, Fault> {
    let context = "investigation workspace"@;
    match list_read(v, "decisions"@, context, "workspace decisions"@, decision_parser()) {
        Err(fault) => Err(fault),
        Ok(decisions) => match list_read(
            v,
            "recipes"@,
            context,
            "workspace recipes"@,
            configured_parser(),
        ) {
            Err(fault) => Err(fault),
            Ok(recipes) => match list_read(
                v,
                "attempts"@,
                context,
                "workspace attempts"@,
                attempt_parser(),
            ) {
                Err(fault) => Err(fault),
                Ok(attempts) => match list_read(
                    v,
                    "selections"@,
                    context,
                    "workspace selections"@,
                    selection_parser(),
                ) {
                    Err(fault) => Err(fault),
                    Ok(selections) => match list_read(
                        v,
                        "unresolved_questions"@,
                        context,
                        "workspace unresolved_questions"@,
                        question_parser(),
                    ) {
                        Err(fault) => Err(fault),
                        Ok(unresolved_questions) => Ok(
                            WorkspaceLists {
                                decisions,
                                recipes,
                                attempts,
                                selections,
                                unresolved_questions,
                            },
                        ),
                    },
                },
            },
        },
    }
}

/// What a document says is asked.
#[verifier::ext_equal]
pub struct AskedModel {
    pub question: Seq<char>,
    pub estimand_description: Seq<char>,
    pub estimand_parameter: Seq<char>,
}

/// What reading what is asked gives; `estimand` names the estimand in complaints.
pub open spec fn parsed_asked(v: Json, context: Seq<char>, estimand: Seq<char>) -> Result<
    AskedModel,
    Fault,
> {
    match short_field(v, "question"@, context, "question"@) {
        Err(fault) => Err(fault),
        Ok(question) => match short_field(
            field(v, "estimand"@)->0,
            "description"@,
            estimand,
            "estimand description"@,
        ) {
            Err(fault) => Err(fault),
            Ok(estimand_description) => match name_field(
                field(v, "estimand"@)->0,
                "parameter"@,
                estimand,
                "estimand parameter"@,
            ) {
                Err(fault) => Err(fault),
                Ok(estimand_parameter) => Ok(
                    AskedModel { question, estimand_description, estimand_parameter },
                ),
            },
        },
    }
}

/// What reading a source that may be missing gives.
pub open spec fn parsed_source_field(v: Json) -> Result<Option<SourceModel>, Fault> {
    if v is Null {
        Ok(None)
    } else {
        match parsed_source(v, "workspace source"@) {
            Err(fault) => Err(fault),
            Ok(source) => Ok(Some(source)),
        }
    }
}

/// The rest of reading a workspace, once its source and lists were read.
pub open spec fn workspace_tail(v: Json, source: Option<SourceModel>, lists: WorkspaceLists) -> Result<
    WorkspaceModel,
    Fault,
> {
    let context = "investigation workspace"@;
    match parsed_asked(v, context, "workspace estimand"@) {
        Err(fault) => Err(fault),
        Ok(asked) => match parsed_engine(field(v, "engine"@)->0, "workspace engine"@) {
            Err(fault) => Err(fault),
            Ok(engine) => match short_field(
                v,
                "interpretation"@,
                context,
                "interpretation"@,
            ) {
                Err(fault) => Err(fault),
                Ok(interpretation) => {
                    let m = WorkspaceModel {
                        question: asked.question,
                        estimand_description: asked.estimand_description,
                        estimand_parameter: asked.estimand_parameter,
                        source,
                        engine,
                        decisions: lists.decisions,
                        recipes: lists.recipes,
                        attempts: lists.attempts,
                        selections: lists.selections,
                        interpretation,
                        unresolved_questions: lists.unresolved_questions,
                    };
                    match workspace_fault(m) {
                        Some(fault) => Err(fault),
                        None => Ok(m),
                    }
                },
            },
        },
    }
}

/// What is wrong with the outline of a document on an investigation.
pub open spec fn outline_fault(
    v: Json,
    context: Seq<char>,
    names: Seq<Seq<char>>,
    version: Seq<char>,
    estimand: Seq<char>,
) -> Option<Fault> {
    match object_fault(v, context, names) {
        Some(fault) => Some(fault),
        None => match string_field(v, version, context) {
            Err(fault) => Some(fault),
            Ok(found) => if found != WORKSPACE_FORMAT@ {
                Some(
                    settings_fault(
                        "unsupported "@ + version + "; expected "@ + debug_text(WORKSPACE_FORMAT@),
                    ),
                )
            } else {
                object_fault(field(v, "estimand"@)->0, estimand, estimand_fields())
            },
        },
    }
}

/// What reading a workspace gives.
pub open spec fn parsed_workspace(v: Json) -> Result<WorkspaceModel, Fault> {
    match outline_fault(
        v,
        "investigation workspace"@,
        workspace_fields(),
        "investigation_workspace"@,
        "workspace estimand"@,
    ) {
        Some(fault) => Err(fault),
        None => match parsed_source_field(field(v, "source"@)->0) {
            Err(fault) => Err(fault),
            Ok(source) => match parsed_lists(v) {
                Err(fault) => Err(fault),
                Ok(lists) => workspace_tail(v, source, lists),
            },
        },
    }
}

/// Checks the outline of a document: its fields, its version, and its estimand.
pub fn check_outline(value: &Value, context: &str, names: &[&str], version: &str, estimand: &str) -> (r:
    Result<(), Error>)
    requires
        names_view(names@).contains("estimand"@),
    ensures
        checked(r) == outline_fault(value@, context@, names_view(names@), version@, estimand@),
        r is Ok ==> object_fault(value@, context@, names_view(names@)) is None,
{
    exact_object(value, context, names)?;
    proof {
        let all = names_view(names@);
        lemma_required_field(value@, context@, all, all, "estimand"@);
    }
    let found: &str = required_string(value, version, context)?;
    if !text::same(found, WORKSPACE_FORMAT) {
        return Err(
            invalid_settings(
                text::cat4(
                    "unsupported ",
                    version,
                    "; expected ",
                    text::quoted(WORKSPACE_FORMAT).as_str(),
                ),
            ),
        );
    }
    let inner: [&str; 2] = ["description", "parameter"];
    assert(names_view(inner@) =~= estimand_fields());
    exact_object(value.get("estimand").unwrap(), estimand, inner.as_slice())
}

/// What a document asks.
pub struct Asked {
    pub question: String,
    pub estimand_description: String,
    pub estimand_parameter: String,
}

impl View for Asked {
    type V = AskedModel;

    open spec fn view(&self) -> AskedModel {
        AskedModel {
            question: self.question@,
            estimand_description: self.estimand_description@,
            estimand_parameter: self.estimand_parameter@,
        }
    }
}

pub fn read_asked(value: &Value, context: &str, estimand: &str) -> (r: Result<Asked, Error>)
    requires
        field(value@, "estimand"@) is Some,
    ensures
        outcome(r) == parsed_asked(value@, context@, estimand@),
{
    let inner: &Value = value.get("estimand").unwrap();
    let question: String = required_short(value, "question", context, "question")?;
    let estimand_description: String = required_short(
        inner,
        "description",
        estimand,
        "estimand description",
    )?;
    let estimand_parameter: String = required_name(
        inner,
        "parameter",
        estimand,
        "estimand parameter",
    )?;
    Ok(Asked { question, estimand_description, estimand_parameter })
}

/// The view of a source that may be missing.
pub open spec fn source_outcome(r: Result<Option<Source>, Error>) -> Result<Option<SourceModel>, Fault> {
    match r {
        Ok(source) => Ok(optional_source(source)),
        Err(error) => Err(error@),
    }
}

fn read_source(value: &Value) -> (r: Result<Option<Source>, Error>)
    ensures
        source_outcome(r) == parsed_source_field(value@),
{
    broadcast use group_json_views;

    match value {
        Value::Null => Ok(None),
        _ => {
            let source: Source = Source::parse(value, "workspace source")?;
            Ok(Some(source))
        },
    }
}

fn has_decision(decisions: &Vec<Decision>, id: &str, end: usize) -> (r: bool)
    requires
        end <= decisions@.len(),
    ensures
        r == decision_before(views(decisions@), id@, end as int),
{
    let ghost all = views(decisions@);
    let mut k: usize = 0;
    while k < end
        invariant
            k <= end <= decisions@.len(),
            all == views(decisions@),
            !decision_before(all, id@, k as int),
        decreases end - k,
    {
        assert(all[k as int] == decisions@[k as int]@);
        if text::same(decisions[k].id.as_str(), id) {
            return true;
        }
        k += 1;
    }
    false
}

fn has_recipe(recipes: &Vec<ConfiguredRecipe>, id: &str, end: usize) -> (r: bool)
    requires
        end <= recipes@.len(),
    ensures
        r == recipe_before(views(recipes@), id@, end as int),
{
    let ghost all = views(recipes@);
    let mut k: usize = 0;
    while k < end
        invariant
            k <= end <= recipes@.len(),
            all == views(recipes@),
            !recipe_before(all, id@, k as int),
        decreases end - k,
    {
        assert(all[k as int] == recipes@[k as int]@);
        if text::same(recipes[k].id.as_str(), id) {
            return true;
        }
        k += 1;
    }
    false
}

fn has_attempt(attempts: &Vec<Attempt>, id: &str, end: usize) -> (r: bool)
    requires
        end <= attempts@.len(),
    ensures
        r == attempt_before(views(attempts@), id@, end as int),
{
    let ghost all = views(attempts@);
    let mut k: usize = 0;
    while k < end
        invariant
            k <= end <= attempts@.len(),
            all == views(attempts@),
            !attempt_before(all, id@, k as int),
        decreases end - k,
    {
        assert(all[k as int] == attempts@[k as int]@);
        if text::same(attempts[k].execution.id.as_str(), id) {
            return true;
        }
        k += 1;
    }
    false
}

fn check_decisions(decisions: &Vec<Decision>) -> (r: Result<(), Error>)
    ensures
        checked(r) == decisions_fault(views(decisions@), 0),
{
    let ghost all = views(decisions@);
    let mut i: usize = 0;
    while i < decisions.len()
        invariant
            i <= decisions.len(),
            all == views(decisions@),
            decisions_fault(all, 0) == decisions_fault(all, i as int),
        decreases decisions.len() - i,
    {
        let decision: &Decision = &decisions[i];
        assert(all[i as int] == decision@);
        if has_decision(decisions, decision.id.as_str(), i) {
            return Err(
                invalid_settings(
                    text::cat2(
                        "workspace has duplicate decision id ",
                        text::quoted(decision.id.as_str()).as_str(),
                    ),
                ),
            );
        }
        if let Some(parent) = &decision.parent {
            if !has_decision(decisions, parent.as_str(), i) {
                return Err(
                    invalid_settings(
                        text::cat5(
                            "decision ",
                            text::quoted(decision.id.as_str()).as_str(),
                            " parent ",
                            text::quoted(parent.as_str()).as_str(),
                            " must name an earlier decision",
                        ),
                    ),
                );
            }
        }
        i += 1;
    }
    Ok(())
}

fn check_recipes(recipes: &Vec<ConfiguredRecipe>) -> (r: Result<(), Error>)
    ensures
        checked(r) == recipes_fault(views(recipes@), 0),
{
    let ghost all = views(recipes@);
    let mut i: usize = 0;
    while i < recipes.len()
        invariant
            i <= recipes.len(),
            all == views(recipes@),
            recipes_fault(all, 0) == recipes_fault(all, i as int),
        decreases recipes.len() - i,
    {
        assert(all[i as int] == recipes@[i as int]@);
        if has_recipe(recipes, recipes[i].id.as_str(), i) {
            return Err(
                invalid_settings(
                    text::cat2(
                        "workspace has duplicate recipe id ",
                        text::quoted(recipes[i].id.as_str()).as_str(),
                    ),
                ),
            );
        }
        i += 1;
    }
    Ok(())
}

fn check_attempts(attempts: &Vec<Attempt>) -> (r: Result<(), Error>)
    ensures
        checked(r) == attempts_fault(views(attempts@), 0),
{
    let ghost all = views(attempts@);
    let mut i: usize = 0;
    while i < attempts.len()
        invariant
            i <= attempts.len(),
            all == views(attempts@),
            attempts_fault(all, 0) == attempts_fault(all, i as int),
        decreases attempts.len() - i,
    {
        assert(all[i as int] == attempts@[i as int]@);
        if has_attempt(attempts, attempts[i].execution.id.as_str(), i) {
            return Err(
                invalid_settings(
                    text::cat2(
                        "workspace has duplicate execution id ",
                        text::quoted(attempts[i].execution.id.as_str()).as_str(),
                    ),
                ),
            );
        }
        i += 1;
    }
    Ok(())
}

fn check_selections(attempts: &Vec<Attempt>, selections: &Vec<Selection>) -> (r: Result<(), Error>)
    ensures
        checked(r) == selections_fault(views(attempts@), views(selections@), 0),
{
    let ghost all = views(selections@);
    let ghost tried = views(attempts@);
    let mut i: usize = 0;
    while i < selections.len()
        invariant
            i <= selections.len(),
            all == views(selections@),
            tried == views(attempts@),
            selections_fault(tried, all, 0) == selections_fault(tried, all, i as int),
        decreases selections.len() - i,
    {
        assert(all[i as int] == selections@[i as int]@);
        assert(tried.len() == attempts@.len());
        if !has_attempt(attempts, selections[i].execution.as_str(), attempts.len()) {
            return Err(
                invalid_settings(
                    text::cat4(
                        "selection ",
                        text::quoted(selections[i].name.as_str()).as_str(),
                        " references missing execution ",
                        text::quoted(selections[i].execution.as_str()).as_str(),
                    ),
                ),
            );
        }
        i += 1;
    }
    Ok(())
}

pub open spec fn estimand_json(description: Seq<char>, parameter: Seq<char>) -> Json {
    Json::Object(
        seq![("description"@, Json::Str(description)), ("parameter"@, Json::Str(parameter))],
    )
}

/// The estimand as a document shows it.
pub fn estimand_value(description: &str, parameter: &str) -> (r: Value)
    ensures
        r@ == estimand_json(description@, parameter@),
{
    let mut out: Fields = Fields::new();
    out.put_text("description", description);
    out.put_text("parameter", parameter);
    assert(out@ == seq![
        ("description"@, Json::Str(description@)),
        ("parameter"@, Json::Str(parameter@)),
    ]);
    out.done()
}

pub open spec fn optional_source_json(source: Option<SourceModel>) -> Json {
    match source {
        Some(m) => source_json(m),
        None => Json::Null,
    }
}

/// The source as a document shows it.
pub fn optional_source_value(source: &Option<Source>) -> (r: Value)
    ensures
        r@ == optional_source_json(optional_source(*source)),
{
    match source {
        Some(found) => found.to_value(),
        None => Value::Null,
    }
}

pub open spec fn workspace_entries(m: WorkspaceModel) -> Seq<(Seq<char>, Json)> {
    seq![
        ("investigation_workspace"@, Json::Str(WORKSPACE_FORMAT@)),
        ("question"@, Json::Str(m.question)),
        ("estimand"@, estimand_json(m.estimand_description, m.estimand_parameter)),
        ("source"@, optional_source_json(m.source)),
        ("engine"@, engine_json(m.engine)),
        (
            "decisions"@,
            Json::Array(m.decisions.map_values(|d: DecisionModel| decision_json(d))),
        ),
        (
            "recipes"@,
            Json::Array(m.recipes.map_values(|c: ConfiguredModel| configured_json(c))),
        ),
        (
            "attempts"@,
            Json::Array(m.attempts.map_values(|a: AttemptModel| attempt_json(a))),
        ),
        (
            "selections"@,
            Json::Array(m.selections.map_values(|s: SelectionModel| selection_json(s))),
        ),
        ("interpretation"@, Json::Str(m.interpretation)),
        ("unresolved_questions"@, texts_json(m.unresolved_questions)),
    ]
}

fn decisions_value(decisions: &Vec<Decision>) -> (r: Value)
    ensures
        r@ == Json::Array(
            views(decisions@).map_values(|d: DecisionModel| decision_json(d)),
        ),
{
    broadcast use group_json_views;

    let mut items: Vec<Value> = Vec::new();
    let mut i: usize = 0;
    while i < decisions.len()
        invariant
            i <= decisions.len(),
            items.len() == i,
            forall|k: int| 0 <= k < i ==> (#[trigger] items@[k])@ == decision_json(decisions@[k]@),
        decreases decisions.len() - i,
    {
        items.push(decisions[i].to_value());
        i += 1;
    }
    assert(items_view(items@) =~= views(decisions@).map_values(|d: DecisionModel| decision_json(d)));
    Value::Array(items)
}

fn recipes_value(recipes: &Vec<ConfiguredRecipe>) -> (r: Value)
    ensures
        r@ == Json::Array(
            views(recipes@).map_values(|c: ConfiguredModel| configured_json(c)),
        ),
{
    broadcast use group_json_views;

    let mut items: Vec<Value> = Vec::new();
    let mut i: usize = 0;
    while i < recipes.len()
        invariant
            i <= recipes.len(),
            items.len() == i,
            forall|k: int| 0 <= k < i ==> (#[trigger] items@[k])@ == configured_json(recipes@[k]@),
        decreases recipes.len() - i,
    {
        items.push(recipes[i].to_value());
        i += 1;
    }
    assert(items_view(items@) =~= views(recipes@).map_values(
        |c: ConfiguredModel| configured_json(c),
    ));
    Value::Array(items)
}

fn attempts_value(attempts: &Vec<Attempt>) -> (r: Value)
    ensures
        r@ == Json::Array(views(attempts@).map_values(|a: AttemptModel| attempt_json(a))),
{
    broadcast use group_json_views;

    let mut items: Vec<Value> = Vec::new();
    let mut i: usize = 0;
    while i < attempts.len()
        invariant
            i <= attempts.len(),
            items.len() == i,
            forall|k: int| 0 <= k < i ==> (#[trigger] items@[k])@ == attempt_json(attempts@[k]@),
        decreases attempts.len() - i,
    {
        items.push(attempts[i].to_value());
        i += 1;
    }
    assert(items_view(items@) =~= views(attempts@).map_values(|a: AttemptModel| attempt_json(a)));
    Value::Array(items)
}

fn selections_value(selections: &Vec<Selection>) -> (r: Value)
    ensures
        r@ == Json::Array(
            views(selections@).map_values(|s: SelectionModel| selection_json(s)),
        ),
{
    broadcast use group_json_views;

    let mut items: Vec<Value> = Vec::new();
    let mut i: usize = 0;
    while i < selections.len()
        invariant
            i <= selections.len(),
            items.len() == i,
            forall|k: int|
                0 <= k < i ==> (#[trigger] items@[k])@ == selection_json(selections@[k]@),
        decreases selections.len() - i,
    {
        items.push(selections[i].to_value());
        i += 1;
    }
    assert(items_view(items@) =~= views(selections@).map_values(
        |s: SelectionModel| selection_json(s),
    ));
    Value::Array(items)
}

struct Lists {
    decisions: Vec<Decision>,
    recipes: Vec<ConfiguredRecipe>,
    attempts: Vec<Attempt>,
    selections: Vec<Selection>,
    unresolved_questions: Vec<String>,
}

impl View for Lists {
    type V = WorkspaceLists;

    closed spec fn view(&self) -> WorkspaceLists {
        WorkspaceLists {
            decisions: views(self.decisions@),
            recipes: views(self.recipes@),
            attempts: views(self.attempts@),
            selections: views(self.selections@),
            unresolved_questions: views(self.unresolved_questions@),
        }
    }
}

fn read_lists(value: &Value) -> (r: Result<Lists, Error>)
    ensures
        outcome(r) == parsed_lists(value@),
{
    let context: &str = "investigation workspace";
    let decisions: Vec<Decision> = read_list(
        value,
        "decisions",
        context,
        "workspace decisions",
        Decision::parse,
        Ghost(decision_parser()),
    )?;
    let recipes: Vec<ConfiguredRecipe> = read_list(
        value,
        "recipes",
        context,
        "workspace recipes",
        ConfiguredRecipe::parse,
        Ghost(configured_parser()),
    )?;
    let attempts: Vec<Attempt> = read_list(
        value,
        "attempts",
        context,
        "workspace attempts",
        Attempt::parse,
        Ghost(attempt_parser()),
    )?;
    let selections: Vec<Selection> = read_list(
        value,
        "selections",
        context,
        "workspace selections",
        Selection::parse,
        Ghost(selection_parser()),
    )?;
    let unresolved_questions: Vec<String> = read_list(
        value,
        "unresolved_questions",
        context,
        "workspace unresolved_questions",
        parse_question,
        Ghost(question_parser()),
    )?;
    Ok(Lists { decisions, recipes, attempts, selections, unresolved_questions })
}

fn finish_workspace(value: &Value, source: Option<Source>, lists: Lists) -> (r: Result<
    Workspace,
    Error,
>)
    requires
        field(value@, "estimand"@) is Some,
        field(value@, "engine"@) is Some,
    ensures
        outcome(r) == workspace_tail(value@, optional_source(source), lists@),
{
    let context: &str = "investigation workspace";
    let asked: Asked = read_asked(value, context, "workspace estimand")?;
    let engine: EngineIdentity = EngineIdentity::parse(
        value.get("engine").unwrap(),
        "workspace engine",
    )?;
    let interpretation: String = required_short(
        value,
        "interpretation",
        context,
        "interpretation",
    )?;
    let workspace: Workspace = Workspace {
        question: asked.question,
        estimand_description: asked.estimand_description,
        estimand_parameter: asked.estimand_parameter,
        source,
        engine,
        decisions: lists.decisions,
        recipes: lists.recipes,
        attempts: lists.attempts,
        selections: lists.selections,
        interpretation,
        unresolved_questions: lists.unresolved_questions,
    };
    workspace.validate()?;
    Ok(workspace)
}

impl Workspace {
    /// Reads a workspace and checks how its records hang together.
    pub fn parse(value: &Value) -> (r: Result<Workspace, Error>)
        ensures
            outcome(r) == parsed_workspace(value@),
    {
        let context: &str = "investigation workspace";
        let names: [&str; 11] = [
            "investigation_workspace",
            "question",
            "estimand",
            "source",
            "engine",
            "decisions",
            "recipes",
            "attempts",
            "selections",
            "interpretation",
            "unresolved_questions",
        ];
        assert(names_view(names@) =~= workspace_fields());
        assert(workspace_fields()[2] == "estimand"@);
        check_outline(
            value,
            context,
            names.as_slice(),
            "investigation_workspace",
            "workspace estimand",
        )?;
        proof {
            let all = workspace_fields();
            lemma_required_field(value@, context@, all, all, all[2]);
            lemma_required_field(value@, context@, all, all, all[3]);
            lemma_required_field(value@, context@, all, all, all[4]);
        }
        let source: Option<Source> = read_source(value.get("source").unwrap())?;
        let lists: Lists = read_lists(value)?;
        finish_workspace(value, source, lists)
    }

    /// Checks how the records hang together: unique names, earlier parents, known executions.
    pub fn validate(&self) -> (r: Result<(), Error>)
        ensures
            checked(r) == workspace_fault(self@),
    {
        check_decisions(&self.decisions)?;
        check_recipes(&self.recipes)?;
        check_attempts(&self.attempts)?;
        check_selections(&self.attempts, &self.selections)
    }

    pub fn to_value(&self) -> (r: Value)
        ensures
            r@ == Json::Object(workspace_entries(self@)),
    {
        let mut out: Fields = Fields::new();
        out.put_text("investigation_workspace", WORKSPACE_FORMAT);
        out.put_text("question", self.question.as_str());
        out.put(
            "estimand",
            estimand_value(self.estimand_description.as_str(), self.estimand_parameter.as_str()),
        );
        out.put("source", optional_source_value(&self.source));
        out.put("engine", self.engine.to_value());
        out.put("decisions", decisions_value(&self.decisions));
        out.put("recipes", recipes_value(&self.recipes));
        out.put("attempts", attempts_value(&self.attempts));
        out.put("selections", selections_value(&self.selections));
        out.put_text("interpretation", self.interpretation.as_str());
        out.put("unresolved_questions", texts_value(&self.unresolved_questions));
        assert(out@ == workspace_entries(self@));
        out.done()
    }
}

} // verus!
