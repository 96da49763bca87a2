//! The records of a workspace.

use vstd::prelude::*;

use crate::error::{invalid_settings, Error, ErrorKind};
#[allow(unused_imports)]
use crate::error::{outcome, settings_fault, Fault};
use crate::investigation::fields::{checked_object, validate_identifier};
#[allow(unused_imports)]
use crate::investigation::fields::{
    fits_text, identified, lemma_required_field, names_view, object_complaint,
};
use crate::investigation::ledger::Execution;
#[allow(unused_imports)]
use crate::investigation::ledger::{
    execution_json, parsed_decision, parsed_execution, views, DecisionModel, ExecutionModel,
};
#[allow(unused_imports)]
use crate::investigation::manifest::list_outcome;
use crate::investigation::recipe::{Operation, Recipe};
#[allow(unused_imports)]
use crate::investigation::recipe::{operation_text, parsed_operation, parsed_recipe, recipe_json, RecipeModel};
use crate::json::Value;
#[allow(unused_imports)]
use crate::json::{array_of, field, group_json_views, items_view, string_of, Json};
use crate::render::Fields;
use crate::text;
#[allow(unused_imports)]
use crate::text::decimal_text;

verus! {

/// The version of workspaces.
pub const WORKSPACE_FORMAT: &'static str = "v0-provisional";

/// What is wrong with an object, as a workspace reports it.
pub open spec fn object_fault(v: Json, context: Seq<char>, names: Seq<Seq<char>>) -> Option<Fault> {
    match object_complaint(v, context, names, names) {
        Some(message) => Some(settings_fault(message)),
        None => None,
    }
}

/// Accepts an object that has exactly the named fields, each once.
pub fn exact_object(value: &Value, context: &str, names: &[&str]) -> (r: Result<(), Error>)
    ensures
        crate::model::checked(r) == object_fault(value@, context@, names_view(names@)),
{
    match checked_object(value, context, names, names) {
        Ok(_) => Ok(()),
        Err(error) => Err(Error { kind: ErrorKind::InvalidSettings, message: error.message }),
    }
}

/// What reading a text field gives.
pub open spec fn string_field(v: Json, name: Seq<char>, context: Seq<char>) -> Result<Seq<char>, Fault> {
    match string_of(field(v, name)) {
        Some(s) => Ok(s),
        None => Err(settings_fault(context + "."@ + name + " must be a string"@)),
    }
}

pub fn required_string<'a>(value: &'a Value, name: &str, context: &str) -> (r: Result<&'a str, Error>)
    ensures
        outcome(r) == string_field(value@, name@, context@),
{
    if let Some(found) = value.get(name) {
        if let Some(s) = found.as_str() {
            return Ok(s);
        }
    }
    Err(invalid_settings(text::cat4(context, ".", name, " must be a string")))
}

/// What reading an array field gives.
pub open spec fn list_field(v: Json, name: Seq<char>, context: Seq<char>) -> Result<Seq<Json>, Fault> {
    match array_of(field(v, name)) {
        Some(items) => Ok(items),
        None => Err(settings_fault(context + "."@ + name + " must be an array"@)),
    }
}

/// The view of a result that borrows the items of an array.
pub open spec fn borrowed_items(r: Result<&Vec<Value>, Error>) -> Result<Seq<Json>, Fault> {
    match r {
        Ok(items) => Ok(items_view(items@)),
        Err(error) => Err(error@),
    }
}

pub fn required_list<'a>(value: &'a Value, name: &str, context: &str) -> (r: Result<
    &'a Vec<Value>,
    Error,
>)
    ensures
        borrowed_items(r) == list_field(value@, name@, context@),
{
    if let Some(found) = value.get(name) {
        if let Some(items) = found.as_array() {
            return Ok(items);
        }
    }
    Err(invalid_settings(text::cat4(context, ".", name, " must be an array")))
}

/// A text of bounded length.
pub open spec fn short_text(s: Seq<char>, context: Seq<char>) -> Result<Seq<char>, Fault> {
    if fits_text(s) {
        Ok(s)
    } else {
        Err(settings_fault(context + " must be at most 16384 UTF-8 bytes"@))
    }
}

pub fn bounded_string(s: &str, context: &str) -> (r: Result<String, Error>)
    ensures
        outcome(r) == short_text(s@, context@),
{
    if s.as_bytes().len() > 16_384 {
        return Err(invalid_settings(text::cat2(context, " must be at most 16384 UTF-8 bytes")));
    }
    Ok(s.to_owned())
}

/// A text field of bounded length.
pub open spec fn short_field(v: Json, name: Seq<char>, context: Seq<char>, label: Seq<char>) -> Result<
    Seq<char>,
    Fault,
> {
    match string_field(v, name, context) {
        Err(fault) => Err(fault),
        Ok(s) => short_text(s, label),
    }
}

pub fn required_short(value: &Value, name: &str, context: &str, label: &str) -> (r: Result<String, Error>)
    ensures
        outcome(r) == short_field(value@, name@, context@, label@),
{
    let found: &str = required_string(value, name, context)?;
    bounded_string(found, label)
}

/// A field that names something.
pub open spec fn name_field(v: Json, name: Seq<char>, context: Seq<char>, label: Seq<char>) -> Result<
    Seq<char>,
    Fault,
> {
    match string_field(v, name, context) {
        Err(fault) => Err(fault),
        Ok(s) => identified(s, label),
    }
}

pub fn required_name(value: &Value, name: &str, context: &str, label: &str) -> (r: Result<String, Error>)
    ensures
        outcome(r) == name_field(value@, name@, context@, label@),
{
    let found: &str = required_string(value, name, context)?;
    validate_identifier(found, label)
}

/// A recipe as it is configured, before its inputs are known.
#[derive(Debug)]
pub struct ConfiguredRecipe {
    pub id: String,
    pub operation: Operation,
    pub settings: Value,
}

/// The mathematical content of a [`ConfiguredRecipe`].
#[verifier::ext_equal]
pub struct ConfiguredModel {
    pub id: Seq<char>,
    pub operation: Operation,
    pub settings: Json,
}

impl View for ConfiguredRecipe {
    type V = ConfiguredModel;

    open spec fn view(&self) -> ConfiguredModel {
        ConfiguredModel { id: self.id@, operation: self.operation, settings: self.settings@ }
    }
}

pub open spec fn configured_fields() -> Seq<Seq<char>> {
    seq!["id"@, "operation"@, "settings"@]
}

/// What reading an operation field gives.
pub open spec fn operation_field(v: Json, context: Seq<char>) -> Result<Operation, Fault> {
    match string_field(v, "operation"@, context) {
        Err(fault) => Err(fault),
        Ok(s) => parsed_operation(s, context),
    }
}

/// What reading a configured recipe gives.
pub open spec fn parsed_configured(v: Json, context: Seq<char>) -> Result<ConfiguredModel, Fault> {
    match object_fault(v, context, configured_fields()) {
        Some(fault) => Err(fault),
        None => match name_field(v, "id"@, context, context) {
            Err(fault) => Err(fault),
            Ok(id) => match operation_field(v, context) {
                Err(fault) => Err(fault),
                Ok(operation) => Ok(
                    ConfiguredModel { id, operation, settings: field(v, "settings"@)->0 },
                ),
            },
        },
    }
}

pub open spec fn configured_json(m: ConfiguredModel) -> Json {
    Json::Object(
        seq![
            ("id"@, Json::Str(m.id)),
            ("operation"@, Json::Str(operation_text(m.operation))),
            ("settings"@, m.settings),
        ],
    )
}

impl ConfiguredRecipe {
    pub fn parse(value: &Value, context: &str) -> (r: Result<ConfiguredRecipe, Error>)
        ensures
            outcome(r) == parsed_configured(value@, context@),
    {
        let names: [&str; 3] = ["id", "operation", "settings"];
        assert(names_view(names@) =~= configured_fields());
        exact_object(value, context, names.as_slice())?;
        proof {
            lemma_required_field(
                value@,
                context@,
                configured_fields(),
                configured_fields(),
                configured_fields()[2],
            );
        }
        let id: String = required_name(value, "id", context, context)?;
        let name: &str = required_string(value, "operation", context)?;
        let operation: Operation = Operation::parse(name, context)?;
        Ok(
            ConfiguredRecipe {
                id,
                operation,
                settings: value.get("settings").unwrap().copy(),
            },
        )
    }

    pub fn to_value(&self) -> (r: Value)
        ensures
            r@ == configured_json(self@),
    {
        let mut out: Fields = Fields::new();
        out.put_text("id", self.id.as_str());
        out.put_text("operation", self.operation.as_str());
        out.put("settings", self.settings.copy());
        assert(out@ == seq![
            ("id"@, Json::Str(self.id@)),
            ("operation"@, Json::Str(operation_text(self.operation))),
            ("settings"@, self.settings@),
        ]);
        out.done()
    }

    pub fn copy(&self) -> (r: ConfiguredRecipe)
        ensures
            r@ == self@,
    {
        ConfiguredRecipe {
            id: self.id.clone(),
            operation: self.operation,
            settings: self.settings.copy(),
        }
    }
}

/// An execution with the recipe that it ran.
#[derive(Debug)]
pub struct Attempt {
    pub recipe: Recipe,
    pub execution: Execution,
}

/// The mathematical content of an [`Attempt`].
#[verifier::ext_equal]
pub struct AttemptModel {
    pub recipe: RecipeModel,
    pub execution: ExecutionModel,
}

impl View for Attempt {
    type V = AttemptModel;

    open spec fn view(&self) -> AttemptModel {
        AttemptModel { recipe: self.recipe@, execution: self.execution@ }
    }
}

pub open spec fn attempt_fields() -> Seq<Seq<char>> {
    seq!["recipe"@, "execution"@]
}

/// Whether an execution says that it ran a recipe.
pub open spec fn belongs(execution: ExecutionModel, recipe: RecipeModel) -> bool {
    execution.recipe == recipe.id && execution.recipe_sha256 == recipe.sha256
}

/// What reading an attempt gives.
pub open spec fn parsed_attempt(v: Json, context: Seq<char>) -> Result<AttemptModel, Fault> {
    match object_fault(v, context, attempt_fields()) {
        Some(fault) => Err(fault),
        None => match parsed_recipe(field(v, "recipe"@)->0, context + ".recipe"@) {
            Err(fault) => Err(fault),
            Ok(recipe) => match parsed_execution(
                field(v, "execution"@)->0,
                context + ".execution"@,
            ) {
                Err(fault) => Err(fault),
                Ok(execution) => if belongs(execution, recipe) {
                    Ok(AttemptModel { recipe, execution })
                } else {
                    Err(
                        settings_fault(
                            context + " execution does not match its embedded recipe"@,
                        ),
                    )
                },
            },
        },
    }
}

pub open spec fn attempt_json(m: AttemptModel) -> Json {
    Json::Object(
        seq![
            ("recipe"@, recipe_json(m.recipe)),
            ("execution"@, execution_json(m.execution)),
        ],
    )
}

impl Attempt {
    pub fn parse(value: &Value, context: &str) -> (r: Result<Attempt, Error>)
        ensures
            outcome(r) == parsed_attempt(value@, context@),
    {
        let names: [&str; 2] = ["recipe", "execution"];
        assert(names_view(names@) =~= attempt_fields());
        exact_object(value, context, names.as_slice())?;
        proof {
            lemma_required_field(
                value@,
                context@,
                attempt_fields(),
                attempt_fields(),
                attempt_fields()[0],
            );
            lemma_required_field(
                value@,
                context@,
                attempt_fields(),
                attempt_fields(),
                attempt_fields()[1],
            );
        }
        let recipe: Recipe = Recipe::parse(
            value.get("recipe").unwrap(),
            text::cat2(context, ".recipe").as_str(),
        )?;
        let execution: Execution = Execution::parse(
            value.get("execution").unwrap(),
            text::cat2(context, ".execution").as_str(),
        )?;
        if !text::same(execution.recipe.as_str(), recipe.id.as_str()) || !text::same(
            execution.recipe_sha256.as_str(),
            recipe.sha256.as_str(),
        ) {
            return Err(
                invalid_settings(
                    text::cat2(context, " execution does not match its embedded recipe"),
                ),
            );
        }
        Ok(Attempt { recipe, execution })
    }

    pub fn to_value(&self) -> (r: Value)
        ensures
            r@ == attempt_json(self@),
    {
        let mut out: Fields = Fields::new();
        out.put("recipe", self.recipe.to_value());
        out.put("execution", self.execution.to_value());
        assert(out@ == seq![
            ("recipe"@, recipe_json(self.recipe@)),
            ("execution"@, execution_json(self.execution@)),
        ]);
        out.done()
    }
}

/// An execution that was picked as evidence.
#[derive(Debug)]
pub struct Selection {
    pub name: String,
    pub execution: String,
}

/// The mathematical content of a [`Selection`].
#[verifier::ext_equal]
pub struct SelectionModel {
    pub name: Seq<char>,
    pub execution: Seq<char>,
}

impl View for Selection {
    type V = SelectionModel;

    open spec fn view(&self) -> SelectionModel {
        SelectionModel { name: self.name@, execution: self.execution@ }
    }
}

pub open spec fn selection_fields() -> Seq<Seq<char>> {
    seq!["name"@, "execution"@]
}

/// What reading a selection gives.
pub open spec fn parsed_selection(v: Json, context: Seq<char>) -> Result<SelectionModel, Fault> {
    match object_fault(v, context, selection_fields()) {
        Some(fault) => Err(fault),
        None => match name_field(v, "name"@, context, context) {
            Err(fault) => Err(fault),
            Ok(name) => match name_field(v, "execution"@, context, context) {
                Err(fault) => Err(fault),
                Ok(execution) => Ok(SelectionModel { name, execution }),
            },
        },
    }
}

pub open spec fn selection_json(m: SelectionModel) -> Json {
    Json::Object(seq![("name"@, Json::Str(m.name)), ("execution"@, Json::Str(m.execution))])
}

impl Selection {
    pub fn parse(value: &Value, context: &str) -> (r: Result<Selection, Error>)
        ensures
            outcome(r) == parsed_selection(value@, context@),
    {
        let names: [&str; 2] = ["name", "execution"];
        assert(names_view(names@) =~= selection_fields());
        exact_object(value, context, names.as_slice())?;
        let name: String = required_name(value, "name", context, context)?;
        let execution: String = required_name(value, "execution", context, context)?;
        Ok(Selection { name, execution })
    }

    pub fn to_value(&self) -> (r: Value)
        ensures
            r@ == selection_json(self@),
    {
        let mut out: Fields = Fields::new();
        out.put_text("name", self.name.as_str());
        out.put_text("execution", self.execution.as_str());
        assert(out@ == seq![
            ("name"@, Json::Str(self.name@)),
            ("execution"@, Json::Str(self.execution@)),
        ]);
        out.done()
    }
}

/// Where a record of a list stands.
pub open spec fn place(list: Seq<char>, index: nat) -> Seq<char> {
    list + "["@ + decimal_text(index) + "]"@
}

/// Reading the first `n` records of a list.
pub open spec fn items_read<M>(
    items: Seq<Json>,
    list: Seq<char>,
    parser: spec_fn(Json, Seq<char>) -> Result<M, Fault>,
    n: nat,
) -> Result<Seq<M>, Fault>
    decreases n,
{
    if n == 0 {
        Ok(Seq::empty())
    } else {
        match items_read(items, list, parser, (n - 1) as nat) {
            Err(fault) => Err(fault),
            Ok(before) => match parser(items[n - 1], place(list, (n - 1) as nat)) {
                Err(fault) => Err(fault),
                Ok(record) => Ok(before.push(record)),
            },
        }
    }
}

/// Reading a list of records.
pub open spec fn list_read<M>(
    v: Json,
    name: Seq<char>,
    context: Seq<char>,
    list: Seq<char>,
    parser: spec_fn(Json, Seq<char>) -> Result<M, Fault>,
) -> Result<Seq<M>, Fault> {
    match list_field(v, name, context) {
        Err(fault) => Err(fault),
        Ok(items) => items_read(items, list, parser, items.len()),
    }
}

proof fn lemma_items_fail<M>(
    items: Seq<Json>,
    list: Seq<char>,
    parser: spec_fn(Json, Seq<char>) -> Result<M, Fault>,
    m: nat,
    n: nat,
)
    requires
        m <= n,
        items_read(items, list, parser, m) is Err,
    ensures
        items_read(items, list, parser, n) == items_read(items, list, parser, m),
    decreases n - m,
{
    if m < n {
        lemma_items_fail(items, list, parser, m, (n - 1) as nat);
    }
}

/// Reads a list of records with a parser that does what `meaning` says.
pub(crate) fn read_list<T: View, P: Fn(&Value, &str) -> Result<T, Error>>(
    document: &Value,
    name: &str,
    context: &str,
    list: &str,
    parser: P,
    meaning: Ghost<spec_fn(Json, Seq<char>) -> Result<T::V, Fault>>,
) -> (r: Result<Vec<T>, Error>)
    requires
        forall|v: &Value, c: &str| #[trigger] call_requires(parser, (v, c)),
        forall|v: &Value, c: &str, out: Result<T, Error>| #[trigger]
            call_ensures(parser, (v, c), out) ==> outcome(out) == (meaning@)(v@, c@),
    ensures
        list_outcome(r) == list_read(document@, name@, context@, list@, meaning@),
{
    broadcast use group_json_views;

    let entries: &Vec<Value> = required_list(document, name, context)?;
    let ghost all = items_view(entries@);
    let mut out: Vec<T> = Vec::new();
    assert(views(out@) =~= Seq::empty());
    let mut i: usize = 0;
    while i < entries.len()
        invariant
            i <= entries.len(),
            all == items_view(entries@),
            all.len() == entries.len(),
            list_field(document@, name@, context@) == Ok::<Seq<Json>, Fault>(all),
            forall|v: &Value, c: &str| #[trigger] call_requires(parser, (v, c)),
            forall|v: &Value, c: &str, out: Result<T, Error>| #[trigger]
                call_ensures(parser, (v, c), out) ==> outcome(out) == (meaning@)(v@, c@),
            items_read(all, list@, meaning@, i as nat) == Ok::<Seq<T::V>, Fault>(views(out@)),
        decreases entries.len() - i,
    {
        broadcast use group_json_views;

        assert(all[i as int] == entries@[i as int]@);
        let index: String = text::decimal(i as u64);
        let at: String = text::cat4(list, "[", index.as_str(), "]");
        let read: Result<T, Error> = parser(&entries[i], at.as_str());
        match read {
            Err(error) => {
                proof {
                    lemma_items_fail(all, list@, meaning@, (i + 1) as nat, all.len());
                }
                return Err(error);
            },
            Ok(record) => {
                let ghost before = out@;
                out.push(record);
                assert(views(out@) =~= views(before).push(record@));
            },
        }
        i += 1;
    }
    Ok(out)
}

/// What reading an unresolved question gives.
pub open spec fn parsed_question(v: Json, context: Seq<char>) -> Result<Seq<char>, Fault> {
    match string_of(Some(v)) {
        None => Err(settings_fault(context + " must be a string"@)),
        Some(s) => short_text(s, "unresolved question"@),
    }
}

pub fn parse_question(value: &Value, context: &str) -> (r: Result<String, Error>)
    ensures
        outcome(r) == parsed_question(value@, context@),
{
    match value.as_str() {
        None => Err(invalid_settings(text::cat2(context, " must be a string"))),
        Some(s) => bounded_string(s, "unresolved question"),
    }
}

pub open spec fn decision_parser() -> spec_fn(Json, Seq<char>) -> Result<DecisionModel, Fault> {
    |v: Json, c: Seq<char>| parsed_decision(v, c)
}

pub open spec fn configured_parser() -> spec_fn(Json, Seq<char>) -> Result<ConfiguredModel, Fault> {
    |v: Json, c: Seq<char>| parsed_configured(v, c)
}

pub open spec fn attempt_parser() -> spec_fn(Json, Seq<char>) -> Result<AttemptModel, Fault> {
    |v: Json, c: Seq<char>| parsed_attempt(v, c)
}

pub open spec fn selection_parser() -> spec_fn(Json, Seq<char>) -> Result<SelectionModel, Fault> {
    |v: Json, c: Seq<char>| parsed_selection(v, c)
}

pub open spec fn question_parser() -> spec_fn(Json, Seq<char>) -> Result<Seq<char>, Fault> {
    |v: Json, c: Seq<char>| parsed_question(v, c)
}

} // verus!
