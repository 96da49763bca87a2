//! The records of an investigation: decisions, executions, evidence, and where it came from.

use vstd::prelude::*;

use crate::error::{malformed, Error};
#[allow(unused_imports)]
use crate::error::{malformed_fault, outcome, Fault};
use crate::json::Value;
#[allow(unused_imports)]
use crate::json::{entries_view, field, group_json_views, items_view, string_of, Json};
use crate::text;
#[allow(unused_imports)]
use crate::text::debug_text;

use super::fields::{
    bounded_text, checked_object, required_array, required_identifier, required_str, validate_identifier,
};
#[allow(unused_imports)]
use super::fields::{
    array_field, bounded, fits_text, identified, identifier_field, judged, lemma_required_field, names_view,
    object_complaint, text_field, valid_identifier, verdict,
};
use super::identity::Digest;
#[allow(unused_imports)]
use super::identity::{parsed_digest, valid_digest};
use super::recipe::{optional_ref_value, read_optional_ref};
#[allow(unused_imports)]
use super::recipe::{optional_ref, optional_ref_field, optional_ref_json};
use super::records::{required_digest, required_ref, ArtifactKind, ArtifactRef};
#[allow(unused_imports)]
use super::records::{digest_field, plain, ref_field, ref_json, valid_ref, RefModel};

verus! {

/// Who stands behind a decision.
#[derive(Debug, Clone, Copy, PartialEq, Eq, Structural)]
pub enum DecisionKind {
    Note,
    AgentRecommendation,
    HumanApproval,
}

pub open spec fn decision_kind_text(kind: DecisionKind) -> Seq<char> {
    match kind {
        DecisionKind::Note => "note"@,
        DecisionKind::AgentRecommendation => "agent_recommendation"@,
        DecisionKind::HumanApproval => "human_approval"@,
    }
}

pub open spec fn parsed_decision_kind(value: Seq<char>, context: Seq<char>) -> Result<
    DecisionKind,
    Fault,
> {
    if value == "note"@ {
        Ok(DecisionKind::Note)
    } else if value == "agent_recommendation"@ {
        Ok(DecisionKind::AgentRecommendation)
    } else if value == "human_approval"@ {
        Ok(DecisionKind::HumanApproval)
    } else {
        Err(
            malformed_fault(
                context + " kind "@ + debug_text(value)
                    + " must be note, agent_recommendation, or human_approval"@,
            ),
        )
    }
}

impl DecisionKind {
    pub fn as_str(self) -> (r: &'static str)
        ensures
            r@ == decision_kind_text(self),
    {
        match self {
            DecisionKind::Note => "note",
            DecisionKind::AgentRecommendation => "agent_recommendation",
            DecisionKind::HumanApproval => "human_approval",
        }
    }

    pub fn parse(value: &str, context: &str) -> (r: Result<DecisionKind, Error>)
        ensures
            plain(r) == parsed_decision_kind(value@, context@),
    {
        if text::same(value, "note") {
            Ok(DecisionKind::Note)
        } else if text::same(value, "agent_recommendation") {
            Ok(DecisionKind::AgentRecommendation)
        } else if text::same(value, "human_approval") {
            Ok(DecisionKind::HumanApproval)
        } else {
            let shown: String = text::quoted(value);
            Err(
                malformed(
                    text::cat4(
                        context,
                        " kind ",
                        shown.as_str(),
                        " must be note, agent_recommendation, or human_approval",
                    ),
                ),
            )
        }
    }
}

/// The model and data that a decision was made on.
#[derive(Debug, Clone)]
pub struct DecisionInputs {
    pub model: ArtifactRef,
    pub data: ArtifactRef,
}

/// The mathematical content of a [`DecisionInputs`].
#[verifier::ext_equal]
pub struct InputsModel {
    pub model: RefModel,
    pub data: RefModel,
}

impl View for DecisionInputs {
    type V = InputsModel;

    open spec fn view(&self) -> InputsModel {
        InputsModel { model: self.model@, data: self.data@ }
    }
}

pub open spec fn input_fields() -> Seq<Seq<char>> {
    seq!["model"@, "data"@]
}

/// References to a model and to data.
pub open spec fn valid_inputs(m: InputsModel) -> bool {
    &&& valid_ref(m.model)
    &&& m.model.kind == ArtifactKind::ModelIr
    &&& valid_ref(m.data)
    &&& m.data.kind == ArtifactKind::Data
}

pub open spec fn inputs_json(m: InputsModel) -> Json {
    Json::Object(seq![("model"@, ref_json(m.model)), ("data"@, ref_json(m.data))])
}

/// What reading a model/data pair gives; `complaint` is the message for wrong kinds.
pub open spec fn parsed_inputs(v: Json, context: Seq<char>, complaint: Seq<char>) -> Result<
    InputsModel,
    Fault,
> {
    match object_complaint(v, context, input_fields(), input_fields()) {
        Some(message) => Err(malformed_fault(message)),
        None => match ref_field(v, "model"@, context + ".model"@) {
            Err(fault) => Err(fault),
            Ok(model) => match ref_field(v, "data"@, context + ".data"@) {
                Err(fault) => Err(fault),
                Ok(data) => if model.kind != ArtifactKind::ModelIr || data.kind
                    != ArtifactKind::Data {
                    Err(malformed_fault(complaint))
                } else {
                    Ok(InputsModel { model, data })
                },
            },
        },
    }
}

impl DecisionInputs {
    /// Reads a model/data pair; `complaint` is the message for wrong kinds.
    pub fn read(value: &Value, context: &str, complaint: &str) -> (r: Result<DecisionInputs, Error>)
        ensures
            outcome(r) == parsed_inputs(value@, context@, complaint@),
    {
        let names: [&str; 2] = ["model", "data"];
        assert(names_view(names@) =~= input_fields());
        checked_object(value, context, &names, &names)?;
        proof {
            let all = input_fields();
            assert(all[0] == "model"@ && all[1] == "data"@);
            lemma_required_field(value@, context@, all, all, "model"@);
            lemma_required_field(value@, context@, all, all, "data"@);
        }
        let model: ArtifactRef = required_ref(
            value,
            "model",
            text::cat2(context, ".model").as_str(),
        )?;
        let data: ArtifactRef = required_ref(value, "data", text::cat2(context, ".data").as_str())?;
        if model.kind != ArtifactKind::ModelIr || data.kind != ArtifactKind::Data {
            return Err(malformed(complaint.to_owned()));
        }
        Ok(DecisionInputs { model, data })
    }

    pub fn to_value(&self) -> (r: Value)
        ensures
            r@ == inputs_json(self@),
    {
        broadcast use group_json_views;

        let entries: Vec<(String, Value)> = vec![
            ("model".to_owned(), self.model.to_value()),
            ("data".to_owned(), self.data.to_value()),
        ];
        assert(entries_view(entries@) =~= inputs_json(self@)->Object_0);
        Value::Object(entries)
    }

    pub fn copy(&self) -> (r: DecisionInputs)
        ensures
            r@ == self@,
    {
        DecisionInputs { model: self.model.copy(), data: self.data.copy() }
    }
}

/// A decision: its reason, what it cites, and the inputs it was made on.
#[derive(Debug, Clone)]
pub struct Decision {
    pub id: String,
    pub parent: Option<String>,
    pub reason: String,
    pub cites: Vec<Digest>,
    pub kind: DecisionKind,
    pub inputs: DecisionInputs,
}

/// The mathematical content of a [`Decision`].
#[verifier::ext_equal]
pub struct DecisionModel {
    pub id: Seq<char>,
    pub parent: Option<Seq<char>>,
    pub reason: Seq<char>,
    pub cites: Seq<Seq<char>>,
    pub kind: DecisionKind,
    pub inputs: InputsModel,
}

/// The view of an optional text.
pub open spec fn optional_text(s: Option<String>) -> Option<Seq<char>> {
    match s {
        Some(found) => Some(found@),
        None => None,
    }
}

/// The views of the items of a sequence.
pub open spec fn views<T: View>(s: Seq<T>) -> Seq<T::V> {
    s.map_values(|item: T| item@)
}

impl View for Decision {
    type V = DecisionModel;

    open spec fn view(&self) -> DecisionModel {
        DecisionModel {
            id: self.id@,
            parent: optional_text(self.parent),
            reason: self.reason@,
            cites: views(self.cites@),
            kind: self.kind,
            inputs: self.inputs@,
        }
    }
}

pub open spec fn decision_fields() -> Seq<Seq<char>> {
    seq!["id"@, "parent"@, "reason"@, "cites"@, "kind"@, "inputs"@]
}

/// Reading the parent of a decision.
pub open spec fn parsed_parent(v: Json, context: Seq<char>) -> Result<Option<Seq<char>>, Fault> {
    match v {
        Json::Null => Ok(None),
        Json::Str(parent) => match identified(parent, context) {
            Err(fault) => Err(fault),
            Ok(id) => Ok(Some(id)),
        },
        _ => Err(malformed_fault(context + ".parent must be null or a string"@)),
    }
}

/// The view of a result that may carry a text.
pub open spec fn optional_text_outcome(r: Result<Option<String>, Error>) -> Result<
    Option<Seq<char>>,
    Fault,
> {
    match r {
        Ok(found) => Ok(optional_text(found)),
        Err(error) => Err(error@),
    }
}

fn read_parent(value: &Value, context: &str) -> (r: Result<Option<String>, Error>)
    ensures
        optional_text_outcome(r) == parsed_parent(value@, context@),
{
    match value {
        Value::Null => Ok(None),
        Value::Str(parent) => {
            let id: String = validate_identifier(parent.as_str(), context)?;
            Ok(Some(id))
        },
        _ => Err(malformed(text::cat2(context, ".parent must be null or a string"))),
    }
}

/// Reading the first `n` citations.
pub open spec fn parsed_cites(items: Seq<Json>, context: Seq<char>, n: nat) -> Result<
    Seq<Seq<char>>,
    Fault,
>
    decreases n,
{
    if n == 0 {
        Ok(Seq::empty())
    } else {
        match parsed_cites(items, context, (n - 1) as nat) {
            Err(fault) => Err(fault),
            Ok(before) => match string_of(Some(items[n - 1])) {
                None => Err(malformed_fault(context + ".cites entries must be strings"@)),
                Some(digest) => match parsed_digest(digest, context + ".cites"@) {
                    Err(fault) => Err(fault),
                    Ok(cite) => Ok(before.push(cite)),
                },
            },
        }
    }
}

/// Whether reading a longer prefix fails as a shorter one does.
proof fn lemma_cites_fail(items: Seq<Json>, context: Seq<char>, m: nat, n: nat)
    requires
        m <= n,
        parsed_cites(items, context, m) is Err,
    ensures
        parsed_cites(items, context, n) == parsed_cites(items, context, m),
    decreases n - m,
{
    if m < n {
        lemma_cites_fail(items, context, m, (n - 1) as nat);
    }
}

fn read_cites(items: &Vec<Value>, context: &str) -> (r: Result<Vec<Digest>, Error>)
    ensures
        match r {
            Ok(cites) => parsed_cites(items_view(items@), context@, items@.len()) == Ok::<
                Seq<Seq<char>>,
                Fault,
            >(views(cites@)),
            Err(error) => parsed_cites(items_view(items@), context@, items@.len()) == Err::<
                Seq<Seq<char>>,
                Fault,
            >(error@),
        },
{
    broadcast use group_json_views;

    let place: String = text::cat2(context, ".cites");
    let ghost all = items_view(items@);
    let mut out: Vec<Digest> = Vec::new();
    assert(views(out@) =~= Seq::empty());
    let mut i: usize = 0;
    while i < items.len()
        invariant
            i <= items.len(),
            all == items_view(items@),
            place@ == context@ + ".cites"@,
            parsed_cites(all, context@, i as nat) == Ok::<Seq<Seq<char>>, Fault>(views(out@)),
        decreases items.len() - i,
    {
        broadcast use group_json_views;

        assert(all[i as int] == items@[i as int]@);
        let ghost next = parsed_cites(all, context@, (i + 1) as nat);
        match items[i].as_str() {
            None => {
                proof {
                    lemma_cites_fail(all, context@, (i + 1) as nat, items@.len());
                }
                return Err(malformed(text::cat2(context, ".cites entries must be strings")));
            },
            Some(digest) => {
                match Digest::parse(digest, place.as_str()) {
                    Err(error) => {
                        proof {
                            lemma_cites_fail(all, context@, (i + 1) as nat, items@.len());
                        }
                        return Err(error);
                    },
                    Ok(cite) => {
                        let ghost before = out@;
                        out.push(cite);
                        assert(views(out@) =~= views(before).push(cite@));
                    },
                }
            },
        }
        i += 1;
    }
    Ok(out)
}

/// A decision that a document can carry.
pub open spec fn valid_decision(m: DecisionModel) -> bool {
    &&& valid_identifier(m.id)
    &&& m.parent is Some ==> valid_identifier(m.parent->0)
    &&& fits_text(m.reason)
    &&& forall|i: int| 0 <= i < m.cites.len() ==> valid_digest(#[trigger] m.cites[i])
    &&& valid_inputs(m.inputs)
}

/// The rest of reading a decision, once its parent and citations were read.
pub open spec fn decision_tail(
    v: Json,
    context: Seq<char>,
    parent: Option<Seq<char>>,
    cites: Seq<Seq<char>>,
) -> Result<DecisionModel, Fault> {
    match identifier_field(v, "id"@, context) {
        Err(fault) => Err(fault),
        Ok(id) => match text_field(v, "reason"@, context) {
            Err(fault) => Err(fault),
            Ok(long_reason) => match bounded(long_reason, context) {
                Err(fault) => Err(fault),
                Ok(reason) => match text_field(v, "kind"@, context) {
                    Err(fault) => Err(fault),
                    Ok(name) => match parsed_decision_kind(name, context) {
                        Err(fault) => Err(fault),
                        Ok(kind) => match parsed_inputs(
                            field(v, "inputs"@)->0,
                            context + ".inputs"@,
                            context + ".inputs"@ + " must carry model_ir and data artifact references"@,
                        ) {
                            Err(fault) => Err(fault),
                            Ok(inputs) => Ok(
                                DecisionModel { id, parent, reason, cites, kind, inputs },
                            ),
                        },
                    },
                },
            },
        },
    }
}

/// What reading a decision gives.
pub open spec fn parsed_decision(v: Json, context: Seq<char>) -> Result<DecisionModel, Fault> {
    match object_complaint(v, context, decision_fields(), decision_fields()) {
        Some(message) => Err(malformed_fault(message)),
        None => match parsed_parent(field(v, "parent"@)->0, context) {
            Err(fault) => Err(fault),
            Ok(parent) => match array_field(v, "cites"@, context) {
                Err(fault) => Err(fault),
                Ok(items) => match parsed_cites(items, context, items.len()) {
                    Err(fault) => Err(fault),
                    Ok(cites) => decision_tail(v, context, parent, cites),
                },
            },
        },
    }
}

/// The document form of an optional text.
pub open spec fn optional_text_json(s: Option<Seq<char>>) -> Json {
    match s {
        Some(found) => Json::Str(found),
        None => Json::Null,
    }
}

fn optional_text_value(s: &Option<String>) -> (r: Value)
    ensures
        r@ == optional_text_json(optional_text(*s)),
{
    match s {
        Some(found) => Value::Str(found.clone()),
        None => Value::Null,
    }
}

/// The document form of a list of texts.
pub open spec fn texts_json(s: Seq<Seq<char>>) -> Json {
    Json::Array(s.map_values(|t: Seq<char>| Json::Str(t)))
}

/// The document form of a list of texts.
pub fn texts_value(s: &Vec<String>) -> (r: Value)
    ensures
        r@ == texts_json(views(s@)),
{
    broadcast use group_json_views;

    let mut out: Vec<Value> = Vec::new();
    let mut i: usize = 0;
    while i < s.len()
        invariant
            i <= s.len(),
            out.len() == i,
            forall|j: int| 0 <= j < i ==> (#[trigger] out@[j])@ == Json::Str(s@[j]@),
        decreases s.len() - i,
    {
        out.push(Value::Str(s[i].clone()));
        i += 1;
    }
    assert(items_view(out@) =~= texts_json(views(s@))->Array_0);
    Value::Array(out)
}

fn digests_value(s: &Vec<Digest>) -> (r: Value)
    ensures
        r@ == texts_json(views(s@)),
{
    broadcast use group_json_views;

    let mut out: Vec<Value> = Vec::new();
    let mut i: usize = 0;
    while i < s.len()
        invariant
            i <= s.len(),
            out.len() == i,
            forall|j: int| 0 <= j < i ==> (#[trigger] out@[j])@ == Json::Str(s@[j]@),
        decreases s.len() - i,
    {
        out.push(Value::Str(s[i].0.clone()));
        i += 1;
    }
    assert(items_view(out@) =~= texts_json(views(s@))->Array_0);
    Value::Array(out)
}

/// The document form of a decision.
pub open spec fn decision_json(m: DecisionModel) -> Json {
    Json::Object(
        seq![
            ("id"@, Json::Str(m.id)),
            ("parent"@, optional_text_json(m.parent)),
            ("reason"@, Json::Str(m.reason)),
            ("cites"@, texts_json(m.cites)),
            ("kind"@, Json::Str(decision_kind_text(m.kind))),
            ("inputs"@, inputs_json(m.inputs)),
        ],
    )
}

impl Decision {
    pub fn parse(value: &Value, context: &str) -> (r: Result<Decision, Error>)
        ensures
            outcome(r) == parsed_decision(value@, context@),
    {
        broadcast use group_json_views;

        let names: [&str; 6] = ["id", "parent", "reason", "cites", "kind", "inputs"];
        assert(names_view(names@) =~= decision_fields());
        checked_object(value, context, &names, &names)?;
        proof {
            let all = decision_fields();
            assert(all[1] == "parent"@ && all[5] == "inputs"@);
            lemma_required_field(value@, context@, all, all, "parent"@);
            lemma_required_field(value@, context@, all, all, "inputs"@);
        }
        let parent: Option<String> = read_parent(value.get("parent").unwrap(), context)?;
        let cited: &Vec<Value> = required_array(value, "cites", context)?;
        let cites: Vec<Digest> = read_cites(cited, context)?;
        let id: String = required_identifier(value, "id", context)?;
        let reason: String = bounded_text(required_str(value, "reason", context)?, context)?;
        let kind: DecisionKind = DecisionKind::parse(
            required_str(value, "kind", context)?,
            context,
        )?;
        let place: String = text::cat2(context, ".inputs");
        let complaint: String = text::cat2(
            place.as_str(),
            " must carry model_ir and data artifact references",
        );
        let inputs: DecisionInputs = DecisionInputs::read(
            value.get("inputs").unwrap(),
            place.as_str(),
            complaint.as_str(),
        )?;
        Ok(Decision { id, parent, reason, cites, kind, inputs })
    }

    pub fn to_value(&self) -> (r: Value)
        ensures
            r@ == decision_json(self@),
    {
        broadcast use group_json_views;

        let entries: Vec<(String, Value)> = vec![
            ("id".to_owned(), Value::Str(self.id.clone())),
            ("parent".to_owned(), optional_text_value(&self.parent)),
            ("reason".to_owned(), Value::Str(self.reason.clone())),
            ("cites".to_owned(), digests_value(&self.cites)),
            ("kind".to_owned(), Value::Str(self.kind.as_str().to_owned())),
            ("inputs".to_owned(), self.inputs.to_value()),
        ];
        assert(entries_view(entries@) =~= decision_json(self@)->Object_0);
        Value::Object(entries)
    }
}

/// How an execution ended.
#[derive(Debug, Clone, Copy, PartialEq, Eq, Structural)]
pub enum Outcome {
    Completed,
    Failed,
    Cancelled,
    Unsupported,
    Incomplete,
}

pub open spec fn outcome_text(result: Outcome) -> Seq<char> {
    match result {
        Outcome::Completed => "completed"@,
        Outcome::Failed => "failed"@,
        Outcome::Cancelled => "cancelled"@,
        Outcome::Unsupported => "unsupported"@,
        Outcome::Incomplete => "incomplete"@,
    }
}

pub open spec fn parsed_outcome(value: Seq<char>, context: Seq<char>) -> Result<Outcome, Fault> {
    if value == "completed"@ {
        Ok(Outcome::Completed)
    } else if value == "failed"@ {
        Ok(Outcome::Failed)
    } else if value == "cancelled"@ {
        Ok(Outcome::Cancelled)
    } else if value == "unsupported"@ {
        Ok(Outcome::Unsupported)
    } else if value == "incomplete"@ {
        Ok(Outcome::Incomplete)
    } else {
        Err(malformed_fault(context + " outcome "@ + debug_text(value) + " is unsupported"@))
    }
}

impl Outcome {
    pub fn as_str(self) -> (r: &'static str)
        ensures
            r@ == outcome_text(self),
    {
        match self {
            Outcome::Completed => "completed",
            Outcome::Failed => "failed",
            Outcome::Cancelled => "cancelled",
            Outcome::Unsupported => "unsupported",
            Outcome::Incomplete => "incomplete",
        }
    }

    pub fn parse(value: &str, context: &str) -> (r: Result<Outcome, Error>)
        ensures
            plain(r) == parsed_outcome(value@, context@),
    {
        if text::same(value, "completed") {
            Ok(Outcome::Completed)
        } else if text::same(value, "failed") {
            Ok(Outcome::Failed)
        } else if text::same(value, "cancelled") {
            Ok(Outcome::Cancelled)
        } else if text::same(value, "unsupported") {
            Ok(Outcome::Unsupported)
        } else if text::same(value, "incomplete") {
            Ok(Outcome::Incomplete)
        } else {
            let shown: String = text::quoted(value);
            Err(malformed(text::cat4(context, " outcome ", shown.as_str(), " is unsupported")))
        }
    }
}

/// One run of a recipe.
#[derive(Debug, Clone)]
pub struct Execution {
    pub id: String,
    pub recipe: String,
    pub recipe_sha256: Digest,
    pub outcome: Outcome,
    pub output: Option<ArtifactRef>,
    pub error: Option<String>,
}

/// The mathematical content of an [`Execution`].
#[verifier::ext_equal]
pub struct ExecutionModel {
    pub id: Seq<char>,
    pub recipe: Seq<char>,
    pub recipe_sha256: Seq<char>,
    pub outcome: Outcome,
    pub output: Option<RefModel>,
    pub error: Option<Seq<char>>,
}

impl View for Execution {
    type V = ExecutionModel;

    open spec fn view(&self) -> ExecutionModel {
        ExecutionModel {
            id: self.id@,
            recipe: self.recipe@,
            recipe_sha256: self.recipe_sha256@,
            outcome: self.outcome,
            output: optional_ref(self.output),
            error: optional_text(self.error),
        }
    }
}

pub open spec fn execution_fields() -> Seq<Seq<char>> {
    seq!["id"@, "recipe"@, "recipe_sha256"@, "outcome"@, "output"@, "error"@]
}

/// The complaint about an outcome that does not fit its output and error, if there is one:
/// completed runs have an output and no error, incomplete runs have neither, and every other
/// run has an error and no output.
pub open spec fn outcome_complaint(
    result: Outcome,
    has_output: bool,
    has_error: bool,
    context: Seq<char>,
) -> Option<Seq<char>> {
    if result == Outcome::Completed {
        if !has_output || has_error {
            Some(context + " completed outcome requires output and forbids error"@)
        } else {
            None
        }
    } else if result == Outcome::Incomplete {
        if has_output || has_error {
            Some(
                context
                    + " incomplete outcome has neither output nor invented error/cancellation"@,
            )
        } else {
            None
        }
    } else if has_output || !has_error {
        Some(context + " non-completed outcome requires an error and forbids output"@)
    } else {
        None
    }
}

/// Reading the error of an execution.
pub open spec fn parsed_error(v: Json, context: Seq<char>) -> Result<Option<Seq<char>>, Fault> {
    match v {
        Json::Null => Ok(None),
        Json::Str(message) => match bounded(message, context + ".error"@) {
            Err(fault) => Err(fault),
            Ok(kept) => Ok(Some(kept)),
        },
        _ => Err(malformed_fault(context + ".error must be null or a string"@)),
    }
}

fn read_error(value: &Value, context: &str) -> (r: Result<Option<String>, Error>)
    ensures
        optional_text_outcome(r) == parsed_error(value@, context@),
{
    match value {
        Value::Null => Ok(None),
        Value::Str(message) => {
            let kept: String = bounded_text(
                message.as_str(),
                text::cat2(context, ".error").as_str(),
            )?;
            Ok(Some(kept))
        },
        _ => Err(malformed(text::cat2(context, ".error must be null or a string"))),
    }
}

/// An execution that a document can carry.
pub open spec fn valid_execution(m: ExecutionModel) -> bool {
    &&& valid_identifier(m.id)
    &&& valid_identifier(m.recipe)
    &&& valid_digest(m.recipe_sha256)
    &&& m.output is Some ==> valid_ref(m.output->0)
    &&& m.error is Some ==> fits_text(m.error->0)
    &&& outcome_complaint(m.outcome, m.output is Some, m.error is Some, Seq::empty()) is None
}

/// The rest of reading an execution, once its result was read.
pub open spec fn execution_tail(
    v: Json,
    context: Seq<char>,
    result: Outcome,
    output: Option<RefModel>,
    error: Option<Seq<char>>,
) -> Result<ExecutionModel, Fault> {
    match outcome_complaint(result, output is Some, error is Some, context) {
        Some(message) => Err(malformed_fault(message)),
        None => match identifier_field(v, "id"@, context) {
            Err(fault) => Err(fault),
            Ok(id) => match identifier_field(v, "recipe"@, context) {
                Err(fault) => Err(fault),
                Ok(recipe) => match digest_field(v, "recipe_sha256"@, context) {
                    Err(fault) => Err(fault),
                    Ok(recipe_sha256) => Ok(
                        ExecutionModel {
                            id,
                            recipe,
                            recipe_sha256,
                            outcome: result,
                            output,
                            error,
                        },
                    ),
                },
            },
        },
    }
}

/// What reading an execution gives.
pub open spec fn parsed_execution(v: Json, context: Seq<char>) -> Result<ExecutionModel, Fault> {
    match object_complaint(v, context, execution_fields(), execution_fields()) {
        Some(message) => Err(malformed_fault(message)),
        None => match text_field(v, "outcome"@, context) {
            Err(fault) => Err(fault),
            Ok(name) => match parsed_outcome(name, context) {
                Err(fault) => Err(fault),
                Ok(result) => match optional_ref_field(v, "output"@, context + ".output"@) {
                    Err(fault) => Err(fault),
                    Ok(output) => match parsed_error(field(v, "error"@)->0, context) {
                        Err(fault) => Err(fault),
                        Ok(error) => execution_tail(v, context, result, output, error),
                    },
                },
            },
        },
    }
}

/// The document form of an execution.
pub open spec fn execution_json(m: ExecutionModel) -> Json {
    Json::Object(
        seq![
            ("id"@, Json::Str(m.id)),
            ("recipe"@, Json::Str(m.recipe)),
            ("recipe_sha256"@, Json::Str(m.recipe_sha256)),
            ("outcome"@, Json::Str(outcome_text(m.outcome))),
            ("output"@, optional_ref_json(m.output)),
            ("error"@, optional_text_json(m.error)),
        ],
    )
}

fn check_outcome(result: Outcome, has_output: bool, has_error: bool, context: &str) -> (r: Result<
    (),
    Error,
>)
    ensures
        verdict(r) == judged(outcome_complaint(result, has_output, has_error, context@)),
{
    if result == Outcome::Completed {
        if !has_output || has_error {
            return Err(
                malformed(
                    text::cat2(context, " completed outcome requires output and forbids error"),
                ),
            );
        }
    } else if result == Outcome::Incomplete {
        if has_output || has_error {
            return Err(
                malformed(
                    text::cat2(
                        context,
                        " incomplete outcome has neither output nor invented error/cancellation",
                    ),
                ),
            );
        }
    } else if has_output || !has_error {
        return Err(
            malformed(
                text::cat2(
                    context,
                    " non-completed outcome requires an error and forbids output",
                ),
            ),
        );
    }
    Ok(())
}

impl Execution {
    pub fn parse(value: &Value, context: &str) -> (r: Result<Execution, Error>)
        ensures
            outcome(r) == parsed_execution(value@, context@),
    {
        let names: [&str; 6] = ["id", "recipe", "recipe_sha256", "outcome", "output", "error"];
        assert(names_view(names@) =~= execution_fields());
        checked_object(value, context, &names, &names)?;
        proof {
            let all = execution_fields();
            assert(all[4] == "output"@ && all[5] == "error"@);
            lemma_required_field(value@, context@, all, all, "output"@);
            lemma_required_field(value@, context@, all, all, "error"@);
        }
        let result: Outcome = Outcome::parse(required_str(value, "outcome", context)?, context)?;
        let output: Option<ArtifactRef> = read_optional_ref(
            value,
            "output",
            text::cat2(context, ".output").as_str(),
        )?;
        let error: Option<String> = read_error(value.get("error").unwrap(), context)?;
        check_outcome(result, output.is_some(), error.is_some(), context)?;
        let id: String = required_identifier(value, "id", context)?;
        let recipe: String = required_identifier(value, "recipe", context)?;
        let recipe_sha256: Digest = required_digest(value, "recipe_sha256", context)?;
        Ok(Execution { id, recipe, recipe_sha256, outcome: result, output, error })
    }

    pub fn to_value(&self) -> (r: Value)
        ensures
            r@ == execution_json(self@),
    {
        broadcast use group_json_views;

        let entries: Vec<(String, Value)> = vec![
            ("id".to_owned(), Value::Str(self.id.clone())),
            ("recipe".to_owned(), Value::Str(self.recipe.clone())),
            ("recipe_sha256".to_owned(), Value::Str(self.recipe_sha256.0.clone())),
            ("outcome".to_owned(), Value::Str(self.outcome.as_str().to_owned())),
            ("output".to_owned(), optional_ref_value(&self.output)),
            ("error".to_owned(), optional_text_value(&self.error)),
        ];
        assert(entries_view(entries@) =~= execution_json(self@)->Object_0);
        Value::Object(entries)
    }
}

/// Whether evidence speaks for the snapshot as it is, or for an earlier state.
#[derive(Debug, Clone, Copy, PartialEq, Eq, Structural)]
pub enum EvidenceStatus {
    Current,
    Historical,
}

pub open spec fn status_text(status: EvidenceStatus) -> Seq<char> {
    match status {
        EvidenceStatus::Current => "current"@,
        EvidenceStatus::Historical => "historical"@,
    }
}

pub open spec fn parsed_status(value: Seq<char>, context: Seq<char>) -> Result<
    EvidenceStatus,
    Fault,
> {
    if value == "current"@ {
        Ok(EvidenceStatus::Current)
    } else if value == "historical"@ {
        Ok(EvidenceStatus::Historical)
    } else {
        Err(
            malformed_fault(
                context + " status "@ + debug_text(value) + " must be current or historical"@,
            ),
        )
    }
}

impl EvidenceStatus {
    pub fn as_str(self) -> (r: &'static str)
        ensures
            r@ == status_text(self),
    {
        match self {
            EvidenceStatus::Current => "current",
            EvidenceStatus::Historical => "historical",
        }
    }

    pub fn parse(value: &str, context: &str) -> (r: Result<EvidenceStatus, Error>)
        ensures
            plain(r) == parsed_status(value@, context@),
    {
        if text::same(value, "current") {
            Ok(EvidenceStatus::Current)
        } else if text::same(value, "historical") {
            Ok(EvidenceStatus::Historical)
        } else {
            let shown: String = text::quoted(value);
            Err(
                malformed(
                    text::cat4(
                        context,
                        " status ",
                        shown.as_str(),
                        " must be current or historical",
                    ),
                ),
            )
        }
    }
}

/// An execution that was chosen as evidence.
#[derive(Debug, Clone)]
pub struct EvidenceSelection {
    pub name: String,
    pub execution: String,
    pub status: EvidenceStatus,
}

/// The mathematical content of an [`EvidenceSelection`].
#[verifier::ext_equal]
pub struct EvidenceModel {
    pub name: Seq<char>,
    pub execution: Seq<char>,
    pub status: EvidenceStatus,
}

impl View for EvidenceSelection {
    type V = EvidenceModel;

    open spec fn view(&self) -> EvidenceModel {
        EvidenceModel { name: self.name@, execution: self.execution@, status: self.status }
    }
}

pub open spec fn evidence_fields() -> Seq<Seq<char>> {
    seq!["name"@, "execution"@, "status"@]
}

pub open spec fn valid_evidence(m: EvidenceModel) -> bool {
    valid_identifier(m.name) && valid_identifier(m.execution)
}

/// What reading an evidence selection gives.
pub open spec fn parsed_evidence(v: Json, context: Seq<char>) -> Result<EvidenceModel, Fault> {
    match object_complaint(v, context, evidence_fields(), evidence_fields()) {
        Some(message) => Err(malformed_fault(message)),
        None => match identifier_field(v, "name"@, context) {
            Err(fault) => Err(fault),
            Ok(name) => match identifier_field(v, "execution"@, context) {
                Err(fault) => Err(fault),
                Ok(execution) => match text_field(v, "status"@, context) {
                    Err(fault) => Err(fault),
                    Ok(label) => match parsed_status(label, context) {
                        Err(fault) => Err(fault),
                        Ok(status) => Ok(EvidenceModel { name, execution, status }),
                    },
                },
            },
        },
    }
}

/// The document form of an evidence selection.
pub open spec fn evidence_json(m: EvidenceModel) -> Json {
    Json::Object(
        seq![
            ("name"@, Json::Str(m.name)),
            ("execution"@, Json::Str(m.execution)),
            ("status"@, Json::Str(status_text(m.status))),
        ],
    )
}

impl EvidenceSelection {
    pub fn parse(value: &Value, context: &str) -> (r: Result<EvidenceSelection, Error>)
        ensures
            outcome(r) == parsed_evidence(value@, context@),
    {
        let names: [&str; 3] = ["name", "execution", "status"];
        assert(names_view(names@) =~= evidence_fields());
        checked_object(value, context, &names, &names)?;
        let name: String = required_identifier(value, "name", context)?;
        let execution: String = required_identifier(value, "execution", context)?;
        let status: EvidenceStatus = EvidenceStatus::parse(
            required_str(value, "status", context)?,
            context,
        )?;
        Ok(EvidenceSelection { name, execution, status })
    }

    pub fn to_value(&self) -> (r: Value)
        ensures
            r@ == evidence_json(self@),
    {
        broadcast use group_json_views;

        let entries: Vec<(String, Value)> = vec![
            ("name".to_owned(), Value::Str(self.name.clone())),
            ("execution".to_owned(), Value::Str(self.execution.clone())),
            ("status".to_owned(), Value::Str(self.status.as_str().to_owned())),
        ];
        assert(entries_view(entries@) =~= evidence_json(self@)->Object_0);
        Value::Object(entries)
    }
}

/// The snapshot that an investigation continues, and the decision it continues from.
#[derive(Debug, Clone)]
pub struct Source {
    pub snapshot_id: Digest,
    pub manifest: ArtifactRef,
    pub decision: String,
}

/// The mathematical content of a [`Source`].
#[verifier::ext_equal]
pub struct SourceModel {
    pub snapshot_id: Seq<char>,
    pub manifest: RefModel,
    pub decision: Seq<char>,
}

impl View for Source {
    type V = SourceModel;

    open spec fn view(&self) -> SourceModel {
        SourceModel {
            snapshot_id: self.snapshot_id@,
            manifest: self.manifest@,
            decision: self.decision@,
        }
    }
}

pub open spec fn source_fields() -> Seq<Seq<char>> {
    seq!["snapshot_id"@, "manifest"@, "decision"@]
}

pub open spec fn valid_source(m: SourceModel) -> bool {
    &&& valid_digest(m.snapshot_id)
    &&& valid_ref(m.manifest)
    &&& m.manifest.kind == ArtifactKind::InvestigationManifest
    &&& valid_identifier(m.decision)
}

/// What reading a source gives.
pub open spec fn parsed_source(v: Json, context: Seq<char>) -> Result<SourceModel, Fault> {
    match object_complaint(v, context, source_fields(), source_fields()) {
        Some(message) => Err(malformed_fault(message)),
        None => match ref_field(v, "manifest"@, context + ".manifest"@) {
            Err(fault) => Err(fault),
            Ok(manifest) => if manifest.kind != ArtifactKind::InvestigationManifest {
                Err(
                    malformed_fault(context + ".manifest kind must be investigation_manifest"@),
                )
            } else {
                match digest_field(v, "snapshot_id"@, context) {
                    Err(fault) => Err(fault),
                    Ok(snapshot_id) => match identifier_field(v, "decision"@, context) {
                        Err(fault) => Err(fault),
                        Ok(decision) => Ok(SourceModel { snapshot_id, manifest, decision }),
                    },
                }
            },
        },
    }
}

/// The document form of a source.
pub open spec fn source_json(m: SourceModel) -> Json {
    Json::Object(
        seq![
            ("snapshot_id"@, Json::Str(m.snapshot_id)),
            ("manifest"@, ref_json(m.manifest)),
            ("decision"@, Json::Str(m.decision)),
        ],
    )
}

impl Source {
    pub fn parse(value: &Value, context: &str) -> (r: Result<Source, Error>)
        ensures
            outcome(r) == parsed_source(value@, context@),
    {
        let names: [&str; 3] = ["snapshot_id", "manifest", "decision"];
        assert(names_view(names@) =~= source_fields());
        checked_object(value, context, &names, &names)?;
        proof {
            let all = source_fields();
            assert(all[1] == "manifest"@);
            lemma_required_field(value@, context@, all, all, "manifest"@);
        }
        let manifest: ArtifactRef = required_ref(
            value,
            "manifest",
            text::cat2(context, ".manifest").as_str(),
        )?;
        if manifest.kind != ArtifactKind::InvestigationManifest {
            return Err(
                malformed(
                    text::cat2(context, ".manifest kind must be investigation_manifest"),
                ),
            );
        }
        let snapshot_id: Digest = required_digest(value, "snapshot_id", context)?;
        let decision: String = required_identifier(value, "decision", context)?;
        Ok(Source { snapshot_id, manifest, decision })
    }

    pub fn to_value(&self) -> (r: Value)
        ensures
            r@ == source_json(self@),
    {
        broadcast use group_json_views;

        let entries: Vec<(String, Value)> = vec![
            ("snapshot_id".to_owned(), Value::Str(self.snapshot_id.0.clone())),
            ("manifest".to_owned(), self.manifest.to_value()),
            ("decision".to_owned(), Value::Str(self.decision.clone())),
        ];
        assert(entries_view(entries@) =~= source_json(self@)->Object_0);
        Value::Object(entries)
    }
}

} // verus!
