//! The metadata that a workspace begins with, and citations by name.

use vstd::prelude::*;

use crate::error::{invalid_settings, Error};
#[allow(unused_imports)]
use crate::error::{outcome, settings_fault, Fault};
#[allow(unused_imports)]
use crate::investigation::fields::{lemma_required_field, names_view};
use crate::investigation::identity::Digest;
#[allow(unused_imports)]
use crate::investigation::identity::parsed_digest;
use crate::investigation::ledger::Decision;
#[allow(unused_imports)]
use crate::investigation::ledger::{parsed_decision, views, DecisionModel};
use crate::json::Value;
#[allow(unused_imports)]
use crate::json::{entries_view, field, group_json_views, items_view, Json};
#[allow(unused_imports)]
use crate::model::checked;
use crate::text;

use super::document::{check_outline, read_asked, Asked};
#[allow(unused_imports)]
use super::document::{outline_fault, parsed_asked};
use super::record::{parse_question, read_list, required_short, ConfiguredRecipe};
#[allow(unused_imports)]
use super::record::{
    configured_parser, list_read, place, question_parser, short_field, ConfiguredModel,
};

verus! {

/// Where the first field of that name stands, from a position on.
pub open spec fn index_from(entries: Seq<(Seq<char>, Json)>, name: Seq<char>, i: int) -> Option<int>
    decreases entries.len() - i,
{
    if i < 0 || i >= entries.len() {
        None
    } else if entries[i].0 == name {
        Some(i)
    } else {
        index_from(entries, name, i + 1)
    }
}

/// A citation with the digest that its name stands for.
pub open spec fn cited_item(v: Json, model: Seq<char>, data: Seq<char>) -> Json {
    match v {
        Json::Str(s) => if s == "model"@ {
            Json::Str(model)
        } else if s == "data"@ {
            Json::Str(data)
        } else {
            v
        },
        _ => v,
    }
}

/// An object with the value at one place replaced.
pub open spec fn replaced(entries: Seq<(Seq<char>, Json)>, k: int, value: Json) -> Json {
    Json::Object(entries.update(k, (entries[k].0, value)))
}

/// A decision with the digests that its citations stand for.
pub open spec fn cited_decision(v: Json, model: Seq<char>, data: Seq<char>) -> Json {
    match v {
        Json::Object(entries) => match index_from(entries, "cites"@, 0) {
            Some(k) => match entries[k].1 {
                Json::Array(items) => replaced(
                    entries,
                    k,
                    Json::Array(items.map_values(|item: Json| cited_item(item, model, data))),
                ),
                _ => v,
            },
            None => v,
        },
        _ => v,
    }
}

/// A workspace with the digests that the citations of its decisions stand for.
pub open spec fn cited_workspace(v: Json, model: Seq<char>, data: Seq<char>) -> Json {
    match v {
        Json::Object(entries) => match index_from(entries, "decisions"@, 0) {
            Some(k) => match entries[k].1 {
                Json::Array(items) => replaced(
                    entries,
                    k,
                    Json::Array(items.map_values(|item: Json| cited_decision(item, model, data))),
                ),
                _ => v,
            },
            None => v,
        },
        _ => v,
    }
}

fn find_index(entries: &Vec<(String, Value)>, name: &str) -> (r: Option<usize>)
    ensures
        match r {
            Some(k) => k < entries@.len() && index_from(entries_view(entries@), name@, 0) == Some(
                k as int,
            ),
            None => index_from(entries_view(entries@), name@, 0) is None,
        },
{
    broadcast use group_json_views;

    let ghost all = entries_view(entries@);
    let mut i: usize = 0;
    while i < entries.len()
        invariant
            i <= entries.len(),
            all == entries_view(entries@),
            index_from(all, name@, 0) == index_from(all, name@, i as int),
        decreases entries.len() - i,
    {
        broadcast use group_json_views;

        assert(all[i as int].0 == entries@[i as int].0@);
        if text::same(entries[i].0.as_str(), name) {
            return Some(i);
        }
        i += 1;
    }
    None
}

fn replace_at(entries: &Vec<(String, Value)>, k: usize, value: Value) -> (r: Value)
    requires
        k < entries@.len(),
    ensures
        r@ == replaced(entries_view(entries@), k as int, value@),
{
    broadcast use group_json_views;

    let ghost all = entries_view(entries@);
    let ghost content = value@;
    let mut out: Vec<(String, Value)> = Vec::new();
    let mut i: usize = 0;
    while i < entries.len()
        invariant
            i <= entries.len(),
            out.len() == i,
            all == entries_view(entries@),
            forall|j: int|
                0 <= j < i ==> (#[trigger] out@[j]).0@ == all[j].0 && out@[j].1@ == all[j].1,
        decreases entries.len() - i,
    {
        broadcast use group_json_views;

        assert(all[i as int] == (entries@[i as int].0@, entries@[i as int].1@));
        out.push((entries[i].0.clone(), entries[i].1.copy()));
        i += 1;
    }
    let name: String = entries[k].0.clone();
    out.set(k, (name, value));
    assert(entries_view(out@) =~= all.update(k as int, (all[k as int].0, content)));
    Value::Object(out)
}

fn cite_item(value: &Value, model: &str, data: &str) -> (r: Value)
    ensures
        r@ == cited_item(value@, model@, data@),
{
    match value {
        Value::Str(s) => if text::same(s.as_str(), "model") {
            Value::Str(model.to_owned())
        } else if text::same(s.as_str(), "data") {
            Value::Str(data.to_owned())
        } else {
            value.copy()
        },
        _ => value.copy(),
    }
}

fn cite_items(items: &Vec<Value>, model: &str, data: &str) -> (r: Vec<Value>)
    ensures
        items_view(r@) == items_view(items@).map_values(
            |item: Json| cited_item(item, model@, data@),
        ),
{
    broadcast use group_json_views;

    let mut out: Vec<Value> = Vec::new();
    let mut i: usize = 0;
    while i < items.len()
        invariant
            i <= items.len(),
            out.len() == i,
            forall|k: int|
                0 <= k < i ==> (#[trigger] out@[k])@ == cited_item(items@[k]@, model@, data@),
        decreases items.len() - i,
    {
        out.push(cite_item(&items[i], model, data));
        i += 1;
    }
    assert(items_view(out@) =~= items_view(items@).map_values(
        |item: Json| cited_item(item, model@, data@),
    ));
    out
}

fn cite_decision(value: &Value, model: &str, data: &str) -> (r: Value)
    ensures
        r@ == cited_decision(value@, model@, data@),
{
    broadcast use group_json_views;

    match value {
        Value::Object(entries) => match find_index(entries, "cites") {
            Some(k) => match &entries[k].1 {
                Value::Array(items) => replace_at(
                    entries,
                    k,
                    Value::Array(cite_items(items, model, data)),
                ),
                _ => value.copy(),
            },
            None => value.copy(),
        },
        _ => value.copy(),
    }
}

fn cite_decisions(items: &Vec<Value>, model: &str, data: &str) -> (r: Vec<Value>)
    ensures
        items_view(r@) == items_view(items@).map_values(
            |item: Json| cited_decision(item, model@, data@),
        ),
{
    broadcast use group_json_views;

    let mut out: Vec<Value> = Vec::new();
    let mut i: usize = 0;
    while i < items.len()
        invariant
            i <= items.len(),
            out.len() == i,
            forall|k: int|
                0 <= k < i ==> (#[trigger] out@[k])@ == cited_decision(
                    items@[k]@,
                    model@,
                    data@,
                ),
        decreases items.len() - i,
    {
        out.push(cite_decision(&items[i], model, data));
        i += 1;
    }
    assert(items_view(out@) =~= items_view(items@).map_values(
        |item: Json| cited_decision(item, model@, data@),
    ));
    out
}

/// Puts the digests of the model and the data where decisions cite them by name.
pub fn resolve_citations(value: &Value, model: &Digest, data: &Digest) -> (r: Value)
    ensures
        r@ == cited_workspace(value@, model@, data@),
{
    broadcast use group_json_views;

    match value {
        Value::Object(entries) => match find_index(entries, "decisions") {
            Some(k) => match &entries[k].1 {
                Value::Array(items) => replace_at(
                    entries,
                    k,
                    Value::Array(cite_decisions(items, model.as_str(), data.as_str())),
                ),
                _ => value.copy(),
            },
            None => value.copy(),
        },
        _ => value.copy(),
    }
}

/// What is wrong with the citations of a decision, from one on.
pub open spec fn citations_fault(items: Seq<Json>, context: Seq<char>, i: int) -> Option<Fault>
    decreases items.len() - i,
{
    if i < 0 || i >= items.len() {
        None
    } else {
        match items[i] {
            Json::Str(s) => if s == "model"@ || s == "data"@ || parsed_digest(
                s,
                "metadata decision citation"@,
            ) is Ok {
                citations_fault(items, context, i + 1)
            } else {
                Some(parsed_digest(s, "metadata decision citation"@)->Err_0)
            },
            _ => Some(
                settings_fault(
                    context + ".cites entries must be model, data, or a digest string"@,
                ),
            ),
        }
    }
}

/// What is wrong with the citations of a decision in metadata.
pub open spec fn citing_fault(v: Json, context: Seq<char>) -> Option<Fault> {
    match v {
        Json::Object(entries) => match index_from(entries, "cites"@, 0) {
            None => Some(settings_fault(context + " needs cites"@)),
            Some(k) => match entries[k].1 {
                Json::Array(items) => citations_fault(items, context, 0),
                _ => Some(settings_fault(context + ".cites must be an array"@)),
            },
        },
        _ => Some(settings_fault(context + " must be an object"@)),
    }
}

fn check_citations(items: &Vec<Value>, context: &str) -> (r: Result<(), Error>)
    ensures
        checked(r) == citations_fault(items_view(items@), context@, 0),
{
    broadcast use group_json_views;

    let ghost all = items_view(items@);
    let mut i: usize = 0;
    while i < items.len()
        invariant
            i <= items.len(),
            all == items_view(items@),
            citations_fault(all, context@, 0) == citations_fault(all, context@, i as int),
        decreases items.len() - i,
    {
        broadcast use group_json_views;

        assert(all[i as int] == items@[i as int]@);
        match &items[i] {
            Value::Str(s) => {
                if !text::same(s.as_str(), "model") && !text::same(s.as_str(), "data") {
                    match Digest::parse(s.as_str(), "metadata decision citation") {
                        Ok(_) => {},
                        Err(error) => {
                            return Err(error);
                        },
                    }
                }
            },
            _ => {
                return Err(
                    invalid_settings(
                        text::cat2(
                            context,
                            ".cites entries must be model, data, or a digest string",
                        ),
                    ),
                );
            },
        }
        i += 1;
    }
    Ok(())
}

fn check_citing(value: &Value, context: &str) -> (r: Result<(), Error>)
    ensures
        checked(r) == citing_fault(value@, context@),
{
    broadcast use group_json_views;

    match value {
        Value::Object(entries) => match find_index(entries, "cites") {
            None => Err(invalid_settings(text::cat2(context, " needs cites"))),
            Some(k) => match &entries[k].1 {
                Value::Array(items) => check_citations(items, context),
                _ => Err(invalid_settings(text::cat2(context, ".cites must be an array"))),
            },
        },
        _ => Err(invalid_settings(text::cat2(context, " must be an object"))),
    }
}

/// What reading a decision of metadata gives.
pub open spec fn metadata_decision(v: Json, context: Seq<char>, model: Seq<char>, data: Seq<char>) -> Result<
    DecisionModel,
    Fault,
> {
    match citing_fault(v, context) {
        Some(fault) => Err(fault),
        None => parsed_decision(cited_decision(v, model, data), context),
    }
}

fn parse_metadata_decision(value: &Value, context: &str, model: &str, data: &str) -> (r: Result<
    Decision,
    Error,
>)
    ensures
        outcome(r) == metadata_decision(value@, context@, model@, data@),
{
    check_citing(value, context)?;
    let cited: Value = cite_decision(value, model, data);
    Decision::parse(&cited, context)
}

/// What a workspace begins with.
#[derive(Debug)]
pub struct Metadata {
    pub question: String,
    pub estimand_description: String,
    pub estimand_parameter: String,
    pub decisions: Vec<Decision>,
    pub recipes: Vec<ConfiguredRecipe>,
    pub interpretation: String,
    pub unresolved_questions: Vec<String>,
}

/// The mathematical content of [`Metadata`].
#[verifier::ext_equal]
pub struct MetadataModel {
    pub question: Seq<char>,
    pub estimand_description: Seq<char>,
    pub estimand_parameter: Seq<char>,
    pub decisions: Seq<DecisionModel>,
    pub recipes: Seq<ConfiguredModel>,
    pub interpretation: Seq<char>,
    pub unresolved_questions: Seq<Seq<char>>,
}

impl View for Metadata {
    type V = MetadataModel;

    open spec fn view(&self) -> MetadataModel {
        MetadataModel {
            question: self.question@,
            estimand_description: self.estimand_description@,
            estimand_parameter: self.estimand_parameter@,
            decisions: views(self.decisions@),
            recipes: views(self.recipes@),
            interpretation: self.interpretation@,
            unresolved_questions: views(self.unresolved_questions@),
        }
    }
}

pub open spec fn metadata_fields() -> Seq<Seq<char>> {
    seq![
        "investigation_metadata"@,
        "question"@,
        "estimand"@,
        "decisions"@,
        "recipes"@,
        "interpretation"@,
        "unresolved_questions"@,
    ]
}

pub open spec fn metadata_decision_parser(model: Seq<char>, data: Seq<char>) -> spec_fn(
    Json,
    Seq<char>,
) -> Result<DecisionModel, Fault> {
    |v: Json, c: Seq<char>| metadata_decision(v, c, model, data)
}

/// The lists of metadata.
#[verifier::ext_equal]
pub struct MetadataLists {
    pub decisions: Seq<DecisionModel>,
    pub recipes: Seq<ConfiguredModel>,
    pub unresolved_questions: Seq<Seq<char>>,
}

/// What reading the lists of metadata gives.
pub open spec fn metadata_lists(v: Json, model: Seq<char>, data: Seq<char>) -> Result<
    MetadataLists,
    Fault,
> {
    let context = "investigation metadata"@;
    match list_read(
        v,
        "decisions"@,
        context,
        "metadata decisions"@,
        metadata_decision_parser(model, data),
    ) {
        Err(fault) => Err(fault),
        Ok(decisions) => match list_read(
            v,
            "recipes"@,
            context,
            "metadata recipes"@,
            configured_parser(),
        ) {
            Err(fault) => Err(fault),
            Ok(recipes) => match list_read(
                v,
                "unresolved_questions"@,
                context,
                "metadata unresolved_questions"@,
                question_parser(),
            ) {
                Err(fault) => Err(fault),
                Ok(unresolved_questions) => Ok(
                    MetadataLists { decisions, recipes, unresolved_questions },
                ),
            },
        },
    }
}

/// What reading metadata gives.
pub open spec fn parsed_metadata(v: Json, model: Seq<char>, data: Seq<char>) -> Result<
    MetadataModel,
    Fault,
> {
    let context = "investigation metadata"@;
    match outline_fault(
        v,
        context,
        metadata_fields(),
        "investigation_metadata"@,
        "metadata estimand"@,
    ) {
        Some(fault) => Err(fault),
        None => match metadata_lists(v, model, data) {
            Err(fault) => Err(fault),
            Ok(lists) => match parsed_asked(v, context, "metadata estimand"@) {
                Err(fault) => Err(fault),
                Ok(asked) => match short_field(
                    v,
                    "interpretation"@,
                    context,
                    "interpretation"@,
                ) {
                    Err(fault) => Err(fault),
                    Ok(interpretation) => Ok(
                        MetadataModel {
                            question: asked.question,
                            estimand_description: asked.estimand_description,
                            estimand_parameter: asked.estimand_parameter,
                            decisions: lists.decisions,
                            recipes: lists.recipes,
                            interpretation,
                            unresolved_questions: lists.unresolved_questions,
                        },
                    ),
                },
            },
        },
    }
}

impl Metadata {
    /// Reads metadata; decisions may cite the model and the data by name.
    pub fn parse(value: &Value, model: &Digest, data: &Digest) -> (r: Result<Metadata, Error>)
        ensures
            outcome(r) == parsed_metadata(value@, model@, data@),
    {
        let context: &str = "investigation metadata";
        let names: [&str; 7] = [
            "investigation_metadata",
            "question",
            "estimand",
            "decisions",
            "recipes",
            "interpretation",
            "unresolved_questions",
        ];
        assert(names_view(names@) =~= metadata_fields());
        assert(metadata_fields()[2] == "estimand"@);
        check_outline(
            value,
            context,
            names.as_slice(),
            "investigation_metadata",
            "metadata estimand",
        )?;
        proof {
            let all = metadata_fields();
            lemma_required_field(value@, context@, all, all, all[2]);
        }
        let reading = |v: &Value, c: &str| -> (out: Result<Decision, Error>)
            ensures
                outcome(out) == metadata_decision(v@, c@, model@, data@),
            { parse_metadata_decision(v, c, model.as_str(), data.as_str()) };
        let decisions: Vec<Decision> = read_list(
            value,
            "decisions",
            context,
            "metadata decisions",
            reading,
            Ghost(metadata_decision_parser(model@, data@)),
        )?;
        let recipes: Vec<ConfiguredRecipe> = read_list(
            value,
            "recipes",
            context,
            "metadata recipes",
            ConfiguredRecipe::parse,
            Ghost(configured_parser()),
        )?;
        let unresolved_questions: Vec<String> = read_list(
            value,
            "unresolved_questions",
            context,
            "metadata unresolved_questions",
            parse_question,
            Ghost(question_parser()),
        )?;
        let asked: Asked = read_asked(value, context, "metadata estimand")?;
        let interpretation: String = required_short(
            value,
            "interpretation",
            context,
            "interpretation",
        )?;
        Ok(
            Metadata {
                question: asked.question,
                estimand_description: asked.estimand_description,
                estimand_parameter: asked.estimand_parameter,
                decisions,
                recipes,
                interpretation,
                unresolved_questions,
            },
        )
    }
}

} // verus!
