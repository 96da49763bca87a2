//! What a recipe asks to be done, over the bytes of its inputs.

use vstd::prelude::*;

use crate::data::{data_from_json, DataValue};
#[allow(unused_imports)]
use crate::data::{data_views, read_data, DataModel};
use crate::error::{invalid_settings, Error};
#[allow(unused_imports)]
use crate::error::{outcome, settings_fault, Fault};
use crate::fingerprint::model_data_fingerprint;
#[allow(unused_imports)]
use crate::fingerprint::{fingerprint_message, rendered_digest, sha256};
#[allow(unused_imports)]
use crate::investigation::host::decodes;
#[allow(unused_imports)]
use crate::investigation::manifest::reads;
use crate::investigation::recipe::{Operation, Recipe};
#[allow(unused_imports)]
use crate::investigation::recipe::RecipeModel;
use crate::ir::ModelMeta;
#[allow(unused_imports)]
use crate::ir::MetaModel;
use crate::json::Value;
#[allow(unused_imports)]
use crate::json::Json;
use crate::text;

use super::transfer::{check_seed, sample_plan, SamplePlan};
#[allow(unused_imports)]
use super::transfer::{planned, resolved_int, PlanModel};

verus! {

/// The inputs of a recipe, with the fingerprint of their texts.
pub struct Prepared {
    pub meta: ModelMeta,
    pub data: Vec<(String, DataValue)>,
    pub fingerprint: String,
}

/// The mathematical content of [`Prepared`] inputs.
#[verifier::ext_equal]
pub struct PreparedModel {
    pub meta: MetaModel,
    pub data: Seq<(Seq<char>, DataModel)>,
    pub fingerprint: Seq<char>,
}

impl View for Prepared {
    type V = PreparedModel;

    open spec fn view(&self) -> PreparedModel {
        PreparedModel {
            meta: self.meta@,
            data: data_views(self.data@),
            fingerprint: self.fingerprint@,
        }
    }
}

/// What reading the data comes to, once the model was decoded and the data were read as JSON.
pub open spec fn data_prepared(
    model: Seq<char>,
    data: Seq<char>,
    meta: MetaModel,
    document: Result<Json, Fault>,
) -> Result<PreparedModel, Fault> {
    match document {
        Err(fault) => Err(fault),
        Ok(v) => match read_data(v) {
            Err(fault) => Err(fault),
            Ok(values) => Ok(
                PreparedModel {
                    meta,
                    data: values,
                    fingerprint: rendered_digest(sha256(fingerprint_message(model, data))),
                },
            ),
        },
    }
}

/// Whether preparing can come to that once the model was decoded.
pub open spec fn meta_prepared(
    reading: spec_fn(Seq<char>, Result<Json, Fault>) -> bool,
    model: Seq<char>,
    data: Seq<char>,
    meta: Result<MetaModel, Fault>,
    out: Result<PreparedModel, Fault>,
) -> bool {
    match meta {
        Err(fault) => out == Err::<PreparedModel, Fault>(fault),
        Ok(found) => exists|document: Result<Json, Fault>| #[trigger]
            reading(data, document) && out == data_prepared(model, data, found, document),
    }
}

/// Whether preparing can come to that once the model was read as JSON.
pub open spec fn model_prepared(
    reading: spec_fn(Seq<char>, Result<Json, Fault>) -> bool,
    decoding: spec_fn(Json, Result<MetaModel, Fault>) -> bool,
    model: Seq<char>,
    data: Seq<char>,
    document: Result<Json, Fault>,
    out: Result<PreparedModel, Fault>,
) -> bool {
    match document {
        Err(fault) => out == Err::<PreparedModel, Fault>(fault),
        Ok(v) => exists|meta: Result<MetaModel, Fault>| #[trigger]
            decoding(v, meta) && meta_prepared(reading, model, data, meta, out),
    }
}

/// Whether the bytes of a model and of data can come to those inputs.
pub open spec fn prepared(
    reading: spec_fn(Seq<char>, Result<Json, Fault>) -> bool,
    decoding: spec_fn(Json, Result<MetaModel, Fault>) -> bool,
    model: Seq<u8>,
    data: Seq<u8>,
    out: Result<PreparedModel, Fault>,
) -> bool {
    if !vstd::utf8::valid_utf8(model) {
        out == Err::<PreparedModel, Fault>(settings_fault("recipe model must be UTF-8 JSON"@))
    } else if !vstd::utf8::valid_utf8(data) {
        out == Err::<PreparedModel, Fault>(settings_fault("recipe data must be UTF-8 JSON"@))
    } else {
        exists|document: Result<Json, Fault>| #[trigger]
            reading(vstd::utf8::decode_utf8(model), document) && model_prepared(
                reading,
                decoding,
                vstd::utf8::decode_utf8(model),
                vstd::utf8::decode_utf8(data),
                document,
                out,
            )
    }
}

/// Reads the inputs of a recipe: the model first, then the data.
pub fn prepare<R: Fn(&str) -> Result<Value, Error>, D: Fn(&Value) -> Result<ModelMeta, Error>>(
    model: &[u8],
    data: &[u8],
    read_json: &R,
    decode_model: &D,
) -> (r: Result<Prepared, Error>)
    requires
        forall|s: &str| #[trigger] call_requires(*read_json, (s,)),
        forall|v: &Value| #[trigger] call_requires(*decode_model, (v,)),
    ensures
        prepared(
            |s: Seq<char>, v: Result<Json, Fault>| reads(*read_json, s, v),
            |v: Json, m: Result<MetaModel, Fault>| decodes(*decode_model, v, m),
            model@,
            data@,
            outcome(r),
        ),
{
    let ghost reading = |s: Seq<char>, v: Result<Json, Fault>| reads(*read_json, s, v);
    let ghost decoding = |v: Json, m: Result<MetaModel, Fault>| decodes(*decode_model, v, m);
    let model_text: &str = match text::utf8_text(model) {
        Some(found) => found,
        None => return Err(invalid_settings("recipe model must be UTF-8 JSON".to_owned())),
    };
    let data_text: &str = match text::utf8_text(data) {
        Some(found) => found,
        None => return Err(invalid_settings("recipe data must be UTF-8 JSON".to_owned())),
    };
    let document: Result<Value, Error> = read_json(model_text);
    assert(reads(*read_json, model_text@, outcome(document)));
    assert(reading(model_text@, outcome(document)));
    let document: Value = match document {
        Err(error) => return Err(error),
        Ok(found) => found,
    };
    let meta: Result<ModelMeta, Error> = decode_model(&document);
    assert(decodes(*decode_model, document@, outcome(meta)));
    assert(decoding(document@, outcome(meta)));
    let meta: ModelMeta = match meta {
        Err(error) => return Err(error),
        Ok(found) => found,
    };
    let content: Result<Value, Error> = read_json(data_text);
    assert(reads(*read_json, data_text@, outcome(content)));
    assert(reading(data_text@, outcome(content)));
    let ghost came = outcome(content);
    let values: Result<Vec<(String, DataValue)>, Error> = match content {
        Err(error) => Err(error),
        Ok(found) => data_from_json(&found),
    };
    let values: Vec<(String, DataValue)> = match values {
        Err(error) => {
            assert(data_prepared(model_text@, data_text@, meta@, came) == Err::<
                PreparedModel,
                Fault,
            >(error@));
            return Err(error);
        },
        Ok(found) => found,
    };
    let fingerprint: String = model_data_fingerprint(model_text, data_text);
    let out: Prepared = Prepared { meta, data: values, fingerprint };
    assert(data_prepared(model_text@, data_text@, out.meta@, came) == Ok::<PreparedModel, Fault>(
        out@,
    ));
    Ok(out)
}

/// What is to be done with the inputs of a recipe.
pub enum Task<'a> {
    Inspect,
    Sample(SamplePlan),
    Diagnose(&'a str),
    PosteriorCheck(&'a str, u64),
}

/// The mathematical content of a [`Task`].
pub enum TaskModel {
    Inspect,
    Sample(PlanModel),
    Diagnose(Seq<char>),
    PosteriorCheck(Seq<char>, u64),
}

impl<'a> View for Task<'a> {
    type V = TaskModel;

    open spec fn view(&self) -> TaskModel {
        match self {
            Task::Inspect => TaskModel::Inspect,
            Task::Sample(plan) => TaskModel::Sample(plan@),
            Task::Diagnose(fit) => TaskModel::Diagnose(fit@),
            Task::PosteriorCheck(fit, seed) => TaskModel::PosteriorCheck(fit@, *seed),
        }
    }
}

/// The text of a fit that an operation needs.
pub open spec fn fit_read(operation: Seq<char>, fit: Option<Seq<u8>>) -> Result<Seq<char>, Fault> {
    match fit {
        None => Err(settings_fault(operation + " recipe needs fit bytes"@)),
        Some(bytes) => if vstd::utf8::valid_utf8(bytes) {
            Ok(vstd::utf8::decode_utf8(bytes))
        } else {
            Err(settings_fault("fit must be UTF-8 NDJSON"@))
        },
    }
}

/// What a recipe asks for.
pub open spec fn tasked(m: RecipeModel, fit: Option<Seq<u8>>) -> Result<TaskModel, Fault> {
    match m.operation {
        Operation::Inspect => Ok(TaskModel::Inspect),
        Operation::Sample => match planned(m.settings) {
            Err(fault) => Err(fault),
            Ok(plan) => Ok(TaskModel::Sample(plan)),
        },
        Operation::Diagnose => match fit_read("diagnose"@, fit) {
            Err(fault) => Err(fault),
            Ok(found) => Ok(TaskModel::Diagnose(found)),
        },
        Operation::PosteriorCheck => match fit_read("posterior-check"@, fit) {
            Err(fault) => Err(fault),
            Ok(found) => match resolved_int(m.settings, "seed"@) {
                Err(fault) => Err(fault),
                Ok(seed) => Ok(TaskModel::PosteriorCheck(found, seed as u64)),
            },
        },
    }
}

/// The view of bytes that may be missing.
pub open spec fn optional_bytes(fit: Option<&[u8]>) -> Option<Seq<u8>> {
    match fit {
        Some(bytes) => Some(bytes@),
        None => None,
    }
}

fn read_fit<'a>(operation: &str, fit: Option<&'a [u8]>) -> (r: Result<&'a str, Error>)
    ensures
        match r {
            Ok(found) => fit_read(operation@, optional_bytes(fit)) == Ok::<Seq<char>, Fault>(found@),
            Err(error) => fit_read(operation@, optional_bytes(fit)) == Err::<Seq<char>, Fault>(
                error@,
            ),
        },
{
    match fit {
        None => Err(invalid_settings(text::cat2(operation, " recipe needs fit bytes"))),
        Some(bytes) => match text::utf8_text(bytes) {
            Some(found) => Ok(found),
            None => Err(invalid_settings("fit must be UTF-8 NDJSON".to_owned())),
        },
    }
}

/// Reads what a recipe asks for; `fit` holds the bytes of its fit, where it names one.
pub fn recipe_task<'a>(recipe: &Recipe, fit: Option<&'a [u8]>) -> (r: Result<Task<'a>, Error>)
    ensures
        outcome(r) == tasked(recipe@, optional_bytes(fit)),
{
    match recipe.operation {
        Operation::Inspect => Ok(Task::Inspect),
        Operation::Sample => match sample_plan(&recipe.settings) {
            Err(error) => Err(error),
            Ok(plan) => Ok(Task::Sample(plan)),
        },
        Operation::Diagnose => match read_fit("diagnose", fit) {
            Err(error) => Err(error),
            Ok(found) => Ok(Task::Diagnose(found)),
        },
        Operation::PosteriorCheck => match read_fit("posterior-check", fit) {
            Err(error) => Err(error),
            Ok(found) => match check_seed(&recipe.settings) {
                Err(error) => Err(error),
                Ok(seed) => Ok(Task::PosteriorCheck(found, seed as u64)),
            },
        },
    }
}

} // verus!
