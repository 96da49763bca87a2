//! Bounded generation of datasets, as an artifact of paired documents.

use vstd::prelude::*;

use crate::artifact::V0_PROVISIONAL;
use crate::data::{data_from_json, data_to_json, DataValue, DATA_DOCUMENT_FORMAT};
#[allow(unused_imports)]
use crate::data::{data_fields, data_views, law_read_data_is_filled, read_data, DataModel};
use crate::error::{invalid_settings, malformed, Error};
#[allow(unused_imports)]
use crate::error::{malformed_fault, outcome, settings_fault, Fault};
use crate::fingerprint::sha256_bytes;
#[allow(unused_imports)]
use crate::fingerprint::{rendered_digest, sha256};
#[allow(unused_imports)]
use crate::investigation::fields::names_view;
#[allow(unused_imports)]
use crate::investigation::host::diagnoses;
use crate::investigation::identity::Digest;
#[allow(unused_imports)]
use crate::investigation::identity::valid_digest;
#[allow(unused_imports)]
use crate::investigation::manifest::reads;
use crate::ir::ModelMeta;
#[allow(unused_imports)]
use crate::ir::{list_views, optional_name, MetaModel};
use crate::json::Value;
#[allow(unused_imports)]
use crate::json::{array_of, entries_view, field, group_json_views, items_view, string_of, Json};
#[allow(unused_imports)]
use crate::model::{all_filled, checked};
use crate::numerics::{Arithmetic, Randomness};
use crate::predictive::generate::{GenerationLineage, GenerationPair};
#[allow(unused_imports)]
use crate::predictive::generate::PairModel;
use crate::predictive::pairs::{
    fixed_generation_pairs, model_prior_generation_pairs, posterior_generation_pairs, PosteriorGenerationSource,
};
#[allow(unused_imports)]
use crate::predictive::pairs::{
    fixed_pairs, pairs_outcome, posterior_pairs, prior_pairs, PosteriorModel,
};
use crate::render::{render, same_value, texts_value, Fields};
#[allow(unused_imports)]
use crate::render::{lines_outcome, rendered, texts_json};
use crate::text;
#[allow(unused_imports)]
use crate::text::{bytes_of, decimal_text, text_views};

verus! {

pub const MAX_COUNT: usize = 1000;

pub const MAX_SAFE_INTEGER: u64 = 9_007_199_254_740_991;

pub const MAX_LINE_BYTES: usize = 8_388_608;

pub const MAX_ARTIFACT_BYTES: usize = 67_108_864;

/// Hashes that an author claims for models.
#[derive(Debug)]
pub struct AuthoredProvenance {
    pub claimed_source_model_hash: String,
    pub claimed_outcome_model_hash: String,
}

/// Where generated parameters come from.
#[derive(Debug)]
pub enum GenerationSource {
    Fixed { parameters: Value, parameters_hash: String },
    ModelPrior { model_hash: String, authored_provenance: Option<AuthoredProvenance> },
    Posterior {
        fit_ndjson: String,
        fit_data: Value,
        fit_hash: String,
        fit_model_hash: String,
        fit_data_hash: String,
        expected_model_data_fingerprint: Option<String>,
    },
}

/// The mathematical content of a [`GenerationSource`].
#[verifier::ext_equal]
pub enum SourceModel {
    Fixed { parameters: Json, parameters_hash: Seq<char> },
    ModelPrior { model_hash: Seq<char>, provenance: Option<(Seq<char>, Seq<char>)> },
    Posterior {
        fit: Seq<char>,
        fit_data: Json,
        fit_hash: Seq<char>,
        fit_model_hash: Seq<char>,
        fit_data_hash: Seq<char>,
        fingerprint: Option<Seq<char>>,
    },
}

impl View for GenerationSource {
    type V = SourceModel;

    open spec fn view(&self) -> SourceModel {
        match *self {
            GenerationSource::Fixed { parameters, parameters_hash } => SourceModel::Fixed {
                parameters: parameters@,
                parameters_hash: parameters_hash@,
            },
            GenerationSource::ModelPrior { model_hash, authored_provenance } => {
                SourceModel::ModelPrior {
                    model_hash: model_hash@,
                    provenance: match authored_provenance {
                        Some(claimed) => Some(
                            (
                                claimed.claimed_source_model_hash@,
                                claimed.claimed_outcome_model_hash@,
                            ),
                        ),
                        None => None,
                    },
                }
            },
            GenerationSource::Posterior {
                fit_ndjson,
                fit_data,
                fit_hash,
                fit_model_hash,
                fit_data_hash,
                expected_model_data_fingerprint,
            } => SourceModel::Posterior {
                fit: fit_ndjson@,
                fit_data: fit_data@,
                fit_hash: fit_hash@,
                fit_model_hash: fit_model_hash@,
                fit_data_hash: fit_data_hash@,
                fingerprint: optional_name(expected_model_data_fingerprint),
            },
        }
    }
}

/// A request for generated datasets.
#[derive(Debug)]
pub struct GenerationRequest {
    pub meta: ModelMeta,
    /// The model spelled out, as its identity counts it.
    pub model_text: String,
    pub design: Value,
    pub source: GenerationSource,
    pub count: usize,
    pub seed: u64,
    pub generation_model_hash: String,
    pub design_hash: String,
}

/// The mathematical content of a [`GenerationRequest`].
#[verifier::ext_equal]
pub struct RequestModel {
    pub meta: MetaModel,
    pub model_text: Seq<char>,
    pub design: Json,
    pub source: SourceModel,
    pub count: usize,
    pub seed: u64,
    pub generation_model_hash: Seq<char>,
    pub design_hash: Seq<char>,
}

impl View for GenerationRequest {
    type V = RequestModel;

    open spec fn view(&self) -> RequestModel {
        RequestModel {
            meta: self.meta@,
            model_text: self.model_text@,
            design: self.design@,
            source: self.source@,
            count: self.count,
            seed: self.seed,
            generation_model_hash: self.generation_model_hash@,
            design_hash: self.design_hash@,
        }
    }
}

/// A hash with its scheme: `sha256:` and 64 lowercase hexadecimal digits.
pub open spec fn valid_hash(s: Seq<char>) -> bool {
    "sha256:"@.is_prefix_of(s) && valid_digest(s.skip(7))
}

/// What is wrong with a hash.
pub open spec fn hash_fault(value: Seq<char>, label: Seq<char>) -> Option<Fault> {
    if valid_hash(value) {
        None
    } else {
        Some(
            settings_fault(label + " must be sha256: followed by 64 lowercase hex digits"@),
        )
    }
}

fn validate_hash(value: &str, label: &str) -> (r: Result<(), Error>)
    ensures
        checked(r) == hash_fault(value@, label@),
{
    let mut valid: bool = false;
    proof {
        reveal_strlit("sha256:");
    }
    if text::starts_with(value, "sha256:") {
        let n: usize = value.unicode_len();
        let rest: &str = value.substring_char(7, n);
        assert(rest@ =~= value@.skip(7));
        valid = match Digest::parse(rest, label) {
            Ok(_) => true,
            Err(_) => false,
        };
    }
    if valid {
        Ok(())
    } else {
        Err(
            invalid_settings(
                text::cat2(label, " must be sha256: followed by 64 lowercase hex digits"),
            ),
        )
    }
}

/// The first of two faults.
pub open spec fn first_fault(first: Option<Fault>, second: Option<Fault>) -> Option<Fault> {
    if first is Some {
        first
    } else {
        second
    }
}

/// The fields that every line has.
pub open spec fn common_entries() -> Seq<(Seq<char>, Json)> {
    seq![
        ("generated_datasets_format"@, Json::Str(V0_PROVISIONAL@)),
        ("artifact_kind"@, Json::Str("generated_dataset_pairs"@)),
        ("artifact_scope"@, Json::Str("parameter_and_complete_dataset_joint_draws"@)),
    ]
}

fn common_fields() -> (r: Fields)
    ensures
        r@ == common_entries(),
{
    let mut out: Fields = Fields::new();
    out.put_text("generated_datasets_format", V0_PROVISIONAL);
    out.put_text("artifact_kind", "generated_dataset_pairs");
    out.put_text("artifact_scope", "parameter_and_complete_dataset_joint_draws");
    out
}

/// The phases of a generation.
pub open spec fn phases_json() -> Json {
    texts_json(
        seq![
            "parse_json"@,
            "decode_ir"@,
            "bind_design"@,
            "draw_parameters"@,
            "simulate_outcomes"@,
            "emit_artifact"@,
        ],
    )
}

fn workflow_phases_value() -> (r: Value)
    ensures
        r@ == phases_json(),
{
    let phases: Vec<&str> = vec![
        "parse_json",
        "decode_ir",
        "bind_design",
        "draw_parameters",
        "simulate_outcomes",
        "emit_artifact",
    ];
    assert(names_view(phases@) =~= seq![
        "parse_json"@,
        "decode_ir"@,
        "bind_design"@,
        "draw_parameters"@,
        "simulate_outcomes"@,
        "emit_artifact"@,
    ]);
    texts_value(&phases)
}

/// The variables of a canonical data document.
pub open spec fn canonical_variables(v: Json, label: Seq<char>) -> Result<
    Seq<(Seq<char>, Json)>,
    Fault,
> {
    match v {
        Json::Object(entries) => if entries.len() != 2 || entries[0].0 != "format"@ || entries[1].0
            != "variables"@ {
            Err(malformed_fault(label + " must contain exactly format then variables"@))
        } else if string_of(Some(entries[0].1)) != Some(DATA_DOCUMENT_FORMAT@) {
            Err(malformed_fault(label + " format must be \"bayescycle.data.json.v1\""@))
        } else {
            match entries[1].1 {
                Json::Object(variables) => Ok(variables),
                _ => Err(malformed_fault(label + " variables must be an object"@)),
            }
        },
        _ => Err(malformed_fault(label + " must be a canonical data object"@)),
    }
}

/// The view of fields.
pub open spec fn fields_outcome(r: Result<Vec<(String, Value)>, Error>) -> Result<
    Seq<(Seq<char>, Json)>,
    Fault,
> {
    match r {
        Ok(entries) => Ok(entries_view(entries@)),
        Err(error) => Err(error@),
    }
}

fn copy_entries(entries: &Vec<(String, Value)>) -> (r: Vec<(String, Value)>)
    ensures
        entries_view(r@) == entries_view(entries@),
{
    broadcast use group_json_views;

    let mut out: Vec<(String, Value)> = Vec::new();
    let mut i: usize = 0;
    while i < entries.len()
        invariant
            i <= entries.len(),
            out.len() == i,
            forall|k: int|
                0 <= k < i ==> (#[trigger] out@[k]).0@ == entries@[k].0@ && out@[k].1@
                    == entries@[k].1@,
        decreases entries.len() - i,
    {
        out.push((entries[i].0.clone(), entries[i].1.copy()));
        i += 1;
    }
    assert(entries_view(out@) =~= entries_view(entries@));
    out
}

fn read_canonical(document: &Value, label: &str) -> (r: Result<Vec<(String, Value)>, Error>)
    ensures
        fields_outcome(r) == canonical_variables(document@, label@),
{
    broadcast use group_json_views;

    match document {
        Value::Object(entries) => {
            let ghost all = entries_view(entries@);
            if entries.len() != 2 || !text::same(entries[0].0.as_str(), "format") || !text::same(
                entries[1].0.as_str(),
                "variables",
            ) {
                return Err(
                    malformed(text::cat2(label, " must contain exactly format then variables")),
                );
            }
            assert(all[0] == (entries@[0].0@, entries@[0].1@));
            assert(all[1] == (entries@[1].0@, entries@[1].1@));
            let marked: bool = match entries[0].1.as_str() {
                Some(found) => text::same(found, DATA_DOCUMENT_FORMAT),
                None => false,
            };
            if !marked {
                return Err(
                    malformed(
                        text::cat2(label, " format must be \"bayescycle.data.json.v1\""),
                    ),
                );
            }
            match &entries[1].1 {
                Value::Object(variables) => {
                    let out: Vec<(String, Value)> = copy_entries(variables);
                    assert(all[1].1 == Json::Object(entries_view(variables@)));
                    Ok(out)
                },
                _ => Err(malformed(text::cat2(label, " variables must be an object"))),
            }
        },
        _ => Err(malformed(text::cat2(label, " must be a canonical data object"))),
    }
}

/// The variables of a data document, canonical or not.
pub open spec fn normalized_variables(v: Json, label: Seq<char>) -> Result<
    Seq<(Seq<char>, Json)>,
    Fault,
> {
    if field(v, "format"@) is Some {
        canonical_variables(v, label)
    } else {
        match read_data(v) {
            Err(fault) => Err(fault),
            Ok(data) => data_fields(data, label),
        }
    }
}

fn rendered_variables(values: &Vec<(String, DataValue)>, context: &str) -> (r: Result<
    Vec<(String, Value)>,
    Error,
>)
    ensures
        fields_outcome(r) == data_fields(data_views(values@), context@),
{
    match data_to_json(values.as_slice(), context) {
        Err(error) => Err(error),
        Ok(value) => match value {
            Value::Object(entries) => Ok(entries),
            _ => Ok(Vec::new()),
        },
    }
}

fn normalize(document: &Value, label: &str) -> (r: Result<Vec<(String, Value)>, Error>)
    ensures
        fields_outcome(r) == normalized_variables(document@, label@),
{
    if document.get("format").is_some() {
        read_canonical(document, label)
    } else {
        let data: Vec<(String, DataValue)> = data_from_json(document)?;
        rendered_variables(&data, label)
    }
}

/// A canonical data document.
pub open spec fn canonical_document(variables: Seq<(Seq<char>, Json)>) -> Json {
    Json::Object(canonical_entries(variables))
}

/// The fields of a canonical data document.
pub open spec fn canonical_entries(variables: Seq<(Seq<char>, Json)>) -> Seq<(Seq<char>, Json)> {
    seq![
        ("format"@, Json::Str(DATA_DOCUMENT_FORMAT@)),
        ("variables"@, Json::Object(variables)),
    ]
}

fn canonical_value(variables: Vec<(String, Value)>) -> (r: Value)
    ensures
        r@ == canonical_document(entries_view(variables@)),
{
    let mut out: Fields = Fields::new();
    out.put_text("format", DATA_DOCUMENT_FORMAT);
    let ghost listed = entries_view(variables@);
    out.put("variables", Value::Object(variables));
    assert(out@ == canonical_entries(listed));
    out.done()
}

/// The variables of the two documents of a pair.
pub open spec fn pair_variables(pair: PairModel, design: Seq<(Seq<char>, Json)>) -> Result<
    (Seq<(Seq<char>, Json)>, Seq<(Seq<char>, Json)>),
    Fault,
> {
    match data_fields(pair.parameters, "generated parameters"@) {
        Err(fault) => Err(fault),
        Ok(parameters) => match data_fields(pair.outcomes, "generated dataset"@) {
            Err(fault) => Err(fault),
            Ok(outcomes) => Ok((parameters, design + outcomes)),
        },
    }
}

/// The documents of all pairs, in variables.
pub open spec fn all_variables(pairs: Seq<PairModel>, design: Seq<(Seq<char>, Json)>) -> Result<
    Seq<(Seq<(Seq<char>, Json)>, Seq<(Seq<char>, Json)>)>,
    Fault,
>
    decreases pairs.len(),
{
    if pairs.len() == 0 {
        Ok(Seq::empty())
    } else {
        match all_variables(pairs.drop_last(), design) {
            Err(fault) => Err(fault),
            Ok(before) => match pair_variables(pairs.last(), design) {
                Err(fault) => Err(fault),
                Ok(found) => Ok(before.push(found)),
            },
        }
    }
}

/// The documents of a pair, in variables.
struct PairVariables {
    parameters: Vec<(String, Value)>,
    dataset: Vec<(String, Value)>,
}

/// The view of the documents of a pair.
spec fn variables_view(v: PairVariables) -> (Seq<(Seq<char>, Json)>, Seq<(Seq<char>, Json)>) {
    (entries_view(v.parameters@), entries_view(v.dataset@))
}

/// The views of the documents of pairs.
spec fn variables_views(s: Seq<PairVariables>) -> Seq<
    (Seq<(Seq<char>, Json)>, Seq<(Seq<char>, Json)>),
> {
    s.map_values(|v: PairVariables| variables_view(v))
}

fn pair_documents(pair: &GenerationPair, design: &Vec<(String, Value)>) -> (r: Result<
    PairVariables,
    Error,
>)
    ensures
        match r {
            Ok(found) => pair_variables(pair@, entries_view(design@)) == Ok::<
                (Seq<(Seq<char>, Json)>, Seq<(Seq<char>, Json)>),
                Fault,
            >(variables_view(found)),
            Err(error) => pair_variables(pair@, entries_view(design@)) == Err::<
                (Seq<(Seq<char>, Json)>, Seq<(Seq<char>, Json)>),
                Fault,
            >(error@),
        },
{
    let parameters: Vec<(String, Value)> = rendered_variables(
        &pair.parameters,
        "generated parameters",
    )?;
    let outcomes: Vec<(String, Value)> = rendered_variables(&pair.outcomes, "generated dataset")?;
    let mut dataset: Fields = Fields { entries: copy_entries(design) };
    dataset.put_all(outcomes);
    Ok(PairVariables { parameters, dataset: dataset.entries })
}

proof fn lemma_variables_fail(pairs: Seq<PairModel>, design: Seq<(Seq<char>, Json)>, n: int)
    requires
        0 <= n <= pairs.len(),
        all_variables(pairs.take(n), design) is Err,
    ensures
        all_variables(pairs, design) == all_variables(pairs.take(n), design),
    decreases pairs.len(),
{
    if n < pairs.len() {
        assert(pairs.drop_last().take(n) =~= pairs.take(n));
        lemma_variables_fail(pairs.drop_last(), design, n);
    } else {
        assert(pairs.take(n) =~= pairs);
    }
}

fn document_pairs(pairs: &Vec<GenerationPair>, design: &Vec<(String, Value)>) -> (r: Result<
    Vec<PairVariables>,
    Error,
>)
    ensures
        match r {
            Ok(found) => all_variables(list_views(pairs@), entries_view(design@)) == Ok::<
                Seq<(Seq<(Seq<char>, Json)>, Seq<(Seq<char>, Json)>)>,
                Fault,
            >(variables_views(found@)) && found@.len() == pairs@.len(),
            Err(error) => all_variables(list_views(pairs@), entries_view(design@)) == Err::<
                Seq<(Seq<(Seq<char>, Json)>, Seq<(Seq<char>, Json)>)>,
                Fault,
            >(error@),
        },
{
    let ghost all = list_views(pairs@);
    let ghost fixed = entries_view(design@);
    let mut out: Vec<PairVariables> = Vec::new();
    assert(variables_views(out@) =~= Seq::empty());
    assert(all.take(0) =~= Seq::empty());
    let mut i: usize = 0;
    while i < pairs.len()
        invariant
            i <= pairs.len(),
            out.len() == i,
            all == list_views(pairs@),
            fixed == entries_view(design@),
            all_variables(all.take(i as int), fixed) == Ok::<
                Seq<(Seq<(Seq<char>, Json)>, Seq<(Seq<char>, Json)>)>,
                Fault,
            >(variables_views(out@)),
        decreases pairs.len() - i,
    {
        proof {
            let done = all.take(i + 1);
            assert(done.drop_last() =~= all.take(i as int));
            assert(done.last() == pairs@[i as int]@);
        }
        match pair_documents(&pairs[i], design) {
            Err(error) => {
                proof {
                    lemma_variables_fail(all, fixed, i + 1);
                }
                return Err(error);
            },
            Ok(found) => {
                let ghost before = out@;
                let ghost content = variables_view(found);
                out.push(found);
                assert(variables_views(out@) =~= variables_views(before).push(content));
            },
        }
        i += 1;
    }
    assert(all.take(i as int) =~= all);
    Ok(out)
}

/// The schema of a variable.
pub open spec fn variable_schema(entry: (Seq<char>, Json), label: Seq<char>) -> Result<Json, Fault> {
    match string_of(field(entry.1, "dtype"@)) {
        None => Err(malformed_fault(label + " variable "@ + entry.0 + " needs dtype"@)),
        Some(dtype) => match array_of(field(entry.1, "shape"@)) {
            None => Err(malformed_fault(label + " variable "@ + entry.0 + " needs shape"@)),
            Some(shape) => Ok(Json::Object(schema_entries(entry.0, dtype, shape))),
        },
    }
}

/// The fields of the schema of a variable.
pub open spec fn schema_entries(name: Seq<char>, dtype: Seq<char>, shape: Seq<Json>) -> Seq<
    (Seq<char>, Json),
> {
    seq![
        ("name"@, Json::Str(name)),
        ("dtype"@, Json::Str(dtype)),
        ("shape"@, Json::Array(shape)),
    ]
}

/// The schemas of variables.
pub open spec fn variable_schemas(variables: Seq<(Seq<char>, Json)>, label: Seq<char>) -> Result<
    Seq<Json>,
    Fault,
>
    decreases variables.len(),
{
    if variables.len() == 0 {
        Ok(Seq::empty())
    } else {
        match variable_schemas(variables.drop_last(), label) {
            Err(fault) => Err(fault),
            Ok(before) => match variable_schema(variables.last(), label) {
                Err(fault) => Err(fault),
                Ok(schema) => Ok(before.push(schema)),
            },
        }
    }
}

/// The schema of a document.
pub open spec fn document_schema(variables: Seq<(Seq<char>, Json)>, label: Seq<char>) -> Result<
    Json,
    Fault,
> {
    match variable_schemas(variables, label) {
        Err(fault) => Err(fault),
        Ok(items) => Ok(Json::Array(items)),
    }
}

fn schema_of_variable(name: &str, entry: &Value, label: &str) -> (r: Result<Value, Error>)
    ensures
        outcome(r) == variable_schema((name@, entry@), label@),
{
    let dtype: Option<&str> = match entry.get("dtype") {
        Some(value) => value.as_str(),
        None => None,
    };
    match dtype {
        None => Err(malformed(text::cat4(label, " variable ", name, " needs dtype"))),
        Some(found) => {
            let shape: Option<&Value> = match entry.get("shape") {
                Some(value) => match value.as_array() {
                    Some(_) => Some(value),
                    None => None,
                },
                None => None,
            };
            match shape {
                None => Err(malformed(text::cat4(label, " variable ", name, " needs shape"))),
                Some(dims) => {
                    let mut out: Fields = Fields::new();
                    out.put_text("name", name);
                    out.put_text("dtype", found);
                    out.put("shape", dims.copy());
                    assert(out@ == schema_entries(name@, found@, array_of(Some(dims@))->0));
                    Ok(out.done())
                },
            }
        },
    }
}

proof fn lemma_schemas_fail(variables: Seq<(Seq<char>, Json)>, label: Seq<char>, n: int)
    requires
        0 <= n <= variables.len(),
        variable_schemas(variables.take(n), label) is Err,
    ensures
        variable_schemas(variables, label) == variable_schemas(variables.take(n), label),
    decreases variables.len(),
{
    if n < variables.len() {
        assert(variables.drop_last().take(n) =~= variables.take(n));
        lemma_schemas_fail(variables.drop_last(), label, n);
    } else {
        assert(variables.take(n) =~= variables);
    }
}

fn schema(variables: &Vec<(String, Value)>, label: &str) -> (r: Result<Value, Error>)
    ensures
        outcome(r) == document_schema(entries_view(variables@), label@),
{
    broadcast use group_json_views;

    let ghost all = entries_view(variables@);
    let mut out: Vec<Value> = Vec::new();
    assert(items_view(out@) =~= Seq::empty());
    assert(all.take(0) =~= Seq::empty());
    let mut i: usize = 0;
    while i < variables.len()
        invariant
            i <= variables.len(),
            all == entries_view(variables@),
            variable_schemas(all.take(i as int), label@) == Ok::<Seq<Json>, Fault>(
                items_view(out@),
            ),
        decreases variables.len() - i,
    {
        broadcast use group_json_views;

        proof {
            let done = all.take(i + 1);
            assert(done.drop_last() =~= all.take(i as int));
            assert(done.last() == (variables@[i as int].0@, variables@[i as int].1@));
        }
        match schema_of_variable(variables[i].0.as_str(), &variables[i].1, label) {
            Err(error) => {
                proof {
                    lemma_schemas_fail(all, label@, i + 1);
                }
                return Err(error);
            },
            Ok(value) => {
                let ghost before = out@;
                let ghost content = value@;
                out.push(value);
                assert(items_view(out@) =~= items_view(before).push(content));
            },
        }
        i += 1;
    }
    assert(all.take(i as int) =~= all);
    Ok(Value::Array(out))
}

/// The parameter source as the artifact describes it.
pub open spec fn source_json(source: SourceModel) -> Result<Json, Fault> {
    match source {
        SourceModel::Fixed { parameters, parameters_hash } => match hash_fault(
            parameters_hash,
            "parameters_hash"@,
        ) {
            Some(fault) => Err(fault),
            None => Ok(Json::Object(fixed_entries(parameters_hash))),
        },
        SourceModel::ModelPrior { model_hash, provenance } => match hash_fault(
            model_hash,
            "model_hash"@,
        ) {
            Some(fault) => Err(fault),
            None => match provenance_json(provenance) {
                Err(fault) => Err(fault),
                Ok(claims) => Ok(Json::Object(prior_entries(model_hash, claims))),
            },
        },
        SourceModel::Posterior {
            fit,
            fit_data,
            fit_hash,
            fit_model_hash,
            fit_data_hash,
            fingerprint,
        } => match first_fault(
            hash_fault(fit_hash, "fit_hash"@),
            first_fault(
                hash_fault(fit_model_hash, "fit_model_hash"@),
                hash_fault(fit_data_hash, "fit_data_hash"@),
            ),
        ) {
            Some(fault) => Err(fault),
            None => Ok(Json::Object(posterior_entries(fit_hash, fit_model_hash, fit_data_hash))),
        },
    }
}

/// Claimed hashes as the artifact describes them.
pub open spec fn provenance_json(provenance: Option<(Seq<char>, Seq<char>)>) -> Result<Json, Fault> {
    match provenance {
        None => Ok(Json::Null),
        Some((from, to)) => match first_fault(
            hash_fault(from, "claimed_source_model_hash"@),
            hash_fault(to, "claimed_outcome_model_hash"@),
        ) {
            Some(fault) => Err(fault),
            None => Ok(Json::Object(claimed_entries(from, to))),
        },
    }
}

/// The fields of claimed hashes.
pub open spec fn claimed_entries(from: Seq<char>, to: Seq<char>) -> Seq<(Seq<char>, Json)> {
    seq![
        ("claimed_source_model_hash"@, Json::Str(from)),
        ("claimed_outcome_model_hash"@, Json::Str(to)),
    ]
}

/// The fields of a fixed source.
pub open spec fn fixed_entries(hash: Seq<char>) -> Seq<(Seq<char>, Json)> {
    seq![("kind"@, Json::Str("fixed"@)), ("parameters_hash"@, Json::Str(hash))]
}

/// The fields of a prior source.
pub open spec fn prior_entries(hash: Seq<char>, claims: Json) -> Seq<(Seq<char>, Json)> {
    seq![
        ("kind"@, Json::Str("model-prior"@)),
        ("model_hash"@, Json::Str(hash)),
        ("authored_provenance"@, claims),
    ]
}

/// The fields of a posterior source.
pub open spec fn posterior_entries(fit: Seq<char>, model: Seq<char>, data: Seq<char>) -> Seq<
    (Seq<char>, Json),
> {
    seq![
        ("kind"@, Json::Str("posterior"@)),
        ("fit_hash"@, Json::Str(fit)),
        ("fit_model_hash"@, Json::Str(model)),
        ("fit_data_hash"@, Json::Str(data)),
    ]
}

fn describe_provenance(provenance: &Option<AuthoredProvenance>) -> (r: Result<Value, Error>)
    ensures
        outcome(r) == provenance_json(
            match *provenance {
                Some(claimed) => Some(
                    (claimed.claimed_source_model_hash@, claimed.claimed_outcome_model_hash@),
                ),
                None => None,
            },
        ),
{
    match provenance {
        None => Ok(Value::Null),
        Some(claimed) => {
            validate_hash(
                claimed.claimed_source_model_hash.as_str(),
                "claimed_source_model_hash",
            )?;
            validate_hash(
                claimed.claimed_outcome_model_hash.as_str(),
                "claimed_outcome_model_hash",
            )?;
            let mut out: Fields = Fields::new();
            out.put_text(
                "claimed_source_model_hash",
                claimed.claimed_source_model_hash.as_str(),
            );
            out.put_text(
                "claimed_outcome_model_hash",
                claimed.claimed_outcome_model_hash.as_str(),
            );
            assert(out@ == claimed_entries(
                claimed.claimed_source_model_hash@,
                claimed.claimed_outcome_model_hash@,
            ));
            Ok(out.done())
        },
    }
}

fn source_descriptor(source: &GenerationSource) -> (r: Result<Value, Error>)
    ensures
        outcome(r) == source_json(source@),
{
    match source {
        GenerationSource::Fixed { parameters: _, parameters_hash } => {
            validate_hash(parameters_hash.as_str(), "parameters_hash")?;
            let mut out: Fields = Fields::new();
            out.put_text("kind", "fixed");
            out.put_text("parameters_hash", parameters_hash.as_str());
            assert(out@ == fixed_entries(parameters_hash@));
            Ok(out.done())
        },
        GenerationSource::ModelPrior { model_hash, authored_provenance } => {
            validate_hash(model_hash.as_str(), "model_hash")?;
            let claims: Value = describe_provenance(authored_provenance)?;
            let mut out: Fields = Fields::new();
            out.put_text("kind", "model-prior");
            out.put_text("model_hash", model_hash.as_str());
            let ghost claimed = claims@;
            out.put("authored_provenance", claims);
            assert(out@ == prior_entries(model_hash@, claimed));
            Ok(out.done())
        },
        GenerationSource::Posterior {
            fit_ndjson: _,
            fit_data: _,
            fit_hash,
            fit_model_hash,
            fit_data_hash,
            expected_model_data_fingerprint: _,
        } => {
            validate_hash(fit_hash.as_str(), "fit_hash")?;
            validate_hash(fit_model_hash.as_str(), "fit_model_hash")?;
            validate_hash(fit_data_hash.as_str(), "fit_data_hash")?;
            let mut out: Fields = Fields::new();
            out.put_text("kind", "posterior");
            out.put_text("fit_hash", fit_hash.as_str());
            out.put_text("fit_model_hash", fit_model_hash.as_str());
            out.put_text("fit_data_hash", fit_data_hash.as_str());
            assert(out@ == posterior_entries(fit_hash@, fit_model_hash@, fit_data_hash@));
            Ok(out.done())
        },
    }
}

/// Where the parameters of a pair came from, in fields.
pub open spec fn lineage_entries(lineage: GenerationLineage) -> Seq<(Seq<char>, Json)> {
    match lineage {
        GenerationLineage::Fixed => seq![("kind"@, Json::Str("fixed"@))],
        GenerationLineage::ModelPrior { source_draw_index } => seq![
            ("kind"@, Json::Str("model-prior"@)),
            ("source_draw_index"@, Json::Int(source_draw_index as i64)),
        ],
        GenerationLineage::Posterior { source_draw_index, chain, draw } => seq![
            ("kind"@, Json::Str("posterior"@)),
            ("source_draw_index"@, Json::Int(source_draw_index as i64)),
            ("chain"@, Json::Int(chain)),
            ("draw"@, Json::Int(draw)),
        ],
    }
}

/// Where the parameters of a pair came from, as the artifact describes it.
pub open spec fn lineage_json(lineage: GenerationLineage) -> Json {
    Json::Object(lineage_entries(lineage))
}

fn lineage_value(lineage: &GenerationLineage) -> (r: Value)
    ensures
        r@ == lineage_json(*lineage),
{
    let mut out: Fields = Fields::new();
    match lineage {
        GenerationLineage::Fixed => {
            out.put_text("kind", "fixed");
        },
        GenerationLineage::ModelPrior { source_draw_index } => {
            out.put_text("kind", "model-prior");
            out.put_int("source_draw_index", *source_draw_index as i64);
        },
        GenerationLineage::Posterior { source_draw_index, chain, draw } => {
            out.put_text("kind", "posterior");
            out.put_int("source_draw_index", *source_draw_index as i64);
            out.put_int("chain", *chain);
            out.put_int("draw", *draw);
        },
    }
    assert(out@ == lineage_entries(*lineage));
    out.done()
}

/// The bytes of a line with its end.
pub open spec fn line_bytes(line: Seq<char>) -> nat {
    bytes_of(line).len() + 1
}

/// Values as lines, each and all within their limits, with the bytes that they take.
pub open spec fn limited_lines(values: Seq<Json>) -> Result<(Seq<Seq<char>>, nat), Fault>
    decreases values.len(),
{
    if values.len() == 0 {
        Ok((Seq::empty(), 0))
    } else {
        match limited_lines(values.drop_last()) {
            Err(fault) => Err(fault),
            Ok((lines, total)) => match rendered(values.last()) {
                Err(fault) => Err(fault),
                Ok(line) => if line_bytes(line) > MAX_LINE_BYTES {
                    Err(
                        settings_fault(
                            "generated-dataset artifact line exceeds "@ + decimal_text(
                                MAX_LINE_BYTES as nat,
                            ) + " bytes"@,
                        ),
                    )
                } else if total + line_bytes(line) > MAX_ARTIFACT_BYTES {
                    Err(
                        settings_fault(
                            "generated-dataset artifact exceeds "@ + decimal_text(
                                MAX_ARTIFACT_BYTES as nat,
                            ) + " bytes"@,
                        ),
                    )
                } else {
                    Ok((lines.push(line), total + line_bytes(line)))
                },
            },
        }
    }
}

/// Lines without their count of bytes.
pub open spec fn lines_only(r: Result<(Seq<Seq<char>>, nat), Fault>) -> Result<
    Seq<Seq<char>>,
    Fault,
> {
    match r {
        Err(fault) => Err(fault),
        Ok((lines, _)) => Ok(lines),
    }
}

proof fn lemma_limited_fail(values: Seq<Json>, n: int)
    requires
        0 <= n <= values.len(),
        limited_lines(values.take(n)) is Err,
    ensures
        limited_lines(values) == limited_lines(values.take(n)),
    decreases values.len(),
{
    if n < values.len() {
        assert(values.drop_last().take(n) =~= values.take(n));
        lemma_limited_fail(values.drop_last(), n);
    } else {
        assert(values.take(n) =~= values);
    }
}

fn checked_lines(values: &Vec<Value>) -> (r: Result<Vec<String>, Error>)
    ensures
        lines_outcome(r) == lines_only(limited_lines(items_view(values@))),
{
    broadcast use group_json_views;

    let ghost all = items_view(values@);
    let mut out: Vec<String> = Vec::new();
    let mut total: usize = 0;
    assert(text_views(out@) =~= Seq::empty());
    assert(all.take(0) =~= Seq::empty());
    let mut i: usize = 0;
    while i < values.len()
        invariant
            i <= values.len(),
            all == items_view(values@),
            total <= MAX_ARTIFACT_BYTES,
            limited_lines(all.take(i as int)) == Ok::<(Seq<Seq<char>>, nat), Fault>(
                (text_views(out@), total as nat),
            ),
        decreases values.len() - i,
    {
        broadcast use group_json_views;

        proof {
            let done = all.take(i + 1);
            assert(done.drop_last() =~= all.take(i as int));
            assert(done.last() == values@[i as int]@);
            if limited_lines(done) is Err {
                lemma_limited_fail(all, i + 1);
            }
        }
        let line: String = match render(&values[i]) {
            Err(error) => {
                return Err(error);
            },
            Ok(line) => line,
        };
        let bytes: &[u8] = line.as_str().as_bytes();
        let size: usize = bytes.len();
        assert(size == bytes_of(line@).len());
        if size >= MAX_LINE_BYTES {
            let limit: String = text::decimal(MAX_LINE_BYTES as u64);
            return Err(
                invalid_settings(
                    text::cat3(
                        "generated-dataset artifact line exceeds ",
                        limit.as_str(),
                        " bytes",
                    ),
                ),
            );
        }
        total = total + (size + 1);
        if total > MAX_ARTIFACT_BYTES {
            let limit: String = text::decimal(MAX_ARTIFACT_BYTES as u64);
            return Err(
                invalid_settings(
                    text::cat3("generated-dataset artifact exceeds ", limit.as_str(), " bytes"),
                ),
            );
        }
        let ghost before = out@;
        let ghost content = line@;
        out.push(line);
        assert(text_views(out@) =~= text_views(before).push(content));
        i += 1;
    }
    assert(all.take(i as int) =~= all);
    Ok(out)
}

/// The variables of the documents of a pair.
pub type PairDocuments = (Seq<(Seq<char>, Json)>, Seq<(Seq<char>, Json)>);

/// What is wrong with the schemas of pairs from pair `i` on.
pub open spec fn schemas_fault(
    documents: Seq<PairDocuments>,
    parameter_schema: Json,
    dataset_schema: Json,
    i: int,
) -> Option<Fault>
    decreases documents.len() - i,
{
    if i < 0 || i >= documents.len() {
        None
    } else {
        match document_schema(documents[i].0, "generated parameters"@) {
            Err(fault) => Some(fault),
            Ok(parameters) => if parameters != parameter_schema {
                Some(changed_fault())
            } else {
                match document_schema(documents[i].1, "generated dataset"@) {
                    Err(fault) => Some(fault),
                    Ok(dataset) => if dataset != dataset_schema {
                        Some(changed_fault())
                    } else {
                        schemas_fault(documents, parameter_schema, dataset_schema, i + 1)
                    },
                }
            },
        }
    }
}

/// The failure of schemas that change.
pub open spec fn changed_fault() -> Fault {
    settings_fault("generated parameter or dataset schema changed across draws"@)
}

fn check_schemas(documents: &Vec<PairVariables>, parameter_schema: &Value, dataset_schema: &Value) -> (r:
    Result<(), Error>)
    ensures
        checked(r) == schemas_fault(
            variables_views(documents@),
            parameter_schema@,
            dataset_schema@,
            1,
        ),
{
    let ghost all = variables_views(documents@);
    let mut i: usize = 1;
    while i < documents.len()
        invariant
            1 <= i,
            all == variables_views(documents@),
            schemas_fault(all, parameter_schema@, dataset_schema@, 1) == schemas_fault(
                all,
                parameter_schema@,
                dataset_schema@,
                i as int,
            ),
        decreases documents.len() - i,
    {
        assert(all[i as int] == variables_view(documents@[i as int]));
        let parameters: Value = schema(&documents[i].parameters, "generated parameters")?;
        if !same_value(&parameters, parameter_schema) {
            return Err(
                invalid_settings(
                    "generated parameter or dataset schema changed across draws".to_owned(),
                ),
            );
        }
        let dataset: Value = schema(&documents[i].dataset, "generated dataset")?;
        if !same_value(&dataset, dataset_schema) {
            return Err(
                invalid_settings(
                    "generated parameter or dataset schema changed across draws".to_owned(),
                ),
            );
        }
        i += 1;
    }
    Ok(())
}

/// The fields of the header.
pub open spec fn header_entries(
    request: RequestModel,
    source: Json,
    parameter_schema: Json,
    dataset_schema: Json,
) -> Seq<(Seq<char>, Json)> {
    common_entries() + seq![
        ("workflow_phases"@, phases_json()),
        ("generation_model_hash"@, Json::Str(request.generation_model_hash)),
        ("design_hash"@, Json::Str(request.design_hash)),
        ("parameter_source"@, source),
        ("count"@, Json::Int(request.count as i64)),
        ("seed"@, Json::Int(request.seed as i64)),
        ("draw_index_base"@, Json::Str("zero_based_generation_order"@)),
        ("parameter_schema"@, parameter_schema),
        ("dataset_schema"@, dataset_schema),
    ]
}

fn header_value(request: &GenerationRequest, source: &Value, parameter_schema: Value, dataset_schema: Value) -> (r:
    Value)
    ensures
        r@ == Json::Object(
            header_entries(request@, source@, parameter_schema@, dataset_schema@),
        ),
{
    let ghost first = parameter_schema@;
    let ghost second = dataset_schema@;
    let mut out: Fields = common_fields();
    out.put("workflow_phases", workflow_phases_value());
    out.put_text("generation_model_hash", request.generation_model_hash.as_str());
    out.put_text("design_hash", request.design_hash.as_str());
    out.put("parameter_source", source.copy());
    out.put_int("count", request.count as i64);
    out.put_int("seed", request.seed as i64);
    out.put_text("draw_index_base", "zero_based_generation_order");
    out.put("parameter_schema", parameter_schema);
    out.put("dataset_schema", dataset_schema);
    assert(out@ == header_entries(request@, source@, first, second));
    out.done()
}

/// The fields of a draw.
pub open spec fn draw_entries(
    index: int,
    count: usize,
    documents: PairDocuments,
    lineage: GenerationLineage,
) -> Seq<(Seq<char>, Json)> {
    common_entries() + seq![
        ("draw_index"@, Json::Int(index as i64)),
        ("draw_count"@, Json::Int(count as i64)),
        ("parameters"@, canonical_document(documents.0)),
        ("dataset"@, canonical_document(documents.1)),
        ("source_lineage"@, lineage_json(lineage)),
    ]
}

fn draw_value(index: usize, count: usize, documents: &PairVariables, lineage: &GenerationLineage) -> (r:
    Value)
    ensures
        r@ == Json::Object(
            draw_entries(index as int, count, variables_view(*documents), *lineage),
        ),
{
    let mut out: Fields = common_fields();
    out.put_int("draw_index", index as i64);
    out.put_int("draw_count", count as i64);
    out.put("parameters", canonical_value(copy_entries(&documents.parameters)));
    out.put("dataset", canonical_value(copy_entries(&documents.dataset)));
    out.put("source_lineage", lineage_value(lineage));
    assert(out@ == draw_entries(index as int, count, variables_view(*documents), *lineage));
    out.done()
}

/// The fields of the trailer.
pub open spec fn trailer_entries(request: RequestModel, source: Json) -> Seq<(Seq<char>, Json)> {
    common_entries() + seq![
        ("workflow_phases"@, phases_json()),
        ("generation_model_hash"@, Json::Str(request.generation_model_hash)),
        ("design_hash"@, Json::Str(request.design_hash)),
        ("parameter_source"@, source),
        ("count"@, Json::Int(request.count as i64)),
        ("seed"@, Json::Int(request.seed as i64)),
        ("draw_count"@, Json::Int(request.count as i64)),
        ("complete"@, Json::Bool(true)),
    ]
}

/// The trailer under its name.
pub open spec fn trailer_json(entries: Seq<(Seq<char>, Json)>) -> Json {
    Json::Object(seq![("trailer"@, Json::Object(entries))])
}

fn trailer_value(request: &GenerationRequest, source: Value) -> (r: Value)
    ensures
        r@ == trailer_json(trailer_entries(request@, source@)),
{
    let ghost described = source@;
    let mut out: Fields = common_fields();
    out.put("workflow_phases", workflow_phases_value());
    out.put_text("generation_model_hash", request.generation_model_hash.as_str());
    out.put_text("design_hash", request.design_hash.as_str());
    out.put("parameter_source", source);
    out.put_int("count", request.count as i64);
    out.put_int("seed", request.seed as i64);
    out.put_int("draw_count", request.count as i64);
    out.put_bool("complete", true);
    assert(out@ == trailer_entries(request@, described));
    let mut whole: Fields = Fields::new();
    whole.put("trailer", out.done());
    assert(whole@ == seq![("trailer"@, Json::Object(trailer_entries(request@, described)))]);
    whole.done()
}

/// The lines of the draws, as values.
pub open spec fn draw_values(
    pairs: Seq<PairModel>,
    documents: Seq<PairDocuments>,
    count: usize,
) -> Seq<Json> {
    Seq::new(
        pairs.len(),
        |k: int| Json::Object(draw_entries(k, count, documents[k], pairs[k].lineage)),
    )
}

/// The artifact of pairs: header, draws, trailer.
pub open spec fn artifact_lines(
    request: RequestModel,
    design: Seq<(Seq<char>, Json)>,
    source: Json,
    pairs: Seq<PairModel>,
) -> Result<Seq<Seq<char>>, Fault> {
    match all_variables(pairs, design) {
        Err(fault) => Err(fault),
        Ok(documents) => match document_schema(documents[0].0, "generated parameters"@) {
            Err(fault) => Err(fault),
            Ok(first) => match document_schema(documents[0].1, "generated dataset"@) {
                Err(fault) => Err(fault),
                Ok(second) => match schemas_fault(documents, first, second, 1) {
                    Some(fault) => Err(fault),
                    None => lines_only(
                        limited_lines(
                            seq![Json::Object(header_entries(request, source, first, second))]
                                + draw_values(pairs, documents, request.count) + seq![
                                trailer_json(trailer_entries(request, source)),
                            ],
                        ),
                    ),
                },
            },
        },
    }
}

fn artifact(
    request: &GenerationRequest,
    design: &Vec<(String, Value)>,
    source: Value,
    pairs: &Vec<GenerationPair>,
) -> (r: Result<Vec<String>, Error>)
    requires
        pairs@.len() > 0,
    ensures
        lines_outcome(r) == artifact_lines(
            request@,
            entries_view(design@),
            source@,
            list_views(pairs@),
        ),
{
    broadcast use group_json_views;

    let ghost described = source@;
    let ghost listed = list_views(pairs@);
    let documents: Vec<PairVariables> = document_pairs(pairs, design)?;
    let ghost all = variables_views(documents@);
    assert(all[0] == variables_view(documents@[0]));
    let first: Value = schema(&documents[0].parameters, "generated parameters")?;
    let second: Value = schema(&documents[0].dataset, "generated dataset")?;
    check_schemas(&documents, &first, &second)?;
    let ghost head = Json::Object(header_entries(request@, described, first@, second@));
    let mut values: Vec<Value> = Vec::new();
    values.push(header_value(request, &source, first, second));
    let mut i: usize = 0;
    let ghost draws = draw_values(listed, all, request.count);
    assert(items_view(values@) =~= seq![head] + draws.take(0));
    while i < pairs.len()
        invariant
            i <= pairs.len(),
            documents.len() == pairs.len(),
            all == variables_views(documents@),
            listed == list_views(pairs@),
            draws == draw_values(listed, all, request.count),
            items_view(values@) == seq![head] + draws.take(i as int),
        decreases pairs.len() - i,
    {
        broadcast use group_json_views;

        let ghost before = values@;
        let value: Value = draw_value(i, request.count, &documents[i], &pairs[i].lineage);
        let ghost content = value@;
        values.push(value);
        proof {
            assert(all[i as int] == variables_view(documents@[i as int]));
            assert(listed[i as int] == pairs@[i as int]@);
            assert(draws[i as int] == content);
            assert(items_view(values@) =~= items_view(before).push(content));
            assert(seq![head] + draws.take(i + 1) =~= (seq![head] + draws.take(i as int)).push(
                content,
            ));
        }
        i += 1;
    }
    assert(draws.take(i as int) =~= draws);
    let ghost before = values@;
    let last: Value = trailer_value(request, source);
    let ghost tail = last@;
    values.push(last);
    assert(items_view(values@) =~= seq![head] + draws + seq![tail]);
    checked_lines(&values)
}

/// Whether the pairs of a request can come to that.
pub open spec fn source_pairs<A: Arithmetic, N: Randomness>(
    ops: &A,
    rand: &N,
    reading: spec_fn(Seq<char>, Result<Json, Fault>) -> bool,
    diagnosing: spec_fn(Seq<char>, Result<(), Fault>) -> bool,
    request: RequestModel,
    design: Seq<(Seq<char>, DataModel)>,
    out: Result<Seq<PairModel>, Fault>,
) -> bool {
    match request.source {
        SourceModel::Fixed { parameters, parameters_hash } => match canonical_variables(
            parameters,
            "generate fixed parameters"@,
        ) {
            Err(fault) => out == Err::<Seq<PairModel>, Fault>(fault),
            Ok(_) => match read_data(parameters) {
                Err(fault) => out == Err::<Seq<PairModel>, Fault>(fault),
                Ok(data) => fixed_pairs(
                    ops,
                    rand,
                    request.meta,
                    design,
                    data,
                    request.count as nat,
                    request.seed,
                    out,
                ),
            },
        },
        SourceModel::ModelPrior { model_hash, provenance } => if model_hash
            != request.generation_model_hash {
            out == Err::<Seq<PairModel>, Fault>(
                settings_fault("model-prior model hash must equal generation model hash"@),
            )
        } else {
            prior_pairs(
                ops,
                rand,
                request.meta,
                design,
                request.count as nat,
                request.seed,
                out,
            )
        },
        SourceModel::Posterior {
            fit,
            fit_data,
            fit_hash,
            fit_model_hash,
            fit_data_hash,
            fingerprint,
        } => if fit_model_hash != request.generation_model_hash {
            out == Err::<Seq<PairModel>, Fault>(
                settings_fault("posterior fit model hash must equal generation model hash"@),
            )
        } else if fit_hash != rendered_digest(sha256(bytes_of(fit))) {
            out == Err::<Seq<PairModel>, Fault>(
                settings_fault("posterior fit hash must match the exact posterior bytes"@),
            )
        } else {
            match read_data(fit_data) {
                Err(fault) => out == Err::<Seq<PairModel>, Fault>(fault),
                Ok(data) => posterior_pairs(
                    ops,
                    rand,
                    reading,
                    diagnosing,
                    PosteriorModel {
                        meta: request.meta,
                        model_text: request.model_text,
                        design,
                        fit_data: data,
                        fit,
                        fingerprint,
                    },
                    request.count as nat,
                    request.seed,
                    out,
                ),
            }
        },
    }
}

fn pairs_of_request<
    A: Arithmetic,
    N: Randomness,
    R: Fn(&str) -> Result<Value, Error>,
    G: Fn(&str) -> Result<(), Error>,
>(
    request: &GenerationRequest,
    design: &Vec<(String, DataValue)>,
    ops: &A,
    rand: &N,
    read_json: &R,
    diagnose: &G,
) -> (r: Result<Vec<GenerationPair>, Error>)
    requires
        ops.reliable(),
        rand.ready(),
        all_filled(data_views(design@)),
        forall|s: &str| #[trigger] call_requires(*read_json, (s,)),
        forall|s: &str| #[trigger] call_requires(*diagnose, (s,)),
    ensures
        source_pairs(
            ops,
            rand,
            |s: Seq<char>, v: Result<Json, Fault>| reads(*read_json, s, v),
            |s: Seq<char>, v: Result<(), Fault>| diagnoses(*diagnose, s, v),
            request@,
            data_views(design@),
            pairs_outcome(r),
        ),
        r is Ok ==> r->Ok_0@.len() == request.count,
{
    match &request.source {
        GenerationSource::Fixed { parameters, parameters_hash: _ } => {
            read_canonical(parameters, "generate fixed parameters")?;
            let data: Vec<(String, DataValue)> = data_from_json(parameters)?;
            proof {
                law_read_data_is_filled(parameters@);
                assert(data_views(data@) == read_data(parameters@)->Ok_0);
                assert(all_filled(data_views(data@)));
            }
            fixed_generation_pairs(
                &request.meta,
                design,
                data,
                request.count,
                request.seed,
                ops,
                rand,
            )
        },
        GenerationSource::ModelPrior { model_hash, authored_provenance: _ } => {
            if !text::same(model_hash.as_str(), request.generation_model_hash.as_str()) {
                return Err(
                    invalid_settings(
                        "model-prior model hash must equal generation model hash".to_owned(),
                    ),
                );
            }
            model_prior_generation_pairs(
                &request.meta,
                design,
                request.count,
                request.seed,
                ops,
                rand,
            )
        },
        GenerationSource::Posterior {
            fit_ndjson,
            fit_data,
            fit_hash,
            fit_model_hash,
            fit_data_hash: _,
            expected_model_data_fingerprint,
        } => {
            if !text::same(fit_model_hash.as_str(), request.generation_model_hash.as_str()) {
                return Err(
                    invalid_settings(
                        "posterior fit model hash must equal generation model hash".to_owned(),
                    ),
                );
            }
            let exact: String = sha256_bytes(fit_ndjson.as_str().as_bytes());
            if !text::same(fit_hash.as_str(), exact.as_str()) {
                return Err(
                    invalid_settings(
                        "posterior fit hash must match the exact posterior bytes".to_owned(),
                    ),
                );
            }
            let data: Vec<(String, DataValue)> = data_from_json(fit_data)?;
            proof {
                law_read_data_is_filled(fit_data@);
                assert(data_views(data@) == read_data(fit_data@)->Ok_0);
                assert(all_filled(data_views(data@)));
            }
            let fingerprint: Option<&str> = match expected_model_data_fingerprint {
                Some(found) => Some(found.as_str()),
                None => None,
            };
            let source: PosteriorGenerationSource = PosteriorGenerationSource {
                model_text: request.model_text.as_str(),
                fit_data: data,
                fit_ndjson: fit_ndjson.as_str(),
                expected_model_data_fingerprint: fingerprint,
            };
            posterior_generation_pairs(
                &request.meta,
                design,
                source,
                request.count,
                request.seed,
                ops,
                rand,
                read_json,
                diagnose,
            )
        },
    }
}

/// What is wrong with the limits and hashes of a request.
pub open spec fn request_fault(request: RequestModel) -> Option<Fault> {
    if request.count < 1 || request.count > MAX_COUNT {
        Some(
            settings_fault("generate count must be in 1..="@ + decimal_text(MAX_COUNT as nat)),
        )
    } else if request.seed > MAX_SAFE_INTEGER {
        Some(
            settings_fault(
                "generate seed must be in 0..="@ + decimal_text(MAX_SAFE_INTEGER as nat),
            ),
        )
    } else {
        first_fault(
            hash_fault(request.generation_model_hash, "generation_model_hash"@),
            hash_fault(request.design_hash, "design_hash"@),
        )
    }
}

fn check_request(request: &GenerationRequest) -> (r: Result<(), Error>)
    ensures
        checked(r) == request_fault(request@),
{
    if request.count < 1 || request.count > MAX_COUNT {
        let limit: String = text::decimal(MAX_COUNT as u64);
        return Err(
            invalid_settings(text::cat2("generate count must be in 1..=", limit.as_str())),
        );
    }
    if request.seed > MAX_SAFE_INTEGER {
        let limit: String = text::decimal(MAX_SAFE_INTEGER);
        return Err(invalid_settings(text::cat2("generate seed must be in 0..=", limit.as_str())));
    }
    validate_hash(request.generation_model_hash.as_str(), "generation_model_hash")?;
    validate_hash(request.design_hash.as_str(), "design_hash")
}

/// The lines of an artifact, by what its pairs came to.
pub open spec fn lines_of_pairs(
    request: RequestModel,
    design: Seq<(Seq<char>, Json)>,
    source: Json,
    pairs: Result<Seq<PairModel>, Fault>,
) -> Result<Seq<Seq<char>>, Fault> {
    match pairs {
        Err(fault) => Err(fault),
        Ok(list) => artifact_lines(request, design, source, list),
    }
}

/// Whether a sound request can come to those lines.
pub open spec fn described_generated<A: Arithmetic, N: Randomness>(
    ops: &A,
    rand: &N,
    reading: spec_fn(Seq<char>, Result<Json, Fault>) -> bool,
    diagnosing: spec_fn(Seq<char>, Result<(), Fault>) -> bool,
    request: RequestModel,
    variables: Seq<(Seq<char>, Json)>,
    design: Seq<(Seq<char>, DataModel)>,
    source: Json,
    out: Result<Seq<Seq<char>>, Fault>,
) -> bool {
    exists|pairs: Result<Seq<PairModel>, Fault>| #[trigger]
        source_pairs(ops, rand, reading, diagnosing, request, design, pairs) && out
            == lines_of_pairs(request, variables, source, pairs)
}

/// Whether a request can come to those lines.
pub open spec fn datasets_generated<A: Arithmetic, N: Randomness>(
    ops: &A,
    rand: &N,
    reading: spec_fn(Seq<char>, Result<Json, Fault>) -> bool,
    diagnosing: spec_fn(Seq<char>, Result<(), Fault>) -> bool,
    request: RequestModel,
    out: Result<Seq<Seq<char>>, Fault>,
) -> bool {
    match request_fault(request) {
        Some(fault) => out == Err::<Seq<Seq<char>>, Fault>(fault),
        None => match normalized_variables(request.design, "generate design"@) {
            Err(fault) => out == Err::<Seq<Seq<char>>, Fault>(fault),
            Ok(variables) => match read_data(request.design) {
                Err(fault) => out == Err::<Seq<Seq<char>>, Fault>(fault),
                Ok(design) => match source_json(request.source) {
                    Err(fault) => out == Err::<Seq<Seq<char>>, Fault>(fault),
                    Ok(source) => described_generated(
                        ops,
                        rand,
                        reading,
                        diagnosing,
                        request,
                        variables,
                        design,
                        source,
                        out,
                    ),
                },
            },
        },
    }
}

/// Generates datasets and renders them as lines: a header, one line per pair, and a trailer.
pub fn generated_datasets_ndjson_lines<
    A: Arithmetic,
    N: Randomness,
    R: Fn(&str) -> Result<Value, Error>,
    G: Fn(&str) -> Result<(), Error>,
>(request: &GenerationRequest, ops: &A, rand: &N, read_json: &R, diagnose: &G) -> (r: Result<
    Vec<String>,
    Error,
>)
    requires
        ops.reliable(),
        rand.ready(),
        forall|s: &str| #[trigger] call_requires(*read_json, (s,)),
        forall|s: &str| #[trigger] call_requires(*diagnose, (s,)),
    ensures
        datasets_generated(
            ops,
            rand,
            |s: Seq<char>, v: Result<Json, Fault>| reads(*read_json, s, v),
            |s: Seq<char>, v: Result<(), Fault>| diagnoses(*diagnose, s, v),
            request@,
            lines_outcome(r),
        ),
{
    let ghost reading = |s: Seq<char>, v: Result<Json, Fault>| reads(*read_json, s, v);
    let ghost diagnosing = |s: Seq<char>, v: Result<(), Fault>| diagnoses(*diagnose, s, v);
    check_request(request)?;
    let variables: Vec<(String, Value)> = normalize(&request.design, "generate design")?;
    let design: Vec<(String, DataValue)> = data_from_json(&request.design)?;
    proof {
        law_read_data_is_filled(request.design@);
    }
    let source: Value = source_descriptor(&request.source)?;
    let ghost described = source@;
    let ghost bound = data_views(design@);
    let ghost listed = entries_view(variables@);
    let pairs: Result<Vec<GenerationPair>, Error> = pairs_of_request(
        request,
        &design,
        ops,
        rand,
        read_json,
        diagnose,
    );
    let ghost kept = pairs_outcome(pairs);
    assert(source_pairs(ops, rand, reading, diagnosing, request@, bound, kept));
    let out: Result<Vec<String>, Error> = match pairs {
        Err(error) => Err(error),
        Ok(list) => artifact(request, &variables, source, &list),
    };
    assert(described_generated(
        ops,
        rand,
        reading,
        diagnosing,
        request@,
        listed,
        bound,
        described,
        lines_outcome(out),
    ));
    out
}

} // verus!
