//! The lines that posterior-predictive runs are written as.

use vstd::prelude::*;

use crate::artifact::{artifact_identity_entries, ArtifactIdentity, POSTERIOR_DRAW_INDEX_BASE, V0_PROVISIONAL};
use crate::data::DataValue;
#[allow(unused_imports)]
use crate::data::{data_views, DataModel};
use crate::error::{malformed, Error};
#[allow(unused_imports)]
use crate::error::{malformed_fault, outcome, shape_fault, Fault};
#[allow(unused_imports)]
use crate::investigation::fields::names_view;
#[allow(unused_imports)]
use crate::investigation::manifest::reads;
use crate::ir::ModelMeta;
use crate::json::Value;
#[allow(unused_imports)]
use crate::json::Json;
#[allow(unused_imports)]
use crate::model::{all_filled, bound_names, repeated_from};
use crate::numerics::{Arithmetic, Randomness};
use crate::render::{render, texts_value, Fields};
#[allow(unused_imports)]
use crate::render::{lines_outcome, texts_json};
#[allow(unused_imports)]
use crate::text::text_views;

use super::artifacts::{
    data_order_value, data_values_to_value, draw_fields, site_order_to_value, sites_value, trailer_value,
};
#[allow(unused_imports)]
use super::artifacts::{
    artifact_lines, both, data_order, declared_fields, drawn_lines, lemma_drawn_fail, line_of, site_order, sites_json,
    trailer_json, values_fields,
};
#[allow(unused_imports)]
use super::records::sound_records;
use super::replicate::{
    declared_data_from_full, simulate_posterior_predictive_with_model_data_fingerprint, FitSourceDraw, PosteriorInputs,
    PosteriorPredictiveRun,
};
#[allow(unused_imports)]
use super::replicate::{declared_values, posterior_replicated, ReplicaInputs, ReplicaModel};
use super::setup::check_repeated;

verus! {

/// The fields that every posterior-predictive line begins with.
pub open spec fn posterior_marks() -> Seq<(Seq<char>, Json)> {
    seq![
        ("posterior_predictive_format"@, Json::Str(V0_PROVISIONAL@)),
        ("artifact_kind"@, Json::Str("posterior_predictive_draws"@)),
        (
            "artifact_scope"@,
            Json::Str("observed_data_conditioned_replicated_observed_data_draws"@),
        ),
    ]
}

fn posterior_predictive_artifact_fields() -> (r: Fields)
    ensures
        r@ == posterior_marks(),
{
    let mut out: Fields = Fields::new();
    out.put_text("posterior_predictive_format", V0_PROVISIONAL);
    out.put_all(artifact_identity_entries(ArtifactIdentity::posterior_predictive_draws()));
    assert(out@ =~= posterior_marks());
    out
}

/// The phases of a posterior-predictive run.
pub open spec fn posterior_phases() -> Json {
    texts_json(
        seq![
            "parse_json"@,
            "decode_ir"@,
            "parse_fit_ndjson"@,
            "bind_observed_data"@,
            "simulate_posterior_predictive"@,
            "emit_artifact"@,
        ],
    )
}

fn posterior_predictive_workflow_phases_value() -> (r: Value)
    ensures
        r@ == posterior_phases(),
{
    let phases: Vec<&str> = vec![
        "parse_json",
        "decode_ir",
        "parse_fit_ndjson",
        "bind_observed_data",
        "simulate_posterior_predictive",
        "emit_artifact",
    ];
    assert(names_view(phases@) =~= seq![
        "parse_json"@,
        "decode_ir"@,
        "parse_fit_ndjson"@,
        "bind_observed_data"@,
        "simulate_posterior_predictive"@,
        "emit_artifact"@,
    ]);
    texts_value(&phases)
}

/// The fields that header and trailer of a posterior-predictive run share.
pub open spec fn posterior_outline(m: ReplicaModel, seed: u64, data: Seq<(Seq<char>, DataModel)>) -> Seq<
    (Seq<char>, Json),
> {
    posterior_marks() + seq![
        ("workflow_phases"@, posterior_phases()),
        ("seed"@, Json::Int(seed as i64)),
        ("source_fit_seed"@, Json::Int(m.source_seed)),
        ("draw_count"@, Json::Int(m.run.draws.len() as i64)),
        ("draw_index_base"@, Json::Str(POSTERIOR_DRAW_INDEX_BASE@)),
        ("site_count"@, Json::Int(m.run.sites.len() as i64)),
        ("site_order"@, site_order(m.run.sites)),
        ("declared_data_count"@, Json::Int(data.len() as i64)),
        ("declared_data_order"@, data_order(data)),
    ]
}

fn posterior_outline_fields(
    run: &PosteriorPredictiveRun,
    seed: u64,
    declared_data: &Vec<(String, DataValue)>,
) -> (r: Fields)
    ensures
        r@ == posterior_outline(run@, seed, data_views(declared_data@)),
{
    assert(run@.run.draws.len() == run.draws@.len());
    assert(run@.run.sites.len() == run.sites@.len());
    assert(data_views(declared_data@).len() == declared_data@.len());
    let mut out: Fields = posterior_predictive_artifact_fields();
    out.put("workflow_phases", posterior_predictive_workflow_phases_value());
    out.put_int("seed", seed as i64);
    out.put_int("source_fit_seed", run.source_seed);
    out.put_int("draw_count", run.draws.len() as i64);
    out.put_text("draw_index_base", POSTERIOR_DRAW_INDEX_BASE);
    out.put_int("site_count", run.sites.len() as i64);
    out.put("site_order", site_order_to_value(&run.sites));
    out.put_int("declared_data_count", declared_data.len() as i64);
    out.put("declared_data_order", data_order_value(declared_data));
    assert(out@ =~= posterior_outline(run@, seed, data_views(declared_data@)));
    out
}

/// The fields of the header of a posterior-predictive run.
pub open spec fn posterior_header(
    m: ReplicaModel,
    seed: u64,
    data: Seq<(Seq<char>, DataModel)>,
    declared: Seq<(Seq<char>, Json)>,
) -> Seq<(Seq<char>, Json)> {
    posterior_outline(m, seed, data) + seq![
        ("declared_data"@, Json::Object(declared)),
        ("sites"@, sites_json(m.run.sites)),
    ]
}

/// The header of a posterior-predictive run.
pub open spec fn posterior_header_json(
    m: ReplicaModel,
    seed: u64,
    data: Seq<(Seq<char>, DataModel)>,
) -> Result<Json, Fault> {
    match declared_fields(data) {
        Err(fault) => Err(fault),
        Ok(declared) => Ok(Json::Object(posterior_header(m, seed, data, declared))),
    }
}

fn posterior_predictive_header_value(
    run: &PosteriorPredictiveRun,
    seed: u64,
    declared_data: &Vec<(String, DataValue)>,
) -> (r: Result<Value, Error>)
    requires
        sound_records(run@.run.sites),
    ensures
        outcome(r) == posterior_header_json(run@, seed, data_views(declared_data@)),
{
    let declared: Fields = data_values_to_value(declared_data)?;
    let ghost listed = declared@;
    let mut out: Fields = posterior_outline_fields(run, seed, declared_data);
    out.put("declared_data", declared.done());
    out.put("sites", sites_value(&run.sites));
    assert(out@ =~= posterior_header(run@, seed, data_views(declared_data@), listed));
    Ok(out.done())
}

/// The fields of a draw of a posterior-predictive run.
pub open spec fn posterior_draw(
    index: int,
    m: ReplicaModel,
    seed: u64,
    values: Seq<(Seq<char>, Json)>,
) -> Seq<(Seq<char>, Json)> {
    posterior_marks() + seq![
        ("draw_index"@, Json::Int(index as i64)),
        ("draw_index_base"@, Json::Str(POSTERIOR_DRAW_INDEX_BASE@)),
        ("seed"@, Json::Int(seed as i64)),
        ("draw_count"@, Json::Int(m.run.draws.len() as i64)),
        ("source_fit_draw_index"@, Json::Int(m.source_draws[index].0 as i64)),
        ("source_chain"@, Json::Int(m.source_draws[index].1)),
        ("source_draw"@, Json::Int(m.source_draws[index].2)),
        ("site_count"@, Json::Int(m.run.sites.len() as i64)),
        ("site_order"@, site_order(m.run.sites)),
        ("values"@, Json::Object(values)),
    ]
}

/// A draw of a posterior-predictive run as JSON.
pub open spec fn posterior_draw_json(m: ReplicaModel, seed: u64, index: int) -> Result<Json, Fault> {
    if index >= m.source_draws.len() {
        Err(malformed_fault("posterior-predictive source fit draw metadata is missing"@))
    } else {
        match values_fields(
            m.run.sites,
            m.run.draws[index],
            "posterior-predictive"@,
            both(m.run.sites, m.run.draws[index]),
        ) {
            Err(fault) => Err(fault),
            Ok(values) => Ok(Json::Object(posterior_draw(index, m, seed, values))),
        }
    }
}

fn posterior_predictive_draw_value(
    draw_index: usize,
    run: &PosteriorPredictiveRun,
    seed: u64,
) -> (r: Result<Value, Error>)
    requires
        draw_index < run.draws@.len(),
    ensures
        outcome(r) == posterior_draw_json(run@, seed, draw_index as int),
{
    let ghost m = run@;
    assert(m.run.draws.len() == run.draws@.len());
    assert(m.run.sites.len() == run.sites@.len());
    assert(m.source_draws.len() == run.source_draws@.len());
    assert(m.run.draws[draw_index as int] == run.draws@[draw_index as int]@);
    if draw_index >= run.source_draws.len() {
        return Err(
            malformed("posterior-predictive source fit draw metadata is missing".to_owned()),
        );
    }
    let source: &FitSourceDraw = &run.source_draws[draw_index];
    assert(m.source_draws[draw_index as int] == source@);
    let values: Fields = draw_fields(
        &run.sites,
        &run.draws[draw_index].values,
        "posterior-predictive",
    )?;
    let ghost listed = values@;
    let mut out: Fields = posterior_predictive_artifact_fields();
    out.put_int("draw_index", draw_index as i64);
    out.put_text("draw_index_base", POSTERIOR_DRAW_INDEX_BASE);
    out.put_int("seed", seed as i64);
    out.put_int("draw_count", run.draws.len() as i64);
    out.put_int("source_fit_draw_index", source.draw_index as i64);
    out.put_int("source_chain", source.chain);
    out.put_int("source_draw", source.draw);
    out.put_int("site_count", run.sites.len() as i64);
    out.put("site_order", site_order_to_value(&run.sites));
    out.put("values", values.done());
    assert(out@ =~= posterior_draw(draw_index as int, m, seed, listed));
    Ok(out.done())
}

/// The lines of a posterior-predictive run.
pub open spec fn posterior_lines(m: ReplicaModel, seed: u64, data: Seq<(Seq<char>, DataModel)>) -> Result<
    Seq<Seq<char>>,
    Fault,
> {
    artifact_lines(
        posterior_header_json(m, seed, data),
        |i: int| posterior_draw_json(m, seed, i),
        m.run.draws.len(),
        trailer_json(posterior_outline(m, seed, data)),
    )
}

/// Renders a posterior-predictive run as lines.
pub fn posterior_run_lines(
    run: &PosteriorPredictiveRun,
    seed: u64,
    declared_data: &Vec<(String, DataValue)>,
) -> (r: Result<Vec<String>, Error>)
    requires
        sound_records(run@.run.sites),
    ensures
        lines_outcome(r) == posterior_lines(run@, seed, data_views(declared_data@)),
{
    let ghost data = data_views(declared_data@);
    let ghost m = run@;
    let ghost count = m.run.draws.len();
    let ghost item = |i: int| posterior_draw_json(m, seed, i);
    assert(count == run.draws@.len());
    let header: Value = posterior_predictive_header_value(run, seed, declared_data)?;
    let first: String = render(&header)?;
    let ghost begun = first@;
    let mut lines: Vec<String> = Vec::new();
    lines.push(first);
    let ghost mut made: Seq<Seq<char>> = Seq::empty();
    assert(text_views(lines@) =~= seq![begun] + made);
    let mut i: usize = 0;
    while i < run.draws.len()
        invariant
            i <= run.draws.len(),
            m == run@,
            data == data_views(declared_data@),
            count == run.draws@.len(),
            m.run.draws.len() == count,
            item == (|i: int| posterior_draw_json(m, seed, i)),
            line_of(posterior_header_json(m, seed, data)) == Ok::<Seq<char>, Fault>(begun),
            drawn_lines(item, i as nat) == Ok::<Seq<Seq<char>>, Fault>(made),
            text_views(lines@) == seq![begun] + made,
        decreases run.draws.len() - i,
    {
        let ghost n = (i + 1) as nat;
        proof {
            assert(item(n - 1) == posterior_draw_json(m, seed, n - 1));
            if drawn_lines(item, n) is Err {
                lemma_drawn_fail(item, n, count);
            }
        }
        let value: Value = posterior_predictive_draw_value(i, run, seed)?;
        let line: String = render(&value)?;
        let ghost text = line@;
        let ghost before = lines@;
        lines.push(line);
        proof {
            assert(text_views(lines@) =~= text_views(before).push(text));
            assert(seq![begun] + made.push(text) =~= (seq![begun] + made).push(text));
            made = made.push(text);
        }
        i += 1;
    }
    let trailer: Value = trailer_value(posterior_outline_fields(run, seed, declared_data));
    let last: String = render(&trailer)?;
    let ghost tail = last@;
    lines.push(last);
    assert(text_views(lines@) =~= seq![begun] + made + seq![tail]);
    Ok(lines)
}

/// The lines that a simulation comes to.
pub open spec fn posterior_output(
    run: Result<ReplicaModel, Fault>,
    seed: u64,
    data: Seq<(Seq<char>, DataModel)>,
) -> Result<Seq<Seq<char>>, Fault> {
    match run {
        Err(fault) => Err(fault),
        Ok(found) => posterior_lines(found, seed, data),
    }
}

/// The declared data of the inputs, or what is wrong with them.
pub open spec fn picked_data(inputs: ReplicaInputs) -> Result<Seq<(Seq<char>, DataModel)>, Fault> {
    match repeated_from(bound_names(inputs.data), 0) {
        Some(name) => Err(shape_fault("duplicate data value \""@ + name + "\""@)),
        None => declared_values(inputs.meta, inputs.data, inputs.meta.data.len()),
    }
}

/// Whether a posterior-predictive artifact can come to those lines.
pub open spec fn posterior_written<A: Arithmetic, N: Randomness>(
    ops: &A,
    rand: &N,
    reading: spec_fn(Seq<char>, Result<Json, Fault>) -> bool,
    inputs: ReplicaInputs,
    seed: u64,
    out: Result<Seq<Seq<char>>, Fault>,
) -> bool {
    if picked_data(inputs) is Err {
        out == Err::<Seq<Seq<char>>, Fault>(picked_data(inputs)->Err_0)
    } else {
        exists|run: Result<ReplicaModel, Fault>| #[trigger]
            posterior_replicated(ops, rand, reading, inputs, seed, run) && out == posterior_output(
                run,
                seed,
                picked_data(inputs)->Ok_0,
            )
    }
}

/// Simulates a posterior-predictive run and renders it as lines.
pub fn posterior_predictive_ndjson_lines_with_model_data_fingerprint<
    'a,
    A: Arithmetic,
    N: Randomness,
    R: Fn(&str) -> Result<Value, Error>,
>(inputs: &PosteriorInputs<'a>, seed: u64, ops: &A, rand: &N, read_json: &R) -> (r: Result<
    Vec<String>,
    Error,
>)
    requires
        ops.reliable(),
        rand.ready(),
        all_filled(data_views(inputs.data@)),
        forall|s: &str| #[trigger] call_requires(*read_json, (s,)),
    ensures
        posterior_written(
            ops,
            rand,
            |s: Seq<char>, v: Result<Json, Fault>| reads(*read_json, s, v),
            inputs@,
            seed,
            lines_outcome(r),
        ),
{
    let ghost reading = |s: Seq<char>, v: Result<Json, Fault>| reads(*read_json, s, v);
    check_repeated(inputs.data)?;
    let declared: Vec<(String, DataValue)> = declared_data_from_full(inputs.meta, inputs.data)?;
    let run: Result<PosteriorPredictiveRun, Error> =
        simulate_posterior_predictive_with_model_data_fingerprint(
        inputs,
        seed,
        ops,
        rand,
        read_json,
    );
    let ghost kept = outcome(run);
    assert(posterior_replicated(ops, rand, reading, inputs@, seed, kept));
    match run {
        Err(error) => Err(error),
        Ok(found) => posterior_run_lines(&found, seed, &declared),
    }
}

/// Simulates replicated observed values, with no fingerprint to hold the fit to.
pub fn simulate_posterior_predictive<
    A: Arithmetic,
    N: Randomness,
    R: Fn(&str) -> Result<Value, Error>,
>(
    meta: &ModelMeta,
    model_text: &str,
    data: &Vec<(String, DataValue)>,
    fit_ndjson: &str,
    seed: u64,
    ops: &A,
    rand: &N,
    read_json: &R,
) -> (r: Result<PosteriorPredictiveRun, Error>)
    requires
        ops.reliable(),
        rand.ready(),
        all_filled(data_views(data@)),
        forall|s: &str| #[trigger] call_requires(*read_json, (s,)),
    ensures
        posterior_replicated(
            ops,
            rand,
            |s: Seq<char>, v: Result<Json, Fault>| reads(*read_json, s, v),
            (ReplicaInputs {
                meta: meta@,
                model_text: model_text@,
                data: data_views(data@),
                fit: fit_ndjson@,
                fingerprint: None,
            }),
            seed,
            outcome(r),
        ),
{
    let inputs: PosteriorInputs = PosteriorInputs {
        meta,
        model_text,
        data,
        fit_ndjson,
        expected_model_data_fingerprint: None,
    };
    simulate_posterior_predictive_with_model_data_fingerprint(&inputs, seed, ops, rand, read_json)
}

/// The lines of a posterior-predictive run, with no fingerprint to hold the fit to.
pub fn posterior_predictive_ndjson_lines<
    A: Arithmetic,
    N: Randomness,
    R: Fn(&str) -> Result<Value, Error>,
>(
    meta: &ModelMeta,
    model_text: &str,
    data: &Vec<(String, DataValue)>,
    fit_ndjson: &str,
    seed: u64,
    ops: &A,
    rand: &N,
    read_json: &R,
) -> (r: Result<Vec<String>, Error>)
    requires
        ops.reliable(),
        rand.ready(),
        all_filled(data_views(data@)),
        forall|s: &str| #[trigger] call_requires(*read_json, (s,)),
    ensures
        posterior_written(
            ops,
            rand,
            |s: Seq<char>, v: Result<Json, Fault>| reads(*read_json, s, v),
            (ReplicaInputs {
                meta: meta@,
                model_text: model_text@,
                data: data_views(data@),
                fit: fit_ndjson@,
                fingerprint: None,
            }),
            seed,
            lines_outcome(r),
        ),
{
    let inputs: PosteriorInputs = PosteriorInputs {
        meta,
        model_text,
        data,
        fit_ndjson,
        expected_model_data_fingerprint: None,
    };
    posterior_predictive_ndjson_lines_with_model_data_fingerprint(
        &inputs,
        seed,
        ops,
        rand,
        read_json,
    )
}

} // verus!
