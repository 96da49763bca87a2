//! Reports that hold observed data against posterior-predictive replicates.

use vstd::prelude::*;

use crate::artifact::{
    coordinate_order_value, shape_value, ArtifactIdentity, V0_PROVISIONAL, WORKFLOW_FORMAT,
};
#[allow(unused_imports)]
use crate::artifact::{cells, coordinate_order, shape_json};
use crate::data::{copy_numbers, copy_shape, DataValue};
#[allow(unused_imports)]
use crate::data::{data_views, number_views, DataModel};
use crate::error::{shape_mismatch, Error};
#[allow(unused_imports)]
use crate::error::{outcome, shape_fault, Fault};
#[allow(unused_imports)]
use crate::investigation::manifest::reads;
use crate::ir::ModelMeta;
#[allow(unused_imports)]
use crate::ir::named_views;
use crate::json::Value;
#[allow(unused_imports)]
use crate::json::{group_json_views, items_view, Json};
use crate::model::find_data;
#[allow(unused_imports)]
use crate::model::{all_filled, bound_names, data_named, repeated_from};
use crate::number::Number;
#[allow(unused_imports)]
use crate::number::NumberModel;
#[allow(unused_imports)]
use crate::numerics::optional_number;
use crate::numerics::{Arithmetic, Randomness};
use crate::render::{render, Fields};
#[allow(unused_imports)]
use crate::render::{line_outcome, rendered};
use crate::tensor::Tensor;
#[allow(unused_imports)]
use crate::tensor::TensorModel;
use crate::text;
#[allow(unused_imports)]
use crate::text::numbers_text;

use super::artifacts::site_order_to_value;
#[allow(unused_imports)]
use super::artifacts::site_order;
use super::records::PriorPredictiveSite;
#[allow(unused_imports)]
use super::records::{sound_records, RecordModel, RunModel};
#[allow(unused_imports)]
use super::replica_laws::law_every_replica_has_the_recorded_sites;
use super::replicate::{
    simulate_posterior_predictive_with_model_data_fingerprint, PosteriorInputs, PosteriorPredictiveRun,
};
#[allow(unused_imports)]
use super::replicate::{posterior_replicated, ReplicaInputs, ReplicaModel};
use super::setup::check_repeated;
use super::statistics::{stat_summary_value, statistic_value, Statistic};
#[allow(unused_imports)]
use super::statistics::{
    finds, moments_of, optional_views, present, statistic_gives, statistic_name, summary_entries, Findings, Moments,
};

verus! {

/// The statistics that are reported of a site.
pub open spec fn kinds_of(integer: bool) -> Seq<Statistic> {
    if integer {
        seq![
            Statistic::Mean,
            Statistic::Sd,
            Statistic::Min,
            Statistic::Max,
            Statistic::ZeroCount,
        ]
    } else {
        seq![Statistic::Mean, Statistic::Sd, Statistic::Min, Statistic::Max]
    }
}

/// The fields of a check.
pub open spec fn check_entries(site: RecordModel, kind: Statistic, f: Findings) -> Seq<
    (Seq<char>, Json),
> {
    seq![
        ("site"@, Json::Str(site.name)),
        ("stochastic_site"@, Json::Str(site.stochastic_site)),
        ("statistic"@, Json::Str(statistic_name(kind))),
        ("shape"@, shape_json(site.shape)),
        ("coordinate_order"@, coordinate_order(site.shape)),
        ("summary"@, Json::Object(summary_entries(f))),
    ]
}

/// The values of a site in every draw.
pub open spec fn replicas(m: RunModel, k: int) -> Seq<Seq<NumberModel>> {
    m.draws.map_values(|draw: Seq<(Seq<char>, TensorModel)>| draw[k].1.values)
}

/// Whether checks can be those of a site, statistic by statistic.
pub open spec fn site_findings(
    moments: Moments,
    site: RecordModel,
    observed: Seq<NumberModel>,
    replicas: Seq<Seq<NumberModel>>,
    found: Seq<Findings>,
) -> bool {
    &&& found.len() == kinds_of(site.integer).len()
    &&& forall|j: int|
        0 <= j < found.len() ==> finds(
            moments,
            kinds_of(site.integer)[j],
            observed,
            replicas,
            #[trigger] found[j],
        )
}

/// The checks of a site.
pub open spec fn site_checks(site: RecordModel, found: Seq<Findings>) -> Seq<Json> {
    Seq::new(
        found.len(),
        |j: int| Json::Object(check_entries(site, kinds_of(site.integer)[j], found[j])),
    )
}

/// Whether checking a site against spread observed values can come to that.
pub open spec fn spread_checked(
    moments: Moments,
    m: RunModel,
    k: int,
    observed: DataModel,
    spread: Result<TensorModel, Fault>,
    out: Result<Seq<Json>, Fault>,
) -> bool {
    match spread {
        Err(_) => out == Err::<Seq<Json>, Fault>(
            shape_fault(
                "posterior-check observed data value \""@ + m.sites[k].name
                    + "\" cannot broadcast from shape "@ + numbers_text(observed.shape)
                    + " to posterior-predictive site shape "@ + numbers_text(m.sites[k].shape),
            ),
        ),
        Ok(tensor) => exists|found: Seq<Findings>| #[trigger]
            site_findings(moments, m.sites[k], tensor.values, replicas(m, k), found) && out == Ok::<
                Seq<Json>,
                Fault,
            >(site_checks(m.sites[k], found)),
    }
}

/// Whether checking a site against observed values can come to that.
pub open spec fn observed_checked<A: Arithmetic>(
    ops: &A,
    moments: Moments,
    m: RunModel,
    k: int,
    observed: DataModel,
    out: Result<Seq<Json>, Fault>,
) -> bool {
    exists|spread: Result<TensorModel, Fault>| #[trigger]
        ops.spread_gives(
            TensorModel { shape: observed.shape, values: observed.values },
            m.sites[k].shape,
            spread,
        ) && spread_checked(moments, m, k, observed, spread, out)
}

/// Whether checking a site can come to that.
pub open spec fn site_checked<A: Arithmetic>(
    ops: &A,
    moments: Moments,
    data: Seq<(Seq<char>, DataModel)>,
    m: RunModel,
    k: int,
    out: Result<Seq<Json>, Fault>,
) -> bool {
    match data_named(data, m.sites[k].name) {
        None => out == Err::<Seq<Json>, Fault>(
            shape_fault(
                "posterior-check missing observed data value \""@ + m.sites[k].name + "\""@,
            ),
        ),
        Some(observed) => observed_checked(ops, moments, m, k, observed, out),
    }
}

/// Checks with those of one more site behind them.
pub open spec fn checks_extended(
    before: Seq<Json>,
    item: Result<Seq<Json>, Fault>,
    out: Result<Seq<Json>, Fault>,
) -> bool {
    out == (match item {
        Err(fault) => Err::<Seq<Json>, Fault>(fault),
        Ok(more) => Ok(before + more),
    })
}

/// Whether checking the first `n` sites can come to that.
pub open spec fn run_checked<A: Arithmetic>(
    ops: &A,
    moments: Moments,
    data: Seq<(Seq<char>, DataModel)>,
    m: RunModel,
    n: nat,
    out: Result<Seq<Json>, Fault>,
) -> bool
    decreases n,
{
    if n == 0 {
        out == Ok::<Seq<Json>, Fault>(Seq::empty())
    } else {
        ||| out is Err && run_checked(ops, moments, data, m, (n - 1) as nat, out)
        ||| exists|before: Seq<Json>, item: Result<Seq<Json>, Fault>| #[trigger]
            checks_extended(before, item, out) && run_checked(
                ops,
                moments,
                data,
                m,
                (n - 1) as nat,
                Ok(before),
            ) && site_checked(ops, moments, data, m, n - 1, item)
    }
}

proof fn lemma_checked_fail<A: Arithmetic>(
    ops: &A,
    moments: Moments,
    data: Seq<(Seq<char>, DataModel)>,
    m: RunModel,
    k: nat,
    n: nat,
    out: Result<Seq<Json>, Fault>,
)
    requires
        k <= n,
        out is Err,
        run_checked(ops, moments, data, m, k, out),
    ensures
        run_checked(ops, moments, data, m, n, out),
    decreases n - k,
{
    if k < n {
        lemma_checked_fail(ops, moments, data, m, k, (n - 1) as nat, out);
    }
}

proof fn lemma_checked_step<A: Arithmetic>(
    ops: &A,
    moments: Moments,
    data: Seq<(Seq<char>, DataModel)>,
    m: RunModel,
    n: nat,
    before: Seq<Json>,
    item: Result<Seq<Json>, Fault>,
    out: Result<Seq<Json>, Fault>,
)
    requires
        n > 0,
        run_checked(ops, moments, data, m, (n - 1) as nat, Ok(before)),
        site_checked(ops, moments, data, m, n - 1, item),
        checks_extended(before, item, out),
    ensures
        run_checked(ops, moments, data, m, n, out),
{
}

fn statistic_kinds(integer: bool) -> (r: Vec<Statistic>)
    ensures
        r@ == kinds_of(integer),
{
    let mut out: Vec<Statistic> = vec![
        Statistic::Mean,
        Statistic::Sd,
        Statistic::Min,
        Statistic::Max,
    ];
    if integer {
        out.push(Statistic::ZeroCount);
    }
    assert(out@ =~= kinds_of(integer));
    out
}

/// The view of checks.
pub open spec fn values_outcome(r: Result<Vec<Value>, Error>) -> Result<Seq<Json>, Fault> {
    match r {
        Ok(items) => Ok(items_view(items@)),
        Err(error) => Err(error@),
    }
}

/// Whether every draw has a value for every site.
pub open spec fn complete(m: RunModel) -> bool {
    forall|i: int| 0 <= i < m.draws.len() ==> (#[trigger] m.draws[i]).len() == m.sites.len()
}

fn replicated_statistics<M: Fn(&Vec<Number>) -> Number, D: Fn(&Vec<Number>) -> Number>(
    run: &PosteriorPredictiveRun,
    k: usize,
    kind: Statistic,
    mean: &M,
    sd: &D,
) -> (r: Vec<Option<Number>>)
    requires
        k < run.sites@.len(),
        complete(run@.run),
        forall|v: &Vec<Number>| #[trigger] call_requires(*mean, (v,)),
        forall|v: &Vec<Number>| #[trigger] call_requires(*sd, (v,)),
    ensures
        r@.len() == run.draws@.len(),
        forall|i: int|
            0 <= i < r@.len() ==> statistic_gives(
                moments_of(*mean, *sd),
                kind,
                replicas(run@.run, k as int)[i],
                optional_number(#[trigger] r@[i]),
            ),
{
    let ghost m = run@.run;
    let ghost rows = replicas(m, k as int);
    let mut out: Vec<Option<Number>> = Vec::new();
    let mut i: usize = 0;
    while i < run.draws.len()
        invariant
            i <= run.draws.len(),
            out.len() == i,
            k < run.sites@.len(),
            m == run@.run,
            complete(m),
            rows == replicas(m, k as int),
            forall|v: &Vec<Number>| #[trigger] call_requires(*mean, (v,)),
            forall|v: &Vec<Number>| #[trigger] call_requires(*sd, (v,)),
            forall|j: int|
                0 <= j < i ==> statistic_gives(
                    moments_of(*mean, *sd),
                    kind,
                    rows[j],
                    optional_number(#[trigger] out@[j]),
                ),
        decreases run.draws.len() - i,
    {
        proof {
            assert(m.draws[i as int] == run.draws@[i as int]@);
            assert(m.draws[i as int].len() == m.sites.len());
            assert(named_views(run.draws@[i as int].values@)[k as int].1
                == run.draws@[i as int].values@[k as int].1@);
        }
        out.push(statistic_value(kind, &run.draws[i].values[k].1.values, mean, sd));
        i += 1;
    }
    out
}

fn check_value<M: Fn(&Vec<Number>) -> Number, D: Fn(&Vec<Number>) -> Number>(
    run: &PosteriorPredictiveRun,
    k: usize,
    kind: Statistic,
    observed: &Vec<Number>,
    mean: &M,
    sd: &D,
) -> (r: (Value, Ghost<Findings>))
    requires
        k < run.sites@.len(),
        complete(run@.run),
        sound_records(run@.run.sites),
        forall|v: &Vec<Number>| #[trigger] call_requires(*mean, (v,)),
        forall|v: &Vec<Number>| #[trigger] call_requires(*sd, (v,)),
    ensures
        finds(
            moments_of(*mean, *sd),
            kind,
            number_views(observed@),
            replicas(run@.run, k as int),
            r.1@,
        ),
        r.0@ == Json::Object(check_entries(run@.run.sites[k as int], kind, r.1@)),
{
    let ghost m = run@.run;
    let ghost moments = moments_of(*mean, *sd);
    let site: &PriorPredictiveSite = &run.sites[k];
    assert(m.sites[k as int] == site@);
    let seen: Option<Number> = statistic_value(kind, observed, mean, sd);
    let drawn: Vec<Option<Number>> = replicated_statistics(run, k, kind, mean, sd);
    let summary: Value = stat_summary_value(&seen, &drawn, mean, sd);
    let ghost listed = optional_views(drawn@);
    let ghost over = choose|over: Option<NumberModel>| #[trigger]
        statistic_gives(moments, Statistic::Mean, present(listed), over) && summary@
            == Json::Object(
            summary_entries(
                Findings { observed: optional_number(seen), replicated: listed, mean: over },
            ),
        );
    let ghost f = Findings { observed: optional_number(seen), replicated: listed, mean: over };
    proof {
        assert(replicas(m, k as int).len() == m.draws.len());
        assert(m.draws.len() == run.draws@.len());
        assert forall|i: int| 0 <= i < replicas(m, k as int).len() implies statistic_gives(
            moments,
            kind,
            replicas(m, k as int)[i],
            #[trigger] f.replicated[i],
        ) by {
            assert(f.replicated[i] == optional_number(drawn@[i]));
        }
    }
    let mut out: Fields = Fields::new();
    out.put_text("site", site.name.as_str());
    out.put_text("stochastic_site", site.stochastic_site.as_str());
    out.put_text("statistic", kind.as_str());
    out.put("shape", shape_value(site.shape.as_slice()));
    let count: usize = site.integer_by_coordinate.len();
    assert(cells(site.shape@) == count);
    out.put("coordinate_order", coordinate_order_value(site.shape.as_slice()));
    out.put("summary", summary);
    assert(out@ =~= check_entries(m.sites[k as int], kind, f));
    (out.done(), Ghost(f))
}

fn check_site<
    A: Arithmetic,
    M: Fn(&Vec<Number>) -> Number,
    D: Fn(&Vec<Number>) -> Number,
>(
    ops: &A,
    data: &Vec<(String, DataValue)>,
    run: &PosteriorPredictiveRun,
    k: usize,
    mean: &M,
    sd: &D,
) -> (r: Result<Vec<Value>, Error>)
    requires
        ops.reliable(),
        k < run.sites@.len(),
        complete(run@.run),
        sound_records(run@.run.sites),
        all_filled(data_views(data@)),
        forall|v: &Vec<Number>| #[trigger] call_requires(*mean, (v,)),
        forall|v: &Vec<Number>| #[trigger] call_requires(*sd, (v,)),
    ensures
        site_checked(
            ops,
            moments_of(*mean, *sd),
            data_views(data@),
            run@.run,
            k as int,
            values_outcome(r),
        ),
{
    broadcast use group_json_views;

    let ghost m = run@.run;
    let ghost moments = moments_of(*mean, *sd);
    let site: &PriorPredictiveSite = &run.sites[k];
    let ghost record = m.sites[k as int];
    assert(record == site@);
    let observed: &DataValue = match find_data(data, site.name.as_str()) {
        None => {
            return Err(
                shape_mismatch(
                    text::cat3(
                        "posterior-check missing observed data value \"",
                        site.name.as_str(),
                        "\"",
                    ),
                ),
            );
        },
        Some(observed) => observed,
    };
    let base: Tensor = Tensor {
        shape: copy_shape(&observed.shape),
        values: copy_numbers(&observed.values),
    };
    let spread: Result<Tensor, Error> = ops.spread(&base, &site.shape);
    let ghost reply = outcome(spread);
    assert(ops.spread_gives(
        TensorModel { shape: observed@.shape, values: observed@.values },
        record.shape,
        reply,
    ));
    let tensor: Tensor = match spread {
        Err(_) => {
            return Err(
                shape_mismatch(
                    text::cat6(
                        "posterior-check observed data value \"",
                        site.name.as_str(),
                        "\" cannot broadcast from shape ",
                        text::numbers(observed.shape.as_slice()).as_str(),
                        " to posterior-predictive site shape ",
                        text::numbers(site.shape.as_slice()).as_str(),
                    ),
                ),
            );
        },
        Ok(tensor) => tensor,
    };
    let kinds: Vec<Statistic> = statistic_kinds(site.integer);
    let mut checks: Vec<Value> = Vec::new();
    let ghost mut found: Seq<Findings> = Seq::empty();
    let mut j: usize = 0;
    while j < kinds.len()
        invariant
            j <= kinds.len(),
            checks.len() == j,
            found.len() == j,
            k < run.sites@.len(),
            m == run@.run,
            complete(m),
            sound_records(m.sites),
            record == m.sites[k as int],
            moments == moments_of(*mean, *sd),
            kinds@ == kinds_of(record.integer),
            forall|v: &Vec<Number>| #[trigger] call_requires(*mean, (v,)),
            forall|v: &Vec<Number>| #[trigger] call_requires(*sd, (v,)),
            forall|i: int|
                0 <= i < j ==> finds(
                    moments,
                    kinds@[i],
                    tensor@.values,
                    replicas(m, k as int),
                    #[trigger] found[i],
                ),
            forall|i: int|
                0 <= i < j ==> (#[trigger] checks@[i])@ == Json::Object(
                    check_entries(record, kinds@[i], found[i]),
                ),
        decreases kinds.len() - j,
    {
        let made: (Value, Ghost<Findings>) = check_value(
            run,
            k,
            kinds[j],
            &tensor.values,
            mean,
            sd,
        );
        let ghost f = made.1@;
        checks.push(made.0);
        proof {
            found = found.push(f);
        }
        j += 1;
    }
    proof {
        assert(site_findings(moments, record, tensor@.values, replicas(m, k as int), found));
        assert(items_view(checks@) =~= site_checks(record, found));
        assert(spread_checked(
            moments,
            m,
            k as int,
            observed@,
            reply,
            Ok(items_view(checks@)),
        ));
    }
    Ok(checks)
}

/// The fields of a report.
pub open spec fn report_entries(m: RunModel, seed: u64, checks: Seq<Json>) -> Seq<
    (Seq<char>, Json),
> {
    seq![
        ("posterior_check_format"@, Json::Str(V0_PROVISIONAL@)),
        ("workflow_format"@, Json::Str(WORKFLOW_FORMAT@)),
        ("report_kind"@, Json::Str("posterior_predictive_check_facts"@)),
        ("report_scope"@, Json::Str("observed_data_vs_posterior_predictive_replicates"@)),
        ("seed"@, Json::Int(seed as i64)),
        ("posterior_predictive_draws"@, Json::Int(m.draws.len() as i64)),
        (
            "posterior_predictive_draws_artifact_kind"@,
            Json::Str("posterior_predictive_draws"@),
        ),
        (
            "posterior_predictive_draws_artifact_scope"@,
            Json::Str("observed_data_conditioned_replicated_observed_data_draws"@),
        ),
        ("site_count"@, Json::Int(m.sites.len() as i64)),
        ("site_order"@, site_order(m.sites)),
        ("checks"@, Json::Array(checks)),
    ]
}

/// The text of a report.
pub open spec fn report_text(m: RunModel, seed: u64, checks: Result<Seq<Json>, Fault>) -> Result<
    Seq<char>,
    Fault,
> {
    match checks {
        Err(fault) => Err(fault),
        Ok(found) => rendered(Json::Object(report_entries(m, seed, found))),
    }
}

/// Whether a report on a run can come to that.
pub open spec fn run_reported<A: Arithmetic>(
    ops: &A,
    moments: Moments,
    data: Seq<(Seq<char>, DataModel)>,
    m: RunModel,
    seed: u64,
    out: Result<Seq<char>, Fault>,
) -> bool {
    exists|checks: Result<Seq<Json>, Fault>| #[trigger]
        run_checked(ops, moments, data, m, m.sites.len(), checks) && out == report_text(
            m,
            seed,
            checks,
        )
}

/// A report on a posterior-predictive run.
pub fn report_on_run<A: Arithmetic, M: Fn(&Vec<Number>) -> Number, D: Fn(&Vec<Number>) -> Number>(
    ops: &A,
    data: &Vec<(String, DataValue)>,
    run: &PosteriorPredictiveRun,
    seed: u64,
    mean: &M,
    sd: &D,
) -> (r: Result<String, Error>)
    requires
        ops.reliable(),
        complete(run@.run),
        sound_records(run@.run.sites),
        all_filled(data_views(data@)),
        forall|v: &Vec<Number>| #[trigger] call_requires(*mean, (v,)),
        forall|v: &Vec<Number>| #[trigger] call_requires(*sd, (v,)),
    ensures
        run_reported(
            ops,
            moments_of(*mean, *sd),
            data_views(data@),
            run@.run,
            seed,
            line_outcome(r),
        ),
{
    broadcast use group_json_views;

    let ghost m = run@.run;
    let ghost moments = moments_of(*mean, *sd);
    let ghost all = data_views(data@);
    let ghost count = m.sites.len();
    assert(count == run.sites@.len());
    let mut checks: Vec<Value> = Vec::new();
    assert(items_view(checks@) =~= Seq::empty());
    let mut k: usize = 0;
    while k < run.sites.len()
        invariant
            k <= run.sites.len(),
            ops.reliable(),
            m == run@.run,
            count == m.sites.len(),
            count == run.sites@.len(),
            complete(m),
            sound_records(m.sites),
            all == data_views(data@),
            all_filled(all),
            moments == moments_of(*mean, *sd),
            forall|v: &Vec<Number>| #[trigger] call_requires(*mean, (v,)),
            forall|v: &Vec<Number>| #[trigger] call_requires(*sd, (v,)),
            run_checked(ops, moments, all, m, k as nat, Ok(items_view(checks@))),
        decreases run.sites.len() - k,
    {
        broadcast use group_json_views;

        let ghost n = (k + 1) as nat;
        let ghost before = items_view(checks@);
        let made: Result<Vec<Value>, Error> = check_site(ops, data, run, k, mean, sd);
        let ghost item = values_outcome(made);
        match made {
            Err(error) => {
                proof {
                    let out = Err::<Seq<Json>, Fault>(error@);
                    lemma_checked_step(ops, moments, all, m, n, before, item, out);
                    lemma_checked_fail(ops, moments, all, m, n, count, out);
                }
                return Err(error);
            },
            Ok(more) => {
                let ghost added = more@;
                let ghost old_items = checks@;
                let mut rest: Vec<Value> = more;
                checks.append(&mut rest);
                proof {
                    assert(items_view(checks@) =~= items_view(old_items) + items_view(added));
                    lemma_checked_step(
                        ops,
                        moments,
                        all,
                        m,
                        n,
                        before,
                        item,
                        Ok(items_view(checks@)),
                    );
                }
            },
        }
        k += 1;
    }
    let ghost listed = items_view(checks@);
    assert(m.draws.len() == run.draws@.len());
    let identity: ArtifactIdentity = ArtifactIdentity::posterior_predictive_draws();
    let mut out: Fields = Fields::new();
    out.put_text("posterior_check_format", V0_PROVISIONAL);
    out.put_text("workflow_format", WORKFLOW_FORMAT);
    out.put_text("report_kind", "posterior_predictive_check_facts");
    out.put_text("report_scope", "observed_data_vs_posterior_predictive_replicates");
    out.put_int("seed", seed as i64);
    out.put_int("posterior_predictive_draws", run.draws.len() as i64);
    out.put_text("posterior_predictive_draws_artifact_kind", identity.kind);
    out.put_text("posterior_predictive_draws_artifact_scope", identity.scope);
    out.put_int("site_count", run.sites.len() as i64);
    out.put("site_order", site_order_to_value(&run.sites));
    out.put("checks", Value::Array(checks));
    assert(out@ == report_entries(m, seed, listed));
    let report: Value = out.done();
    render(&report)
}

/// The report that a simulation comes to.
pub open spec fn report_output<A: Arithmetic>(
    ops: &A,
    moments: Moments,
    data: Seq<(Seq<char>, DataModel)>,
    run: Result<ReplicaModel, Fault>,
    seed: u64,
    out: Result<Seq<char>, Fault>,
) -> bool {
    match run {
        Err(fault) => out == Err::<Seq<char>, Fault>(fault),
        Ok(found) => run_reported(ops, moments, data, found.run, seed, out),
    }
}

/// Whether a posterior check can come to that report.
pub open spec fn posterior_checked<A: Arithmetic, N: Randomness>(
    ops: &A,
    rand: &N,
    reading: spec_fn(Seq<char>, Result<Json, Fault>) -> bool,
    moments: Moments,
    inputs: ReplicaInputs,
    seed: u64,
    out: Result<Seq<char>, Fault>,
) -> bool {
    match repeated_from(bound_names(inputs.data), 0) {
        Some(name) => out == Err::<Seq<char>, Fault>(
            shape_fault("duplicate data value \""@ + name + "\""@),
        ),
        None => exists|run: Result<ReplicaModel, Fault>| #[trigger]
            posterior_replicated(ops, rand, reading, inputs, seed, run) && report_output(
                ops,
                moments,
                inputs.data,
                run,
                seed,
                out,
            ),
    }
}

/// Simulates replicates of the observed data and reports how the two compare.
pub fn posterior_check_report_with_model_data_fingerprint<
    'a,
    A: Arithmetic,
    N: Randomness,
    R: Fn(&str) -> Result<Value, Error>,
    M: Fn(&Vec<Number>) -> Number,
    D: Fn(&Vec<Number>) -> Number,
>(
    inputs: &PosteriorInputs<'a>,
    seed: u64,
    ops: &A,
    rand: &N,
    read_json: &R,
    mean: &M,
    sd: &D,
) -> (r: Result<String, Error>)
    requires
        ops.reliable(),
        rand.ready(),
        all_filled(data_views(inputs.data@)),
        forall|s: &str| #[trigger] call_requires(*read_json, (s,)),
        forall|v: &Vec<Number>| #[trigger] call_requires(*mean, (v,)),
        forall|v: &Vec<Number>| #[trigger] call_requires(*sd, (v,)),
    ensures
        posterior_checked(
            ops,
            rand,
            |s: Seq<char>, v: Result<Json, Fault>| reads(*read_json, s, v),
            moments_of(*mean, *sd),
            inputs@,
            seed,
            line_outcome(r),
        ),
{
    let ghost reading = |s: Seq<char>, v: Result<Json, Fault>| reads(*read_json, s, v);
    check_repeated(inputs.data)?;
    let run: Result<PosteriorPredictiveRun, Error> =
        simulate_posterior_predictive_with_model_data_fingerprint(
        inputs,
        seed,
        ops,
        rand,
        read_json,
    );
    let ghost kept = outcome(run);
    assert(posterior_replicated(ops, rand, reading, inputs@, seed, kept));
    match run {
        Err(error) => {
            assert(report_output(
                ops,
                moments_of(*mean, *sd),
                inputs@.data,
                kept,
                seed,
                Err(error@),
            ));
            Err(error)
        },
        Ok(found) => {
            proof {
                law_every_replica_has_the_recorded_sites(
                    ops,
                    rand,
                    reading,
                    inputs@,
                    seed,
                    found@,
                );
            }
            let out: Result<String, Error> = report_on_run(ops, inputs.data, &found, seed, mean, sd);
            assert(report_output(
                ops,
                moments_of(*mean, *sd),
                inputs@.data,
                kept,
                seed,
                line_outcome(out),
            ));
            out
        },
    }
}

/// A posterior check with no fingerprint to hold the fit to.
pub fn posterior_check_report<
    A: Arithmetic,
    N: Randomness,
    R: Fn(&str) -> Result<Value, Error>,
    M: Fn(&Vec<Number>) -> Number,
    D: Fn(&Vec<Number>) -> Number,
>(
    meta: &ModelMeta,
    model_text: &str,
    data: &Vec<(String, DataValue)>,
    fit_ndjson: &str,
    seed: u64,
    ops: &A,
    rand: &N,
    read_json: &R,
    mean: &M,
    sd: &D,
) -> (r: Result<String, Error>)
    requires
        ops.reliable(),
        rand.ready(),
        all_filled(data_views(data@)),
        forall|s: &str| #[trigger] call_requires(*read_json, (s,)),
        forall|v: &Vec<Number>| #[trigger] call_requires(*mean, (v,)),
        forall|v: &Vec<Number>| #[trigger] call_requires(*sd, (v,)),
    ensures
        posterior_checked(
            ops,
            rand,
            |s: Seq<char>, v: Result<Json, Fault>| reads(*read_json, s, v),
            moments_of(*mean, *sd),
            (ReplicaInputs {
                meta: meta@,
                model_text: model_text@,
                data: data_views(data@),
                fit: fit_ndjson@,
                fingerprint: None,
            }),
            seed,
            line_outcome(r),
        ),
{
    let inputs: PosteriorInputs = PosteriorInputs {
        meta,
        model_text,
        data,
        fit_ndjson,
        expected_model_data_fingerprint: None,
    };
    posterior_check_report_with_model_data_fingerprint(
        &inputs,
        seed,
        ops,
        rand,
        read_json,
        mean,
        sd,
    )
}

} // verus!
