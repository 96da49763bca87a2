//! Prior-predictive simulation: complete draws of all sites, in the order of the model.

use vstd::prelude::*;

use crate::bounds::ResolvedConstraint;
use crate::data::DataValue;
#[allow(unused_imports)]
use crate::data::{data_views, DataModel};
use crate::error::{invalid_settings, malformed, shape_mismatch, Error};
#[allow(unused_imports)]
use crate::error::{malformed_fault, outcome, settings_fault, shape_fault, Fault};
use crate::ir::{Expr, ModelMeta, ResolvedStochasticSite};
#[allow(unused_imports)]
use crate::ir::{list_views, named_views, resolved_sites, ExprModel, MetaModel, SiteModel};
#[allow(unused_imports)]
use crate::model::{all_filled, data_named};
use crate::numerics::{Arithmetic, Randomness};
use crate::tensor::Tensor;
#[allow(unused_imports)]
use crate::tensor::{full, TensorModel};
use crate::text;

use super::forward::ForwardEnv;
#[allow(unused_imports)]
use super::forward::{env_full, last_named, EnvModel};
use super::inventory::validate_prior_predictive_site_inventory;
#[allow(unused_imports)]
use super::inventory::inventory_fault;
use super::partial::{Partial, Step};
#[allow(unused_imports)]
use super::partial::{partial_drawn, step_outcome, PartialModel, StepModel};
use super::records::{
    check_records, record_of, PriorPredictiveDraw, PriorPredictiveRole, PriorPredictiveRun, PriorPredictiveSettings,
    PriorPredictiveSite,
};
#[allow(unused_imports)]
use super::records::{records_fault, sound_records, value_record, RecordModel, RunModel};
use super::restricted::sample_constrained_distribution;
#[allow(unused_imports)]
use super::restricted::{constrained_sampled, MAX_TRIES};
use super::sampling::sample_distribution;
#[allow(unused_imports)]
use super::sampling::{sample_outcome, sampled};
use super::setup::{bind_declared_data, find_spec, free_specs, FreeSpec};
#[allow(unused_imports)]
use super::setup::{declared_fault, specs_laid, specs_outcome, FreeSpecModel};

verus! {

/// The step of a value that later sites see under the name it is reported by.
pub open spec fn plain_step<S>(
    name: Seq<char>,
    site: Seq<char>,
    role: PriorPredictiveRole,
    draw: Result<(TensorModel, S), Fault>,
) -> Result<(StepModel, S), Fault> {
    match draw {
        Err(fault) => Err(fault),
        Ok((value, after)) => Ok(
            (
                StepModel {
                    record: value_record(name, site, role, value),
                    value,
                    name,
                    given: value,
                },
                after,
            ),
        ),
    }
}

/// The failure of a site that targets no free value.
pub open spec fn unknown_target(site: Seq<char>, name: Seq<char>) -> Fault {
    malformed_fault(
        "stochastic site \""@ + site + "\" targets unknown free value \""@ + name + "\""@,
    )
}

/// Whether drawing a parameter can come to that.
pub open spec fn param_drawn<A: Arithmetic, N: Randomness>(
    ops: &A,
    rand: &N,
    env: EnvModel,
    site: SiteModel,
    name: Seq<char>,
    spec: Option<FreeSpecModel>,
    source: N::Source,
    out: Result<(StepModel, N::Source), Fault>,
) -> bool {
    match spec {
        None => out == Err::<(StepModel, N::Source), Fault>(unknown_target(site.name, name)),
        Some(free) => if free.constraint is Some && free.constraint->0 is VectorBounds {
            out == Err::<(StepModel, N::Source), Fault>(
                settings_fault(
                    "VectorBounds prior simulation is not implemented for direct free value \""@
                        + name + "\"; use a PartiallyObserved VectorScatter site"@,
                ),
            )
        } else {
            exists|draw: Result<(TensorModel, N::Source), Fault>| #[trigger]
                constrained_sampled(
                    ops,
                    rand,
                    env,
                    site.distribution,
                    free.shape,
                    free.constraint,
                    name,
                    MAX_TRIES as nat,
                    source,
                    draw,
                ) && out == plain_step(name, site.name, PriorPredictiveRole::Parameter, draw)
        },
    }
}

/// Whether drawing observed data can come to that.
pub open spec fn data_drawn<A: Arithmetic, N: Randomness>(
    ops: &A,
    rand: &N,
    env: EnvModel,
    site: SiteModel,
    name: Seq<char>,
    source: N::Source,
    out: Result<(StepModel, N::Source), Fault>,
) -> bool {
    if data_named(env.data, name) is Some {
        out == Err::<(StepModel, N::Source), Fault>(
            shape_fault(
                "prior-predictive site \""@ + site.name + "\" writes observed value \""@ + name
                    + "\", but data already binds it; remove observed values from the data document"@,
            ),
        )
    } else {
        exists|draw: Result<(TensorModel, N::Source), Fault>| #[trigger]
            sampled(ops, rand, env, site.distribution, None, source, draw) && out == plain_step(
                name,
                site.name,
                PriorPredictiveRole::Observed,
                draw,
            )
    }
}

/// Whether drawing a vector with missing entries can come to that.
pub open spec fn scatter_drawn<A: Arithmetic, N: Randomness>(
    ops: &A,
    rand: &N,
    specs: Seq<(Seq<char>, FreeSpecModel)>,
    env: EnvModel,
    site: SiteModel,
    length: ExprModel,
    missing_idx: ExprModel,
    missing_values: ExprModel,
    source: N::Source,
    out: Result<(StepModel, N::Source), Fault>,
) -> bool {
    match missing_values {
        ExprModel::Param(free_name) => match last_named(specs, free_name) {
            None => out == Err::<(StepModel, N::Source), Fault>(
                unknown_target(site.name, free_name),
            ),
            Some(spec) => partial_drawn(
                ops,
                rand,
                env,
                PartialModel {
                    site: site.name,
                    distribution: site.distribution,
                    free_name,
                    spec,
                },
                length,
                missing_idx,
                source,
                out,
            ),
        },
        _ => out == Err::<(StepModel, N::Source), Fault>(
            settings_fault(
                "prior-predictive PartiallyObserved site \""@ + site.name
                    + "\" must use a ParamRef for missing_values"@,
            ),
        ),
    }
}

/// Whether drawing a site can come to that.
pub open spec fn site_drawn<A: Arithmetic, N: Randomness>(
    ops: &A,
    rand: &N,
    specs: Seq<(Seq<char>, FreeSpecModel)>,
    env: EnvModel,
    site: SiteModel,
    source: N::Source,
    out: Result<(StepModel, N::Source), Fault>,
) -> bool {
    match site.value {
        ExprModel::Param(name) => param_drawn(
            ops,
            rand,
            env,
            site,
            name,
            last_named(specs, name),
            source,
            out,
        ),
        ExprModel::Data(name) => data_drawn(ops, rand, env, site, name, source, out),
        ExprModel::VectorScatter {
            length,
            observed_idx,
            observed_values,
            missing_idx,
            missing_values,
        } => scatter_drawn(
            ops,
            rand,
            specs,
            env,
            site,
            *length,
            *missing_idx,
            *missing_values,
            source,
            out,
        ),
        _ => out == Err::<(StepModel, N::Source), Fault>(
            settings_fault(
                "prior-predictive site \""@ + site.name
                    + "\" has a non-assignable value expression; only ParamRef, DataRef, and PartiallyObserved VectorScatter sites are supported in v0-provisional output"@,
            ),
        ),
    }
}

/// What the sites of a draw came to: what later sites see, what is reported, and the records.
#[verifier::ext_equal]
pub struct RowModel {
    pub seen: Seq<(Seq<char>, TensorModel)>,
    pub values: Seq<(Seq<char>, TensorModel)>,
    pub records: Seq<RecordModel>,
}

/// A row with one more site behind it.
pub open spec fn row_extended<S>(
    before: (RowModel, S),
    item: Result<(StepModel, S), Fault>,
    out: Result<(RowModel, S), Fault>,
) -> bool {
    out == (match item {
        Err(fault) => Err::<(RowModel, S), Fault>(fault),
        Ok((step, after)) => Ok(
            (
                RowModel {
                    seen: before.0.seen.push((step.name, step.given)),
                    values: before.0.values.push((step.record.name, step.value)),
                    records: before.0.records.push(step.record),
                },
                after,
            ),
        ),
    })
}

/// A row without sites.
pub open spec fn empty_row() -> RowModel {
    RowModel { seen: Seq::empty(), values: Seq::empty(), records: Seq::empty() }
}

/// Whether drawing all sites once can come to that.
pub open spec fn row_drawn<A: Arithmetic, N: Randomness>(
    ops: &A,
    rand: &N,
    specs: Seq<(Seq<char>, FreeSpecModel)>,
    data: Seq<(Seq<char>, DataModel)>,
    sites: Seq<SiteModel>,
    source: N::Source,
    out: Result<(RowModel, N::Source), Fault>,
) -> bool
    decreases sites.len(),
{
    if sites.len() == 0 {
        out == Ok::<(RowModel, N::Source), Fault>((empty_row(), source))
    } else {
        ||| out is Err && row_drawn(ops, rand, specs, data, sites.drop_last(), source, out)
        ||| exists|before: (RowModel, N::Source), item: Result<(StepModel, N::Source), Fault>|
            #[trigger] row_extended(before, item, out) && row_drawn(
                ops,
                rand,
                specs,
                data,
                sites.drop_last(),
                source,
                Ok(before),
            ) && site_drawn(
                ops,
                rand,
                specs,
                EnvModel { values: before.0.seen, data },
                sites.last(),
                before.1,
                item,
            )
    }
}

/// A run with one more draw behind it, which must have the sites of the first one.
pub open spec fn run_extended<S>(
    before: (RunModel, S),
    row: Result<(RowModel, S), Fault>,
    kind: Seq<char>,
    out: Result<(RunModel, S), Fault>,
) -> bool {
    out == (match row {
        Err(fault) => Err::<(RunModel, S), Fault>(fault),
        Ok((drawn, after)) => if before.0.draws.len() == 0 {
            Ok((RunModel { sites: drawn.records, draws: seq![drawn.values] }, after))
        } else {
            match records_fault(before.0.sites, drawn.records, kind) {
                Some(fault) => Err(fault),
                None => Ok(
                    (
                        RunModel {
                            sites: before.0.sites,
                            draws: before.0.draws.push(drawn.values),
                        },
                        after,
                    ),
                ),
            }
        },
    })
}

/// A prior-predictive run with one more draw behind it.
pub open spec fn prior_extended<S>(
    before: (RunModel, S),
    row: Result<(RowModel, S), Fault>,
    out: Result<(RunModel, S), Fault>,
) -> bool {
    run_extended(before, row, "prior-predictive"@, out)
}

/// Whether a number of draws can come to that.
pub open spec fn rows_drawn<A: Arithmetic, N: Randomness>(
    ops: &A,
    rand: &N,
    specs: Seq<(Seq<char>, FreeSpecModel)>,
    data: Seq<(Seq<char>, DataModel)>,
    sites: Seq<SiteModel>,
    n: nat,
    source: N::Source,
    out: Result<(RunModel, N::Source), Fault>,
) -> bool
    decreases n,
{
    if n == 0 {
        out == Ok::<(RunModel, N::Source), Fault>(
            (RunModel { sites: Seq::empty(), draws: Seq::empty() }, source),
        )
    } else {
        ||| out is Err && rows_drawn(ops, rand, specs, data, sites, (n - 1) as nat, source, out)
        ||| exists|before: (RunModel, N::Source), row: Result<(RowModel, N::Source), Fault>|
            #[trigger] prior_extended(before, row, out) && rows_drawn(
                ops,
                rand,
                specs,
                data,
                sites,
                (n - 1) as nat,
                source,
                Ok(before),
            ) && row_drawn(ops, rand, specs, data, sites, before.1, row)
    }
}

/// A run without the source behind it.
pub open spec fn run_of<S>(end: Result<(RunModel, S), Fault>) -> Result<RunModel, Fault> {
    match end {
        Err(fault) => Err(fault),
        Ok((run, _)) => Ok(run),
    }
}

/// Whether the draws from a source can come to that run.
pub open spec fn source_simulated<A: Arithmetic, N: Randomness>(
    ops: &A,
    rand: &N,
    specs: Seq<(Seq<char>, FreeSpecModel)>,
    data: Seq<(Seq<char>, DataModel)>,
    sites: Seq<SiteModel>,
    n: nat,
    source: N::Source,
    out: Result<RunModel, Fault>,
) -> bool {
    exists|end: Result<(RunModel, N::Source), Fault>| #[trigger]
        rows_drawn(ops, rand, specs, data, sites, n, source, end) && out == run_of(end)
}

/// Whether a simulation can come to that run, by what the layout of free values came to.
pub open spec fn laid_simulated<A: Arithmetic, N: Randomness>(
    ops: &A,
    rand: &N,
    m: MetaModel,
    data: Seq<(Seq<char>, DataModel)>,
    n: nat,
    seed: u64,
    specs: Result<Seq<(Seq<char>, FreeSpecModel)>, Fault>,
    out: Result<RunModel, Fault>,
) -> bool {
    match specs {
        Err(fault) => out == Err::<RunModel, Fault>(fault),
        Ok(laid) => match inventory_fault(m, resolved_sites(m)) {
            Some(fault) => out == Err::<RunModel, Fault>(fault),
            None => exists|source: N::Source| #[trigger]
                rand.start_gives(seed, source) && source_simulated(
                    ops,
                    rand,
                    laid,
                    data,
                    resolved_sites(m),
                    n,
                    source,
                    out,
                ),
        },
    }
}

/// Whether a prior-predictive simulation can come to that run.
pub open spec fn prior_simulated<A: Arithmetic, N: Randomness>(
    ops: &A,
    rand: &N,
    m: MetaModel,
    data: Seq<(Seq<char>, DataModel)>,
    n: nat,
    seed: u64,
    out: Result<RunModel, Fault>,
) -> bool {
    if n == 0 {
        out == Err::<RunModel, Fault>(
            settings_fault("prior-predictive settings.num_draws must be at least 1"@),
        )
    } else {
        match declared_fault(m, data) {
            Some(fault) => out == Err::<RunModel, Fault>(fault),
            None => exists|specs: Result<Seq<(Seq<char>, FreeSpecModel)>, Fault>| #[trigger]
                specs_laid(ops, m, data, specs) && laid_simulated(
                    ops,
                    rand,
                    m,
                    data,
                    n,
                    seed,
                    specs,
                    out,
                ),
        }
    }
}

/// The failure of a site that targets no free value.
pub fn target_error(site: &str, name: &str) -> (r: Error)
    ensures
        r@ == unknown_target(site@, name@),
{
    malformed(
        text::cat5("stochastic site \"", site, "\" targets unknown free value \"", name, "\""),
    )
}

fn step_of(name: &str, site: &str, role: PriorPredictiveRole, value: Tensor) -> (r: Step)
    ensures
        r@ == (StepModel {
            record: value_record(name@, site@, role, value@),
            value: value@,
            name: name@,
            given: value@,
        }),
{
    Step {
        record: record_of(name, site, role, &value),
        given: value.copy(),
        value,
        name: name.to_owned(),
    }
}

fn draw_param<A: Arithmetic, N: Randomness>(
    ops: &A,
    rand: &N,
    specs: &Vec<(String, FreeSpec)>,
    env: &ForwardEnv,
    site: &ResolvedStochasticSite,
    name: &str,
    source: N::Source,
) -> (r: Result<(Step, N::Source), Error>)
    requires
        ops.reliable(),
        rand.ready(),
        env_full(env@),
    ensures
        param_drawn(
            ops,
            rand,
            env@,
            site@,
            name@,
            last_named(named_views(specs@), name@),
            source,
            step_outcome(r),
        ),
        r is Ok ==> full(r->Ok_0.0@.value) && full(r->Ok_0.0@.given),
{
    let free: &FreeSpec = match find_spec(specs, name) {
        None => {
            return Err(target_error(site.name.as_str(), name));
        },
        Some(free) => free,
    };
    if let Some(ResolvedConstraint::VectorBounds { .. }) = &free.constraint {
        return Err(
            invalid_settings(
                text::cat3(
                    "VectorBounds prior simulation is not implemented for direct free value \"",
                    name,
                    "\"; use a PartiallyObserved VectorScatter site",
                ),
            ),
        );
    }
    let ghost begin = source;
    let draw: Result<(Tensor, N::Source), Error> = sample_constrained_distribution(
        ops,
        rand,
        env,
        &site.distribution,
        &free.shape,
        &free.constraint,
        name,
        source,
    );
    assert(constrained_sampled(
        ops,
        rand,
        env@,
        site@.distribution,
        free@.shape,
        free@.constraint,
        name@,
        MAX_TRIES as nat,
        begin,
        sample_outcome(draw),
    ));
    match draw {
        Err(error) => Err(error),
        Ok((value, after)) => Ok(
            (step_of(name, site.name.as_str(), PriorPredictiveRole::Parameter, value), after),
        ),
    }
}

fn draw_data<A: Arithmetic, N: Randomness>(
    ops: &A,
    rand: &N,
    env: &ForwardEnv,
    site: &ResolvedStochasticSite,
    name: &str,
    source: N::Source,
) -> (r: Result<(Step, N::Source), Error>)
    requires
        ops.reliable(),
        rand.ready(),
        env_full(env@),
    ensures
        data_drawn(ops, rand, env@, site@, name@, source, step_outcome(r)),
        r is Ok ==> full(r->Ok_0.0@.value) && full(r->Ok_0.0@.given),
{
    if env.has_data(name) {
        return Err(
            shape_mismatch(
                text::cat5(
                    "prior-predictive site \"",
                    site.name.as_str(),
                    "\" writes observed value \"",
                    name,
                    "\", but data already binds it; remove observed values from the data document",
                ),
            ),
        );
    }
    let ghost begin = source;
    let draw: Result<(Tensor, N::Source), Error> = sample_distribution(
        ops,
        rand,
        env,
        &site.distribution,
        None,
        source,
    );
    assert(sampled(ops, rand, env@, site@.distribution, None, begin, sample_outcome(draw)));
    match draw {
        Err(error) => Err(error),
        Ok((value, after)) => Ok(
            (step_of(name, site.name.as_str(), PriorPredictiveRole::Observed, value), after),
        ),
    }
}

fn draw_scatter<A: Arithmetic, N: Randomness>(
    ops: &A,
    rand: &N,
    specs: &Vec<(String, FreeSpec)>,
    env: &ForwardEnv,
    site: &ResolvedStochasticSite,
    length: &Expr,
    missing_idx: &Expr,
    missing_values: &Expr,
    source: N::Source,
) -> (r: Result<(Step, N::Source), Error>)
    requires
        ops.reliable(),
        rand.ready(),
        env_full(env@),
    ensures
        scatter_drawn(
            ops,
            rand,
            named_views(specs@),
            env@,
            site@,
            length@,
            missing_idx@,
            missing_values@,
            source,
            step_outcome(r),
        ),
        r is Ok ==> full(r->Ok_0.0@.value) && full(r->Ok_0.0@.given),
{
    match missing_values {
        Expr::Param(free_name) => match find_spec(specs, free_name.as_str()) {
            None => Err(target_error(site.name.as_str(), free_name.as_str())),
            Some(spec) => {
                let partial: Partial = Partial {
                    site: site.name.as_str(),
                    distribution: &site.distribution,
                    free_name: free_name.as_str(),
                    spec,
                };
                partial.draw(ops, rand, env, length, missing_idx, source)
            },
        },
        _ => Err(
            invalid_settings(
                text::cat3(
                    "prior-predictive PartiallyObserved site \"",
                    site.name.as_str(),
                    "\" must use a ParamRef for missing_values",
                ),
            ),
        ),
    }
}

fn draw_site<A: Arithmetic, N: Randomness>(
    ops: &A,
    rand: &N,
    specs: &Vec<(String, FreeSpec)>,
    env: &ForwardEnv,
    site: &ResolvedStochasticSite,
    source: N::Source,
) -> (r: Result<(Step, N::Source), Error>)
    requires
        ops.reliable(),
        rand.ready(),
        env_full(env@),
    ensures
        site_drawn(ops, rand, named_views(specs@), env@, site@, source, step_outcome(r)),
        r is Ok ==> full(r->Ok_0.0@.value) && full(r->Ok_0.0@.given),
{
    match &site.value {
        Expr::Param(name) => draw_param(ops, rand, specs, env, site, name.as_str(), source),
        Expr::Data(name) => draw_data(ops, rand, env, site, name.as_str(), source),
        Expr::VectorScatter {
            length,
            observed_idx: _,
            observed_values: _,
            missing_idx,
            missing_values,
        } => draw_scatter(
            ops,
            rand,
            specs,
            env,
            site,
            length,
            missing_idx,
            missing_values,
            source,
        ),
        _ => Err(
            invalid_settings(
                text::cat3(
                    "prior-predictive site \"",
                    site.name.as_str(),
                    "\" has a non-assignable value expression; only ParamRef, DataRef, and PartiallyObserved VectorScatter sites are supported in v0-provisional output",
                ),
            ),
        ),
    }
}

proof fn lemma_row_fail<A: Arithmetic, N: Randomness>(
    ops: &A,
    rand: &N,
    specs: Seq<(Seq<char>, FreeSpecModel)>,
    data: Seq<(Seq<char>, DataModel)>,
    sites: Seq<SiteModel>,
    n: int,
    source: N::Source,
    fault: Fault,
)
    requires
        0 <= n <= sites.len(),
        row_drawn(ops, rand, specs, data, sites.take(n), source, Err(fault)),
    ensures
        row_drawn(ops, rand, specs, data, sites, source, Err(fault)),
    decreases sites.len(),
{
    if n < sites.len() {
        assert(sites.drop_last().take(n) =~= sites.take(n));
        lemma_row_fail(ops, rand, specs, data, sites.drop_last(), n, source, fault);
    } else {
        assert(sites.take(n) =~= sites);
    }
}

/// The values and records of a draw.
struct Row {
    values: Vec<(String, Tensor)>,
    records: Vec<PriorPredictiveSite>,
}

/// The view of a row.
spec fn row_outcome<S>(
    r: Result<(Row, S), Error>,
    seen: Seq<(Seq<char>, TensorModel)>,
) -> Result<(RowModel, S), Fault> {
    match r {
        Ok(found) => Ok(
            (
                RowModel {
                    seen,
                    values: named_views(found.0.values@),
                    records: list_views(found.0.records@),
                },
                found.1,
            ),
        ),
        Err(error) => Err(error@),
    }
}

fn draw_row<A: Arithmetic, N: Randomness>(
    ops: &A,
    rand: &N,
    specs: &Vec<(String, FreeSpec)>,
    env: &mut ForwardEnv,
    sites: &Vec<ResolvedStochasticSite>,
    source: N::Source,
) -> (r: Result<(Row, N::Source), Error>)
    requires
        ops.reliable(),
        rand.ready(),
        env_full(old(env)@),
        old(env)@.values.len() == 0,
    ensures
        final(env)@.data == old(env)@.data,
        row_drawn(
            ops,
            rand,
            named_views(specs@),
            old(env)@.data,
            list_views(sites@),
            source,
            row_outcome(r, final(env)@.values),
        ),
        r is Ok ==> sound_records(list_views(r->Ok_0.0.records@)),
{
    let ghost all = list_views(sites@);
    let ghost laid = named_views(specs@);
    let ghost data = env@.data;
    let ghost start = source;
    let mut now: N::Source = source;
    let mut values: Vec<(String, Tensor)> = Vec::new();
    let mut records: Vec<PriorPredictiveSite> = Vec::new();
    let mut i: usize = 0;
    proof {
        assert(named_views(values@) =~= Seq::empty());
        assert(list_views(records@) =~= Seq::empty());
        assert(env@.values =~= Seq::empty());
        assert(all.take(0) =~= Seq::empty());
    }
    while i < sites.len()
        invariant
            i <= sites.len(),
            ops.reliable(),
            rand.ready(),
            all == list_views(sites@),
            laid == named_views(specs@),
            data == old(env)@.data,
            start == source,
            env@.data == data,
            env_full(env@),
            sound_records(list_views(records@)),
            row_drawn(
                ops,
                rand,
                laid,
                data,
                all.take(i as int),
                start,
                Ok(
                    (
                        RowModel {
                            seen: env@.values,
                            values: named_views(values@),
                            records: list_views(records@),
                        },
                        now,
                    ),
                ),
            ),
        decreases sites.len() - i,
    {
        let ghost done = all.take(i + 1);
        let ghost before = (
            RowModel {
                seen: env@.values,
                values: named_views(values@),
                records: list_views(records@),
            },
            now,
        );
        proof {
            assert(done.drop_last() =~= all.take(i as int));
            assert(done.last() == sites@[i as int]@);
            assert(env@ =~= (EnvModel { values: before.0.seen, data }));
        }
        let item: Result<(Step, N::Source), Error> = draw_site(
            ops,
            rand,
            specs,
            env,
            &sites[i],
            now,
        );
        let ghost kept = step_outcome(item);
        match item {
            Err(error) => {
                proof {
                    assert(row_extended(before, kept, Err(error@)));
                    assert(row_drawn(ops, rand, laid, data, done, start, Err(error@)));
                    lemma_row_fail(ops, rand, laid, data, all, i + 1, start, error@);
                }
                return Err(error);
            },
            Ok((step, after)) => {
                let ghost content = step@;
                let ghost old_values = values@;
                let ghost old_records = records@;
                let Step { record, value, name, given } = step;
                env.give(name.as_str(), given);
                values.push((record.name.clone(), value));
                records.push(record);
                now = after;
                proof {
                    assert(named_views(values@) =~= named_views(old_values).push(
                        (content.record.name, content.value),
                    ));
                    assert(list_views(records@) =~= list_views(old_records).push(content.record));
                    lemma_step_described(
                        ops,
                        rand,
                        laid,
                        EnvModel { values: before.0.seen, data },
                        done.last(),
                        before.1,
                        kept,
                    );
                    assert(row_extended(
                        before,
                        kept,
                        Ok(
                            (
                                RowModel {
                                    seen: env@.values,
                                    values: named_views(values@),
                                    records: list_views(records@),
                                },
                                now,
                            ),
                        ),
                    ));
                }
            },
        }
        i += 1;
    }
    assert(all.take(i as int) =~= all);
    Ok((Row { values, records }, now))
}

proof fn lemma_rows_fail<A: Arithmetic, N: Randomness>(
    ops: &A,
    rand: &N,
    specs: Seq<(Seq<char>, FreeSpecModel)>,
    data: Seq<(Seq<char>, DataModel)>,
    sites: Seq<SiteModel>,
    m: nat,
    n: nat,
    source: N::Source,
    fault: Fault,
)
    requires
        m <= n,
        rows_drawn(ops, rand, specs, data, sites, m, source, Err(fault)),
    ensures
        rows_drawn(ops, rand, specs, data, sites, n, source, Err(fault)),
    decreases n - m,
{
    if m < n {
        lemma_rows_fail(ops, rand, specs, data, sites, m, (n - 1) as nat, source, fault);
    }
}

/// The view of a run, with the source behind it.
pub open spec fn run_outcome<S>(r: Result<(PriorPredictiveRun, S), Error>) -> Result<
    (RunModel, S),
    Fault,
> {
    match r {
        Ok(found) => Ok((found.0@, found.1)),
        Err(error) => Err(error@),
    }
}

fn draw_rows<A: Arithmetic, N: Randomness>(
    ops: &A,
    rand: &N,
    specs: &Vec<(String, FreeSpec)>,
    data: Vec<(String, DataValue)>,
    sites: &Vec<ResolvedStochasticSite>,
    count: usize,
    source: N::Source,
) -> (r: Result<(PriorPredictiveRun, N::Source), Error>)
    requires
        ops.reliable(),
        rand.ready(),
        all_filled(data_views(data@)),
    ensures
        rows_drawn(
            ops,
            rand,
            named_views(specs@),
            data_views(data@),
            list_views(sites@),
            count as nat,
            source,
            run_outcome(r),
        ),
        r is Ok ==> sound_records(r->Ok_0.0@.sites),
{
    let ghost all = list_views(sites@);
    let ghost laid = named_views(specs@);
    let ghost bound = data_views(data@);
    let ghost start = source;
    let mut now: N::Source = source;
    let mut env: ForwardEnv = ForwardEnv { values: Vec::new(), data };
    let mut run: PriorPredictiveRun = PriorPredictiveRun { sites: Vec::new(), draws: Vec::new() };
    let mut i: usize = 0;
    assert(run@ =~= (RunModel { sites: Seq::empty(), draws: Seq::empty() }));
    while i < count
        invariant
            i <= count,
            ops.reliable(),
            rand.ready(),
            all == list_views(sites@),
            laid == named_views(specs@),
            env@.data == bound,
            bound == data_views(data@),
            start == source,
            all_filled(bound),
            run.draws.len() == i,
            sound_records(run@.sites),
            rows_drawn(ops, rand, laid, bound, all, i as nat, start, Ok((run@, now))),
        decreases count - i,
    {
        let ghost before = (run@, now);
        env.values = Vec::new();
        assert(env@.values.len() == 0);
        let row: Result<(Row, N::Source), Error> = draw_row(ops, rand, specs, &mut env, sites, now);
        let ghost kept = row_outcome(row, env@.values);
        assert(row_drawn(ops, rand, laid, bound, all, before.1, kept));
        let ghost n = (i + 1) as nat;
        match row {
            Err(error) => {
                proof {
                    assert(prior_extended(before, kept, Err(error@)));
                    assert(rows_drawn(ops, rand, laid, bound, all, n, start, Err(error@)));
                    lemma_rows_fail(ops, rand, laid, bound, all, n, count as nat, start, error@);
                }
                return Err(error);
            },
            Ok((row, after)) => {
                assert(before.0.draws.len() == run.draws.len());
                let Row { values, records } = row;
                let ghost reported = named_views(values@);
                let ghost listed = list_views(records@);
                let ghost old_draws = run.draws@;
                if i == 0 {
                    run.sites = records;
                    run.draws.push(PriorPredictiveDraw { values });
                    proof {
                        assert(run@.draws =~= seq![reported]);
                        assert(prior_extended(before, kept, Ok((run@, after))));
                    }
                } else {
                    match check_records(&run.sites, &records, "prior-predictive") {
                        Err(error) => {
                            proof {
                                assert(prior_extended(before, kept, Err(error@)));
                                assert(rows_drawn(
                                    ops,
                                    rand,
                                    laid,
                                    bound,
                                    all,
                                    n,
                                    start,
                                    Err(error@),
                                ));
                                lemma_rows_fail(
                                    ops,
                                    rand,
                                    laid,
                                    bound,
                                    all,
                                    n,
                                    count as nat,
                                    start,
                                    error@,
                                );
                            }
                            return Err(error);
                        },
                        Ok(()) => {
                            run.draws.push(PriorPredictiveDraw { values });
                            proof {
                                assert(run@.draws =~= before.0.draws.push(reported));
                                assert(prior_extended(before, kept, Ok((run@, after))));
                            }
                        },
                    }
                }
                now = after;
            },
        }
        i += 1;
    }
    Ok((run, now))
}

/// Simulates a complete prior-predictive run from a model and its declared data.
pub fn simulate_prior_predictive<A: Arithmetic, N: Randomness>(
    meta: &ModelMeta,
    data: Vec<(String, DataValue)>,
    settings: &PriorPredictiveSettings,
    seed: u64,
    ops: &A,
    rand: &N,
) -> (r: Result<PriorPredictiveRun, Error>)
    requires
        ops.reliable(),
        rand.ready(),
        all_filled(data_views(data@)),
    ensures
        prior_simulated(
            ops,
            rand,
            meta@,
            data_views(data@),
            settings.num_draws as nat,
            seed,
            outcome(r),
        ),
        r is Ok ==> sound_records(r->Ok_0@.sites),
{
    let ghost bound = data_views(data@);
    let ghost n = settings.num_draws as nat;
    if settings.num_draws == 0 {
        return Err(
            invalid_settings("prior-predictive settings.num_draws must be at least 1".to_owned()),
        );
    }
    bind_declared_data(meta, &data)?;
    let laid: Result<Vec<(String, FreeSpec)>, Error> = free_specs(ops, meta, &data);
    let ghost kept = specs_outcome(laid);
    assert(specs_laid(ops, meta@, bound, kept));
    let specs: Vec<(String, FreeSpec)> = match laid {
        Err(error) => {
            assert(laid_simulated(ops, rand, meta@, bound, n, seed, kept, Err(error@)));
            return Err(error);
        },
        Ok(specs) => specs,
    };
    let sites: Vec<ResolvedStochasticSite> = meta.resolved_stochastic_sites();
    if let Err(error) = validate_prior_predictive_site_inventory(meta, &sites) {
        assert(laid_simulated(ops, rand, meta@, bound, n, seed, kept, Err(error@)));
        return Err(error);
    }
    let source: N::Source = rand.start(seed);
    let end: Result<(PriorPredictiveRun, N::Source), Error> = draw_rows(
        ops,
        rand,
        &specs,
        data,
        &sites,
        settings.num_draws,
        source,
    );
    proof {
        assert(rand.start_gives(seed, source));
        assert(rows_drawn(
            ops,
            rand,
            named_views(specs@),
            bound,
            resolved_sites(meta@),
            n,
            source,
            run_outcome(end),
        ));
        assert(source_simulated(
            ops,
            rand,
            named_views(specs@),
            bound,
            resolved_sites(meta@),
            n,
            source,
            run_of(run_outcome(end)),
        ));
        assert(laid_simulated(
            ops,
            rand,
            meta@,
            bound,
            n,
            seed,
            kept,
            run_of(run_outcome(end)),
        ));
    }
    match end {
        Err(error) => Err(error),
        Ok((run, _)) => Ok(run),
    }
}

/// Whether a value is the one that a record describes.
pub open spec fn described(value: (Seq<char>, TensorModel), record: RecordModel) -> bool {
    &&& value.0 == record.name
    &&& value.1.shape == record.shape
    &&& value.1.values.len() == record.flags.len()
}

/// Whether every value is the one that its record describes.
pub open spec fn all_described(
    values: Seq<(Seq<char>, TensorModel)>,
    records: Seq<RecordModel>,
) -> bool {
    &&& values.len() == records.len()
    &&& forall|k: int| 0 <= k < values.len() ==> described(#[trigger] values[k], records[k])
}

proof fn lemma_step_described<A: Arithmetic, N: Randomness>(
    ops: &A,
    rand: &N,
    specs: Seq<(Seq<char>, FreeSpecModel)>,
    env: EnvModel,
    site: SiteModel,
    source: N::Source,
    out: Result<(StepModel, N::Source), Fault>,
)
    requires
        site_drawn(ops, rand, specs, env, site, source, out),
        out is Ok,
    ensures
        described((out->Ok_0.0.record.name, out->Ok_0.0.value), out->Ok_0.0.record),
{
}

proof fn lemma_row_described<A: Arithmetic, N: Randomness>(
    ops: &A,
    rand: &N,
    specs: Seq<(Seq<char>, FreeSpecModel)>,
    data: Seq<(Seq<char>, DataModel)>,
    sites: Seq<SiteModel>,
    source: N::Source,
    out: Result<(RowModel, N::Source), Fault>,
)
    requires
        row_drawn(ops, rand, specs, data, sites, source, out),
        out is Ok,
    ensures
        all_described(out->Ok_0.0.values, out->Ok_0.0.records),
        out->Ok_0.0.records.len() == sites.len(),
    decreases sites.len(),
{
    if sites.len() > 0 {
        let (before, item) = choose|
            before: (RowModel, N::Source),
            item: Result<(StepModel, N::Source), Fault>,
        | #[trigger]
            row_extended(before, item, out) && row_drawn(
                ops,
                rand,
                specs,
                data,
                sites.drop_last(),
                source,
                Ok(before),
            ) && site_drawn(
                ops,
                rand,
                specs,
                EnvModel { values: before.0.seen, data },
                sites.last(),
                before.1,
                item,
            );
        lemma_row_described(ops, rand, specs, data, sites.drop_last(), source, Ok(before));
        lemma_step_described(
            ops,
            rand,
            specs,
            EnvModel { values: before.0.seen, data },
            sites.last(),
            before.1,
            item,
        );
    }
}

proof fn lemma_rows_described<A: Arithmetic, N: Randomness>(
    ops: &A,
    rand: &N,
    specs: Seq<(Seq<char>, FreeSpecModel)>,
    data: Seq<(Seq<char>, DataModel)>,
    sites: Seq<SiteModel>,
    n: nat,
    source: N::Source,
    out: Result<(RunModel, N::Source), Fault>,
)
    requires
        rows_drawn(ops, rand, specs, data, sites, n, source, out),
        out is Ok,
    ensures
        out->Ok_0.0.draws.len() == n,
        n > 0 ==> out->Ok_0.0.sites.len() == sites.len(),
        forall|i: int|
            0 <= i < n ==> all_described(#[trigger] out->Ok_0.0.draws[i], out->Ok_0.0.sites),
    decreases n,
{
    if n > 0 {
        let (before, row) = choose|
            before: (RunModel, N::Source),
            row: Result<(RowModel, N::Source), Fault>,
        | #[trigger]
            prior_extended(before, row, out) && rows_drawn(
                ops,
                rand,
                specs,
                data,
                sites,
                (n - 1) as nat,
                source,
                Ok(before),
            ) && row_drawn(ops, rand, specs, data, sites, before.1, row);
        lemma_rows_described(ops, rand, specs, data, sites, (n - 1) as nat, source, Ok(before));
        lemma_row_described(ops, rand, specs, data, sites, before.1, row);
    }
}

/// A prior-predictive run has the draws that were asked for, one record per site of the model, and
/// every draw holds, in the order of the records, a value of the recorded name and shape.
pub proof fn law_every_draw_has_the_recorded_sites<A: Arithmetic, N: Randomness>(
    ops: &A,
    rand: &N,
    m: MetaModel,
    data: Seq<(Seq<char>, DataModel)>,
    n: nat,
    seed: u64,
    run: RunModel,
)
    requires
        prior_simulated(ops, rand, m, data, n, seed, Ok(run)),
    ensures
        run.draws.len() == n,
        run.sites.len() == resolved_sites(m).len(),
        forall|i: int| 0 <= i < n ==> all_described(#[trigger] run.draws[i], run.sites),
{
    let out = Ok::<RunModel, Fault>(run);
    let specs = choose|specs: Result<Seq<(Seq<char>, FreeSpecModel)>, Fault>| #[trigger]
        specs_laid(ops, m, data, specs) && laid_simulated(ops, rand, m, data, n, seed, specs, out);
    let laid = specs->Ok_0;
    let sites = resolved_sites(m);
    let source = choose|source: N::Source| #[trigger]
        rand.start_gives(seed, source) && source_simulated(
            ops,
            rand,
            laid,
            data,
            sites,
            n,
            source,
            out,
        );
    let end = choose|end: Result<(RunModel, N::Source), Fault>| #[trigger]
        rows_drawn(ops, rand, laid, data, sites, n, source, end) && out == run_of(end);
    lemma_rows_described(ops, rand, laid, data, sites, n, source, end);
}

} // verus!
