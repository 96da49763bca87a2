//! Posterior-predictive simulation: replicated observed values from retained posterior draws.

use vstd::prelude::*;

use crate::data::{copy_shape, DataValue};
#[allow(unused_imports)]
use crate::data::{data_outcome, data_views, DataModel};
use crate::error::{invalid_settings, shape_mismatch, Error};
#[allow(unused_imports)]
use crate::error::{outcome, settings_fault, shape_fault, Fault};
use crate::identity::posterior_identity_hash;
#[allow(unused_imports)]
use crate::identity::identity_hash;
#[allow(unused_imports)]
use crate::investigation::host::{packing_of, packs};
#[allow(unused_imports)]
use crate::investigation::manifest::reads;
#[allow(unused_imports)]
use crate::investigation::samples::packing_views;
use crate::ir::{Expr, ModelMeta, ResolvedStochasticSite};
#[allow(unused_imports)]
use crate::ir::{
    list_views, named_views, resolved_sites, ExprModel, MetaModel, ObservedModel, SiteModel,
};
use crate::json::Value;
#[allow(unused_imports)]
use crate::json::Json;
use crate::model::{find_data, has_text};
#[allow(unused_imports)]
use crate::model::{all_filled, bound_names, data_named, lemma_named_filled, repeated_from};
use crate::numerics::{Arithmetic, Randomness};
use crate::posterior::Posterior;
use crate::tensor::Tensor;
#[allow(unused_imports)]
use crate::tensor::{full, TensorModel};
use crate::text;
#[allow(unused_imports)]
use crate::text::text_views;

use super::fit::{parse_fit_stream, FitDraw, FitDrawStream, FitParamSpec};
#[allow(unused_imports)]
use super::fit::{borrowed_text, sound_draw, stream_read, FitDrawModel, FitModel, FitParamModel};
use super::forward::ForwardEnv;
#[allow(unused_imports)]
use super::forward::{env_full, EnvModel};
#[allow(unused_imports)]
use super::partial::StepModel;
#[allow(unused_imports)]
use super::prior::{row_extended, run_extended, RowModel};
use super::records::{
    check_records, supported_record, validate_reportable_seed, PriorPredictiveDraw, PriorPredictiveSite,
};
#[allow(unused_imports)]
use super::records::{seed_fault, sound_records, support_record, RunModel};
use super::sampling::sample_distribution;
#[allow(unused_imports)]
use super::sampling::{sample_outcome, sampled};
use super::setup::{bind_declared_data, check_repeated};
#[allow(unused_imports)]
use super::setup::declared_fault;
use super::target::posterior_predictive_target_shape;
#[allow(unused_imports)]
use super::target::target_shaped;

verus! {

/// Where a retained draw stood in its fit.
#[derive(Debug)]
pub struct FitSourceDraw {
    pub draw_index: usize,
    pub chain: i64,
    pub draw: i64,
}

impl View for FitSourceDraw {
    type V = (usize, i64, i64);

    open spec fn view(&self) -> (usize, i64, i64) {
        (self.draw_index, self.chain, self.draw)
    }
}

/// Replicated values, one draw per retained posterior draw.
#[derive(Debug)]
pub struct PosteriorPredictiveRun {
    pub sites: Vec<PriorPredictiveSite>,
    pub draws: Vec<PriorPredictiveDraw>,
    pub source_seed: i64,
    pub source_draws: Vec<FitSourceDraw>,
}

/// The mathematical content of a [`PosteriorPredictiveRun`].
#[verifier::ext_equal]
pub struct ReplicaModel {
    pub run: RunModel,
    pub source_seed: i64,
    pub source_draws: Seq<(usize, i64, i64)>,
}

impl View for PosteriorPredictiveRun {
    type V = ReplicaModel;

    open spec fn view(&self) -> ReplicaModel {
        ReplicaModel {
            run: RunModel { sites: list_views(self.sites@), draws: list_views(self.draws@) },
            source_seed: self.source_seed,
            source_draws: list_views(self.source_draws@),
        }
    }
}

/// The names of observed nodes.
pub open spec fn observed_names(m: MetaModel) -> Seq<Seq<char>> {
    m.observed_nodes.map_values(|o: ObservedModel| o.name)
}

/// The observed node that a site assigns directly.
pub open spec fn assigned(names: Seq<Seq<char>>, site: SiteModel) -> Option<Seq<char>> {
    match site.value {
        ExprModel::Data(name) => if names.contains(name) {
            Some(name)
        } else {
            None
        },
        _ => None,
    }
}

/// The sites among the first `n` that assign an observed node, with their nodes.
pub open spec fn assigning(names: Seq<Seq<char>>, sites: Seq<SiteModel>, n: nat) -> Result<
    Seq<(Seq<char>, int)>,
    Fault,
>
    decreases n,
{
    if n == 0 {
        Ok(Seq::empty())
    } else {
        match assigning(names, sites, (n - 1) as nat) {
            Err(fault) => Err(fault),
            Ok(before) => match assigned(names, sites[n - 1]) {
                None => Ok(before),
                Some(name) => if taken(before, name) {
                    Err(
                        settings_fault(
                            "posterior-predictive observed node \""@ + name
                                + "\" has more than one directly assignable stochastic site"@,
                        ),
                    )
                } else {
                    Ok(before.push((name, n - 1)))
                },
            },
        }
    }
}

/// Whether a node has its site.
pub open spec fn taken(found: Seq<(Seq<char>, int)>, name: Seq<char>) -> bool {
    exists|k: int| 0 <= k < found.len() && (#[trigger] found[k]).0 == name
}

/// The first name at or behind position `i` without a site.
pub open spec fn untaken_from(
    names: Seq<Seq<char>>,
    found: Seq<(Seq<char>, int)>,
    i: int,
) -> Option<Seq<char>>
    decreases names.len() - i,
{
    if i < 0 || i >= names.len() {
        None
    } else if !taken(found, names[i]) {
        Some(names[i])
    } else {
        untaken_from(names, found, i + 1)
    }
}

/// The sites that assign the observed nodes: one for each.
pub open spec fn assignments(names: Seq<Seq<char>>, sites: Seq<SiteModel>) -> Result<
    Seq<(Seq<char>, int)>,
    Fault,
> {
    match assigning(names, sites, sites.len()) {
        Err(fault) => Err(fault),
        Ok(found) => match untaken_from(names, found, 0) {
            Some(name) => Err(
                settings_fault(
                    "posterior-predictive observed node \""@ + name
                        + "\" is not directly assignable; only DataRef observed stochastic sites are supported"@,
                ),
            ),
            None => Ok(found),
        },
    }
}

/// The view of found sites.
pub open spec fn found_views(found: Seq<(String, usize)>) -> Seq<(Seq<char>, int)> {
    found.map_values(|f: (String, usize)| (f.0@, f.1 as int))
}

/// The view of found sites, or of why there are none.
pub open spec fn found_outcome(r: Result<Vec<(String, usize)>, Error>) -> Result<
    Seq<(Seq<char>, int)>,
    Fault,
> {
    match r {
        Ok(found) => Ok(found_views(found@)),
        Err(error) => Err(error@),
    }
}

fn is_taken(found: &Vec<(String, usize)>, name: &str) -> (r: bool)
    ensures
        r == taken(found_views(found@), name@),
{
    let ghost all = found_views(found@);
    let mut i: usize = 0;
    while i < found.len()
        invariant
            i <= found.len(),
            all == found_views(found@),
            forall|k: int| 0 <= k < i ==> (#[trigger] all[k]).0 != name@,
        decreases found.len() - i,
    {
        assert(all[i as int].0 == found@[i as int].0@);
        if text::same(found[i].0.as_str(), name) {
            return true;
        }
        i += 1;
    }
    false
}

proof fn lemma_assigning_fail(names: Seq<Seq<char>>, sites: Seq<SiteModel>, m: nat, n: nat)
    requires
        m <= n,
        assigning(names, sites, m) is Err,
    ensures
        assigning(names, sites, n) == assigning(names, sites, m),
    decreases n - m,
{
    if m < n {
        lemma_assigning_fail(names, sites, m, (n - 1) as nat);
    }
}

fn directly_assignable_observed_site_indices(names: &Vec<String>, sites: &Vec<ResolvedStochasticSite>) -> (r:
    Result<Vec<(String, usize)>, Error>)
    ensures
        found_outcome(r) == assignments(text_views(names@), list_views(sites@)),
        r is Ok ==> forall|k: int|
            0 <= k < r->Ok_0@.len() ==> (#[trigger] r->Ok_0@[k]).1 < sites@.len(),
{
    let ghost wanted = text_views(names@);
    let ghost all = list_views(sites@);
    let ghost count = sites@.len();
    assert(wanted.take(names.len() as int) =~= wanted);
    let mut found: Vec<(String, usize)> = Vec::new();
    assert(found_views(found@) =~= Seq::empty());
    let mut i: usize = 0;
    while i < sites.len()
        invariant
            i <= sites.len(),
            count == sites@.len(),
            wanted == text_views(names@),
            wanted.take(names@.len() as int) == wanted,
            all == list_views(sites@),
            all.len() == count,
            assigning(wanted, all, i as nat) == Ok::<Seq<(Seq<char>, int)>, Fault>(
                found_views(found@),
            ),
            forall|k: int| 0 <= k < found@.len() ==> (#[trigger] found@[k]).1 < sites@.len(),
        decreases sites.len() - i,
    {
        assert(all[i as int] == sites@[i as int]@);
        let ghost n = (i + 1) as nat;
        if let Expr::Data(name) = &sites[i].value {
            if has_text(names, name.as_str(), names.len()) {
                if is_taken(&found, name.as_str()) {
                    proof {
                        lemma_assigning_fail(wanted, all, n, count);
                    }
                    return Err(
                        invalid_settings(
                            text::cat3(
                                "posterior-predictive observed node \"",
                                name.as_str(),
                                "\" has more than one directly assignable stochastic site",
                            ),
                        ),
                    );
                }
                let ghost before = found@;
                found.push((name.clone(), i));
                assert(found_views(found@) =~= found_views(before).push((name@, n - 1)));
            }
        }
        i += 1;
    }
    i = 0;
    while i < names.len()
        invariant
            i <= names.len(),
            wanted == text_views(names@),
            all == list_views(sites@),
            assigning(wanted, all, all.len()) == Ok::<Seq<(Seq<char>, int)>, Fault>(
                found_views(found@),
            ),
            untaken_from(wanted, found_views(found@), 0) == untaken_from(
                wanted,
                found_views(found@),
                i as int,
            ),
        decreases names.len() - i,
    {
        assert(wanted[i as int] == names@[i as int]@);
        if !is_taken(&found, names[i].as_str()) {
            return Err(
                invalid_settings(
                    text::cat3(
                        "posterior-predictive observed node \"",
                        names[i].as_str(),
                        "\" is not directly assignable; only DataRef observed stochastic sites are supported",
                    ),
                ),
            );
        }
        i += 1;
    }
    Ok(found)
}

/// The declared data of a model, picked from all its data.
pub open spec fn declared_values(m: MetaModel, data: Seq<(Seq<char>, DataModel)>, n: nat) -> Result<
    Seq<(Seq<char>, DataModel)>,
    Fault,
>
    decreases n,
{
    if n == 0 {
        Ok(Seq::empty())
    } else {
        match declared_values(m, data, (n - 1) as nat) {
            Err(fault) => Err(fault),
            Ok(before) => match data_named(data, m.data[n - 1].0) {
                None => Err(
                    shape_fault("missing declared data value \""@ + m.data[n - 1].0 + "\""@),
                ),
                Some(value) => Ok(before.push((m.data[n - 1].0, value))),
            },
        }
    }
}

proof fn lemma_declared_fail(m: MetaModel, data: Seq<(Seq<char>, DataModel)>, k: nat, n: nat)
    requires
        k <= n,
        declared_values(m, data, k) is Err,
    ensures
        declared_values(m, data, n) == declared_values(m, data, k),
    decreases n - k,
{
    if k < n {
        lemma_declared_fail(m, data, k, (n - 1) as nat);
    }
}

/// Picks the declared data of a model from all its data.
pub fn declared_data_from_full(meta: &ModelMeta, data: &Vec<(String, DataValue)>) -> (r: Result<
    Vec<(String, DataValue)>,
    Error,
>)
    requires
        all_filled(data_views(data@)),
    ensures
        data_outcome(r) == declared_values(meta@, data_views(data@), meta@.data.len()),
        r is Ok ==> all_filled(data_views(r->Ok_0@)),
{
    let ghost m = meta@;
    let ghost all = data_views(data@);
    let mut out: Vec<(String, DataValue)> = Vec::new();
    assert(data_views(out@) =~= Seq::empty());
    assert(m.data.len() == meta.data.len());
    let mut i: usize = 0;
    while i < meta.data.len()
        invariant
            i <= meta.data.len(),
            m == meta@,
            m.data.len() == meta.data.len(),
            all == data_views(data@),
            all_filled(all),
            declared_values(m, all, i as nat) == Ok::<Seq<(Seq<char>, DataModel)>, Fault>(
                data_views(out@),
            ),
            all_filled(data_views(out@)),
        decreases meta.data.len() - i,
    {
        let ghost n = (i + 1) as nat;
        assert(m.data[n - 1].0 == meta.data@[i as int].0@);
        match find_data(data, meta.data[i].0.as_str()) {
            None => {
                proof {
                    lemma_declared_fail(m, all, n, m.data.len());
                }
                return Err(
                    shape_mismatch(
                        text::cat3(
                            "missing declared data value \"",
                            meta.data[i].0.as_str(),
                            "\"",
                        ),
                    ),
                );
            },
            Some(value) => {
                proof {
                    lemma_named_filled(all, m.data[n - 1].0, 0);
                }
                let ghost before = out@;
                let ghost content = value@;
                out.push((meta.data[i].0.clone(), value.copy()));
                assert(data_views(out@) =~= data_views(before).push((m.data[n - 1].0, content)));
            },
        }
        i += 1;
    }
    Ok(out)
}

/// The step of a replicated value.
pub open spec fn replica_step<S>(
    name: Seq<char>,
    site: SiteModel,
    draw: Result<(TensorModel, S), Fault>,
) -> Result<(StepModel, S), Fault> {
    match draw {
        Err(fault) => Err(fault),
        Ok((value, after)) => Ok(
            (
                StepModel {
                    record: support_record(name, site.name, site.distribution, value),
                    value,
                    name,
                    given: value,
                },
                after,
            ),
        ),
    }
}

/// Whether drawing a replicated value of a shape can come to that.
pub open spec fn shape_replicated<A: Arithmetic, N: Randomness>(
    ops: &A,
    rand: &N,
    env: EnvModel,
    name: Seq<char>,
    site: SiteModel,
    target: Result<Seq<usize>, Fault>,
    source: N::Source,
    out: Result<(StepModel, N::Source), Fault>,
) -> bool {
    match target {
        Err(fault) => out == Err::<(StepModel, N::Source), Fault>(fault),
        Ok(shape) => exists|draw: Result<(TensorModel, N::Source), Fault>| #[trigger]
            sampled(ops, rand, env, site.distribution, Some(shape), source, draw) && out
                == replica_step(name, site, draw),
    }
}

/// Whether replicating an observed value of a shape can come to that.
pub open spec fn observed_replicated<A: Arithmetic, N: Randomness>(
    ops: &A,
    rand: &N,
    env: EnvModel,
    name: Seq<char>,
    site: SiteModel,
    shape: Seq<usize>,
    source: N::Source,
    out: Result<(StepModel, N::Source), Fault>,
) -> bool {
    exists|target: Result<Seq<usize>, Fault>| #[trigger]
        target_shaped(ops, env, site.distribution, shape, target) && shape_replicated(
            ops,
            rand,
            env,
            name,
            site,
            target,
            source,
            out,
        )
}

/// Whether replicating an observed value can come to that.
pub open spec fn site_replicated<A: Arithmetic, N: Randomness>(
    ops: &A,
    rand: &N,
    data: Seq<(Seq<char>, DataModel)>,
    env: EnvModel,
    name: Seq<char>,
    site: SiteModel,
    source: N::Source,
    out: Result<(StepModel, N::Source), Fault>,
) -> bool {
    match data_named(data, name) {
        None => out == Err::<(StepModel, N::Source), Fault>(
            shape_fault("posterior-predictive missing observed data value \""@ + name + "\""@),
        ),
        Some(observed) => observed_replicated(
            ops,
            rand,
            env,
            name,
            site,
            observed.shape,
            source,
            out,
        ),
    }
}

/// What every replication of a run shares: all data, the declared data, the sites, and which of
/// them assign observed values.
#[verifier::ext_equal]
pub struct ReplicaPlan {
    pub data: Seq<(Seq<char>, DataModel)>,
    pub declared: Seq<(Seq<char>, DataModel)>,
    pub sites: Seq<SiteModel>,
    pub found: Seq<(Seq<char>, int)>,
}

/// Whether replicating the first `n` observed values over one posterior draw can come to that.
pub open spec fn row_replicated<A: Arithmetic, N: Randomness>(
    ops: &A,
    rand: &N,
    plan: ReplicaPlan,
    posterior: Seq<(Seq<char>, TensorModel)>,
    n: nat,
    source: N::Source,
    out: Result<(RowModel, N::Source), Fault>,
) -> bool
    decreases n,
{
    if n == 0 {
        out == Ok::<(RowModel, N::Source), Fault>(
            (RowModel { seen: posterior, values: Seq::empty(), records: Seq::empty() }, source),
        )
    } else {
        ||| out is Err && row_replicated(ops, rand, plan, posterior, (n - 1) as nat, source, out)
        ||| exists|before: (RowModel, N::Source), item: Result<(StepModel, N::Source), Fault>|
            #[trigger] row_extended(before, item, out) && row_replicated(
                ops,
                rand,
                plan,
                posterior,
                (n - 1) as nat,
                source,
                Ok(before),
            ) && site_replicated(
                ops,
                rand,
                plan.data,
                EnvModel { values: before.0.seen, data: plan.declared },
                plan.found[n - 1].0,
                plan.sites[plan.found[n - 1].1],
                before.1,
                item,
            )
    }
}

/// The values of a posterior draw by the names of the parameters.
pub open spec fn drawn_values(params: Seq<FitParamModel>, draw: FitDrawModel) -> Seq<
    (Seq<char>, TensorModel),
> {
    Seq::new(params.len(), |k: int| (params[k].name, draw.values[k]))
}

/// A posterior-predictive run with one more draw behind it.
pub open spec fn replica_extended<S>(
    before: (RunModel, S),
    row: Result<(RowModel, S), Fault>,
    out: Result<(RunModel, S), Fault>,
) -> bool {
    run_extended(before, row, "posterior-predictive"@, out)
}

/// Whether replicating over the first `n` posterior draws can come to that.
pub open spec fn rows_replicated<A: Arithmetic, N: Randomness>(
    ops: &A,
    rand: &N,
    plan: ReplicaPlan,
    fit: FitModel,
    n: nat,
    source: N::Source,
    out: Result<(RunModel, N::Source), Fault>,
) -> bool
    decreases n,
{
    if n == 0 {
        out == Ok::<(RunModel, N::Source), Fault>(
            (RunModel { sites: Seq::empty(), draws: Seq::empty() }, source),
        )
    } else {
        ||| out is Err && rows_replicated(ops, rand, plan, fit, (n - 1) as nat, source, out)
        ||| exists|before: (RunModel, N::Source), row: Result<(RowModel, N::Source), Fault>|
            #[trigger] replica_extended(before, row, out) && rows_replicated(
                ops,
                rand,
                plan,
                fit,
                (n - 1) as nat,
                source,
                Ok(before),
            ) && row_replicated(
                ops,
                rand,
                plan,
                drawn_values(fit.params, fit.draws[n - 1]),
                plan.found.len(),
                before.1,
                row,
            )
    }
}

/// Where the draws of a fit stood.
pub open spec fn source_draws(draws: Seq<FitDrawModel>) -> Seq<(usize, i64, i64)> {
    draws.map_values(|d: FitDrawModel| (d.draw_index, d.chain, d.draw))
}

/// A run with where it came from.
pub open spec fn replica_of<S>(fit: FitModel, end: Result<(RunModel, S), Fault>) -> Result<
    ReplicaModel,
    Fault,
> {
    match end {
        Err(fault) => Err(fault),
        Ok((run, _)) => Ok(
            ReplicaModel {
                run,
                source_seed: fit.source_seed,
                source_draws: source_draws(fit.draws),
            },
        ),
    }
}

/// Whether replicating from a source can come to that.
pub open spec fn source_replicated<A: Arithmetic, N: Randomness>(
    ops: &A,
    rand: &N,
    plan: ReplicaPlan,
    fit: FitModel,
    source: N::Source,
    out: Result<ReplicaModel, Fault>,
) -> bool {
    exists|end: Result<(RunModel, N::Source), Fault>| #[trigger]
        rows_replicated(ops, rand, plan, fit, fit.draws.len(), source, end) && out == replica_of(
            fit,
            end,
        )
}

/// What a run shares, or why it cannot be made.
pub open spec fn replica_plan(m: MetaModel, data: Seq<(Seq<char>, DataModel)>) -> Result<
    ReplicaPlan,
    Fault,
> {
    match repeated_from(bound_names(data), 0) {
        Some(name) => Err(shape_fault("duplicate data value \""@ + name + "\""@)),
        None => match declared_values(m, data, m.data.len()) {
            Err(fault) => Err(fault),
            Ok(declared) => match declared_fault(m, declared) {
                Some(fault) => Err(fault),
                None => if observed_names(m).len() == 0 {
                    Err(
                        settings_fault(
                            "posterior-predictive needs at least one observed node to simulate"@,
                        ),
                    )
                } else {
                    match assignments(observed_names(m), resolved_sites(m)) {
                        Err(fault) => Err(fault),
                        Ok(found) => Ok(
                            ReplicaPlan { data, declared, sites: resolved_sites(m), found },
                        ),
                    }
                },
            },
        },
    }
}

/// Whether replicating over a fit can come to that.
pub open spec fn fit_replicated<A: Arithmetic, N: Randomness>(
    ops: &A,
    rand: &N,
    m: MetaModel,
    data: Seq<(Seq<char>, DataModel)>,
    seed: u64,
    fit: Result<FitModel, Fault>,
    out: Result<ReplicaModel, Fault>,
) -> bool {
    match fit {
        Err(fault) => out == Err::<ReplicaModel, Fault>(fault),
        Ok(stream) => match replica_plan(m, data) {
            Err(fault) => out == Err::<ReplicaModel, Fault>(fault),
            Ok(plan) => exists|source: N::Source| #[trigger]
                rand.start_gives(seed, source) && source_replicated(
                    ops,
                    rand,
                    plan,
                    stream,
                    source,
                    out,
                ),
        },
    }
}

/// The inputs of a posterior-predictive run: the model and how it spells out, all its data, the
/// text of a fit, and the fingerprint of exact inputs where one is expected.
#[verifier::ext_equal]
pub struct ReplicaInputs {
    pub meta: MetaModel,
    pub model_text: Seq<char>,
    pub data: Seq<(Seq<char>, DataModel)>,
    pub fit: Seq<char>,
    pub fingerprint: Option<Seq<char>>,
}

/// Whether replicating can come to that, by what the packing of the model came to.
pub open spec fn packing_replicated<A: Arithmetic, N: Randomness>(
    ops: &A,
    rand: &N,
    reading: spec_fn(Seq<char>, Result<Json, Fault>) -> bool,
    inputs: ReplicaInputs,
    seed: u64,
    packing: Result<Seq<(Seq<char>, Seq<usize>)>, Fault>,
    out: Result<ReplicaModel, Fault>,
) -> bool {
    match packing {
        Err(fault) => out == Err::<ReplicaModel, Fault>(fault),
        Ok(layout) => exists|fit: Result<FitModel, Fault>| #[trigger]
            stream_read(
                reading,
                inputs.fit,
                layout,
                identity_hash(inputs.model_text, inputs.data),
                inputs.fingerprint,
                fit,
            ) && fit_replicated(ops, rand, inputs.meta, inputs.data, seed, fit, out),
    }
}

/// Whether a posterior-predictive simulation can come to that.
pub open spec fn posterior_replicated<A: Arithmetic, N: Randomness>(
    ops: &A,
    rand: &N,
    reading: spec_fn(Seq<char>, Result<Json, Fault>) -> bool,
    inputs: ReplicaInputs,
    seed: u64,
    out: Result<ReplicaModel, Fault>,
) -> bool {
    match seed_fault(seed, "posterior-predictive artifact"@) {
        Some(fault) => out == Err::<ReplicaModel, Fault>(fault),
        None => exists|packing: Result<Seq<(Seq<char>, Seq<usize>)>, Fault>| #[trigger]
            packs(ops, inputs.meta, inputs.data, packing) && packing_replicated(
                ops,
                rand,
                reading,
                inputs,
                seed,
                packing,
                out,
            ),
    }
}

/// The values and records of a replication.
struct Replica {
    values: Vec<(String, Tensor)>,
    records: Vec<PriorPredictiveSite>,
}

fn replicate_site<A: Arithmetic, N: Randomness>(
    ops: &A,
    rand: &N,
    data: &Vec<(String, DataValue)>,
    env: &ForwardEnv,
    name: &str,
    site: &ResolvedStochasticSite,
    source: N::Source,
) -> (r: Result<(Tensor, N::Source), Error>)
    requires
        ops.reliable(),
        rand.ready(),
        env_full(env@),
    ensures
        site_replicated(
            ops,
            rand,
            data_views(data@),
            env@,
            name@,
            site@,
            source,
            replica_step(name@, site@, sample_outcome(r)),
        ),
        r is Ok ==> full(r->Ok_0.0@),
{
    let observed: &DataValue = match find_data(data, name) {
        None => {
            return Err(
                shape_mismatch(
                    text::cat3(
                        "posterior-predictive missing observed data value \"",
                        name,
                        "\"",
                    ),
                ),
            );
        },
        Some(observed) => observed,
    };
    let target: Result<Vec<usize>, Error> = posterior_predictive_target_shape(
        ops,
        env,
        &site.distribution,
        copy_shape(&observed.shape),
    );
    let ghost wanted = crate::model::shape_outcome(target);
    assert(target_shaped(ops, env@, site@.distribution, observed@.shape, wanted));
    match target {
        Err(error) => {
            assert(shape_replicated(
                ops,
                rand,
                env@,
                name@,
                site@,
                wanted,
                source,
                replica_step(name@, site@, Err::<(TensorModel, N::Source), Fault>(error@)),
            ));
            assert(observed_replicated(
                ops,
                rand,
                env@,
                name@,
                site@,
                observed@.shape,
                source,
                replica_step(name@, site@, Err::<(TensorModel, N::Source), Fault>(error@)),
            ));
            Err(error)
        },
        Ok(shape) => {
            let ghost begin = source;
            let draw: Result<(Tensor, N::Source), Error> = sample_distribution(
                ops,
                rand,
                env,
                &site.distribution,
                Some(&shape),
                source,
            );
            proof {
                assert(sampled(
                    ops,
                    rand,
                    env@,
                    site@.distribution,
                    Some(shape@),
                    begin,
                    sample_outcome(draw),
                ));
                assert(shape_replicated(
                    ops,
                    rand,
                    env@,
                    name@,
                    site@,
                    wanted,
                    begin,
                    replica_step(name@, site@, sample_outcome(draw)),
                ));
                assert(observed_replicated(
                    ops,
                    rand,
                    env@,
                    name@,
                    site@,
                    observed@.shape,
                    begin,
                    replica_step(name@, site@, sample_outcome(draw)),
                ));
            }
            draw
        },
    }
}

proof fn lemma_replica_fail<A: Arithmetic, N: Randomness>(
    ops: &A,
    rand: &N,
    plan: ReplicaPlan,
    posterior: Seq<(Seq<char>, TensorModel)>,
    m: nat,
    n: nat,
    source: N::Source,
    fault: Fault,
)
    requires
        m <= n,
        row_replicated(ops, rand, plan, posterior, m, source, Err(fault)),
    ensures
        row_replicated(ops, rand, plan, posterior, n, source, Err(fault)),
    decreases n - m,
{
    if m < n {
        lemma_replica_fail(ops, rand, plan, posterior, m, (n - 1) as nat, source, fault);
    }
}

proof fn lemma_replica_step<A: Arithmetic, N: Randomness>(
    ops: &A,
    rand: &N,
    plan: ReplicaPlan,
    posterior: Seq<(Seq<char>, TensorModel)>,
    n: nat,
    source: N::Source,
    before: (RowModel, N::Source),
    item: Result<(StepModel, N::Source), Fault>,
    out: Result<(RowModel, N::Source), Fault>,
)
    requires
        n > 0,
        row_extended(before, item, out),
        row_replicated(ops, rand, plan, posterior, (n - 1) as nat, source, Ok(before)),
        site_replicated(
            ops,
            rand,
            plan.data,
            EnvModel { values: before.0.seen, data: plan.declared },
            plan.found[n - 1].0,
            plan.sites[plan.found[n - 1].1],
            before.1,
            item,
        ),
    ensures
        row_replicated(ops, rand, plan, posterior, n, source, out),
{
}

/// The view of a replication, with what later sites saw.
spec fn replica_outcome<S>(
    r: Result<(Replica, S), Error>,
    seen: Seq<(Seq<char>, TensorModel)>,
) -> Result<(RowModel, S), Fault> {
    match r {
        Ok(found) => Ok(
            (
                RowModel {
                    seen,
                    values: named_views(found.0.values@),
                    records: list_views(found.0.records@),
                },
                found.1,
            ),
        ),
        Err(error) => Err(error@),
    }
}

fn replicate_row<A: Arithmetic, N: Randomness>(
    ops: &A,
    rand: &N,
    data: &Vec<(String, DataValue)>,
    env: &mut ForwardEnv,
    sites: &Vec<ResolvedStochasticSite>,
    found: &Vec<(String, usize)>,
    source: N::Source,
) -> (r: Result<(Replica, N::Source), Error>)
    requires
        ops.reliable(),
        rand.ready(),
        env_full(old(env)@),
        forall|k: int| 0 <= k < found@.len() ==> (#[trigger] found@[k]).1 < sites@.len(),
    ensures
        final(env)@.data == old(env)@.data,
        row_replicated(
            ops,
            rand,
            ReplicaPlan {
                data: data_views(data@),
                declared: old(env)@.data,
                sites: list_views(sites@),
                found: found_views(found@),
            },
            old(env)@.values,
            found@.len(),
            source,
            replica_outcome(r, final(env)@.values),
        ),
        r is Ok ==> sound_records(list_views(r->Ok_0.0.records@)),
{
    let ghost plan = ReplicaPlan {
        data: data_views(data@),
        declared: env@.data,
        sites: list_views(sites@),
        found: found_views(found@),
    };
    let ghost posterior = env@.values;
    let ghost start = source;
    let ghost count = found@.len();
    let mut now: N::Source = source;
    let mut values: Vec<(String, Tensor)> = Vec::new();
    let mut records: Vec<PriorPredictiveSite> = Vec::new();
    let mut i: usize = 0;
    proof {
        assert(named_views(values@) =~= Seq::empty());
        assert(list_views(records@) =~= Seq::empty());
    }
    while i < found.len()
        invariant
            i <= found.len(),
            count == found@.len(),
            ops.reliable(),
            rand.ready(),
            start == source,
            posterior == old(env)@.values,
            plan == (ReplicaPlan {
                data: data_views(data@),
                declared: old(env)@.data,
                sites: list_views(sites@),
                found: found_views(found@),
            }),
            forall|k: int| 0 <= k < found@.len() ==> (#[trigger] found@[k]).1 < sites@.len(),
            env@.data == old(env)@.data,
            env_full(env@),
            sound_records(list_views(records@)),
            row_replicated(
                ops,
                rand,
                plan,
                posterior,
                i as nat,
                start,
                Ok(
                    (
                        RowModel {
                            seen: env@.values,
                            values: named_views(values@),
                            records: list_views(records@),
                        },
                        now,
                    ),
                ),
            ),
        decreases found.len() - i,
    {
        let ghost n = (i + 1) as nat;
        let ghost before = (
            RowModel {
                seen: env@.values,
                values: named_views(values@),
                records: list_views(records@),
            },
            now,
        );
        let name: &str = found[i].0.as_str();
        let place: usize = found[i].1;
        let site: &ResolvedStochasticSite = &sites[place];
        proof {
            assert(found@[i as int].1 < sites@.len());
            assert(plan.found[n - 1] == (name@, place as int));
            assert(plan.sites[place as int] == site@);
            assert(env@ =~= (EnvModel { values: before.0.seen, data: plan.declared }));
        }
        let draw: Result<(Tensor, N::Source), Error> = replicate_site(
            ops,
            rand,
            data,
            env,
            name,
            site,
            now,
        );
        let ghost item = replica_step(name@, site@, sample_outcome(draw));
        match draw {
            Err(error) => {
                proof {
                    lemma_replica_step(
                        ops,
                        rand,
                        plan,
                        posterior,
                        n,
                        start,
                        before,
                        item,
                        Err(error@),
                    );
                    lemma_replica_fail(ops, rand, plan, posterior, n, count, start, error@);
                }
                return Err(error);
            },
            Ok((value, after)) => {
                let ghost content = value@;
                let ghost old_values = values@;
                let ghost old_records = records@;
                let record: PriorPredictiveSite = supported_record(
                    name,
                    site.name.as_str(),
                    &site.distribution,
                    &value,
                );
                let ghost listed = record@;
                env.give(name, value.copy());
                values.push((name.to_owned(), value));
                records.push(record);
                now = after;
                proof {
                    assert(named_views(values@) =~= named_views(old_values).push((name@, content)));
                    assert(list_views(records@) =~= list_views(old_records).push(listed));
                    lemma_replica_step(
                        ops,
                        rand,
                        plan,
                        posterior,
                        n,
                        start,
                        before,
                        item,
                        Ok(
                            (
                                RowModel {
                                    seen: env@.values,
                                    values: named_views(values@),
                                    records: list_views(records@),
                                },
                                now,
                            ),
                        ),
                    );
                }
            },
        }
        i += 1;
    }
    Ok((Replica { values, records }, now))
}

fn posterior_values(params: &Vec<FitParamSpec>, draw: &FitDraw) -> (r: Vec<(String, Tensor)>)
    requires
        draw.values@.len() == params@.len(),
    ensures
        named_views(r@) == drawn_values(list_views(params@), draw@),
{
    let mut out: Vec<(String, Tensor)> = Vec::new();
    let mut i: usize = 0;
    while i < params.len()
        invariant
            i <= params.len(),
            draw.values.len() == params.len(),
            out.len() == i,
            forall|k: int|
                0 <= k < i ==> (#[trigger] out@[k]).0@ == params@[k].name@ && out@[k].1@
                    == draw.values@[k]@,
        decreases params.len() - i,
    {
        out.push((params[i].name.clone(), draw.values[i].copy()));
        i += 1;
    }
    assert(named_views(out@) =~= drawn_values(list_views(params@), draw@));
    out
}

proof fn lemma_replicas_fail<A: Arithmetic, N: Randomness>(
    ops: &A,
    rand: &N,
    plan: ReplicaPlan,
    fit: FitModel,
    m: nat,
    n: nat,
    source: N::Source,
    fault: Fault,
)
    requires
        m <= n,
        rows_replicated(ops, rand, plan, fit, m, source, Err(fault)),
    ensures
        rows_replicated(ops, rand, plan, fit, n, source, Err(fault)),
    decreases n - m,
{
    if m < n {
        lemma_replicas_fail(ops, rand, plan, fit, m, (n - 1) as nat, source, fault);
    }
}

proof fn lemma_replicas_step<A: Arithmetic, N: Randomness>(
    ops: &A,
    rand: &N,
    plan: ReplicaPlan,
    fit: FitModel,
    n: nat,
    source: N::Source,
    before: (RunModel, N::Source),
    row: Result<(RowModel, N::Source), Fault>,
    out: Result<(RunModel, N::Source), Fault>,
)
    requires
        n > 0,
        replica_extended(before, row, out),
        rows_replicated(ops, rand, plan, fit, (n - 1) as nat, source, Ok(before)),
        row_replicated(
            ops,
            rand,
            plan,
            drawn_values(fit.params, fit.draws[n - 1]),
            plan.found.len(),
            before.1,
            row,
        ),
    ensures
        rows_replicated(ops, rand, plan, fit, n, source, out),
{
}

/// The view of a run with the source behind it.
spec fn rows_outcome<S>(
    r: Result<(Vec<PriorPredictiveSite>, Vec<PriorPredictiveDraw>, S), Error>,
) -> Result<(RunModel, S), Fault> {
    match r {
        Ok(found) => Ok(
            (RunModel { sites: list_views(found.0@), draws: list_views(found.1@) }, found.2),
        ),
        Err(error) => Err(error@),
    }
}

fn replicate_rows<A: Arithmetic, N: Randomness>(
    ops: &A,
    rand: &N,
    data: &Vec<(String, DataValue)>,
    declared: Vec<(String, DataValue)>,
    sites: &Vec<ResolvedStochasticSite>,
    found: &Vec<(String, usize)>,
    fit: &FitDrawStream,
    source: N::Source,
) -> (r: Result<(Vec<PriorPredictiveSite>, Vec<PriorPredictiveDraw>, N::Source), Error>)
    requires
        ops.reliable(),
        rand.ready(),
        all_filled(data_views(declared@)),
        forall|k: int| 0 <= k < found@.len() ==> (#[trigger] found@[k]).1 < sites@.len(),
        forall|i: int|
            0 <= i < fit@.draws.len() ==> sound_draw(
                #[trigger] fit@.draws[i],
                fit@.params,
                i as nat,
            ),
    ensures
        rows_replicated(
            ops,
            rand,
            ReplicaPlan {
                data: data_views(data@),
                declared: data_views(declared@),
                sites: list_views(sites@),
                found: found_views(found@),
            },
            fit@,
            fit@.draws.len(),
            source,
            rows_outcome(r),
        ),
        r is Ok ==> sound_records(list_views(r->Ok_0.0@)),
{
    let ghost plan = ReplicaPlan {
        data: data_views(data@),
        declared: data_views(declared@),
        sites: list_views(sites@),
        found: found_views(found@),
    };
    let ghost stream = fit@;
    let ghost start = source;
    let ghost count = fit@.draws.len();
    let mut now: N::Source = source;
    let mut env: ForwardEnv = ForwardEnv { values: Vec::new(), data: declared };
    let mut records: Vec<PriorPredictiveSite> = Vec::new();
    let mut draws: Vec<PriorPredictiveDraw> = Vec::new();
    let mut i: usize = 0;
    assert(count == fit.draws.len());
    proof {
        assert(list_views(records@) =~= Seq::empty());
        assert(list_views(draws@) =~= Seq::empty());
    }
    while i < fit.draws.len()
        invariant
            i <= fit.draws.len(),
            count == fit.draws.len(),
            ops.reliable(),
            rand.ready(),
            start == source,
            stream == fit@,
            stream.draws.len() == count,
            plan == (ReplicaPlan {
                data: data_views(data@),
                declared: data_views(declared@),
                sites: list_views(sites@),
                found: found_views(found@),
            }),
            plan.found.len() == found@.len(),
            env@.data == plan.declared,
            all_filled(plan.declared),
            forall|k: int| 0 <= k < found@.len() ==> (#[trigger] found@[k]).1 < sites@.len(),
            forall|k: int|
                0 <= k < stream.draws.len() ==> sound_draw(
                    #[trigger] stream.draws[k],
                    stream.params,
                    k as nat,
                ),
            draws.len() == i,
            sound_records(list_views(records@)),
            rows_replicated(
                ops,
                rand,
                plan,
                stream,
                i as nat,
                start,
                Ok(
                    (RunModel { sites: list_views(records@), draws: list_views(draws@) }, now),
                ),
            ),
        decreases fit.draws.len() - i,
    {
        let ghost n = (i + 1) as nat;
        let ghost before = (
            RunModel { sites: list_views(records@), draws: list_views(draws@) },
            now,
        );
        let draw: &FitDraw = &fit.draws[i];
        proof {
            assert(stream.draws[n - 1] == draw@);
            assert(sound_draw(stream.draws[i as int], stream.params, i as nat));
            assert(draw@.values.len() == draw.values@.len());
            assert(stream.params.len() == fit.params@.len());
        }
        let values: Vec<(String, Tensor)> = posterior_values(&fit.params, draw);
        let ghost posterior = named_views(values@);
        env.values = values;
        proof {
            assert(fit@.params =~= list_views(fit.params@));
            assert(env@.values == posterior);
            assert(posterior == drawn_values(stream.params, stream.draws[n - 1]));
            assert forall|k: int| 0 <= k < env@.values.len() implies full(
                (#[trigger] env@.values[k]).1,
            ) by {
                assert(env@.values[k].1 == draw@.values[k]);
            }
        }
        let row: Result<(Replica, N::Source), Error> = replicate_row(
            ops,
            rand,
            data,
            &mut env,
            sites,
            found,
            now,
        );
        let ghost kept = replica_outcome(row, env@.values);
        match row {
            Err(error) => {
                proof {
                    lemma_replicas_step(
                        ops,
                        rand,
                        plan,
                        stream,
                        n,
                        start,
                        before,
                        kept,
                        Err(error@),
                    );
                    lemma_replicas_fail(ops, rand, plan, stream, n, count, start, error@);
                }
                return Err(error);
            },
            Ok((replica, after)) => {
                let Replica { values: reported, records: listed } = replica;
                let ghost shown = named_views(reported@);
                assert(before.0.draws.len() == draws.len());
                if i == 0 {
                    records = listed;
                    draws.push(PriorPredictiveDraw { values: reported });
                    assert(list_views(draws@) =~= seq![shown]);
                } else {
                    if let Err(error) = check_records(&records, &listed, "posterior-predictive") {
                        proof {
                            lemma_replicas_step(
                                ops,
                                rand,
                                plan,
                                stream,
                                n,
                                start,
                                before,
                                kept,
                                Err(error@),
                            );
                            lemma_replicas_fail(ops, rand, plan, stream, n, count, start, error@);
                        }
                        return Err(error);
                    }
                    draws.push(PriorPredictiveDraw { values: reported });
                    assert(list_views(draws@) =~= before.0.draws.push(shown));
                }
                now = after;
                proof {
                    lemma_replicas_step(
                        ops,
                        rand,
                        plan,
                        stream,
                        n,
                        start,
                        before,
                        kept,
                        Ok(
                            (
                                RunModel {
                                    sites: list_views(records@),
                                    draws: list_views(draws@),
                                },
                                now,
                            ),
                        ),
                    );
                }
            },
        }
        i += 1;
    }
    Ok((records, draws, now))
}

fn observed_name_list(meta: &ModelMeta) -> (r: Vec<String>)
    ensures
        text_views(r@) == observed_names(meta@),
{
    let mut out: Vec<String> = Vec::new();
    let mut i: usize = 0;
    while i < meta.observed_nodes.len()
        invariant
            i <= meta.observed_nodes.len(),
            out.len() == i,
            forall|k: int| 0 <= k < i ==> (#[trigger] out@[k])@ == meta.observed_nodes@[k].name@,
        decreases meta.observed_nodes.len() - i,
    {
        out.push(meta.observed_nodes[i].name.clone());
        i += 1;
    }
    assert(text_views(out@) =~= observed_names(meta@));
    out
}

fn list_sources(draws: &Vec<FitDraw>) -> (r: Vec<FitSourceDraw>)
    ensures
        list_views(r@) == source_draws(list_views(draws@)),
{
    let mut out: Vec<FitSourceDraw> = Vec::new();
    let mut i: usize = 0;
    while i < draws.len()
        invariant
            i <= draws.len(),
            out.len() == i,
            forall|k: int|
                0 <= k < i ==> (#[trigger] out@[k])@ == (
                    draws@[k].draw_index,
                    draws@[k].chain,
                    draws@[k].draw,
                ),
        decreases draws.len() - i,
    {
        out.push(
            FitSourceDraw {
                draw_index: draws[i].draw_index,
                chain: draws[i].chain,
                draw: draws[i].draw,
            },
        );
        i += 1;
    }
    assert(list_views(out@) =~= source_draws(list_views(draws@)));
    out
}

/// What a run shares: the declared data, the sites, and which of them assign observed values.
struct Prepared {
    declared: Vec<(String, DataValue)>,
    sites: Vec<ResolvedStochasticSite>,
    found: Vec<(String, usize)>,
}

fn prepare(meta: &ModelMeta, data: &Vec<(String, DataValue)>) -> (r: Result<Prepared, Error>)
    requires
        all_filled(data_views(data@)),
    ensures
        match r {
            Ok(p) => replica_plan(meta@, data_views(data@)) == Ok::<ReplicaPlan, Fault>(
                ReplicaPlan {
                    data: data_views(data@),
                    declared: data_views(p.declared@),
                    sites: list_views(p.sites@),
                    found: found_views(p.found@),
                },
            ) && all_filled(data_views(p.declared@)) && forall|k: int|
                0 <= k < p.found@.len() ==> (#[trigger] p.found@[k]).1 < p.sites@.len(),
            Err(error) => replica_plan(meta@, data_views(data@)) == Err::<ReplicaPlan, Fault>(
                error@,
            ),
        },
{
    check_repeated(data)?;
    let declared: Vec<(String, DataValue)> = declared_data_from_full(meta, data)?;
    bind_declared_data(meta, &declared)?;
    let names: Vec<String> = observed_name_list(meta);
    assert(text_views(names@).len() == names.len());
    if names.len() == 0 {
        return Err(
            invalid_settings(
                "posterior-predictive needs at least one observed node to simulate".to_owned(),
            ),
        );
    }
    let sites: Vec<ResolvedStochasticSite> = meta.resolved_stochastic_sites();
    let found: Vec<(String, usize)> = directly_assignable_observed_site_indices(&names, &sites)?;
    Ok(Prepared { declared, sites, found })
}

fn replicate_fit<A: Arithmetic, N: Randomness>(
    meta: &ModelMeta,
    data: &Vec<(String, DataValue)>,
    fit: &FitDrawStream,
    seed: u64,
    ops: &A,
    rand: &N,
) -> (r: Result<PosteriorPredictiveRun, Error>)
    requires
        ops.reliable(),
        rand.ready(),
        all_filled(data_views(data@)),
        forall|i: int|
            0 <= i < fit@.draws.len() ==> sound_draw(
                #[trigger] fit@.draws[i],
                fit@.params,
                i as nat,
            ),
    ensures
        fit_replicated(ops, rand, meta@, data_views(data@), seed, Ok(fit@), outcome(r)),
        r is Ok ==> sound_records(r->Ok_0@.run.sites),
{
    let prepared: Prepared = prepare(meta, data)?;
    let Prepared { declared, sites, found } = prepared;
    let source: N::Source = rand.start(seed);
    let ghost plan = replica_plan(meta@, data_views(data@))->Ok_0;
    let end: Result<(Vec<PriorPredictiveSite>, Vec<PriorPredictiveDraw>, N::Source), Error> =
        replicate_rows(ops, rand, data, declared, &sites, &found, fit, source);
    proof {
        assert(rows_replicated(
            ops,
            rand,
            plan,
            fit@,
            fit@.draws.len(),
            source,
            rows_outcome(end),
        ));
        let out = replica_of(fit@, rows_outcome(end));
        assert(source_replicated(ops, rand, plan, fit@, source, out));
        assert(rand.start_gives(seed, source));
        assert(fit_replicated(ops, rand, meta@, data_views(data@), seed, Ok(fit@), out));
    }
    match end {
        Err(error) => Err(error),
        Ok((records, draws, _)) => {
            let source_list: Vec<FitSourceDraw> = list_sources(&fit.draws);
            assert(fit@.draws =~= list_views(fit.draws@));
            Ok(
                PosteriorPredictiveRun {
                    sites: records,
                    draws,
                    source_seed: fit.source_seed,
                    source_draws: source_list,
                },
            )
        },
    }
}

/// The inputs of a posterior-predictive run.
pub struct PosteriorInputs<'a> {
    pub meta: &'a ModelMeta,
    /// The model spelled out, as its identity counts it.
    pub model_text: &'a str,
    pub data: &'a Vec<(String, DataValue)>,
    pub fit_ndjson: &'a str,
    pub expected_model_data_fingerprint: Option<&'a str>,
}

impl<'a> View for PosteriorInputs<'a> {
    type V = ReplicaInputs;

    open spec fn view(&self) -> ReplicaInputs {
        ReplicaInputs {
            meta: self.meta@,
            model_text: self.model_text@,
            data: data_views(self.data@),
            fit: self.fit_ndjson@,
            fingerprint: borrowed_text(self.expected_model_data_fingerprint),
        }
    }
}

/// Simulates replicated observed values, one draw per retained posterior draw.
pub fn simulate_posterior_predictive_with_model_data_fingerprint<
    'a,
    A: Arithmetic,
    N: Randomness,
    R: Fn(&str) -> Result<Value, Error>,
>(inputs: &PosteriorInputs<'a>, seed: u64, ops: &A, rand: &N, read_json: &R) -> (r: Result<
    PosteriorPredictiveRun,
    Error,
>)
    requires
        ops.reliable(),
        rand.ready(),
        all_filled(data_views(inputs.data@)),
        forall|s: &str| #[trigger] call_requires(*read_json, (s,)),
    ensures
        posterior_replicated(
            ops,
            rand,
            |s: Seq<char>, v: Result<Json, Fault>| reads(*read_json, s, v),
            inputs@,
            seed,
            outcome(r),
        ),
        r is Ok ==> sound_records(r->Ok_0@.run.sites),
{
    let ghost reading = |s: Seq<char>, v: Result<Json, Fault>| reads(*read_json, s, v);
    let ghost given = inputs@;
    validate_reportable_seed(seed, "posterior-predictive artifact")?;
    let bound: Result<Posterior, Error> = Posterior::bind(
        inputs.meta,
        crate::data::copy_data(inputs.data),
        ops,
    );
    let ghost layout = packing_of(bound);
    assert(packs(ops, given.meta, given.data, layout));
    let posterior: Posterior = match bound {
        Err(error) => {
            assert(packing_replicated(ops, rand, reading, given, seed, layout, Err(error@)));
            return Err(error);
        },
        Ok(posterior) => posterior,
    };
    let packing: Vec<(String, Vec<usize>)> = posterior.packing();
    assert(packing_views(packing@) =~= layout->Ok_0);
    let hash: String = posterior_identity_hash(inputs.model_text, inputs.data);
    let read: Result<FitDrawStream, Error> = parse_fit_stream(
        inputs.fit_ndjson,
        &packing,
        hash.as_str(),
        inputs.expected_model_data_fingerprint,
        read_json,
    );
    let ghost stream = outcome(read);
    assert(stream_read(
        reading,
        given.fit,
        layout->Ok_0,
        identity_hash(given.model_text, given.data),
        given.fingerprint,
        stream,
    ));
    let fit: FitDrawStream = match read {
        Err(error) => {
            proof {
                assert(fit_replicated(
                    ops,
                    rand,
                    given.meta,
                    given.data,
                    seed,
                    stream,
                    Err(error@),
                ));
                assert(packing_replicated(ops, rand, reading, given, seed, layout, Err(error@)));
            }
            return Err(error);
        },
        Ok(fit) => fit,
    };
    let out: Result<PosteriorPredictiveRun, Error> = replicate_fit(
        inputs.meta,
        inputs.data,
        &fit,
        seed,
        ops,
        rand,
    );
    assert(packing_replicated(ops, rand, reading, given, seed, layout, outcome(out)));
    out
}

} // verus!
