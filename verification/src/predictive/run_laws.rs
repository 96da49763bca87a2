//! How the sites of a run are drawn: one after the other, each with what came before it.

use vstd::prelude::*;

#[allow(unused_imports)]
use crate::data::DataModel;
#[allow(unused_imports)]
use crate::error::Fault;
#[allow(unused_imports)]
use crate::ir::{ExprModel, SiteModel};
#[allow(unused_imports)]
use crate::model::data_named;
#[allow(unused_imports)]
use crate::numerics::{Arithmetic, Randomness};
#[allow(unused_imports)]
use crate::tensor::TensorModel;

#[allow(unused_imports)]
use super::fit::FitModel;
#[allow(unused_imports)]
use super::forward::{last_named, EnvModel};
#[allow(unused_imports)]
use super::partial::StepModel;
#[allow(unused_imports)]
use super::prior::{plain_step, row_drawn, row_extended, site_drawn, RowModel};
#[allow(unused_imports)]
use super::records::{PriorPredictiveRole, RunModel};
#[allow(unused_imports)]
use super::replicate::{
    assigned, assigning, assignments, drawn_values, replica_extended, replica_step, row_replicated,
    rows_replicated, shape_replicated, site_replicated, taken, untaken_from, ReplicaPlan,
};
#[allow(unused_imports)]
use super::restricted::constrained_sampled;
#[allow(unused_imports)]
use super::sampling::sampled;
#[allow(unused_imports)]
use super::sampling_laws::{law_constrained_draw_meets_its_constraint, meets};
#[allow(unused_imports)]
use super::setup::FreeSpecModel;
#[allow(unused_imports)]
use super::target::target_shaped;

verus! {

/// What later sites see of the steps before them, behind what was there to begin with.
pub open spec fn seen_after(
    start: Seq<(Seq<char>, TensorModel)>,
    steps: Seq<StepModel>,
) -> Seq<(Seq<char>, TensorModel)> {
    start + steps.map_values(|step: StepModel| (step.name, step.given))
}

/// Whether steps were taken in turn: each by its own site, from the source that the one before it
/// left, and where what the ones before it gave is seen.
pub open spec fn steps_in_turn<S>(
    taken: spec_fn(Seq<(Seq<char>, TensorModel)>, int, S, StepModel, S) -> bool,
    start: Seq<(Seq<char>, TensorModel)>,
    steps: Seq<StepModel>,
    sources: Seq<S>,
) -> bool {
    &&& sources.len() == steps.len() + 1
    &&& forall|i: int|
        0 <= i < steps.len() ==> taken(
            seen_after(start, steps.take(i)),
            i,
            sources[i],
            #[trigger] steps[i],
            sources[i + 1],
        )
}

/// Whether a row shows steps: the value of each under the name it is recorded by.
pub open spec fn shows(row: RowModel, steps: Seq<StepModel>) -> bool {
    &&& row.values.len() == steps.len()
    &&& row.records.len() == steps.len()
    &&& forall|i: int|
        0 <= i < steps.len() ==> row.values[i] == ((#[trigger] steps[i]).record.name, steps[i].value)
            && row.records[i] == steps[i].record
}

proof fn lemma_steps_extended<S>(
    taken: spec_fn(Seq<(Seq<char>, TensorModel)>, int, S, StepModel, S) -> bool,
    start: Seq<(Seq<char>, TensorModel)>,
    steps: Seq<StepModel>,
    sources: Seq<S>,
    before: (RowModel, S),
    step: StepModel,
    after: S,
    row: RowModel,
)
    requires
        steps_in_turn(taken, start, steps, sources),
        shows(before.0, steps),
        before.0.seen == seen_after(start, steps),
        sources.last() == before.1,
        taken(before.0.seen, steps.len() as int, before.1, step, after),
        row_extended(before, Ok((step, after)), Ok((row, after))),
    ensures
        steps_in_turn(taken, start, steps.push(step), sources.push(after)),
        shows(row, steps.push(step)),
        row.seen == seen_after(start, steps.push(step)),
{
    let all = steps.push(step);
    let states = sources.push(after);
    assert(row.seen =~= seen_after(start, all));
    assert forall|i: int| 0 <= i < all.len() implies taken(
        seen_after(start, all.take(i)),
        i,
        states[i],
        #[trigger] all[i],
        states[i + 1],
    ) by {
        assert(all.take(i) =~= steps.take(i));
        if i < steps.len() {
            assert(steps[i] == all[i]);
        } else {
            assert(steps.take(i) =~= steps);
        }
    }
    assert forall|i: int| 0 <= i < all.len() implies row.values[i] == (
        (#[trigger] all[i]).record.name,
        all[i].value,
    ) && row.records[i] == all[i].record by {
        if i < steps.len() {
            assert(steps[i] == all[i]);
        }
    }
}

/// How a site of a prior draw is taken.
pub open spec fn prior_step<A: Arithmetic, N: Randomness>(
    ops: &A,
    rand: &N,
    specs: Seq<(Seq<char>, FreeSpecModel)>,
    data: Seq<(Seq<char>, DataModel)>,
    sites: Seq<SiteModel>,
) -> spec_fn(Seq<(Seq<char>, TensorModel)>, int, N::Source, StepModel, N::Source) -> bool {
    |seen: Seq<(Seq<char>, TensorModel)>, i: int, a: N::Source, step: StepModel, b: N::Source|
        site_drawn(ops, rand, specs, EnvModel { values: seen, data }, sites[i], a, Ok((step, b)))
}

/// A prior draw takes every site once and in order, each where the values of all sites before it
/// are seen and from the source that they left; it shows the value of each.
pub proof fn law_prior_draw_takes_its_sites_in_turn<A: Arithmetic, N: Randomness>(
    ops: &A,
    rand: &N,
    specs: Seq<(Seq<char>, FreeSpecModel)>,
    data: Seq<(Seq<char>, DataModel)>,
    sites: Seq<SiteModel>,
    source: N::Source,
    out: (RowModel, N::Source),
)
    requires
        row_drawn(ops, rand, specs, data, sites, source, Ok(out)),
    ensures
        exists|steps: Seq<StepModel>, sources: Seq<N::Source>| #[trigger]
            steps_in_turn(
                prior_step(ops, rand, specs, data, sites),
                Seq::empty(),
                steps,
                sources,
            ) && steps.len() == sites.len() && sources[0] == source && sources.last() == out.1
                && shows(out.0, steps) && out.0.seen == seen_after(Seq::empty(), steps),
    decreases sites.len(),
{
    let taken = prior_step(ops, rand, specs, data, sites);
    let done = Ok::<(RowModel, N::Source), Fault>(out);
    if sites.len() == 0 {
        let steps = Seq::<StepModel>::empty();
        let sources = seq![source];
        assert(out.0.seen =~= seen_after(Seq::empty(), steps));
        assert(steps_in_turn(taken, Seq::empty(), steps, sources));
    } else {
        let (before, item) = choose|
            before: (RowModel, N::Source),
            item: Result<(StepModel, N::Source), Fault>,
        | #[trigger]
            row_extended(before, item, done) && row_drawn(
                ops,
                rand,
                specs,
                data,
                sites.drop_last(),
                source,
                Ok(before),
            ) && site_drawn(
                ops,
                rand,
                specs,
                EnvModel { values: before.0.seen, data },
                sites.last(),
                before.1,
                item,
            );
        law_prior_draw_takes_its_sites_in_turn(
            ops,
            rand,
            specs,
            data,
            sites.drop_last(),
            source,
            before,
        );
        let inner = prior_step(ops, rand, specs, data, sites.drop_last());
        let (steps, sources) = choose|steps: Seq<StepModel>, sources: Seq<N::Source>| #[trigger]
            steps_in_turn(inner, Seq::empty(), steps, sources) && steps.len() == sites.len() - 1
                && sources[0] == source && sources.last() == before.1 && shows(before.0, steps)
                && before.0.seen == seen_after(Seq::empty(), steps);
        assert(steps_in_turn(taken, Seq::empty(), steps, sources)) by {
            assert forall|i: int| 0 <= i < steps.len() implies taken(
                seen_after(Seq::empty(), steps.take(i)),
                i,
                sources[i],
                #[trigger] steps[i],
                sources[i + 1],
            ) by {
                assert(sites.drop_last()[i] == sites[i]);
                assert(inner(
                    seen_after(Seq::empty(), steps.take(i)),
                    i,
                    sources[i],
                    steps[i],
                    sources[i + 1],
                ));
            }
        }
        let (step, after) = item->Ok_0;
        assert(item == Ok::<(StepModel, N::Source), Fault>((step, after)));
        assert(out.1 == after);
        lemma_steps_extended(taken, Seq::empty(), steps, sources, before, step, after, out.0);
    }
}

/// A parameter is drawn from the distribution of its site, in the shape and within the constraint of
/// its free value, and later sites see it under its name; it is recorded as a parameter.
pub proof fn law_prior_parameter_meets_its_constraint<A: Arithmetic, N: Randomness>(
    ops: &A,
    rand: &N,
    specs: Seq<(Seq<char>, FreeSpecModel)>,
    env: EnvModel,
    site: SiteModel,
    name: Seq<char>,
    source: N::Source,
    out: (StepModel, N::Source),
)
    requires
        site.value == ExprModel::Param(name),
        site_drawn(ops, rand, specs, env, site, source, Ok(out)),
    ensures
        last_named(specs, name) matches Some(free) && meets(out.0.value, free.constraint) && (
        exists|before: N::Source| #[trigger]
            sampled(
                ops,
                rand,
                env,
                site.distribution,
                Some(free.shape),
                before,
                Ok((out.0.value, out.1)),
            )),
        out.0.name == name && out.0.given == out.0.value,
        out.0.record.name == name && out.0.record.stochastic_site == site.name,
        out.0.record.role is Parameter && out.0.record.shape == out.0.value.shape,
{
    let free = last_named(specs, name)->0;
    let draw = choose|draw: Result<(TensorModel, N::Source), Fault>| #[trigger]
        constrained_sampled(
            ops,
            rand,
            env,
            site.distribution,
            free.shape,
            free.constraint,
            name,
            super::restricted::MAX_TRIES as nat,
            source,
            draw,
        ) && Ok::<(StepModel, N::Source), Fault>(out) == plain_step(
            name,
            site.name,
            PriorPredictiveRole::Parameter,
            draw,
        );
    assert(draw == Ok::<(TensorModel, N::Source), Fault>((out.0.value, out.1)));
    law_constrained_draw_meets_its_constraint(
        ops,
        rand,
        env,
        site.distribution,
        free.shape,
        free.constraint,
        name,
        super::restricted::MAX_TRIES as nat,
        source,
        (out.0.value, out.1),
    );
}

/// Observed data are drawn from the distribution of their site, are not bound before, and are seen
/// and recorded under their name as observed.
pub proof fn law_prior_outcome_comes_from_its_site<A: Arithmetic, N: Randomness>(
    ops: &A,
    rand: &N,
    specs: Seq<(Seq<char>, FreeSpecModel)>,
    env: EnvModel,
    site: SiteModel,
    name: Seq<char>,
    source: N::Source,
    out: (StepModel, N::Source),
)
    requires
        site.value == ExprModel::Data(name),
        site_drawn(ops, rand, specs, env, site, source, Ok(out)),
    ensures
        data_named(env.data, name) is None,
        sampled(ops, rand, env, site.distribution, None, source, Ok((out.0.value, out.1))),
        out.0.name == name && out.0.given == out.0.value,
        out.0.record.name == name && out.0.record.stochastic_site == site.name,
        out.0.record.role is Observed && out.0.record.shape == out.0.value.shape,
{
    let draw = choose|draw: Result<(TensorModel, N::Source), Fault>| #[trigger]
        sampled(ops, rand, env, site.distribution, None, source, draw) && Ok::<
            (StepModel, N::Source),
            Fault,
        >(out) == plain_step(name, site.name, PriorPredictiveRole::Observed, draw);
    assert(draw == Ok::<(TensorModel, N::Source), Fault>((out.0.value, out.1)));
}

/// How an observed value is replicated over a posterior draw.
pub open spec fn replica_taken<A: Arithmetic, N: Randomness>(
    ops: &A,
    rand: &N,
    plan: ReplicaPlan,
) -> spec_fn(Seq<(Seq<char>, TensorModel)>, int, N::Source, StepModel, N::Source) -> bool {
    |seen: Seq<(Seq<char>, TensorModel)>, i: int, a: N::Source, step: StepModel, b: N::Source|
        site_replicated(
            ops,
            rand,
            plan.data,
            EnvModel { values: seen, data: plan.declared },
            plan.found[i].0,
            plan.sites[plan.found[i].1],
            a,
            Ok((step, b)),
        )
}

/// A replicated value is drawn from the distribution of its site, in the shape that the observed one
/// takes with the parameters, and is seen under its name.
pub proof fn law_replicated_value_comes_from_its_site<A: Arithmetic, N: Randomness>(
    ops: &A,
    rand: &N,
    data: Seq<(Seq<char>, DataModel)>,
    env: EnvModel,
    name: Seq<char>,
    site: SiteModel,
    source: N::Source,
    out: (StepModel, N::Source),
)
    requires
        site_replicated(ops, rand, data, env, name, site, source, Ok(out)),
    ensures
        data_named(data, name) matches Some(observed) && (exists|shape: Seq<usize>| #[trigger]
            target_shaped(ops, env, site.distribution, observed.shape, Ok(shape)) && sampled(
                ops,
                rand,
                env,
                site.distribution,
                Some(shape),
                source,
                Ok((out.0.value, out.1)),
            )),
        out.0.name == name && out.0.given == out.0.value,
        out.0.record.name == name && out.0.record.stochastic_site == site.name,
        out.0.record.shape == out.0.value.shape,
{
    let done = Ok::<(StepModel, N::Source), Fault>(out);
    let observed = data_named(data, name)->0;
    let target = choose|target: Result<Seq<usize>, Fault>| #[trigger]
        target_shaped(ops, env, site.distribution, observed.shape, target) && shape_replicated(
            ops,
            rand,
            env,
            name,
            site,
            target,
            source,
            done,
        );
    let shape = target->Ok_0;
    assert(target == Ok::<Seq<usize>, Fault>(shape));
    let draw = choose|draw: Result<(TensorModel, N::Source), Fault>| #[trigger]
        sampled(ops, rand, env, site.distribution, Some(shape), source, draw) && done
            == replica_step(name, site, draw);
    assert(draw == Ok::<(TensorModel, N::Source), Fault>((out.0.value, out.1)));
}

/// Every observed node is replicated by the one site that assigns it, and nothing else is: of the
/// sites found there is one for each node, in the order of the sites.
pub proof fn law_every_observed_node_has_its_site(
    names: Seq<Seq<char>>,
    sites: Seq<SiteModel>,
    found: Seq<(Seq<char>, int)>,
)
    requires
        assignments(names, sites) == Ok::<Seq<(Seq<char>, int)>, Fault>(found),
    ensures
        forall|i: int|
            0 <= i < names.len() ==> exists|k: int|
                0 <= k < found.len() && (#[trigger] found[k]).0 == #[trigger] names[i],
        forall|k: int|
            0 <= k < found.len() ==> 0 <= (#[trigger] found[k]).1 < sites.len()
                && sites[found[k].1].value == ExprModel::Data(found[k].0) && names.contains(
                found[k].0,
            ),
        forall|j: int, k: int|
            0 <= j < k < found.len() ==> (#[trigger] found[j]).1 < (#[trigger] found[k]).1
                && found[j].0 != found[k].0,
        forall|i: int|
            0 <= i < sites.len() && (#[trigger] sites[i]).value is Data && names.contains(
                sites[i].value->Data_0,
            ) ==> found.contains((sites[i].value->Data_0, i)),
{
    lemma_assigning(names, sites, sites.len(), found);
    assert forall|i: int| 0 <= i < names.len() implies exists|k: int|
        0 <= k < found.len() && (#[trigger] found[k]).0 == #[trigger] names[i] by {
        lemma_none_untaken(names, found, 0, i);
        let k = choose|k: int| 0 <= k < found.len() && (#[trigger] found[k]).0 == names[i];
        assert(found[k].0 == names[i]);
    }
}

proof fn lemma_none_untaken(
    names: Seq<Seq<char>>,
    found: Seq<(Seq<char>, int)>,
    from: int,
    i: int,
)
    requires
        0 <= from <= i < names.len(),
        untaken_from(names, found, from) is None,
    ensures
        taken(found, names[i]),
    decreases i - from,
{
    if from < i {
        lemma_none_untaken(names, found, from + 1, i);
    }
}

proof fn lemma_assigning(
    names: Seq<Seq<char>>,
    sites: Seq<SiteModel>,
    n: nat,
    found: Seq<(Seq<char>, int)>,
)
    requires
        n <= sites.len(),
        assigning(names, sites, n) == Ok::<Seq<(Seq<char>, int)>, Fault>(found),
    ensures
        forall|k: int|
            0 <= k < found.len() ==> 0 <= (#[trigger] found[k]).1 < n
                && sites[found[k].1].value == ExprModel::Data(found[k].0) && names.contains(
                found[k].0,
            ),
        forall|j: int, k: int|
            0 <= j < k < found.len() ==> (#[trigger] found[j]).1 < (#[trigger] found[k]).1
                && found[j].0 != found[k].0,
        forall|i: int|
            0 <= i < n && (#[trigger] sites[i]).value is Data && names.contains(
                sites[i].value->Data_0,
            ) ==> found.contains((sites[i].value->Data_0, i)),
    decreases n,
{
    if n > 0 {
        let before = assigning(names, sites, (n - 1) as nat)->Ok_0;
        lemma_assigning(names, sites, (n - 1) as nat, before);
        if assigned(names, sites[n - 1]) is Some {
            let name = assigned(names, sites[n - 1])->0;
            assert(found == before.push((name, n - 1)));
            assert(!taken(before, name));
            assert forall|j: int, k: int| 0 <= j < k < found.len() implies (
            #[trigger] found[j]).1 < (#[trigger] found[k]).1 && found[j].0 != found[k].0 by {
                assert(found[j] == before[j]);
                if k < before.len() {
                    assert(found[k] == before[k]);
                }
            }
            assert forall|k: int| 0 <= k < found.len() implies 0 <= (#[trigger] found[k]).1 < n
                && sites[found[k].1].value == ExprModel::Data(found[k].0) && names.contains(
                found[k].0,
            ) by {
                if k < before.len() {
                    assert(found[k] == before[k]);
                }
            }
            assert(found[before.len() as int] == (name, n - 1));
        }
        assert forall|i: int|
            0 <= i < n && (#[trigger] sites[i]).value is Data && names.contains(
                sites[i].value->Data_0,
            ) implies found.contains((sites[i].value->Data_0, i)) by {
            if i < n - 1 {
                let k = choose|k: int|
                    0 <= k < before.len() && before[k] == (sites[i].value->Data_0, i);
                assert(before.contains((sites[i].value->Data_0, i)));
                assert(found[k] == before[k]);
            }
        }
    }
}

/// A replica takes every observed value once and in order, each where the posterior draw and the
/// values replicated before it are seen.
pub proof fn law_replica_takes_its_sites_in_turn<A: Arithmetic, N: Randomness>(
    ops: &A,
    rand: &N,
    plan: ReplicaPlan,
    posterior: Seq<(Seq<char>, TensorModel)>,
    n: nat,
    source: N::Source,
    out: (RowModel, N::Source),
)
    requires
        row_replicated(ops, rand, plan, posterior, n, source, Ok(out)),
    ensures
        exists|steps: Seq<StepModel>, sources: Seq<N::Source>| #[trigger]
            steps_in_turn(replica_taken(ops, rand, plan), posterior, steps, sources) && steps.len()
                == n && sources[0] == source && sources.last() == out.1 && shows(out.0, steps)
                && out.0.seen == seen_after(posterior, steps),
    decreases n,
{
    let taken = replica_taken(ops, rand, plan);
    let done = Ok::<(RowModel, N::Source), Fault>(out);
    if n == 0 {
        let steps = Seq::<StepModel>::empty();
        let sources = seq![source];
        assert(out.0.seen =~= seen_after(posterior, steps));
        assert(steps_in_turn(taken, posterior, steps, sources));
    } else {
        let (before, item) = choose|
            before: (RowModel, N::Source),
            item: Result<(StepModel, N::Source), Fault>,
        | #[trigger]
            row_extended(before, item, done) && row_replicated(
                ops,
                rand,
                plan,
                posterior,
                (n - 1) as nat,
                source,
                Ok(before),
            ) && site_replicated(
                ops,
                rand,
                plan.data,
                EnvModel { values: before.0.seen, data: plan.declared },
                plan.found[n - 1].0,
                plan.sites[plan.found[n - 1].1],
                before.1,
                item,
            );
        law_replica_takes_its_sites_in_turn(
            ops,
            rand,
            plan,
            posterior,
            (n - 1) as nat,
            source,
            before,
        );
        let (steps, sources) = choose|steps: Seq<StepModel>, sources: Seq<N::Source>| #[trigger]
            steps_in_turn(taken, posterior, steps, sources) && steps.len() == n - 1 && sources[0]
                == source && sources.last() == before.1 && shows(before.0, steps) && before.0.seen
                == seen_after(posterior, steps);
        let (step, after) = item->Ok_0;
        assert(item == Ok::<(StepModel, N::Source), Fault>((step, after)));
        assert(out.1 == after);
        lemma_steps_extended(taken, posterior, steps, sources, before, step, after, out.0);
    }
}

/// Whether a run shows rows: the values of each in order.
pub open spec fn rows_in_turn<S>(
    taken: spec_fn(int, S, RowModel, S) -> bool,
    rows: Seq<RowModel>,
    sources: Seq<S>,
    run: RunModel,
) -> bool {
    &&& sources.len() == rows.len() + 1
    &&& run.draws.len() == rows.len()
    &&& rows.len() > 0 ==> run.sites == rows[0].records
    &&& forall|i: int|
        0 <= i < rows.len() ==> taken(i, sources[i], #[trigger] rows[i], sources[i + 1])
            && run.draws[i] == rows[i].values
}

/// How a posterior draw is replicated: with its values under the names of the parameters.
pub open spec fn replica_of_draw<A: Arithmetic, N: Randomness>(
    ops: &A,
    rand: &N,
    plan: ReplicaPlan,
    fit: FitModel,
) -> spec_fn(int, N::Source, RowModel, N::Source) -> bool {
    |i: int, a: N::Source, row: RowModel, b: N::Source|
        row_replicated(
            ops,
            rand,
            plan,
            Seq::new(fit.params.len(), |k: int| (fit.params[k].name, fit.draws[i].values[k])),
            plan.found.len(),
            a,
            Ok((row, b)),
        )
}

/// Every replica of a run is that of its own posterior draw, and begins with the source that the
/// replica before it left.
pub proof fn law_replicas_follow_the_posterior_draws<A: Arithmetic, N: Randomness>(
    ops: &A,
    rand: &N,
    plan: ReplicaPlan,
    fit: FitModel,
    n: nat,
    source: N::Source,
    out: (RunModel, N::Source),
)
    requires
        rows_replicated(ops, rand, plan, fit, n, source, Ok(out)),
    ensures
        exists|rows: Seq<RowModel>, sources: Seq<N::Source>| #[trigger]
            rows_in_turn(replica_of_draw(ops, rand, plan, fit), rows, sources, out.0) && rows.len() == n && sources[0] == source && sources.last() == out.1,
    decreases n,
{
    let taken = replica_of_draw(ops, rand, plan, fit);
    let done = Ok::<(RunModel, N::Source), Fault>(out);
    if n == 0 {
        let rows = Seq::<RowModel>::empty();
        let sources = seq![source];
        assert(rows_in_turn(taken, rows, sources, out.0));
    } else {
        let (before, row) = choose|
            before: (RunModel, N::Source),
            row: Result<(RowModel, N::Source), Fault>,
        | #[trigger]
            replica_extended(before, row, done) && rows_replicated(
                ops,
                rand,
                plan,
                fit,
                (n - 1) as nat,
                source,
                Ok(before),
            ) && row_replicated(
                ops,
                rand,
                plan,
                drawn_values(fit.params, fit.draws[n - 1]),
                plan.found.len(),
                before.1,
                row,
            );
        law_replicas_follow_the_posterior_draws(
            ops,
            rand,
            plan,
            fit,
            (n - 1) as nat,
            source,
            before,
        );
        let (rows, sources) = choose|rows: Seq<RowModel>, sources: Seq<N::Source>| #[trigger]
            rows_in_turn(taken, rows, sources, before.0) && rows.len() == n - 1 && sources[0]
                == source && sources.last() == before.1;
        let (last, after) = row->Ok_0;
        assert(row == Ok::<(RowModel, N::Source), Fault>((last, after)));
        let all = rows.push(last);
        let states = sources.push(after);
        assert(drawn_values(fit.params, fit.draws[n - 1]) =~= Seq::new(
            fit.params.len(),
            |k: int| (fit.params[k].name, fit.draws[n - 1].values[k]),
        ));
        assert forall|i: int| 0 <= i < all.len() implies taken(
            i,
            states[i],
            #[trigger] all[i],
            states[i + 1],
        ) && out.0.draws[i] == all[i].values by {
            if i < rows.len() {
                assert(rows[i] == all[i]);
            }
        }
        assert(rows_in_turn(taken, all, states, out.0));
    }
}

} // verus!
