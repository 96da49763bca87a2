//! What a log density is made of: every parameter in its place, and one share for every free value
//! and every site.

use vstd::prelude::*;

#[allow(unused_imports)]
use crate::data::DataModel;
#[allow(unused_imports)]
use crate::density::{density_term, DistVars, Var};
#[allow(unused_imports)]
use crate::error::Fault;
#[allow(unused_imports)]
use crate::ir::{dist_params, optional_param, BinOpKind, DistModel, ExprModel, SiteModel};
#[allow(unused_imports)]
use crate::number::{number_of_integer, NumberModel};
#[allow(unused_imports)]
use crate::numerics::Arithmetic;
#[allow(unused_imports)]
use crate::predictive::forward::EnvModel;
#[allow(unused_imports)]
use crate::tensor::{full, TensorModel};
#[allow(unused_imports)]
use crate::term::{Term, UnaryOp};

#[allow(unused_imports)]
use super::calculus::{in_order, scalar, sized, sums, Calculus, InputsModel};
#[allow(unused_imports)]
use super::compiled::{flattened, gradient_joined, graph_grades, slopes_joined};
#[allow(unused_imports)]
use super::evaluate::settled;
#[allow(unused_imports)]
use super::graph::{form_places, site_form, GraphModel, SiteFormModel, SlotFormModel};
#[allow(unused_imports)]
use super::parameters::{all_settled, describes, lemma_score, stands};
#[allow(unused_imports)]
use super::place::{
    form_gives, form_inputs, form_placed, forms_placed, jacobian_joined, nothing, slot_added, slot_joined,
    total_joined, PlacedModel, SlotValueModel,
};
#[allow(unused_imports)]
use super::point::{
    graph_fits, graph_gives, logp_joined, params_added, parts_give, score_added, site_added, site_checked,
    sites_added, sum_added, value_added,
};

verus! {

/// Whether an input stands for a parameter: it is the one at the place of that parameter among the
/// parameters that are evaluated.
pub open spec fn stands_for(var: Var, e: ExprModel, exprs: Seq<ExprModel>, from: int) -> bool {
    exists|k: int| 0 <= k < exprs.len() && #[trigger] exprs[k] == e && var.term == Term::Leaf((from + k) as usize)
}

/// Whether an input stands for a bound, and is missing exactly where the bound is.
pub open spec fn stands_for_bound(
    var: Option<Var>,
    e: Option<ExprModel>,
    exprs: Seq<ExprModel>,
    from: int,
) -> bool {
    match e {
        Some(found) => var is Some && stands_for(var->0, found, exprs, from),
        None => var is None,
    }
}

/// Whether the parameters of a distribution go by their names: every input stands for the parameter
/// of its name.
pub open spec fn named_alike(vars: DistVars, d: DistModel, exprs: Seq<ExprModel>, from: int) -> bool
    decreases d,
{
    match d {
        DistModel::Normal { loc, scale } => vars matches DistVars::Normal { loc: a, scale: b }
            && stands_for(a, loc, exprs, from) && stands_for(b, scale, exprs, from),
        DistModel::HalfNormal { scale } => vars matches DistVars::HalfNormal { scale: a }
            && stands_for(a, scale, exprs, from),
        DistModel::StudentT { df, loc, scale } => vars matches DistVars::StudentT {
            df: a,
            loc: b,
            scale: c,
        } && stands_for(a, df, exprs, from) && stands_for(b, loc, exprs, from) && stands_for(
            c,
            scale,
            exprs,
            from,
        ),
        DistModel::Exponential { rate } => vars matches DistVars::Exponential { rate: a }
            && stands_for(a, rate, exprs, from),
        DistModel::Uniform { low, high } => vars matches DistVars::Uniform { low: a, high: b }
            && stands_for(a, low, exprs, from) && stands_for(b, high, exprs, from),
        DistModel::Beta { alpha, beta } => vars matches DistVars::Beta { alpha: a, beta: b }
            && stands_for(a, alpha, exprs, from) && stands_for(b, beta, exprs, from),
        DistModel::Bernoulli { probs } => vars matches DistVars::Bernoulli { probs: a }
            && stands_for(a, probs, exprs, from),
        DistModel::Poisson { rate } => vars matches DistVars::Poisson { rate: a } && stands_for(
            a,
            rate,
            exprs,
            from,
        ),
        DistModel::Binomial { total_count, probs } => vars matches DistVars::Binomial {
            total_count: a,
            probs: b,
        } && stands_for(a, total_count, exprs, from) && stands_for(b, probs, exprs, from),
        DistModel::BetaBinomial {
            total_count,
            alpha,
            beta,
        } => vars matches DistVars::BetaBinomial { total_count: a, alpha: b, beta: c }
            && stands_for(a, total_count, exprs, from) && stands_for(b, alpha, exprs, from)
            && stands_for(c, beta, exprs, from),
        DistModel::NegativeBinomial {
            mean,
            overdispersion,
        } => vars matches DistVars::NegativeBinomial { mean: a, overdispersion: b } && stands_for(
            a,
            mean,
            exprs,
            from,
        ) && stands_for(b, overdispersion, exprs, from),
        DistModel::MultivariateNormal {
            mean,
            scale_tril,
        } => vars matches DistVars::MultivariateNormal { mean: a, scale_tril: b } && stands_for(
            a,
            mean,
            exprs,
            from,
        ) && stands_for(b, scale_tril, exprs, from),
        DistModel::OrderedLogistic { eta, cutpoints } => vars matches DistVars::OrderedLogistic {
            eta: a,
            cutpoints: b,
        } && stands_for(a, eta, exprs, from) && stands_for(b, cutpoints, exprs, from),
        DistModel::Truncated { base, lower, upper } => vars matches DistVars::Truncated {
            base: inner,
            lower: a,
            upper: b,
        } && named_alike(*inner, *base, exprs, from) && stands_for_bound(a, lower, exprs, from)
            && stands_for_bound(b, upper, exprs, from),
    }
}

/// What stands for a parameter stands for it in a longer list.
proof fn lemma_named_alike_grows(
    vars: DistVars,
    d: DistModel,
    exprs: Seq<ExprModel>,
    more: Seq<ExprModel>,
    from: int,
)
    requires
        named_alike(vars, d, exprs, from),
    ensures
        named_alike(vars, d, exprs + more, from),
    decreases d,
{
    let all = exprs + more;
    assert forall|var: Var, e: ExprModel| stands_for(var, e, exprs, from) implies #[trigger]
        stands_for(var, e, all, from) by {
        let k = choose|k: int| 0 <= k < exprs.len() && #[trigger] exprs[k] == e && var.term == Term::Leaf((from + k) as usize);
        assert(all[k] == e);
    }
    if let DistModel::Truncated { base, .. } = d {
        lemma_named_alike_grows(*vars->base, *base, exprs, more, from);
    }
}

/// The inputs of a distribution go by the names of its parameters: each stands for the parameter of
/// its name, wherever that comes among those evaluated.
pub proof fn law_parameters_keep_their_names(
    vars: DistVars,
    d: DistModel,
    tensors: Seq<TensorModel>,
    from: int,
)
    requires
        describes(vars, d, tensors, from),
    ensures
        named_alike(vars, d, dist_params(d), from),
    decreases d,
{
    let exprs = dist_params(d);
    if let DistModel::Truncated { base, lower, upper } = d {
        let inner = dist_params(*base);
        law_parameters_keep_their_names(*vars->base, *base, tensors, from);
        lemma_named_alike_grows(*vars->base, *base, inner, optional_param(lower), from);
        lemma_named_alike_grows(
            *vars->base,
            *base,
            inner + optional_param(lower),
            optional_param(upper),
            from,
        );
        if let Some(e) = lower {
            assert(exprs[inner.len() as int] == e);
        }
        if let Some(e) = upper {
            assert(exprs[(inner + optional_param(lower)).len() as int] == e);
        }
    } else {
        assert(exprs.len() > 0 && exprs[0] == exprs[0]);
        if exprs.len() > 1 {
            assert(exprs[1] == exprs[1]);
        }
        if exprs.len() > 2 {
            assert(exprs[2] == exprs[2]);
        }
    }
}

/// The log density of a site is that of its value under its distribution: with inputs that go by
/// the names of its parameters, and the value behind them.
pub proof fn law_site_scores_its_value(
    site: SiteModel,
    vars: DistVars,
    tensors: Seq<TensorModel>,
)
    requires
        describes(vars, site.distribution, tensors, 0),
    ensures
        named_alike(vars, site.distribution, dist_params(site.distribution), 0),
        site_form(site).score == density_term(
            vars,
            Term::Leaf(dist_params(site.distribution).len() as usize),
        ),
        site_form(site).value == site.value,
        site_form(site).distribution == site.distribution,
{
    law_parameters_keep_their_names(vars, site.distribution, tensors, 0);
    lemma_score(
        vars,
        site.distribution,
        tensors,
        0,
        Term::Leaf(dist_params(site.distribution).len() as usize),
    );
}

/// Whether a reading of numbers as reals finds single numbers added up exactly.
pub open spec fn adds_up<A: Arithmetic>(ops: &A, val: spec_fn(NumberModel) -> real) -> bool {
    forall|a: TensorModel, b: TensorModel, out: TensorModel| #[trigger]
        ops.binary_gives(BinOpKind::Add, a, b, Ok(out)) && scalar(a) && scalar(b) ==> scalar(out)
            && val(out.values[0]) == val(a.values[0]) + val(b.values[0])
}

/// Whether sums of entries are single numbers.
pub open spec fn sums_are_scalars<S: Calculus>(s: &S) -> bool {
    forall|term: Term, inputs: InputsModel, out: TensorModel| #[trigger]
        s.term_gives(term, inputs, Ok(out)) ==> in_order(term, Ok(out))
}

/// The sum of reals.
pub open spec fn total(shares: Seq<real>) -> real
    decreases shares.len(),
{
    if shares.len() == 0 {
        0real
    } else {
        total(shares.drop_last()) + shares.last()
    }
}

/// Whether a free value adds this to a log density, and takes this value: its logarithmic Jacobian
/// summed over its entries, or nothing where it has none.
pub open spec fn slot_share<S: Calculus>(
    s: &S,
    val: spec_fn(NumberModel) -> real,
    form: SlotFormModel,
    q: Seq<NumberModel>,
    value: TensorModel,
    share: real,
) -> bool {
    &&& s.term_gives(form.form.value, form_inputs(form, q), Ok(value))
    &&& match form.form.jacobian {
        None => share == 0real,
        Some(term) => exists|t: TensorModel| #[trigger]
            s.term_gives(term.unary(UnaryOp::Sum), form_inputs(form, q), Ok(t)) && share == val(
                t.values[0],
            ),
    }
}

/// Whether a site adds this to a log density: the log density of its value under its parameters as
/// they come out, summed over its entries.
pub open spec fn site_share<S: Calculus>(
    s: &S,
    val: spec_fn(NumberModel) -> real,
    env: EnvModel,
    site: SiteFormModel,
    share: real,
) -> bool {
    exists|params: Seq<TensorModel>, x: TensorModel, t: TensorModel| #[trigger]
        s.term_gives(
            site.score.unary(UnaryOp::Sum),
            InputsModel { leaves: params.push(x), lower: None, upper: None },
            Ok(t),
        ) && all_settled(s, dist_params(site.distribution), env, Ok(params)) && settled(
            s,
            site.value,
            env,
            Ok(x),
        ) && share == val(t.values[0])
}

/// Whether free values take these values under their names and add these shares.
pub open spec fn slots_share<S: Calculus>(
    s: &S,
    val: spec_fn(NumberModel) -> real,
    slots: Seq<Result<SlotFormModel, Fault>>,
    q: Seq<NumberModel>,
    values: Seq<(Seq<char>, TensorModel)>,
    shares: Seq<real>,
) -> bool {
    &&& values.len() == slots.len()
    &&& shares.len() == slots.len()
    &&& forall|i: int|
        0 <= i < slots.len() ==> (#[trigger] slots[i]) is Ok && values[i].0
            == slots[i]->Ok_0.place.name && slot_share(
            s,
            val,
            slots[i]->Ok_0,
            q,
            values[i].1,
            shares[i],
        )
}

/// Whether sites add these shares.
pub open spec fn sites_share<S: Calculus>(
    s: &S,
    val: spec_fn(NumberModel) -> real,
    env: EnvModel,
    sites: Seq<SiteFormModel>,
    shares: Seq<real>,
) -> bool {
    &&& shares.len() == sites.len()
    &&& forall|i: int|
        0 <= i < sites.len() ==> site_share(s, val, env, #[trigger] sites[i], shares[i])
}

proof fn lemma_slots_share<S: Calculus>(
    s: &S,
    val: spec_fn(NumberModel) -> real,
    slots: Seq<Result<SlotFormModel, Fault>>,
    q: Seq<NumberModel>,
    placed: PlacedModel,
) -> (shares: Seq<real>)
    requires
        adds_up(s, val),
        sums_are_scalars(s),
        val(number_of_integer(0)) == 0real,
        forms_placed(s, slots, q, Ok(placed)),
    ensures
        slots_share(s, val, slots, q, placed.values, shares),
        scalar(placed.total),
        val(placed.total.values[0]) == total(shares),
    decreases slots.len(),
{
    if slots.len() == 0 {
        assert(full(nothing()));
        Seq::empty()
    } else {
        let last = slots.last();
        let before = choose|before: PlacedModel| #[trigger]
            form_placed(s, before, last, q, Ok(placed)) && forms_placed(
                s,
                slots.drop_last(),
                q,
                Ok(before),
            );
        let shares = lemma_slots_share(s, val, slots.drop_last(), q, before);
        let form = last->Ok_0;
        let slot = choose|slot: Result<SlotValueModel, Fault>| #[trigger]
            slot_added(s, before, form.place.name, slot, Ok(placed)) && form_gives(s, form, q, slot);
        let found = slot->Ok_0;
        let value = choose|value: Result<TensorModel, Fault>| #[trigger]
            slot_joined(s, form.form.jacobian, form_inputs(form, q), value, slot) && s.term_gives(
                form.form.value,
                form_inputs(form, q),
                value,
            );
        assert(value is Ok && value->Ok_0 == found.value);
        let share = match form.form.jacobian {
            None => 0real,
            Some(term) => val(found.jacobian->0.values[0]),
        };
        let out = shares.push(share);
        assert(out.drop_last() =~= shares);
        if let Some(term) = form.form.jacobian {
            let t = choose|t: Result<TensorModel, Fault>| #[trigger]
                jacobian_joined(value->Ok_0, t, slot) && s.term_gives(
                    term.unary(UnaryOp::Sum),
                    form_inputs(form, q),
                    t,
                );
            assert(t == Ok::<TensorModel, Fault>(found.jacobian->0));
            assert(in_order(term.unary(UnaryOp::Sum), t));
            assert(scalar(found.jacobian->0));
            let sum = choose|sum: Result<TensorModel, Fault>| #[trigger]
                total_joined(
                    before.values.push((form.place.name, found.value)),
                    sum,
                    Ok(placed),
                ) && s.binary_gives(BinOpKind::Add, before.total, found.jacobian->0, sum);
            assert(sum == Ok::<TensorModel, Fault>(placed.total));
        }
        assert(slot_share(s, val, form, q, found.value, share));
        assert forall|i: int| 0 <= i < slots.len() implies (#[trigger] slots[i]) is Ok
            && placed.values[i].0 == slots[i]->Ok_0.place.name && slot_share(
            s,
            val,
            slots[i]->Ok_0,
            q,
            placed.values[i].1,
            out[i],
        ) by {
            if i < slots.len() - 1 {
                assert(slots.drop_last()[i] == slots[i]);
            }
        }
        out
    }
}

proof fn lemma_site_share<S: Calculus>(
    s: &S,
    val: spec_fn(NumberModel) -> real,
    env: EnvModel,
    before: TensorModel,
    site: SiteFormModel,
    out: TensorModel,
) -> (share: real)
    requires
        adds_up(s, val),
        sums_are_scalars(s),
        scalar(before),
        site_added(s, env, before, site, Ok(out)),
    ensures
        site_share(s, val, env, site, share),
        scalar(out),
        val(out.values[0]) == val(before.values[0]) + share,
{
    let r = Ok::<TensorModel, Fault>(out);
    let params = choose|params: Result<Seq<TensorModel>, Fault>| #[trigger]
        params_added(s, env, before, site, params, r) && all_settled(
            s,
            dist_params(site.distribution),
            env,
            params,
        );
    let list = params->Ok_0;
    let value = choose|value: Result<TensorModel, Fault>| #[trigger]
        value_added(s, before, site, list, value, r) && settled(s, site.value, env, value);
    let x = value->Ok_0;
    let refusal = choose|refusal: Option<Fault>| #[trigger]
        score_added(s, before, site.score, list.push(x), refusal, r) && site_checked(
            s,
            site.distribution,
            list.push(x),
            refusal,
        );
    let inputs = InputsModel { leaves: list.push(x), lower: None, upper: None };
    let sum = choose|sum: Result<TensorModel, Fault>| #[trigger]
        sum_added(s, before, sum, r) && s.term_gives(
            site.score.unary(UnaryOp::Sum),
            inputs,
            sum,
        );
    let t = sum->Ok_0;
    assert(sum == Ok::<TensorModel, Fault>(t));
    assert(params == Ok::<Seq<TensorModel>, Fault>(list));
    assert(value == Ok::<TensorModel, Fault>(x));
    assert(in_order(site.score.unary(UnaryOp::Sum), Ok(t)));
    assert(s.binary_gives(BinOpKind::Add, before, t, Ok(out)));
    val(t.values[0])
}

proof fn lemma_sites_share<S: Calculus>(
    s: &S,
    val: spec_fn(NumberModel) -> real,
    env: EnvModel,
    start: TensorModel,
    sites: Seq<SiteFormModel>,
    out: TensorModel,
) -> (shares: Seq<real>)
    requires
        adds_up(s, val),
        sums_are_scalars(s),
        scalar(start),
        sites_added(s, env, start, sites, Ok(out)),
    ensures
        sites_share(s, val, env, sites, shares),
        scalar(out),
        val(out.values[0]) == val(start.values[0]) + total(shares),
    decreases sites.len(),
{
    if sites.len() == 0 {
        Seq::empty()
    } else {
        let before = choose|before: TensorModel| #[trigger]
            site_added(s, env, before, sites.last(), Ok(out)) && sites_added(
                s,
                env,
                start,
                sites.drop_last(),
                Ok(before),
            );
        let shares = lemma_sites_share(s, val, env, start, sites.drop_last(), before);
        let share = lemma_site_share(s, val, env, before, sites.last(), out);
        let all = shares.push(share);
        assert(all.drop_last() =~= shares);
        assert forall|i: int| 0 <= i < sites.len() implies site_share(
            s,
            val,
            env,
            #[trigger] sites[i],
            all[i],
        ) by {
            if i < sites.len() - 1 {
                assert(sites.drop_last()[i] == sites[i]);
            }
        }
        all
    }
}

/// A log density is the sum of one share for every free value, its logarithmic Jacobian, and one
/// for every site, the log density of its value where the free values have the values that they
/// are constrained to, under their names. It is so wherever single numbers add up exactly.
pub proof fn law_log_density_adds_every_share<S: Calculus>(
    s: &S,
    val: spec_fn(NumberModel) -> real,
    n_params: usize,
    slots: Seq<Result<SlotFormModel, Fault>>,
    sites: Seq<SiteFormModel>,
    data: Seq<(Seq<char>, DataModel)>,
    q: Seq<NumberModel>,
    out: TensorModel,
)
    requires
        adds_up(s, val),
        sums_are_scalars(s),
        val(number_of_integer(0)) == 0real,
        parts_give(s, n_params, slots, sites, data, q, Ok(out)),
    ensures
        q.len() == n_params,
        exists|
            values: Seq<(Seq<char>, TensorModel)>,
            jacobians: Seq<real>,
            scores: Seq<real>,
        | #[trigger]
            slots_share(s, val, slots, q, values, jacobians) && #[trigger] sites_share(
                s,
                val,
                EnvModel { values, data },
                sites,
                scores,
            ) && val(out.values[0]) == total(jacobians) + total(scores),
{
    let placed = choose|placed: Result<PlacedModel, Fault>| #[trigger]
        logp_joined(s, sites, data, placed, Ok(out)) && forms_placed(s, slots, q, placed);
    let found = placed->Ok_0;
    assert(placed == Ok::<PlacedModel, Fault>(found));
    let jacobians = lemma_slots_share(s, val, slots, q, found);
    let env = EnvModel { values: found.values, data };
    let scores = lemma_sites_share(s, val, env, found.total, sites, out);
    assert(slots_share(s, val, slots, q, found.values, jacobians) && sites_share(
        s,
        val,
        env,
        sites,
        scores,
    ));
}

/// A free value is computed from its own part of the packed vector: as many numbers as it has
/// coordinates, from its offset on, in its shape; and with its own bounds.
pub proof fn law_slot_reads_its_own_part(form: SlotFormModel, q: Seq<NumberModel>)
    requires
        form.place.offset + form.place.size <= q.len(),
    ensures
        ({
            let inputs = form_inputs(form, q);
            &&& inputs.leaves.len() == 1
            &&& inputs.leaves[0].shape == form.place.shape
            &&& inputs.leaves[0].values.len() == form.place.size
            &&& forall|j: int|
                0 <= j < form.place.size ==> #[trigger] inputs.leaves[0].values[j]
                    == q[form.place.offset + j]
            &&& inputs.lower == form.lower && inputs.upper == form.upper
        }),
{
}

/// Where the entries of the first tensors end.
pub open spec fn ends_at(tensors: Seq<TensorModel>, n: nat) -> nat
    decreases n,
{
    if n == 0 {
        0
    } else {
        ends_at(tensors, (n - 1) as nat) + tensors[n - 1].values.len()
    }
}

proof fn lemma_flattened_at(tensors: Seq<TensorModel>, i: int, j: int)
    requires
        0 <= i < tensors.len(),
        0 <= j < tensors[i].values.len(),
    ensures
        flattened(tensors).len() == ends_at(tensors, tensors.len()),
        ends_at(tensors, i as nat) + j < flattened(tensors).len(),
        flattened(tensors)[ends_at(tensors, i as nat) + j] == tensors[i].values[j],
    decreases tensors.len(),
{
    let before = tensors.drop_last();
    lemma_flattened_length(before);
    lemma_ends_alike(tensors, before.len());
    if i < before.len() {
        lemma_flattened_at(before, i, j);
        lemma_ends_alike(tensors, i as nat);
        assert(before[i] == tensors[i]);
    }
}

proof fn lemma_flattened_length(tensors: Seq<TensorModel>)
    ensures
        flattened(tensors).len() == ends_at(tensors, tensors.len()),
    decreases tensors.len(),
{
    if tensors.len() > 0 {
        lemma_flattened_length(tensors.drop_last());
        lemma_ends_alike(tensors, (tensors.len() - 1) as nat);
    }
}

proof fn lemma_ends_alike(tensors: Seq<TensorModel>, n: nat)
    requires
        n < tensors.len(),
    ensures
        ends_at(tensors.drop_last(), n) == ends_at(tensors, n),
    decreases n,
{
    if n > 0 {
        lemma_ends_alike(tensors, (n - 1) as nat);
    }
}

proof fn lemma_ends_at_offset(graph: GraphModel, slopes: Seq<TensorModel>, n: nat)
    requires
        graph_fits(graph),
        sized(graph, slopes),
        n < slopes.len(),
    ensures
        ends_at(slopes, n) == graph.slots[n as int].place.offset,
    decreases n,
{
    let slots = form_places(graph.slots);
    assert(slots[n as int] == graph.slots[n as int].place);
    if n > 0 {
        lemma_ends_at_offset(graph, slopes, (n - 1) as nat);
        assert(slots[n - 1] == graph.slots[n - 1].place);
        assert(slopes[n - 1].values.len() == graph.slots[n - 1].place.size);
    }
}

/// A gradient has the derivatives by every free value at the coordinates of that value, in order:
/// so the entry at an offset and so many behind it is the derivative by that coordinate.
pub proof fn law_gradient_goes_by_the_packing<S: Calculus>(
    s: &S,
    graph: GraphModel,
    q: Seq<NumberModel>,
    value: NumberModel,
    gradient: Seq<NumberModel>,
)
    requires
        graph_fits(graph),
        graph_grades(s, graph, q, Ok((value, gradient))),
    ensures
        exists|total: TensorModel| #[trigger]
            graph_gives(s, graph, q, Ok(total)) && value == total.values[0],
        exists|slopes: Seq<TensorModel>| #[trigger]
            s.slopes_give(graph, q, slopes) && packs_slopes(graph, slopes, gradient),
{
    let done = Ok::<(NumberModel, Seq<NumberModel>), Fault>((value, gradient));
    let total = choose|total: Result<TensorModel, Fault>| #[trigger]
        gradient_joined(s, graph, q, total, done) && graph_gives(s, graph, q, total);
    let t = total->Ok_0;
    assert(total == Ok::<TensorModel, Fault>(t));
    let slopes = choose|slopes: Seq<TensorModel>| #[trigger]
        slopes_joined(t.values[0], slopes, done) && s.slopes_give(graph, q, slopes) && sized(
            graph,
            slopes,
        );
    assert forall|i: int, j: int|
        0 <= i < slopes.len() && 0 <= j < graph.slots[i].place.size implies #[trigger] slopes[i].values[j]
        == gradient[graph.slots[i].place.offset + j] by {
        assert(slopes[i].values.len() == graph.slots[i].place.size);
        lemma_flattened_at(slopes, i, j);
        lemma_ends_at_offset(graph, slopes, i as nat);
    }
    assert(packs_slopes(graph, slopes, gradient));
}

/// Whether a gradient has the entries of derivatives at the coordinates of their free values.
pub open spec fn packs_slopes(
    graph: GraphModel,
    slopes: Seq<TensorModel>,
    gradient: Seq<NumberModel>,
) -> bool {
    slopes.len() == graph.slots.len() && forall|i: int, j: int|
        0 <= i < slopes.len() && 0 <= j < graph.slots[i].place.size
            ==> #[trigger] slopes[i].values[j] == gradient[graph.slots[i].place.offset + j]
}

} // verus!
