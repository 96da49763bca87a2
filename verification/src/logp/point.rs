//! A bound model at a point: its constrained values and its log density.

use vstd::prelude::*;

use crate::data::{copy_data, copy_shape};
#[allow(unused_imports)]
use crate::data::{data_views, number_views, DataModel};
use crate::density::{check_density, DistVars, Var};
#[allow(unused_imports)]
use crate::density::density_checked;
use crate::error::Error;
#[allow(unused_imports)]
use crate::error::{outcome, Fault};
#[allow(unused_imports)]
use crate::investigation::ledger::views;
#[allow(unused_imports)]
use crate::investigation::manifest::list_outcome;
use crate::ir::{distribution_exprs, BinOpKind, Expr};
#[allow(unused_imports)]
use crate::ir::{dist_params, list_views, named_views, DistModel};
#[allow(unused_imports)]
use crate::model::{all_filled, checked, law_slots_are_contiguous, SlotModel};
use crate::number::Number;
#[allow(unused_imports)]
use crate::number::NumberModel;
#[allow(unused_imports)]
use crate::numerics::Arithmetic;
use crate::posterior::Posterior;
#[allow(unused_imports)]
use crate::posterior::{bound, length_refusal, places, slot_place};
use crate::predictive::forward::ForwardEnv;
#[allow(unused_imports)]
use crate::predictive::forward::{env_full, EnvModel};
use crate::tensor::Tensor;
#[allow(unused_imports)]
use crate::tensor::TensorModel;
use crate::term::{Term, UnaryOp};

use super::calculus::{Calculus, Inputs};
#[allow(unused_imports)]
use super::calculus::{scalar, usable, InputsModel};
use super::evaluate::Env;
#[allow(unused_imports)]
use super::evaluate::settled;
use super::graph::{form_of_slot, forms_of_sites, CompiledLogp, SiteForm, SlotForm};
#[allow(unused_imports)]
use super::graph::{
    form_places, made, site_forms, slot_form, slot_forms, tiled, GraphModel, SiteFormModel,
    SlotFormModel,
};
use super::parameters::{evaluate_all, vars_of};
#[allow(unused_imports)]
use super::parameters::{all_settled, describes, stands};
use super::place::{inputs_of, none_placed, place_form, place_forms, Placed};
#[allow(unused_imports)]
use super::place::{
    form_inputs, form_placed, forms_placed, lemma_forms_fail, placed_in_order, placed_outcome,
    PlacedModel,
};

verus! {

/// Whether every slot lies inside the packed vector.
pub open spec fn slots_fit(p: Posterior) -> bool {
    forall|i: int|
        0 <= i < p.free@.len() ==> (#[trigger] p.free@[i]).offset + p.free@[i].size <= p.n_params
}

/// Whether the slots fill the packed vector, one behind the other.
pub open spec fn slots_tile(p: Posterior) -> bool {
    tiled(places(p.free@), p.n_params as nat)
}

/// The slots of a bound model fill its packed vector, one behind the other.
pub proof fn law_bound_slots_tile<A: Arithmetic>(
    p: Posterior,
    m: crate::ir::MetaModel,
    data: Seq<(Seq<char>, DataModel)>,
    ops: &A,
)
    requires
        bound(p, m, data, ops),
    ensures
        slots_tile(p),
{
    let free = crate::ir::resolved_free(m);
    law_slots_are_contiguous(free, data, free.len());
}

/// Slots that fill a vector lie inside it.
pub proof fn lemma_tiles_fit(slots: Seq<SlotModel>, n_params: nat, i: int)
    requires
        tiled(slots, n_params),
        0 <= i < slots.len(),
    ensures
        slots[i].offset + slots[i].size <= n_params,
    decreases slots.len() - i,
{
    if i < slots.len() - 1 {
        lemma_tiles_fit(slots, n_params, i + 1);
        assert(slots[i + 1].offset == slots[i].offset + slots[i].size);
    }
}

/// The slots of a bound model lie inside its packed vector.
pub proof fn law_bound_slots_fit<A: Arithmetic>(
    p: Posterior,
    m: crate::ir::MetaModel,
    data: Seq<(Seq<char>, DataModel)>,
    ops: &A,
)
    requires
        bound(p, m, data, ops),
    ensures
        slots_fit(p),
{
    law_bound_slots_tile(p, m, data, ops);
    lemma_tiled_slots_fit(p);
}

/// Slots that fill the packed vector lie inside it.
pub proof fn lemma_tiled_slots_fit(p: Posterior)
    requires
        slots_tile(p),
    ensures
        slots_fit(p),
{
    let slots = places(p.free@);
    assert forall|i: int| 0 <= i < p.free@.len() implies (#[trigger] p.free@[i]).offset
        + p.free@[i].size <= p.n_params by {
        assert(slots[i] == slot_place(p.free@[i]));
        lemma_tiles_fit(slots, p.n_params as nat, i);
    }
}

/// Whether the shapes of a site can be refused like that, or pass, by its evaluated parameters, of
/// which the value is the last.
pub open spec fn site_checked<S: Calculus>(
    s: &S,
    d: DistModel,
    tensors: Seq<TensorModel>,
    out: Option<Fault>,
) -> bool {
    exists|vars: DistVars, value: Var| #[trigger]
        density_checked(s, vars, value, out) && describes(vars, d, tensors, 0) && stands(
            value,
            tensors,
            tensors.len() - 1,
        )
}

/// Whether adding a site can come to that, by what its summed log density came to.
pub open spec fn sum_added<S: Calculus>(
    s: &S,
    before: TensorModel,
    sum: Result<TensorModel, Fault>,
    out: Result<TensorModel, Fault>,
) -> bool {
    match sum {
        Err(fault) => out == Err::<TensorModel, Fault>(fault),
        Ok(total) => s.binary_gives(BinOpKind::Add, before, total, out),
    }
}

/// Whether adding a site can come to that, by what became of its shapes.
pub open spec fn score_added<S: Calculus>(
    s: &S,
    before: TensorModel,
    score: Term,
    tensors: Seq<TensorModel>,
    refusal: Option<Fault>,
    out: Result<TensorModel, Fault>,
) -> bool {
    match refusal {
        Some(fault) => out == Err::<TensorModel, Fault>(fault),
        None => exists|sum: Result<TensorModel, Fault>| #[trigger]
            sum_added(s, before, sum, out) && s.term_gives(
                score.unary(UnaryOp::Sum),
                InputsModel { leaves: tensors, lower: None, upper: None },
                sum,
            ),
    }
}

/// Whether adding a site can come to that, by what its value came to.
pub open spec fn value_added<S: Calculus>(
    s: &S,
    before: TensorModel,
    site: SiteFormModel,
    params: Seq<TensorModel>,
    value: Result<TensorModel, Fault>,
    out: Result<TensorModel, Fault>,
) -> bool {
    match value {
        Err(fault) => out == Err::<TensorModel, Fault>(fault),
        Ok(x) => exists|refusal: Option<Fault>| #[trigger]
            score_added(s, before, site.score, params.push(x), refusal, out) && site_checked(
                s,
                site.distribution,
                params.push(x),
                refusal,
            ),
    }
}

/// Whether adding a site can come to that, by its parameters.
pub open spec fn list_added<S: Calculus>(
    s: &S,
    env: EnvModel,
    before: TensorModel,
    site: SiteFormModel,
    params: Seq<TensorModel>,
    out: Result<TensorModel, Fault>,
) -> bool {
    exists|value: Result<TensorModel, Fault>| #[trigger]
        value_added(s, before, site, params, value, out) && settled(s, site.value, env, value)
}

/// Whether adding a site can come to that, by what its parameters came to.
pub open spec fn params_added<S: Calculus>(
    s: &S,
    env: EnvModel,
    before: TensorModel,
    site: SiteFormModel,
    params: Result<Seq<TensorModel>, Fault>,
    out: Result<TensorModel, Fault>,
) -> bool {
    match params {
        Err(fault) => out == Err::<TensorModel, Fault>(fault),
        Ok(list) => list_added(s, env, before, site, list, out),
    }
}

/// Whether adding the log density of a site can come to that.
pub open spec fn site_added<S: Calculus>(
    s: &S,
    env: EnvModel,
    before: TensorModel,
    site: SiteFormModel,
    out: Result<TensorModel, Fault>,
) -> bool {
    exists|params: Result<Seq<TensorModel>, Fault>| #[trigger]
        params_added(s, env, before, site, params, out) && all_settled(
            s,
            dist_params(site.distribution),
            env,
            params,
        )
}

/// Whether adding up sites one after the other can come to that.
pub open spec fn sites_added<S: Calculus>(
    s: &S,
    env: EnvModel,
    start: TensorModel,
    sites: Seq<SiteFormModel>,
    out: Result<TensorModel, Fault>,
) -> bool
    decreases sites.len(),
{
    if sites.len() == 0 {
        out == Ok::<TensorModel, Fault>(start)
    } else {
        ||| out is Err && sites_added(s, env, start, sites.drop_last(), out)
        ||| exists|before: TensorModel| #[trigger]
            site_added(s, env, before, sites.last(), out) && sites_added(
                s,
                env,
                start,
                sites.drop_last(),
                Ok(before),
            )
    }
}

proof fn lemma_sites_fail<S: Calculus>(
    s: &S,
    env: EnvModel,
    start: TensorModel,
    sites: Seq<SiteFormModel>,
    n: int,
    fault: Fault,
)
    requires
        0 <= n <= sites.len(),
        sites_added(s, env, start, sites.take(n), Err(fault)),
    ensures
        sites_added(s, env, start, sites, Err(fault)),
    decreases sites.len(),
{
    if n < sites.len() {
        assert(sites.drop_last().take(n) =~= sites.take(n));
        lemma_sites_fail(s, env, start, sites.drop_last(), n, fault);
    } else {
        assert(sites.take(n) =~= sites);
    }
}

/// Whether a sum is no number or a single one.
pub open spec fn scalar_or_failed(r: Result<TensorModel, Fault>) -> bool {
    r is Ok ==> scalar(r->Ok_0)
}

fn add_score<S: Calculus>(s: &S, before: &Tensor, site: &SiteForm, tensors: Vec<Tensor>) -> (r: Result<
    Tensor,
    Error,
>)
    requires
        usable(s),
        scalar(before@),
        tensors@.len() == dist_params(site@.distribution).len() + 1,
    ensures
        exists|refusal: Option<Fault>| #[trigger]
            score_added(s, before@, site.score, views(tensors@), refusal, outcome(r))
                && site_checked(s, site@.distribution, views(tensors@), refusal),
        scalar_or_failed(outcome(r)),
{
    let ghost all = views(tensors@);
    let vars: DistVars = vars_of(&site.distribution, &tensors, 0);
    let last: usize = tensors.len() - 1;
    let value: Var = Var { term: Term::Leaf(last), shape: copy_shape(&tensors[last].shape) };
    assert(stands(value, all, all.len() - 1));
    let check: Result<(), Error> = check_density(s, &vars, &value);
    let ghost refusal = checked(check);
    assert(density_checked(s, vars, value, refusal));
    assert(site_checked(s, site@.distribution, all, refusal));
    match check {
        Err(error) => {
            assert(score_added(s, before@, site.score, all, refusal, Err(error@)));
            Err(error)
        },
        Ok(()) => {
            let sum: Term = site.score.apply(UnaryOp::Sum);
            let inputs: Inputs = Inputs { leaves: tensors, lower: None, upper: None };
            assert(inputs@ =~= (InputsModel { leaves: all, lower: None, upper: None }));
            let total: Result<Tensor, Error> = s.evaluate(&sum, &inputs);
            let ghost summed = outcome(total);
            match total {
                Err(error) => {
                    assert(sum_added(s, before@, summed, Err(error@)));
                    assert(score_added(s, before@, site.score, all, refusal, Err(error@)));
                    Err(error)
                },
                Ok(total) => {
                    let out: Result<Tensor, Error> = s.binary(BinOpKind::Add, before, &total);
                    assert(sum_added(s, before@, summed, outcome(out)));
                    assert(score_added(s, before@, site.score, all, refusal, outcome(out)));
                    out
                },
            }
        },
    }
}

fn add_site<S: Calculus>(s: &S, env: &Env, before: &Tensor, site: &SiteForm) -> (r: Result<
    Tensor,
    Error,
>)
    requires
        usable(s),
        scalar(before@),
        env_full(env@),
    ensures
        site_added(s, env@, before@, site@, outcome(r)),
        scalar_or_failed(outcome(r)),
{
    let exprs: Vec<&Expr> = distribution_exprs(&site.distribution);
    let params: Result<Vec<Tensor>, Error> = evaluate_all(s, env, &exprs);
    let ghost given = list_outcome(params);
    let mut tensors: Vec<Tensor> = match params {
        Err(error) => {
            assert(params_added(s, env@, before@, site@, given, Err(error@)));
            return Err(error);
        },
        Ok(list) => list,
    };
    let ghost list = views(tensors@);
    let value: Result<Tensor, Error> = env.evaluate(s, &site.value);
    let ghost found = outcome(value);
    assert(settled(s, site@.value, env@, found));
    assert(given == Ok::<Seq<TensorModel>, Fault>(list));
    match value {
        Err(error) => {
            assert(value_added(s, before@, site@, list, found, Err(error@)));
            assert(list_added(s, env@, before@, site@, list, Err(error@)));
            assert(params_added(s, env@, before@, site@, given, Err(error@)));
            Err(error)
        },
        Ok(x) => {
            let ghost content = x@;
            tensors.push(x);
            assert(views(tensors@) =~= list.push(content));
            let out: Result<Tensor, Error> = add_score(s, before, site, tensors);
            assert(value_added(s, before@, site@, list, found, outcome(out)));
            assert(list_added(s, env@, before@, site@, list, outcome(out)));
            assert(params_added(s, env@, before@, site@, given, outcome(out)));
            out
        },
    }
}

fn add_sites<S: Calculus>(s: &S, env: &Env, start: Tensor, forms: &Vec<SiteForm>) -> (r: Result<
    Tensor,
    Error,
>)
    requires
        usable(s),
        scalar(start@),
        env_full(env@),
    ensures
        sites_added(s, env@, start@, views(forms@), outcome(r)),
        scalar_or_failed(outcome(r)),
{
    let ghost sites = views(forms@);
    let ghost begin = start@;
    let ghost world = env@;
    let mut total: Tensor = start;
    let mut i: usize = 0;
    assert(sites.take(0) =~= Seq::empty());
    while i < forms.len()
        invariant
            i <= forms.len(),
            usable(s),
            begin == start@,
            world == env@,
            env_full(world),
            sites == views(forms@),
            scalar(total@),
            sites_added(s, world, begin, sites.take(i as int), Ok(total@)),
        decreases forms.len() - i,
    {
        let ghost done = sites.take(i + 1);
        proof {
            assert(done.drop_last() =~= sites.take(i as int));
            assert(done.last() == forms@[i as int]@);
        }
        let ghost before = total@;
        match add_site(s, env, &total, &forms[i]) {
            Err(error) => {
                proof {
                    assert(site_added(s, world, before, done.last(), Err(error@)));
                    assert(sites_added(s, world, begin, done, Err(error@)));
                    lemma_sites_fail(s, world, begin, sites, i + 1, error@);
                }
                return Err(error);
            },
            Ok(next) => {
                proof {
                    assert(site_added(s, world, before, done.last(), Ok(next@)));
                    assert(sites_added(s, world, begin, done, Ok(next@)));
                }
                total = next;
            },
        }
        i += 1;
    }
    assert(sites.take(i as int) =~= sites);
    Ok(total)
}

/// Whether a log density can come to that, by what placing the free values came to.
pub open spec fn logp_joined<S: Calculus>(
    s: &S,
    sites: Seq<SiteFormModel>,
    data: Seq<(Seq<char>, DataModel)>,
    placed: Result<PlacedModel, Fault>,
    out: Result<TensorModel, Fault>,
) -> bool {
    match placed {
        Err(fault) => out == Err::<TensorModel, Fault>(fault),
        Ok(found) => sites_added(
            s,
            EnvModel { values: found.values, data },
            found.total,
            sites,
            out,
        ),
    }
}

/// Whether a log density of these parts can come to that at a point: the logarithmic Jacobians of
/// the free values in packing order, then the log densities of the sites in turn.
pub open spec fn parts_give<S: Calculus>(
    s: &S,
    n_params: usize,
    slots: Seq<Result<SlotFormModel, Fault>>,
    sites: Seq<SiteFormModel>,
    data: Seq<(Seq<char>, DataModel)>,
    q: Seq<NumberModel>,
    out: Result<TensorModel, Fault>,
) -> bool {
    match length_refusal(n_params, q.len()) {
        Some(fault) => out == Err::<TensorModel, Fault>(fault),
        None => exists|placed: Result<PlacedModel, Fault>| #[trigger]
            logp_joined(s, sites, data, placed, out) && forms_placed(s, slots, q, placed),
    }
}

/// Whether the log density of a bound model at a point can come to that.
pub open spec fn logp_gives<S: Calculus>(
    s: &S,
    p: Posterior,
    q: Seq<NumberModel>,
    out: Result<TensorModel, Fault>,
) -> bool {
    parts_give(
        s,
        p.n_params,
        slot_forms(p.free@),
        site_forms(list_views(p.sites@)),
        data_views(p.data@),
        q,
        out,
    )
}

/// Whether a compiled log density at a point can come to that.
pub open spec fn graph_gives<S: Calculus>(
    s: &S,
    graph: GraphModel,
    q: Seq<NumberModel>,
    out: Result<TensorModel, Fault>,
) -> bool {
    parts_give(s, graph.n_params, made(graph.slots), graph.sites, graph.data, q, out)
}

/// Whether a compiled log density is made of what a bound model is made of.
pub open spec fn represents(graph: GraphModel, p: Posterior) -> bool {
    &&& made(graph.slots) == slot_forms(p.free@)
    &&& graph.sites == site_forms(list_views(p.sites@))
    &&& graph.data == data_views(p.data@)
    &&& graph.n_params == p.n_params
}

/// The first entry of a tensor.
pub open spec fn first_entry(r: Result<TensorModel, Fault>) -> Result<NumberModel, Fault> {
    match r {
        Err(fault) => Err(fault),
        Ok(t) => Ok(t.values[0]),
    }
}

/// Whether constraining free values one after the other can come to that.
pub open spec fn forms_constrained<S: Calculus>(
    s: &S,
    forms: Seq<Result<SlotFormModel, Fault>>,
    q: Seq<NumberModel>,
    out: Result<Seq<(Seq<char>, TensorModel)>, Fault>,
) -> bool
    decreases forms.len(),
{
    if forms.len() == 0 {
        out == Ok::<Seq<(Seq<char>, TensorModel)>, Fault>(Seq::empty())
    } else {
        ||| out is Err && forms_constrained(s, forms.drop_last(), q, out)
        ||| exists|
            before: Seq<(Seq<char>, TensorModel)>,
            value: Result<TensorModel, Fault>,
        | #[trigger]
            value_listed(before, forms.last(), value, out) && forms_constrained(
                s,
                forms.drop_last(),
                q,
                Ok(before),
            ) && value_gives(s, forms.last(), q, value)
    }
}

/// Named values with one more behind them.
pub open spec fn value_listed(
    before: Seq<(Seq<char>, TensorModel)>,
    form: Result<SlotFormModel, Fault>,
    value: Result<TensorModel, Fault>,
    out: Result<Seq<(Seq<char>, TensorModel)>, Fault>,
) -> bool {
    out == (match value {
        Err(fault) => Err::<Seq<(Seq<char>, TensorModel)>, Fault>(fault),
        Ok(t) => Ok(before.push((form->Ok_0.place.name, t))),
    })
}

/// Whether the constrained value of a free value at a point can be that.
pub open spec fn value_gives<S: Calculus>(
    s: &S,
    form: Result<SlotFormModel, Fault>,
    q: Seq<NumberModel>,
    out: Result<TensorModel, Fault>,
) -> bool {
    match form {
        Err(fault) => out == Err::<TensorModel, Fault>(fault),
        Ok(found) => s.term_gives(found.form.value, form_inputs(found, q), out),
    }
}

proof fn lemma_constrained_fail<S: Calculus>(
    s: &S,
    forms: Seq<Result<SlotFormModel, Fault>>,
    q: Seq<NumberModel>,
    n: int,
    fault: Fault,
)
    requires
        0 <= n <= forms.len(),
        forms_constrained(s, forms.take(n), q, Err(fault)),
    ensures
        forms_constrained(s, forms, q, Err(fault)),
    decreases forms.len(),
{
    if n < forms.len() {
        assert(forms.drop_last().take(n) =~= forms.take(n));
        lemma_constrained_fail(s, forms.drop_last(), q, n, fault);
    } else {
        assert(forms.take(n) =~= forms);
    }
}

/// The content of named tensors.
pub open spec fn named_outcome(r: Result<Vec<(String, Tensor)>, Error>) -> Result<
    Seq<(Seq<char>, TensorModel)>,
    Fault,
> {
    match r {
        Ok(found) => Ok(named_views(found@)),
        Err(error) => Err(error@),
    }
}

/// What building a log density came to.
pub open spec fn built_outcome(r: Result<(Tensor, CompiledLogp), Error>) -> Result<
    TensorModel,
    Fault,
> {
    match r {
        Ok(found) => Ok(found.0@),
        Err(error) => Err(error@),
    }
}

fn build_slots<S: Calculus>(s: &S, p: &Posterior, q: &Vec<Number>) -> (r: Result<
    (Placed, Vec<SlotForm>),
    Error,
>)
    requires
        usable(s),
        slots_fit(*p),
        q@.len() == p.n_params,
    ensures
        match r {
            Err(error) => forms_placed(s, slot_forms(p.free@), number_views(q@), Err(error@)),
            Ok((placed, forms)) => forms_placed(
                s,
                slot_forms(p.free@),
                number_views(q@),
                Ok(placed@),
            ) && placed_in_order(placed@) && made(views(forms@)) == slot_forms(p.free@),
        },
{
    let ghost point = number_views(q@);
    let ghost all = slot_forms(p.free@);
    let mut now: Placed = none_placed();
    let mut forms: Vec<SlotForm> = Vec::new();
    let mut i: usize = 0;
    while i < p.free.len()
        invariant
            i <= p.free.len(),
            usable(s),
            slots_fit(*p),
            q@.len() == p.n_params,
            point == number_views(q@),
            all == slot_forms(p.free@),
            forms.len() == i,
            forall|k: int|
                0 <= k < i ==> Ok::<SlotFormModel, Fault>((#[trigger] forms@[k])@) == all[k],
            forms_placed(s, all.take(i as int), point, Ok(now@)),
            placed_in_order(now@),
        decreases p.free.len() - i,
    {
        let ghost done = all.take(i + 1);
        proof {
            assert(done.drop_last() =~= all.take(i as int));
            assert(done.last() == slot_form(p.free@[i as int]));
        }
        let ghost before = now@;
        let form: SlotForm = match form_of_slot(&p.free[i]) {
            Err(error) => {
                proof {
                    assert(form_placed(s, before, done.last(), point, Err(error@)));
                    assert(forms_placed(s, done, point, Err(error@)));
                    lemma_forms_fail(s, all, point, i + 1, error@);
                }
                return Err(error);
            },
            Ok(form) => form,
        };
        assert(form@.place == slot_place(p.free@[i as int]));
        match place_form(s, now, &form, q) {
            Err(error) => {
                proof {
                    assert(form_placed(s, before, done.last(), point, Err(error@)));
                    assert(forms_placed(s, done, point, Err(error@)));
                    lemma_forms_fail(s, all, point, i + 1, error@);
                }
                return Err(error);
            },
            Ok(next) => {
                proof {
                    assert(form_placed(s, before, done.last(), point, Ok(next@)));
                    assert(forms_placed(s, done, point, Ok(next@)));
                }
                now = next;
            },
        }
        forms.push(form);
        i += 1;
    }
    assert(all.take(i as int) =~= all);
    assert(made(views(forms@)) =~= all);
    Ok((now, forms))
}

impl Posterior {
    /// The constrained values at a point, in packing order.
    pub fn constrain<S: Calculus>(&self, s: &S, q: &Vec<Number>) -> (r: Result<
        Vec<(String, Tensor)>,
        Error,
    >)
        requires
            usable(s),
            slots_fit(*self),
        ensures
            match length_refusal(self.n_params, q@.len()) {
                Some(fault) => named_outcome(r) == Err::<Seq<(Seq<char>, TensorModel)>, Fault>(
                    fault,
                ),
                None => forms_constrained(
                    s,
                    slot_forms(self.free@),
                    number_views(q@),
                    named_outcome(r),
                ),
            },
    {
        let ghost point = number_views(q@);
        let ghost all = slot_forms(self.free@);
        if let Err(error) = self.validate_q(q.len()) {
            return Err(error);
        }
        let mut out: Vec<(String, Tensor)> = Vec::new();
        assert(named_views(out@) =~= Seq::empty());
        let mut i: usize = 0;
        while i < self.free.len()
            invariant
                i <= self.free.len(),
                usable(s),
                slots_fit(*self),
                q@.len() == self.n_params,
                point == number_views(q@),
                all == slot_forms(self.free@),
                forms_constrained(s, all.take(i as int), point, Ok(named_views(out@))),
            decreases self.free.len() - i,
        {
            let ghost done = all.take(i + 1);
            proof {
                assert(done.drop_last() =~= all.take(i as int));
                assert(done.last() == slot_form(self.free@[i as int]));
            }
            let ghost before = named_views(out@);
            let form: SlotForm = match form_of_slot(&self.free[i]) {
                Err(error) => {
                    proof {
                        assert(value_listed(before, done.last(), Err(error@), Err(error@)));
                        assert(forms_constrained(s, done, point, Err(error@)));
                        lemma_constrained_fail(s, all, point, i + 1, error@);
                    }
                    return Err(error);
                },
                Ok(form) => form,
            };
            assert(form@.place == slot_place(self.free@[i as int]));
            match s.evaluate(&form.form.value, &inputs_of(&form, q)) {
                Err(error) => {
                    proof {
                        assert(value_listed(before, done.last(), Err(error@), Err(error@)));
                        assert(forms_constrained(s, done, point, Err(error@)));
                        lemma_constrained_fail(s, all, point, i + 1, error@);
                    }
                    return Err(error);
                },
                Ok(value) => {
                    let ghost content = value@;
                    out.push((form.name, value));
                    proof {
                        assert(named_views(out@) =~= before.push((form@.place.name, content)));
                        assert(value_listed(
                            before,
                            done.last(),
                            Ok(content),
                            Ok(named_views(out@)),
                        ));
                        assert(forms_constrained(s, done, point, Ok(named_views(out@))));
                    }
                },
            }
            i += 1;
        }
        assert(all.take(i as int) =~= all);
        Ok(out)
    }

    /// Builds the log density at a point: its value there, and the expressions that it is made of,
    /// which are the same at every point.
    pub fn build_logp<S: Calculus>(&self, s: &S, q: &Vec<Number>) -> (r: Result<
        (Tensor, CompiledLogp),
        Error,
    >)
        requires
            usable(s),
            slots_fit(*self),
            all_filled(data_views(self.data@)),
        ensures
            logp_gives(s, *self, number_views(q@), built_outcome(r)),
            r is Ok ==> scalar(r->Ok_0.0@) && represents(r->Ok_0.1@, *self),
    {
        let ghost point = number_views(q@);
        assert(point.len() == q@.len());
        if let Err(error) = self.validate_q(q.len()) {
            return Err(error);
        }
        let ghost all = site_forms(list_views(self.sites@));
        let ghost data = data_views(self.data@);
        let (found, slots): (Placed, Vec<SlotForm>) = match build_slots(s, self, q) {
            Err(error) => {
                assert(logp_joined(s, all, data, Err(error@), Err(error@)));
                return Err(error);
            },
            Ok(found) => found,
        };
        let ghost placed = found@;
        let sites: Vec<SiteForm> = forms_of_sites(&self.sites);
        let env: Env = Env {
            known: ForwardEnv { values: found.values, data: copy_data(&self.data) },
        };
        assert(env@ =~= (EnvModel { values: placed.values, data }));
        let total: Result<Tensor, Error> = add_sites(s, &env, found.total, &sites);
        assert(logp_joined(s, all, data, Ok(placed), outcome(total)));
        match total {
            Err(error) => Err(error),
            Ok(total) => Ok(
                (
                    total,
                    CompiledLogp {
                        slots,
                        sites,
                        data: copy_data(&self.data),
                        n_params: self.n_params,
                    },
                ),
            ),
        }
    }

    /// The log density at a point.
    pub fn logp<S: Calculus>(&self, s: &S, q: &Vec<Number>) -> (r: Result<Number, Error>)
        requires
            usable(s),
            slots_fit(*self),
            all_filled(data_views(self.data@)),
        ensures
            exists|total: Result<TensorModel, Fault>| #[trigger]
                logp_gives(s, *self, number_views(q@), total) && outcome(r) == first_entry(total),
    {
        let built: Result<(Tensor, CompiledLogp), Error> = self.build_logp(s, q);
        let ghost total = built_outcome(built);
        assert(logp_gives(s, *self, number_views(q@), total));
        match built {
            Err(error) => Err(error),
            Ok((total, _)) => Ok(total.values[0].copy()),
        }
    }
}

/// Whether a compiled log density lies inside its packed vector.
pub open spec fn graph_fits(graph: GraphModel) -> bool {
    tiled(form_places(graph.slots), graph.n_params as nat) && all_filled(graph.data)
}

impl CompiledLogp {
    /// The log density at a point, from the expressions that were built once.
    pub fn replay<S: Calculus>(&self, s: &S, q: &Vec<Number>) -> (r: Result<Tensor, Error>)
        requires
            usable(s),
            graph_fits(self@),
        ensures
            graph_gives(s, self@, number_views(q@), outcome(r)),
            scalar_or_failed(outcome(r)),
    {
        let ghost point = number_views(q@);
        assert(point.len() == q@.len());
        if let Err(error) = crate::posterior::check_length(self.n_params, q.len()) {
            return Err(error);
        }
        let ghost sites = self@.sites;
        let ghost data = self@.data;
        proof {
            assert forall|i: int| 0 <= i < self.slots@.len() implies (#[trigger] self.slots@[i]).offset
                + self.slots@[i].size <= q@.len() by {
                assert(form_places(self@.slots)[i] == self.slots@[i]@.place);
                lemma_tiles_fit(form_places(self@.slots), self.n_params as nat, i);
            }
        }
        let placing: Result<Placed, Error> = place_forms(s, &self.slots, q);
        let ghost placed = placed_outcome(placing);
        let found: Placed = match placing {
            Err(error) => {
                assert(logp_joined(s, sites, data, placed, Err(error@)));
                return Err(error);
            },
            Ok(found) => found,
        };
        let ghost values = found@.values;
        let env: Env = Env {
            known: ForwardEnv { values: found.values, data: copy_data(&self.data) },
        };
        assert(env@ =~= (EnvModel { values, data }));
        let total: Result<Tensor, Error> = add_sites(s, &env, found.total, &self.sites);
        assert(logp_joined(s, sites, data, placed, outcome(total)));
        total
    }
}

} // verus!
