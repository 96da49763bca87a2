//! Pairs of parameters and simulated outcomes over a fixed design.

use vstd::prelude::*;

use crate::data::DataValue;
#[allow(unused_imports)]
use crate::data::{data_views, DataModel};
use crate::error::{invalid_settings, shape_mismatch, Error};
#[allow(unused_imports)]
use crate::error::{malformed_fault, settings_fault, shape_fault, Fault};
use crate::ir::{Expr, ModelMeta, ResolvedFreeValue, ResolvedStochasticSite};
#[allow(unused_imports)]
use crate::ir::{
    list_views, named_views, resolved_free, resolved_sites, ExprModel, MetaModel, SiteModel,
};
#[allow(unused_imports)]
use crate::model::{all_filled, bound_names, checked, data_named};
use crate::numerics::{Arithmetic, Randomness};
use crate::sameness::{equal_constraints, equal_sizes};
#[allow(unused_imports)]
use crate::sameness::same_constraint;
use crate::tensor::Tensor;
#[allow(unused_imports)]
use crate::tensor::TensorModel;
use crate::text;
#[allow(unused_imports)]
use crate::text::debug_text;

#[allow(unused_imports)]
use super::fit::{FitDrawModel, FitModel, FitParamModel};
use super::forward::ForwardEnv;
#[allow(unused_imports)]
use super::forward::{env_full, last_named, EnvModel};
use super::inventory::validate_prior_predictive_site_inventory;
#[allow(unused_imports)]
use super::inventory::inventory_fault;
use super::records::{as_data, distribution_has_integer_support};
#[allow(unused_imports)]
use super::records::{all_integral, tensor_data};
#[allow(unused_imports)]
use super::restricted::{constrained_sampled, MAX_TRIES};
use super::sampling::sample_distribution;
#[allow(unused_imports)]
use super::sampling::{sample_outcome, sampled};
use super::setup::bind_declared_data;
#[allow(unused_imports)]
use super::setup::{declared_fault, declared_names, FreeSpecModel};
#[allow(unused_imports)]
use super::truth::{all_tensors_full, made_extended, made_view, truth_read, MadeModel};

verus! {

/// Whether the free values of a model are its parameters, one for one.
pub open spec fn free_are_params(m: MetaModel) -> bool {
    &&& resolved_free(m).len() == m.params.len()
    &&& forall|i: int|
        0 <= i < m.params.len() ==> {
            &&& (#[trigger] resolved_free(m)[i]).0 == m.params[i].0
            &&& same_constraint(resolved_free(m)[i].1.constraint, m.params[i].1.constraint)
            &&& resolved_free(m)[i].1.size == m.params[i].1.size
        }
}

/// Whether a site assigns a parameter or data directly.
pub open spec fn assignable(site: SiteModel) -> bool {
    site.value is Param || site.value is Data
}

/// The first site at or behind position `i` that assigns nothing directly.
pub open spec fn unassignable_from(sites: Seq<SiteModel>, i: int) -> Option<SiteModel>
    decreases sites.len() - i,
{
    if i < 0 || i >= sites.len() {
        None
    } else if !assignable(sites[i]) {
        Some(sites[i])
    } else {
        unassignable_from(sites, i + 1)
    }
}

/// What is wrong with a model for generation.
pub open spec fn generation_fault(m: MetaModel) -> Option<Fault> {
    if !free_are_params(m) {
        Some(
            settings_fault(
                "generate supports declaration-backed Params only; the model has a non-Param free value or incompatible free-value layout"@,
            ),
        )
    } else if inventory_fault(m, resolved_sites(m)) is Some {
        inventory_fault(m, resolved_sites(m))
    } else {
        match unassignable_from(resolved_sites(m), 0) {
            Some(site) => Some(
                settings_fault(
                    "generate stochastic site \""@ + site.name
                        + "\" is not directly assignable; only ParamRef and DataRef sites are supported"@,
                ),
            ),
            None => None,
        }
    }
}

fn has_params_only(meta: &ModelMeta, free: &Vec<(String, ResolvedFreeValue)>) -> (r: bool)
    requires
        named_views(free@) == resolved_free(meta@),
    ensures
        r == free_are_params(meta@),
{
    let ghost m = meta@;
    let ghost rest = resolved_free(m);
    assert(rest.len() == free.len());
    assert(m.params.len() == meta.params.len());
    if free.len() != meta.params.len() {
        return false;
    }
    let mut i: usize = 0;
    while i < free.len()
        invariant
            i <= free.len(),
            m == meta@,
            rest == resolved_free(m),
            rest == named_views(free@),
            free.len() == meta.params.len(),
            forall|k: int|
                0 <= k < i ==> {
                    &&& (#[trigger] resolved_free(m)[k]).0 == m.params[k].0
                    &&& same_constraint(resolved_free(m)[k].1.constraint, m.params[k].1.constraint)
                    &&& resolved_free(m)[k].1.size == m.params[k].1.size
                },
        decreases free.len() - i,
    {
        proof {
            assert(rest[i as int] == (free@[i as int].0@, free@[i as int].1@));
            assert(m.params[i as int] == (meta.params@[i as int].0@, meta.params@[i as int].1@));
        }
        if !text::same(free[i].0.as_str(), meta.params[i].0.as_str()) || !equal_constraints(
            &free[i].1.constraint,
            &meta.params[i].1.constraint,
        ) || !equal_sizes(&free[i].1.size, &meta.params[i].1.size) {
            assert(!free_are_params(m)) by {
                let k = i as int;
                assert(resolved_free(m)[k] == rest[k]);
            }
            return false;
        }
        i += 1;
    }
    true
}

/// Checks that a model can be generated from.
pub fn validate_generation_model(meta: &ModelMeta) -> (r: Result<(), Error>)
    ensures
        checked(r) == generation_fault(meta@),
{
    let free: Vec<(String, ResolvedFreeValue)> = meta.resolved_free_values();
    if !has_params_only(meta, &free) {
        return Err(
            invalid_settings(
                "generate supports declaration-backed Params only; the model has a non-Param free value or incompatible free-value layout".to_owned(),
            ),
        );
    }
    let sites: Vec<ResolvedStochasticSite> = meta.resolved_stochastic_sites();
    validate_prior_predictive_site_inventory(meta, &sites)?;
    let ghost all = list_views(sites@);
    let mut i: usize = 0;
    while i < sites.len()
        invariant
            i <= sites.len(),
            all == list_views(sites@),
            all == resolved_sites(meta@),
            free_are_params(meta@),
            inventory_fault(meta@, all) is None,
            unassignable_from(all, 0) == unassignable_from(all, i as int),
        decreases sites.len() - i,
    {
        assert(all[i as int] == sites@[i as int]@);
        let direct: bool = match &sites[i].value {
            Expr::Param(_) => true,
            Expr::Data(_) => true,
            _ => false,
        };
        if !direct {
            return Err(
                invalid_settings(
                    text::cat3(
                        "generate stochastic site \"",
                        sites[i].name.as_str(),
                        "\" is not directly assignable; only ParamRef and DataRef sites are supported",
                    ),
                ),
            );
        }
        i += 1;
    }
    Ok(())
}

/// What is wrong with a design.
pub open spec fn design_fault(m: MetaModel, design: Seq<(Seq<char>, DataModel)>) -> Option<Fault> {
    if bound_names(design) != declared_names(m) {
        Some(
            shape_fault(
                "generate design variable order must exactly match the model's declared data order"@,
            ),
        )
    } else {
        declared_fault(m, design)
    }
}

/// Checks the design that outcomes are generated over.
pub fn generation_design(meta: &ModelMeta, design: &Vec<(String, DataValue)>) -> (r: Result<(), Error>)
    requires
        all_filled(data_views(design@)),
    ensures
        checked(r) == design_fault(meta@, data_views(design@)),
{
    let ghost names = bound_names(data_views(design@));
    let ghost wanted = declared_names(meta@);
    assert(names.len() == design.len() && wanted.len() == meta.data.len());
    let mut same: bool = design.len() == meta.data.len();
    let mut i: usize = 0;
    while same && i < design.len()
        invariant
            i <= design.len(),
            same ==> design.len() == meta.data.len(),
            names == bound_names(data_views(design@)),
            wanted == declared_names(meta@),
            names.len() == design.len() && wanted.len() == meta.data.len(),
            same ==> forall|k: int| 0 <= k < i ==> names[k] == wanted[k],
            !same ==> names != wanted,
        decreases design.len() - i, if same { 1int } else { 0int },
    {
        assert(names[i as int] == design@[i as int].0@);
        assert(wanted[i as int] == meta.data@[i as int].0@);
        if text::same(design[i].0.as_str(), meta.data[i].0.as_str()) {
            i += 1;
        } else {
            same = false;
        }
    }
    if !same {
        return Err(
            shape_mismatch(
                "generate design variable order must exactly match the model's declared data order".to_owned(),
            ),
        );
    }
    assert(names =~= wanted);
    bind_declared_data(meta, design)
}

/// Whether generating the outcome of a site can come to that.
pub open spec fn outcome_made<A: Arithmetic, N: Randomness>(
    ops: &A,
    rand: &N,
    data: Seq<(Seq<char>, DataModel)>,
    before: MadeModel,
    site: SiteModel,
    source: N::Source,
    out: Result<(MadeModel, N::Source), Fault>,
) -> bool {
    match site.value {
        ExprModel::Param(_) => out == Ok::<(MadeModel, N::Source), Fault>((before, source)),
        ExprModel::Data(name) => observed_made(ops, rand, data, before, site, name, source, out),
        _ => out == Err::<(MadeModel, N::Source), Fault>(
            settings_fault(
                "generate stochastic site \""@ + site.name + "\" is not directly assignable"@,
            ),
        ),
    }
}

/// Whether generating observed data can come to that.
pub open spec fn observed_made<A: Arithmetic, N: Randomness>(
    ops: &A,
    rand: &N,
    data: Seq<(Seq<char>, DataModel)>,
    before: MadeModel,
    site: SiteModel,
    name: Seq<char>,
    source: N::Source,
    out: Result<(MadeModel, N::Source), Fault>,
) -> bool {
    if data_named(data, name) is Some || last_named(before.seen, name) is Some {
        out == Err::<(MadeModel, N::Source), Fault>(
            shape_fault(
                "generate stochastic site \""@ + site.name + "\" writes duplicate data value \""@
                    + name + "\""@,
            ),
        )
    } else {
        exists|draw: Result<(TensorModel, N::Source), Fault>| #[trigger]
            sampled(
                ops,
                rand,
                EnvModel { values: before.seen, data },
                site.distribution,
                None,
                source,
                draw,
            ) && out == made_extended(before, name, site.distribution, draw)
    }
}

/// Whether generating the outcomes of sites in order can come to that.
pub open spec fn outcomes_made<A: Arithmetic, N: Randomness>(
    ops: &A,
    rand: &N,
    data: Seq<(Seq<char>, DataModel)>,
    start: MadeModel,
    sites: Seq<SiteModel>,
    source: N::Source,
    out: Result<(MadeModel, N::Source), Fault>,
) -> bool
    decreases sites.len(),
{
    if sites.len() == 0 {
        out == Ok::<(MadeModel, N::Source), Fault>((start, source))
    } else {
        ||| out is Err && outcomes_made(ops, rand, data, start, sites.drop_last(), source, out)
        ||| exists|before: (MadeModel, N::Source)| #[trigger]
            outcome_made(ops, rand, data, before.0, sites.last(), before.1, out) && outcomes_made(
                ops,
                rand,
                data,
                start,
                sites.drop_last(),
                source,
                Ok(before),
            )
    }
}

/// Generated outcomes, of which there must be some.
pub open spec fn some_outcomes<S>(end: Result<(MadeModel, S), Fault>) -> Result<
    (Seq<(Seq<char>, DataModel)>, S),
    Fault,
> {
    match end {
        Err(fault) => Err(fault),
        Ok((made, after)) => if made.made.len() == 0 {
            Err(
                settings_fault("generate needs at least one directly assignable observed outcome"@),
            )
        } else {
            Ok((made.made, after))
        },
    }
}

/// Whether generating outcomes from parameter values can come to that.
pub open spec fn outcomes_drawn<A: Arithmetic, N: Randomness>(
    ops: &A,
    rand: &N,
    data: Seq<(Seq<char>, DataModel)>,
    sites: Seq<SiteModel>,
    values: Seq<(Seq<char>, TensorModel)>,
    source: N::Source,
    out: Result<(Seq<(Seq<char>, DataModel)>, N::Source), Fault>,
) -> bool {
    exists|end: Result<(MadeModel, N::Source), Fault>| #[trigger]
        outcomes_made(
            ops,
            rand,
            data,
            MadeModel { seen: values, made: Seq::empty() },
            sites,
            source,
            end,
        ) && out == some_outcomes(end)
}

/// Where the parameters of a pair came from.
#[derive(Debug, Clone, Copy)]
pub enum GenerationLineage {
    Fixed,
    ModelPrior { source_draw_index: usize },
    Posterior { source_draw_index: usize, chain: i64, draw: i64 },
}

/// Parameters with outcomes that were simulated from them.
#[derive(Debug)]
pub struct GenerationPair {
    pub parameters: Vec<(String, DataValue)>,
    pub outcomes: Vec<(String, DataValue)>,
    pub lineage: GenerationLineage,
}

/// The mathematical content of a [`GenerationPair`].
#[verifier::ext_equal]
pub struct PairModel {
    pub parameters: Seq<(Seq<char>, DataModel)>,
    pub outcomes: Seq<(Seq<char>, DataModel)>,
    pub lineage: GenerationLineage,
}

impl View for GenerationPair {
    type V = PairModel;

    open spec fn view(&self) -> PairModel {
        PairModel {
            parameters: data_views(self.parameters@),
            outcomes: data_views(self.outcomes@),
            lineage: self.lineage,
        }
    }
}

/// Outcomes put beside their parameters.
pub open spec fn paired<S>(
    parameters: Seq<(Seq<char>, DataModel)>,
    lineage: GenerationLineage,
    made: Result<(Seq<(Seq<char>, DataModel)>, S), Fault>,
) -> Result<(PairModel, S), Fault> {
    match made {
        Err(fault) => Err(fault),
        Ok((outcomes, after)) => Ok((PairModel { parameters, outcomes, lineage }, after)),
    }
}

/// What sites drawn from the prior came to: the values that later sites see, parameters, and
/// outcomes.
#[verifier::ext_equal]
pub struct PriorModel {
    pub seen: Seq<(Seq<char>, TensorModel)>,
    pub parameters: Seq<(Seq<char>, DataModel)>,
    pub outcomes: Seq<(Seq<char>, DataModel)>,
}

/// A drawn value as data; it counts as integer by what it is.
pub open spec fn value_data(value: TensorModel) -> DataModel {
    tensor_data(value, all_integral(value.values))
}

/// What a drawn parameter adds.
pub open spec fn parameter_added<S>(
    before: PriorModel,
    name: Seq<char>,
    draw: Result<(TensorModel, S), Fault>,
) -> Result<(PriorModel, S), Fault> {
    match draw {
        Err(fault) => Err(fault),
        Ok((value, after)) => Ok(
            (
                PriorModel {
                    seen: before.seen.push((name, value)),
                    parameters: before.parameters.push((name, value_data(value))),
                    outcomes: before.outcomes,
                },
                after,
            ),
        ),
    }
}

/// What a drawn outcome adds.
pub open spec fn outcome_added<S>(
    before: PriorModel,
    name: Seq<char>,
    draw: Result<(TensorModel, S), Fault>,
) -> Result<(PriorModel, S), Fault> {
    match draw {
        Err(fault) => Err(fault),
        Ok((value, after)) => Ok(
            (
                PriorModel {
                    seen: before.seen.push((name, value)),
                    parameters: before.parameters,
                    outcomes: before.outcomes.push((name, value_data(value))),
                },
                after,
            ),
        ),
    }
}

/// Whether drawing a parameter from the prior can come to that.
pub open spec fn prior_parameter<A: Arithmetic, N: Randomness>(
    ops: &A,
    rand: &N,
    specs: Seq<(Seq<char>, FreeSpecModel)>,
    data: Seq<(Seq<char>, DataModel)>,
    before: PriorModel,
    site: SiteModel,
    name: Seq<char>,
    source: N::Source,
    out: Result<(PriorModel, N::Source), Fault>,
) -> bool {
    let spec = last_named(specs, name);
    if spec is None {
        out == Err::<(PriorModel, N::Source), Fault>(
            malformed_fault(
                "generation site "@ + debug_text(site.name) + " targets unknown parameter "@
                    + debug_text(name),
            ),
        )
    } else if spec->0.constraint is Some && spec->0.constraint->0 is VectorBounds {
        out == Err::<(PriorModel, N::Source), Fault>(
            settings_fault(
                "VectorBounds model-prior generation is not implemented for "@ + debug_text(name),
            ),
        )
    } else {
        exists|draw: Result<(TensorModel, N::Source), Fault>| #[trigger]
            constrained_sampled(
                ops,
                rand,
                EnvModel { values: before.seen, data },
                site.distribution,
                spec->0.shape,
                spec->0.constraint,
                name,
                MAX_TRIES as nat,
                source,
                draw,
            ) && out == parameter_added(before, name, draw)
    }
}

/// Whether drawing a site from the prior can come to that.
pub open spec fn prior_site<A: Arithmetic, N: Randomness>(
    ops: &A,
    rand: &N,
    specs: Seq<(Seq<char>, FreeSpecModel)>,
    data: Seq<(Seq<char>, DataModel)>,
    before: PriorModel,
    site: SiteModel,
    source: N::Source,
    out: Result<(PriorModel, N::Source), Fault>,
) -> bool {
    match site.value {
        ExprModel::Param(name) => prior_parameter(
            ops,
            rand,
            specs,
            data,
            before,
            site,
            name,
            source,
            out,
        ),
        ExprModel::Data(name) => prior_outcome(ops, rand, data, before, site, name, source, out),
        _ => out == Ok::<(PriorModel, N::Source), Fault>((before, source)),
    }
}

/// Whether drawing an outcome from the prior can come to that.
pub open spec fn prior_outcome<A: Arithmetic, N: Randomness>(
    ops: &A,
    rand: &N,
    data: Seq<(Seq<char>, DataModel)>,
    before: PriorModel,
    site: SiteModel,
    name: Seq<char>,
    source: N::Source,
    out: Result<(PriorModel, N::Source), Fault>,
) -> bool {
    exists|draw: Result<(TensorModel, N::Source), Fault>| #[trigger]
        sampled(
            ops,
            rand,
            EnvModel { values: before.seen, data },
            site.distribution,
            None,
            source,
            draw,
        ) && out == outcome_added(before, name, draw)
}

/// Whether drawing all sites from the prior can come to that.
pub open spec fn prior_sites<A: Arithmetic, N: Randomness>(
    ops: &A,
    rand: &N,
    specs: Seq<(Seq<char>, FreeSpecModel)>,
    data: Seq<(Seq<char>, DataModel)>,
    sites: Seq<SiteModel>,
    source: N::Source,
    out: Result<(PriorModel, N::Source), Fault>,
) -> bool
    decreases sites.len(),
{
    if sites.len() == 0 {
        out == Ok::<(PriorModel, N::Source), Fault>((empty_prior(), source))
    } else {
        ||| out is Err && prior_sites(ops, rand, specs, data, sites.drop_last(), source, out)
        ||| exists|before: (PriorModel, N::Source)| #[trigger]
            prior_site(ops, rand, specs, data, before.0, sites.last(), before.1, out)
                && prior_sites(ops, rand, specs, data, sites.drop_last(), source, Ok(before))
    }
}

/// Nothing drawn yet.
pub open spec fn empty_prior() -> PriorModel {
    PriorModel { seen: Seq::empty(), parameters: Seq::empty(), outcomes: Seq::empty() }
}

/// Drawn parameters in the order of the first `n` declarations.
pub open spec fn ordered_parameters(
    names: Seq<Seq<char>>,
    drawn: Seq<(Seq<char>, DataModel)>,
    n: nat,
) -> Result<Seq<(Seq<char>, DataModel)>, Fault>
    decreases n,
{
    if n == 0 {
        Ok(Seq::empty())
    } else {
        match ordered_parameters(names, drawn, (n - 1) as nat) {
            Err(fault) => Err(fault),
            Ok(before) => match last_named(drawn, names[n - 1]) {
                None => Err(
                    shape_fault(
                        "model-prior generation is missing parameter \""@ + names[n - 1] + "\""@,
                    ),
                ),
                Some(value) => Ok(before.push((names[n - 1], value))),
            },
        }
    }
}

/// Whether some drawn parameter is not declared.
pub open spec fn undeclared(names: Seq<Seq<char>>, drawn: Seq<(Seq<char>, DataModel)>) -> bool {
    exists|k: int| 0 <= k < drawn.len() && !names.contains((#[trigger] drawn[k]).0)
}

/// A draw from the prior as a pair.
pub open spec fn prior_pair<S>(
    names: Seq<Seq<char>>,
    index: usize,
    end: Result<(PriorModel, S), Fault>,
) -> Result<(PairModel, S), Fault> {
    match end {
        Err(fault) => Err(fault),
        Ok((row, after)) => match ordered_parameters(names, row.parameters, names.len()) {
            Err(fault) => Err(fault),
            Ok(parameters) => if undeclared(names, row.parameters) {
                Err(
                    shape_fault("model-prior generation produced undeclared parameter values"@),
                )
            } else {
                Ok(
                    (
                        PairModel {
                            parameters,
                            outcomes: row.outcomes,
                            lineage: GenerationLineage::ModelPrior { source_draw_index: index },
                        },
                        after,
                    ),
                )
            },
        },
    }
}

/// The 64-bit numbers below this one fall into `count` classes of one size.
pub open spec fn even_zone(count: u64) -> u64 {
    (u64::MAX - u64::MAX % count) as u64
}

/// Whether picking one of `count` places evenly, in so many tries, can come to that.
pub open spec fn index_drawn<N: Randomness>(
    rand: &N,
    count: u64,
    tries: nat,
    source: N::Source,
    out: Result<(usize, N::Source), Fault>,
) -> bool
    decreases tries,
{
    if tries == 0 {
        out == Err::<(usize, N::Source), Fault>(
            settings_fault("generate could not pick a posterior draw"@),
        )
    } else {
        exists|value: u64, next: N::Source| #[trigger]
            rand.integer_gives(source, value, next) && if value < even_zone(count) {
                out == Ok::<(usize, N::Source), Fault>(((value % count) as usize, next))
            } else {
                index_drawn(rand, count, (tries - 1) as nat, next, out)
            }
    }
}

/// A posterior draw as data.
pub open spec fn draw_data(params: Seq<FitParamModel>, draw: FitDrawModel) -> Seq<
    (Seq<char>, DataModel),
> {
    Seq::new(params.len(), |k: int| (params[k].name, tensor_data(draw.values[k], false)))
}

/// Whether generating from a posterior draw can come to that.
pub open spec fn draw_generated<A: Arithmetic, N: Randomness>(
    ops: &A,
    rand: &N,
    specs: Seq<(Seq<char>, FreeSpecModel)>,
    data: Seq<(Seq<char>, DataModel)>,
    sites: Seq<SiteModel>,
    parameters: Seq<(Seq<char>, DataModel)>,
    lineage: GenerationLineage,
    source: N::Source,
    out: Result<(PairModel, N::Source), Fault>,
) -> bool {
    match truth_read(specs, parameters, "generate posterior"@) {
        Err(fault) => out == Err::<(PairModel, N::Source), Fault>(fault),
        Ok(values) => values_generated(
            ops,
            rand,
            data,
            sites,
            parameters,
            lineage,
            values,
            source,
            out,
        ),
    }
}

/// Whether generating from parameter values can come to that.
pub open spec fn values_generated<A: Arithmetic, N: Randomness>(
    ops: &A,
    rand: &N,
    data: Seq<(Seq<char>, DataModel)>,
    sites: Seq<SiteModel>,
    parameters: Seq<(Seq<char>, DataModel)>,
    lineage: GenerationLineage,
    values: Seq<(Seq<char>, TensorModel)>,
    source: N::Source,
    out: Result<(PairModel, N::Source), Fault>,
) -> bool {
    exists|made: Result<(Seq<(Seq<char>, DataModel)>, N::Source), Fault>| #[trigger]
        outcomes_drawn(ops, rand, data, sites, values, source, made) && out == paired(
            parameters,
            lineage,
            made,
        )
}

/// Where the parameters of pairs come from.
#[verifier::ext_equal]
pub enum ParameterModel {
    Fixed { parameters: Seq<(Seq<char>, DataModel)>, values: Seq<(Seq<char>, TensorModel)> },
    Prior { specs: Seq<(Seq<char>, FreeSpecModel)>, names: Seq<Seq<char>> },
    Posterior { specs: Seq<(Seq<char>, FreeSpecModel)>, fit: FitModel },
}

/// Whether generating from the posterior draw that was picked can come to that.
pub open spec fn pick_generated<A: Arithmetic, N: Randomness>(
    ops: &A,
    rand: &N,
    data: Seq<(Seq<char>, DataModel)>,
    sites: Seq<SiteModel>,
    specs: Seq<(Seq<char>, FreeSpecModel)>,
    fit: FitModel,
    pick: Result<(usize, N::Source), Fault>,
    out: Result<(PairModel, N::Source), Fault>,
) -> bool {
    match pick {
        Err(fault) => out == Err::<(PairModel, N::Source), Fault>(fault),
        Ok((index, mid)) => draw_generated(
            ops,
            rand,
            specs,
            data,
            sites,
            draw_data(fit.params, fit.draws[index as int]),
            GenerationLineage::Posterior {
                source_draw_index: fit.draws[index as int].draw_index,
                chain: fit.draws[index as int].chain,
                draw: fit.draws[index as int].draw,
            },
            mid,
            out,
        ),
    }
}

/// Whether generating a pair can come to that.
pub open spec fn pair_generated<A: Arithmetic, N: Randomness>(
    ops: &A,
    rand: &N,
    data: Seq<(Seq<char>, DataModel)>,
    sites: Seq<SiteModel>,
    origin: ParameterModel,
    index: usize,
    source: N::Source,
    out: Result<(PairModel, N::Source), Fault>,
) -> bool {
    match origin {
        ParameterModel::Fixed { parameters, values } => values_generated(
            ops,
            rand,
            data,
            sites,
            parameters,
            GenerationLineage::Fixed,
            values,
            source,
            out,
        ),
        ParameterModel::Prior { specs, names } => prior_generated(
            ops,
            rand,
            data,
            sites,
            specs,
            names,
            index,
            source,
            out,
        ),
        ParameterModel::Posterior { specs, fit } => posterior_generated(
            ops,
            rand,
            data,
            sites,
            specs,
            fit,
            source,
            out,
        ),
    }
}

/// Whether generating from the prior can come to that.
pub open spec fn prior_generated<A: Arithmetic, N: Randomness>(
    ops: &A,
    rand: &N,
    data: Seq<(Seq<char>, DataModel)>,
    sites: Seq<SiteModel>,
    specs: Seq<(Seq<char>, FreeSpecModel)>,
    names: Seq<Seq<char>>,
    index: usize,
    source: N::Source,
    out: Result<(PairModel, N::Source), Fault>,
) -> bool {
    exists|end: Result<(PriorModel, N::Source), Fault>| #[trigger]
        prior_sites(ops, rand, specs, data, sites, source, end) && out == prior_pair(
            names,
            index,
            end,
        )
}

/// Whether generating from a posterior can come to that.
pub open spec fn posterior_generated<A: Arithmetic, N: Randomness>(
    ops: &A,
    rand: &N,
    data: Seq<(Seq<char>, DataModel)>,
    sites: Seq<SiteModel>,
    specs: Seq<(Seq<char>, FreeSpecModel)>,
    fit: FitModel,
    source: N::Source,
    out: Result<(PairModel, N::Source), Fault>,
) -> bool {
    exists|pick: Result<(usize, N::Source), Fault>| #[trigger]
        index_drawn(rand, fit.draws.len() as u64, u64::MAX as nat, source, pick) && pick_generated(
            ops,
            rand,
            data,
            sites,
            specs,
            fit,
            pick,
            out,
        )
}

/// Pairs with one more behind them.
pub open spec fn pair_added<S>(
    before: (Seq<PairModel>, S),
    item: Result<(PairModel, S), Fault>,
    out: Result<(Seq<PairModel>, S), Fault>,
) -> bool {
    out == (match item {
        Err(fault) => Err::<(Seq<PairModel>, S), Fault>(fault),
        Ok((pair, after)) => Ok((before.0.push(pair), after)),
    })
}

/// Whether generating so many pairs can come to that.
pub open spec fn pairs_generated<A: Arithmetic, N: Randomness>(
    ops: &A,
    rand: &N,
    data: Seq<(Seq<char>, DataModel)>,
    sites: Seq<SiteModel>,
    origin: ParameterModel,
    n: nat,
    source: N::Source,
    out: Result<(Seq<PairModel>, N::Source), Fault>,
) -> bool
    decreases n,
{
    if n == 0 {
        out == Ok::<(Seq<PairModel>, N::Source), Fault>((Seq::empty(), source))
    } else {
        ||| out is Err && pairs_generated(
            ops,
            rand,
            data,
            sites,
            origin,
            (n - 1) as nat,
            source,
            out,
        )
        ||| exists|before: (Seq<PairModel>, N::Source), item: Result<(PairModel, N::Source), Fault>|
            #[trigger] pair_added(before, item, out) && pairs_generated(
                ops,
                rand,
                data,
                sites,
                origin,
                (n - 1) as nat,
                source,
                Ok(before),
            ) && pair_generated(
                ops,
                rand,
                data,
                sites,
                origin,
                (n - 1) as usize,
                before.1,
                item,
            )
    }
}

proof fn lemma_outcomes_fail<A: Arithmetic, N: Randomness>(
    ops: &A,
    rand: &N,
    data: Seq<(Seq<char>, DataModel)>,
    start: MadeModel,
    sites: Seq<SiteModel>,
    n: int,
    source: N::Source,
    fault: Fault,
)
    requires
        0 <= n <= sites.len(),
        outcomes_made(ops, rand, data, start, sites.take(n), source, Err(fault)),
    ensures
        outcomes_made(ops, rand, data, start, sites, source, Err(fault)),
    decreases sites.len(),
{
    if n < sites.len() {
        assert(sites.drop_last().take(n) =~= sites.take(n));
        lemma_outcomes_fail(ops, rand, data, start, sites.drop_last(), n, source, fault);
    } else {
        assert(sites.take(n) =~= sites);
    }
}

fn make_observed<A: Arithmetic, N: Randomness>(
    ops: &A,
    rand: &N,
    env: &mut ForwardEnv,
    made: &mut Vec<(String, DataValue)>,
    site: &ResolvedStochasticSite,
    name: &str,
    source: N::Source,
) -> (r: Result<N::Source, Error>)
    requires
        ops.reliable(),
        rand.ready(),
        env_full(old(env)@),
    ensures
        final(env)@.data == old(env)@.data,
        env_full(final(env)@),
        observed_made(
            ops,
            rand,
            old(env)@.data,
            made_view(old(env)@, old(made)@),
            site@,
            name@,
            source,
            match r {
                Ok(after) => Ok((made_view(final(env)@, final(made)@), after)),
                Err(error) => Err(error@),
            },
        ),
{
    if env.has_data(name) || env.has_value(name) {
        return Err(
            shape_mismatch(
                text::cat5(
                    "generate stochastic site \"",
                    site.name.as_str(),
                    "\" writes duplicate data value \"",
                    name,
                    "\"",
                ),
            ),
        );
    }
    let ghost before = made_view(env@, made@);
    let ghost begin = source;
    assert(env@ =~= (EnvModel { values: before.seen, data: env@.data }));
    let draw: Result<(Tensor, N::Source), Error> = sample_distribution(
        ops,
        rand,
        env,
        &site.distribution,
        None,
        source,
    );
    assert(sampled(
        ops,
        rand,
        EnvModel { values: before.seen, data: env@.data },
        site@.distribution,
        None,
        begin,
        sample_outcome(draw),
    ));
    match draw {
        Err(error) => Err(error),
        Ok((value, after)) => {
            let ghost content = value@;
            let ghost listed = made@;
            env.give(name, value.copy());
            let integer: bool = distribution_has_integer_support(&site.distribution);
            made.push((name.to_owned(), as_data(value, integer)));
            assert(data_views(made@) =~= data_views(listed).push(
                (name@, tensor_data(content, integer)),
            ));
            Ok(after)
        },
    }
}

/// The view of outcomes with the source behind them.
pub open spec fn outcomes_outcome<S>(r: Result<(Vec<(String, DataValue)>, S), Error>) -> Result<
    (Seq<(Seq<char>, DataModel)>, S),
    Fault,
> {
    match r {
        Ok(found) => Ok((data_views(found.0@), found.1)),
        Err(error) => Err(error@),
    }
}

pub fn simulate_generation_outcomes<A: Arithmetic, N: Randomness>(
    ops: &A,
    rand: &N,
    data: Vec<(String, DataValue)>,
    sites: &Vec<ResolvedStochasticSite>,
    values: Vec<(String, Tensor)>,
    source: N::Source,
) -> (r: Result<(Vec<(String, DataValue)>, N::Source), Error>)
    requires
        ops.reliable(),
        rand.ready(),
        all_filled(data_views(data@)),
        all_tensors_full(named_views(values@)),
    ensures
        outcomes_drawn(
            ops,
            rand,
            data_views(data@),
            list_views(sites@),
            named_views(values@),
            source,
            outcomes_outcome(r),
        ),
{
    let ghost all = list_views(sites@);
    let ghost bound = data_views(data@);
    let ghost start = MadeModel { seen: named_views(values@), made: Seq::empty() };
    let ghost begin = source;
    let mut now: N::Source = source;
    let mut env: ForwardEnv = ForwardEnv { values, data };
    let mut made: Vec<(String, DataValue)> = Vec::new();
    let mut i: usize = 0;
    proof {
        assert(made_view(env@, made@) =~= start);
        assert(all.take(0) =~= Seq::empty());
    }
    while i < sites.len()
        invariant
            i <= sites.len(),
            ops.reliable(),
            rand.ready(),
            all == list_views(sites@),
            begin == source,
            bound == data_views(data@),
            start == (MadeModel { seen: named_views(values@), made: Seq::empty() }),
            env@.data == bound,
            env_full(env@),
            outcomes_made(
                ops,
                rand,
                bound,
                start,
                all.take(i as int),
                begin,
                Ok((made_view(env@, made@), now)),
            ),
        decreases sites.len() - i,
    {
        let ghost done = all.take(i + 1);
        let ghost before = (made_view(env@, made@), now);
        let site: &ResolvedStochasticSite = &sites[i];
        proof {
            assert(done.drop_last() =~= all.take(i as int));
            assert(done.last() == site@);
        }
        let step: Result<N::Source, Error> = match &site.value {
            Expr::Param(_) => Ok(now),
            Expr::Data(name) => make_observed(
                ops,
                rand,
                &mut env,
                &mut made,
                site,
                name.as_str(),
                now,
            ),
            _ => Err(
                invalid_settings(
                    text::cat3(
                        "generate stochastic site \"",
                        site.name.as_str(),
                        "\" is not directly assignable",
                    ),
                ),
            ),
        };
        match step {
            Err(error) => {
                proof {
                    let out = Err::<(MadeModel, N::Source), Fault>(error@);
                    assert(outcome_made(ops, rand, bound, before.0, done.last(), before.1, out));
                    assert(outcomes_made(ops, rand, bound, start, done, begin, out));
                    lemma_outcomes_fail(ops, rand, bound, start, all, i + 1, begin, error@);
                    assert(outcomes_made(ops, rand, bound, start, all, begin, out));
                    assert(some_outcomes(out) == Err::<
                        (Seq<(Seq<char>, DataModel)>, N::Source),
                        Fault,
                    >(error@));
                }
                return Err(error);
            },
            Ok(after) => {
                proof {
                    let out = Ok::<(MadeModel, N::Source), Fault>((made_view(env@, made@), after));
                    assert(outcome_made(ops, rand, bound, before.0, done.last(), before.1, out));
                    assert(outcomes_made(ops, rand, bound, start, done, begin, out));
                }
                now = after;
            },
        }
        i += 1;
    }
    proof {
        assert(all.take(i as int) =~= all);
        assert(outcomes_made(
            ops,
            rand,
            bound,
            start,
            all,
            begin,
            Ok((made_view(env@, made@), now)),
        ));
        assert(data_views(made@).len() == made.len());
    }
    if made.len() == 0 {
        return Err(
            invalid_settings(
                "generate needs at least one directly assignable observed outcome".to_owned(),
            ),
        );
    }
    Ok((made, now))
}

/// The view of a pick.
pub open spec fn pick_outcome<S>(r: Result<(usize, S), Error>) -> Result<(usize, S), Fault> {
    match r {
        Ok(found) => Ok(found),
        Err(error) => Err(error@),
    }
}

/// Picks one of `count` places evenly.
pub fn uniform_fit_index<N: Randomness>(rand: &N, count: usize, source: N::Source) -> (r: Result<
    (usize, N::Source),
    Error,
>)
    requires
        rand.ready(),
        count > 0,
    ensures
        index_drawn(
            rand,
            count as u64,
            u64::MAX as nat,
            source,
            pick_outcome(r),
        ),
        r is Ok ==> r->Ok_0.0 < count,
{
    let classes: u64 = count as u64;
    let zone: u64 = u64::MAX - u64::MAX % classes;
    let ghost begin = source;
    let mut now: N::Source = source;
    let mut left: u64 = u64::MAX;
    while left > 0
        invariant
            rand.ready(),
            classes == count as u64,
            count > 0,
            zone == even_zone(classes),
            begin == source,
            forall|out: Result<(usize, N::Source), Fault>|
                index_drawn(rand, classes, left as nat, now, out) ==> #[trigger] index_drawn(
                    rand,
                    classes,
                    u64::MAX as nat,
                    begin,
                    out,
                ),
        decreases left,
    {
        let ghost before = now;
        let (value, next) = rand.integer(now);
        assert(rand.integer_gives(before, value, next));
        if value < zone {
            let place: usize = (value % classes) as usize;
            proof {
                assert(value % classes < classes);
                let out = Ok::<(usize, N::Source), Fault>((place, next));
                assert(index_drawn(rand, classes, left as nat, before, out));
            }
            return Ok((place, next));
        }
        proof {
            assert forall|out: Result<(usize, N::Source), Fault>|
                index_drawn(rand, classes, (left - 1) as nat, next, out) implies #[trigger] index_drawn(
                rand,
                classes,
                u64::MAX as nat,
                begin,
                out,
            ) by {
                assert(index_drawn(rand, classes, left as nat, before, out));
            }
        }
        now = next;
        left = left - 1;
    }
    let error: Error = invalid_settings("generate could not pick a posterior draw".to_owned());
    assert(index_drawn(rand, classes, 0, now, Err(error@)));
    Err(error)
}

} // verus!
