//! Generation of pairs from fixed parameters, from the prior, and from a posterior.

use vstd::prelude::*;

use crate::bounds::ResolvedConstraint;
use crate::data::{copy_data, DataValue};
#[allow(unused_imports)]
use crate::data::{data_outcome, data_views, DataModel};
use crate::error::{invalid_settings, malformed, shape_mismatch, Error};
#[allow(unused_imports)]
use crate::error::{outcome, shape_fault, Fault};
use crate::identity::posterior_identity_hash;
#[allow(unused_imports)]
use crate::identity::identity_hash;
#[allow(unused_imports)]
use crate::investigation::fields::verdict;
#[allow(unused_imports)]
use crate::investigation::host::{diagnoses, packing_of, packs};
#[allow(unused_imports)]
use crate::investigation::manifest::reads;
#[allow(unused_imports)]
use crate::investigation::samples::packing_views;
use crate::ir::{Expr, ModelMeta, ResolvedStochasticSite};
#[allow(unused_imports)]
use crate::ir::{list_views, named_views, resolved_sites, MetaModel, ParamModel, SiteModel};
use crate::json::Value;
#[allow(unused_imports)]
use crate::json::Json;
use crate::model::has_text;
#[allow(unused_imports)]
use crate::model::{all_filled, bound_names, checked};
use crate::numerics::{Arithmetic, Randomness};
use crate::posterior::Posterior;
use crate::tensor::Tensor;
#[allow(unused_imports)]
use crate::tensor::full;
use crate::text;
#[allow(unused_imports)]
use crate::text::text_views;

use super::fit::{parse_fit_stream, FitDraw, FitDrawStream, FitParamSpec};
#[allow(unused_imports)]
use super::fit::{borrowed_text, sound_draw, stream_read, FitModel, FitParamModel};
use super::forward::ForwardEnv;
#[allow(unused_imports)]
use super::forward::{env_full, last_named, EnvModel};
use super::generate::{
    generation_design, simulate_generation_outcomes, uniform_fit_index, validate_generation_model, GenerationLineage,
    GenerationPair,
};
#[allow(unused_imports)]
use super::generate::{
    design_fault, draw_data, empty_prior, generation_fault, index_drawn, ordered_parameters, outcomes_drawn,
    outcomes_outcome, pair_added, pair_generated, pairs_generated, pick_outcome, posterior_generated, prior_generated,
    prior_outcome, prior_parameter, prior_site, prior_sites, undeclared, value_data, PairModel, ParameterModel,
    PriorModel,
};
use super::records::{as_data, same_shape, value_is_integer};
#[allow(unused_imports)]
use super::records::tensor_data;
use super::restricted::sample_constrained_distribution;
#[allow(unused_imports)]
use super::restricted::{constrained_sampled, MAX_TRIES};
use super::sampling::sample_distribution;
#[allow(unused_imports)]
use super::sampling::{sample_outcome, sampled};
use super::setup::{find_spec, free_specs, FreeSpec};
#[allow(unused_imports)]
use super::setup::{all_covered, specs_laid, specs_outcome, FreeSpecModel};
use super::truth::validate_fixed_truth;
#[allow(unused_imports)]
use super::truth::{all_tensors_full, truth_read};

verus! {

/// The names of the parameters of a model.
pub open spec fn param_names(m: MetaModel) -> Seq<Seq<char>> {
    m.params.map_values(|p: (Seq<char>, ParamModel)| p.0)
}

/// What sites drawn from the prior came to, while they are drawn.
struct PriorRow {
    env: ForwardEnv,
    parameters: Vec<(String, DataValue)>,
    outcomes: Vec<(String, DataValue)>,
}

/// The view of a row.
spec fn row_view(row: PriorRow) -> PriorModel {
    PriorModel {
        seen: row.env@.values,
        parameters: data_views(row.parameters@),
        outcomes: data_views(row.outcomes@),
    }
}

/// The view of a row with the source behind it.
spec fn prior_outcome_view<S>(r: Result<(PriorRow, S), Error>) -> Result<(PriorModel, S), Fault> {
    match r {
        Ok(found) => Ok((row_view(found.0), found.1)),
        Err(error) => Err(error@),
    }
}

fn draw_prior_parameter<A: Arithmetic, N: Randomness>(
    ops: &A,
    rand: &N,
    specs: &Vec<(String, FreeSpec)>,
    row: PriorRow,
    site: &ResolvedStochasticSite,
    name: &str,
    source: N::Source,
) -> (r: Result<(PriorRow, N::Source), Error>)
    requires
        ops.reliable(),
        rand.ready(),
        env_full(row.env@),
    ensures
        prior_parameter(
            ops,
            rand,
            named_views(specs@),
            row.env@.data,
            row_view(row),
            site@,
            name@,
            source,
            prior_outcome_view(r),
        ),
        r is Ok ==> r->Ok_0.0.env@.data == row.env@.data && env_full(r->Ok_0.0.env@),
{
    let free: &FreeSpec = match find_spec(specs, name) {
        None => {
            let shown: String = text::quoted(site.name.as_str());
            let target: String = text::quoted(name);
            return Err(
                malformed(
                    text::cat4(
                        "generation site ",
                        shown.as_str(),
                        " targets unknown parameter ",
                        target.as_str(),
                    ),
                ),
            );
        },
        Some(free) => free,
    };
    if let Some(ResolvedConstraint::VectorBounds { .. }) = &free.constraint {
        let target: String = text::quoted(name);
        return Err(
            invalid_settings(
                text::cat2(
                    "VectorBounds model-prior generation is not implemented for ",
                    target.as_str(),
                ),
            ),
        );
    }
    let ghost before = row_view(row);
    let ghost begin = source;
    assert(row.env@ =~= (EnvModel { values: before.seen, data: row.env@.data }));
    let draw: Result<(Tensor, N::Source), Error> = sample_constrained_distribution(
        ops,
        rand,
        &row.env,
        &site.distribution,
        &free.shape,
        &free.constraint,
        name,
        source,
    );
    assert(constrained_sampled(
        ops,
        rand,
        EnvModel { values: before.seen, data: row.env@.data },
        site@.distribution,
        free@.shape,
        free@.constraint,
        name@,
        MAX_TRIES as nat,
        begin,
        sample_outcome(draw),
    ));
    match draw {
        Err(error) => Err(error),
        Ok((value, after)) => {
            let ghost content = value@;
            let mut next: PriorRow = row;
            next.env.give(name, value.copy());
            let integer: bool = value_is_integer(&value);
            next.parameters.push((name.to_owned(), as_data(value, integer)));
            assert(data_views(next.parameters@) =~= before.parameters.push(
                (name@, value_data(content)),
            ));
            Ok((next, after))
        },
    }
}

fn draw_prior_outcome<A: Arithmetic, N: Randomness>(
    ops: &A,
    rand: &N,
    row: PriorRow,
    site: &ResolvedStochasticSite,
    name: &str,
    source: N::Source,
) -> (r: Result<(PriorRow, N::Source), Error>)
    requires
        ops.reliable(),
        rand.ready(),
        env_full(row.env@),
    ensures
        prior_outcome(
            ops,
            rand,
            row.env@.data,
            row_view(row),
            site@,
            name@,
            source,
            prior_outcome_view(r),
        ),
        r is Ok ==> r->Ok_0.0.env@.data == row.env@.data && env_full(r->Ok_0.0.env@),
{
    let ghost before = row_view(row);
    let ghost begin = source;
    assert(row.env@ =~= (EnvModel { values: before.seen, data: row.env@.data }));
    let draw: Result<(Tensor, N::Source), Error> = sample_distribution(
        ops,
        rand,
        &row.env,
        &site.distribution,
        None,
        source,
    );
    assert(sampled(
        ops,
        rand,
        EnvModel { values: before.seen, data: row.env@.data },
        site@.distribution,
        None,
        begin,
        sample_outcome(draw),
    ));
    match draw {
        Err(error) => Err(error),
        Ok((value, after)) => {
            let ghost content = value@;
            let mut next: PriorRow = row;
            next.env.give(name, value.copy());
            let integer: bool = value_is_integer(&value);
            next.outcomes.push((name.to_owned(), as_data(value, integer)));
            assert(data_views(next.outcomes@) =~= before.outcomes.push(
                (name@, value_data(content)),
            ));
            Ok((next, after))
        },
    }
}

proof fn lemma_prior_fail<A: Arithmetic, N: Randomness>(
    ops: &A,
    rand: &N,
    specs: Seq<(Seq<char>, FreeSpecModel)>,
    data: Seq<(Seq<char>, DataModel)>,
    sites: Seq<SiteModel>,
    n: int,
    source: N::Source,
    fault: Fault,
)
    requires
        0 <= n <= sites.len(),
        prior_sites(ops, rand, specs, data, sites.take(n), source, Err(fault)),
    ensures
        prior_sites(ops, rand, specs, data, sites, source, Err(fault)),
    decreases sites.len(),
{
    if n < sites.len() {
        assert(sites.drop_last().take(n) =~= sites.take(n));
        lemma_prior_fail(ops, rand, specs, data, sites.drop_last(), n, source, fault);
    } else {
        assert(sites.take(n) =~= sites);
    }
}

fn draw_prior_sites<A: Arithmetic, N: Randomness>(
    ops: &A,
    rand: &N,
    specs: &Vec<(String, FreeSpec)>,
    data: Vec<(String, DataValue)>,
    sites: &Vec<ResolvedStochasticSite>,
    source: N::Source,
) -> (r: Result<(PriorRow, N::Source), Error>)
    requires
        ops.reliable(),
        rand.ready(),
        all_filled(data_views(data@)),
    ensures
        prior_sites(
            ops,
            rand,
            named_views(specs@),
            data_views(data@),
            list_views(sites@),
            source,
            prior_outcome_view(r),
        ),
{
    let ghost all = list_views(sites@);
    let ghost laid = named_views(specs@);
    let ghost bound = data_views(data@);
    let ghost begin = source;
    let mut now: N::Source = source;
    let mut row: PriorRow = PriorRow {
        env: ForwardEnv { values: Vec::new(), data },
        parameters: Vec::new(),
        outcomes: Vec::new(),
    };
    let mut i: usize = 0;
    proof {
        assert(row_view(row) =~= empty_prior());
        assert(all.take(0) =~= Seq::empty());
    }
    while i < sites.len()
        invariant
            i <= sites.len(),
            ops.reliable(),
            rand.ready(),
            all == list_views(sites@),
            laid == named_views(specs@),
            begin == source,
            bound == data_views(data@),
            row.env@.data == bound,
            env_full(row.env@),
            prior_sites(
                ops,
                rand,
                laid,
                bound,
                all.take(i as int),
                begin,
                Ok((row_view(row), now)),
            ),
        decreases sites.len() - i,
    {
        let ghost done = all.take(i + 1);
        let ghost before = (row_view(row), now);
        let site: &ResolvedStochasticSite = &sites[i];
        proof {
            assert(done.drop_last() =~= all.take(i as int));
            assert(done.last() == site@);
        }
        let step: Result<(PriorRow, N::Source), Error> = match &site.value {
            Expr::Param(name) => draw_prior_parameter(
                ops,
                rand,
                specs,
                row,
                site,
                name.as_str(),
                now,
            ),
            Expr::Data(name) => draw_prior_outcome(ops, rand, row, site, name.as_str(), now),
            _ => Ok((row, now)),
        };
        let ghost out = prior_outcome_view(step);
        proof {
            assert(prior_site(ops, rand, laid, bound, before.0, done.last(), before.1, out));
            assert(prior_sites(ops, rand, laid, bound, done, begin, out));
        }
        match step {
            Err(error) => {
                proof {
                    lemma_prior_fail(ops, rand, laid, bound, all, i + 1, begin, error@);
                }
                return Err(error);
            },
            Ok((next, after)) => {
                row = next;
                now = after;
            },
        }
        i += 1;
    }
    assert(all.take(i as int) =~= all);
    Ok((row, now))
}

proof fn lemma_ordered_fail(
    names: Seq<Seq<char>>,
    drawn: Seq<(Seq<char>, DataModel)>,
    m: nat,
    n: nat,
)
    requires
        m <= n,
        ordered_parameters(names, drawn, m) is Err,
    ensures
        ordered_parameters(names, drawn, n) == ordered_parameters(names, drawn, m),
    decreases n - m,
{
    if m < n {
        lemma_ordered_fail(names, drawn, m, (n - 1) as nat);
    }
}

fn find_last<'a>(data: &'a Vec<(String, DataValue)>, name: &str) -> (r: Option<&'a DataValue>)
    ensures
        match r {
            Some(value) => last_named(data_views(data@), name@) == Some(value@),
            None => last_named(data_views(data@), name@) is None,
        },
{
    let ghost all = data_views(data@);
    let mut i: usize = data.len();
    assert(all.take(i as int) =~= all);
    while i > 0
        invariant
            i <= data.len(),
            all == data_views(data@),
            last_named(all, name@) == last_named(all.take(i as int), name@),
        decreases i,
    {
        i -= 1;
        proof {
            let done = all.take(i + 1);
            assert(done.last() == (data@[i as int].0@, data@[i as int].1@));
            assert(done.drop_last() =~= all.take(i as int));
        }
        if text::same(data[i].0.as_str(), name) {
            return Some(&data[i].1);
        }
    }
    None
}

fn order_parameters(names: &Vec<String>, drawn: &Vec<(String, DataValue)>) -> (r: Result<
    Vec<(String, DataValue)>,
    Error,
>)
    ensures
        data_outcome(r) == ordered_parameters(text_views(names@), data_views(drawn@), names@.len()),
{
    let ghost wanted = text_views(names@);
    let ghost given = data_views(drawn@);
    let ghost count = names@.len();
    let mut out: Vec<(String, DataValue)> = Vec::new();
    assert(data_views(out@) =~= Seq::empty());
    let mut i: usize = 0;
    while i < names.len()
        invariant
            i <= names.len(),
            count == names@.len(),
            wanted == text_views(names@),
            given == data_views(drawn@),
            ordered_parameters(wanted, given, i as nat) == Ok::<
                Seq<(Seq<char>, DataModel)>,
                Fault,
            >(data_views(out@)),
        decreases names.len() - i,
    {
        let ghost n = (i + 1) as nat;
        assert(wanted[n - 1] == names@[i as int]@);
        match find_last(drawn, names[i].as_str()) {
            None => {
                proof {
                    lemma_ordered_fail(wanted, given, n, count);
                }
                return Err(
                    shape_mismatch(
                        text::cat3(
                            "model-prior generation is missing parameter \"",
                            names[i].as_str(),
                            "\"",
                        ),
                    ),
                );
            },
            Some(value) => {
                let ghost before = out@;
                let ghost content = value@;
                out.push((names[i].clone(), value.copy()));
                assert(data_views(out@) =~= data_views(before).push((wanted[n - 1], content)));
            },
        }
        i += 1;
    }
    Ok(out)
}

fn has_undeclared(names: &Vec<String>, drawn: &Vec<(String, DataValue)>) -> (r: bool)
    ensures
        r == undeclared(text_views(names@), data_views(drawn@)),
{
    let ghost wanted = text_views(names@);
    let ghost given = data_views(drawn@);
    assert(wanted.take(names@.len() as int) =~= wanted);
    let mut i: usize = 0;
    while i < drawn.len()
        invariant
            i <= drawn.len(),
            wanted == text_views(names@),
            wanted.take(names@.len() as int) == wanted,
            given == data_views(drawn@),
            forall|k: int| 0 <= k < i ==> wanted.contains((#[trigger] given[k]).0),
        decreases drawn.len() - i,
    {
        assert(given[i as int].0 == drawn@[i as int].0@);
        if !has_text(names, drawn[i].0.as_str(), names.len()) {
            return true;
        }
        i += 1;
    }
    false
}

/// The view of a pair with the source behind it.
pub open spec fn pair_outcome<S>(r: Result<(GenerationPair, S), Error>) -> Result<
    (PairModel, S),
    Fault,
> {
    match r {
        Ok(found) => Ok((found.0@, found.1)),
        Err(error) => Err(error@),
    }
}

fn generate_from_prior<A: Arithmetic, N: Randomness>(
    ops: &A,
    rand: &N,
    data: &Vec<(String, DataValue)>,
    sites: &Vec<ResolvedStochasticSite>,
    specs: &Vec<(String, FreeSpec)>,
    names: &Vec<String>,
    index: usize,
    source: N::Source,
) -> (r: Result<(GenerationPair, N::Source), Error>)
    requires
        ops.reliable(),
        rand.ready(),
        all_filled(data_views(data@)),
    ensures
        prior_generated(
            ops,
            rand,
            data_views(data@),
            list_views(sites@),
            named_views(specs@),
            text_views(names@),
            index,
            source,
            pair_outcome(r),
        ),
{
    let ghost begin = source;
    let end: Result<(PriorRow, N::Source), Error> = draw_prior_sites(
        ops,
        rand,
        specs,
        copy_data(data),
        sites,
        source,
    );
    let ghost kept = prior_outcome_view(end);
    assert(prior_sites(
        ops,
        rand,
        named_views(specs@),
        data_views(data@),
        list_views(sites@),
        begin,
        kept,
    ));
    assert(text_views(names@).len() == names@.len());
    match end {
        Err(error) => Err(error),
        Ok((row, after)) => {
            let parameters: Vec<(String, DataValue)> = order_parameters(names, &row.parameters)?;
            if has_undeclared(names, &row.parameters) {
                return Err(
                    shape_mismatch(
                        "model-prior generation produced undeclared parameter values".to_owned(),
                    ),
                );
            }
            Ok(
                (
                    GenerationPair {
                        parameters,
                        outcomes: row.outcomes,
                        lineage: GenerationLineage::ModelPrior { source_draw_index: index },
                    },
                    after,
                ),
            )
        },
    }
}

fn copy_tensors(values: &Vec<(String, Tensor)>) -> (r: Vec<(String, Tensor)>)
    ensures
        named_views(r@) == named_views(values@),
{
    let mut out: Vec<(String, Tensor)> = Vec::new();
    let mut i: usize = 0;
    while i < values.len()
        invariant
            i <= values.len(),
            out.len() == i,
            forall|k: int|
                0 <= k < i ==> (#[trigger] out@[k]).0@ == values@[k].0@ && out@[k].1@ == values@[k].1@,
        decreases values.len() - i,
    {
        out.push((values[i].0.clone(), values[i].1.copy()));
        i += 1;
    }
    assert(named_views(out@) =~= named_views(values@));
    out
}

fn generate_from_values<A: Arithmetic, N: Randomness>(
    ops: &A,
    rand: &N,
    data: &Vec<(String, DataValue)>,
    sites: &Vec<ResolvedStochasticSite>,
    parameters: &Vec<(String, DataValue)>,
    lineage: GenerationLineage,
    values: Vec<(String, Tensor)>,
    source: N::Source,
) -> (r: Result<(GenerationPair, N::Source), Error>)
    requires
        ops.reliable(),
        rand.ready(),
        all_filled(data_views(data@)),
        all_tensors_full(named_views(values@)),
    ensures
        super::generate::values_generated(
            ops,
            rand,
            data_views(data@),
            list_views(sites@),
            data_views(parameters@),
            lineage,
            named_views(values@),
            source,
            pair_outcome(r),
        ),
{
    let ghost begin = source;
    let ghost given = named_views(values@);
    let made: Result<(Vec<(String, DataValue)>, N::Source), Error> = simulate_generation_outcomes(
        ops,
        rand,
        copy_data(data),
        sites,
        values,
        source,
    );
    assert(outcomes_drawn(
        ops,
        rand,
        data_views(data@),
        list_views(sites@),
        given,
        begin,
        outcomes_outcome(made),
    ));
    match made {
        Err(error) => Err(error),
        Ok((outcomes, after)) => Ok(
            (GenerationPair { parameters: copy_data(parameters), outcomes, lineage }, after),
        ),
    }
}

/// A posterior draw as data.
fn data_of_draw(params: &Vec<FitParamSpec>, draw: &FitDraw) -> (r: Vec<(String, DataValue)>)
    requires
        draw.values@.len() == params@.len(),
    ensures
        data_views(r@) == draw_data(list_views(params@), draw@),
{
    let mut out: Vec<(String, DataValue)> = Vec::new();
    let mut i: usize = 0;
    while i < params.len()
        invariant
            i <= params.len(),
            draw.values.len() == params.len(),
            out.len() == i,
            forall|k: int|
                0 <= k < i ==> (#[trigger] out@[k]).0@ == params@[k].name@ && out@[k].1@
                    == tensor_data(draw.values@[k]@, false),
        decreases params.len() - i,
    {
        out.push((params[i].name.clone(), as_data(draw.values[i].copy(), false)));
        i += 1;
    }
    assert(data_views(out@) =~= draw_data(list_views(params@), draw@));
    out
}

/// A posterior whose draws have one full value per parameter.
pub open spec fn usable_fit(fit: FitModel) -> bool {
    &&& fit.draws.len() >= 1
    &&& forall|i: int|
        0 <= i < fit.draws.len() ==> sound_draw(#[trigger] fit.draws[i], fit.params, i as nat)
}

proof fn lemma_draw_filled(fit: FitModel, i: int)
    requires
        usable_fit(fit),
        0 <= i < fit.draws.len(),
    ensures
        all_filled(draw_data(fit.params, fit.draws[i])),
{
    assert(sound_draw(fit.draws[i], fit.params, i as nat));
    let data = draw_data(fit.params, fit.draws[i]);
    assert forall|k: int| 0 <= k < data.len() implies crate::data::filled(
        (#[trigger] data[k]).1,
    ) by {
        assert(full(fit.draws[i].values[k]));
    }
}

fn generate_from_posterior<A: Arithmetic, N: Randomness>(
    ops: &A,
    rand: &N,
    data: &Vec<(String, DataValue)>,
    sites: &Vec<ResolvedStochasticSite>,
    specs: &Vec<(String, FreeSpec)>,
    fit: &FitDrawStream,
    source: N::Source,
) -> (r: Result<(GenerationPair, N::Source), Error>)
    requires
        ops.reliable(),
        rand.ready(),
        all_filled(data_views(data@)),
        all_covered(named_views(specs@)),
        usable_fit(fit@),
    ensures
        posterior_generated(
            ops,
            rand,
            data_views(data@),
            list_views(sites@),
            named_views(specs@),
            fit@,
            source,
            pair_outcome(r),
        ),
{
    let ghost begin = source;
    assert(fit@.draws.len() == fit.draws.len());
    let count: usize = fit.draws.len();
    let pick: Result<(usize, N::Source), Error> = uniform_fit_index(rand, count, source);
    let ghost kept = pick_outcome(pick);
    assert(index_drawn(rand, fit@.draws.len() as u64, u64::MAX as nat, begin, kept));
    match pick {
        Err(error) => Err(error),
        Ok((index, mid)) => {
            let draw: &FitDraw = &fit.draws[index];
            proof {
                assert(fit@.draws[index as int] == draw@);
                assert(sound_draw(fit@.draws[index as int], fit@.params, index as nat));
                assert(draw@.values.len() == draw.values@.len());
                assert(fit@.params.len() == fit.params@.len());
                assert(fit@.params =~= list_views(fit.params@));
                lemma_draw_filled(fit@, index as int);
            }
            let parameters: Vec<(String, DataValue)> = data_of_draw(&fit.params, draw);
            let values: Vec<(String, Tensor)> = validate_fixed_truth(
                specs,
                &parameters,
                "generate posterior",
            )?;
            generate_from_values(
                ops,
                rand,
                data,
                sites,
                &parameters,
                GenerationLineage::Posterior {
                    source_draw_index: draw.draw_index,
                    chain: draw.chain,
                    draw: draw.draw,
                },
                values,
                mid,
            )
        },
    }
}

/// Where the parameters of pairs come from.
enum Origin {
    Fixed { parameters: Vec<(String, DataValue)>, values: Vec<(String, Tensor)> },
    Prior { specs: Vec<(String, FreeSpec)>, names: Vec<String> },
    Posterior { specs: Vec<(String, FreeSpec)>, fit: FitDrawStream },
}

impl View for Origin {
    type V = ParameterModel;

    closed spec fn view(&self) -> ParameterModel {
        match *self {
            Origin::Fixed { parameters, values } => ParameterModel::Fixed {
                parameters: data_views(parameters@),
                values: named_views(values@),
            },
            Origin::Prior { specs, names } => ParameterModel::Prior {
                specs: named_views(specs@),
                names: text_views(names@),
            },
            Origin::Posterior { specs, fit } => ParameterModel::Posterior {
                specs: named_views(specs@),
                fit: fit@,
            },
        }
    }
}

impl Origin {
    spec fn ready(self) -> bool {
        match self {
            Origin::Fixed { parameters, values } => all_tensors_full(named_views(values@)),
            Origin::Prior { .. } => true,
            Origin::Posterior { specs, fit } => all_covered(named_views(specs@)) && usable_fit(
                fit@,
            ),
        }
    }

    fn generate<A: Arithmetic, N: Randomness>(
        &self,
        ops: &A,
        rand: &N,
        data: &Vec<(String, DataValue)>,
        sites: &Vec<ResolvedStochasticSite>,
        index: usize,
        source: N::Source,
    ) -> (r: Result<(GenerationPair, N::Source), Error>)
        requires
            ops.reliable(),
            rand.ready(),
            all_filled(data_views(data@)),
            self.ready(),
        ensures
            pair_generated(
                ops,
                rand,
                data_views(data@),
                list_views(sites@),
                self@,
                index,
                source,
                pair_outcome(r),
            ),
    {
        match self {
            Origin::Fixed { parameters, values } => generate_from_values(
                ops,
                rand,
                data,
                sites,
                parameters,
                GenerationLineage::Fixed,
                copy_tensors(values),
                source,
            ),
            Origin::Prior { specs, names } => generate_from_prior(
                ops,
                rand,
                data,
                sites,
                specs,
                names,
                index,
                source,
            ),
            Origin::Posterior { specs, fit } => generate_from_posterior(
                ops,
                rand,
                data,
                sites,
                specs,
                fit,
                source,
            ),
        }
    }
}

proof fn lemma_pairs_fail<A: Arithmetic, N: Randomness>(
    ops: &A,
    rand: &N,
    data: Seq<(Seq<char>, DataModel)>,
    sites: Seq<SiteModel>,
    origin: ParameterModel,
    m: nat,
    n: nat,
    source: N::Source,
    fault: Fault,
)
    requires
        m <= n,
        pairs_generated(ops, rand, data, sites, origin, m, source, Err(fault)),
    ensures
        pairs_generated(ops, rand, data, sites, origin, n, source, Err(fault)),
    decreases n - m,
{
    if m < n {
        lemma_pairs_fail(ops, rand, data, sites, origin, m, (n - 1) as nat, source, fault);
    }
}

proof fn lemma_pairs_step<A: Arithmetic, N: Randomness>(
    ops: &A,
    rand: &N,
    data: Seq<(Seq<char>, DataModel)>,
    sites: Seq<SiteModel>,
    origin: ParameterModel,
    n: nat,
    source: N::Source,
    before: (Seq<PairModel>, N::Source),
    item: Result<(PairModel, N::Source), Fault>,
    out: Result<(Seq<PairModel>, N::Source), Fault>,
)
    requires
        n > 0,
        pair_added(before, item, out),
        pairs_generated(ops, rand, data, sites, origin, (n - 1) as nat, source, Ok(before)),
        pair_generated(ops, rand, data, sites, origin, (n - 1) as usize, before.1, item),
    ensures
        pairs_generated(ops, rand, data, sites, origin, n, source, out),
{
}

/// Pairs without the source behind them.
pub open spec fn pairs_of<S>(end: Result<(Seq<PairModel>, S), Fault>) -> Result<
    Seq<PairModel>,
    Fault,
> {
    match end {
        Err(fault) => Err(fault),
        Ok((pairs, _)) => Ok(pairs),
    }
}

/// Whether generating pairs from an origin can come to that.
pub open spec fn origin_generated<A: Arithmetic, N: Randomness>(
    ops: &A,
    rand: &N,
    data: Seq<(Seq<char>, DataModel)>,
    sites: Seq<SiteModel>,
    origin: ParameterModel,
    n: nat,
    seed: u64,
    out: Result<Seq<PairModel>, Fault>,
) -> bool {
    exists|source: N::Source| #[trigger]
        rand.start_gives(seed, source) && source_generated(
            ops,
            rand,
            data,
            sites,
            origin,
            n,
            source,
            out,
        )
}

/// Whether generating pairs from a source of randomness can come to that.
pub open spec fn source_generated<A: Arithmetic, N: Randomness>(
    ops: &A,
    rand: &N,
    data: Seq<(Seq<char>, DataModel)>,
    sites: Seq<SiteModel>,
    origin: ParameterModel,
    n: nat,
    source: N::Source,
    out: Result<Seq<PairModel>, Fault>,
) -> bool {
    exists|end: Result<(Seq<PairModel>, N::Source), Fault>| #[trigger]
        pairs_generated(ops, rand, data, sites, origin, n, source, end) && out == pairs_of(end)
}

/// The view of pairs.
pub open spec fn pairs_outcome(r: Result<Vec<GenerationPair>, Error>) -> Result<
    Seq<PairModel>,
    Fault,
> {
    match r {
        Ok(pairs) => Ok(list_views(pairs@)),
        Err(error) => Err(error@),
    }
}

fn generate_pairs<A: Arithmetic, N: Randomness>(
    ops: &A,
    rand: &N,
    data: &Vec<(String, DataValue)>,
    sites: &Vec<ResolvedStochasticSite>,
    origin: &Origin,
    count: usize,
    seed: u64,
) -> (r: Result<Vec<GenerationPair>, Error>)
    requires
        ops.reliable(),
        rand.ready(),
        all_filled(data_views(data@)),
        origin.ready(),
    ensures
        origin_generated(
            ops,
            rand,
            data_views(data@),
            list_views(sites@),
            origin@,
            count as nat,
            seed,
            pairs_outcome(r),
        ),
        r is Ok ==> r->Ok_0@.len() == count,
{
    let ghost bound = data_views(data@);
    let ghost all = list_views(sites@);
    let ghost from = origin@;
    let mut now: N::Source = rand.start(seed);
    let ghost begin = now;
    assert(rand.start_gives(seed, begin));
    let mut out: Vec<GenerationPair> = Vec::new();
    assert(list_views(out@) =~= Seq::empty());
    let mut i: usize = 0;
    while i < count
        invariant
            i <= count,
            ops.reliable(),
            rand.ready(),
            all_filled(bound),
            origin.ready(),
            bound == data_views(data@),
            all == list_views(sites@),
            from == origin@,
            out.len() == i,
            rand.start_gives(seed, begin),
            pairs_generated(
                ops,
                rand,
                bound,
                all,
                from,
                i as nat,
                begin,
                Ok((list_views(out@), now)),
            ),
        decreases count - i,
    {
        let ghost n = (i + 1) as nat;
        let ghost before = (list_views(out@), now);
        let item: Result<(GenerationPair, N::Source), Error> = origin.generate(
            ops,
            rand,
            data,
            sites,
            i,
            now,
        );
        let ghost kept = pair_outcome(item);
        match item {
            Err(error) => {
                proof {
                    lemma_pairs_step(
                        ops,
                        rand,
                        bound,
                        all,
                        from,
                        n,
                        begin,
                        before,
                        kept,
                        Err(error@),
                    );
                    lemma_pairs_fail(ops, rand, bound, all, from, n, count as nat, begin, error@);
                    assert(source_generated(
                        ops,
                        rand,
                        bound,
                        all,
                        from,
                        count as nat,
                        begin,
                        pairs_of(Err::<(Seq<PairModel>, N::Source), Fault>(error@)),
                    ));
                }
                return Err(error);
            },
            Ok((pair, after)) => {
                let ghost content = pair@;
                let ghost listed = out@;
                out.push(pair);
                now = after;
                proof {
                    assert(list_views(out@) =~= list_views(listed).push(content));
                    lemma_pairs_step(
                        ops,
                        rand,
                        bound,
                        all,
                        from,
                        n,
                        begin,
                        before,
                        kept,
                        Ok((list_views(out@), now)),
                    );
                }
            },
        }
        i += 1;
    }
    assert(source_generated(
        ops,
        rand,
        bound,
        all,
        from,
        count as nat,
        begin,
        pairs_of(Ok::<(Seq<PairModel>, N::Source), Fault>((list_views(out@), now))),
    ));
    Ok(out)
}

fn param_name_list(meta: &ModelMeta) -> (r: Vec<String>)
    ensures
        text_views(r@) == param_names(meta@),
{
    let mut out: Vec<String> = Vec::new();
    let mut i: usize = 0;
    while i < meta.params.len()
        invariant
            i <= meta.params.len(),
            out.len() == i,
            forall|k: int| 0 <= k < i ==> (#[trigger] out@[k])@ == meta.params@[k].0@,
        decreases meta.params.len() - i,
    {
        out.push(meta.params[i].0.clone());
        i += 1;
    }
    assert(text_views(out@) =~= param_names(meta@));
    out
}

fn names_match(names: &Vec<String>, data: &Vec<(String, DataValue)>) -> (r: bool)
    ensures
        r == (text_views(names@) == bound_names(data_views(data@))),
{
    let ghost wanted = text_views(names@);
    let ghost given = bound_names(data_views(data@));
    assert(wanted.len() == names.len() && given.len() == data.len());
    if names.len() != data.len() {
        return false;
    }
    let mut i: usize = 0;
    while i < names.len()
        invariant
            i <= names.len(),
            names.len() == data.len(),
            wanted == text_views(names@),
            given == bound_names(data_views(data@)),
            forall|k: int| 0 <= k < i ==> wanted[k] == given[k],
        decreases names.len() - i,
    {
        assert(wanted[i as int] == names@[i as int]@ && given[i as int] == data@[i as int].0@);
        if !text::same(names[i].as_str(), data[i].0.as_str()) {
            return false;
        }
        i += 1;
    }
    assert(wanted =~= given);
    true
}

/// Whether generating from fixed parameters can come to that, by what the layout came to.
pub open spec fn fixed_laid<A: Arithmetic, N: Randomness>(
    ops: &A,
    rand: &N,
    m: MetaModel,
    design: Seq<(Seq<char>, DataModel)>,
    parameters: Seq<(Seq<char>, DataModel)>,
    n: nat,
    seed: u64,
    specs: Result<Seq<(Seq<char>, FreeSpecModel)>, Fault>,
    out: Result<Seq<PairModel>, Fault>,
) -> bool {
    match specs {
        Err(fault) => out == Err::<Seq<PairModel>, Fault>(fault),
        Ok(laid) => match truth_read(laid, parameters, "generate fixed"@) {
            Err(fault) => out == Err::<Seq<PairModel>, Fault>(fault),
            Ok(values) => origin_generated(
                ops,
                rand,
                design,
                resolved_sites(m),
                ParameterModel::Fixed { parameters, values },
                n,
                seed,
                out,
            ),
        },
    }
}

/// Whether generating pairs from fixed parameters can come to that.
pub open spec fn fixed_pairs<A: Arithmetic, N: Randomness>(
    ops: &A,
    rand: &N,
    m: MetaModel,
    design: Seq<(Seq<char>, DataModel)>,
    parameters: Seq<(Seq<char>, DataModel)>,
    n: nat,
    seed: u64,
    out: Result<Seq<PairModel>, Fault>,
) -> bool {
    if generation_fault(m) is Some {
        out == Err::<Seq<PairModel>, Fault>(generation_fault(m)->0)
    } else if param_names(m) != bound_names(parameters) {
        out == Err::<Seq<PairModel>, Fault>(
            shape_fault(
                "generate fixed parameter order must exactly match the model's Param order"@,
            ),
        )
    } else if design_fault(m, design) is Some {
        out == Err::<Seq<PairModel>, Fault>(design_fault(m, design)->0)
    } else {
        exists|specs: Result<Seq<(Seq<char>, FreeSpecModel)>, Fault>| #[trigger]
            specs_laid(ops, m, design, specs) && fixed_laid(
                ops,
                rand,
                m,
                design,
                parameters,
                n,
                seed,
                specs,
                out,
            )
    }
}

/// Generates pairs from fixed parameters.
pub fn fixed_generation_pairs<A: Arithmetic, N: Randomness>(
    meta: &ModelMeta,
    design: &Vec<(String, DataValue)>,
    parameters: Vec<(String, DataValue)>,
    count: usize,
    seed: u64,
    ops: &A,
    rand: &N,
) -> (r: Result<Vec<GenerationPair>, Error>)
    requires
        ops.reliable(),
        rand.ready(),
        all_filled(data_views(design@)),
        all_filled(data_views(parameters@)),
    ensures
        fixed_pairs(
            ops,
            rand,
            meta@,
            data_views(design@),
            data_views(parameters@),
            count as nat,
            seed,
            pairs_outcome(r),
        ),
        r is Ok ==> r->Ok_0@.len() == count,
{
    let ghost bound = data_views(design@);
    let ghost given = data_views(parameters@);
    validate_generation_model(meta)?;
    let names: Vec<String> = param_name_list(meta);
    if !names_match(&names, &parameters) {
        return Err(
            shape_mismatch(
                "generate fixed parameter order must exactly match the model's Param order".to_owned(),
            ),
        );
    }
    generation_design(meta, design)?;
    let laid: Result<Vec<(String, FreeSpec)>, Error> = free_specs(ops, meta, design);
    let ghost kept = specs_outcome(laid);
    assert(specs_laid(ops, meta@, bound, kept));
    let specs: Vec<(String, FreeSpec)> = match laid {
        Err(error) => {
            assert(fixed_laid(
                ops,
                rand,
                meta@,
                bound,
                given,
                count as nat,
                seed,
                kept,
                Err(error@),
            ));
            return Err(error);
        },
        Ok(specs) => specs,
    };
    let values: Vec<(String, Tensor)> = match validate_fixed_truth(
        &specs,
        &parameters,
        "generate fixed",
    ) {
        Err(error) => {
            assert(fixed_laid(
                ops,
                rand,
                meta@,
                bound,
                given,
                count as nat,
                seed,
                kept,
                Err(error@),
            ));
            return Err(error);
        },
        Ok(values) => values,
    };
    let sites: Vec<ResolvedStochasticSite> = meta.resolved_stochastic_sites();
    let origin: Origin = Origin::Fixed { parameters, values };
    let out: Result<Vec<GenerationPair>, Error> = generate_pairs(
        ops,
        rand,
        design,
        &sites,
        &origin,
        count,
        seed,
    );
    assert(fixed_laid(
        ops,
        rand,
        meta@,
        bound,
        given,
        count as nat,
        seed,
        kept,
        pairs_outcome(out),
    ));
    out
}

/// Whether generating from the prior can come to that, by what the layout came to.
pub open spec fn prior_laid<A: Arithmetic, N: Randomness>(
    ops: &A,
    rand: &N,
    m: MetaModel,
    design: Seq<(Seq<char>, DataModel)>,
    n: nat,
    seed: u64,
    specs: Result<Seq<(Seq<char>, FreeSpecModel)>, Fault>,
    out: Result<Seq<PairModel>, Fault>,
) -> bool {
    match specs {
        Err(fault) => out == Err::<Seq<PairModel>, Fault>(fault),
        Ok(laid) => origin_generated(
            ops,
            rand,
            design,
            resolved_sites(m),
            ParameterModel::Prior { specs: laid, names: param_names(m) },
            n,
            seed,
            out,
        ),
    }
}

/// Whether generating pairs from the prior can come to that.
pub open spec fn prior_pairs<A: Arithmetic, N: Randomness>(
    ops: &A,
    rand: &N,
    m: MetaModel,
    design: Seq<(Seq<char>, DataModel)>,
    n: nat,
    seed: u64,
    out: Result<Seq<PairModel>, Fault>,
) -> bool {
    if generation_fault(m) is Some {
        out == Err::<Seq<PairModel>, Fault>(generation_fault(m)->0)
    } else if design_fault(m, design) is Some {
        out == Err::<Seq<PairModel>, Fault>(design_fault(m, design)->0)
    } else {
        exists|specs: Result<Seq<(Seq<char>, FreeSpecModel)>, Fault>| #[trigger]
            specs_laid(ops, m, design, specs) && prior_laid(
                ops,
                rand,
                m,
                design,
                n,
                seed,
                specs,
                out,
            )
    }
}

/// Generates pairs from the prior of a model.
pub fn model_prior_generation_pairs<A: Arithmetic, N: Randomness>(
    meta: &ModelMeta,
    design: &Vec<(String, DataValue)>,
    count: usize,
    seed: u64,
    ops: &A,
    rand: &N,
) -> (r: Result<Vec<GenerationPair>, Error>)
    requires
        ops.reliable(),
        rand.ready(),
        all_filled(data_views(design@)),
    ensures
        prior_pairs(
            ops,
            rand,
            meta@,
            data_views(design@),
            count as nat,
            seed,
            pairs_outcome(r),
        ),
        r is Ok ==> r->Ok_0@.len() == count,
{
    let ghost bound = data_views(design@);
    validate_generation_model(meta)?;
    generation_design(meta, design)?;
    let laid: Result<Vec<(String, FreeSpec)>, Error> = free_specs(ops, meta, design);
    let ghost kept = specs_outcome(laid);
    assert(specs_laid(ops, meta@, bound, kept));
    let specs: Vec<(String, FreeSpec)> = match laid {
        Err(error) => {
            assert(prior_laid(ops, rand, meta@, bound, count as nat, seed, kept, Err(error@)));
            return Err(error);
        },
        Ok(specs) => specs,
    };
    let sites: Vec<ResolvedStochasticSite> = meta.resolved_stochastic_sites();
    let origin: Origin = Origin::Prior { specs, names: param_name_list(meta) };
    let out: Result<Vec<GenerationPair>, Error> = generate_pairs(
        ops,
        rand,
        design,
        &sites,
        &origin,
        count,
        seed,
    );
    assert(prior_laid(
        ops,
        rand,
        meta@,
        bound,
        count as nat,
        seed,
        kept,
        pairs_outcome(out),
    ));
    out
}

/// Whether the parameters of a posterior are those that a design lays out.
pub open spec fn fits_design(
    params: Seq<FitParamModel>,
    specs: Seq<(Seq<char>, FreeSpecModel)>,
) -> bool {
    forall|i: int|
        0 <= i < params.len() && i < specs.len() ==> (#[trigger] params[i]).name == specs[i].0
            && params[i].shape == specs[i].1.shape
}

fn check_fits_design(params: &Vec<FitParamSpec>, specs: &Vec<(String, FreeSpec)>) -> (r: bool)
    ensures
        r == fits_design(list_views(params@), named_views(specs@)),
{
    let ghost all = list_views(params@);
    let ghost laid = named_views(specs@);
    let mut i: usize = 0;
    while i < params.len() && i < specs.len()
        invariant
            i <= params.len(),
            i <= specs.len(),
            all == list_views(params@),
            laid == named_views(specs@),
            forall|k: int|
                0 <= k < i ==> (#[trigger] all[k]).name == laid[k].0 && all[k].shape
                    == laid[k].1.shape,
        decreases params.len() - i,
    {
        proof {
            assert(all[i as int] == params@[i as int]@);
            assert(laid[i as int] == (specs@[i as int].0@, specs@[i as int].1@));
        }
        if !text::same(params[i].name.as_str(), specs[i].0.as_str()) || !same_shape(
            &params[i].shape,
            &specs[i].1.shape,
        ) {
            return false;
        }
        i += 1;
    }
    true
}

/// What is wrong with the draws of a posterior from draw `i` on, as parameters over a design.
pub open spec fn draws_fault(
    specs: Seq<(Seq<char>, FreeSpecModel)>,
    fit: FitModel,
    i: int,
) -> Option<Fault>
    decreases fit.draws.len() - i,
{
    if i < 0 || i >= fit.draws.len() {
        None
    } else {
        match truth_read(
            specs,
            draw_data(fit.params, fit.draws[i]),
            "generate posterior fit draw"@,
        ) {
            Err(fault) => Some(fault),
            Ok(_) => draws_fault(specs, fit, i + 1),
        }
    }
}

fn check_draws(specs: &Vec<(String, FreeSpec)>, fit: &FitDrawStream) -> (r: Result<(), Error>)
    requires
        all_covered(named_views(specs@)),
        usable_fit(fit@),
    ensures
        checked(r) == draws_fault(named_views(specs@), fit@, 0),
{
    let ghost laid = named_views(specs@);
    let ghost stream = fit@;
    assert(stream.draws.len() == fit.draws.len());
    assert(stream.params.len() == fit.params@.len());
    let mut i: usize = 0;
    while i < fit.draws.len()
        invariant
            i <= fit.draws.len(),
            laid == named_views(specs@),
            all_covered(laid),
            stream == fit@,
            stream.draws.len() == fit.draws.len(),
            stream.params.len() == fit.params@.len(),
            usable_fit(stream),
            draws_fault(laid, stream, 0) == draws_fault(laid, stream, i as int),
        decreases fit.draws.len() - i,
    {
        proof {
            assert(stream.draws[i as int] == fit.draws@[i as int]@);
            assert(sound_draw(stream.draws[i as int], stream.params, i as nat));
            assert(stream.draws[i as int].values.len() == fit.draws@[i as int].values@.len());
            assert(stream.params =~= list_views(fit.params@));
            lemma_draw_filled(stream, i as int);
        }
        let parameters: Vec<(String, DataValue)> = data_of_draw(&fit.params, &fit.draws[i]);
        if let Err(error) = validate_fixed_truth(
            specs,
            &parameters,
            "generate posterior fit draw",
        ) {
            return Err(error);
        }
        i += 1;
    }
    Ok(())
}

/// What pairs are generated from when a posterior supplies the parameters.
#[verifier::ext_equal]
pub struct PosteriorModel {
    pub meta: MetaModel,
    pub model_text: Seq<char>,
    pub design: Seq<(Seq<char>, DataModel)>,
    pub fit_data: Seq<(Seq<char>, DataModel)>,
    pub fit: Seq<char>,
    pub fingerprint: Option<Seq<char>>,
}

/// Whether generating from a posterior can come to that, by what the layout came to.
pub open spec fn posterior_laid<A: Arithmetic, N: Randomness>(
    ops: &A,
    rand: &N,
    p: PosteriorModel,
    n: nat,
    seed: u64,
    fit: FitModel,
    specs: Result<Seq<(Seq<char>, FreeSpecModel)>, Fault>,
    out: Result<Seq<PairModel>, Fault>,
) -> bool {
    match specs {
        Err(fault) => out == Err::<Seq<PairModel>, Fault>(fault),
        Ok(laid) => if !fits_design(fit.params, laid) {
            out == Err::<Seq<PairModel>, Fault>(
                shape_fault(
                    "posterior parameter order/shapes are incompatible with the generation design"@,
                ),
            )
        } else if draws_fault(laid, fit, 0) is Some {
            out == Err::<Seq<PairModel>, Fault>(draws_fault(laid, fit, 0)->0)
        } else {
            origin_generated(
                ops,
                rand,
                p.design,
                resolved_sites(p.meta),
                ParameterModel::Posterior { specs: laid, fit },
                n,
                seed,
                out,
            )
        },
    }
}

/// Whether generating from a posterior can come to that, by what reading it came to.
pub open spec fn posterior_fitted<A: Arithmetic, N: Randomness>(
    ops: &A,
    rand: &N,
    p: PosteriorModel,
    n: nat,
    seed: u64,
    fit: Result<FitModel, Fault>,
    out: Result<Seq<PairModel>, Fault>,
) -> bool {
    match fit {
        Err(fault) => out == Err::<Seq<PairModel>, Fault>(fault),
        Ok(stream) => if design_fault(p.meta, p.design) is Some {
            out == Err::<Seq<PairModel>, Fault>(design_fault(p.meta, p.design)->0)
        } else {
            posterior_designed(ops, rand, p, n, seed, stream, out)
        },
    }
}

/// Whether generating from a posterior over a sound design can come to that.
pub open spec fn posterior_designed<A: Arithmetic, N: Randomness>(
    ops: &A,
    rand: &N,
    p: PosteriorModel,
    n: nat,
    seed: u64,
    fit: FitModel,
    out: Result<Seq<PairModel>, Fault>,
) -> bool {
    exists|specs: Result<Seq<(Seq<char>, FreeSpecModel)>, Fault>| #[trigger]
        specs_laid(ops, p.meta, p.design, specs) && posterior_laid(
            ops,
            rand,
            p,
            n,
            seed,
            fit,
            specs,
            out,
        )
}

/// Whether generating from a posterior can come to that, by what the packing came to.
pub open spec fn posterior_packed<A: Arithmetic, N: Randomness>(
    ops: &A,
    rand: &N,
    reading: spec_fn(Seq<char>, Result<Json, Fault>) -> bool,
    p: PosteriorModel,
    n: nat,
    seed: u64,
    packing: Result<Seq<(Seq<char>, Seq<usize>)>, Fault>,
    out: Result<Seq<PairModel>, Fault>,
) -> bool {
    match packing {
        Err(fault) => out == Err::<Seq<PairModel>, Fault>(fault),
        Ok(layout) => posterior_streamed(ops, rand, reading, p, n, seed, layout, out),
    }
}

/// Whether generating from a posterior of a packing can come to that.
pub open spec fn posterior_streamed<A: Arithmetic, N: Randomness>(
    ops: &A,
    rand: &N,
    reading: spec_fn(Seq<char>, Result<Json, Fault>) -> bool,
    p: PosteriorModel,
    n: nat,
    seed: u64,
    layout: Seq<(Seq<char>, Seq<usize>)>,
    out: Result<Seq<PairModel>, Fault>,
) -> bool {
    exists|fit: Result<FitModel, Fault>| #[trigger]
        stream_read(
            reading,
            p.fit,
            layout,
            identity_hash(p.model_text, p.fit_data),
            p.fingerprint,
            fit,
        ) && posterior_fitted(ops, rand, p, n, seed, fit, out)
}

/// Whether generating from a posterior can come to that, by what its diagnosis came to.
pub open spec fn posterior_diagnosed<A: Arithmetic, N: Randomness>(
    ops: &A,
    rand: &N,
    reading: spec_fn(Seq<char>, Result<Json, Fault>) -> bool,
    p: PosteriorModel,
    n: nat,
    seed: u64,
    health: Result<(), Fault>,
    out: Result<Seq<PairModel>, Fault>,
) -> bool {
    match health {
        Err(fault) => out == Err::<Seq<PairModel>, Fault>(fault),
        Ok(_) => exists|packing: Result<Seq<(Seq<char>, Seq<usize>)>, Fault>| #[trigger]
            packs(ops, p.meta, p.fit_data, packing) && posterior_packed(
                ops,
                rand,
                reading,
                p,
                n,
                seed,
                packing,
                out,
            ),
    }
}

/// Whether generating pairs from a posterior can come to that.
pub open spec fn posterior_pairs<A: Arithmetic, N: Randomness>(
    ops: &A,
    rand: &N,
    reading: spec_fn(Seq<char>, Result<Json, Fault>) -> bool,
    diagnosing: spec_fn(Seq<char>, Result<(), Fault>) -> bool,
    p: PosteriorModel,
    n: nat,
    seed: u64,
    out: Result<Seq<PairModel>, Fault>,
) -> bool {
    if generation_fault(p.meta) is Some {
        out == Err::<Seq<PairModel>, Fault>(generation_fault(p.meta)->0)
    } else {
        exists|health: Result<(), Fault>| #[trigger]
            diagnosing(p.fit, health) && posterior_diagnosed(
                ops,
                rand,
                reading,
                p,
                n,
                seed,
                health,
                out,
            )
    }
}

/// A posterior that supplies parameters.
pub struct PosteriorGenerationSource<'a> {
    /// The model spelled out, as its identity counts it.
    pub model_text: &'a str,
    pub fit_data: Vec<(String, DataValue)>,
    pub fit_ndjson: &'a str,
    pub expected_model_data_fingerprint: Option<&'a str>,
}

/// The content of a posterior that supplies parameters, with model and design.
pub open spec fn posterior_inputs<'a>(
    meta: ModelMeta,
    design: Seq<(String, DataValue)>,
    source: PosteriorGenerationSource<'a>,
) -> PosteriorModel {
    PosteriorModel {
        meta: meta@,
        model_text: source.model_text@,
        design: data_views(design),
        fit_data: data_views(source.fit_data@),
        fit: source.fit_ndjson@,
        fingerprint: borrowed_text(source.expected_model_data_fingerprint),
    }
}

fn generate_over_design<A: Arithmetic, N: Randomness>(
    meta: &ModelMeta,
    design: &Vec<(String, DataValue)>,
    fit: FitDrawStream,
    count: usize,
    seed: u64,
    ops: &A,
    rand: &N,
    Ghost(p): Ghost<PosteriorModel>,
) -> (r: Result<Vec<GenerationPair>, Error>)
    requires
        ops.reliable(),
        rand.ready(),
        all_filled(data_views(design@)),
        usable_fit(fit@),
        p.meta == meta@,
        p.design == data_views(design@),
    ensures
        posterior_fitted(ops, rand, p, count as nat, seed, Ok(fit@), pairs_outcome(r)),
        r is Ok ==> r->Ok_0@.len() == count,
{
    let ghost stream = fit@;
    generation_design(meta, design)?;
    let laid: Result<Vec<(String, FreeSpec)>, Error> = free_specs(ops, meta, design);
    let ghost kept = specs_outcome(laid);
    let ghost n = count as nat;
    assert(specs_laid(ops, p.meta, p.design, kept));
    let specs: Vec<(String, FreeSpec)> = match laid {
        Err(error) => {
            assert(posterior_laid(ops, rand, p, n, seed, stream, kept, Err(error@)));
            return Err(error);
        },
        Ok(specs) => specs,
    };
    assert(stream.params =~= list_views(fit.params@));
    if !check_fits_design(&fit.params, &specs) {
        let error: Error = shape_mismatch(
            "posterior parameter order/shapes are incompatible with the generation design".to_owned(),
        );
        assert(posterior_laid(ops, rand, p, n, seed, stream, kept, Err(error@)));
        return Err(error);
    }
    if let Err(error) = check_draws(&specs, &fit) {
        assert(posterior_laid(ops, rand, p, n, seed, stream, kept, Err(error@)));
        return Err(error);
    }
    let sites: Vec<ResolvedStochasticSite> = meta.resolved_stochastic_sites();
    let origin: Origin = Origin::Posterior { specs, fit };
    let out: Result<Vec<GenerationPair>, Error> = generate_pairs(
        ops,
        rand,
        design,
        &sites,
        &origin,
        count,
        seed,
    );
    assert(posterior_laid(ops, rand, p, n, seed, stream, kept, pairs_outcome(out)));
    out
}

/// Generates pairs from the draws of a posterior, each picked evenly.
pub fn posterior_generation_pairs<
    'a,
    A: Arithmetic,
    N: Randomness,
    R: Fn(&str) -> Result<Value, Error>,
    G: Fn(&str) -> Result<(), Error>,
>(
    meta: &ModelMeta,
    design: &Vec<(String, DataValue)>,
    source: PosteriorGenerationSource<'a>,
    count: usize,
    seed: u64,
    ops: &A,
    rand: &N,
    read_json: &R,
    diagnose: &G,
) -> (r: Result<Vec<GenerationPair>, Error>)
    requires
        ops.reliable(),
        rand.ready(),
        all_filled(data_views(design@)),
        all_filled(data_views(source.fit_data@)),
        forall|s: &str| #[trigger] call_requires(*read_json, (s,)),
        forall|s: &str| #[trigger] call_requires(*diagnose, (s,)),
    ensures
        posterior_pairs(
            ops,
            rand,
            |s: Seq<char>, v: Result<Json, Fault>| reads(*read_json, s, v),
            |s: Seq<char>, v: Result<(), Fault>| diagnoses(*diagnose, s, v),
            posterior_inputs(*meta, design@, source),
            count as nat,
            seed,
            pairs_outcome(r),
        ),
        r is Ok ==> r->Ok_0@.len() == count,
{
    let ghost reading = |s: Seq<char>, v: Result<Json, Fault>| reads(*read_json, s, v);
    let ghost diagnosing = |s: Seq<char>, v: Result<(), Fault>| diagnoses(*diagnose, s, v);
    let ghost p = posterior_inputs(*meta, design@, source);
    let ghost n = count as nat;
    validate_generation_model(meta)?;
    let seen: Result<(), Error> = diagnose(source.fit_ndjson);
    let ghost health = verdict(seen);
    proof {
        assert(diagnoses(*diagnose, p.fit, health));
        assert(diagnosing(p.fit, health));
    }
    if let Err(error) = seen {
        assert(posterior_diagnosed(ops, rand, reading, p, n, seed, health, Err(error@)));
        return Err(error);
    }
    let hash: String = posterior_identity_hash(source.model_text, &source.fit_data);
    let bound: Result<Posterior, Error> = Posterior::bind(meta, source.fit_data, ops);
    let ghost layout = packing_of(bound);
    assert(packs(ops, p.meta, p.fit_data, layout));
    let posterior: Posterior = match bound {
        Err(error) => {
            proof {
                assert(posterior_packed(ops, rand, reading, p, n, seed, layout, Err(error@)));
                assert(posterior_diagnosed(ops, rand, reading, p, n, seed, health, Err(error@)));
            }
            return Err(error);
        },
        Ok(posterior) => posterior,
    };
    let packing: Vec<(String, Vec<usize>)> = posterior.packing();
    assert(packing_views(packing@) =~= layout->Ok_0);
    let read: Result<FitDrawStream, Error> = parse_fit_stream(
        source.fit_ndjson,
        &packing,
        hash.as_str(),
        source.expected_model_data_fingerprint,
        read_json,
    );
    let ghost stream = outcome(read);
    assert(stream_read(
        reading,
        p.fit,
        layout->Ok_0,
        identity_hash(p.model_text, p.fit_data),
        p.fingerprint,
        stream,
    ));
    let out: Result<Vec<GenerationPair>, Error> = match read {
        Err(error) => Err(error),
        Ok(fit) => generate_over_design(meta, design, fit, count, seed, ops, rand, Ghost(p)),
    };
    proof {
        assert(posterior_fitted(ops, rand, p, n, seed, stream, pairs_outcome(out)));
        assert(posterior_streamed(
            ops,
            rand,
            reading,
            p,
            n,
            seed,
            layout->Ok_0,
            pairs_outcome(out),
        ));
        assert(posterior_packed(ops, rand, reading, p, n, seed, layout, pairs_outcome(out)));
        assert(posterior_diagnosed(ops, rand, reading, p, n, seed, health, pairs_outcome(out)));
    }
    out
}

} // verus!
