//! What generated pairs are: outcomes drawn from their parameters, and an artifact of all of them.

use vstd::prelude::*;

#[allow(unused_imports)]
use crate::data::{data_fields, DataModel};
#[allow(unused_imports)]
use crate::error::Fault;
#[allow(unused_imports)]
use crate::generation::{
    all_variables, artifact_lines, document_schema, draw_entries, draw_values, header_entries, limited_lines,
    pair_variables, trailer_entries, trailer_json, RequestModel,
};
#[allow(unused_imports)]
use crate::ir::{DistModel, ExprModel, SiteModel};
#[allow(unused_imports)]
use crate::json::Json;
#[allow(unused_imports)]
use crate::model::data_named;
#[allow(unused_imports)]
use crate::numerics::{Arithmetic, Randomness};
#[allow(unused_imports)]
use crate::render::rendered;
#[allow(unused_imports)]
use crate::tensor::TensorModel;
#[allow(unused_imports)]
use crate::text::bytes_of;

#[allow(unused_imports)]
use super::fit::FitModel;
#[allow(unused_imports)]
use super::forward::{last_named, EnvModel};
#[allow(unused_imports)]
use super::generate::{
    index_drawn, ordered_parameters, outcome_made, outcomes_drawn, outcomes_made, pair_added, pair_generated, paired,
    pairs_generated, pick_generated, prior_pair, prior_sites, GenerationLineage, PairModel, ParameterModel,
    PriorModel,
};
#[allow(unused_imports)]
use super::pick_laws::law_picked_place_is_that_of_its_number;
#[allow(unused_imports)]
use super::sampling::sampled;
#[allow(unused_imports)]
use super::truth::{made_extended, MadeModel};

verus! {

/// The outcomes that sites assign, with their distributions, in the order of the sites.
pub open spec fn outcome_sites(sites: Seq<SiteModel>) -> Seq<(Seq<char>, DistModel)>
    decreases sites.len(),
{
    if sites.len() == 0 {
        Seq::empty()
    } else {
        match sites.last().value {
            ExprModel::Data(name) => outcome_sites(sites.drop_last()).push(
                (name, sites.last().distribution),
            ),
            _ => outcome_sites(sites.drop_last()),
        }
    }
}

/// Whether a value can have been drawn from a distribution where these values are seen.
pub open spec fn drawn_where<A: Arithmetic, N: Randomness>(
    ops: &A,
    rand: &N,
    data: Seq<(Seq<char>, DataModel)>,
    seen: Seq<(Seq<char>, TensorModel)>,
    d: DistModel,
    value: TensorModel,
) -> bool {
    exists|a: N::Source, b: N::Source| #[trigger]
        sampled(ops, rand, EnvModel { values: seen, data }, d, None, a, Ok((value, b)))
}

/// Whether outcomes were drawn in turn behind the values that were there: each from the
/// distribution of its site, where those values and the outcomes before it are seen, and under a
/// name that was free.
pub open spec fn outcomes_in_turn<A: Arithmetic, N: Randomness>(
    ops: &A,
    rand: &N,
    data: Seq<(Seq<char>, DataModel)>,
    start: MadeModel,
    sites: Seq<SiteModel>,
    end: MadeModel,
) -> bool {
    let listed = outcome_sites(sites);
    &&& end.seen.len() == start.seen.len() + listed.len()
    &&& end.made.len() == start.made.len() + listed.len()
    &&& end.seen.take(start.seen.len() as int) == start.seen
    &&& end.made.take(start.made.len() as int) == start.made
    &&& forall|k: int|
        0 <= k < listed.len() ==> ({
            let (name, value) = end.seen[start.seen.len() + k];
            &&& name == (#[trigger] listed[k]).0
            &&& data_named(data, name) is None
            &&& end.made[start.made.len() + k].0 == name
            &&& end.made[start.made.len() + k].1.values == value.values
            &&& end.made[start.made.len() + k].1.shape == value.shape
            &&& drawn_where(
                ops,
                rand,
                data,
                end.seen.take((start.seen.len() + k) as int),
                listed[k].1,
                value,
            )
        })
}

/// Outcomes are drawn in turn, one for every site that assigns observed data and none for any
/// other.
pub proof fn law_outcomes_are_drawn_from_what_came_before<A: Arithmetic, N: Randomness>(
    ops: &A,
    rand: &N,
    data: Seq<(Seq<char>, DataModel)>,
    start: MadeModel,
    sites: Seq<SiteModel>,
    source: N::Source,
    end: (MadeModel, N::Source),
)
    requires
        outcomes_made(ops, rand, data, start, sites, source, Ok(end)),
    ensures
        outcomes_in_turn(ops, rand, data, start, sites, end.0),
    decreases sites.len(),
{
    let done = Ok::<(MadeModel, N::Source), Fault>(end);
    if sites.len() == 0 {
        assert(end.0.seen.take(start.seen.len() as int) =~= start.seen);
        assert(end.0.made.take(start.made.len() as int) =~= start.made);
    } else {
        let before = choose|before: (MadeModel, N::Source)| #[trigger]
            outcome_made(ops, rand, data, before.0, sites.last(), before.1, done) && outcomes_made(
                ops,
                rand,
                data,
                start,
                sites.drop_last(),
                source,
                Ok(before),
            );
        law_outcomes_are_drawn_from_what_came_before(
            ops,
            rand,
            data,
            start,
            sites.drop_last(),
            source,
            before,
        );
        let site = sites.last();
        let prior = outcome_sites(sites.drop_last());
        let listed = outcome_sites(sites);
        if let ExprModel::Data(name) = site.value {
            let env = EnvModel { values: before.0.seen, data };
            let draw = choose|draw: Result<(TensorModel, N::Source), Fault>| #[trigger]
                sampled(ops, rand, env, site.distribution, None, before.1, draw) && done
                    == made_extended(before.0, name, site.distribution, draw);
            let (value, after) = draw->Ok_0;
            assert(draw == Ok::<(TensorModel, N::Source), Fault>((value, after)));
            assert(drawn_where(ops, rand, data, before.0.seen, site.distribution, value));
            assert(end.0.seen == before.0.seen.push((name, value)));
            assert(end.0.seen.take(start.seen.len() as int) =~= start.seen) by {
                assert(end.0.seen.take(start.seen.len() as int) =~= before.0.seen.take(
                    start.seen.len() as int,
                ));
            }
            assert(end.0.made.take(start.made.len() as int) =~= start.made) by {
                assert(end.0.made.take(start.made.len() as int) =~= before.0.made.take(
                    start.made.len() as int,
                ));
            }
            assert forall|k: int| 0 <= k < listed.len() implies ({
                let (name, value) = end.0.seen[start.seen.len() + k];
                &&& name == (#[trigger] listed[k]).0
                &&& data_named(data, name) is None
                &&& end.0.made[start.made.len() + k].0 == name
                &&& end.0.made[start.made.len() + k].1.values == value.values
                &&& end.0.made[start.made.len() + k].1.shape == value.shape
                &&& drawn_where(
                    ops,
                    rand,
                    data,
                    end.0.seen.take((start.seen.len() + k) as int),
                    listed[k].1,
                    value,
                )
            }) by {
                assert(end.0.seen.take((start.seen.len() + k) as int) =~= before.0.seen.take(
                    (start.seen.len() + k) as int,
                ));
                if k < prior.len() {
                    assert(prior[k] == listed[k]);
                } else {
                    assert(before.0.seen.take((start.seen.len() + k) as int) =~= before.0.seen);
                }
            }
        }
    }
}

/// Whether pairs were generated in turn: each from the source that the one before it left.
pub open spec fn pairs_in_turn<A: Arithmetic, N: Randomness>(
    ops: &A,
    rand: &N,
    data: Seq<(Seq<char>, DataModel)>,
    sites: Seq<SiteModel>,
    origin: ParameterModel,
    pairs: Seq<PairModel>,
    sources: Seq<N::Source>,
) -> bool {
    &&& sources.len() == pairs.len() + 1
    &&& forall|i: int|
        0 <= i < pairs.len() ==> pair_generated(
            ops,
            rand,
            data,
            sites,
            origin,
            i as usize,
            sources[i],
            Ok((#[trigger] pairs[i], sources[i + 1])),
        )
}

/// So many pairs are generated as were asked for, in turn and numbered from zero on.
pub proof fn law_pairs_are_generated_in_turn<A: Arithmetic, N: Randomness>(
    ops: &A,
    rand: &N,
    data: Seq<(Seq<char>, DataModel)>,
    sites: Seq<SiteModel>,
    origin: ParameterModel,
    n: nat,
    source: N::Source,
    out: (Seq<PairModel>, N::Source),
)
    requires
        pairs_generated(ops, rand, data, sites, origin, n, source, Ok(out)),
    ensures
        out.0.len() == n,
        exists|sources: Seq<N::Source>| #[trigger]
            pairs_in_turn(ops, rand, data, sites, origin, out.0, sources) && sources[0] == source
                && sources.last() == out.1,
    decreases n,
{
    let done = Ok::<(Seq<PairModel>, N::Source), Fault>(out);
    if n == 0 {
        let sources = seq![source];
        assert(pairs_in_turn(ops, rand, data, sites, origin, out.0, sources));
    } else {
        let (before, item) = choose|
            before: (Seq<PairModel>, N::Source),
            item: Result<(PairModel, N::Source), Fault>,
        | #[trigger]
            pair_added(before, item, done) && pairs_generated(
                ops,
                rand,
                data,
                sites,
                origin,
                (n - 1) as nat,
                source,
                Ok(before),
            ) && pair_generated(
                ops,
                rand,
                data,
                sites,
                origin,
                (n - 1) as usize,
                before.1,
                item,
            );
        law_pairs_are_generated_in_turn(
            ops,
            rand,
            data,
            sites,
            origin,
            (n - 1) as nat,
            source,
            before,
        );
        let prior = choose|sources: Seq<N::Source>| #[trigger]
            pairs_in_turn(ops, rand, data, sites, origin, before.0, sources) && sources[0] == source
                && sources.last() == before.1;
        let (pair, after) = item->Ok_0;
        assert(item == Ok::<(PairModel, N::Source), Fault>((pair, after)));
        let sources = prior.push(after);
        assert forall|i: int| 0 <= i < out.0.len() implies pair_generated(
            ops,
            rand,
            data,
            sites,
            origin,
            i as usize,
            sources[i],
            Ok((#[trigger] out.0[i], sources[i + 1])),
        ) by {
            if i < n - 1 {
                assert(before.0[i] == out.0[i]);
            }
        }
        assert(pairs_in_turn(ops, rand, data, sites, origin, out.0, sources));
    }
}

/// Whether the parameters of a pair are those of a posterior draw, under their names, and its
/// lineage says which.
pub open spec fn stems_from(pair: PairModel, fit: FitModel, k: int) -> bool {
    &&& pair.parameters.len() == fit.params.len()
    &&& forall|j: int|
        0 <= j < fit.params.len() ==> (#[trigger] pair.parameters[j]).0 == fit.params[j].name
            && pair.parameters[j].1.values == fit.draws[k].values[j].values
            && pair.parameters[j].1.shape == fit.draws[k].values[j].shape
    &&& pair.lineage == GenerationLineage::Posterior {
        source_draw_index: fit.draws[k].draw_index,
        chain: fit.draws[k].chain,
        draw: fit.draws[k].draw,
    }
}

/// A pair has the parameters that it was asked to have: the fixed ones, those of one of the
/// posterior draws, or prior ones under the declared names in their order; and it says where they
/// came from.
pub proof fn law_pair_has_the_parameters_of_its_origin<A: Arithmetic, N: Randomness>(
    ops: &A,
    rand: &N,
    data: Seq<(Seq<char>, DataModel)>,
    sites: Seq<SiteModel>,
    origin: ParameterModel,
    index: usize,
    source: N::Source,
    out: (PairModel, N::Source),
)
    requires
        pair_generated(ops, rand, data, sites, origin, index, source, Ok(out)),
        origin matches ParameterModel::Posterior { specs, fit } ==> 0 < fit.draws.len()
            <= usize::MAX,
    ensures
        match origin {
            ParameterModel::Fixed { parameters, values } => out.0.parameters == parameters
                && out.0.lineage == GenerationLineage::Fixed,
            ParameterModel::Prior { specs, names } => out.0.lineage
                == GenerationLineage::ModelPrior { source_draw_index: index }
                && out.0.parameters.len() == names.len() && forall|j: int|
                0 <= j < names.len() ==> (#[trigger] out.0.parameters[j]).0 == names[j],
            ParameterModel::Posterior { specs, fit } => exists|k: int|
                0 <= k < fit.draws.len() && #[trigger] stems_from(out.0, fit, k),
        },
{
    let done = Ok::<(PairModel, N::Source), Fault>(out);
    match origin {
        ParameterModel::Fixed { parameters, values } => {
            let made = choose|made: Result<(Seq<(Seq<char>, DataModel)>, N::Source), Fault>|
                #[trigger] outcomes_drawn(ops, rand, data, sites, values, source, made) && done
                    == paired(parameters, GenerationLineage::Fixed, made);
        },
        ParameterModel::Prior { specs, names } => {
            let end = choose|end: Result<(PriorModel, N::Source), Fault>| #[trigger]
                prior_sites(ops, rand, specs, data, sites, source, end) && done == prior_pair(
                    names,
                    index,
                    end,
                );
            let row = end->Ok_0.0;
            lemma_parameters_in_order(names, row.parameters, names.len(), out.0.parameters);
        },
        ParameterModel::Posterior { specs, fit } => {
            let pick = choose|pick: Result<(usize, N::Source), Fault>| #[trigger]
                index_drawn(rand, fit.draws.len() as u64, u64::MAX as nat, source, pick)
                    && pick_generated(ops, rand, data, sites, specs, fit, pick, done);
            let (k, mid) = pick->Ok_0;
            assert(pick == Ok::<(usize, N::Source), Fault>((k, mid)));
            law_picked_place_is_that_of_its_number(
                rand,
                fit.draws.len() as u64,
                u64::MAX as nat,
                source,
                (k, mid),
            );
            assert(stems_from(out.0, fit, k as int));
        },
    }
}

proof fn lemma_parameters_in_order(
    names: Seq<Seq<char>>,
    drawn: Seq<(Seq<char>, DataModel)>,
    n: nat,
    out: Seq<(Seq<char>, DataModel)>,
)
    requires
        n <= names.len(),
        ordered_parameters(names, drawn, n) == Ok::<Seq<(Seq<char>, DataModel)>, Fault>(out),
    ensures
        out.len() == n,
        forall|j: int|
            0 <= j < n ==> (#[trigger] out[j]).0 == names[j] && last_named(drawn, names[j]) == Some(
                out[j].1,
            ),
    decreases n,
{
    if n > 0 {
        let before = ordered_parameters(names, drawn, (n - 1) as nat)->Ok_0;
        lemma_parameters_in_order(names, drawn, (n - 1) as nat, before);
        assert forall|j: int| 0 <= j < n implies (#[trigger] out[j]).0 == names[j] && last_named(
            drawn,
            names[j],
        ) == Some(out[j].1) by {
            if j < n - 1 {
                assert(out[j] == before[j]);
            }
        }
    }
}

/// The bytes of lines with their ends.
pub open spec fn all_bytes(lines: Seq<Seq<char>>) -> nat
    decreases lines.len(),
{
    if lines.len() == 0 {
        0
    } else {
        all_bytes(lines.drop_last()) + bytes_of(lines.last()).len() + 1
    }
}

/// Limited lines are those of their values, one for each in order; no line with its end takes more
/// than eight mebibytes, and all of them no more than sixty-four.
pub proof fn law_lines_stay_within_their_limits(
    values: Seq<Json>,
    lines: Seq<Seq<char>>,
    count: nat,
)
    requires
        limited_lines(values) == Ok::<(Seq<Seq<char>>, nat), Fault>((lines, count)),
    ensures
        lines.len() == values.len(),
        count == all_bytes(lines),
        count <= 64 * 1024 * 1024,
        forall|i: int|
            0 <= i < lines.len() ==> rendered(values[i]) == Ok::<Seq<char>, Fault>(
                #[trigger] lines[i],
            ) && bytes_of(lines[i]).len() + 1 <= 8 * 1024 * 1024,
    decreases values.len(),
{
    if values.len() > 0 {
        let (before, total) = limited_lines(values.drop_last())->Ok_0;
        law_lines_stay_within_their_limits(values.drop_last(), before, total);
        assert(lines.drop_last() =~= before);
        assert forall|i: int| 0 <= i < lines.len() implies rendered(values[i]) == Ok::<
            Seq<char>,
            Fault,
        >(#[trigger] lines[i]) && bytes_of(lines[i]).len() + 1 <= 8 * 1024 * 1024 by {
            if i < before.len() {
                assert(before[i] == lines[i]);
                assert(values.drop_last()[i] == values[i]);
            }
        }
    }
}

proof fn lemma_all_variables(
    pairs: Seq<PairModel>,
    design: Seq<(Seq<char>, Json)>,
    documents: Seq<(Seq<(Seq<char>, Json)>, Seq<(Seq<char>, Json)>)>,
)
    requires
        all_variables(pairs, design) == Ok::<
            Seq<(Seq<(Seq<char>, Json)>, Seq<(Seq<char>, Json)>)>,
            Fault,
        >(documents),
    ensures
        documents.len() == pairs.len(),
        forall|i: int|
            0 <= i < pairs.len() ==> pair_variables(pairs[i], design) == Ok::<
                (Seq<(Seq<char>, Json)>, Seq<(Seq<char>, Json)>),
                Fault,
            >(#[trigger] documents[i]),
    decreases pairs.len(),
{
    if pairs.len() > 0 {
        let before = all_variables(pairs.drop_last(), design)->Ok_0;
        lemma_all_variables(pairs.drop_last(), design, before);
        assert forall|i: int| 0 <= i < pairs.len() implies pair_variables(pairs[i], design) == Ok::<
            (Seq<(Seq<char>, Json)>, Seq<(Seq<char>, Json)>),
            Fault,
        >(#[trigger] documents[i]) by {
            if i < before.len() {
                assert(documents[i] == before[i]);
                assert(pairs.drop_last()[i] == pairs[i]);
            }
        }
    }
}

/// Whether a line is that of a pair: it gives its place and how many there are, its parameters, and
/// as its dataset the variables of the design with its outcomes behind them.
pub open spec fn line_of_pair(
    line: Seq<char>,
    index: int,
    count: usize,
    pair: PairModel,
    design: Seq<(Seq<char>, Json)>,
) -> bool {
    exists|parameters: Seq<(Seq<char>, Json)>, outcomes: Seq<(Seq<char>, Json)>|
        data_fields(pair.parameters, "generated parameters"@) == Ok::<
            Seq<(Seq<char>, Json)>,
            Fault,
        >(parameters) && data_fields(pair.outcomes, "generated dataset"@) == Ok::<
            Seq<(Seq<char>, Json)>,
            Fault,
        >(outcomes) && Ok::<Seq<char>, Fault>(line) == rendered(
            Json::Object(
                #[trigger] draw_entries(
                    index,
                    count,
                    (parameters, design + outcomes),
                    pair.lineage,
                ),
            ),
        )
}

/// An artifact has a line for its header, one for every pair in order, and one for its trailer.
pub proof fn law_artifact_has_a_line_for_every_pair(
    request: RequestModel,
    design: Seq<(Seq<char>, Json)>,
    source: Json,
    pairs: Seq<PairModel>,
    lines: Seq<Seq<char>>,
)
    requires
        artifact_lines(request, design, source, pairs) == Ok::<Seq<Seq<char>>, Fault>(lines),
    ensures
        lines.len() == pairs.len() + 2,
        all_bytes(lines) <= 64 * 1024 * 1024,
        forall|i: int|
            0 <= i < pairs.len() ==> line_of_pair(
                #[trigger] lines[i + 1],
                i,
                request.count,
                pairs[i],
                design,
            ),
        rendered(trailer_json(trailer_entries(request, source))) == Ok::<Seq<char>, Fault>(
            lines.last(),
        ),
{
    let documents = all_variables(pairs, design)->Ok_0;
    let first = document_schema(documents[0].0, "generated parameters"@)->Ok_0;
    let second = document_schema(documents[0].1, "generated dataset"@)->Ok_0;
    let draws = draw_values(pairs, documents, request.count);
    let values = seq![Json::Object(header_entries(request, source, first, second))] + draws + seq![
        trailer_json(trailer_entries(request, source)),
    ];
    let (found, total) = limited_lines(values)->Ok_0;
    law_lines_stay_within_their_limits(values, found, total);
    lemma_all_variables(pairs, design, documents);
    assert(values.len() == pairs.len() + 2);
    assert forall|i: int| 0 <= i < pairs.len() implies line_of_pair(
        #[trigger] lines[i + 1],
        i,
        request.count,
        pairs[i],
        design,
    ) by {
        assert(values[i + 1] == draws[i]);
        let pair = pairs[i];
        let parameters = data_fields(pair.parameters, "generated parameters"@)->Ok_0;
        let outcomes = data_fields(pair.outcomes, "generated dataset"@)->Ok_0;
        assert(documents[i] == (parameters, design + outcomes));
        assert(draws[i] == Json::Object(
            draw_entries(i, request.count, (parameters, design + outcomes), pair.lineage),
        ));
    }
    assert(values[(pairs.len() + 1) as int] == values.last());
    assert(lines[(pairs.len() + 1) as int] == lines.last());
}

} // verus!
