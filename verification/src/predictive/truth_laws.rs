//! What simulation from given values takes and makes.

use vstd::prelude::*;

#[allow(unused_imports)]
use crate::data::DataModel;
#[allow(unused_imports)]
use crate::error::Fault;
#[allow(unused_imports)]
use crate::ir::{DistModel, ExprModel, SiteModel};
#[allow(unused_imports)]
use crate::json::{array_of, number_of, Json};
#[allow(unused_imports)]
use crate::model::data_named;
#[allow(unused_imports)]
use crate::number::NumberModel;
#[allow(unused_imports)]
use crate::numerics::{Arithmetic, Randomness};
#[allow(unused_imports)]
use crate::tensor::TensorModel;

#[allow(unused_imports)]
use super::cells::counts;
#[allow(unused_imports)]
use super::fit::{entries_upto, fit_value, FitParamModel};
#[allow(unused_imports)]
use super::forward::EnvModel;
#[allow(unused_imports)]
use super::generate_laws::{drawn_where, outcome_sites, outcomes_in_turn};
#[allow(unused_imports)]
use super::records::integer_support;
#[allow(unused_imports)]
use super::restricted::satisfies;
#[allow(unused_imports)]
use super::sampling::sampled;
#[allow(unused_imports)]
use super::sampling_laws::meets;
#[allow(unused_imports)]
use super::setup::FreeSpecModel;
#[allow(unused_imports)]
use super::truth::{made_extended, site_made, sites_made, true_values, truth_read, MadeModel};

verus! {

proof fn lemma_true_values(
    specs: Seq<(Seq<char>, FreeSpecModel)>,
    truth: Seq<(Seq<char>, DataModel)>,
    context: Seq<char>,
    n: nat,
    values: Seq<(Seq<char>, TensorModel)>,
)
    requires
        n <= specs.len(),
        true_values(specs, truth, context, n) == Ok::<Seq<(Seq<char>, TensorModel)>, Fault>(
            values,
        ),
    ensures
        values.len() == n,
        forall|i: int|
            0 <= i < n ==> (#[trigger] values[i]).0 == specs[i].0 && values[i].1.values
                == data_named(truth, specs[i].0)->0.values && values[i].1.shape == specs[i].1.shape
                && meets(values[i].1, specs[i].1.constraint),
    decreases n,
{
    if n > 0 {
        let before = true_values(specs, truth, context, (n - 1) as nat)->Ok_0;
        lemma_true_values(specs, truth, context, (n - 1) as nat, before);
        assert forall|i: int| 0 <= i < n implies (#[trigger] values[i]).0 == specs[i].0
            && values[i].1.values == data_named(truth, specs[i].0)->0.values && values[i].1.shape
            == specs[i].1.shape && meets(values[i].1, specs[i].1.constraint) by {
            if i < n - 1 {
                assert(values[i] == before[i]);
            } else {
                assert(satisfies(values[i].1, specs[i].1.constraint));
            }
        }
    }
}

/// Given values are taken one for every free value in order, each of its own name, in its shape and
/// within its constraint.
pub proof fn law_given_values_meet_their_constraints(
    specs: Seq<(Seq<char>, FreeSpecModel)>,
    truth: Seq<(Seq<char>, DataModel)>,
    context: Seq<char>,
    values: Seq<(Seq<char>, TensorModel)>,
)
    requires
        truth_read(specs, truth, context) == Ok::<Seq<(Seq<char>, TensorModel)>, Fault>(values),
    ensures
        values.len() == specs.len(),
        forall|i: int|
            0 <= i < specs.len() ==> (#[trigger] values[i]).0 == specs[i].0 && values[i].1.values
                == data_named(truth, specs[i].0)->0.values && values[i].1.shape == specs[i].1.shape
                && meets(values[i].1, specs[i].1.constraint),
{
    lemma_true_values(specs, truth, context, specs.len(), values);
}

/// Simulated data are drawn in turn behind the given values, one for every site that assigns
/// observed data.
pub proof fn law_simulated_data_are_drawn_from_what_came_before<A: Arithmetic, N: Randomness>(
    ops: &A,
    rand: &N,
    specs: Seq<(Seq<char>, FreeSpecModel)>,
    data: Seq<(Seq<char>, DataModel)>,
    start: MadeModel,
    sites: Seq<SiteModel>,
    source: N::Source,
    end: (MadeModel, N::Source),
)
    requires
        sites_made(ops, rand, specs, data, start, sites, source, Ok(end)),
    ensures
        outcomes_in_turn(ops, rand, data, start, sites, end.0),
    decreases sites.len(),
{
    let done = Ok::<(MadeModel, N::Source), Fault>(end);
    if sites.len() == 0 {
        assert(end.0.seen.take(start.seen.len() as int) =~= start.seen);
        assert(end.0.made.take(start.made.len() as int) =~= start.made);
    } else {
        let before = choose|before: (MadeModel, N::Source)| #[trigger]
            site_made(ops, rand, specs, data, before.0, sites.last(), before.1, done) && sites_made(
                ops,
                rand,
                specs,
                data,
                start,
                sites.drop_last(),
                source,
                Ok(before),
            );
        law_simulated_data_are_drawn_from_what_came_before(
            ops,
            rand,
            specs,
            data,
            start,
            sites.drop_last(),
            source,
            before,
        );
        let site = sites.last();
        let prior = outcome_sites(sites.drop_last());
        let listed = outcome_sites(sites);
        if let ExprModel::Data(name) = site.value {
            let env = EnvModel { values: before.0.seen, data };
            let draw = choose|draw: Result<(TensorModel, N::Source), Fault>| #[trigger]
                sampled(ops, rand, env, site.distribution, None, before.1, draw) && done
                    == made_extended(before.0, name, site.distribution, draw);
            let (value, after) = draw->Ok_0;
            assert(draw == Ok::<(TensorModel, N::Source), Fault>((value, after)));
            assert(drawn_where(ops, rand, data, before.0.seen, site.distribution, value));
            assert(end.0.seen == before.0.seen.push((name, value)));
            assert(end.0.seen.take(start.seen.len() as int) =~= start.seen) by {
                assert(end.0.seen.take(start.seen.len() as int) =~= before.0.seen.take(
                    start.seen.len() as int,
                ));
            }
            assert(end.0.made.take(start.made.len() as int) =~= start.made) by {
                assert(end.0.made.take(start.made.len() as int) =~= before.0.made.take(
                    start.made.len() as int,
                ));
            }
            assert forall|k: int| 0 <= k < listed.len() implies ({
                let (name, value) = end.0.seen[start.seen.len() + k];
                &&& name == (#[trigger] listed[k]).0
                &&& data_named(data, name) is None
                &&& end.0.made[start.made.len() + k].0 == name
                &&& end.0.made[start.made.len() + k].1.values == value.values
                &&& end.0.made[start.made.len() + k].1.shape == value.shape
                &&& drawn_where(
                    ops,
                    rand,
                    data,
                    end.0.seen.take((start.seen.len() + k) as int),
                    listed[k].1,
                    value,
                )
            }) by {
                assert(end.0.seen.take((start.seen.len() + k) as int) =~= before.0.seen.take(
                    (start.seen.len() + k) as int,
                ));
                if k < prior.len() {
                    assert(prior[k] == listed[k]);
                } else {
                    assert(before.0.seen.take((start.seen.len() + k) as int) =~= before.0.seen);
                }
            }
        }
    }
}

/// The distributions whose values are recorded as integers are those whose cells are drawn as
/// counts.
pub proof fn law_integers_are_what_is_counted(d: DistModel)
    ensures
        integer_support(d) <==> counts(d),
        integer_support(d) <==> d is Bernoulli || d is Poisson || d is Binomial || d is BetaBinomial
            || d is NegativeBinomial || d is OrderedLogistic,
{
}

proof fn lemma_entries(items: Seq<Json>, name: Seq<char>, n: nat, values: Seq<NumberModel>)
    requires
        n <= items.len(),
        entries_upto(items, name, n) == Ok::<Seq<NumberModel>, Fault>(values),
    ensures
        values.len() == n,
        forall|i: int| 0 <= i < n ==> number_of(Some(items[i])) == Some(#[trigger] values[i]),
    decreases n,
{
    if n > 0 {
        let before = entries_upto(items, name, (n - 1) as nat)->Ok_0;
        lemma_entries(items, name, (n - 1) as nat, before);
        assert forall|i: int| 0 <= i < n implies number_of(Some(items[i])) == Some(
            #[trigger] values[i],
        ) by {
            if i < n - 1 {
                assert(values[i] == before[i]);
            }
        }
    }
}

/// A drawn value that was read has the shape of its parameter and the numbers of its document, one
/// for every entry in order.
pub proof fn law_drawn_value_has_the_numbers_of_its_document(
    v: Json,
    param: FitParamModel,
    t: TensorModel,
)
    requires
        fit_value(v, param) == Ok::<TensorModel, Fault>(t),
    ensures
        t.shape == param.shape,
        param.shape.len() == 0 ==> t.values.len() == 1 && number_of(Some(v)) == Some(t.values[0]),
        param.shape.len() > 0 ==> (array_of(Some(v)) matches Some(items) && t.values.len()
            == items.len() && forall|i: int|
            0 <= i < items.len() ==> number_of(Some(items[i])) == Some(#[trigger] t.values[i])),
{
    if param.shape.len() > 0 {
        let items = array_of(Some(v))->0;
        lemma_entries(items, param.name, items.len(), t.values);
    } else {
        assert(t.shape =~= param.shape);
    }
}

} // verus!
