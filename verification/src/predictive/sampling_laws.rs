//! What is drawn for a distribution: with every parameter in its place, within its domain, and cell
//! by cell.

use vstd::prelude::*;

#[allow(unused_imports)]
use crate::bounds::ResolvedModel;
#[allow(unused_imports)]
use crate::error::Fault;
#[allow(unused_imports)]
use crate::ir::{dist_params, optional_param, DistModel, ExprModel};
#[allow(unused_imports)]
use crate::number::{finite, integral, less, nan, order_key, NumberModel};
#[allow(unused_imports)]
use crate::numerics::{Arithmetic, DrawModel, Randomness};
#[allow(unused_imports)]
use crate::tensor::TensorModel;

#[allow(unused_imports)]
use super::cells::{
    binomial_behind, cell_drawn, cell_plan, plan_drawn, poisson_behind, FamilyModel, PlanModel,
};
#[allow(unused_imports)]
use super::forward::EnvModel;
#[allow(unused_imports)]
use super::restricted::{
    columns, constrained_sampled, kinds_drawn, satisfies, shifted_kinds, vector, vector_within,
};
#[allow(unused_imports)]
use super::sampling::{
    cells_drawn, number_extended, plain_family, row_at, sampled, shaped, truncated_family,
};
#[allow(unused_imports)]
use super::vector::{matrix_row, normal_vector, normals_drawn, row_combined, vector_combined};

verus! {

/// Whether a number is that of a parameter: it stands in the row at the place of that parameter.
pub open spec fn given_by(
    n: NumberModel,
    e: ExprModel,
    exprs: Seq<ExprModel>,
    row: Seq<NumberModel>,
) -> bool {
    exists|k: int| 0 <= k < exprs.len() && #[trigger] exprs[k] == e && n == row[k]
}

/// Whether a number is that of a bound, and missing exactly where the bound is.
pub open spec fn given_by_bound(
    n: Option<NumberModel>,
    e: Option<ExprModel>,
    exprs: Seq<ExprModel>,
    row: Seq<NumberModel>,
) -> bool {
    match e {
        Some(found) => n is Some && given_by(n->0, found, exprs, row),
        None => n is None,
    }
}

/// Whether a plan draws from a distribution with its parameters by their names: the draw is of the
/// same family, a count behind a probability for one that mixes probabilities, and a count behind a
/// rate for one that mixes rates.
pub open spec fn draws_from(
    plan: PlanModel,
    d: DistModel,
    exprs: Seq<ExprModel>,
    row: Seq<NumberModel>,
) -> bool {
    match d {
        DistModel::Normal { loc, scale } => plan matches PlanModel::One(DrawModel::Normal {
            loc: a,
            scale: b,
        }) && given_by(a, loc, exprs, row) && given_by(b, scale, exprs, row),
        DistModel::HalfNormal { scale } => plan matches PlanModel::One(DrawModel::HalfNormal {
            scale: a,
        }) && given_by(a, scale, exprs, row),
        DistModel::StudentT { df, loc, scale } => plan matches PlanModel::One(
            DrawModel::StudentT { df: a, loc: b, scale: c },
        ) && given_by(a, df, exprs, row) && given_by(b, loc, exprs, row) && given_by(
            c,
            scale,
            exprs,
            row,
        ),
        DistModel::Exponential { rate } => plan matches PlanModel::One(DrawModel::Exponential {
            rate: a,
        }) && given_by(a, rate, exprs, row),
        DistModel::Uniform { low, high } => plan matches PlanModel::One(DrawModel::Uniform {
            low: a,
            high: b,
        }) && given_by(a, low, exprs, row) && given_by(b, high, exprs, row),
        DistModel::Beta { alpha, beta } => plan matches PlanModel::One(DrawModel::Beta {
            alpha: a,
            beta: b,
        }) && given_by(a, alpha, exprs, row) && given_by(b, beta, exprs, row),
        DistModel::Bernoulli { probs } => plan matches PlanModel::One(DrawModel::Bernoulli {
            probs: a,
        }) && given_by(a, probs, exprs, row),
        DistModel::Poisson { rate } => plan matches PlanModel::One(DrawModel::Poisson { rate: a })
            && given_by(a, rate, exprs, row),
        DistModel::Binomial { total_count, probs } => plan matches PlanModel::One(
            DrawModel::Binomial { total_count: a, probs: b },
        ) && given_by(a, total_count, exprs, row) && given_by(b, probs, exprs, row),
        DistModel::BetaBinomial {
            total_count,
            alpha,
            beta,
        } => plan matches PlanModel::ThenBinomial {
            probability: DrawModel::Beta { alpha: b, beta: c },
            total_count: a,
        } && given_by(a, total_count, exprs, row) && given_by(b, alpha, exprs, row) && given_by(
            c,
            beta,
            exprs,
            row,
        ),
        DistModel::NegativeBinomial {
            mean,
            overdispersion,
        } => plan matches PlanModel::ThenPoisson {
            rate: DrawModel::MixedRate { mean: a, overdispersion: b },
        } && given_by(a, mean, exprs, row) && given_by(b, overdispersion, exprs, row),
        DistModel::Truncated { base, lower, upper } => match *base {
            DistModel::Normal { loc, scale } => plan matches PlanModel::One(
                DrawModel::TruncatedNormal { loc: a, scale: b, lower: low, upper: high },
            ) && given_by(a, loc, exprs, row) && given_by(b, scale, exprs, row) && given_by_bound(
                low,
                lower,
                exprs,
                row,
            ) && given_by_bound(high, upper, exprs, row),
            DistModel::Exponential { rate } => plan matches PlanModel::One(
                DrawModel::TruncatedExponential { rate: a, lower: low, upper: high },
            ) && given_by(a, rate, exprs, row) && given_by_bound(low, lower, exprs, row)
                && given_by_bound(high, upper, exprs, row),
            DistModel::Uniform { low: from, high: to } => plan matches PlanModel::One(
                DrawModel::TruncatedUniform { low: a, high: b, lower: low, upper: high },
            ) && given_by(a, from, exprs, row) && given_by(b, to, exprs, row) && given_by_bound(
                low,
                lower,
                exprs,
                row,
            ) && given_by_bound(high, upper, exprs, row),
            _ => false,
        },
        _ => false,
    }
}

/// A cell is drawn from its distribution with every parameter in its place among those evaluated.
pub proof fn law_cells_draw_with_parameters_by_name(d: DistModel, row: Seq<NumberModel>)
    requires
        !(d is MultivariateNormal || d is OrderedLogistic || d is Truncated),
        row.len() == dist_params(d).len(),
    ensures
        cell_plan(plain_family(d, Seq::empty()), row) matches Ok(plan) ==> draws_from(
            plan,
            d,
            dist_params(d),
            row,
        ),
{
    let exprs = dist_params(d);
    assert(exprs[0] == exprs[0]);
    if exprs.len() > 1 {
        assert(exprs[1] == exprs[1]);
    }
    if exprs.len() > 2 {
        assert(exprs[2] == exprs[2]);
    }
}

/// A cell of a truncated distribution is drawn with every parameter of its base and every bound in
/// its place.
pub proof fn law_truncated_cells_draw_with_parameters_by_name(
    base: DistModel,
    lower: Option<ExprModel>,
    upper: Option<ExprModel>,
    row: Seq<NumberModel>,
)
    requires
        !(base is Truncated),
        row.len() == dist_params(base).len() + optional_param(lower).len() + optional_param(
            upper,
        ).len(),
    ensures
        ({
            let d = DistModel::Truncated { base: Box::new(base), lower, upper };
            cell_plan(truncated_family(base, lower is Some, upper is Some), row) matches Ok(plan)
                ==> draws_from(plan, d, dist_params(d), row)
        }),
{
    let d = DistModel::Truncated { base: Box::new(base), lower, upper };
    let inner = dist_params(base);
    let exprs = dist_params(d);
    assert(exprs =~= inner + optional_param(lower) + optional_param(upper));
    assert(exprs[0] == inner[0]);
    if inner.len() > 1 {
        assert(exprs[1] == inner[1]);
    }
    if let Some(e) = lower {
        assert(exprs[inner.len() as int] == e);
    }
    if let Some(e) = upper {
        assert(exprs[(inner.len() + optional_param(lower).len()) as int] == e);
    }
}

/// A category is drawn by the linear predictor of its cell and by all cutpoints.
pub proof fn law_categories_draw_by_predictor_and_cutpoints(
    d: DistModel,
    cutpoints: Seq<NumberModel>,
    row: Seq<NumberModel>,
)
    requires
        d is OrderedLogistic,
        row.len() == 1,
    ensures
        finite(row[0].bits) <==> cell_plan(plain_family(d, cutpoints), row) is Ok,
        cell_plan(plain_family(d, cutpoints), row) matches Ok(plan) ==> plan == PlanModel::One(
            DrawModel::OrderedLogistic { eta: row[0], cutpoints },
        ),
{
}

/// A finite number above zero.
pub open spec fn above_zero(n: NumberModel) -> bool {
    finite(n.bits) && order_key(n.bits) > 0
}

/// A finite number between zero and one.
pub open spec fn a_probability(n: NumberModel) -> bool {
    finite(n.bits) && 0 <= order_key(n.bits) <= 0x3FF0_0000_0000_0000
}

/// Whether the parameters of a cell lie where its distribution can be drawn from: scales, rates,
/// shapes and means above zero, probabilities between zero and one, counts whole and no less than
/// zero, limits in order; a rate no greater than a thousand, a count no greater than a million.
pub open spec fn drawable(d: DistModel, row: Seq<NumberModel>) -> bool {
    match d {
        DistModel::Normal { .. } => finite(row[0].bits) && above_zero(row[1]),
        DistModel::HalfNormal { .. } => above_zero(row[0]),
        DistModel::StudentT { .. } => above_zero(row[0]) && finite(row[1].bits) && above_zero(
            row[2],
        ),
        DistModel::Exponential { .. } => above_zero(row[0]),
        DistModel::Uniform { .. } => finite(row[0].bits) && finite(row[1].bits) && order_key(
            row[0].bits,
        ) < order_key(row[1].bits),
        DistModel::Beta { .. } => above_zero(row[0]) && above_zero(row[1]),
        DistModel::Bernoulli { .. } => a_probability(row[0]),
        DistModel::Poisson { .. } => above_zero(row[0]) && row[0].bits <= 0x408F_4000_0000_0000,
        DistModel::Binomial { .. } => finite(row[0].bits) && integral(row[0].bits) && order_key(
            row[0].bits,
        ) >= 0 && order_key(row[0].bits) <= 0x412E_8480_0000_0000 && a_probability(row[1]),
        DistModel::BetaBinomial { .. } => above_zero(row[1]) && above_zero(row[2]),
        DistModel::NegativeBinomial { .. } => above_zero(row[0]) && above_zero(row[1]),
        _ => false,
    }
}

/// A cell can be drawn exactly where its parameters lie in the domain of its distribution.
pub proof fn law_cells_draw_within_the_domain(d: DistModel, row: Seq<NumberModel>)
    requires
        !(d is MultivariateNormal || d is OrderedLogistic || d is Truncated),
        row.len() == dist_params(d).len(),
    ensures
        drawable(d, row) <==> cell_plan(plain_family(d, Seq::empty()), row) is Ok,
{
}

/// A cell of a truncated distribution can be drawn exactly where its base could be drawn from and
/// its bounds are finite.
pub proof fn law_truncated_cells_draw_within_the_domain(
    base: DistModel,
    lower: bool,
    upper: bool,
    row: Seq<NumberModel>,
)
    requires
        !(base is MultivariateNormal || base is OrderedLogistic || base is Truncated),
        row.len() == dist_params(base).len() + (if lower {
            1nat
        } else {
            0nat
        }) + (if upper {
            1nat
        } else {
            0nat
        }),
    ensures
        cell_plan(truncated_family(base, lower, upper), row) is Ok <==> (base is Normal || base
            is Exponential || base is Uniform) && drawable(base, row) && (forall|k: int|
            dist_params(base).len() <= k < row.len() ==> finite(#[trigger] row[k].bits)),
{
    let n = dist_params(base).len() as int;
    if lower || upper {
        assert(row[n] == row[n]);
    }
    if lower && upper {
        assert(row[n + 1] == row[n + 1]);
    }
}

/// A count that mixes probabilities is drawn out of its total with the probability that was drawn
/// before it, and one that mixes rates with the rate that was; each from the source that the first
/// draw left.
pub proof fn law_mixed_counts_draw_with_what_was_drawn<N: Randomness>(
    rand: &N,
    plan: PlanModel,
    source: N::Source,
    out: (NumberModel, N::Source),
)
    requires
        plan_drawn(rand, plan, source, Ok(out)),
    ensures
        plan matches PlanModel::ThenBinomial { probability, total_count } ==> exists|
            p: NumberModel,
            middle: N::Source,
        | #[trigger]
            rand.draw_gives(source, probability, Ok((p, middle))) && a_probability(p)
                && rand.draw_gives(
                middle,
                DrawModel::Binomial { total_count, probs: p },
                Ok(out),
            ),
        plan matches PlanModel::ThenPoisson { rate } ==> exists|
            found: NumberModel,
            middle: N::Source,
        | #[trigger]
            rand.draw_gives(source, rate, Ok((found, middle))) && above_zero(found)
                && rand.draw_gives(middle, DrawModel::Poisson { rate: found }, Ok(out)),
{
    let done = Ok::<(NumberModel, N::Source), Fault>(out);
    match plan {
        PlanModel::ThenBinomial { probability, total_count } => {
            let mid = choose|mid: Result<(NumberModel, N::Source), Fault>| #[trigger]
                rand.draw_gives(source, probability, mid) && binomial_behind(
                    rand,
                    mid,
                    total_count,
                    done,
                );
            let first = mid->Ok_0;
            assert(mid == Ok::<(NumberModel, N::Source), Fault>((first.0, first.1)));
        },
        PlanModel::ThenPoisson { rate } => {
            let mid = choose|mid: Result<(NumberModel, N::Source), Fault>| #[trigger]
                rand.draw_gives(source, rate, mid) && poisson_behind(rand, mid, done);
            let first = mid->Ok_0;
            assert(mid == Ok::<(NumberModel, N::Source), Fault>((first.0, first.1)));
        },
        _ => {},
    }
}

/// Whether numbers were drawn cell by cell: each from the source that the one before it left, and
/// with the parameters at its own place.
pub open spec fn drawn_in_turn<N: Randomness>(
    rand: &N,
    f: FamilyModel,
    list: Seq<TensorModel>,
    sources: Seq<N::Source>,
    values: Seq<NumberModel>,
) -> bool {
    &&& sources.len() == values.len() + 1
    &&& forall|i: int|
        0 <= i < values.len() ==> cell_drawn(
            rand,
            f,
            list.map_values(|t: TensorModel| t.values[i]),
            sources[i],
            Ok((#[trigger] values[i], sources[i + 1])),
        )
}

/// Cells are drawn in turn, one number for each, every one with the parameters at its own place.
pub proof fn law_cells_are_drawn_in_turn<N: Randomness>(
    rand: &N,
    f: FamilyModel,
    list: Seq<TensorModel>,
    n: nat,
    source: N::Source,
    out: (Seq<NumberModel>, N::Source),
)
    requires
        cells_drawn(rand, f, list, n, source, Ok(out)),
    ensures
        out.0.len() == n,
        exists|sources: Seq<N::Source>| #[trigger]
            drawn_in_turn(rand, f, list, sources, out.0) && sources[0] == source && sources.last()
                == out.1,
    decreases n,
{
    let done = Ok::<(Seq<NumberModel>, N::Source), Fault>(out);
    if n == 0 {
        let sources = seq![source];
        assert(drawn_in_turn(rand, f, list, sources, out.0));
    } else {
        let (before, item) = choose|
            before: (Seq<NumberModel>, N::Source),
            item: Result<(NumberModel, N::Source), Fault>,
        | #[trigger]
            number_extended(before, item, done) && cells_drawn(
                rand,
                f,
                list,
                (n - 1) as nat,
                source,
                Ok(before),
            ) && cell_drawn(rand, f, row_at(list, n - 1), before.1, item);
        law_cells_are_drawn_in_turn(rand, f, list, (n - 1) as nat, source, before);
        let prior = choose|sources: Seq<N::Source>| #[trigger]
            drawn_in_turn(rand, f, list, sources, before.0) && sources[0] == source
                && sources.last() == before.1;
        let sources = prior.push(out.1);
        assert forall|i: int| 0 <= i < out.0.len() implies cell_drawn(
            rand,
            f,
            list.map_values(|t: TensorModel| t.values[i]),
            sources[i],
            Ok((#[trigger] out.0[i], sources[i + 1])),
        ) by {
            if i < n - 1 {
                assert(before.0[i] == out.0[i]);
            } else {
                assert(list.map_values(|t: TensorModel| t.values[i]) =~= row_at(list, n - 1));
                assert(item == Ok::<(NumberModel, N::Source), Fault>((out.0[i], sources[i + 1])));
            }
        }
        assert(drawn_in_turn(rand, f, list, sources, out.0));
    }
}

/// The parameters of one entry within bounds: those of all, and its own bounds behind them.
pub open spec fn entry_row(
    scalars: Seq<NumberModel>,
    lower: Option<Seq<NumberModel>>,
    upper: Option<Seq<NumberModel>>,
    i: int,
) -> Seq<NumberModel> {
    scalars + (match lower {
        Some(bound) => seq![bound[i]],
        None => Seq::empty(),
    }) + (match upper {
        Some(bound) => seq![bound[i]],
        None => Seq::empty(),
    })
}

/// Whether a number can have been drawn with these parameters, from some source.
pub open spec fn entry_drawn<N: Randomness>(
    rand: &N,
    f: FamilyModel,
    row: Seq<NumberModel>,
    value: NumberModel,
) -> bool {
    exists|a: N::Source, b: N::Source| #[trigger] cell_drawn(rand, f, row, a, Ok((value, b)))
}

/// Whether a number can have been drawn from a bound on, from some source.
pub open spec fn shift_drawn<N: Randomness>(
    rand: &N,
    rate: NumberModel,
    from: NumberModel,
    value: NumberModel,
) -> bool {
    exists|a: N::Source, b: N::Source| #[trigger]
        rand.draw_gives(a, DrawModel::ShiftedExponential { rate, from }, Ok((value, b)))
}

/// A vector within bounds is drawn entry by entry, every one with the same parameters and with the
/// bounds at its own place.
pub proof fn law_bounded_vectors_take_each_bound_in_its_place<N: Randomness>(
    rand: &N,
    d: DistModel,
    scalars: Seq<NumberModel>,
    lower: Option<Seq<NumberModel>>,
    upper: Option<Seq<NumberModel>>,
    length: usize,
    source: N::Source,
    out: (TensorModel, N::Source),
)
    requires
        lower is Some ==> lower->0.len() == length,
        upper is Some ==> upper->0.len() == length,
        vector_within(rand, d, scalars, lower, upper, length, source, Ok(out)),
    ensures
        out.0.shape == seq![length],
        out.0.values.len() == length,
        forall|i: int|
            0 <= i < length ==> entry_drawn(rand, truncated_family(d, lower is Some, upper is Some), entry_row(scalars, lower, upper, i), #[trigger] out.0.values[i]),
{
    let f = truncated_family(d, lower is Some, upper is Some);
    let list = columns(scalars, lower, upper, length);
    let numbers = choose|numbers: Result<(Seq<NumberModel>, N::Source), Fault>| #[trigger]
        cells_drawn(rand, f, list, length as nat, source, numbers) && Ok::<
            (TensorModel, N::Source),
            Fault,
        >(out) == shaped(seq![length], numbers);
    let found = numbers->Ok_0;
    law_cells_are_drawn_in_turn(rand, f, list, length as nat, source, found);
    let sources = choose|sources: Seq<N::Source>| #[trigger]
        drawn_in_turn(rand, f, list, sources, found.0) && sources[0] == source && sources.last()
            == found.1;
    assert forall|i: int| 0 <= i < length implies entry_drawn(rand, f, entry_row(scalars, lower, upper, i), #[trigger] out.0.values[i]) by {
        let row = entry_row(scalars, lower, upper, i);
        assert(found.0[i] == out.0.values[i]);
        assert(list.map_values(|t: TensorModel| t.values[i]) =~= row);
        assert(cell_drawn(rand, f, row, sources[i], Ok((found.0[i], sources[i + 1]))));
    }
}

/// An exponential vector behind lower bounds is drawn entry by entry, every one from its own bound
/// on and at the same rate.
pub proof fn law_vectors_behind_bounds_start_at_their_own<N: Randomness>(
    rand: &N,
    rate: NumberModel,
    bounds: Seq<NumberModel>,
    source: N::Source,
    out: (Seq<NumberModel>, N::Source),
)
    requires
        kinds_drawn(rand, shifted_kinds(rate, bounds), source, Ok(out)),
    ensures
        out.0.len() == bounds.len(),
        forall|i: int|
            0 <= i < bounds.len() ==> shift_drawn(rand, rate, bounds[i], #[trigger] out.0[i]),
    decreases bounds.len(),
{
    let done = Ok::<(Seq<NumberModel>, N::Source), Fault>(out);
    let kinds = shifted_kinds(rate, bounds);
    if bounds.len() > 0 {
        let (before, item) = choose|
            before: (Seq<NumberModel>, N::Source),
            item: Result<(NumberModel, N::Source), Fault>,
        | #[trigger]
            number_extended(before, item, done) && kinds_drawn(
                rand,
                kinds.drop_last(),
                source,
                Ok(before),
            ) && rand.draw_gives(before.1, kinds.last(), item);
        assert(kinds.drop_last() =~= shifted_kinds(rate, bounds.drop_last()));
        law_vectors_behind_bounds_start_at_their_own(rand, rate, bounds.drop_last(), source, before);
        assert forall|i: int| 0 <= i < bounds.len() implies shift_drawn(rand, rate, bounds[i], #[trigger] out.0[i]) by {
            if i < bounds.len() - 1 {
                assert(before.0[i] == out.0[i]);
                assert(bounds.drop_last()[i] == bounds[i]);
            } else {
                assert(item == Ok::<(NumberModel, N::Source), Fault>((out.0[i], out.1)));
                assert(kinds.last() == DrawModel::ShiftedExponential { rate, from: bounds[i] });
            }
        }
    }
}

/// Whether a value meets a constraint, in the words of the constraint.
pub open spec fn meets(value: TensorModel, constraint: Option<ResolvedModel>) -> bool {
    forall|i: int|
        0 <= i < value.values.len() ==> ({
            let n = (#[trigger] value.values[i]).bits;
            match constraint {
                None => true,
                Some(ResolvedModel::Positive) => !nan(n) && order_key(n) > 0,
                Some(ResolvedModel::UnitInterval) => 0 < order_key(n) < 0x3FF0_0000_0000_0000,
                Some(ResolvedModel::Interval { lower, upper }) => order_key(lower.bits)
                    < order_key(n) < order_key(upper.bits),
                Some(ResolvedModel::Ordered) => value.shape.len() == 1 && (i
                    < value.values.len() - 1 ==> order_key(n) < order_key(
                    value.values[i + 1].bits,
                )),
                Some(ResolvedModel::VectorBounds { lower, upper }) => (lower is Some ==> order_key(
                    lower->0[i].bits,
                ) < order_key(n)) && (upper is Some ==> order_key(n) < order_key(
                    upper->0[i].bits,
                )),
            }
        })
}

/// A value drawn for a constrained site meets its constraint, and came from its distribution in its
/// shape.
pub proof fn law_constrained_draw_meets_its_constraint<A: Arithmetic, N: Randomness>(
    ops: &A,
    rand: &N,
    env: EnvModel,
    d: DistModel,
    shape: Seq<usize>,
    constraint: Option<ResolvedModel>,
    name: Seq<char>,
    tries: nat,
    source: N::Source,
    out: (TensorModel, N::Source),
)
    requires
        constrained_sampled(ops, rand, env, d, shape, constraint, name, tries, source, Ok(out)),
    ensures
        tries > 0,
        meets(out.0, constraint),
        exists|before: N::Source| #[trigger]
            sampled(ops, rand, env, d, Some(shape), before, Ok(out)),
    decreases tries,
{
    let done = Ok::<(TensorModel, N::Source), Fault>(out);
    let one = choose|one: Result<(TensorModel, N::Source), Fault>| #[trigger]
        sampled(ops, rand, env, d, Some(shape), source, one) && match one {
            Err(fault) => done == Err::<(TensorModel, N::Source), Fault>(fault),
            Ok(found) => if satisfies(found.0, constraint) {
                done == one
            } else {
                constrained_sampled(
                    ops,
                    rand,
                    env,
                    d,
                    shape,
                    constraint,
                    name,
                    (tries - 1) as nat,
                    found.1,
                    done,
                )
            },
        };
    let found = one->Ok_0;
    if satisfies(found.0, constraint) {
        assert(out == found);
    } else {
        law_constrained_draw_meets_its_constraint(
            ops,
            rand,
            env,
            d,
            shape,
            constraint,
            name,
            (tries - 1) as nat,
            found.1,
            out,
        );
    }
}

/// Whether a reading of numbers as reals finds the steps of a combination exact.
pub open spec fn steps_exactly<N: Randomness>(rand: &N, val: spec_fn(NumberModel) -> real) -> bool {
    forall|value: NumberModel, factor: NumberModel, z: NumberModel, out: NumberModel| #[trigger]
        rand.step_gives(value, factor, z, out) ==> val(out) == val(value) + val(factor) * val(z)
}

/// The inner product of the first entries of factors and numbers.
pub open spec fn weighed(
    val: spec_fn(NumberModel) -> real,
    factors: Seq<NumberModel>,
    z: Seq<NumberModel>,
    n: nat,
) -> real
    decreases n,
{
    if n == 0 {
        0real
    } else {
        weighed(val, factors, z, (n - 1) as nat) + val(factors[n - 1]) * val(z[n - 1])
    }
}

proof fn lemma_row_weighed<N: Randomness>(
    rand: &N,
    val: spec_fn(NumberModel) -> real,
    begin: NumberModel,
    factors: Seq<NumberModel>,
    z: Seq<NumberModel>,
    n: nat,
    out: NumberModel,
)
    requires
        steps_exactly(rand, val),
        row_combined(rand, begin, factors, z, n, out),
    ensures
        val(out) == val(begin) + weighed(val, factors, z, n),
    decreases n,
{
    if n > 0 {
        let before = choose|before: NumberModel| #[trigger]
            rand.step_gives(before, factors[n - 1], z[n - 1], out) && row_combined(
                rand,
                begin,
                factors,
                z,
                (n - 1) as nat,
                before,
            );
        lemma_row_weighed(rand, val, begin, factors, z, (n - 1) as nat, before);
    }
}

/// A multivariate normal vector is its mean moved by its lower-triangular scale times as many
/// standard normal numbers as it has entries: `mean + L z`, wherever the steps are exact.
pub proof fn law_normal_vector_is_mean_and_scaled_numbers<N: Randomness>(
    rand: &N,
    val: spec_fn(NumberModel) -> real,
    mean: Seq<NumberModel>,
    scale: Seq<NumberModel>,
    source: N::Source,
    values: Seq<NumberModel>,
    after: N::Source,
)
    requires
        steps_exactly(rand, val),
        scale.len() == mean.len() * mean.len(),
        normal_vector(rand, mean, scale, source, values, after),
    ensures
        values.len() == mean.len(),
        exists|z: Seq<NumberModel>| #[trigger]
            normals_drawn(rand, mean.len(), source, z, after) && forall|row: int|
                0 <= row < mean.len() ==> val(#[trigger] values[row]) == val(mean[row]) + weighed(
                    val,
                    scale.skip(row * mean.len()),
                    z,
                    (row + 1) as nat,
                ),
{
    let z = choose|z: Seq<NumberModel>| #[trigger]
        normals_drawn(rand, mean.len(), source, z, after) && vector_combined(
            rand,
            mean,
            scale,
            z,
            values,
        );
    let n = mean.len();
    assert forall|row: int| 0 <= row < n implies val(#[trigger] values[row]) == val(mean[row])
        + weighed(val, scale.skip(row * n), z, (row + 1) as nat) by {
        let factors = matrix_row(scale, n, row);
        lemma_row_weighed(rand, val, mean[row], factors, z, (row + 1) as nat, values[row]);
        assert(0 <= row * n && row * n + n <= n * n) by (nonlinear_arith)
            requires
                0 <= row < n,
        ;
        lemma_weighed_alike(val, factors, scale.skip(row * n), z, (row + 1) as nat);
    }
}

proof fn lemma_weighed_alike(
    val: spec_fn(NumberModel) -> real,
    a: Seq<NumberModel>,
    b: Seq<NumberModel>,
    z: Seq<NumberModel>,
    n: nat,
)
    requires
        forall|i: int| 0 <= i < n ==> a[i] == b[i],
    ensures
        weighed(val, a, z, n) == weighed(val, b, z, n),
    decreases n,
{
    if n > 0 {
        lemma_weighed_alike(val, a, b, z, (n - 1) as nat);
    }
}

} // verus!
