//! Sampling under a constraint: by rejection, or within vector bounds.

use vstd::prelude::*;

#[allow(unused_imports)]
use crate::artifact::cells;
use crate::bounds::{repeat, ResolvedConstraint};
#[allow(unused_imports)]
use crate::bounds::{bounds_cover, optional_numbers, optional_resolved, repeated, ResolvedModel};
use crate::data::copy_numbers;
#[allow(unused_imports)]
use crate::data::{number_views, numbers_outcome};
use crate::error::{invalid_settings, shape_mismatch, Error};
#[allow(unused_imports)]
use crate::error::{outcome, settings_fault, shape_fault, Fault};
#[allow(unused_imports)]
use crate::investigation::fields::names_view;
#[allow(unused_imports)]
use crate::investigation::ledger::views;
use crate::ir::{Distribution, Expr};
#[allow(unused_imports)]
use crate::ir::{expr_views, DistModel, ExprModel};
use crate::number::{less_than, Number};
#[allow(unused_imports)]
use crate::number::{less, NumberModel};
use crate::numerics::{Arithmetic, Draw, Randomness};
#[allow(unused_imports)]
use crate::numerics::{jointly_drawn, DrawModel};
use crate::tensor::Tensor;
#[allow(unused_imports)]
use crate::tensor::{full, TensorModel};
use crate::text;

use super::cells::{check_finite, check_sign, Family, UNIT_BITS};
#[allow(unused_imports)]
use super::cells::{infinite_fault, row_width, sign_fault};
use super::forward::ForwardEnv;
#[allow(unused_imports)]
use super::forward::{env_full, evaluated, EnvModel};
use super::sampling::{draw_cells, is_increasing, sample_distribution};
#[allow(unused_imports)]
use super::sampling::{
    cells_drawn, extended, increasing, number_extended, sample_outcome, sampled, shaped, truncated_family,
};

verus! {

/// Every entry lies strictly between two limits.
pub open spec fn all_between(values: Seq<NumberModel>, low: u64, high: u64) -> bool {
    forall|i: int|
        0 <= i < values.len() ==> less(low, #[trigger] values[i].bits) && less(values[i].bits, high)
}

/// Every entry lies strictly above its lower and below its upper bound.
pub open spec fn all_within(
    values: Seq<NumberModel>,
    lower: Option<Seq<NumberModel>>,
    upper: Option<Seq<NumberModel>>,
) -> bool {
    forall|i: int|
        0 <= i < values.len() ==> (lower is Some ==> less(
            lower->0[i].bits,
            #[trigger] values[i].bits,
        )) && (upper is Some ==> less(values[i].bits, upper->0[i].bits))
}

/// Whether a value satisfies a constraint.
pub open spec fn satisfies(value: TensorModel, constraint: Option<ResolvedModel>) -> bool {
    match constraint {
        None => true,
        Some(ResolvedModel::Positive) => forall|i: int|
            0 <= i < value.values.len() ==> less(0, #[trigger] value.values[i].bits),
        Some(ResolvedModel::UnitInterval) => all_between(value.values, 0, UNIT_BITS),
        Some(ResolvedModel::Interval { lower, upper }) => all_between(
            value.values,
            lower.bits,
            upper.bits,
        ),
        Some(ResolvedModel::Ordered) => value.shape.len() == 1 && increasing(value.values),
        Some(ResolvedModel::VectorBounds { lower, upper }) => all_within(
            value.values,
            lower,
            upper,
        ),
    }
}

fn between(values: &Vec<Number>, low: u64, high: u64) -> (r: bool)
    ensures
        r == all_between(number_views(values@), low, high),
{
    let ghost all = number_views(values@);
    let mut i: usize = 0;
    while i < values.len()
        invariant
            i <= values.len(),
            all == number_views(values@),
            forall|j: int|
                0 <= j < i ==> less(low, #[trigger] all[j].bits) && less(all[j].bits, high),
        decreases values.len() - i,
    {
        assert(all[i as int] == values@[i as int]@);
        if !less_than(low, values[i].bits) || !less_than(values[i].bits, high) {
            assert(!(less(low, all[i as int].bits) && less(all[i as int].bits, high)));
            return false;
        }
        i += 1;
    }
    true
}

fn above_zero(values: &Vec<Number>) -> (r: bool)
    ensures
        r == (forall|i: int|
            0 <= i < values@.len() ==> less(0, #[trigger] number_views(values@)[i].bits)),
{
    let ghost all = number_views(values@);
    let mut i: usize = 0;
    while i < values.len()
        invariant
            i <= values.len(),
            all == number_views(values@),
            forall|j: int| 0 <= j < i ==> less(0, #[trigger] all[j].bits),
        decreases values.len() - i,
    {
        assert(all[i as int] == values@[i as int]@);
        if !less_than(0, values[i].bits) {
            assert(!less(0, all[i as int].bits));
            return false;
        }
        i += 1;
    }
    true
}

fn within(values: &Vec<Number>, lower: &Option<Vec<Number>>, upper: &Option<Vec<Number>>) -> (r: bool)
    requires
        lower is Some ==> values@.len() <= lower->0@.len(),
        upper is Some ==> values@.len() <= upper->0@.len(),
    ensures
        r == all_within(number_views(values@), optional_numbers(*lower), optional_numbers(*upper)),
{
    let ghost all = number_views(values@);
    let ghost low = optional_numbers(*lower);
    let ghost high = optional_numbers(*upper);
    let mut i: usize = 0;
    while i < values.len()
        invariant
            i <= values.len(),
            lower is Some ==> values@.len() <= lower->0@.len(),
            upper is Some ==> values@.len() <= upper->0@.len(),
            all == number_views(values@),
            low == optional_numbers(*lower),
            high == optional_numbers(*upper),
            forall|j: int|
                0 <= j < i ==> (low is Some ==> less(low->0[j].bits, #[trigger] all[j].bits)) && (
                high is Some ==> less(all[j].bits, high->0[j].bits)),
        decreases values.len() - i,
    {
        assert(all[i as int] == values@[i as int]@);
        let above: bool = match lower {
            Some(bound) => {
                assert(low->0[i as int] == bound@[i as int]@);
                less_than(bound[i].bits, values[i].bits)
            },
            None => true,
        };
        let below: bool = match upper {
            Some(bound) => {
                assert(high->0[i as int] == bound@[i as int]@);
                less_than(values[i].bits, bound[i].bits)
            },
            None => true,
        };
        if !above || !below {
            assert(!((low is Some ==> less(low->0[i as int].bits, all[i as int].bits)) && (high is Some
                ==> less(all[i as int].bits, high->0[i as int].bits))));
            return false;
        }
        i += 1;
    }
    true
}

/// Whether a value satisfies a constraint.
pub fn satisfies_constraint(value: &Tensor, constraint: &Option<ResolvedConstraint>) -> (r: bool)
    requires
        bounds_cover(optional_resolved(*constraint), value@.values.len()),
    ensures
        r == satisfies(value@, optional_resolved(*constraint)),
{
    assert(value@.values.len() == value.values@.len());
    match constraint {
        None => true,
        Some(ResolvedConstraint::Positive) => above_zero(&value.values),
        Some(ResolvedConstraint::UnitInterval) => between(&value.values, 0, UNIT_BITS),
        Some(ResolvedConstraint::Interval { lower, upper }) => between(
            &value.values,
            lower.bits,
            upper.bits,
        ),
        Some(ResolvedConstraint::Ordered) => value.shape.len() == 1 && is_increasing(&value.values),
        Some(ResolvedConstraint::VectorBounds { lower, upper }) => within(
            &value.values,
            lower,
            upper,
        ),
    }
}

/// How often a constrained draw is tried.
pub const MAX_TRIES: u64 = 10_000;

/// The failure of a constrained draw that never came true.
pub open spec fn untried_fault(name: Seq<char>) -> Fault {
    settings_fault(
        "could not draw prior-predictive value for constrained site \""@ + name
            + "\" after 10000 tries; check the prior mass inside the constraint"@,
    )
}

/// Whether sampling until a constraint holds, `tries` times at most, can come to that.
pub open spec fn constrained_sampled<A: Arithmetic, N: Randomness>(
    ops: &A,
    rand: &N,
    env: EnvModel,
    d: DistModel,
    shape: Seq<usize>,
    constraint: Option<ResolvedModel>,
    name: Seq<char>,
    tries: nat,
    source: N::Source,
    out: Result<(TensorModel, N::Source), Fault>,
) -> bool
    decreases tries,
{
    if tries == 0 {
        out == Err::<(TensorModel, N::Source), Fault>(untried_fault(name))
    } else {
        exists|one: Result<(TensorModel, N::Source), Fault>| #[trigger]
            sampled(ops, rand, env, d, Some(shape), source, one) && match one {
                Err(fault) => out == Err::<(TensorModel, N::Source), Fault>(fault),
                Ok(found) => if satisfies(found.0, constraint) {
                    out == one
                } else {
                    constrained_sampled(
                        ops,
                        rand,
                        env,
                        d,
                        shape,
                        constraint,
                        name,
                        (tries - 1) as nat,
                        found.1,
                        out,
                    )
                },
            }
    }
}

/// Samples until a constraint holds.
pub fn sample_constrained_distribution<A: Arithmetic, N: Randomness>(
    ops: &A,
    rand: &N,
    env: &ForwardEnv,
    dist: &Distribution,
    shape: &Vec<usize>,
    constraint: &Option<ResolvedConstraint>,
    name: &str,
    source: N::Source,
) -> (r: Result<(Tensor, N::Source), Error>)
    requires
        ops.reliable(),
        rand.ready(),
        env_full(env@),
        !(optional_resolved(*constraint) is Some && optional_resolved(
            *constraint,
        )->0 is VectorBounds),
    ensures
        constrained_sampled(
            ops,
            rand,
            env@,
            dist@,
            shape@,
            optional_resolved(*constraint),
            name@,
            MAX_TRIES as nat,
            source,
            sample_outcome(r),
        ),
        r is Ok ==> full(r->Ok_0.0@),
{
    let ghost c = optional_resolved(*constraint);
    let ghost begin = source;
    let mut state: N::Source = source;
    let mut left: u64 = MAX_TRIES;
    while left > 0
        invariant
            left <= MAX_TRIES,
            ops.reliable(),
            rand.ready(),
            env_full(env@),
            c == optional_resolved(*constraint),
            !(c is Some && c->0 is VectorBounds),
            begin == source,
            forall|out: Result<(TensorModel, N::Source), Fault>| #[trigger]
                constrained_sampled(
                    ops,
                    rand,
                    env@,
                    dist@,
                    shape@,
                    c,
                    name@,
                    left as nat,
                    state,
                    out,
                ) ==> constrained_sampled(
                    ops,
                    rand,
                    env@,
                    dist@,
                    shape@,
                    c,
                    name@,
                    MAX_TRIES as nat,
                    begin,
                    out,
                ),
        decreases left,
    {
        let ghost here = state;
        let one: Result<(Tensor, N::Source), Error> = sample_distribution(
            ops,
            rand,
            env,
            dist,
            Some(shape),
            state,
        );
        assert(sampled(ops, rand, env@, dist@, Some(shape@), here, sample_outcome(one)));
        match one {
            Err(error) => {
                assert(constrained_sampled(
                    ops,
                    rand,
                    env@,
                    dist@,
                    shape@,
                    c,
                    name@,
                    left as nat,
                    here,
                    Err(error@),
                ));
                return Err(error);
            },
            Ok(found) => {
                if satisfies_constraint(&found.0, constraint) {
                    assert(constrained_sampled(
                        ops,
                        rand,
                        env@,
                        dist@,
                        shape@,
                        c,
                        name@,
                        left as nat,
                        here,
                        Ok((found.0@, found.1)),
                    ));
                    return Ok(found);
                }
                let ghost next = found.1;
                let ghost rest = (left - 1) as nat;
                proof {
                    assert forall|out: Result<(TensorModel, N::Source), Fault>| #[trigger]
                        constrained_sampled(
                            ops,
                            rand,
                            env@,
                            dist@,
                            shape@,
                            c,
                            name@,
                            rest,
                            next,
                            out,
                        ) implies constrained_sampled(
                        ops,
                        rand,
                        env@,
                        dist@,
                        shape@,
                        c,
                        name@,
                        MAX_TRIES as nat,
                        begin,
                        out,
                    ) by {
                        assert(constrained_sampled(
                            ops,
                            rand,
                            env@,
                            dist@,
                            shape@,
                            c,
                            name@,
                            left as nat,
                            here,
                            out,
                        ));
                    }
                }
                state = found.1;
            },
        }
        left -= 1;
    }
    let error: Error = invalid_settings(
        text::cat3(
            "could not draw prior-predictive value for constrained site \"",
            name,
            "\" after 10000 tries; check the prior mass inside the constraint",
        ),
    );
    assert(constrained_sampled(
        ops,
        rand,
        env@,
        dist@,
        shape@,
        c,
        name@,
        0,
        state,
        Err(error@),
    ));
    Err(error)
}

/// A scalar parameter, from what its expression came to.
pub open spec fn scalar_of(t: Result<TensorModel, Fault>, label: Seq<char>) -> Result<NumberModel, Fault> {
    match t {
        Err(fault) => Err(fault),
        Ok(value) => if value.shape.len() != 0 {
            Err(
                settings_fault(
                    "VectorBounds prior-predictive simulation requires iid scalar distributions"@,
                ),
            )
        } else {
            match infinite_fault(value.values[0], label) {
                Some(fault) => Err(fault),
                None => Ok(value.values[0]),
            }
        },
    }
}

/// Whether a scalar parameter can come to that.
pub open spec fn scalar_read<A: Arithmetic>(
    ops: &A,
    env: EnvModel,
    e: ExprModel,
    label: Seq<char>,
    out: Result<NumberModel, Fault>,
) -> bool {
    exists|t: Result<TensorModel, Fault>| #[trigger]
        evaluated(ops, e, env, t) && out == scalar_of(t, label)
}

/// The view of a result that carries a number.
pub open spec fn number_outcome(r: Result<Number, Error>) -> Result<NumberModel, Fault> {
    match r {
        Ok(n) => Ok(n@),
        Err(error) => Err(error@),
    }
}

fn scalar_distribution_parameter<A: Arithmetic>(ops: &A, env: &ForwardEnv, expr: &Expr, label: &str) -> (r:
    Result<Number, Error>)
    requires
        ops.reliable(),
        env_full(env@),
    ensures
        scalar_read(ops, env@, expr@, label@, number_outcome(r)),
{
    let t: Result<Tensor, Error> = env.evaluate(ops, expr);
    assert(evaluated(ops, expr@, env@, outcome(t)));
    match t {
        Err(error) => Err(error),
        Ok(value) => {
            if value.shape.len() != 0 {
                return Err(
                    invalid_settings(
                        "VectorBounds prior-predictive simulation requires iid scalar distributions".to_owned(),
                    ),
                );
            }
            assert(value@.values.len() == 1);
            assert(value@.values[0] == value.values@[0]@);
            check_finite(&value.values[0], label)?;
            Ok(value.values[0].copy())
        },
    }
}

/// Whether scalar parameters can come to that, in order.
pub open spec fn scalars_read<A: Arithmetic>(
    ops: &A,
    env: EnvModel,
    exprs: Seq<ExprModel>,
    labels: Seq<Seq<char>>,
    out: Result<Seq<NumberModel>, Fault>,
) -> bool
    decreases exprs.len(),
{
    if exprs.len() == 0 {
        out == Ok::<Seq<NumberModel>, Fault>(Seq::empty())
    } else {
        ||| out is Err && scalars_read(ops, env, exprs.drop_last(), labels, out)
        ||| exists|before: Seq<NumberModel>, item: Result<NumberModel, Fault>| #[trigger]
            extended(before, item, out) && scalars_read(
                ops,
                env,
                exprs.drop_last(),
                labels,
                Ok(before),
            ) && scalar_read(ops, env, exprs.last(), labels[exprs.len() - 1], item)
    }
}

proof fn lemma_scalars_fail<A: Arithmetic>(
    ops: &A,
    env: EnvModel,
    exprs: Seq<ExprModel>,
    labels: Seq<Seq<char>>,
    n: int,
    fault: Fault,
)
    requires
        0 <= n <= exprs.len(),
        scalars_read(ops, env, exprs.take(n), labels, Err(fault)),
    ensures
        scalars_read(ops, env, exprs, labels, Err(fault)),
    decreases exprs.len(),
{
    if n < exprs.len() {
        assert(exprs.drop_last().take(n) =~= exprs.take(n));
        lemma_scalars_fail(ops, env, exprs.drop_last(), labels, n, fault);
    } else {
        assert(exprs.take(n) =~= exprs);
    }
}

fn read_scalars<A: Arithmetic>(
    ops: &A,
    env: &ForwardEnv,
    exprs: &Vec<&Expr>,
    labels: &Vec<&'static str>,
) -> (r: Result<Vec<Number>, Error>)
    requires
        ops.reliable(),
        env_full(env@),
        labels.len() == exprs.len(),
    ensures
        scalars_read(ops, env@, expr_views(exprs@), names_view(labels@), numbers_outcome(r)),
        r is Ok ==> r->Ok_0@.len() == exprs@.len(),
{
    let ghost all = expr_views(exprs@);
    let ghost names = names_view(labels@);
    let mut out: Vec<Number> = Vec::new();
    assert(number_views(out@) =~= Seq::empty());
    let mut i: usize = 0;
    while i < exprs.len()
        invariant
            i <= exprs.len(),
            ops.reliable(),
            env_full(env@),
            labels.len() == exprs.len(),
            all == expr_views(exprs@),
            names == names_view(labels@),
            out.len() == i,
            scalars_read(ops, env@, all.take(i as int), names, Ok(number_views(out@))),
        decreases exprs.len() - i,
    {
        let ghost done = all.take(i + 1);
        proof {
            assert(done.drop_last() =~= all.take(i as int));
            assert(all[i as int] == exprs@[i as int]@);
            assert(done.last() == exprs@[i as int]@);
            assert(names[i as int] == labels@[i as int]@);
        }
        let ghost before = number_views(out@);
        match scalar_distribution_parameter(ops, env, exprs[i], labels[i]) {
            Err(error) => {
                proof {
                    let failed = Err::<Seq<NumberModel>, Fault>(error@);
                    assert(extended(before, Err(error@), failed));
                    assert(scalars_read(ops, env@, done, names, failed));
                    lemma_scalars_fail(ops, env@, all, names, i + 1, error@);
                }
                return Err(error);
            },
            Ok(number) => {
                let ghost content = number@;
                out.push(number);
                proof {
                    assert(number_views(out@) =~= before.push(content));
                    assert(extended(before, Ok(content), Ok(number_views(out@))));
                    assert(scalars_read(ops, env@, done, names, Ok(number_views(out@))));
                }
            },
        }
        i += 1;
    }
    assert(all.take(i as int) =~= all);
    Ok(out)
}

/// Whether draws in order can come to that.
pub open spec fn kinds_drawn<N: Randomness>(
    rand: &N,
    kinds: Seq<DrawModel>,
    source: N::Source,
    out: Result<(Seq<NumberModel>, N::Source), Fault>,
) -> bool
    decreases kinds.len(),
{
    if kinds.len() == 0 {
        out == Ok::<(Seq<NumberModel>, N::Source), Fault>((Seq::empty(), source))
    } else {
        ||| out is Err && kinds_drawn(rand, kinds.drop_last(), source, out)
        ||| exists|
            before: (Seq<NumberModel>, N::Source),
            item: Result<(NumberModel, N::Source), Fault>,
        | #[trigger]
            number_extended(before, item, out) && kinds_drawn(
                rand,
                kinds.drop_last(),
                source,
                Ok(before),
            ) && rand.draw_gives(before.1, kinds.last(), item)
    }
}

proof fn lemma_kinds_fail<N: Randomness>(
    rand: &N,
    kinds: Seq<DrawModel>,
    source: N::Source,
    n: int,
    fault: Fault,
)
    requires
        0 <= n <= kinds.len(),
        kinds_drawn(rand, kinds.take(n), source, Err(fault)),
    ensures
        kinds_drawn(rand, kinds, source, Err(fault)),
    decreases kinds.len(),
{
    if n < kinds.len() {
        assert(kinds.drop_last().take(n) =~= kinds.take(n));
        lemma_kinds_fail(rand, kinds.drop_last(), source, n, fault);
    } else {
        assert(kinds.take(n) =~= kinds);
    }
}

/// Exponential draws behind bounds.
pub open spec fn shifted_kinds(rate: NumberModel, bounds: Seq<NumberModel>) -> Seq<DrawModel> {
    bounds.map_values(|bound: NumberModel| DrawModel::ShiftedExponential { rate, from: bound })
}

fn draw_shifted<N: Randomness>(rand: &N, rate: &Number, bounds: &Vec<Number>, source: N::Source) -> (r: Result<
    (Vec<Number>, N::Source),
    Error,
>)
    requires
        rand.ready(),
    ensures
        kinds_drawn(
            rand,
            shifted_kinds(rate@, number_views(bounds@)),
            source,
            jointly_drawn(r),
        ),
        r is Ok ==> r->Ok_0.0@.len() == bounds@.len(),
{
    let ghost kinds = shifted_kinds(rate@, number_views(bounds@));
    let ghost begin = source;
    let mut out: Vec<Number> = Vec::new();
    let mut state: N::Source = source;
    assert(number_views(out@) =~= Seq::empty());
    let mut i: usize = 0;
    while i < bounds.len()
        invariant
            i <= bounds.len(),
            rand.ready(),
            kinds == shifted_kinds(rate@, number_views(bounds@)),
            begin == source,
            out.len() == i,
            kinds_drawn(rand, kinds.take(i as int), begin, Ok((number_views(out@), state))),
        decreases bounds.len() - i,
    {
        let ghost done = kinds.take(i + 1);
        let ghost before = (number_views(out@), state);
        let kind: Draw = Draw::ShiftedExponential { rate: rate.copy(), from: bounds[i].copy() };
        proof {
            assert(done.drop_last() =~= kinds.take(i as int));
            assert(done.last() == kind@);
        }
        match rand.draw(state, &kind) {
            Err(error) => {
                proof {
                    let failed = Err::<(Seq<NumberModel>, N::Source), Fault>(error@);
                    assert(number_extended(before, Err(error@), failed));
                    assert(kinds_drawn(rand, done, begin, failed));
                    lemma_kinds_fail(rand, kinds, begin, i + 1, error@);
                }
                return Err(error);
            },
            Ok(found) => {
                let ghost content = (found.0@, found.1);
                let (number, after) = found;
                out.push(number);
                state = after;
                proof {
                    let now = (number_views(out@), state);
                    assert(number_views(out@) =~= before.0.push(content.0));
                    assert(number_extended(before, Ok(content), Ok(now)));
                    assert(kinds_drawn(rand, done, begin, Ok(now)));
                }
            },
        }
        i += 1;
    }
    assert(kinds.take(i as int) =~= kinds);
    Ok((out, state))
}

/// A vector of numbers.
pub open spec fn vector(values: Seq<NumberModel>) -> TensorModel {
    TensorModel { shape: seq![values.len() as usize], values }
}

/// Scalar parameters and bounds as columns of equal length.
pub open spec fn columns(
    scalars: Seq<NumberModel>,
    lower: Option<Seq<NumberModel>>,
    upper: Option<Seq<NumberModel>>,
    length: usize,
) -> Seq<TensorModel> {
    scalars.map_values(|n: NumberModel| vector(repeated(n, length as nat))) + (match lower {
        Some(bound) => seq![vector(bound)],
        None => Seq::empty(),
    }) + (match upper {
        Some(bound) => seq![vector(bound)],
        None => Seq::empty(),
    })
}

/// Whether drawing a vector within bounds can come to that.
pub open spec fn vector_within<N: Randomness>(
    rand: &N,
    d: DistModel,
    scalars: Seq<NumberModel>,
    lower: Option<Seq<NumberModel>>,
    upper: Option<Seq<NumberModel>>,
    length: usize,
    source: N::Source,
    out: Result<(TensorModel, N::Source), Fault>,
) -> bool {
    exists|numbers: Result<(Seq<NumberModel>, N::Source), Fault>| #[trigger]
        cells_drawn(
            rand,
            truncated_family(d, lower is Some, upper is Some),
            columns(scalars, lower, upper, length),
            length as nat,
            source,
            numbers,
        ) && out == shaped(seq![length], numbers)
}

/// Whether drawing a vector behind lower bounds can come to that.
pub open spec fn vector_behind<N: Randomness>(
    rand: &N,
    rate: NumberModel,
    lower: Seq<NumberModel>,
    length: usize,
    source: N::Source,
    out: Result<(TensorModel, N::Source), Fault>,
) -> bool {
    exists|numbers: Result<(Seq<NumberModel>, N::Source), Fault>| #[trigger]
        kinds_drawn(rand, shifted_kinds(rate, lower), source, numbers) && out == shaped(
            seq![length],
            numbers,
        )
}

/// The name of a distribution.
pub open spec fn dist_name(d: DistModel) -> Seq<char> {
    match d {
        DistModel::Normal { .. } => "Normal"@,
        DistModel::HalfNormal { .. } => "HalfNormal"@,
        DistModel::StudentT { .. } => "StudentT"@,
        DistModel::Exponential { .. } => "Exponential"@,
        DistModel::Uniform { .. } => "Uniform"@,
        DistModel::Beta { .. } => "Beta"@,
        DistModel::Bernoulli { .. } => "Bernoulli"@,
        DistModel::Poisson { .. } => "Poisson"@,
        DistModel::Binomial { .. } => "Binomial"@,
        DistModel::BetaBinomial { .. } => "BetaBinomial"@,
        DistModel::NegativeBinomial { .. } => "NegativeBinomial"@,
        DistModel::MultivariateNormal { .. } => "MultivariateNormal"@,
        DistModel::OrderedLogistic { .. } => "OrderedLogistic"@,
        DistModel::Truncated { .. } => "Truncated"@,
    }
}

pub fn distribution_name(dist: &Distribution) -> (r: &'static str)
    ensures
        r@ == dist_name(dist@),
{
    match dist {
        Distribution::Normal { .. } => "Normal",
        Distribution::HalfNormal { .. } => "HalfNormal",
        Distribution::StudentT { .. } => "StudentT",
        Distribution::Exponential { .. } => "Exponential",
        Distribution::Uniform { .. } => "Uniform",
        Distribution::Beta { .. } => "Beta",
        Distribution::Bernoulli { .. } => "Bernoulli",
        Distribution::Poisson { .. } => "Poisson",
        Distribution::Binomial { .. } => "Binomial",
        Distribution::BetaBinomial { .. } => "BetaBinomial",
        Distribution::NegativeBinomial { .. } => "NegativeBinomial",
        Distribution::MultivariateNormal { .. } => "MultivariateNormal",
        Distribution::OrderedLogistic { .. } => "OrderedLogistic",
        Distribution::Truncated { .. } => "Truncated",
    }
}

/// What is wrong with vector bounds of some length.
pub open spec fn length_fault(
    lower: Option<Seq<NumberModel>>,
    upper: Option<Seq<NumberModel>>,
    length: usize,
) -> Option<Fault> {
    if (lower is Some && lower->0.len() != length) || (upper is Some && upper->0.len() != length) {
        Some(
            shape_fault(
                "VectorBounds length must match the PartiallyObserved missing index count"@,
            ),
        )
    } else {
        None
    }
}

/// The failure of a bounded multivariate normal site.
pub open spec fn bounded_vector_fault() -> Fault {
    settings_fault(
        "bounded MVN PartiallyObserved sites are not supported by prior-predictive simulation"@,
    )
}

/// Whether an exponential vector within bounds can come to that, once its rate was read.
pub open spec fn exponential_within<N: Randomness>(
    rand: &N,
    d: DistModel,
    rate: NumberModel,
    lower: Option<Seq<NumberModel>>,
    upper: Option<Seq<NumberModel>>,
    length: usize,
    source: N::Source,
    out: Result<(TensorModel, N::Source), Fault>,
) -> bool {
    if sign_fault(rate, "Exponential rate"@) is Some {
        out == Err::<(TensorModel, N::Source), Fault>(sign_fault(rate, "Exponential rate"@)->0)
    } else if upper is Some {
        vector_within(rand, d, seq![rate], lower, upper, length, source, out)
    } else if lower is Some {
        vector_behind(rand, rate, lower->0, length, source, out)
    } else {
        out == Err::<(TensorModel, N::Source), Fault>(
            shape_fault("resolved VectorBounds require at least one bound side"@),
        )
    }
}

/// The parameters of a bounded distribution, and what messages call them.
pub open spec fn bounded_params(d: DistModel) -> Seq<ExprModel> {
    match d {
        DistModel::Normal { loc, scale } => seq![loc, scale],
        DistModel::Exponential { rate } => seq![rate],
        DistModel::Uniform { low, high } => seq![low, high],
        _ => Seq::empty(),
    }
}

pub open spec fn bounded_labels(d: DistModel) -> Seq<Seq<char>> {
    match d {
        DistModel::Normal { .. } => seq!["Normal loc"@, "Normal scale"@],
        DistModel::Exponential { .. } => seq!["Exponential rate"@],
        DistModel::Uniform { .. } => seq!["Uniform low"@, "Uniform high"@],
        _ => Seq::empty(),
    }
}

/// Whether sampling within vector bounds can come to that.
pub open spec fn restricted_sampled<A: Arithmetic, N: Randomness>(
    ops: &A,
    rand: &N,
    env: EnvModel,
    d: DistModel,
    lower: Option<Seq<NumberModel>>,
    upper: Option<Seq<NumberModel>>,
    length: usize,
    source: N::Source,
    out: Result<(TensorModel, N::Source), Fault>,
) -> bool {
    if length_fault(lower, upper, length) is Some {
        out == Err::<(TensorModel, N::Source), Fault>(length_fault(lower, upper, length)->0)
    } else if d is MultivariateNormal {
        out == Err::<(TensorModel, N::Source), Fault>(bounded_vector_fault())
    } else if !(d is Normal || d is Exponential || d is Uniform) {
        out == Err::<(TensorModel, N::Source), Fault>(
            settings_fault(
                "Unsupported bounded PartiallyObserved prior distribution: "@ + dist_name(d),
            ),
        )
    } else {
        exists|scalars: Result<Seq<NumberModel>, Fault>| #[trigger]
            scalars_read(ops, env, bounded_params(d), bounded_labels(d), scalars) && match scalars {
                Err(fault) => out == Err::<(TensorModel, N::Source), Fault>(fault),
                Ok(list) => if d is Exponential {
                    exponential_within(rand, d, list[0], lower, upper, length, source, out)
                } else {
                    vector_within(rand, d, list, lower, upper, length, source, out)
                },
            }
    }
}

pub fn as_vector(values: Vec<Number>) -> (r: Tensor)
    ensures
        r@ == vector(number_views(values@)),
        r.values@ == values@,
{
    let shape: Vec<usize> = vec![values.len()];
    assert(shape@ =~= seq![values@.len() as usize]);
    assert(number_views(values@).len() == values@.len());
    Tensor { shape, values }
}

fn make_columns(
    scalars: &Vec<Number>,
    lower: Option<&Vec<Number>>,
    upper: Option<&Vec<Number>>,
    length: usize,
) -> (r: Vec<Tensor>)
    requires
        lower is Some ==> lower->0@.len() == length,
        upper is Some ==> upper->0@.len() == length,
    ensures
        views(r@) == columns(
            number_views(scalars@),
            borrowed_numbers(lower),
            borrowed_numbers(upper),
            length,
        ),
        forall|k: int| 0 <= k < r@.len() ==> (#[trigger] r@[k]).values@.len() == length,
{
    let ghost numbers = number_views(scalars@);
    let ghost wide = numbers.map_values(|n: NumberModel| vector(repeated(n, length as nat)));
    let mut out: Vec<Tensor> = Vec::new();
    let mut i: usize = 0;
    assert(views(out@) =~= wide.take(0));
    while i < scalars.len()
        invariant
            i <= scalars.len(),
            numbers == number_views(scalars@),
            wide == numbers.map_values(|n: NumberModel| vector(repeated(n, length as nat))),
            views(out@) == wide.take(i as int),
            forall|k: int| 0 <= k < out@.len() ==> (#[trigger] out@[k]).values@.len() == length,
        decreases scalars.len() - i,
    {
        let ghost before = out@;
        let column: Tensor = as_vector(repeat(&scalars[i], length));
        proof {
            assert(column@.values.len() == column.values@.len());
            assert(column@ == wide[i as int]);
        }
        let ghost content = column@;
        out.push(column);
        proof {
            assert(views(out@) =~= views(before).push(content));
            assert(wide.take(i + 1) =~= wide.take(i as int).push(wide[i as int]));
        }
        i += 1;
    }
    assert(wide.take(i as int) =~= wide);
    if let Some(bound) = lower {
        out.push(as_vector(copy_list(bound)));
    }
    if let Some(bound) = upper {
        out.push(as_vector(copy_list(bound)));
    }
    assert(views(out@) =~= columns(
        numbers,
        borrowed_numbers(lower),
        borrowed_numbers(upper),
        length,
    ));
    out
}

fn copy_list(s: &Vec<Number>) -> (r: Vec<Number>)
    ensures
        number_views(r@) == number_views(s@),
        r@.len() == s@.len(),
{
    let out: Vec<Number> = copy_numbers(s);
    assert(number_views(out@).len() == out@.len());
    assert(number_views(s@).len() == s@.len());
    out
}

/// The view of an optional borrowed list of numbers.
pub open spec fn borrowed_numbers(s: Option<&Vec<Number>>) -> Option<Seq<NumberModel>> {
    match s {
        Some(found) => Some(number_views(found@)),
        None => None,
    }
}

fn draw_within<N: Randomness>(
    rand: &N,
    dist: &Distribution,
    scalars: &Vec<Number>,
    lower: Option<&Vec<Number>>,
    upper: Option<&Vec<Number>>,
    length: usize,
    source: N::Source,
) -> (r: Result<(Tensor, N::Source), Error>)
    requires
        rand.ready(),
        scalars@.len() == row_width(dist@),
        lower is Some ==> lower->0@.len() == length,
        upper is Some ==> upper->0@.len() == length,
    ensures
        vector_within(
            rand,
            dist@,
            number_views(scalars@),
            borrowed_numbers(lower),
            borrowed_numbers(upper),
            length,
            source,
            sample_outcome(r),
        ),
        r is Ok ==> full(r->Ok_0.0@) && r->Ok_0.0@.shape == seq![length],
{
    let ghost low = borrowed_numbers(lower);
    let ghost high = borrowed_numbers(upper);
    let list: Vec<Tensor> = make_columns(scalars, lower, upper, length);
    let cutpoints: Vec<Number> = Vec::new();
    let family: Family = Family {
        dist,
        truncated: true,
        lower: lower.is_some(),
        upper: upper.is_some(),
        cutpoints,
    };
    proof {
        assert(number_views(cutpoints@) =~= Seq::empty());
        assert(family@ =~= truncated_family(dist@, low is Some, high is Some));
        assert(views(list@).len() == list@.len());
    }
    let ghost begin = source;
    let numbers: Result<(Vec<Number>, N::Source), Error> = draw_cells(
        rand,
        &family,
        &list,
        length,
        source,
    );
    proof {
        assert(cells_drawn(
            rand,
            truncated_family(dist@, low is Some, high is Some),
            columns(number_views(scalars@), low, high, length),
            length as nat,
            begin,
            jointly_drawn(numbers),
        ));
    }
    match numbers {
        Err(error) => Err(error),
        Ok((values, after)) => {
            let out: Tensor = as_vector(values);
            proof {
                lemma_vector_full(out@.values, length);
            }
            Ok((out, after))
        },
    }
}

pub proof fn lemma_vector_full(values: Seq<NumberModel>, length: usize)
    requires
        values.len() == length,
    ensures
        full(vector(values)),
        vector(values).shape == seq![length],
{
    let shape = seq![length];
    assert(shape.drop_last() =~= Seq::empty());
    reveal_with_fuel(cells, 2);
    assert(1 * (length as nat) == length as nat) by (nonlinear_arith);
    assert(vector(values).shape =~= shape);
}

/// Samples a vector within bounds.
pub fn sample_vector_bounds_restricted<A: Arithmetic, N: Randomness>(
    ops: &A,
    rand: &N,
    env: &ForwardEnv,
    dist: &Distribution,
    lower: Option<&Vec<Number>>,
    upper: Option<&Vec<Number>>,
    length: usize,
    source: N::Source,
) -> (r: Result<(Tensor, N::Source), Error>)
    requires
        ops.reliable(),
        rand.ready(),
        env_full(env@),
    ensures
        restricted_sampled(
            ops,
            rand,
            env@,
            dist@,
            borrowed_numbers(lower),
            borrowed_numbers(upper),
            length,
            source,
            sample_outcome(r),
        ),
        r is Ok ==> full(r->Ok_0.0@) && r->Ok_0.0@.shape == seq![length],
{
    let ghost low = borrowed_numbers(lower);
    let ghost high = borrowed_numbers(upper);
    let fits_lower: bool = match lower {
        Some(bound) => bound.len() == length,
        None => true,
    };
    let fits_upper: bool = match upper {
        Some(bound) => bound.len() == length,
        None => true,
    };
    if !fits_lower || !fits_upper {
        return Err(
            shape_mismatch(
                "VectorBounds length must match the PartiallyObserved missing index count".to_owned(),
            ),
        );
    }
    let exprs: Vec<&Expr>;
    let labels: Vec<&'static str>;
    match dist {
        Distribution::Normal { loc, scale } => {
            exprs = vec![loc, scale];
            labels = vec!["Normal loc", "Normal scale"];
        },
        Distribution::Exponential { rate } => {
            exprs = vec![rate];
            labels = vec!["Exponential rate"];
        },
        Distribution::Uniform { low, high } => {
            exprs = vec![low, high];
            labels = vec!["Uniform low", "Uniform high"];
        },
        Distribution::MultivariateNormal { .. } => {
            return Err(
                invalid_settings(
                    "bounded MVN PartiallyObserved sites are not supported by prior-predictive simulation".to_owned(),
                ),
            );
        },
        _ => {
            return Err(
                invalid_settings(
                    text::cat2(
                        "Unsupported bounded PartiallyObserved prior distribution: ",
                        distribution_name(dist),
                    ),
                ),
            );
        },
    }
    proof {
        assert(expr_views(exprs@) =~= bounded_params(dist@));
        assert(names_view(labels@) =~= bounded_labels(dist@));
        assert(expr_views(exprs@).len() == exprs@.len());
    }
    let read: Result<Vec<Number>, Error> = read_scalars(ops, env, &exprs, &labels);
    assert(scalars_read(
        ops,
        env@,
        bounded_params(dist@),
        bounded_labels(dist@),
        numbers_outcome(read),
    ));
    let scalars: Vec<Number> = match read {
        Err(error) => {
            return Err(error);
        },
        Ok(scalars) => scalars,
    };
    let ghost list = number_views(scalars@);
    match dist {
        Distribution::Exponential { .. } => {
            assert(list[0] == scalars@[0]@);
            let checked: Result<(), Error> = check_sign(&scalars[0], "Exponential rate");
            if let Err(error) = checked {
                assert(exponential_within(
                    rand,
                    dist@,
                    list[0],
                    low,
                    high,
                    length,
                    source,
                    Err(error@),
                ));
                return Err(error);
            }
            if upper.is_some() {
                let ghost begin = source;
                let r: Result<(Tensor, N::Source), Error> = draw_within(
                    rand,
                    dist,
                    &scalars,
                    lower,
                    upper,
                    length,
                    source,
                );
                proof {
                    assert(list =~= seq![list[0]]);
                    assert(exponential_within(
                        rand,
                        dist@,
                        list[0],
                        low,
                        high,
                        length,
                        begin,
                        sample_outcome(r),
                    ));
                }
                return r;
            }
            match lower {
                Some(bound) => {
                    let ghost begin = source;
                    let numbers: Result<(Vec<Number>, N::Source), Error> = draw_shifted(
                        rand,
                        &scalars[0],
                        bound,
                        source,
                    );
                    proof {
                        assert(kinds_drawn(
                            rand,
                            shifted_kinds(list[0], low->0),
                            begin,
                            jointly_drawn(numbers),
                        ));
                        assert(vector_behind(
                            rand,
                            list[0],
                            low->0,
                            length,
                            begin,
                            shaped(seq![length], jointly_drawn(numbers)),
                        ));
                    }
                    match numbers {
                        Err(error) => Err(error),
                        Ok((values, after)) => {
                            let out: Tensor = as_vector(values);
                            proof {
                                lemma_vector_full(out@.values, length);
                            }
                            Ok((out, after))
                        },
                    }
                },
                None => {
                    let error: Error = shape_mismatch(
                        "resolved VectorBounds require at least one bound side".to_owned(),
                    );
                    assert(exponential_within(
                        rand,
                        dist@,
                        list[0],
                        low,
                        high,
                        length,
                        source,
                        Err(error@),
                    ));
                    Err(error)
                },
            }
        },
        _ => draw_within(rand, dist, &scalars, lower, upper, length, source),
    }
}

} // verus!
