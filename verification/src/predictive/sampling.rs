//! Sampling from a distribution whose parameters are expressions: evaluation, broadcasting, and
//! one draw per cell.

use vstd::prelude::*;

#[allow(unused_imports)]
use crate::artifact::cells;
use crate::data::{copy_numbers, copy_shape};
#[allow(unused_imports)]
use crate::data::number_views;
use crate::error::{malformed, nonfinite, shape_mismatch, Error};
#[allow(unused_imports)]
use crate::error::{nonfinite_fault, outcome, shape_fault, Fault};
#[allow(unused_imports)]
use crate::investigation::fields::names_view;
#[allow(unused_imports)]
use crate::investigation::ledger::views;
#[allow(unused_imports)]
use crate::investigation::manifest::list_outcome;
use crate::ir::{distribution_exprs, Distribution, Expr};
#[allow(unused_imports)]
use crate::ir::{dist_params, expr_views, optional_expr, optional_param, DistModel, ExprModel};
#[allow(unused_imports)]
use crate::model::shape_outcome;
use crate::number::{less_than, Number};
#[allow(unused_imports)]
use crate::number::{less, NumberModel};
use crate::numerics::{Arithmetic, Randomness};
#[allow(unused_imports)]
use crate::numerics::{drawn, jointly_drawn};
use crate::tensor::Tensor;
#[allow(unused_imports)]
use crate::tensor::{full, TensorModel};
use crate::text;
#[allow(unused_imports)]
use crate::text::{decimal_text, numbers_text};

use super::cells::Family;
#[allow(unused_imports)]
use super::cells::{base_fault, cell_drawn, fault_of, full_width, row_width, FamilyModel};
use super::forward::ForwardEnv;
use super::vector::draw_vector;
#[allow(unused_imports)]
use super::vector::normal_vector;
#[allow(unused_imports)]
use super::forward::{env_full, evaluated, EnvModel};

verus! {

/// A list with one more item behind it, by what the item came to.
pub open spec fn extended<T>(before: Seq<T>, item: Result<T, Fault>, out: Result<Seq<T>, Fault>) -> bool {
    out == (match item {
        Err(fault) => Err::<Seq<T>, Fault>(fault),
        Ok(found) => Ok(before.push(found)),
    })
}

/// Whether evaluating expressions in order can come to that.
pub open spec fn all_evaluated<A: Arithmetic>(
    ops: &A,
    exprs: Seq<ExprModel>,
    env: EnvModel,
    out: Result<Seq<TensorModel>, Fault>,
) -> bool
    decreases exprs.len(),
{
    if exprs.len() == 0 {
        out == Ok::<Seq<TensorModel>, Fault>(Seq::empty())
    } else {
        ||| out is Err && all_evaluated(ops, exprs.drop_last(), env, out)
        ||| exists|before: Seq<TensorModel>, item: Result<TensorModel, Fault>| #[trigger]
            extended(before, item, out) && all_evaluated(ops, exprs.drop_last(), env, Ok(before))
                && evaluated(ops, exprs.last(), env, item)
    }
}

proof fn lemma_evaluated_fail<A: Arithmetic>(
    ops: &A,
    exprs: Seq<ExprModel>,
    env: EnvModel,
    n: int,
    fault: Fault,
)
    requires
        0 <= n <= exprs.len(),
        all_evaluated(ops, exprs.take(n), env, Err(fault)),
    ensures
        all_evaluated(ops, exprs, env, Err(fault)),
    decreases exprs.len(),
{
    if n < exprs.len() {
        assert(exprs.drop_last().take(n) =~= exprs.take(n));
        lemma_evaluated_fail(ops, exprs.drop_last(), env, n, fault);
    } else {
        assert(exprs.take(n) =~= exprs);
    }
}

/// Whether every tensor is full.
pub open spec fn all_full(list: Seq<TensorModel>) -> bool {
    forall|i: int| 0 <= i < list.len() ==> full(#[trigger] list[i])
}

/// Evaluates expressions in order.
pub fn evaluate_all<A: Arithmetic>(ops: &A, exprs: &Vec<&Expr>, env: &ForwardEnv) -> (r: Result<
    Vec<Tensor>,
    Error,
>)
    requires
        ops.reliable(),
        env_full(env@),
    ensures
        all_evaluated(ops, expr_views(exprs@), env@, list_outcome(r)),
        r is Ok ==> all_full(views(r->Ok_0@)) && r->Ok_0@.len() == exprs@.len(),
{
    let ghost all = expr_views(exprs@);
    let mut out: Vec<Tensor> = Vec::new();
    assert(views(out@) =~= Seq::empty());
    let mut i: usize = 0;
    while i < exprs.len()
        invariant
            i <= exprs.len(),
            ops.reliable(),
            env_full(env@),
            all == expr_views(exprs@),
            out.len() == i,
            all_evaluated(ops, all.take(i as int), env@, Ok(views(out@))),
            all_full(views(out@)),
        decreases exprs.len() - i,
    {
        let ghost done = all.take(i + 1);
        proof {
            assert(done.drop_last() =~= all.take(i as int));
            assert(all[i as int] == exprs@[i as int]@);
            assert(done.last() == exprs@[i as int]@);
        }
        let item: Result<Tensor, Error> = env.evaluate(ops, exprs[i]);
        let ghost before = views(out@);
        match item {
            Err(error) => {
                proof {
                    let failed = Err::<Seq<TensorModel>, Fault>(error@);
                    assert(extended(before, Err(error@), failed));
                    assert(all_evaluated(ops, done, env@, failed));
                    lemma_evaluated_fail(ops, all, env@, i + 1, error@);
                }
                return Err(error);
            },
            Ok(t) => {
                let ghost content = t@;
                out.push(t);
                proof {
                    assert(views(out@) =~= before.push(content));
                    assert(extended(before, Ok(content), Ok(views(out@))));
                    assert(all_evaluated(ops, done, env@, Ok(views(out@))));
                }
            },
        }
        i += 1;
    }
    assert(all.take(i as int) =~= all);
    Ok(out)
}

/// The shapes of tensors.
pub open spec fn shapes_of(list: Seq<TensorModel>) -> Seq<Seq<usize>> {
    list.map_values(|t: TensorModel| t.shape)
}

/// Whether broadcasting shapes onto a shape, one after the other, can come to that.
pub open spec fn shape_joined<A: Arithmetic>(
    ops: &A,
    start: Seq<usize>,
    shapes: Seq<Seq<usize>>,
    out: Result<Seq<usize>, Fault>,
) -> bool
    decreases shapes.len(),
{
    if shapes.len() == 0 {
        out == Ok::<Seq<usize>, Fault>(start)
    } else {
        ||| out is Err && shape_joined(ops, start, shapes.drop_last(), out)
        ||| exists|before: Seq<usize>| #[trigger]
            ops.joint_gives(before, shapes.last(), out) && shape_joined(
                ops,
                start,
                shapes.drop_last(),
                Ok(before),
            )
    }
}

proof fn lemma_joined_fail<A: Arithmetic>(
    ops: &A,
    start: Seq<usize>,
    shapes: Seq<Seq<usize>>,
    n: int,
    fault: Fault,
)
    requires
        0 <= n <= shapes.len(),
        shape_joined(ops, start, shapes.take(n), Err(fault)),
    ensures
        shape_joined(ops, start, shapes, Err(fault)),
    decreases shapes.len(),
{
    if n < shapes.len() {
        assert(shapes.drop_last().take(n) =~= shapes.take(n));
        lemma_joined_fail(ops, start, shapes.drop_last(), n, fault);
    } else {
        assert(shapes.take(n) =~= shapes);
    }
}

/// Broadcasts the shapes of tensors onto a shape.
pub fn join_shapes<A: Arithmetic>(ops: &A, start: Vec<usize>, list: &Vec<Tensor>) -> (r: Result<
    Vec<usize>,
    Error,
>)
    requires
        ops.reliable(),
    ensures
        shape_joined(ops, start@, shapes_of(views(list@)), shape_outcome(r)),
{
    let ghost all = shapes_of(views(list@));
    let ghost begin = start@;
    let mut shape: Vec<usize> = start;
    let mut i: usize = 0;
    while i < list.len()
        invariant
            i <= list.len(),
            ops.reliable(),
            begin == start@,
            all == shapes_of(views(list@)),
            shape_joined(ops, begin, all.take(i as int), Ok(shape@)),
        decreases list.len() - i,
    {
        let ghost done = all.take(i + 1);
        proof {
            assert(done.drop_last() =~= all.take(i as int));
            assert(all[i as int] == list@[i as int].shape@);
            assert(done.last() == list@[i as int].shape@);
        }
        let ghost before = shape@;
        let next: Result<Vec<usize>, Error> = ops.joint(&shape, &list[i].shape);
        proof {
            assert(ops.joint_gives(before, done.last(), shape_outcome(next)));
            assert(shape_joined(ops, begin, done, shape_outcome(next)));
        }
        match next {
            Err(error) => {
                proof {
                    lemma_joined_fail(ops, begin, all, i + 1, error@);
                }
                return Err(error);
            },
            Ok(wider) => {
                shape = wider;
            },
        }
        i += 1;
    }
    assert(all.take(i as int) =~= all);
    Ok(shape)
}

/// Whether the shape of a sampled value can come to that: the wanted one, or else that of its
/// parameters.
pub open spec fn shape_chosen<A: Arithmetic>(
    ops: &A,
    list: Seq<TensorModel>,
    target: Option<Seq<usize>>,
    out: Result<Seq<usize>, Fault>,
) -> bool {
    match target {
        Some(shape) => out == Ok::<Seq<usize>, Fault>(shape),
        None => shape_joined(ops, Seq::empty(), shapes_of(list), out),
    }
}

/// The view of an optional borrowed shape.
pub open spec fn borrowed_shape(shape: Option<&Vec<usize>>) -> Option<Seq<usize>> {
    match shape {
        Some(found) => Some(found@),
        None => None,
    }
}

fn output_shape<A: Arithmetic>(ops: &A, list: &Vec<Tensor>, target: Option<&Vec<usize>>) -> (r: Result<
    Vec<usize>,
    Error,
>)
    requires
        ops.reliable(),
    ensures
        shape_chosen(ops, views(list@), borrowed_shape(target), shape_outcome(r)),
{
    match target {
        Some(shape) => Ok(copy_shape(shape)),
        None => {
            let start: Vec<usize> = Vec::new();
            assert(start@ =~= Seq::empty());
            join_shapes(ops, start, list)
        },
    }
}

/// Whether broadcasting one parameter can come to that.
pub open spec fn param_spread<A: Arithmetic>(
    ops: &A,
    tensor: TensorModel,
    label: Seq<char>,
    shape: Seq<usize>,
    out: Result<TensorModel, Fault>,
) -> bool {
    exists|reply: Result<TensorModel, Fault>| #[trigger]
        ops.spread_gives(tensor, shape, reply) && out == (match reply {
            Ok(found) => Ok::<TensorModel, Fault>(found),
            Err(_) => Err(
                shape_fault(
                    "cannot broadcast "@ + label + " to simulated shape "@ + numbers_text(shape),
                ),
            ),
        })
}

fn broadcast_param<A: Arithmetic>(ops: &A, tensor: &Tensor, label: &str, shape: &Vec<usize>) -> (r: Result<
    Tensor,
    Error,
>)
    requires
        ops.reliable(),
    ensures
        param_spread(ops, tensor@, label@, shape@, outcome(r)),
        r is Ok ==> full(r->Ok_0@) && r->Ok_0@.shape == shape@,
{
    let reply: Result<Tensor, Error> = ops.spread(tensor, shape);
    assert(ops.spread_gives(tensor@, shape@, outcome(reply)));
    match reply {
        Ok(found) => Ok(found),
        Err(_) => {
            let shown: String = text::numbers(shape.as_slice());
            Err(
                shape_mismatch(
                    text::cat4(
                        "cannot broadcast ",
                        label,
                        " to simulated shape ",
                        shown.as_str(),
                    ),
                ),
            )
        },
    }
}

/// Whether broadcasting parameters in order can come to that.
pub open spec fn all_spread<A: Arithmetic>(
    ops: &A,
    list: Seq<TensorModel>,
    labels: Seq<Seq<char>>,
    shape: Seq<usize>,
    out: Result<Seq<TensorModel>, Fault>,
) -> bool
    decreases list.len(),
{
    if list.len() == 0 {
        out == Ok::<Seq<TensorModel>, Fault>(Seq::empty())
    } else {
        ||| out is Err && all_spread(ops, list.drop_last(), labels, shape, out)
        ||| exists|before: Seq<TensorModel>, item: Result<TensorModel, Fault>| #[trigger]
            extended(before, item, out) && all_spread(
                ops,
                list.drop_last(),
                labels,
                shape,
                Ok(before),
            ) && param_spread(ops, list.last(), labels[list.len() - 1], shape, item)
    }
}

proof fn lemma_spread_fail<A: Arithmetic>(
    ops: &A,
    list: Seq<TensorModel>,
    labels: Seq<Seq<char>>,
    shape: Seq<usize>,
    n: int,
    fault: Fault,
)
    requires
        0 <= n <= list.len(),
        all_spread(ops, list.take(n), labels, shape, Err(fault)),
    ensures
        all_spread(ops, list, labels, shape, Err(fault)),
    decreases list.len(),
{
    if n < list.len() {
        assert(list.drop_last().take(n) =~= list.take(n));
        lemma_spread_fail(ops, list.drop_last(), labels, shape, n, fault);
    } else {
        assert(list.take(n) =~= list);
    }
}

/// Whether every tensor is full and has that shape.
pub open spec fn all_shaped(list: Seq<TensorModel>, shape: Seq<usize>) -> bool {
    forall|i: int| 0 <= i < list.len() ==> full(#[trigger] list[i]) && list[i].shape == shape
}

fn broadcast_all<A: Arithmetic>(ops: &A, list: &Vec<Tensor>, labels: &Vec<&'static str>, shape: &Vec<usize>) -> (r:
    Result<Vec<Tensor>, Error>)
    requires
        ops.reliable(),
        labels.len() == list.len(),
    ensures
        all_spread(ops, views(list@), names_view(labels@), shape@, list_outcome(r)),
        r is Ok ==> all_shaped(views(r->Ok_0@), shape@) && r->Ok_0@.len() == list@.len(),
{
    let ghost all = views(list@);
    let ghost names = names_view(labels@);
    let mut out: Vec<Tensor> = Vec::new();
    assert(views(out@) =~= Seq::empty());
    let mut i: usize = 0;
    while i < list.len()
        invariant
            i <= list.len(),
            ops.reliable(),
            labels.len() == list.len(),
            all == views(list@),
            names == names_view(labels@),
            out.len() == i,
            all_spread(ops, all.take(i as int), names, shape@, Ok(views(out@))),
            all_shaped(views(out@), shape@),
        decreases list.len() - i,
    {
        let ghost done = all.take(i + 1);
        proof {
            assert(done.drop_last() =~= all.take(i as int));
            assert(all[i as int] == list@[i as int]@);
            assert(done.last() == list@[i as int]@);
            assert(names[i as int] == labels@[i as int]@);
        }
        let item: Result<Tensor, Error> = broadcast_param(ops, &list[i], labels[i], shape);
        let ghost before = views(out@);
        match item {
            Err(error) => {
                proof {
                    let failed = Err::<Seq<TensorModel>, Fault>(error@);
                    assert(extended(before, Err(error@), failed));
                    assert(all_spread(ops, done, names, shape@, failed));
                    lemma_spread_fail(ops, all, names, shape@, i + 1, error@);
                }
                return Err(error);
            },
            Ok(t) => {
                let ghost content = t@;
                out.push(t);
                proof {
                    assert(views(out@) =~= before.push(content));
                    assert(extended(before, Ok(content), Ok(views(out@))));
                    assert(all_spread(ops, done, names, shape@, Ok(views(out@))));
                }
            },
        }
        i += 1;
    }
    assert(all.take(i as int) =~= all);
    Ok(out)
}

/// The parameters of one cell.
pub open spec fn row_at(list: Seq<TensorModel>, i: int) -> Seq<NumberModel> {
    list.map_values(|t: TensorModel| t.values[i])
}

/// What was drawn, with one more number behind it.
pub open spec fn number_extended<S>(
    before: (Seq<NumberModel>, S),
    item: Result<(NumberModel, S), Fault>,
    out: Result<(Seq<NumberModel>, S), Fault>,
) -> bool {
    out == (match item {
        Err(fault) => Err::<(Seq<NumberModel>, S), Fault>(fault),
        Ok(found) => Ok((before.0.push(found.0), found.1)),
    })
}

/// Whether drawing the first `n` cells in order can come to that.
pub open spec fn cells_drawn<N: Randomness>(
    rand: &N,
    f: FamilyModel,
    list: Seq<TensorModel>,
    n: nat,
    source: N::Source,
    out: Result<(Seq<NumberModel>, N::Source), Fault>,
) -> bool
    decreases n,
{
    if n == 0 {
        out == Ok::<(Seq<NumberModel>, N::Source), Fault>((Seq::empty(), source))
    } else {
        ||| out is Err && cells_drawn(rand, f, list, (n - 1) as nat, source, out)
        ||| exists|
            before: (Seq<NumberModel>, N::Source),
            item: Result<(NumberModel, N::Source), Fault>,
        | #[trigger]
            number_extended(before, item, out) && cells_drawn(
                rand,
                f,
                list,
                (n - 1) as nat,
                source,
                Ok(before),
            ) && cell_drawn(rand, f, row_at(list, n - 1), before.1, item)
    }
}

proof fn lemma_cells_fail<N: Randomness>(
    rand: &N,
    f: FamilyModel,
    list: Seq<TensorModel>,
    m: nat,
    n: nat,
    source: N::Source,
    fault: Fault,
)
    requires
        m <= n,
        cells_drawn(rand, f, list, m, source, Err(fault)),
    ensures
        cells_drawn(rand, f, list, n, source, Err(fault)),
    decreases n - m,
{
    if m < n {
        lemma_cells_fail(rand, f, list, m, (n - 1) as nat, source, fault);
    }
}

fn row_of(list: &Vec<Tensor>, i: usize) -> (r: Vec<Number>)
    requires
        forall|k: int| 0 <= k < list@.len() ==> i < (#[trigger] list@[k]).values@.len(),
    ensures
        number_views(r@) == row_at(views(list@), i as int),
{
    let mut out: Vec<Number> = Vec::new();
    let mut k: usize = 0;
    while k < list.len()
        invariant
            k <= list.len(),
            out.len() == k,
            forall|k: int| 0 <= k < list@.len() ==> i < (#[trigger] list@[k]).values@.len(),
            forall|j: int| 0 <= j < k ==> (#[trigger] out@[j])@ == list@[j].values@[i as int]@,
        decreases list.len() - k,
    {
        assert(i < list@[k as int].values@.len());
        out.push(list[k].values[i].copy());
        k += 1;
    }
    assert(number_views(out@) =~= row_at(views(list@), i as int));
    out
}

pub fn draw_cells<'a, N: Randomness>(
    rand: &N,
    family: &Family<'a>,
    list: &Vec<Tensor>,
    count: usize,
    source: N::Source,
) -> (r: Result<(Vec<Number>, N::Source), Error>)
    requires
        rand.ready(),
        list@.len() == full_width(family@),
        forall|k: int| 0 <= k < list@.len() ==> (#[trigger] list@[k]).values@.len() == count,
    ensures
        cells_drawn(rand, family@, views(list@), count as nat, source, jointly_drawn(r)),
        r is Ok ==> r->Ok_0.0@.len() == count,
{
    let ghost all = views(list@);
    let ghost f = family@;
    let ghost begin = source;
    let mut out: Vec<Number> = Vec::new();
    let mut state: N::Source = source;
    assert(number_views(out@) =~= Seq::empty());
    let mut i: usize = 0;
    while i < count
        invariant
            i <= count,
            rand.ready(),
            all == views(list@),
            f == family@,
            begin == source,
            list@.len() == full_width(f),
            forall|k: int| 0 <= k < list@.len() ==> (#[trigger] list@[k]).values@.len() == count,
            out.len() == i,
            cells_drawn(rand, f, all, i as nat, begin, Ok((number_views(out@), state))),
        decreases count - i,
    {
        let row: Vec<Number> = row_of(list, i);
        assert(row@.len() == full_width(f)) by {
            assert(number_views(row@).len() == row@.len());
        }
        let ghost before = (number_views(out@), state);
        let item: Result<(Number, N::Source), Error> = family.draw_cell(rand, &row, state);
        let ghost next = (i + 1) as nat;
        proof {
            assert(row_at(all, next - 1) == number_views(row@));
        }
        match item {
            Err(error) => {
                proof {
                    let failed = Err::<(Seq<NumberModel>, N::Source), Fault>(error@);
                    assert(number_extended(before, Err(error@), failed));
                    assert(cells_drawn(rand, f, all, next, begin, failed));
                    lemma_cells_fail(rand, f, all, next, count as nat, begin, error@);
                }
                return Err(error);
            },
            Ok(found) => {
                let ghost content = (found.0@, found.1);
                let (number, after) = found;
                out.push(number);
                state = after;
                proof {
                    let now = (number_views(out@), state);
                    assert(number_views(out@) =~= before.0.push(content.0));
                    assert(number_extended(before, Ok(content), Ok(now)));
                    assert(cells_drawn(rand, f, all, next, begin, Ok(now)));
                }
            },
        }
        i += 1;
    }
    Ok((out, state))
}

/// Whether a draw has the shape that was wanted.
pub open spec fn lands(target: Option<Seq<usize>>, t: TensorModel) -> bool {
    target is Some ==> t.shape == target->0
}

/// The view of what sampling came to: the value and the state of the source behind it.
pub open spec fn sample_outcome<S>(r: Result<(Tensor, S), Error>) -> Result<(TensorModel, S), Fault> {
    match r {
        Ok(found) => Ok((found.0@, found.1)),
        Err(error) => Err(error@),
    }
}

/// Drawn numbers put into a shape.
pub open spec fn shaped<S>(shape: Seq<usize>, cells: Result<(Seq<NumberModel>, S), Fault>) -> Result<
    (TensorModel, S),
    Fault,
> {
    match cells {
        Err(fault) => Err(fault),
        Ok(found) => Ok((TensorModel { shape, values: found.0 }, found.1)),
    }
}

/// Whether drawing every cell of a shape can come to that, once the parameters were broadcast.
pub open spec fn grid_drawn<N: Randomness>(
    rand: &N,
    f: FamilyModel,
    list: Seq<TensorModel>,
    shape: Seq<usize>,
    source: N::Source,
    out: Result<(TensorModel, N::Source), Fault>,
) -> bool {
    exists|drawn_cells: Result<(Seq<NumberModel>, N::Source), Fault>| #[trigger]
        cells_drawn(rand, f, list, list[0].values.len(), source, drawn_cells) && out == shaped(
            shape,
            drawn_cells,
        )
}

/// Whether sampling into a shape can come to that: the parameters are broadcast, then every cell
/// is drawn.
pub open spec fn shape_sampled<A: Arithmetic, N: Randomness>(
    ops: &A,
    rand: &N,
    f: FamilyModel,
    list: Seq<TensorModel>,
    labels: Seq<Seq<char>>,
    shape: Seq<usize>,
    source: N::Source,
    out: Result<(TensorModel, N::Source), Fault>,
) -> bool {
    exists|spread: Result<Seq<TensorModel>, Fault>| #[trigger]
        all_spread(ops, list, labels, shape, spread) && match spread {
            Err(fault) => out == Err::<(TensorModel, N::Source), Fault>(fault),
            Ok(wide) => grid_drawn(rand, f, wide, shape, source, out),
        }
}

/// Whether sampling independent cells can come to that, once the parameters were evaluated.
pub open spec fn cells_sampled<A: Arithmetic, N: Randomness>(
    ops: &A,
    rand: &N,
    f: FamilyModel,
    list: Seq<TensorModel>,
    labels: Seq<Seq<char>>,
    target: Option<Seq<usize>>,
    source: N::Source,
    out: Result<(TensorModel, N::Source), Fault>,
) -> bool {
    exists|shape: Result<Seq<usize>, Fault>| #[trigger]
        shape_chosen(ops, list, target, shape) && match shape {
            Err(fault) => out == Err::<(TensorModel, N::Source), Fault>(fault),
            Ok(found) => shape_sampled(ops, rand, f, list, labels, found, source, out),
        }
}

fn sample_cells<'a, A: Arithmetic, N: Randomness>(
    ops: &A,
    rand: &N,
    family: &Family<'a>,
    list: &Vec<Tensor>,
    labels: &Vec<&'static str>,
    target: Option<&Vec<usize>>,
    source: N::Source,
) -> (r: Result<(Tensor, N::Source), Error>)
    requires
        ops.reliable(),
        rand.ready(),
        list@.len() == full_width(family@),
        labels@.len() == list@.len(),
    ensures
        cells_sampled(
            ops,
            rand,
            family@,
            views(list@),
            names_view(labels@),
            borrowed_shape(target),
            source,
            sample_outcome(r),
        ),
        r is Ok ==> full(r->Ok_0.0@) && lands(borrowed_shape(target), r->Ok_0.0@),
{
    let ghost f = family@;
    let ghost all = views(list@);
    let ghost names = names_view(labels@);
    let ghost begin = source;
    let chosen: Result<Vec<usize>, Error> = output_shape(ops, list, target);
    assert(shape_chosen(ops, all, borrowed_shape(target), shape_outcome(chosen)));
    let shape: Vec<usize> = match chosen {
        Err(error) => {
            return Err(error);
        },
        Ok(shape) => shape,
    };
    let spread: Result<Vec<Tensor>, Error> = broadcast_all(ops, list, labels, &shape);
    assert(all_spread(ops, all, names, shape@, list_outcome(spread)));
    let wide: Vec<Tensor> = match spread {
        Err(error) => {
            proof {
                let failed = Err::<(TensorModel, N::Source), Fault>(error@);
                assert(shape_sampled(ops, rand, f, all, names, shape@, begin, failed));
            }
            return Err(error);
        },
        Ok(wide) => wide,
    };
    let ghost grid = views(wide@);
    proof {
        assert(grid.len() == wide@.len());
        assert forall|k: int| 0 <= k < wide@.len() implies (#[trigger] wide@[k]).values@.len()
            == cells(shape@) by {
            assert(grid[k] == wide@[k]@);
            assert(full(grid[k]));
        }
        assert(grid[0] == wide@[0]@);
    }
    let count: usize = wide[0].values.len();
    let numbers: Result<(Vec<Number>, N::Source), Error> = draw_cells(
        rand,
        family,
        &wide,
        count,
        source,
    );
    proof {
        assert(grid[0].values.len() == count);
        assert(cells_drawn(rand, f, grid, grid[0].values.len(), begin, jointly_drawn(numbers)));
        assert(grid_drawn(
            rand,
            f,
            grid,
            shape@,
            begin,
            shaped(shape@, jointly_drawn(numbers)),
        ));
        assert(shape_sampled(
            ops,
            rand,
            f,
            all,
            names,
            shape@,
            begin,
            shaped(shape@, jointly_drawn(numbers)),
        ));
    }
    match numbers {
        Err(error) => Err(error),
        Ok((values, after)) => Ok((Tensor { shape, values }, after)),
    }
}

/// The names of the parameters of a distribution, as messages give them.
pub open spec fn param_labels(d: DistModel) -> Seq<Seq<char>> {
    match d {
        DistModel::Normal { .. } => seq!["Normal loc"@, "Normal scale"@],
        DistModel::HalfNormal { .. } => seq!["HalfNormal scale"@],
        DistModel::StudentT { .. } => seq!["StudentT df"@, "StudentT loc"@, "StudentT scale"@],
        DistModel::Exponential { .. } => seq!["Exponential rate"@],
        DistModel::Uniform { .. } => seq!["Uniform low"@, "Uniform high"@],
        DistModel::Beta { .. } => seq!["Beta alpha"@, "Beta beta"@],
        DistModel::Bernoulli { .. } => seq!["Bernoulli probs"@],
        DistModel::Poisson { .. } => seq!["Poisson rate"@],
        DistModel::Binomial { .. } => seq!["Binomial total_count"@, "Binomial probs"@],
        DistModel::BetaBinomial { .. } => seq![
            "BetaBinomial total_count"@,
            "BetaBinomial alpha"@,
            "BetaBinomial beta"@,
        ],
        DistModel::NegativeBinomial { .. } => seq![
            "NegativeBinomial mean"@,
            "NegativeBinomial overdispersion"@,
        ],
        _ => Seq::empty(),
    }
}

/// The names of the parameters of the base of a truncation.
pub open spec fn truncated_labels(d: DistModel) -> Seq<Seq<char>> {
    match d {
        DistModel::Normal { .. } => seq!["Truncated Normal loc"@, "Truncated Normal scale"@],
        DistModel::Exponential { .. } => seq!["Truncated Exponential rate"@],
        DistModel::Uniform { .. } => seq!["Truncated Uniform low"@, "Truncated Uniform high"@],
        _ => Seq::empty(),
    }
}

/// The names of the bounds of a truncation.
pub open spec fn bound_labels(lower: bool, upper: bool) -> Seq<Seq<char>> {
    (if lower {
        seq!["Truncated lower bound"@]
    } else {
        Seq::empty()
    }) + (if upper {
        seq!["Truncated upper bound"@]
    } else {
        Seq::empty()
    })
}

/// Whether a distribution can be truncated.
pub open spec fn truncatable(d: DistModel) -> bool {
    d is Normal || d is Exponential || d is Uniform
}

/// A family of cells without truncation.
pub open spec fn plain_family(d: DistModel, cutpoints: Seq<NumberModel>) -> FamilyModel {
    FamilyModel { dist: d, truncated: false, lower: false, upper: false, cutpoints }
}

/// Whether sampling a family of independent cells can come to that.
pub open spec fn plain_sampled<A: Arithmetic, N: Randomness>(
    ops: &A,
    rand: &N,
    env: EnvModel,
    d: DistModel,
    target: Option<Seq<usize>>,
    source: N::Source,
    out: Result<(TensorModel, N::Source), Fault>,
) -> bool {
    exists|params: Result<Seq<TensorModel>, Fault>| #[trigger]
        all_evaluated(ops, dist_params(d), env, params) && match params {
            Err(fault) => out == Err::<(TensorModel, N::Source), Fault>(fault),
            Ok(list) => cells_sampled(
                ops,
                rand,
                plain_family(d, Seq::empty()),
                list,
                param_labels(d),
                target,
                source,
                out,
            ),
        }
}

/// A family of truncated cells.
pub open spec fn truncated_family(base: DistModel, lower: bool, upper: bool) -> FamilyModel {
    FamilyModel { dist: base, truncated: true, lower, upper, cutpoints: Seq::empty() }
}

/// Whether sampling a truncation can come to that, once its bounds were evaluated.
pub open spec fn bounded_sampled<A: Arithmetic, N: Randomness>(
    ops: &A,
    rand: &N,
    env: EnvModel,
    base: DistModel,
    lower: bool,
    upper: bool,
    bounds: Seq<TensorModel>,
    target: Option<Seq<usize>>,
    source: N::Source,
    out: Result<(TensorModel, N::Source), Fault>,
) -> bool {
    if !truncatable(base) {
        out == Err::<(TensorModel, N::Source), Fault>(base_fault())
    } else {
        exists|params: Result<Seq<TensorModel>, Fault>| #[trigger]
            all_evaluated(ops, dist_params(base), env, params) && match params {
                Err(fault) => out == Err::<(TensorModel, N::Source), Fault>(fault),
                Ok(list) => cells_sampled(
                    ops,
                    rand,
                    truncated_family(base, lower, upper),
                    list + bounds,
                    truncated_labels(base) + bound_labels(lower, upper),
                    target,
                    source,
                    out,
                ),
            }
    }
}

/// Whether sampling a truncation can come to that: its bounds are evaluated first.
pub open spec fn truncation_sampled<A: Arithmetic, N: Randomness>(
    ops: &A,
    rand: &N,
    env: EnvModel,
    base: DistModel,
    lower: Option<ExprModel>,
    upper: Option<ExprModel>,
    target: Option<Seq<usize>>,
    source: N::Source,
    out: Result<(TensorModel, N::Source), Fault>,
) -> bool {
    exists|bounds: Result<Seq<TensorModel>, Fault>| #[trigger]
        all_evaluated(ops, optional_param(lower) + optional_param(upper), env, bounds)
            && match bounds {
            Err(fault) => out == Err::<(TensorModel, N::Source), Fault>(fault),
            Ok(list) => bounded_sampled(
                ops,
                rand,
                env,
                base,
                lower is Some,
                upper is Some,
                list,
                target,
                source,
                out,
            ),
        }
}

/// Strictly increasing numbers.
pub open spec fn increasing(values: Seq<NumberModel>) -> bool {
    forall|i: int| 0 <= i < values.len() - 1 ==> less(#[trigger] values[i].bits, values[i + 1].bits)
}

/// What is wrong with cutpoints.
pub open spec fn cutpoints_fault(cutpoints: TensorModel) -> Option<Fault> {
    if cutpoints.shape.len() != 1 {
        Some(shape_fault("OrderedLogistic cutpoints must be a vector"@))
    } else if cutpoints.values.len() == 0 {
        Some(shape_fault("OrderedLogistic requires at least one cutpoint"@))
    } else if !increasing(cutpoints.values) {
        Some(nonfinite_fault("OrderedLogistic cutpoints must be strictly increasing"@))
    } else {
        None
    }
}

/// Whether sampling ordered categories can come to that.
pub open spec fn ordered_sampled<A: Arithmetic, N: Randomness>(
    ops: &A,
    rand: &N,
    env: EnvModel,
    d: DistModel,
    target: Option<Seq<usize>>,
    source: N::Source,
    out: Result<(TensorModel, N::Source), Fault>,
) -> bool {
    exists|params: Result<Seq<TensorModel>, Fault>| #[trigger]
        all_evaluated(ops, dist_params(d), env, params) && match params {
            Err(fault) => out == Err::<(TensorModel, N::Source), Fault>(fault),
            Ok(list) => match cutpoints_fault(list[1]) {
                Some(fault) => out == Err::<(TensorModel, N::Source), Fault>(fault),
                None => cells_sampled(
                    ops,
                    rand,
                    plain_family(d, list[1].values),
                    seq![list[0]],
                    seq!["OrderedLogistic eta"@],
                    target,
                    source,
                    out,
                ),
            },
        }
}

/// The shape of a multivariate normal vector.
pub open spec fn event_shape(mean: TensorModel, event_size: usize, target: Option<Seq<usize>>) -> Seq<usize> {
    match target {
        Some(shape) => shape,
        None => if mean.shape.len() == 0 && event_size == 1 {
            seq![1usize]
        } else {
            mean.shape
        },
    }
}

/// Whether drawing a multivariate normal vector can come to that, once its mean was broadcast.
pub open spec fn vector_drawn<N: Randomness>(
    rand: &N,
    mean: TensorModel,
    scale_tril: TensorModel,
    shape: Seq<usize>,
    source: N::Source,
    out: Result<(TensorModel, N::Source), Fault>,
) -> bool {
    if shape.len() != 1 || shape[0] != scale_tril.shape[0] {
        out == Err::<(TensorModel, N::Source), Fault>(
            shape_fault(
                "MultivariateNormal simulation needs event shape ["@ + decimal_text(
                    scale_tril.shape[0] as nat,
                ) + "], got "@ + numbers_text(shape),
            ),
        )
    } else {
        exists|values: Seq<NumberModel>, after: N::Source| #[trigger]
            normal_vector(rand, mean.values, scale_tril.values, source, values, after) && out == Ok::<
                (TensorModel, N::Source),
                Fault,
            >((TensorModel { shape, values }, after))
    }
}

/// Whether sampling a multivariate normal vector can come to that, once mean and scale were
/// evaluated.
pub open spec fn vector_sampled<A: Arithmetic, N: Randomness>(
    ops: &A,
    rand: &N,
    mean: TensorModel,
    scale_tril: TensorModel,
    target: Option<Seq<usize>>,
    source: N::Source,
    out: Result<(TensorModel, N::Source), Fault>,
) -> bool {
    if scale_tril.shape.len() != 2 || scale_tril.shape[0] != scale_tril.shape[1] {
        out == Err::<(TensorModel, N::Source), Fault>(
            shape_fault(
                "MultivariateNormal scale_tril must be a square rank-2 matrix; got shape "@
                    + numbers_text(scale_tril.shape),
            ),
        )
    } else {
        let shape = event_shape(mean, scale_tril.shape[0], target);
        exists|spread: Result<TensorModel, Fault>| #[trigger]
            ops.spread_gives(mean, shape, spread) && match spread {
                Err(fault) => out == Err::<(TensorModel, N::Source), Fault>(fault),
                Ok(wide) => vector_drawn(rand, wide, scale_tril, shape, source, out),
            }
    }
}

/// Whether sampling a multivariate normal vector can come to that.
pub open spec fn correlated_sampled<A: Arithmetic, N: Randomness>(
    ops: &A,
    rand: &N,
    env: EnvModel,
    d: DistModel,
    target: Option<Seq<usize>>,
    source: N::Source,
    out: Result<(TensorModel, N::Source), Fault>,
) -> bool {
    exists|params: Result<Seq<TensorModel>, Fault>| #[trigger]
        all_evaluated(ops, dist_params(d), env, params) && match params {
            Err(fault) => out == Err::<(TensorModel, N::Source), Fault>(fault),
            Ok(list) => vector_sampled(ops, rand, list[0], list[1], target, source, out),
        }
}

/// Whether sampling a distribution can come to that.
pub open spec fn sampled<A: Arithmetic, N: Randomness>(
    ops: &A,
    rand: &N,
    env: EnvModel,
    d: DistModel,
    target: Option<Seq<usize>>,
    source: N::Source,
    out: Result<(TensorModel, N::Source), Fault>,
) -> bool {
    match d {
        DistModel::MultivariateNormal { .. } => correlated_sampled(
            ops,
            rand,
            env,
            d,
            target,
            source,
            out,
        ),
        DistModel::OrderedLogistic { .. } => ordered_sampled(
            ops,
            rand,
            env,
            d,
            target,
            source,
            out,
        ),
        DistModel::Truncated { base, lower, upper } => truncation_sampled(
            ops,
            rand,
            env,
            *base,
            lower,
            upper,
            target,
            source,
            out,
        ),
        _ => plain_sampled(ops, rand, env, d, target, source, out),
    }
}

fn label_list(dist: &Distribution) -> (r: Vec<&'static str>)
    ensures
        names_view(r@) == param_labels(dist@),
{
    let out: Vec<&'static str> = match dist {
        Distribution::Normal { .. } => vec!["Normal loc", "Normal scale"],
        Distribution::HalfNormal { .. } => vec!["HalfNormal scale"],
        Distribution::StudentT { .. } => vec!["StudentT df", "StudentT loc", "StudentT scale"],
        Distribution::Exponential { .. } => vec!["Exponential rate"],
        Distribution::Uniform { .. } => vec!["Uniform low", "Uniform high"],
        Distribution::Beta { .. } => vec!["Beta alpha", "Beta beta"],
        Distribution::Bernoulli { .. } => vec!["Bernoulli probs"],
        Distribution::Poisson { .. } => vec!["Poisson rate"],
        Distribution::Binomial { .. } => vec!["Binomial total_count", "Binomial probs"],
        Distribution::BetaBinomial { .. } => {
            vec!["BetaBinomial total_count", "BetaBinomial alpha", "BetaBinomial beta"]
        },
        Distribution::NegativeBinomial { .. } => {
            vec!["NegativeBinomial mean", "NegativeBinomial overdispersion"]
        },
        _ => Vec::new(),
    };
    assert(names_view(out@) =~= param_labels(dist@));
    out
}

fn sample_plain<A: Arithmetic, N: Randomness>(
    ops: &A,
    rand: &N,
    env: &ForwardEnv,
    dist: &Distribution,
    target: Option<&Vec<usize>>,
    source: N::Source,
) -> (r: Result<(Tensor, N::Source), Error>)
    requires
        ops.reliable(),
        rand.ready(),
        env_full(env@),
        !(dist is MultivariateNormal),
        !(dist is OrderedLogistic),
        !(dist is Truncated),
    ensures
        plain_sampled(
            ops,
            rand,
            env@,
            dist@,
            borrowed_shape(target),
            source,
            sample_outcome(r),
        ),
        r is Ok ==> full(r->Ok_0.0@) && lands(borrowed_shape(target), r->Ok_0.0@),
{
    let exprs: Vec<&Expr> = distribution_exprs(dist);
    assert(expr_views(exprs@).len() == exprs@.len());
    let params: Result<Vec<Tensor>, Error> = evaluate_all(ops, &exprs, env);
    assert(all_evaluated(ops, dist_params(dist@), env@, list_outcome(params)));
    let list: Vec<Tensor> = match params {
        Err(error) => {
            return Err(error);
        },
        Ok(list) => list,
    };
    let cutpoints: Vec<Number> = Vec::new();
    assert(number_views(cutpoints@) =~= Seq::empty());
    let family: Family = Family { dist, truncated: false, lower: false, upper: false, cutpoints };
    let labels: Vec<&'static str> = label_list(dist);
    proof {
        assert(names_view(labels@).len() == labels@.len());
        assert(dist_params(dist@).len() == row_width(dist@));
        assert(param_labels(dist@).len() == row_width(dist@));
        assert(family@ =~= plain_family(dist@, Seq::empty()));
    }
    sample_cells(ops, rand, &family, &list, &labels, target, source)
}

fn truncated_label_list(base: &Distribution, lower: bool, upper: bool) -> (r: Vec<&'static str>)
    ensures
        names_view(r@) == truncated_labels(base@) + bound_labels(lower, upper),
{
    let mut out: Vec<&'static str> = match base {
        Distribution::Normal { .. } => vec!["Truncated Normal loc", "Truncated Normal scale"],
        Distribution::Exponential { .. } => vec!["Truncated Exponential rate"],
        Distribution::Uniform { .. } => vec!["Truncated Uniform low", "Truncated Uniform high"],
        _ => Vec::new(),
    };
    assert(names_view(out@) =~= truncated_labels(base@));
    if lower {
        out.push("Truncated lower bound");
    }
    if upper {
        out.push("Truncated upper bound");
    }
    assert(names_view(out@) =~= truncated_labels(base@) + bound_labels(lower, upper));
    out
}

pub fn bound_exprs<'a>(lower: &'a Option<Expr>, upper: &'a Option<Expr>) -> (r: Vec<&'a Expr>)
    ensures
        expr_views(r@) == optional_param(optional_expr(*lower)) + optional_param(
            optional_expr(*upper),
        ),
{
    let mut out: Vec<&'a Expr> = Vec::new();
    if let Some(bound) = lower {
        out.push(bound);
    }
    if let Some(bound) = upper {
        out.push(bound);
    }
    assert(expr_views(out@) =~= optional_param(optional_expr(*lower)) + optional_param(
        optional_expr(*upper),
    ));
    out
}

fn append_tensors(list: Vec<Tensor>, more: Vec<Tensor>) -> (r: Vec<Tensor>)
    ensures
        r@ == list@ + more@,
{
    let mut out: Vec<Tensor> = list;
    let mut rest: Vec<Tensor> = more;
    out.append(&mut rest);
    out
}

fn sample_bounded<A: Arithmetic, N: Randomness>(
    ops: &A,
    rand: &N,
    env: &ForwardEnv,
    base: &Distribution,
    lower: bool,
    upper: bool,
    bounds: Vec<Tensor>,
    target: Option<&Vec<usize>>,
    source: N::Source,
) -> (r: Result<(Tensor, N::Source), Error>)
    requires
        ops.reliable(),
        rand.ready(),
        env_full(env@),
        bounds@.len() == bound_labels(lower, upper).len(),
    ensures
        bounded_sampled(
            ops,
            rand,
            env@,
            base@,
            lower,
            upper,
            views(bounds@),
            borrowed_shape(target),
            source,
            sample_outcome(r),
        ),
        r is Ok ==> full(r->Ok_0.0@) && lands(borrowed_shape(target), r->Ok_0.0@),
{
    let possible: bool = match base {
        Distribution::Normal { .. } | Distribution::Exponential { .. } | Distribution::Uniform { .. } => true,
        _ => false,
    };
    if !possible {
        return Err(
            malformed(
                "Truncated base must be a distribution with a scalar CDF and inverse CDF (Normal, Uniform, or Exponential)".to_owned(),
            ),
        );
    }
    let exprs: Vec<&Expr> = distribution_exprs(base);
    assert(expr_views(exprs@).len() == exprs@.len());
    let params: Result<Vec<Tensor>, Error> = evaluate_all(ops, &exprs, env);
    assert(all_evaluated(ops, dist_params(base@), env@, list_outcome(params)));
    let list: Vec<Tensor> = match params {
        Err(error) => {
            return Err(error);
        },
        Ok(list) => list,
    };
    let ghost first = views(list@);
    let ghost second = views(bounds@);
    let whole: Vec<Tensor> = append_tensors(list, bounds);
    let cutpoints: Vec<Number> = Vec::new();
    assert(number_views(cutpoints@) =~= Seq::empty());
    let family: Family = Family { dist: base, truncated: true, lower, upper, cutpoints };
    let labels: Vec<&'static str> = truncated_label_list(base, lower, upper);
    proof {
        assert(views(whole@) =~= first + second);
        assert(names_view(labels@).len() == labels@.len());
        assert(dist_params(base@).len() == row_width(base@));
        assert(truncated_labels(base@).len() == row_width(base@));
        assert(family@ =~= truncated_family(base@, lower, upper));
    }
    sample_cells(ops, rand, &family, &whole, &labels, target, source)
}

fn sample_truncation<A: Arithmetic, N: Randomness>(
    ops: &A,
    rand: &N,
    env: &ForwardEnv,
    base: &Distribution,
    lower: &Option<Expr>,
    upper: &Option<Expr>,
    target: Option<&Vec<usize>>,
    source: N::Source,
) -> (r: Result<(Tensor, N::Source), Error>)
    requires
        ops.reliable(),
        rand.ready(),
        env_full(env@),
    ensures
        truncation_sampled(
            ops,
            rand,
            env@,
            base@,
            optional_expr(*lower),
            optional_expr(*upper),
            borrowed_shape(target),
            source,
            sample_outcome(r),
        ),
        r is Ok ==> full(r->Ok_0.0@) && lands(borrowed_shape(target), r->Ok_0.0@),
{
    let exprs: Vec<&Expr> = bound_exprs(lower, upper);
    assert(expr_views(exprs@).len() == exprs@.len());
    let bounds: Result<Vec<Tensor>, Error> = evaluate_all(ops, &exprs, env);
    assert(all_evaluated(
        ops,
        optional_param(optional_expr(*lower)) + optional_param(optional_expr(*upper)),
        env@,
        list_outcome(bounds),
    ));
    match bounds {
        Err(error) => Err(error),
        Ok(list) => sample_bounded(
            ops,
            rand,
            env,
            base,
            lower.is_some(),
            upper.is_some(),
            list,
            target,
            source,
        ),
    }
}

pub fn is_increasing(values: &Vec<Number>) -> (r: bool)
    ensures
        r == increasing(number_views(values@)),
{
    let ghost all = number_views(values@);
    let mut i: usize = 1;
    while i < values.len()
        invariant
            1 <= i,
            i <= values.len() || values.len() == 0,
            all == number_views(values@),
            forall|j: int| 0 <= j < i - 1 ==> less(#[trigger] all[j].bits, all[j + 1].bits),
        decreases values.len() - i,
    {
        assert(all[i - 1] == values@[i - 1]@ && all[i as int] == values@[i as int]@);
        if !less_than(values[i - 1].bits, values[i].bits) {
            assert(!less(all[i - 1].bits, all[i - 1 + 1].bits));
            return false;
        }
        i += 1;
    }
    true
}

fn check_cutpoints(cutpoints: &Tensor) -> (r: Result<(), Error>)
    ensures
        fault_of(r) == cutpoints_fault(cutpoints@),
{
    assert(cutpoints@.values.len() == cutpoints.values.len());
    if cutpoints.shape.len() != 1 {
        return Err(shape_mismatch("OrderedLogistic cutpoints must be a vector".to_owned()));
    }
    if cutpoints.values.len() == 0 {
        return Err(shape_mismatch("OrderedLogistic requires at least one cutpoint".to_owned()));
    }
    if !is_increasing(&cutpoints.values) {
        return Err(
            nonfinite("OrderedLogistic cutpoints must be strictly increasing".to_owned()),
        );
    }
    Ok(())
}

fn sample_ordered<A: Arithmetic, N: Randomness>(
    ops: &A,
    rand: &N,
    env: &ForwardEnv,
    dist: &Distribution,
    target: Option<&Vec<usize>>,
    source: N::Source,
) -> (r: Result<(Tensor, N::Source), Error>)
    requires
        ops.reliable(),
        rand.ready(),
        env_full(env@),
        dist is OrderedLogistic,
    ensures
        ordered_sampled(
            ops,
            rand,
            env@,
            dist@,
            borrowed_shape(target),
            source,
            sample_outcome(r),
        ),
        r is Ok ==> full(r->Ok_0.0@) && lands(borrowed_shape(target), r->Ok_0.0@),
{
    let exprs: Vec<&Expr> = distribution_exprs(dist);
    assert(expr_views(exprs@).len() == exprs@.len());
    let params: Result<Vec<Tensor>, Error> = evaluate_all(ops, &exprs, env);
    assert(all_evaluated(ops, dist_params(dist@), env@, list_outcome(params)));
    let list: Vec<Tensor> = match params {
        Err(error) => {
            return Err(error);
        },
        Ok(list) => list,
    };
    let ghost all = views(list@);
    assert(list@.len() == 2);
    assert(all[0] == list@[0]@ && all[1] == list@[1]@);
    check_cutpoints(&list[1])?;
    let family: Family = Family {
        dist,
        truncated: false,
        lower: false,
        upper: false,
        cutpoints: copy_numbers(&list[1].values),
    };
    let eta: Vec<Tensor> = vec![list[0].copy()];
    let labels: Vec<&'static str> = vec!["OrderedLogistic eta"];
    proof {
        assert(views(eta@) =~= seq![all[0]]);
        assert(names_view(labels@) =~= seq!["OrderedLogistic eta"@]);
        assert(family@ =~= plain_family(dist@, all[1].values));
    }
    sample_cells(ops, rand, &family, &eta, &labels, target, source)
}

fn shape_of_event(mean: &Tensor, event_size: usize, target: Option<&Vec<usize>>) -> (r: Vec<usize>)
    ensures
        r@ == event_shape(mean@, event_size, borrowed_shape(target)),
{
    match target {
        Some(shape) => copy_shape(shape),
        None => {
            if mean.shape.len() == 0 && event_size == 1 {
                let out: Vec<usize> = vec![1usize];
                assert(out@ =~= seq![1usize]);
                out
            } else {
                copy_shape(&mean.shape)
            }
        },
    }
}

fn sample_vector<A: Arithmetic, N: Randomness>(
    ops: &A,
    rand: &N,
    mean: &Tensor,
    scale_tril: &Tensor,
    target: Option<&Vec<usize>>,
    source: N::Source,
) -> (r: Result<(Tensor, N::Source), Error>)
    requires
        ops.reliable(),
        rand.ready(),
        full(scale_tril@),
    ensures
        vector_sampled(
            ops,
            rand,
            mean@,
            scale_tril@,
            borrowed_shape(target),
            source,
            sample_outcome(r),
        ),
        r is Ok ==> full(r->Ok_0.0@) && lands(borrowed_shape(target), r->Ok_0.0@),
{
    if scale_tril.shape.len() != 2 || scale_tril.shape[0] != scale_tril.shape[1] {
        let shown: String = text::numbers(scale_tril.shape.as_slice());
        return Err(
            shape_mismatch(
                text::cat2(
                    "MultivariateNormal scale_tril must be a square rank-2 matrix; got shape ",
                    shown.as_str(),
                ),
            ),
        );
    }
    let event_size: usize = scale_tril.shape[0];
    let shape: Vec<usize> = shape_of_event(mean, event_size, target);
    let spread: Result<Tensor, Error> = ops.spread(mean, &shape);
    assert(ops.spread_gives(
        mean@,
        event_shape(mean@, scale_tril@.shape[0], borrowed_shape(target)),
        outcome(spread),
    ));
    let wide: Tensor = match spread {
        Err(error) => {
            return Err(error);
        },
        Ok(wide) => wide,
    };
    if shape.len() != 1 || shape[0] != event_size {
        let size: String = text::decimal(event_size as u64);
        let shown: String = text::numbers(shape.as_slice());
        let error: Error = shape_mismatch(
            text::cat4(
                "MultivariateNormal simulation needs event shape [",
                size.as_str(),
                "], got ",
                shown.as_str(),
            ),
        );
        assert(vector_drawn(rand, wide@, scale_tril@, shape@, source, Err(error@)));
        return Err(error);
    }
    let ghost begin = source;
    proof {
        lemma_square_cells(wide@, scale_tril@, event_size);
    }
    let (values, after) = draw_vector(rand, &wide, scale_tril, source);
    assert(normal_vector(
        rand,
        wide@.values,
        scale_tril@.values,
        begin,
        number_views(values@),
        after,
    ));
    let out: Tensor = Tensor { shape, values };
    assert(vector_drawn(rand, wide@, scale_tril@, out.shape@, begin, Ok((out@, after))));
    Ok((out, after))
}

/// A vector of that length has as many entries, and a square matrix as many times as many.
proof fn lemma_square_cells(mean: TensorModel, scale: TensorModel, size: usize)
    requires
        full(mean),
        full(scale),
        mean.shape.len() == 1,
        mean.shape[0] == size,
        scale.shape.len() == 2,
        scale.shape[0] == size,
        scale.shape[1] == size,
    ensures
        mean.values.len() == size,
        scale.values.len() == size * size,
{
    reveal_with_fuel(cells, 4);
    let n = size as nat;
    assert(1 * n == n) by (nonlinear_arith);
    assert(scale.shape.drop_last().last() == size);
}

/// Samples a distribution into a wanted shape, or else into the shape of its parameters.
pub fn sample_distribution<A: Arithmetic, N: Randomness>(
    ops: &A,
    rand: &N,
    env: &ForwardEnv,
    dist: &Distribution,
    target: Option<&Vec<usize>>,
    source: N::Source,
) -> (r: Result<(Tensor, N::Source), Error>)
    requires
        ops.reliable(),
        rand.ready(),
        env_full(env@),
    ensures
        sampled(ops, rand, env@, dist@, borrowed_shape(target), source, sample_outcome(r)),
        r is Ok ==> full(r->Ok_0.0@) && lands(borrowed_shape(target), r->Ok_0.0@),
{
    match dist {
        Distribution::MultivariateNormal { .. } => {
            let exprs: Vec<&Expr> = distribution_exprs(dist);
            assert(expr_views(exprs@).len() == exprs@.len());
            let params: Result<Vec<Tensor>, Error> = evaluate_all(ops, &exprs, env);
            assert(all_evaluated(ops, dist_params(dist@), env@, list_outcome(params)));
            match params {
                Err(error) => Err(error),
                Ok(list) => {
                    assert(list@.len() == 2);
                    assert(views(list@)[0] == list@[0]@ && views(list@)[1] == list@[1]@);
                    assert(full(views(list@)[1]));
                    sample_vector(ops, rand, &list[0], &list[1], target, source)
                },
            }
        },
        Distribution::OrderedLogistic { .. } => sample_ordered(
            ops,
            rand,
            env,
            dist,
            target,
            source,
        ),
        Distribution::Truncated { base, lower, upper } => sample_truncation(
            ops,
            rand,
            env,
            base,
            lower,
            upper,
            target,
            source,
        ),
        _ => sample_plain(ops, rand, env, dist, target, source),
    }
}

} // verus!
