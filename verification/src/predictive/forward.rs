//! Forward evaluation of expressions over bound data and values drawn so far.

use vstd::prelude::*;

use crate::bounds::integers_of;
#[allow(unused_imports)]
use crate::bounds::{integers_outcome, read_integers};
use crate::data::{copy_numbers, copy_shape, DataValue};
#[allow(unused_imports)]
use crate::data::{data_views, filled, number_views, numbers_outcome, DataModel};
use crate::error::{malformed, shape_mismatch, Error};
#[allow(unused_imports)]
use crate::error::{malformed_fault, outcome, shape_fault, Fault};
#[allow(unused_imports)]
use crate::investigation::ledger::views;
#[allow(unused_imports)]
use crate::investigation::manifest::list_outcome;
use crate::ir::{BinOpKind, Expr, IndexSpec, UnaryFn};
#[allow(unused_imports)]
use crate::ir::{expr_view, group_ir_views, index_view, indices_view, named_views, ExprModel, IndexModel};
use crate::model::find_data;
#[allow(unused_imports)]
use crate::model::{all_filled, data_from, data_named};
use crate::number::Number;
#[allow(unused_imports)]
use crate::number::NumberModel;
use crate::numerics::{Arithmetic, IndexAtom};
#[allow(unused_imports)]
use crate::numerics::{full_or_failed, AtomModel};
use crate::tensor::Tensor;
#[allow(unused_imports)]
use crate::tensor::{full, TensorModel};
use crate::text;
#[allow(unused_imports)]
use crate::text::{decimal_text, integer_text, numbers_text};

verus! {

/// What expressions are evaluated over: bound data, and values by their names.
#[derive(Debug)]
pub struct ForwardEnv {
    pub values: Vec<(String, Tensor)>,
    pub data: Vec<(String, DataValue)>,
}

/// The mathematical content of a [`ForwardEnv`].
#[verifier::ext_equal]
pub struct EnvModel {
    pub values: Seq<(Seq<char>, TensorModel)>,
    pub data: Seq<(Seq<char>, DataModel)>,
}

impl View for ForwardEnv {
    type V = EnvModel;

    open spec fn view(&self) -> EnvModel {
        EnvModel { values: named_views(self.values@), data: data_views(self.data@) }
    }
}

/// The value that was given that name last.
pub open spec fn last_named<T>(values: Seq<(Seq<char>, T)>, name: Seq<char>) -> Option<T>
    decreases values.len(),
{
    if values.len() == 0 {
        None
    } else if values.last().0 == name {
        Some(values.last().1)
    } else {
        last_named(values.drop_last(), name)
    }
}

/// Bound data as a tensor.
pub open spec fn data_tensor(value: DataModel) -> TensorModel {
    TensorModel { shape: value.shape, values: value.values }
}

/// The value of a name: bound data first.
pub open spec fn name_value(env: EnvModel, name: Seq<char>) -> Result<TensorModel, Fault> {
    match data_named(env.data, name) {
        Some(value) => Ok(data_tensor(value)),
        None => match last_named(env.values, name) {
            Some(value) => Ok(value),
            None => Err(malformed_fault("reference to unknown value \""@ + name + "\""@)),
        },
    }
}

/// Every value has as many entries as its shape has cells.
pub open spec fn env_full(env: EnvModel) -> bool {
    &&& all_filled(env.data)
    &&& forall|i: int| 0 <= i < env.values.len() ==> full((#[trigger] env.values[i]).1)
}

proof fn lemma_named_full(env: EnvModel, name: Seq<char>)
    requires
        env_full(env),
        name_value(env, name) is Ok,
    ensures
        full(name_value(env, name)->Ok_0),
{
    if data_named(env.data, name) is Some {
        lemma_data_full(env.data, name, 0);
    } else {
        lemma_last_full(env.values, name);
    }
}

proof fn lemma_data_full(data: Seq<(Seq<char>, DataModel)>, name: Seq<char>, i: int)
    requires
        0 <= i,
        all_filled(data),
        data_from(data, name, i) is Some,
    ensures
        filled(data_from(data, name, i)->0),
    decreases data.len() - i,
{
    assert(filled(data[i].1));
    if data[i].0 != name {
        lemma_data_full(data, name, i + 1);
    }
}

proof fn lemma_last_full(values: Seq<(Seq<char>, TensorModel)>, name: Seq<char>)
    requires
        forall|i: int| 0 <= i < values.len() ==> full((#[trigger] values[i]).1),
        last_named(values, name) is Some,
    ensures
        full(last_named(values, name)->0),
    decreases values.len(),
{
    assert(full(values[values.len() - 1].1));
    if values.last().0 != name {
        assert forall|i: int| 0 <= i < values.drop_last().len() implies full(
            (#[trigger] values.drop_last()[i]).1,
        ) by {
            assert(values.drop_last()[i] == values[i]);
        }
        lemma_last_full(values.drop_last(), name);
    }
}

/// A vector of integers, from what an index expression came to.
pub open spec fn positions_of(index: Result<TensorModel, Fault>) -> Result<Seq<i64>, Fault> {
    match index {
        Err(fault) => Err(fault),
        Ok(t) => match read_integers(t.values, "index values must be integers, got "@) {
            Err(fault) => Err(fault),
            Ok(ints) => if t.shape.len() != 1 {
                Err(
                    shape_fault(
                        "scatter index vectors must be rank-1, got shape "@ + numbers_text(t.shape),
                    ),
                )
            } else {
                Ok(ints)
            },
        },
    }
}

/// One part of an index, from what its expression came to.
pub open spec fn index_atom(index: Result<TensorModel, Fault>, complaint: Seq<char>) -> Result<
    Seq<AtomModel>,
    Fault,
> {
    match index {
        Err(fault) => Err(fault),
        Ok(t) => match read_integers(t.values, complaint) {
            Err(fault) => Err(fault),
            Ok(ints) => Ok(
                seq![
                    if t.shape.len() == 0 {
                        AtomModel::Scalar(ints[0])
                    } else {
                        AtomModel::Array { shape: t.shape, values: ints }
                    },
                ],
            ),
        },
    }
}

/// The place that an index stands for, counted from the end where it is negative.
pub open spec fn wrapped_index(index: i64, len: usize) -> Result<int, Fault> {
    let place = if index < 0 {
        index + len
    } else {
        index as int
    };
    if place < 0 || place >= len {
        Err(
            shape_fault(
                "scatter index "@ + integer_text(index as int) + " is out of bounds for length "@
                    + decimal_text(len as nat),
            ),
        )
    } else {
        Ok(place)
    }
}

/// Values put into places one after the other.
pub open spec fn scattered(
    base: Seq<NumberModel>,
    positions: Seq<i64>,
    values: Seq<NumberModel>,
) -> Result<Seq<NumberModel>, Fault>
    decreases positions.len(),
{
    if positions.len() == 0 {
        Ok(base)
    } else {
        match scattered(base, positions.drop_last(), values) {
            Err(fault) => Err(fault),
            Ok(before) => match wrapped_index(positions.last(), base.len() as usize) {
                Err(fault) => Err(fault),
                Ok(place) => Ok(before.update(place, values[positions.len() - 1])),
            },
        }
    }
}

/// The number zero.
pub open spec fn zero() -> NumberModel {
    NumberModel { bits: 0, text: "0.0"@ }
}

/// A vector assembled from observed and missing entries.
pub open spec fn assembled(
    observed_idx: Seq<i64>,
    missing_idx: Seq<i64>,
    observed: TensorModel,
    missing: TensorModel,
) -> Result<TensorModel, Fault> {
    let len = observed_idx.len() + missing_idx.len();
    if observed.values.len() != observed_idx.len() || missing.values.len() != missing_idx.len()
        || len > usize::MAX {
        Err(shape_fault("scatter values must match their index vectors in length"@))
    } else {
        match scattered(Seq::new(len, |i: int| zero()), observed_idx, observed.values) {
            Err(fault) => Err(fault),
            Ok(half) => match scattered(half, missing_idx, missing.values) {
                Err(fault) => Err(fault),
                Ok(values) => Ok(TensorModel { shape: seq![len as usize], values }),
            },
        }
    }
}

/// What a scatter comes to, by what its four parts came to.
pub open spec fn scatter_of(
    observed_idx: Result<TensorModel, Fault>,
    missing_idx: Result<TensorModel, Fault>,
    observed: Result<TensorModel, Fault>,
    missing: Result<TensorModel, Fault>,
) -> Result<TensorModel, Fault> {
    match positions_of(observed_idx) {
        Err(fault) => Err(fault),
        Ok(there) => match positions_of(missing_idx) {
            Err(fault) => Err(fault),
            Ok(gone) => match observed {
                Err(fault) => Err(fault),
                Ok(seen) => match missing {
                    Err(fault) => Err(fault),
                    Ok(unseen) => assembled(there, gone, seen, unseen),
                },
            },
        },
    }
}

pub open spec fn scatter_joined(
    observed_idx: Result<TensorModel, Fault>,
    missing_idx: Result<TensorModel, Fault>,
    observed: Result<TensorModel, Fault>,
    missing: Result<TensorModel, Fault>,
    out: Result<TensorModel, Fault>,
) -> bool {
    out == scatter_of(observed_idx, missing_idx, observed, missing)
}

/// Whether an operation can come to that, by what its operands came to.
pub open spec fn binary_joined<A: Arithmetic>(
    ops: &A,
    op: BinOpKind,
    left: Result<TensorModel, Fault>,
    right: Result<TensorModel, Fault>,
    out: Result<TensorModel, Fault>,
) -> bool {
    match left {
        Err(fault) => out == Err::<TensorModel, Fault>(fault),
        Ok(l) => match right {
            Err(fault) => out == Err::<TensorModel, Fault>(fault),
            Ok(r) => ops.binary_gives(op, l, r, out),
        },
    }
}

/// Whether a function can come to that, by what its operand came to.
pub open spec fn unary_joined<A: Arithmetic>(
    ops: &A,
    function: UnaryFn,
    operand: Result<TensorModel, Fault>,
    out: Result<TensorModel, Fault>,
) -> bool {
    match operand {
        Err(fault) => out == Err::<TensorModel, Fault>(fault),
        Ok(t) => out is Ok && ops.unary_gives(function, t, out->Ok_0),
    }
}

/// Whether a product can come to that, by what its factors came to.
pub open spec fn product_joined<A: Arithmetic>(
    ops: &A,
    matrix: Result<TensorModel, Fault>,
    vector: Result<TensorModel, Fault>,
    out: Result<TensorModel, Fault>,
) -> bool {
    match matrix {
        Err(fault) => out == Err::<TensorModel, Fault>(fault),
        Ok(l) => match vector {
            Err(fault) => out == Err::<TensorModel, Fault>(fault),
            Ok(r) => ops.product_gives(l, r, out),
        },
    }
}

/// Whether picking entries can come to that, by what base and index came to.
pub open spec fn gather_joined<A: Arithmetic>(
    ops: &A,
    base: Result<TensorModel, Fault>,
    atoms: Result<Seq<AtomModel>, Fault>,
    out: Result<TensorModel, Fault>,
) -> bool {
    match base {
        Err(fault) => out == Err::<TensorModel, Fault>(fault),
        Ok(t) => match atoms {
            Err(fault) => out == Err::<TensorModel, Fault>(fault),
            Ok(list) => ops.gather_gives(t, list, out),
        },
    }
}

/// The parts of an index with one more item behind them.
pub open spec fn atoms_joined(
    before: Seq<AtomModel>,
    item: Result<Seq<AtomModel>, Fault>,
    out: Result<Seq<AtomModel>, Fault>,
) -> bool {
    out == (match item {
        Err(fault) => Err::<Seq<AtomModel>, Fault>(fault),
        Ok(more) => Ok(before + more),
    })
}

pub open spec fn atom_read(
    index: Result<TensorModel, Fault>,
    complaint: Seq<char>,
    out: Result<Seq<AtomModel>, Fault>,
) -> bool {
    out == index_atom(index, complaint)
}

/// The failure of an index tuple within an index tuple.
pub open spec fn nested_fault() -> Fault {
    malformed_fault("nested index tuples are not supported"@)
}

/// Whether evaluating an expression can come to that.
pub open spec fn evaluated<A: Arithmetic>(
    ops: &A,
    e: ExprModel,
    env: EnvModel,
    out: Result<TensorModel, Fault>,
) -> bool
    decreases e,
{
    match e {
        ExprModel::Param(name) => out == name_value(env, name),
        ExprModel::Data(name) => out == name_value(env, name),
        ExprModel::Const(value) => out == Ok::<TensorModel, Fault>(
            TensorModel { shape: Seq::empty(), values: seq![value] },
        ),
        ExprModel::Bin { op, left, right } => exists|
            l: Result<TensorModel, Fault>,
            r: Result<TensorModel, Fault>,
        | #[trigger]
            binary_joined(ops, op, l, r, out) && evaluated(ops, *left, env, l) && (l is Ok
                ==> evaluated(ops, *right, env, r)),
        ExprModel::Unary { function, operand } => exists|o: Result<TensorModel, Fault>| #[trigger]
            unary_joined(ops, function, o, out) && evaluated(ops, *operand, env, o),
        ExprModel::MatVec { matrix, vector } => exists|
            l: Result<TensorModel, Fault>,
            r: Result<TensorModel, Fault>,
        | #[trigger]
            product_joined(ops, l, r, out) && evaluated(ops, *matrix, env, l) && (l is Ok
                ==> evaluated(ops, *vector, env, r)),
        ExprModel::Index { base, index } => exists|
            b: Result<TensorModel, Fault>,
            atoms: Result<Seq<AtomModel>, Fault>,
        | #[trigger]
            gather_joined(ops, b, atoms, out) && evaluated(ops, *base, env, b) && (b is Ok
                ==> index_evaluated(ops, index, env, atoms)),
        ExprModel::VectorScatter {
            length,
            observed_idx,
            observed_values,
            missing_idx,
            missing_values,
        } => exists|
            oi: Result<TensorModel, Fault>,
            mi: Result<TensorModel, Fault>,
            ov: Result<TensorModel, Fault>,
            mv: Result<TensorModel, Fault>,
        | #[trigger]
            scatter_joined(oi, mi, ov, mv, out) && evaluated(ops, *observed_idx, env, oi) && (
            positions_of(oi) is Ok ==> evaluated(ops, *missing_idx, env, mi)) && (positions_of(
                oi,
            ) is Ok && positions_of(mi) is Ok ==> evaluated(ops, *observed_values, env, ov)) && (
            positions_of(oi) is Ok && positions_of(mi) is Ok && ov is Ok ==> evaluated(
                ops,
                *missing_values,
                env,
                mv,
            )),
    }
}

/// Whether evaluating an index can come to that.
pub open spec fn index_evaluated<A: Arithmetic>(
    ops: &A,
    index: IndexModel,
    env: EnvModel,
    out: Result<Seq<AtomModel>, Fault>,
) -> bool
    decreases index,
{
    match index {
        IndexModel::Full => out == Ok::<Seq<AtomModel>, Fault>(seq![AtomModel::Full]),
        IndexModel::Scalar(e) => exists|t: Result<TensorModel, Fault>| #[trigger]
            atom_read(t, "index values must be integers, got "@, out) && evaluated(ops, *e, env, t),
        IndexModel::Tuple(items) => indices_evaluated(ops, items, env, out),
    }
}

/// Whether evaluating the items of an index tuple can come to that.
pub open spec fn indices_evaluated<A: Arithmetic>(
    ops: &A,
    items: Seq<IndexModel>,
    env: EnvModel,
    out: Result<Seq<AtomModel>, Fault>,
) -> bool
    decreases items,
{
    if items.len() == 0 {
        out == Ok::<Seq<AtomModel>, Fault>(Seq::empty())
    } else {
        ||| out is Err && indices_evaluated(ops, items.drop_last(), env, out)
        ||| exists|before: Seq<AtomModel>, item: Result<Seq<AtomModel>, Fault>| #[trigger]
            atoms_joined(before, item, out) && indices_evaluated(
                ops,
                items.drop_last(),
                env,
                Ok(before),
            ) && (if items.last() is Tuple {
                item == Err::<Seq<AtomModel>, Fault>(nested_fault())
            } else {
                index_evaluated(ops, items.last(), env, item)
            })
    }
}

proof fn lemma_indices_fail<A: Arithmetic>(
    ops: &A,
    items: Seq<IndexModel>,
    env: EnvModel,
    n: int,
    fault: Fault,
)
    requires
        0 <= n <= items.len(),
        indices_evaluated(ops, items.take(n), env, Err(fault)),
    ensures
        indices_evaluated(ops, items, env, Err(fault)),
    decreases items.len(),
{
    if n < items.len() {
        assert(items.drop_last().take(n) =~= items.take(n));
        lemma_indices_fail(ops, items.drop_last(), env, n, fault);
    } else {
        assert(items.take(n) =~= items);
    }
}

proof fn lemma_scattered_len(base: Seq<NumberModel>, positions: Seq<i64>, values: Seq<NumberModel>)
    requires
        scattered(base, positions, values) is Ok,
    ensures
        scattered(base, positions, values)->Ok_0.len() == base.len(),
    decreases positions.len(),
{
    if positions.len() > 0 {
        lemma_scattered_len(base, positions.drop_last(), values);
    }
}

proof fn lemma_scattered_fail(
    base: Seq<NumberModel>,
    positions: Seq<i64>,
    values: Seq<NumberModel>,
    n: int,
)
    requires
        0 <= n <= positions.len(),
        scattered(base, positions.take(n), values) is Err,
    ensures
        scattered(base, positions, values) == scattered(base, positions.take(n), values),
    decreases positions.len(),
{
    if n < positions.len() {
        assert(positions.drop_last().take(n) =~= positions.take(n));
        lemma_scattered_fail(base, positions.drop_last(), values, n);
    } else {
        assert(positions.take(n) =~= positions);
    }
}

/// The view of a result that carries a place.
pub open spec fn place_outcome(r: Result<usize, Error>) -> Result<int, Fault> {
    match r {
        Ok(place) => Ok(place as int),
        Err(error) => Err(error@),
    }
}

pub fn wrap_scatter_index(index: i64, len: usize) -> (r: Result<usize, Error>)
    ensures
        place_outcome(r) == wrapped_index(index, len),
{
    if index >= 0 {
        if (index as u64) < len as u64 {
            return Ok(index as usize);
        }
    } else {
        let back: u64 = (-(index as i128)) as u64;
        if back <= len as u64 {
            return Ok(len - back as usize);
        }
    }
    let place: String = text::integer(index);
    let length: String = text::decimal(len as u64);
    Err(
        shape_mismatch(
            text::cat4(
                "scatter index ",
                place.as_str(),
                " is out of bounds for length ",
                length.as_str(),
            ),
        ),
    )
}

/// Puts values into places.
pub fn scatter_into(base: Vec<Number>, positions: &Vec<i64>, values: &Vec<Number>) -> (r: Result<
    Vec<Number>,
    Error,
>)
    requires
        values.len() == positions.len(),
    ensures
        numbers_outcome(r) == scattered(number_views(base@), positions@, number_views(values@)),
{
    let ghost start = number_views(base@);
    let ghost entries = number_views(values@);
    let len: usize = base.len();
    let mut out: Vec<Number> = base;
    let mut i: usize = 0;
    while i < positions.len()
        invariant
            i <= positions.len(),
            values.len() == positions.len(),
            start == number_views(base@),
            len == start.len(),
            out.len() == len,
            entries == number_views(values@),
            scattered(start, positions@.take(i as int), entries) == Ok::<Seq<NumberModel>, Fault>(
                number_views(out@),
            ),
        decreases positions.len() - i,
    {
        proof {
            let done = positions@.take(i + 1);
            assert(done.drop_last() =~= positions@.take(i as int));
            assert(done.last() == positions@[i as int]);
        }
        match wrap_scatter_index(positions[i], len) {
            Err(error) => {
                proof {
                    lemma_scattered_fail(start, positions@, entries, i + 1);
                }
                return Err(error);
            },
            Ok(place) => {
                let entry: Number = values[i].copy();
                let ghost before = out@;
                let ghost content = entry@;
                out.set(place, entry);
                assert(number_views(out@) =~= number_views(before).update(place as int, content));
            },
        }
        i += 1;
    }
    assert(positions@.take(i as int) =~= positions@);
    Ok(out)
}

pub(crate) fn zeros(len: usize) -> (r: Vec<Number>)
    ensures
        number_views(r@) == Seq::new(len as nat, |i: int| zero()),
{
    let mut out: Vec<Number> = Vec::new();
    let mut i: usize = 0;
    while i < len
        invariant
            i <= len,
            out.len() == i,
            forall|j: int| 0 <= j < i ==> (#[trigger] out@[j])@ == zero(),
        decreases len - i,
    {
        out.push(Number { bits: 0, text: "0.0".to_owned() });
        i += 1;
    }
    assert(number_views(out@) =~= Seq::new(len as nat, |i: int| zero()));
    out
}

pub(crate) fn assemble(observed_idx: &Vec<i64>, missing_idx: &Vec<i64>, observed: &Tensor, missing: &Tensor) -> (r:
    Result<Tensor, Error>)
    ensures
        outcome(r) == assembled(observed_idx@, missing_idx@, observed@, missing@),
        full_or_failed(outcome(r)),
{
    assert(observed@.values.len() == observed.values.len());
    assert(missing@.values.len() == missing.values.len());
    let total: Option<usize> = observed_idx.len().checked_add(missing_idx.len());
    if observed.values.len() != observed_idx.len() || missing.values.len() != missing_idx.len()
        || total.is_none() {
        return Err(
            shape_mismatch("scatter values must match their index vectors in length".to_owned()),
        );
    }
    let len: usize = total.unwrap();
    let half: Vec<Number> = scatter_into(zeros(len), observed_idx, &observed.values)?;
    let ghost first = number_views(half@);
    let values: Vec<Number> = scatter_into(half, missing_idx, &missing.values)?;
    let shape: Vec<usize> = vec![len];
    proof {
        lemma_scattered_len(
            Seq::new(len as nat, |i: int| zero()),
            observed_idx@,
            observed@.values,
        );
        lemma_scattered_len(first, missing_idx@, missing@.values);
        assert(shape@ =~= seq![len]);
        assert(shape@.drop_last() =~= Seq::empty());
        reveal_with_fuel(crate::artifact::cells, 2);
        assert(1 * (len as nat) == len as nat) by (nonlinear_arith);
    }
    Ok(Tensor { shape, values })
}

proof fn lemma_integers_len(values: Seq<NumberModel>, complaint: Seq<char>)
    requires
        read_integers(values, complaint) is Ok,
    ensures
        read_integers(values, complaint)->Ok_0.len() == values.len(),
    decreases values.len(),
{
    if values.len() > 0 {
        lemma_integers_len(values.drop_last(), complaint);
    }
}

/// The positions that a tensor lists.
pub fn position_list(t: &Tensor) -> (r: Result<Vec<i64>, Error>)
    ensures
        integers_outcome(r) == positions_of(Ok(t@)),
{
    let ints: Vec<i64> = integers_of(&t.values, "index values must be integers, got ")?;
    if t.shape.len() != 1 {
        let shown: String = text::numbers(t.shape.as_slice());
        return Err(
            shape_mismatch(
                text::cat2("scatter index vectors must be rank-1, got shape ", shown.as_str()),
            ),
        );
    }
    Ok(ints)
}

/// The part of an index that a tensor stands for.
pub fn index_part(t: &Tensor, complaint: &str) -> (r: Result<Vec<IndexAtom>, Error>)
    requires
        full(t@),
    ensures
        list_outcome(r) == index_atom(Ok(t@), complaint@),
{
    let ints: Vec<i64> = integers_of(&t.values, complaint)?;
    proof {
        lemma_integers_len(t@.values, complaint@);
    }
    let atom: IndexAtom = if t.shape.len() == 0 {
        IndexAtom::Scalar(ints[0])
    } else {
        IndexAtom::Array { shape: copy_shape(&t.shape), values: ints }
    };
    let ghost content = atom@;
    let out: Vec<IndexAtom> = vec![atom];
    assert(views(out@) =~= seq![content]);
    Ok(out)
}

impl ForwardEnv {
    fn find_value(&self, name: &str) -> (r: Option<&Tensor>)
        ensures
            match r {
                Some(t) => last_named(self@.values, name@) == Some(t@),
                None => last_named(self@.values, name@) is None,
            },
    {
        let ghost all = self@.values;
        let mut i: usize = self.values.len();
        assert(all.take(i as int) =~= all);
        while i > 0
            invariant
                i <= self.values.len(),
                all == self@.values,
                last_named(all, name@) == last_named(all.take(i as int), name@),
            decreases i,
        {
            proof {
                let rest = all.take(i as int);
                assert(rest.drop_last() =~= all.take(i - 1));
                assert(rest.last() == (self.values@[i - 1].0@, self.values@[i - 1].1@));
            }
            if text::same(self.values[i - 1].0.as_str(), name) {
                return Some(&self.values[i - 1].1);
            }
            i -= 1;
        }
        None
    }

    /// Whether a value of that name was given.
    pub fn has_value(&self, name: &str) -> (r: bool)
        ensures
            r == (last_named(self@.values, name@) is Some),
    {
        self.find_value(name).is_some()
    }

    /// Whether data of that name is bound.
    pub fn has_data(&self, name: &str) -> (r: bool)
        ensures
            r == (data_named(self@.data, name@) is Some),
    {
        find_data(&self.data, name).is_some()
    }

    /// Gives a name a value.
    pub fn give(&mut self, name: &str, value: Tensor)
        ensures
            final(self)@ == (EnvModel {
                values: old(self)@.values.push((name@, value@)),
                data: old(self)@.data,
            }),
    {
        let ghost before = self@;
        let ghost content = value@;
        self.values.push((name.to_owned(), value));
        assert(self@.values =~= before.values.push((name@, content)));
    }

    pub(crate) fn name_tensor(&self, name: &str) -> (r: Result<Tensor, Error>)
        requires
            env_full(self@),
        ensures
            outcome(r) == name_value(self@, name@),
            full_or_failed(outcome(r)),
    {
        proof {
            if name_value(self@, name@) is Ok {
                lemma_named_full(self@, name@);
            }
        }
        if let Some(value) = find_data(&self.data, name) {
            return Ok(
                Tensor { shape: copy_shape(&value.shape), values: copy_numbers(&value.values) },
            );
        }
        match self.find_value(name) {
            Some(t) => Ok(t.copy()),
            None => Err(malformed(text::cat3("reference to unknown value \"", name, "\""))),
        }
    }

    /// The value of an expression.
    pub fn evaluate<A: Arithmetic>(&self, ops: &A, expr: &Expr) -> (r: Result<Tensor, Error>)
        requires
            ops.reliable(),
            env_full(self@),
        ensures
            evaluated(ops, expr@, self@, outcome(r)),
            full_or_failed(outcome(r)),
        decreases expr, 1int,
    {
        let ghost env = self@;
        match expr {
            Expr::Param(name) => self.name_tensor(name.as_str()),
            Expr::Data(name) => self.name_tensor(name.as_str()),
            Expr::Const(value) => Ok(Tensor::scalar(value.copy())),
            Expr::Bin { .. } => self.evaluate_bin(ops, expr),
            Expr::Unary { function, operand } => {
                let o: Result<Tensor, Error> = self.evaluate(ops, operand);
                assert(evaluated(ops, expr_view(**operand), env, outcome(o)));
                match o {
                    Err(error) => {
                        assert(unary_joined(ops, *function, Err(error@), Err(error@)));
                        Err(error)
                    },
                    Ok(t) => {
                        let out: Tensor = ops.unary(*function, &t);
                        assert(unary_joined(ops, *function, Ok(t@), Ok(out@)));
                        Ok(out)
                    },
                }
            },
            Expr::MatVec { .. } => self.evaluate_product(ops, expr),
            Expr::Index { .. } => self.evaluate_pick(ops, expr),
            Expr::VectorScatter { .. } => self.evaluate_scatter(ops, expr),
        }
    }

    fn evaluate_bin<A: Arithmetic>(&self, ops: &A, expr: &Expr) -> (r: Result<Tensor, Error>)
        requires
            ops.reliable(),
            env_full(self@),
            expr is Bin,
        ensures
            evaluated(ops, expr@, self@, outcome(r)),
            full_or_failed(outcome(r)),
        decreases expr, 0int,
    {
        let ghost env = self@;
        match expr {
            Expr::Bin { op, left, right } => {
                let l: Result<Tensor, Error> = self.evaluate(ops, left);
                assert(evaluated(ops, expr_view(**left), env, outcome(l)));
                match l {
                    Err(error) => {
                        assert(binary_joined(ops, *op, Err(error@), Err(error@), Err(error@)));
                        Err(error)
                    },
                    Ok(a) => {
                        let r: Result<Tensor, Error> = self.evaluate(ops, right);
                        assert(evaluated(ops, expr_view(**right), env, outcome(r)));
                        match r {
                            Err(error) => {
                                assert(binary_joined(ops, *op, Ok(a@), Err(error@), Err(error@)));
                                Err(error)
                            },
                            Ok(b) => {
                                let out: Result<Tensor, Error> = ops.binary(*op, &a, &b);
                                assert(binary_joined(ops, *op, Ok(a@), Ok(b@), outcome(out)));
                                out
                            },
                        }
                    },
                }
            },
            _ => Err(malformed(String::new())),
        }
    }

    fn evaluate_product<A: Arithmetic>(&self, ops: &A, expr: &Expr) -> (r: Result<Tensor, Error>)
        requires
            ops.reliable(),
            env_full(self@),
            expr is MatVec,
        ensures
            evaluated(ops, expr@, self@, outcome(r)),
            full_or_failed(outcome(r)),
        decreases expr, 0int,
    {
        let ghost env = self@;
        match expr {
            Expr::MatVec { matrix, vector } => {
                let l: Result<Tensor, Error> = self.evaluate(ops, matrix);
                assert(evaluated(ops, expr_view(**matrix), env, outcome(l)));
                match l {
                    Err(error) => {
                        assert(product_joined(ops, Err(error@), Err(error@), Err(error@)));
                        Err(error)
                    },
                    Ok(a) => {
                        let r: Result<Tensor, Error> = self.evaluate(ops, vector);
                        assert(evaluated(ops, expr_view(**vector), env, outcome(r)));
                        match r {
                            Err(error) => {
                                assert(product_joined(ops, Ok(a@), Err(error@), Err(error@)));
                                Err(error)
                            },
                            Ok(b) => {
                                let out: Result<Tensor, Error> = ops.product(&a, &b);
                                assert(product_joined(ops, Ok(a@), Ok(b@), outcome(out)));
                                out
                            },
                        }
                    },
                }
            },
            _ => Err(malformed(String::new())),
        }
    }

    fn evaluate_pick<A: Arithmetic>(&self, ops: &A, expr: &Expr) -> (r: Result<Tensor, Error>)
        requires
            ops.reliable(),
            env_full(self@),
            expr is Index,
        ensures
            evaluated(ops, expr@, self@, outcome(r)),
            full_or_failed(outcome(r)),
        decreases expr, 0int,
    {
        let ghost env = self@;
        match expr {
            Expr::Index { base, index } => {
                let b: Result<Tensor, Error> = self.evaluate(ops, base);
                assert(evaluated(ops, expr_view(**base), env, outcome(b)));
                match b {
                    Err(error) => {
                        assert(gather_joined(ops, Err(error@), Err(error@), Err(error@)));
                        Err(error)
                    },
                    Ok(t) => {
                        let atoms: Result<Vec<IndexAtom>, Error> = self.evaluate_index_spec(
                            ops,
                            index,
                        );
                        assert(index_evaluated(ops, index_view(*index), env, list_outcome(atoms)));
                        match atoms {
                            Err(error) => {
                                assert(gather_joined(ops, Ok(t@), Err(error@), Err(error@)));
                                Err(error)
                            },
                            Ok(list) => {
                                let out: Result<Tensor, Error> = ops.gather(&t, &list);
                                assert(gather_joined(ops, Ok(t@), Ok(views(list@)), outcome(out)));
                                out
                            },
                        }
                    },
                }
            },
            _ => Err(malformed(String::new())),
        }
    }

    fn evaluate_scatter<A: Arithmetic>(&self, ops: &A, expr: &Expr) -> (r: Result<Tensor, Error>)
        requires
            ops.reliable(),
            env_full(self@),
            expr is VectorScatter,
        ensures
            evaluated(ops, expr@, self@, outcome(r)),
            full_or_failed(outcome(r)),
        decreases expr, 0int,
    {
        let ghost env = self@;
        match expr {
            Expr::VectorScatter { length: _, observed_idx, observed_values, missing_idx, missing_values } => {
                let oi: Result<Tensor, Error> = self.evaluate(ops, observed_idx);
                assert(evaluated(ops, expr_view(**observed_idx), env, outcome(oi)));
                let there: Vec<i64>;
                let ghost oi_out = outcome(oi);
                match oi {
                    Err(error) => {
                        assert(scatter_joined(oi_out, oi_out, oi_out, oi_out, Err(error@)));
                        return Err(error);
                    },
                    Ok(t) => match position_list(&t) {
                        Err(error) => {
                            assert(scatter_joined(oi_out, oi_out, oi_out, oi_out, Err(error@)));
                            return Err(error);
                        },
                        Ok(list) => {
                            there = list;
                        },
                    },
                }
                let mi: Result<Tensor, Error> = self.evaluate(ops, missing_idx);
                assert(evaluated(ops, expr_view(**missing_idx), env, outcome(mi)));
                let gone: Vec<i64>;
                let ghost mi_out = outcome(mi);
                match mi {
                    Err(error) => {
                        assert(scatter_joined(oi_out, mi_out, oi_out, oi_out, Err(error@)));
                        return Err(error);
                    },
                    Ok(t) => match position_list(&t) {
                        Err(error) => {
                            assert(scatter_joined(oi_out, mi_out, oi_out, oi_out, Err(error@)));
                            return Err(error);
                        },
                        Ok(list) => {
                            gone = list;
                        },
                    },
                }
                let ov: Result<Tensor, Error> = self.evaluate(ops, observed_values);
                assert(evaluated(ops, expr_view(**observed_values), env, outcome(ov)));
                let ghost ov_out = outcome(ov);
                let seen: Tensor = match ov {
                    Err(error) => {
                        assert(scatter_joined(oi_out, mi_out, ov_out, oi_out, Err(error@)));
                        return Err(error);
                    },
                    Ok(t) => t,
                };
                let mv: Result<Tensor, Error> = self.evaluate(ops, missing_values);
                assert(evaluated(ops, expr_view(**missing_values), env, outcome(mv)));
                let ghost mv_out = outcome(mv);
                let unseen: Tensor = match mv {
                    Err(error) => {
                        assert(scatter_joined(oi_out, mi_out, ov_out, mv_out, Err(error@)));
                        return Err(error);
                    },
                    Ok(t) => t,
                };
                let out: Result<Tensor, Error> = assemble(&there, &gone, &seen, &unseen);
                assert(scatter_joined(oi_out, mi_out, ov_out, mv_out, outcome(out)));
                out
            },
            _ => Err(malformed(String::new())),
        }
    }

    fn evaluate_index_spec<A: Arithmetic>(&self, ops: &A, spec_of: &IndexSpec) -> (r: Result<
        Vec<IndexAtom>,
        Error,
    >)
        requires
            ops.reliable(),
            env_full(self@),
        ensures
            index_evaluated(ops, spec_of@, self@, list_outcome(r)),
        decreases spec_of, 0int,
    {
        broadcast use group_ir_views;

        let ghost env = self@;
        match spec_of {
            IndexSpec::Full => {
                let out: Vec<IndexAtom> = vec![IndexAtom::Full];
                assert(views(out@) =~= seq![AtomModel::Full]);
                Ok(out)
            },
            IndexSpec::Scalar(expr) => {
                let t: Result<Tensor, Error> = self.evaluate(ops, expr);
                assert(evaluated(ops, expr_view(**expr), env, outcome(t)));
                let ghost t_out = outcome(t);
                let out: Result<Vec<IndexAtom>, Error> = match t {
                    Err(error) => Err(error),
                    Ok(value) => index_part(&value, "index values must be integers, got "),
                };
                assert(atom_read(
                    t_out,
                    "index values must be integers, got "@,
                    list_outcome(out),
                ));
                out
            },
            IndexSpec::Tuple(items) => {
                let ghost all = indices_view(items@);
                let mut atoms: Vec<IndexAtom> = Vec::new();
                assert(views(atoms@) =~= Seq::empty());
                let mut i: usize = 0;
                while i < items.len()
                    invariant
                        i <= items.len(),
                        ops.reliable(),
                        env == self@,
                        env_full(env),
                        *spec_of == IndexSpec::Tuple(*items),
                        all == indices_view(items@),
                        indices_evaluated(ops, all.take(i as int), env, Ok(views(atoms@))),
                    decreases items.len() - i,
                {
                    broadcast use group_ir_views;

                    let ghost done = all.take(i + 1);
                    proof {
                        assert(done.drop_last() =~= all.take(i as int));
                        assert(all[i as int] == items@[i as int]@);
                        assert(done.last() == items@[i as int]@);
                        assert(decreases_to!(*spec_of => spec_of->Tuple_0));
                        assert(decreases_to!(spec_of->Tuple_0 => spec_of->Tuple_0@));
                        assert(decreases_to!(items@ => items@[i as int]));
                    }
                    let item: Result<Vec<IndexAtom>, Error> = match &items[i] {
                        IndexSpec::Tuple(_) => Err(
                            malformed("nested index tuples are not supported".to_owned()),
                        ),
                        other => self.evaluate_index_spec(ops, other),
                    };
                    let ghost before = views(atoms@);
                    match item {
                        Err(error) => {
                            proof {
                                let failed = Err::<Seq<AtomModel>, Fault>(error@);
                                assert(atoms_joined(before, failed, failed));
                                assert(indices_evaluated(ops, done, env, failed));
                                lemma_indices_fail(ops, all, env, i + 1, error@);
                            }
                            return Err(error);
                        },
                        Ok(more) => {
                            let ghost added = views(more@);
                            append_atoms(&mut atoms, more);
                            proof {
                                assert(views(atoms@) =~= before + added);
                                assert(atoms_joined(before, Ok(added), Ok(views(atoms@))));
                                assert(indices_evaluated(ops, done, env, Ok(views(atoms@))));
                            }
                        },
                    }
                    i += 1;
                }
                assert(all.take(i as int) =~= all);
                Ok(atoms)
            },
        }
    }
}

pub(crate) fn append_atoms(atoms: &mut Vec<IndexAtom>, more: Vec<IndexAtom>)
    ensures
        final(atoms)@ == old(atoms)@ + more@,
{
    let mut rest: Vec<IndexAtom> = more;
    atoms.append(&mut rest);
}

} // verus!
