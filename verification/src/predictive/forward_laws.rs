//! What expressions mean where they are evaluated.

use vstd::prelude::*;

#[allow(unused_imports)]
use crate::bounds::read_integers;
#[allow(unused_imports)]
use crate::constants::{
    atom_constant, atoms_extended, binary_constant, certain, data_evaluated, data_index_evaluated,
    data_indices_evaluated, gather_constant, known, product_constant, unary_constant, Constant, ConstantAtoms,
};
#[allow(unused_imports)]
use crate::data::DataModel;
#[allow(unused_imports)]
use crate::error::Fault;
#[allow(unused_imports)]
use crate::ir::{BinOpKind, ExprModel, IndexModel, UnaryFn};
#[allow(unused_imports)]
use crate::logp::evaluate::{
    guarded, index_settled, indices_settled, moves, scatter_settled, settled,
};
#[allow(unused_imports)]
use crate::meaning::{logistic, Reals};
#[allow(unused_imports)]
use crate::model::{data_from, data_named};
#[allow(unused_imports)]
use crate::number::NumberModel;
#[allow(unused_imports)]
use crate::numerics::{Arithmetic, AtomModel};
#[allow(unused_imports)]
use crate::tensor::TensorModel;

#[allow(unused_imports)]
use super::forward::{
    assembled, atom_read, atoms_joined, binary_joined, evaluated, gather_joined, index_evaluated, indices_evaluated,
    name_value, positions_of, product_joined, scatter_joined, scattered, unary_joined, EnvModel,
};

verus! {

/// A single number.
pub open spec fn single(t: TensorModel) -> bool {
    t.shape == Seq::<usize>::empty() && t.values.len() == 1
}

/// Whether an expression is made of numbers, names, operations and functions alone.
pub open spec fn arithmetical(e: ExprModel) -> bool
    decreases e,
{
    match e {
        ExprModel::Param(_) => true,
        ExprModel::Data(_) => true,
        ExprModel::Const(_) => true,
        ExprModel::Bin { op, left, right } => arithmetical(*left) && arithmetical(*right),
        ExprModel::Unary { function, operand } => arithmetical(*operand),
        _ => false,
    }
}

/// An operation over the reals.
pub open spec fn operated(op: BinOpKind, x: real, y: real) -> real {
    match op {
        BinOpKind::Add => x + y,
        BinOpKind::Sub => x - y,
        BinOpKind::Mul => x * y,
        BinOpKind::Div => x / y,
    }
}

/// A function over the reals.
pub open spec fn applied(f: Reals, function: UnaryFn, x: real) -> real {
    match function {
        UnaryFn::Exp => (f.exp)(x),
        UnaryFn::Neg => -x,
        UnaryFn::Sigmoid => logistic(f, x),
    }
}

/// What an arithmetical expression stands for, with a real for every name.
pub open spec fn stands_for(
    f: Reals,
    val: spec_fn(NumberModel) -> real,
    names: spec_fn(Seq<char>) -> real,
    e: ExprModel,
) -> real
    decreases e,
{
    match e {
        ExprModel::Param(name) => names(name),
        ExprModel::Data(name) => names(name),
        ExprModel::Const(value) => val(value),
        ExprModel::Bin { op, left, right } => operated(
            op,
            stands_for(f, val, names, *left),
            stands_for(f, val, names, *right),
        ),
        ExprModel::Unary { function, operand } => applied(
            f,
            function,
            stands_for(f, val, names, *operand),
        ),
        _ => 0real,
    }
}

/// Whether a reading of numbers as reals finds the operations on single numbers exact.
pub open spec fn computes<A: Arithmetic>(
    ops: &A,
    f: Reals,
    val: spec_fn(NumberModel) -> real,
) -> bool {
    &&& forall|op: BinOpKind, a: TensorModel, b: TensorModel, out: TensorModel| #[trigger]
        ops.binary_gives(op, a, b, Ok(out)) && single(a) && single(b) ==> single(out) && val(
            out.values[0],
        ) == operated(op, val(a.values[0]), val(b.values[0]))
    &&& forall|function: UnaryFn, a: TensorModel, out: TensorModel| #[trigger]
        ops.unary_gives(function, a, out) && single(a) ==> single(out) && val(out.values[0])
            == applied(f, function, val(a.values[0]))
}

/// Whether every name has a single number as its value, and these reals are theirs.
pub open spec fn names_read(
    env: EnvModel,
    val: spec_fn(NumberModel) -> real,
    names: spec_fn(Seq<char>) -> real,
) -> bool {
    forall|name: Seq<char>| #[trigger]
        name_value(env, name) matches Ok(t) ==> single(t) && names(name) == val(t.values[0])
}

/// An arithmetical expression comes to what it stands for: its operations on what its operands come
/// to, in their order, wherever operations on single numbers are exact.
pub proof fn law_expression_comes_to_what_it_stands_for<A: Arithmetic>(
    ops: &A,
    f: Reals,
    val: spec_fn(NumberModel) -> real,
    names: spec_fn(Seq<char>) -> real,
    e: ExprModel,
    env: EnvModel,
    out: TensorModel,
)
    requires
        arithmetical(e),
        computes(ops, f, val),
        names_read(env, val, names),
        evaluated(ops, e, env, Ok(out)) || settled(ops, e, env, Ok(out)),
    ensures
        single(out),
        val(out.values[0]) == stands_for(f, val, names, e),
    decreases e,
{
    law_density_and_simulation_read_alike(ops, e, env, out);
    let done = Ok::<TensorModel, Fault>(out);
    match e {
        ExprModel::Param(name) => {
            assert(name_value(env, name) == done);
        },
        ExprModel::Data(name) => {
            assert(name_value(env, name) == done);
        },
        ExprModel::Bin { op, left, right } => {
            let (l, r) = choose|l: Result<TensorModel, Fault>, r: Result<TensorModel, Fault>|
                #[trigger] binary_joined(ops, op, l, r, done) && evaluated(ops, *left, env, l) && (l
                    is Ok ==> evaluated(ops, *right, env, r));
            law_expression_comes_to_what_it_stands_for(ops, f, val, names, *left, env, l->Ok_0);
            law_expression_comes_to_what_it_stands_for(ops, f, val, names, *right, env, r->Ok_0);
            assert(ops.binary_gives(op, l->Ok_0, r->Ok_0, Ok(out)));
        },
        ExprModel::Unary { function, operand } => {
            let o = choose|o: Result<TensorModel, Fault>| #[trigger]
                unary_joined(ops, function, o, done) && evaluated(ops, *operand, env, o);
            law_expression_comes_to_what_it_stands_for(ops, f, val, names, *operand, env, o->Ok_0);
            assert(ops.unary_gives(function, o->Ok_0, out));
        },
        _ => {},
    }
}

/// What an expression comes to within a log density, it comes to in a simulation with the same
/// values: both read expressions alike.
pub proof fn law_density_and_simulation_read_alike<A: Arithmetic>(
    ops: &A,
    e: ExprModel,
    env: EnvModel,
    out: TensorModel,
)
    ensures
        settled(ops, e, env, Ok(out)) ==> evaluated(ops, e, env, Ok(out)),
    decreases e,
{
    let done = Ok::<TensorModel, Fault>(out);
    if settled(ops, e, env, done) {
        match e {
            ExprModel::Bin { op, left, right } => {
                let (l, r) = choose|l: Result<TensorModel, Fault>, r: Result<TensorModel, Fault>|
                    #[trigger] binary_joined(ops, op, l, r, done) && settled(ops, *left, env, l)
                        && (l is Ok ==> settled(ops, *right, env, r));
                law_density_and_simulation_read_alike(ops, *left, env, l->Ok_0);
                law_density_and_simulation_read_alike(ops, *right, env, r->Ok_0);
                assert(evaluated(ops, *left, env, l) && evaluated(ops, *right, env, r));
            },
            ExprModel::Unary { function, operand } => {
                let o = choose|o: Result<TensorModel, Fault>| #[trigger]
                    unary_joined(ops, function, o, done) && settled(ops, *operand, env, o);
                law_density_and_simulation_read_alike(ops, *operand, env, o->Ok_0);
                assert(evaluated(ops, *operand, env, o));
            },
            ExprModel::MatVec { matrix, vector } => {
                let (l, r) = choose|l: Result<TensorModel, Fault>, r: Result<TensorModel, Fault>|
                    #[trigger] product_joined(ops, l, r, done) && settled(ops, *matrix, env, l) && (l
                        is Ok ==> settled(ops, *vector, env, r));
                law_density_and_simulation_read_alike(ops, *matrix, env, l->Ok_0);
                law_density_and_simulation_read_alike(ops, *vector, env, r->Ok_0);
                assert(evaluated(ops, *matrix, env, l) && evaluated(ops, *vector, env, r));
            },
            ExprModel::Index { base, index } => {
                let (b, atoms) = choose|
                    b: Result<TensorModel, Fault>,
                    atoms: Result<Seq<AtomModel>, Fault>,
                | #[trigger]
                    gather_joined(ops, b, atoms, done) && settled(ops, *base, env, b) && (b is Ok
                        ==> index_settled(ops, index, env, atoms));
                law_density_and_simulation_read_alike(ops, *base, env, b->Ok_0);
                lemma_index_read_alike(ops, index, env, atoms->Ok_0);
                assert(evaluated(ops, *base, env, b) && index_evaluated(ops, index, env, atoms));
            },
            ExprModel::VectorScatter {
                length,
                observed_idx,
                observed_values,
                missing_idx,
                missing_values,
            } => {
                let (oi, mi, ov, mv) = choose|
                    oi: Result<TensorModel, Fault>,
                    mi: Result<TensorModel, Fault>,
                    ov: Result<TensorModel, Fault>,
                    mv: Result<TensorModel, Fault>,
                | #[trigger]
                    scatter_settled(
                        guarded(env, *observed_idx, oi),
                        guarded(env, *missing_idx, mi),
                        ov,
                        mv,
                        done,
                    ) && settled(ops, *observed_idx, env, oi) && (positions_of(
                        guarded(env, *observed_idx, oi),
                    ) is Ok ==> settled(ops, *missing_idx, env, mi)) && (positions_of(
                        guarded(env, *observed_idx, oi),
                    ) is Ok && positions_of(guarded(env, *missing_idx, mi)) is Ok ==> settled(
                        ops,
                        *observed_values,
                        env,
                        ov,
                    )) && (positions_of(guarded(env, *observed_idx, oi)) is Ok && positions_of(
                        guarded(env, *missing_idx, mi),
                    ) is Ok && ov is Ok ==> settled(ops, *missing_values, env, mv));
                law_density_and_simulation_read_alike(ops, *observed_idx, env, oi->Ok_0);
                law_density_and_simulation_read_alike(ops, *missing_idx, env, mi->Ok_0);
                law_density_and_simulation_read_alike(ops, *observed_values, env, ov->Ok_0);
                law_density_and_simulation_read_alike(ops, *missing_values, env, mv->Ok_0);
                assert(guarded(env, *observed_idx, oi) == oi && guarded(env, *missing_idx, mi) == mi);
                assert(scatter_joined(oi, mi, ov, mv, done));
                assert(evaluated(ops, *observed_idx, env, oi));
                assert(evaluated(ops, *missing_idx, env, mi));
                assert(evaluated(ops, *observed_values, env, ov));
                assert(evaluated(ops, *missing_values, env, mv));
            },
            _ => {},
        }
    }
}

proof fn lemma_index_read_alike<A: Arithmetic>(
    ops: &A,
    index: IndexModel,
    env: EnvModel,
    out: Seq<AtomModel>,
)
    ensures
        index_settled(ops, index, env, Ok(out)) ==> index_evaluated(ops, index, env, Ok(out)),
    decreases index,
{
    let done = Ok::<Seq<AtomModel>, Fault>(out);
    if index_settled(ops, index, env, done) {
        match index {
            IndexModel::Scalar(e) => {
                let t = choose|t: Result<TensorModel, Fault>| #[trigger]
                    atom_read(guarded(env, *e, t), "index values must be integers, got "@, done)
                        && settled(ops, *e, env, t);
                law_density_and_simulation_read_alike(ops, *e, env, t->Ok_0);
                assert(guarded(env, *e, t) == t);
                assert(evaluated(ops, *e, env, t));
            },
            IndexModel::Tuple(items) => {
                lemma_indices_read_alike(ops, items, env, out);
            },
            _ => {},
        }
    }
}

proof fn lemma_indices_read_alike<A: Arithmetic>(
    ops: &A,
    items: Seq<IndexModel>,
    env: EnvModel,
    out: Seq<AtomModel>,
)
    ensures
        indices_settled(ops, items, env, Ok(out)) ==> indices_evaluated(ops, items, env, Ok(out)),
    decreases items,
{
    let done = Ok::<Seq<AtomModel>, Fault>(out);
    if indices_settled(ops, items, env, done) && items.len() > 0 {
        let (before, item) = choose|before: Seq<AtomModel>, item: Result<Seq<AtomModel>, Fault>|
            #[trigger] atoms_joined(before, item, done) && indices_settled(
                ops,
                items.drop_last(),
                env,
                Ok(before),
            ) && (if items.last() is Tuple {
                item == Err::<Seq<AtomModel>, Fault>(super::forward::nested_fault())
            } else {
                index_settled(ops, items.last(), env, item)
            });
        lemma_indices_read_alike(ops, items.drop_last(), env, before);
        lemma_index_read_alike(ops, items.last(), env, item->Ok_0);
        assert(index_evaluated(ops, items.last(), env, item));
    }
}

/// What an expression over data alone comes to, it comes to wherever those data are bound.
pub proof fn law_constant_is_what_evaluation_gives<A: Arithmetic>(
    ops: &A,
    e: ExprModel,
    env: EnvModel,
    out: TensorModel,
)
    requires
        data_evaluated(ops, e, env.data, Ok(Some(out))),
    ensures
        evaluated(ops, e, env, Ok(out)),
    decreases e,
{
    let done: Constant = Ok(Some(out));
    match e {
        ExprModel::Bin { op, left, right } => {
            let (l, r) = choose|l: Constant, r: Constant| #[trigger]
                binary_constant(ops, op, l, r, done) && data_evaluated(ops, *left, env.data, l) && (
                known(l) ==> data_evaluated(ops, *right, env.data, r));
            let (a, b) = (l->Ok_0->0, r->Ok_0->0);
            assert(l == Ok::<Option<TensorModel>, Fault>(Some(a)));
            assert(r == Ok::<Option<TensorModel>, Fault>(Some(b)));
            law_constant_is_what_evaluation_gives(ops, *left, env, a);
            law_constant_is_what_evaluation_gives(ops, *right, env, b);
            let t = choose|t: Result<TensorModel, Fault>| #[trigger]
                ops.binary_gives(op, a, b, t) && done == certain(t);
            assert(t == Ok::<TensorModel, Fault>(out));
            assert(binary_joined(ops, op, Ok(a), Ok(b), Ok(out)));
        },
        ExprModel::Unary { function, operand } => {
            let o = choose|o: Constant| #[trigger]
                unary_constant(ops, function, o, done) && data_evaluated(
                    ops,
                    *operand,
                    env.data,
                    o,
                );
            let a = o->Ok_0->0;
            assert(o == Ok::<Option<TensorModel>, Fault>(Some(a)));
            law_constant_is_what_evaluation_gives(ops, *operand, env, a);
            assert(unary_joined(ops, function, Ok(a), Ok(out)));
        },
        ExprModel::MatVec { matrix, vector } => {
            let (l, r) = choose|l: Constant, r: Constant| #[trigger]
                product_constant(ops, l, r, done) && data_evaluated(ops, *matrix, env.data, l) && (
                known(l) ==> data_evaluated(ops, *vector, env.data, r));
            let (a, b) = (l->Ok_0->0, r->Ok_0->0);
            assert(l == Ok::<Option<TensorModel>, Fault>(Some(a)));
            assert(r == Ok::<Option<TensorModel>, Fault>(Some(b)));
            law_constant_is_what_evaluation_gives(ops, *matrix, env, a);
            law_constant_is_what_evaluation_gives(ops, *vector, env, b);
            let t = choose|t: Result<TensorModel, Fault>| #[trigger]
                ops.product_gives(a, b, t) && done == certain(t);
            assert(t == Ok::<TensorModel, Fault>(out));
            assert(product_joined(ops, Ok(a), Ok(b), Ok(out)));
        },
        ExprModel::Index { base, index } => {
            let (b, atoms) = choose|b: Constant, atoms: ConstantAtoms| #[trigger]
                gather_constant(ops, b, atoms, done) && data_evaluated(ops, *base, env.data, b) && (
                known(b) ==> data_index_evaluated(ops, index, env.data, atoms));
            let (a, list) = (b->Ok_0->0, atoms->Ok_0->0);
            assert(b == Ok::<Option<TensorModel>, Fault>(Some(a)));
            assert(atoms == Ok::<Option<Seq<AtomModel>>, Fault>(Some(list)));
            law_constant_is_what_evaluation_gives(ops, *base, env, a);
            lemma_constant_index(ops, index, env, list);
            let t = choose|t: Result<TensorModel, Fault>| #[trigger]
                ops.gather_gives(a, list, t) && done == certain(t);
            assert(t == Ok::<TensorModel, Fault>(out));
            assert(gather_joined(ops, Ok(a), Ok(list), Ok(out)));
        },
        _ => {},
    }
}

/// Integers are read alike whatever a failure would say.
proof fn lemma_integers_alike(values: Seq<NumberModel>, a: Seq<char>, b: Seq<char>)
    requires
        read_integers(values, a) is Ok,
    ensures
        read_integers(values, b) == read_integers(values, a),
    decreases values.len(),
{
    if values.len() > 0 {
        lemma_integers_alike(values.drop_last(), a, b);
    }
}

proof fn lemma_constant_index<A: Arithmetic>(
    ops: &A,
    index: IndexModel,
    env: EnvModel,
    out: Seq<AtomModel>,
)
    requires
        data_index_evaluated(ops, index, env.data, Ok(Some(out))),
    ensures
        index_evaluated(ops, index, env, Ok(out)),
    decreases index,
{
    match index {
        IndexModel::Scalar(e) => {
            let t = choose|t: Constant| #[trigger]
                atom_constant(t, Ok(Some(out))) && data_evaluated(ops, *e, env.data, t);
            let a = t->Ok_0->0;
            assert(t == Ok::<Option<TensorModel>, Fault>(Some(a)));
            law_constant_is_what_evaluation_gives(ops, *e, env, a);
            lemma_integers_alike(
                a.values,
                "VectorBounds support index values must be integers, got "@,
                "index values must be integers, got "@,
            );
            assert(atom_read(Ok(a), "index values must be integers, got "@, Ok(out)));
        },
        IndexModel::Tuple(items) => {
            lemma_constant_indices(ops, items, env, out);
        },
        _ => {},
    }
}

proof fn lemma_constant_indices<A: Arithmetic>(
    ops: &A,
    items: Seq<IndexModel>,
    env: EnvModel,
    out: Seq<AtomModel>,
)
    requires
        data_indices_evaluated(ops, items, env.data, Ok(Some(out))),
    ensures
        indices_evaluated(ops, items, env, Ok(out)),
    decreases items,
{
    if items.len() > 0 {
        let done: ConstantAtoms = Ok(Some(out));
        let (before, item) = choose|before: Seq<AtomModel>, item: ConstantAtoms| #[trigger]
            atoms_extended(before, item, done) && data_indices_evaluated(
                ops,
                items.drop_last(),
                env.data,
                Ok(Some(before)),
            ) && (if items.last() is Tuple {
                item == Err::<Option<Seq<AtomModel>>, Fault>(super::forward::nested_fault())
            } else {
                data_index_evaluated(ops, items.last(), env.data, item)
            });
        let more = item->Ok_0->0;
        assert(item == Ok::<Option<Seq<AtomModel>>, Fault>(Some(more)));
        lemma_constant_indices(ops, items.drop_last(), env, before);
        lemma_constant_index(ops, items.last(), env, more);
        assert(atoms_joined(before, Ok(more), Ok(out)));
    }
}

/// An expression that does not move with constrained values comes to the same whatever their values
/// are.
pub proof fn law_unmoved_expression_ignores_values<A: Arithmetic>(
    ops: &A,
    e: ExprModel,
    env: EnvModel,
    values: Seq<(Seq<char>, TensorModel)>,
    out: TensorModel,
)
    requires
        !moves(e, env.data),
        settled(ops, e, env, Ok(out)),
    ensures
        settled(ops, e, EnvModel { values, data: env.data }, Ok(out)),
    decreases e,
{
    let done = Ok::<TensorModel, Fault>(out);
    let other = EnvModel { values, data: env.data };
    match e {
        ExprModel::Bin { op, left, right } => {
            let (l, r) = choose|l: Result<TensorModel, Fault>, r: Result<TensorModel, Fault>|
                #[trigger] binary_joined(ops, op, l, r, done) && settled(ops, *left, env, l) && (l
                    is Ok ==> settled(ops, *right, env, r));
            law_unmoved_expression_ignores_values(ops, *left, env, values, l->Ok_0);
            law_unmoved_expression_ignores_values(ops, *right, env, values, r->Ok_0);
            assert(settled(ops, *left, other, l) && settled(ops, *right, other, r));
        },
        ExprModel::Unary { function, operand } => {
            let o = choose|o: Result<TensorModel, Fault>| #[trigger]
                unary_joined(ops, function, o, done) && settled(ops, *operand, env, o);
            law_unmoved_expression_ignores_values(ops, *operand, env, values, o->Ok_0);
            assert(settled(ops, *operand, other, o));
        },
        ExprModel::MatVec { matrix, vector } => {
            let (l, r) = choose|l: Result<TensorModel, Fault>, r: Result<TensorModel, Fault>|
                #[trigger] product_joined(ops, l, r, done) && settled(ops, *matrix, env, l) && (l
                    is Ok ==> settled(ops, *vector, env, r));
            law_unmoved_expression_ignores_values(ops, *matrix, env, values, l->Ok_0);
            law_unmoved_expression_ignores_values(ops, *vector, env, values, r->Ok_0);
            assert(settled(ops, *matrix, other, l) && settled(ops, *vector, other, r));
        },
        ExprModel::Index { base, index } => {
            let (b, atoms) = choose|
                b: Result<TensorModel, Fault>,
                atoms: Result<Seq<AtomModel>, Fault>,
            | #[trigger]
                gather_joined(ops, b, atoms, done) && settled(ops, *base, env, b) && (b is Ok
                    ==> index_settled(ops, index, env, atoms));
            law_unmoved_expression_ignores_values(ops, *base, env, values, b->Ok_0);
            lemma_index_ignores_values(ops, index, env, values, atoms->Ok_0);
            assert(settled(ops, *base, other, b) && index_settled(ops, index, other, atoms));
        },
        ExprModel::VectorScatter {
            length,
            observed_idx,
            observed_values,
            missing_idx,
            missing_values,
        } => {
            let (oi, mi, ov, mv) = choose|
                oi: Result<TensorModel, Fault>,
                mi: Result<TensorModel, Fault>,
                ov: Result<TensorModel, Fault>,
                mv: Result<TensorModel, Fault>,
            | #[trigger]
                scatter_settled(
                    guarded(env, *observed_idx, oi),
                    guarded(env, *missing_idx, mi),
                    ov,
                    mv,
                    done,
                ) && settled(ops, *observed_idx, env, oi) && (positions_of(
                    guarded(env, *observed_idx, oi),
                ) is Ok ==> settled(ops, *missing_idx, env, mi)) && (positions_of(
                    guarded(env, *observed_idx, oi),
                ) is Ok && positions_of(guarded(env, *missing_idx, mi)) is Ok ==> settled(
                    ops,
                    *observed_values,
                    env,
                    ov,
                )) && (positions_of(guarded(env, *observed_idx, oi)) is Ok && positions_of(
                    guarded(env, *missing_idx, mi),
                ) is Ok && ov is Ok ==> settled(ops, *missing_values, env, mv));
            law_unmoved_expression_ignores_values(ops, *observed_idx, env, values, oi->Ok_0);
            law_unmoved_expression_ignores_values(ops, *missing_idx, env, values, mi->Ok_0);
            law_unmoved_expression_ignores_values(ops, *observed_values, env, values, ov->Ok_0);
            law_unmoved_expression_ignores_values(ops, *missing_values, env, values, mv->Ok_0);
            assert(guarded(other, *observed_idx, oi) == oi && guarded(other, *missing_idx, mi) == mi);
            assert(scatter_settled(
                guarded(other, *observed_idx, oi),
                guarded(other, *missing_idx, mi),
                ov,
                mv,
                done,
            ));
            assert(settled(ops, *observed_idx, other, oi));
            assert(settled(ops, *missing_idx, other, mi));
            assert(settled(ops, *observed_values, other, ov));
            assert(settled(ops, *missing_values, other, mv));
        },
        _ => {},
    }
}

proof fn lemma_index_ignores_values<A: Arithmetic>(
    ops: &A,
    index: IndexModel,
    env: EnvModel,
    values: Seq<(Seq<char>, TensorModel)>,
    out: Seq<AtomModel>,
)
    requires
        index_settled(ops, index, env, Ok(out)),
    ensures
        index_settled(ops, index, EnvModel { values, data: env.data }, Ok(out)),
    decreases index,
{
    let done = Ok::<Seq<AtomModel>, Fault>(out);
    let other = EnvModel { values, data: env.data };
    match index {
        IndexModel::Scalar(e) => {
            let t = choose|t: Result<TensorModel, Fault>| #[trigger]
                atom_read(guarded(env, *e, t), "index values must be integers, got "@, done)
                    && settled(ops, *e, env, t);
            law_unmoved_expression_ignores_values(ops, *e, env, values, t->Ok_0);
            assert(atom_read(guarded(other, *e, t), "index values must be integers, got "@, done));
            assert(settled(ops, *e, other, t));
        },
        IndexModel::Tuple(items) => {
            lemma_indices_ignore_values(ops, items, env, values, out);
        },
        _ => {},
    }
}

proof fn lemma_indices_ignore_values<A: Arithmetic>(
    ops: &A,
    items: Seq<IndexModel>,
    env: EnvModel,
    values: Seq<(Seq<char>, TensorModel)>,
    out: Seq<AtomModel>,
)
    requires
        indices_settled(ops, items, env, Ok(out)),
    ensures
        indices_settled(ops, items, EnvModel { values, data: env.data }, Ok(out)),
    decreases items,
{
    let done = Ok::<Seq<AtomModel>, Fault>(out);
    let other = EnvModel { values, data: env.data };
    if items.len() > 0 {
        let (before, item) = choose|before: Seq<AtomModel>, item: Result<Seq<AtomModel>, Fault>|
            #[trigger] atoms_joined(before, item, done) && indices_settled(
                ops,
                items.drop_last(),
                env,
                Ok(before),
            ) && (if items.last() is Tuple {
                item == Err::<Seq<AtomModel>, Fault>(super::forward::nested_fault())
            } else {
                index_settled(ops, items.last(), env, item)
            });
        lemma_indices_ignore_values(ops, items.drop_last(), env, values, before);
        lemma_index_ignores_values(ops, items.last(), env, values, item->Ok_0);
        assert(index_settled(ops, items.last(), other, item));
    }
}

/// A name that is given a value reads as that value from then on, unless data are bound to it, and
/// every other name reads as before.
pub proof fn law_name_reads_its_latest_value(
    env: EnvModel,
    name: Seq<char>,
    value: TensorModel,
    other: Seq<char>,
)
    ensures
        ({
            let after = EnvModel { values: env.values.push((name, value)), data: env.data };
            &&& name_value(after, name) == (match data_named(env.data, name) {
                Some(bound) => Ok::<TensorModel, Fault>(
                    TensorModel { shape: bound.shape, values: bound.values },
                ),
                None => Ok(value),
            })
            &&& other != name ==> name_value(after, other) == name_value(env, other)
        }),
{
    let values = env.values.push((name, value));
    assert(values.drop_last() =~= env.values);
}

/// Bound data read as the first value of their name.
pub proof fn law_data_read_as_the_first_of_their_name(
    env: EnvModel,
    name: Seq<char>,
    i: int,
)
    requires
        0 <= i < env.data.len(),
        env.data[i].0 == name,
        forall|j: int| 0 <= j < i ==> (#[trigger] env.data[j]).0 != name,
    ensures
        name_value(env, name) == Ok::<TensorModel, Fault>(
            TensorModel { shape: env.data[i].1.shape, values: env.data[i].1.values },
        ),
{
    lemma_first_named(env.data, name, i, 0);
}

proof fn lemma_first_named(data: Seq<(Seq<char>, DataModel)>, name: Seq<char>, i: int, from: int)
    requires
        0 <= from <= i < data.len(),
        data[i].0 == name,
        forall|j: int| 0 <= j < i ==> (#[trigger] data[j]).0 != name,
    ensures
        data_from(data, name, from) == Some(data[i].1),
    decreases i - from,
{
    if from < i {
        lemma_first_named(data, name, i, from + 1);
    }
}

/// The place of an index in a vector of that length: a negative one counts from the end.
pub open spec fn place_of(index: i64, len: nat) -> int {
    if index < 0 {
        len + index
    } else {
        index as int
    }
}

/// Positions can be filled exactly where they all lie inside.
proof fn lemma_scattered_inside(
    base: Seq<NumberModel>,
    positions: Seq<i64>,
    values: Seq<NumberModel>,
)
    requires
        base.len() <= usize::MAX,
    ensures
        scattered(base, positions, values) is Ok ==> (forall|i: int|
            0 <= i < positions.len() ==> 0 <= #[trigger] place_of(positions[i], base.len())
                < base.len()),
        scattered(base, positions, values) matches Ok(out) ==> out.len() == base.len(),
    decreases positions.len(),
{
    if positions.len() > 0 && scattered(base, positions, values) is Ok {
        let prior = positions.drop_last();
        lemma_scattered_inside(base, prior, values);
        assert forall|i: int| 0 <= i < positions.len() implies 0 <= #[trigger] place_of(
            positions[i],
            base.len(),
        ) < base.len() by {
            if i < prior.len() {
                assert(0 <= place_of(prior[i], base.len()) < base.len());
            }
        }
    }
}

/// What a vector has at a place after filling: the last of the values put there, or what it had.
pub open spec fn filled_at(
    base: Seq<NumberModel>,
    positions: Seq<i64>,
    values: Seq<NumberModel>,
    k: int,
) -> NumberModel
    decreases positions.len(),
{
    if positions.len() == 0 {
        base[k]
    } else if place_of(positions.last(), base.len()) == k {
        values[positions.len() - 1]
    } else {
        filled_at(base, positions.drop_last(), values, k)
    }
}

proof fn lemma_scattered_at(
    base: Seq<NumberModel>,
    positions: Seq<i64>,
    values: Seq<NumberModel>,
    k: int,
)
    requires
        base.len() <= usize::MAX,
        scattered(base, positions, values) is Ok,
        0 <= k < base.len(),
    ensures
        scattered(base, positions, values)->Ok_0[k] == filled_at(base, positions, values, k),
    decreases positions.len(),
{
    if positions.len() > 0 {
        lemma_scattered_at(base, positions.drop_last(), values, k);
        lemma_scattered_inside(base, positions.drop_last(), values);
    }
}

proof fn lemma_filled(
    base: Seq<NumberModel>,
    positions: Seq<i64>,
    values: Seq<NumberModel>,
    k: int,
    i: int,
)
    requires
        i == -1 || 0 <= i < positions.len() && place_of(positions[i], base.len()) == k,
        forall|j: int|
            i < j < positions.len() ==> #[trigger] place_of(positions[j], base.len()) != k,
    ensures
        filled_at(base, positions, values, k) == (if i == -1 {
            base[k]
        } else {
            values[i]
        }),
    decreases positions.len(),
{
    if positions.len() > 0 && i < positions.len() - 1 {
        let prior = positions.drop_last();
        assert(place_of(positions[positions.len() - 1], base.len()) != k);
        assert forall|j: int| i < j < prior.len() implies #[trigger] place_of(prior[j], base.len())
            != k by {
            assert(place_of(positions[j], base.len()) != k);
        }
        lemma_filled(base, prior, values, k, i);
    }
}

/// A vector that was filled has at the place of a position the value of that position, unless a
/// later one has the same place, and elsewhere what it had.
pub proof fn lemma_scattered(
    base: Seq<NumberModel>,
    positions: Seq<i64>,
    values: Seq<NumberModel>,
)
    requires
        base.len() <= usize::MAX,
        scattered(base, positions, values) is Ok,
    ensures
        forall|i: int|
            0 <= i < positions.len() ==> 0 <= #[trigger] place_of(positions[i], base.len())
                < base.len(),
        scattered(base, positions, values)->Ok_0.len() == base.len(),
        forall|i: int|
            #![trigger positions[i]]
            0 <= i < positions.len() && (forall|j: int|
                i < j < positions.len() ==> #[trigger] place_of(positions[j], base.len())
                    != place_of(positions[i], base.len())) ==> scattered(
                base,
                positions,
                values,
            )->Ok_0[place_of(positions[i], base.len())] == values[i],
        forall|k: int|
            0 <= k < base.len() && (forall|j: int|
                0 <= j < positions.len() ==> #[trigger] place_of(positions[j], base.len()) != k)
                ==> #[trigger] scattered(base, positions, values)->Ok_0[k] == base[k],
{
    lemma_scattered_inside(base, positions, values);
    let out = scattered(base, positions, values)->Ok_0;
    assert forall|i: int|
        #![trigger positions[i]]
        0 <= i < positions.len() && (forall|j: int|
            i < j < positions.len() ==> #[trigger] place_of(positions[j], base.len()) != place_of(
                positions[i],
                base.len(),
            )) implies out[place_of(positions[i], base.len())] == values[i] by {
        let k = place_of(positions[i], base.len());
        lemma_scattered_at(base, positions, values, k);
        lemma_filled(base, positions, values, k, i);
    }
    assert forall|k: int|
        0 <= k < base.len() && (forall|j: int|
            0 <= j < positions.len() ==> #[trigger] place_of(positions[j], base.len())
                != k) implies #[trigger] out[k] == base[k] by {
        lemma_scattered_at(base, positions, values, k);
        lemma_filled(base, positions, values, k, -1);
    }
}

/// A vector assembled from observed and missing entries has each observed value at the place of its
/// index and each missing one at the place of its own, wherever the places are all different.
pub proof fn law_assembled_vector_has_every_value_in_its_place(
    there: Seq<i64>,
    gone: Seq<i64>,
    seen: TensorModel,
    unseen: TensorModel,
    out: TensorModel,
)
    requires
        assembled(there, gone, seen, unseen) == Ok::<TensorModel, Fault>(out),
        ({
            let all = there + gone;
            forall|i: int, j: int|
                #![trigger all[i], all[j]]
                0 <= i < j < all.len() ==> place_of(all[i], all.len()) != place_of(
                    all[j],
                    all.len(),
                )
        }),
    ensures
        ({
            let len = there.len() + gone.len();
            &&& out.shape.len() == 1 && out.shape[0] == len && out.values.len() == len
            &&& forall|i: int|
                0 <= i < there.len() ==> out.values[place_of(#[trigger] there[i], len)]
                    == seen.values[i]
            &&& forall|i: int|
                0 <= i < gone.len() ==> out.values[place_of(#[trigger] gone[i], len)]
                    == unseen.values[i]
        }),
{
    let len = there.len() + gone.len();
    let all = there + gone;
    let empty = Seq::new(len, |i: int| super::forward::zero());
    lemma_scattered(empty, there, seen.values);
    let half = scattered(empty, there, seen.values)->Ok_0;
    lemma_scattered(half, gone, unseen.values);
    assert forall|i: int| 0 <= i < there.len() implies out.values[place_of(
        #[trigger] there[i],
        len,
    )] == seen.values[i] by {
        assert(all[i] == there[i]);
        assert forall|j: int| i < j < there.len() implies #[trigger] place_of(
            there[j],
            empty.len(),
        ) != place_of(there[i], empty.len()) by {
            assert(all[j] == there[j]);
        }
        let k = place_of(there[i], len);
        assert(half[k] == seen.values[i]);
        assert forall|j: int| 0 <= j < gone.len() implies #[trigger] place_of(
            gone[j],
            half.len(),
        ) != k by {
            assert(all[there.len() + j] == gone[j]);
        }
        assert(0 <= k < len);
        assert(out.values[k] == half[k]);
    }
    assert forall|i: int| 0 <= i < gone.len() implies out.values[place_of(#[trigger] gone[i], len)]
        == unseen.values[i] by {
        assert(all[there.len() + i] == gone[i]);
        assert forall|j: int| i < j < gone.len() implies #[trigger] place_of(gone[j], half.len())
            != place_of(gone[i], half.len()) by {
            assert(all[there.len() + j] == gone[j]);
        }
    }
}

} // verus!
