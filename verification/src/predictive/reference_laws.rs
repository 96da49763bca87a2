//! What expressions refer to: all that their values depend on.

use vstd::prelude::*;

#[allow(unused_imports)]
use crate::ancestral::{dist_refs, expr_refs, exprs_refs, index_refs, indices_refs, ValueModel};
#[allow(unused_imports)]
use crate::error::Fault;
#[allow(unused_imports)]
use crate::ir::{dist_params, DistModel, ExprModel, IndexModel};
#[allow(unused_imports)]
use crate::numerics::{Arithmetic, AtomModel};
#[allow(unused_imports)]
use crate::tensor::TensorModel;

#[allow(unused_imports)]
use super::forward::{
    atom_read, atoms_joined, binary_joined, evaluated, gather_joined, index_evaluated,
    indices_evaluated, name_value, nested_fault, positions_of, product_joined, scatter_joined,
    unary_joined, EnvModel,
};

verus! {

/// The name of what is referred to.
pub open spec fn referred(r: ValueModel) -> Seq<char> {
    match r {
        ValueModel::Param(name) => name,
        ValueModel::Data(name) => name,
    }
}

/// Whether two environments have the same values for everything that is referred to.
pub open spec fn agree(refs: Seq<ValueModel>, a: EnvModel, b: EnvModel) -> bool {
    forall|i: int|
        0 <= i < refs.len() ==> name_value(a, referred(#[trigger] refs[i])) == name_value(
            b,
            referred(refs[i]),
        )
}

proof fn lemma_agree_on_both(x: Seq<ValueModel>, y: Seq<ValueModel>, a: EnvModel, b: EnvModel)
    requires
        agree(x + y, a, b),
    ensures
        agree(x, a, b),
        agree(y, a, b),
{
    assert forall|i: int| 0 <= i < x.len() implies name_value(a, referred(#[trigger] x[i]))
        == name_value(b, referred(x[i])) by {
        assert((x + y)[i] == x[i]);
    }
    assert forall|i: int| 0 <= i < y.len() implies name_value(a, referred(#[trigger] y[i]))
        == name_value(b, referred(y[i])) by {
        assert((x + y)[x.len() + i] == y[i]);
    }
}

/// What an expression comes to depends on nothing but what it refers to: where two environments
/// have the same values for that, it comes to the same in both.
pub proof fn law_values_depend_on_references_alone<A: Arithmetic>(
    ops: &A,
    e: ExprModel,
    a: EnvModel,
    b: EnvModel,
    out: Result<TensorModel, Fault>,
)
    requires
        agree(expr_refs(e), a, b),
        evaluated(ops, e, a, out),
    ensures
        evaluated(ops, e, b, out),
    decreases e,
{
    match e {
        ExprModel::Param(name) => {
            assert(expr_refs(e)[0] == ValueModel::Param(name));
        },
        ExprModel::Data(name) => {
            assert(expr_refs(e)[0] == ValueModel::Data(name));
        },
        ExprModel::Const(_) => {},
        ExprModel::Bin { op, left, right } => {
            lemma_agree_on_both(expr_refs(*left), expr_refs(*right), a, b);
            let (l, r) = choose|l: Result<TensorModel, Fault>, r: Result<TensorModel, Fault>|
                #[trigger] binary_joined(ops, op, l, r, out) && evaluated(ops, *left, a, l) && (l
                    is Ok ==> evaluated(ops, *right, a, r));
            law_values_depend_on_references_alone(ops, *left, a, b, l);
            if l is Ok {
                law_values_depend_on_references_alone(ops, *right, a, b, r);
            }
            assert(binary_joined(ops, op, l, r, out));
        },
        ExprModel::Unary { function, operand } => {
            let o = choose|o: Result<TensorModel, Fault>| #[trigger]
                unary_joined(ops, function, o, out) && evaluated(ops, *operand, a, o);
            law_values_depend_on_references_alone(ops, *operand, a, b, o);
            assert(unary_joined(ops, function, o, out));
        },
        ExprModel::MatVec { matrix, vector } => {
            lemma_agree_on_both(expr_refs(*matrix), expr_refs(*vector), a, b);
            let (l, r) = choose|l: Result<TensorModel, Fault>, r: Result<TensorModel, Fault>|
                #[trigger] product_joined(ops, l, r, out) && evaluated(ops, *matrix, a, l) && (l
                    is Ok ==> evaluated(ops, *vector, a, r));
            law_values_depend_on_references_alone(ops, *matrix, a, b, l);
            if l is Ok {
                law_values_depend_on_references_alone(ops, *vector, a, b, r);
            }
            assert(product_joined(ops, l, r, out));
        },
        ExprModel::Index { base, index } => {
            lemma_agree_on_both(expr_refs(*base), index_refs(index), a, b);
            let (t, atoms) = choose|
                t: Result<TensorModel, Fault>,
                atoms: Result<Seq<AtomModel>, Fault>,
            | #[trigger]
                gather_joined(ops, t, atoms, out) && evaluated(ops, *base, a, t) && (t is Ok
                    ==> index_evaluated(ops, index, a, atoms));
            law_values_depend_on_references_alone(ops, *base, a, b, t);
            if t is Ok {
                lemma_index_depends_on_references(ops, index, a, b, atoms);
            }
            assert(gather_joined(ops, t, atoms, out));
        },
        ExprModel::VectorScatter {
            length,
            observed_idx,
            observed_values,
            missing_idx,
            missing_values,
        } => {
            let first = expr_refs(*length);
            let second = first + expr_refs(*observed_idx);
            let third = second + expr_refs(*observed_values);
            let fourth = third + expr_refs(*missing_idx);
            lemma_agree_on_both(fourth, expr_refs(*missing_values), a, b);
            lemma_agree_on_both(third, expr_refs(*missing_idx), a, b);
            lemma_agree_on_both(second, expr_refs(*observed_values), a, b);
            lemma_agree_on_both(first, expr_refs(*observed_idx), a, b);
            let (oi, mi, ov, mv) = choose|
                oi: Result<TensorModel, Fault>,
                mi: Result<TensorModel, Fault>,
                ov: Result<TensorModel, Fault>,
                mv: Result<TensorModel, Fault>,
            | #[trigger]
                scatter_joined(oi, mi, ov, mv, out) && evaluated(ops, *observed_idx, a, oi) && (
                positions_of(oi) is Ok ==> evaluated(ops, *missing_idx, a, mi)) && (positions_of(
                    oi,
                ) is Ok && positions_of(mi) is Ok ==> evaluated(ops, *observed_values, a, ov)) && (
                positions_of(oi) is Ok && positions_of(mi) is Ok && ov is Ok ==> evaluated(
                    ops,
                    *missing_values,
                    a,
                    mv,
                ));
            law_values_depend_on_references_alone(ops, *observed_idx, a, b, oi);
            if positions_of(oi) is Ok {
                law_values_depend_on_references_alone(ops, *missing_idx, a, b, mi);
                if positions_of(mi) is Ok {
                    law_values_depend_on_references_alone(ops, *observed_values, a, b, ov);
                    if ov is Ok {
                        law_values_depend_on_references_alone(ops, *missing_values, a, b, mv);
                    }
                }
            }
            assert(scatter_joined(oi, mi, ov, mv, out));
        },
    }
}

proof fn lemma_index_depends_on_references<A: Arithmetic>(
    ops: &A,
    index: IndexModel,
    a: EnvModel,
    b: EnvModel,
    out: Result<Seq<AtomModel>, Fault>,
)
    requires
        agree(index_refs(index), a, b),
        index_evaluated(ops, index, a, out),
    ensures
        index_evaluated(ops, index, b, out),
    decreases index,
{
    match index {
        IndexModel::Full => {},
        IndexModel::Scalar(e) => {
            let t = choose|t: Result<TensorModel, Fault>| #[trigger]
                atom_read(t, "index values must be integers, got "@, out) && evaluated(ops, *e, a, t);
            law_values_depend_on_references_alone(ops, *e, a, b, t);
            assert(atom_read(t, "index values must be integers, got "@, out));
        },
        IndexModel::Tuple(items) => {
            lemma_indices_depend_on_references(ops, items, a, b, out);
        },
    }
}

proof fn lemma_indices_depend_on_references<A: Arithmetic>(
    ops: &A,
    items: Seq<IndexModel>,
    a: EnvModel,
    b: EnvModel,
    out: Result<Seq<AtomModel>, Fault>,
)
    requires
        agree(indices_refs(items), a, b),
        indices_evaluated(ops, items, a, out),
    ensures
        indices_evaluated(ops, items, b, out),
    decreases items,
{
    if items.len() > 0 {
        lemma_agree_on_both(indices_refs(items.drop_last()), index_refs(items.last()), a, b);
        if out is Err && indices_evaluated(ops, items.drop_last(), a, out) {
            lemma_indices_depend_on_references(ops, items.drop_last(), a, b, out);
        } else {
            let (before, item) = choose|
                before: Seq<AtomModel>,
                item: Result<Seq<AtomModel>, Fault>,
            | #[trigger]
                atoms_joined(before, item, out) && indices_evaluated(
                    ops,
                    items.drop_last(),
                    a,
                    Ok(before),
                ) && (if items.last() is Tuple {
                    item == Err::<Seq<AtomModel>, Fault>(nested_fault())
                } else {
                    index_evaluated(ops, items.last(), a, item)
                });
            lemma_indices_depend_on_references(ops, items.drop_last(), a, b, Ok(before));
            if !(items.last() is Tuple) {
                lemma_index_depends_on_references(ops, items.last(), a, b, item);
            }
            assert(atoms_joined(before, item, out));
        }
    }
}

proof fn lemma_agree_on_each(s: Seq<ExprModel>, k: int, a: EnvModel, b: EnvModel)
    requires
        agree(exprs_refs(s), a, b),
        0 <= k < s.len(),
    ensures
        agree(expr_refs(s[k]), a, b),
    decreases s.len(),
{
    lemma_agree_on_both(exprs_refs(s.drop_last()), expr_refs(s.last()), a, b);
    if k < s.len() - 1 {
        lemma_agree_on_each(s.drop_last(), k, a, b);
    }
}

/// No parameter of a distribution depends on anything but what the distribution refers to.
pub proof fn law_parameters_depend_on_references_alone<A: Arithmetic>(
    ops: &A,
    d: DistModel,
    k: int,
    a: EnvModel,
    b: EnvModel,
    out: Result<TensorModel, Fault>,
)
    requires
        agree(dist_refs(d), a, b),
        0 <= k < dist_params(d).len(),
        evaluated(ops, dist_params(d)[k], a, out),
    ensures
        evaluated(ops, dist_params(d)[k], b, out),
{
    lemma_agree_on_each(dist_params(d), k, a, b);
    law_values_depend_on_references_alone(ops, dist_params(d)[k], a, b, out);
}

} // verus!
