//! Evaluation of expressions that depend on data and constants only.

use vstd::prelude::*;

use crate::data::{copy_numbers, copy_shape, DataValue};
#[allow(unused_imports)]
use crate::data::{data_views, DataModel};
use crate::error::{malformed, shape_mismatch, Error};
#[allow(unused_imports)]
use crate::error::{outcome, shape_fault, Fault};
#[allow(unused_imports)]
use crate::investigation::ledger::views;
use crate::ir::{BinOpKind, Expr, IndexSpec, UnaryFn};
#[allow(unused_imports)]
use crate::ir::{expr_view, group_ir_views, index_view, indices_view, ExprModel, IndexModel};
use crate::model::find_data;
#[allow(unused_imports)]
use crate::model::{all_filled, data_named, lemma_named_filled};
use crate::numerics::{Arithmetic, IndexAtom};
#[allow(unused_imports)]
use crate::numerics::AtomModel;
#[allow(unused_imports)]
use crate::bounds::{evaluated_full, tensor_outcome};
use crate::predictive::forward::index_part;
#[allow(unused_imports)]
use crate::predictive::forward::{data_tensor, index_atom, nested_fault};
use crate::tensor::Tensor;
#[allow(unused_imports)]
use crate::tensor::TensorModel;
use crate::text;
#[allow(unused_imports)]
use crate::text::debug_text;

verus! {

/// What evaluation over data comes to: nothing for what depends on parameters.
pub type Constant = Result<Option<TensorModel>, Fault>;

/// What the parts of an index come to.
pub type ConstantAtoms = Result<Option<Seq<AtomModel>>, Fault>;

/// Whether a result has a value.
pub open spec fn known<T>(r: Result<Option<T>, Fault>) -> bool {
    r is Ok && r->Ok_0 is Some
}

/// A result without value, handed on.
pub open spec fn handed_on<T, U>(r: Result<Option<T>, Fault>) -> Result<Option<U>, Fault> {
    match r {
        Err(fault) => Err(fault),
        Ok(_) => Ok(None),
    }
}

/// A result that always has a value.
pub open spec fn certain(r: Result<TensorModel, Fault>) -> Constant {
    match r {
        Err(fault) => Err(fault),
        Ok(t) => Ok(Some(t)),
    }
}

/// The value of bound data.
pub open spec fn constant_data(data: Seq<(Seq<char>, DataModel)>, name: Seq<char>) -> Constant {
    match data_named(data, name) {
        Some(value) => Ok(Some(data_tensor(value))),
        None => Err(
            shape_fault("data value "@ + debug_text(name) + " is referenced but not bound"@),
        ),
    }
}

pub open spec fn binary_constant<A: Arithmetic>(
    ops: &A,
    op: BinOpKind,
    left: Constant,
    right: Constant,
    out: Constant,
) -> bool {
    if !known(left) {
        out == handed_on::<TensorModel, TensorModel>(left)
    } else if !known(right) {
        out == handed_on::<TensorModel, TensorModel>(right)
    } else {
        exists|r: Result<TensorModel, Fault>| #[trigger]
            ops.binary_gives(op, left->Ok_0->0, right->Ok_0->0, r) && out == certain(r)
    }
}

pub open spec fn product_constant<A: Arithmetic>(ops: &A, left: Constant, right: Constant, out: Constant) -> bool {
    if !known(left) {
        out == handed_on::<TensorModel, TensorModel>(left)
    } else if !known(right) {
        out == handed_on::<TensorModel, TensorModel>(right)
    } else {
        exists|r: Result<TensorModel, Fault>| #[trigger]
            ops.product_gives(left->Ok_0->0, right->Ok_0->0, r) && out == certain(r)
    }
}

pub open spec fn unary_constant<A: Arithmetic>(
    ops: &A,
    function: UnaryFn,
    operand: Constant,
    out: Constant,
) -> bool {
    if !known(operand) {
        out == handed_on::<TensorModel, TensorModel>(operand)
    } else {
        known(out) && ops.unary_gives(function, operand->Ok_0->0, out->Ok_0->0)
    }
}

pub open spec fn gather_constant<A: Arithmetic>(
    ops: &A,
    base: Constant,
    atoms: ConstantAtoms,
    out: Constant,
) -> bool {
    if !known(base) {
        out == handed_on::<TensorModel, TensorModel>(base)
    } else if !known(atoms) {
        out == handed_on::<Seq<AtomModel>, TensorModel>(atoms)
    } else {
        exists|r: Result<TensorModel, Fault>| #[trigger]
            ops.gather_gives(base->Ok_0->0, atoms->Ok_0->0, r) && out == certain(r)
    }
}

proof fn lemma_gathered<A: Arithmetic>(
    ops: &A,
    base: Constant,
    atoms: ConstantAtoms,
    r: Result<TensorModel, Fault>,
)
    requires
        known(base),
        known(atoms),
        ops.gather_gives(base->Ok_0->0, atoms->Ok_0->0, r),
    ensures
        gather_constant(ops, base, atoms, certain(r)),
{
}

/// The part of an index that a constant stands for.
pub open spec fn atom_constant(t: Constant, out: ConstantAtoms) -> bool {
    out == (if !known(t) {
        handed_on::<TensorModel, Seq<AtomModel>>(t)
    } else {
        match index_atom(
            Ok(t->Ok_0->0),
            "VectorBounds support index values must be integers, got "@,
        ) {
            Err(fault) => Err(fault),
            Ok(list) => Ok(Some(list)),
        }
    })
}

/// The parts of an index with one more item behind them.
pub open spec fn atoms_extended(before: Seq<AtomModel>, item: ConstantAtoms, out: ConstantAtoms) -> bool {
    out == (if !known(item) {
        handed_on::<Seq<AtomModel>, Seq<AtomModel>>(item)
    } else {
        Ok::<Option<Seq<AtomModel>>, Fault>(Some(before + item->Ok_0->0))
    })
}

/// Whether evaluating an expression over data can come to that.
pub open spec fn data_evaluated<A: Arithmetic>(
    ops: &A,
    e: ExprModel,
    data: Seq<(Seq<char>, DataModel)>,
    out: Constant,
) -> bool
    decreases e,
{
    match e {
        ExprModel::Param(_) => out == Ok::<Option<TensorModel>, Fault>(None),
        ExprModel::VectorScatter { .. } => out == Ok::<Option<TensorModel>, Fault>(None),
        ExprModel::Data(name) => out == constant_data(data, name),
        ExprModel::Const(value) => out == Ok::<Option<TensorModel>, Fault>(
            Some(TensorModel { shape: Seq::empty(), values: seq![value] }),
        ),
        ExprModel::Bin { op, left, right } => exists|l: Constant, r: Constant| #[trigger]
            binary_constant(ops, op, l, r, out) && data_evaluated(ops, *left, data, l) && (known(l)
                ==> data_evaluated(ops, *right, data, r)),
        ExprModel::Unary { function, operand } => exists|o: Constant| #[trigger]
            unary_constant(ops, function, o, out) && data_evaluated(ops, *operand, data, o),
        ExprModel::MatVec { matrix, vector } => exists|l: Constant, r: Constant| #[trigger]
            product_constant(ops, l, r, out) && data_evaluated(ops, *matrix, data, l) && (known(l)
                ==> data_evaluated(ops, *vector, data, r)),
        ExprModel::Index { base, index } => exists|b: Constant, atoms: ConstantAtoms| #[trigger]
            gather_constant(ops, b, atoms, out) && data_evaluated(ops, *base, data, b) && (known(b)
                ==> data_index_evaluated(ops, index, data, atoms)),
    }
}

/// Whether evaluating an index over data can come to that.
pub open spec fn data_index_evaluated<A: Arithmetic>(
    ops: &A,
    index: IndexModel,
    data: Seq<(Seq<char>, DataModel)>,
    out: ConstantAtoms,
) -> bool
    decreases index,
{
    match index {
        IndexModel::Full => out == Ok::<Option<Seq<AtomModel>>, Fault>(Some(seq![AtomModel::Full])),
        IndexModel::Scalar(e) => exists|t: Constant| #[trigger]
            atom_constant(t, out) && data_evaluated(ops, *e, data, t),
        IndexModel::Tuple(items) => data_indices_evaluated(ops, items, data, out),
    }
}

/// Whether evaluating the items of an index tuple over data can come to that.
pub open spec fn data_indices_evaluated<A: Arithmetic>(
    ops: &A,
    items: Seq<IndexModel>,
    data: Seq<(Seq<char>, DataModel)>,
    out: ConstantAtoms,
) -> bool
    decreases items,
{
    if items.len() == 0 {
        out == Ok::<Option<Seq<AtomModel>>, Fault>(Some(Seq::empty()))
    } else {
        ||| !known(out) && data_indices_evaluated(ops, items.drop_last(), data, out)
        ||| exists|before: Seq<AtomModel>, item: ConstantAtoms| #[trigger]
            atoms_extended(before, item, out) && data_indices_evaluated(
                ops,
                items.drop_last(),
                data,
                Ok(Some(before)),
            ) && (if items.last() is Tuple {
                item == Err::<Option<Seq<AtomModel>>, Fault>(nested_fault())
            } else {
                data_index_evaluated(ops, items.last(), data, item)
            })
    }
}

proof fn lemma_indices_stop<A: Arithmetic>(
    ops: &A,
    items: Seq<IndexModel>,
    data: Seq<(Seq<char>, DataModel)>,
    n: int,
    out: ConstantAtoms,
)
    requires
        0 <= n <= items.len(),
        !known(out),
        data_indices_evaluated(ops, items.take(n), data, out),
    ensures
        data_indices_evaluated(ops, items, data, out),
    decreases items.len(),
{
    if n < items.len() {
        assert(items.drop_last().take(n) =~= items.take(n));
        lemma_indices_stop(ops, items.drop_last(), data, n, out);
    } else {
        assert(items.take(n) =~= items);
    }
}

/// The view of what the parts of an index came to.
pub open spec fn atoms_outcome(r: Result<Option<Vec<IndexAtom>>, Error>) -> ConstantAtoms {
    match r {
        Err(error) => Err(error@),
        Ok(Some(list)) => Ok(Some(views(list@))),
        Ok(None) => Ok(None),
    }
}

fn some_tensor(r: Result<Tensor, Error>) -> (out: Result<Option<Tensor>, Error>)
    ensures
        tensor_outcome(out) == certain(outcome(r)),
{
    match r {
        Err(error) => Err(error),
        Ok(t) => Ok(Some(t)),
    }
}

/// The value of an expression over data and constants; nothing for one that depends on
/// parameters.
pub fn evaluate_optional_data_expr<A: Arithmetic>(ops: &A, expr: &Expr, data: &Vec<(String, DataValue)>) -> (r:
    Result<Option<Tensor>, Error>)
    requires
        ops.reliable(),
        all_filled(data_views(data@)),
    ensures
        data_evaluated(ops, expr@, data_views(data@), tensor_outcome(r)),
        evaluated_full(tensor_outcome(r)),
    decreases expr, 1int,
{
    let ghost all = data_views(data@);
    match expr {
        Expr::Param(_) => Ok(None),
        Expr::VectorScatter { .. } => Ok(None),
        Expr::Data(name) => match find_data(data, name.as_str()) {
            Some(value) => {
                proof {
                    lemma_named_filled(all, name@, 0);
                }
                Ok(
                    Some(
                        Tensor {
                            shape: copy_shape(&value.shape),
                            values: copy_numbers(&value.values),
                        },
                    ),
                )
            },
            None => {
                let shown: String = text::quoted(name.as_str());
                Err(
                    shape_mismatch(
                        text::cat3("data value ", shown.as_str(), " is referenced but not bound"),
                    ),
                )
            },
        },
        Expr::Const(value) => Ok(Some(Tensor::scalar(value.copy()))),
        Expr::Bin { .. } => binary_data_expr(ops, expr, data),
        Expr::Unary { function, operand } => {
            let o: Result<Option<Tensor>, Error> = evaluate_optional_data_expr(ops, operand, data);
            assert(data_evaluated(ops, expr_view(**operand), all, tensor_outcome(o)));
            let ghost o_out = tensor_outcome(o);
            match o {
                Ok(Some(t)) => {
                    let value: Tensor = ops.unary(*function, &t);
                    assert(unary_constant(ops, *function, o_out, Ok(Some(value@))));
                    Ok(Some(value))
                },
                other => {
                    assert(unary_constant(ops, *function, o_out, o_out));
                    other
                },
            }
        },
        Expr::MatVec { .. } => product_data_expr(ops, expr, data),
        Expr::Index { .. } => index_data_expr(ops, expr, data),
    }
}

fn binary_data_expr<A: Arithmetic>(ops: &A, expr: &Expr, data: &Vec<(String, DataValue)>) -> (r: Result<
    Option<Tensor>,
    Error,
>)
    requires
        ops.reliable(),
        all_filled(data_views(data@)),
        expr is Bin,
    ensures
        data_evaluated(ops, expr@, data_views(data@), tensor_outcome(r)),
        evaluated_full(tensor_outcome(r)),
    decreases expr, 0int,
{
    let ghost all = data_views(data@);
    match expr {
        Expr::Bin { op, left, right } => {
            let l: Result<Option<Tensor>, Error> = evaluate_optional_data_expr(ops, left, data);
            assert(data_evaluated(ops, expr_view(**left), all, tensor_outcome(l)));
            let ghost l_out = tensor_outcome(l);
            match l {
                Ok(Some(a)) => {
                    let r: Result<Option<Tensor>, Error> = evaluate_optional_data_expr(
                        ops,
                        right,
                        data,
                    );
                    assert(data_evaluated(ops, expr_view(**right), all, tensor_outcome(r)));
                    let ghost r_out = tensor_outcome(r);
                    match r {
                        Ok(Some(b)) => {
                            let value: Result<Tensor, Error> = ops.binary(*op, &a, &b);
                            assert(ops.binary_gives(*op, a@, b@, outcome(value)));
                            assert(binary_constant(
                                ops,
                                *op,
                                l_out,
                                r_out,
                                certain(outcome(value)),
                            ));
                            some_tensor(value)
                        },
                        other => {
                            assert(binary_constant(ops, *op, l_out, r_out, r_out));
                            other
                        },
                    }
                },
                other => {
                    assert(binary_constant(ops, *op, l_out, l_out, l_out));
                    other
                },
            }
        },
        _ => Ok(None),
    }
}

fn product_data_expr<A: Arithmetic>(ops: &A, expr: &Expr, data: &Vec<(String, DataValue)>) -> (r: Result<
    Option<Tensor>,
    Error,
>)
    requires
        ops.reliable(),
        all_filled(data_views(data@)),
        expr is MatVec,
    ensures
        data_evaluated(ops, expr@, data_views(data@), tensor_outcome(r)),
        evaluated_full(tensor_outcome(r)),
    decreases expr, 0int,
{
    let ghost all = data_views(data@);
    match expr {
        Expr::MatVec { matrix, vector } => {
            let l: Result<Option<Tensor>, Error> = evaluate_optional_data_expr(ops, matrix, data);
            assert(data_evaluated(ops, expr_view(**matrix), all, tensor_outcome(l)));
            let ghost l_out = tensor_outcome(l);
            match l {
                Ok(Some(a)) => {
                    let r: Result<Option<Tensor>, Error> = evaluate_optional_data_expr(
                        ops,
                        vector,
                        data,
                    );
                    assert(data_evaluated(ops, expr_view(**vector), all, tensor_outcome(r)));
                    let ghost r_out = tensor_outcome(r);
                    match r {
                        Ok(Some(b)) => {
                            let value: Result<Tensor, Error> = ops.product(&a, &b);
                            assert(ops.product_gives(a@, b@, outcome(value)));
                            assert(product_constant(ops, l_out, r_out, certain(outcome(value))));
                            some_tensor(value)
                        },
                        other => {
                            assert(product_constant(ops, l_out, r_out, r_out));
                            other
                        },
                    }
                },
                other => {
                    assert(product_constant(ops, l_out, l_out, l_out));
                    other
                },
            }
        },
        _ => Ok(None),
    }
}

fn index_data_expr<A: Arithmetic>(ops: &A, expr: &Expr, data: &Vec<(String, DataValue)>) -> (r: Result<
    Option<Tensor>,
    Error,
>)
    requires
        ops.reliable(),
        all_filled(data_views(data@)),
        expr is Index,
    ensures
        data_evaluated(ops, expr@, data_views(data@), tensor_outcome(r)),
        evaluated_full(tensor_outcome(r)),
    decreases expr, 0int,
{
    let ghost all = data_views(data@);
    match expr {
        Expr::Index { base, index } => {
            let b: Result<Option<Tensor>, Error> = evaluate_optional_data_expr(ops, base, data);
            assert(data_evaluated(ops, expr_view(**base), all, tensor_outcome(b)));
            let ghost b_out = tensor_outcome(b);
            match b {
                Ok(Some(t)) => {
                    let atoms: Result<Option<Vec<IndexAtom>>, Error> = evaluate_optional_data_index(
                        ops,
                        index,
                        data,
                    );
                    assert(data_index_evaluated(
                        ops,
                        index_view(*index),
                        all,
                        atoms_outcome(atoms),
                    ));
                    let ghost a_out = atoms_outcome(atoms);
                    match atoms {
                        Ok(Some(list)) => {
                            let value: Result<Tensor, Error> = ops.gather(&t, &list);
                            let ghost known_atoms = views(list@);
                            assert(a_out == Ok::<Option<Seq<AtomModel>>, Fault>(Some(known_atoms)));
                            assert(b_out == Ok::<Option<TensorModel>, Fault>(Some(t@)));
                            assert(ops.gather_gives(t@, known_atoms, outcome(value)));
                            proof {
                                lemma_gathered(ops, b_out, a_out, outcome(value));
                            }
                            some_tensor(value)
                        },
                        Ok(None) => {
                            assert(gather_constant(ops, b_out, a_out, Ok(None)));
                            Ok(None)
                        },
                        Err(error) => {
                            assert(gather_constant(ops, b_out, a_out, Err(error@)));
                            Err(error)
                        },
                    }
                },
                other => {
                    assert(gather_constant(ops, b_out, Ok(None), b_out));
                    other
                },
            }
        },
        _ => Ok(None),
    }
}

fn evaluate_optional_data_index<A: Arithmetic>(
    ops: &A,
    index: &IndexSpec,
    data: &Vec<(String, DataValue)>,
) -> (r: Result<Option<Vec<IndexAtom>>, Error>)
    requires
        ops.reliable(),
        all_filled(data_views(data@)),
    ensures
        data_index_evaluated(ops, index@, data_views(data@), atoms_outcome(r)),
    decreases index, 0int,
{
    broadcast use group_ir_views;

    let ghost all = data_views(data@);
    match index {
        IndexSpec::Full => {
            let out: Vec<IndexAtom> = vec![IndexAtom::Full];
            assert(views(out@) =~= seq![AtomModel::Full]);
            Ok(Some(out))
        },
        IndexSpec::Scalar(expr) => {
            let t: Result<Option<Tensor>, Error> = evaluate_optional_data_expr(ops, expr, data);
            assert(data_evaluated(ops, expr_view(**expr), all, tensor_outcome(t)));
            let ghost t_out = tensor_outcome(t);
            let out: Result<Option<Vec<IndexAtom>>, Error> = match t {
                Err(error) => Err(error),
                Ok(None) => Ok(None),
                Ok(Some(value)) => match index_part(
                    &value,
                    "VectorBounds support index values must be integers, got ",
                ) {
                    Err(error) => Err(error),
                    Ok(list) => Ok(Some(list)),
                },
            };
            assert(atom_constant(t_out, atoms_outcome(out)));
            out
        },
        IndexSpec::Tuple(items) => {
            let ghost parts = indices_view(items@);
            let mut atoms: Vec<IndexAtom> = Vec::new();
            assert(views(atoms@) =~= Seq::empty());
            let mut i: usize = 0;
            while i < items.len()
                invariant
                    i <= items.len(),
                    ops.reliable(),
                    all == data_views(data@),
                    all_filled(all),
                    *index == IndexSpec::Tuple(*items),
                    parts == indices_view(items@),
                    data_indices_evaluated(
                        ops,
                        parts.take(i as int),
                        all,
                        Ok(Some(views(atoms@))),
                    ),
                decreases items.len() - i,
            {
                broadcast use group_ir_views;

                let ghost done = parts.take(i + 1);
                proof {
                    assert(done.drop_last() =~= parts.take(i as int));
                    assert(parts[i as int] == items@[i as int]@);
                    assert(done.last() == items@[i as int]@);
                    assert(decreases_to!(*index => index->Tuple_0));
                    assert(decreases_to!(index->Tuple_0 => index->Tuple_0@));
                    assert(decreases_to!(items@ => items@[i as int]));
                }
                let item: Result<Option<Vec<IndexAtom>>, Error> = match &items[i] {
                    IndexSpec::Tuple(_) => Err(
                        malformed("nested index tuples are not supported".to_owned()),
                    ),
                    other => evaluate_optional_data_index(ops, other, data),
                };
                let ghost before = views(atoms@);
                match item {
                    Ok(Some(more)) => {
                        let ghost added = views(more@);
                        let mut rest: Vec<IndexAtom> = more;
                        atoms.append(&mut rest);
                        proof {
                            assert(views(atoms@) =~= before + added);
                            assert(atoms_extended(
                                before,
                                Ok(Some(added)),
                                Ok(Some(views(atoms@))),
                            ));
                            assert(data_indices_evaluated(
                                ops,
                                done,
                                all,
                                Ok(Some(views(atoms@))),
                            ));
                        }
                    },
                    Ok(None) => {
                        proof {
                            assert(atoms_extended(before, Ok(None), Ok(None)));
                            assert(data_indices_evaluated(ops, done, all, Ok(None)));
                            lemma_indices_stop(ops, parts, all, i + 1, Ok(None));
                        }
                        return Ok(None);
                    },
                    Err(error) => {
                        proof {
                            assert(atoms_extended(before, Err(error@), Err(error@)));
                            assert(data_indices_evaluated(ops, done, all, Err(error@)));
                            lemma_indices_stop(ops, parts, all, i + 1, Err(error@));
                        }
                        return Err(error);
                    },
                }
                i += 1;
            }
            assert(parts.take(i as int) =~= parts);
            Ok(Some(atoms))
        },
    }
}

} // verus!
