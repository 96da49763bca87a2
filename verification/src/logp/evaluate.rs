//! Evaluation of expressions over bound data and constrained values, as log densities need it.
//!
//! Indices must not depend on a constrained value, so that what is picked stays the same at every
//! point.

use vstd::prelude::*;

#[allow(unused_imports)]
use crate::bounds::integers_outcome;
use crate::data::DataValue;
#[allow(unused_imports)]
use crate::data::{data_views, DataModel};
use crate::error::{malformed, shape_mismatch, Error};
#[allow(unused_imports)]
use crate::error::{malformed_fault, outcome, shape_fault, Fault};
#[allow(unused_imports)]
use crate::investigation::ledger::views;
#[allow(unused_imports)]
use crate::investigation::manifest::list_outcome;
use crate::ir::{Expr, IndexSpec};
#[allow(unused_imports)]
use crate::ir::{expr_view, group_ir_views, index_view, indices_view, ExprModel, IndexModel};
use crate::model::find_data;
#[allow(unused_imports)]
use crate::model::{checked, data_named};
use crate::numerics::{Arithmetic, IndexAtom};
#[allow(unused_imports)]
use crate::numerics::{full_or_failed, AtomModel};
use crate::predictive::forward::{append_atoms, assemble, index_part, position_list, wrap_scatter_index, ForwardEnv};
#[allow(unused_imports)]
use crate::predictive::forward::{
    assembled, atom_read, atoms_joined, binary_joined, env_full, gather_joined, name_value, nested_fault,
    place_outcome, positions_of, product_joined, unary_joined, wrapped_index, EnvModel,
};
use crate::tensor::Tensor;
#[allow(unused_imports)]
use crate::tensor::TensorModel;

verus! {

/// Whether what an expression comes to depends on a constrained value.
pub open spec fn moves(e: ExprModel, data: Seq<(Seq<char>, DataModel)>) -> bool
    decreases e,
{
    match e {
        ExprModel::Param(name) => data_named(data, name) is None,
        ExprModel::Data(name) => data_named(data, name) is None,
        ExprModel::Const(_) => false,
        ExprModel::Bin { op, left, right } => moves(*left, data) || moves(*right, data),
        ExprModel::Unary { function, operand } => moves(*operand, data),
        ExprModel::MatVec { matrix, vector } => moves(*matrix, data) || moves(*vector, data),
        ExprModel::Index { base, index } => moves(*base, data),
        ExprModel::VectorScatter {
            length,
            observed_idx,
            observed_values,
            missing_idx,
            missing_values,
        } => moves(*observed_values, data) || moves(*missing_values, data),
    }
}

fn depends(expr: &Expr, data: &Vec<(String, DataValue)>) -> (r: bool)
    ensures
        r == moves(expr@, data_views(data@)),
    decreases expr,
{
    match expr {
        Expr::Param(name) => find_data(data, name.as_str()).is_none(),
        Expr::Data(name) => find_data(data, name.as_str()).is_none(),
        Expr::Const(_) => false,
        Expr::Bin { op: _, left, right } => depends(left, data) || depends(right, data),
        Expr::Unary { function: _, operand } => depends(operand, data),
        Expr::MatVec { matrix, vector } => depends(matrix, data) || depends(vector, data),
        Expr::Index { base, index: _ } => depends(base, data),
        Expr::VectorScatter {
            length: _,
            observed_idx: _,
            observed_values,
            missing_idx: _,
            missing_values,
        } => depends(observed_values, data) || depends(missing_values, data),
    }
}

/// The failure of an index that depends on a constrained value.
pub open spec fn dependent_fault() -> Fault {
    malformed_fault("index expressions must not depend on parameters"@)
}

fn dependent() -> (r: Error)
    ensures
        r@ == dependent_fault(),
{
    malformed("index expressions must not depend on parameters".to_owned())
}

/// What an index expression came to, if it may stand in an index.
pub open spec fn guarded(env: EnvModel, e: ExprModel, t: Result<TensorModel, Fault>) -> Result<
    TensorModel,
    Fault,
> {
    if t is Ok && moves(e, env.data) {
        Err(dependent_fault())
    } else {
        t
    }
}

/// The first of the positions from one on that lies outside a vector.
pub open spec fn outside_from(positions: Seq<i64>, len: usize, i: int) -> Option<Fault>
    decreases positions.len() - i,
{
    if i < 0 || i >= positions.len() {
        None
    } else {
        match wrapped_index(positions[i], len) {
            Err(fault) => Some(fault),
            Ok(_) => outside_from(positions, len, i + 1),
        }
    }
}

fn check_positions(positions: &Vec<i64>, len: usize) -> (r: Result<(), Error>)
    ensures
        checked(r) == outside_from(positions@, len, 0),
{
    let mut i: usize = 0;
    while i < positions.len()
        invariant
            i <= positions.len(),
            outside_from(positions@, len, 0) == outside_from(positions@, len, i as int),
        decreases positions.len() - i,
    {
        let place: Result<usize, Error> = wrap_scatter_index(positions[i], len);
        assert(place_outcome(place) == wrapped_index(positions@[i as int], len));
        if let Err(error) = place {
            return Err(error);
        }
        i += 1;
    }
    Ok(())
}

/// A vector assembled from observed and missing entries, once every position lies inside.
pub open spec fn placed(
    there: Seq<i64>,
    gone: Seq<i64>,
    seen: TensorModel,
    unseen: TensorModel,
) -> Result<TensorModel, Fault> {
    let len = there.len() + gone.len();
    if len > usize::MAX {
        Err(shape_fault("scatter values must match their index vectors in length"@))
    } else {
        match outside_from(there, len as usize, 0) {
            Some(fault) => Err(fault),
            None => match outside_from(gone, len as usize, 0) {
                Some(fault) => Err(fault),
                None => assembled(there, gone, seen, unseen),
            },
        }
    }
}

fn place(there: &Vec<i64>, gone: &Vec<i64>, seen: &Tensor, unseen: &Tensor) -> (r: Result<
    Tensor,
    Error,
>)
    ensures
        outcome(r) == placed(there@, gone@, seen@, unseen@),
        full_or_failed(outcome(r)),
{
    let len: usize = match there.len().checked_add(gone.len()) {
        Some(len) => len,
        None => {
            return Err(
                shape_mismatch(
                    "scatter values must match their index vectors in length".to_owned(),
                ),
            );
        },
    };
    if let Err(error) = check_positions(there, len) {
        return Err(error);
    }
    if let Err(error) = check_positions(gone, len) {
        return Err(error);
    }
    assemble(there, gone, seen, unseen)
}

/// What a scatter comes to, by what its four parts came to.
pub open spec fn placed_of(
    observed_idx: Result<TensorModel, Fault>,
    missing_idx: Result<TensorModel, Fault>,
    observed: Result<TensorModel, Fault>,
    missing: Result<TensorModel, Fault>,
) -> Result<TensorModel, Fault> {
    match positions_of(observed_idx) {
        Err(fault) => Err(fault),
        Ok(there) => match positions_of(missing_idx) {
            Err(fault) => Err(fault),
            Ok(gone) => match observed {
                Err(fault) => Err(fault),
                Ok(seen) => match missing {
                    Err(fault) => Err(fault),
                    Ok(unseen) => placed(there, gone, seen, unseen),
                },
            },
        },
    }
}

pub open spec fn scatter_settled(
    observed_idx: Result<TensorModel, Fault>,
    missing_idx: Result<TensorModel, Fault>,
    observed: Result<TensorModel, Fault>,
    missing: Result<TensorModel, Fault>,
    out: Result<TensorModel, Fault>,
) -> bool {
    out == placed_of(observed_idx, missing_idx, observed, missing)
}

/// Whether evaluating an expression can come to that.
pub open spec fn settled<A: Arithmetic>(
    ops: &A,
    e: ExprModel,
    env: EnvModel,
    out: Result<TensorModel, Fault>,
) -> bool
    decreases e,
{
    match e {
        ExprModel::Param(name) => out == name_value(env, name),
        ExprModel::Data(name) => out == name_value(env, name),
        ExprModel::Const(value) => out == Ok::<TensorModel, Fault>(
            TensorModel { shape: Seq::empty(), values: seq![value] },
        ),
        ExprModel::Bin { op, left, right } => exists|
            l: Result<TensorModel, Fault>,
            r: Result<TensorModel, Fault>,
        | #[trigger]
            binary_joined(ops, op, l, r, out) && settled(ops, *left, env, l) && (l is Ok
                ==> settled(ops, *right, env, r)),
        ExprModel::Unary { function, operand } => exists|o: Result<TensorModel, Fault>| #[trigger]
            unary_joined(ops, function, o, out) && settled(ops, *operand, env, o),
        ExprModel::MatVec { matrix, vector } => exists|
            l: Result<TensorModel, Fault>,
            r: Result<TensorModel, Fault>,
        | #[trigger]
            product_joined(ops, l, r, out) && settled(ops, *matrix, env, l) && (l is Ok
                ==> settled(ops, *vector, env, r)),
        ExprModel::Index { base, index } => exists|
            b: Result<TensorModel, Fault>,
            atoms: Result<Seq<AtomModel>, Fault>,
        | #[trigger]
            gather_joined(ops, b, atoms, out) && settled(ops, *base, env, b) && (b is Ok
                ==> index_settled(ops, index, env, atoms)),
        ExprModel::VectorScatter {
            length,
            observed_idx,
            observed_values,
            missing_idx,
            missing_values,
        } => exists|
            oi: Result<TensorModel, Fault>,
            mi: Result<TensorModel, Fault>,
            ov: Result<TensorModel, Fault>,
            mv: Result<TensorModel, Fault>,
        | #[trigger]
            scatter_settled(
                guarded(env, *observed_idx, oi),
                guarded(env, *missing_idx, mi),
                ov,
                mv,
                out,
            ) && settled(ops, *observed_idx, env, oi) && (positions_of(
                guarded(env, *observed_idx, oi),
            ) is Ok ==> settled(ops, *missing_idx, env, mi)) && (positions_of(
                guarded(env, *observed_idx, oi),
            ) is Ok && positions_of(guarded(env, *missing_idx, mi)) is Ok ==> settled(
                ops,
                *observed_values,
                env,
                ov,
            )) && (positions_of(guarded(env, *observed_idx, oi)) is Ok && positions_of(
                guarded(env, *missing_idx, mi),
            ) is Ok && ov is Ok ==> settled(ops, *missing_values, env, mv)),
    }
}

/// Whether evaluating an index can come to that.
pub open spec fn index_settled<A: Arithmetic>(
    ops: &A,
    index: IndexModel,
    env: EnvModel,
    out: Result<Seq<AtomModel>, Fault>,
) -> bool
    decreases index,
{
    match index {
        IndexModel::Full => out == Ok::<Seq<AtomModel>, Fault>(seq![AtomModel::Full]),
        IndexModel::Scalar(e) => exists|t: Result<TensorModel, Fault>| #[trigger]
            atom_read(guarded(env, *e, t), "index values must be integers, got "@, out) && settled(
                ops,
                *e,
                env,
                t,
            ),
        IndexModel::Tuple(items) => indices_settled(ops, items, env, out),
    }
}

/// Whether evaluating the items of an index tuple can come to that.
pub open spec fn indices_settled<A: Arithmetic>(
    ops: &A,
    items: Seq<IndexModel>,
    env: EnvModel,
    out: Result<Seq<AtomModel>, Fault>,
) -> bool
    decreases items,
{
    if items.len() == 0 {
        out == Ok::<Seq<AtomModel>, Fault>(Seq::empty())
    } else {
        ||| out is Err && indices_settled(ops, items.drop_last(), env, out)
        ||| exists|before: Seq<AtomModel>, item: Result<Seq<AtomModel>, Fault>| #[trigger]
            atoms_joined(before, item, out) && indices_settled(
                ops,
                items.drop_last(),
                env,
                Ok(before),
            ) && (if items.last() is Tuple {
                item == Err::<Seq<AtomModel>, Fault>(nested_fault())
            } else {
                index_settled(ops, items.last(), env, item)
            })
    }
}

proof fn lemma_settled_fail<A: Arithmetic>(
    ops: &A,
    items: Seq<IndexModel>,
    env: EnvModel,
    n: int,
    fault: Fault,
)
    requires
        0 <= n <= items.len(),
        indices_settled(ops, items.take(n), env, Err(fault)),
    ensures
        indices_settled(ops, items, env, Err(fault)),
    decreases items.len(),
{
    if n < items.len() {
        assert(items.drop_last().take(n) =~= items.take(n));
        lemma_settled_fail(ops, items.drop_last(), env, n, fault);
    } else {
        assert(items.take(n) =~= items);
    }
}

/// What expressions are evaluated over: bound data first, and constrained values by their names.
#[derive(Debug)]
pub struct Env {
    pub known: ForwardEnv,
}

impl View for Env {
    type V = EnvModel;

    open spec fn view(&self) -> EnvModel {
        self.known@
    }
}

impl Env {
    fn positions(&self, expr: &Expr, t: &Tensor) -> (r: Result<Vec<i64>, Error>)
        ensures
            integers_outcome(r) == positions_of(guarded(self@, expr@, Ok(t@))),
    {
        if depends(expr, &self.known.data) {
            Err(dependent())
        } else {
            position_list(t)
        }
    }

    /// The value of an expression.
    pub fn evaluate<A: Arithmetic>(&self, ops: &A, expr: &Expr) -> (r: Result<Tensor, Error>)
        requires
            ops.reliable(),
            env_full(self@),
        ensures
            settled(ops, expr@, self@, outcome(r)),
            full_or_failed(outcome(r)),
        decreases expr, 1int,
    {
        let ghost env = self@;
        match expr {
            Expr::Param(name) => self.known.name_tensor(name.as_str()),
            Expr::Data(name) => self.known.name_tensor(name.as_str()),
            Expr::Const(value) => Ok(Tensor::scalar(value.copy())),
            Expr::Bin { .. } => self.evaluate_bin(ops, expr),
            Expr::Unary { function, operand } => {
                let o: Result<Tensor, Error> = self.evaluate(ops, operand);
                assert(settled(ops, expr_view(**operand), env, outcome(o)));
                match o {
                    Err(error) => {
                        assert(unary_joined(ops, *function, Err(error@), Err(error@)));
                        Err(error)
                    },
                    Ok(t) => {
                        let out: Tensor = ops.unary(*function, &t);
                        assert(unary_joined(ops, *function, Ok(t@), Ok(out@)));
                        Ok(out)
                    },
                }
            },
            Expr::MatVec { .. } => self.evaluate_product(ops, expr),
            Expr::Index { .. } => self.evaluate_pick(ops, expr),
            Expr::VectorScatter { .. } => self.evaluate_scatter(ops, expr),
        }
    }

    fn evaluate_bin<A: Arithmetic>(&self, ops: &A, expr: &Expr) -> (r: Result<Tensor, Error>)
        requires
            ops.reliable(),
            env_full(self@),
            expr is Bin,
        ensures
            settled(ops, expr@, self@, outcome(r)),
            full_or_failed(outcome(r)),
        decreases expr, 0int,
    {
        let ghost env = self@;
        match expr {
            Expr::Bin { op, left, right } => {
                let l: Result<Tensor, Error> = self.evaluate(ops, left);
                assert(settled(ops, expr_view(**left), env, outcome(l)));
                match l {
                    Err(error) => {
                        assert(binary_joined(ops, *op, Err(error@), Err(error@), Err(error@)));
                        Err(error)
                    },
                    Ok(a) => {
                        let r: Result<Tensor, Error> = self.evaluate(ops, right);
                        assert(settled(ops, expr_view(**right), env, outcome(r)));
                        match r {
                            Err(error) => {
                                assert(binary_joined(ops, *op, Ok(a@), Err(error@), Err(error@)));
                                Err(error)
                            },
                            Ok(b) => {
                                let out: Result<Tensor, Error> = ops.binary(*op, &a, &b);
                                assert(binary_joined(ops, *op, Ok(a@), Ok(b@), outcome(out)));
                                out
                            },
                        }
                    },
                }
            },
            _ => Err(malformed(String::new())),
        }
    }

    fn evaluate_product<A: Arithmetic>(&self, ops: &A, expr: &Expr) -> (r: Result<Tensor, Error>)
        requires
            ops.reliable(),
            env_full(self@),
            expr is MatVec,
        ensures
            settled(ops, expr@, self@, outcome(r)),
            full_or_failed(outcome(r)),
        decreases expr, 0int,
    {
        let ghost env = self@;
        match expr {
            Expr::MatVec { matrix, vector } => {
                let l: Result<Tensor, Error> = self.evaluate(ops, matrix);
                assert(settled(ops, expr_view(**matrix), env, outcome(l)));
                match l {
                    Err(error) => {
                        assert(product_joined(ops, Err(error@), Err(error@), Err(error@)));
                        Err(error)
                    },
                    Ok(a) => {
                        let r: Result<Tensor, Error> = self.evaluate(ops, vector);
                        assert(settled(ops, expr_view(**vector), env, outcome(r)));
                        match r {
                            Err(error) => {
                                assert(product_joined(ops, Ok(a@), Err(error@), Err(error@)));
                                Err(error)
                            },
                            Ok(b) => {
                                let out: Result<Tensor, Error> = ops.product(&a, &b);
                                assert(product_joined(ops, Ok(a@), Ok(b@), outcome(out)));
                                out
                            },
                        }
                    },
                }
            },
            _ => Err(malformed(String::new())),
        }
    }

    fn evaluate_pick<A: Arithmetic>(&self, ops: &A, expr: &Expr) -> (r: Result<Tensor, Error>)
        requires
            ops.reliable(),
            env_full(self@),
            expr is Index,
        ensures
            settled(ops, expr@, self@, outcome(r)),
            full_or_failed(outcome(r)),
        decreases expr, 0int,
    {
        let ghost env = self@;
        match expr {
            Expr::Index { base, index } => {
                let b: Result<Tensor, Error> = self.evaluate(ops, base);
                assert(settled(ops, expr_view(**base), env, outcome(b)));
                match b {
                    Err(error) => {
                        assert(gather_joined(ops, Err(error@), Err(error@), Err(error@)));
                        Err(error)
                    },
                    Ok(t) => {
                        let atoms: Result<Vec<IndexAtom>, Error> = self.evaluate_index_spec(
                            ops,
                            index,
                        );
                        assert(index_settled(ops, index_view(*index), env, list_outcome(atoms)));
                        match atoms {
                            Err(error) => {
                                assert(gather_joined(ops, Ok(t@), Err(error@), Err(error@)));
                                Err(error)
                            },
                            Ok(list) => {
                                let out: Result<Tensor, Error> = ops.gather(&t, &list);
                                assert(gather_joined(ops, Ok(t@), Ok(views(list@)), outcome(out)));
                                out
                            },
                        }
                    },
                }
            },
            _ => Err(malformed(String::new())),
        }
    }

    fn evaluate_scatter<A: Arithmetic>(&self, ops: &A, expr: &Expr) -> (r: Result<Tensor, Error>)
        requires
            ops.reliable(),
            env_full(self@),
            expr is VectorScatter,
        ensures
            settled(ops, expr@, self@, outcome(r)),
            full_or_failed(outcome(r)),
        decreases expr, 0int,
    {
        let ghost env = self@;
        match expr {
            Expr::VectorScatter { length: _, observed_idx, observed_values, missing_idx, missing_values } => {
                let oi: Result<Tensor, Error> = self.evaluate(ops, observed_idx);
                assert(settled(ops, expr_view(**observed_idx), env, outcome(oi)));
                let there: Vec<i64>;
                let ghost oi_out = outcome(oi);
                let ghost first = guarded(env, expr_view(**observed_idx), oi_out);
                match oi {
                    Err(error) => {
                        assert(scatter_settled(first, guarded(env, expr_view(**missing_idx), oi_out), oi_out, oi_out, Err(error@)));
                        return Err(error);
                    },
                    Ok(t) => match self.positions(observed_idx, &t) {
                        Err(error) => {
                            assert(scatter_settled(first, guarded(env, expr_view(**missing_idx), oi_out), oi_out, oi_out, Err(error@)));
                            return Err(error);
                        },
                        Ok(list) => {
                            there = list;
                        },
                    },
                }
                let mi: Result<Tensor, Error> = self.evaluate(ops, missing_idx);
                assert(settled(ops, expr_view(**missing_idx), env, outcome(mi)));
                let gone: Vec<i64>;
                let ghost mi_out = outcome(mi);
                let ghost second = guarded(env, expr_view(**missing_idx), mi_out);
                match mi {
                    Err(error) => {
                        assert(scatter_settled(first, second, oi_out, oi_out, Err(error@)));
                        return Err(error);
                    },
                    Ok(t) => match self.positions(missing_idx, &t) {
                        Err(error) => {
                            assert(scatter_settled(first, second, oi_out, oi_out, Err(error@)));
                            return Err(error);
                        },
                        Ok(list) => {
                            gone = list;
                        },
                    },
                }
                let ov: Result<Tensor, Error> = self.evaluate(ops, observed_values);
                assert(settled(ops, expr_view(**observed_values), env, outcome(ov)));
                let ghost ov_out = outcome(ov);
                let seen: Tensor = match ov {
                    Err(error) => {
                        assert(scatter_settled(first, second, ov_out, oi_out, Err(error@)));
                        return Err(error);
                    },
                    Ok(t) => t,
                };
                let mv: Result<Tensor, Error> = self.evaluate(ops, missing_values);
                assert(settled(ops, expr_view(**missing_values), env, outcome(mv)));
                let ghost mv_out = outcome(mv);
                let unseen: Tensor = match mv {
                    Err(error) => {
                        assert(scatter_settled(first, second, ov_out, mv_out, Err(error@)));
                        return Err(error);
                    },
                    Ok(t) => t,
                };
                let out: Result<Tensor, Error> = place(&there, &gone, &seen, &unseen);
                assert(scatter_settled(first, second, ov_out, mv_out, outcome(out)));
                out
            },
            _ => Err(malformed(String::new())),
        }
    }

    fn evaluate_index_spec<A: Arithmetic>(&self, ops: &A, spec_of: &IndexSpec) -> (r: Result<
        Vec<IndexAtom>,
        Error,
    >)
        requires
            ops.reliable(),
            env_full(self@),
        ensures
            index_settled(ops, spec_of@, self@, list_outcome(r)),
        decreases spec_of, 0int,
    {
        broadcast use group_ir_views;

        let ghost env = self@;
        match spec_of {
            IndexSpec::Full => {
                let out: Vec<IndexAtom> = vec![IndexAtom::Full];
                assert(views(out@) =~= seq![AtomModel::Full]);
                Ok(out)
            },
            IndexSpec::Scalar(expr) => {
                let t: Result<Tensor, Error> = self.evaluate(ops, expr);
                assert(settled(ops, expr_view(**expr), env, outcome(t)));
                let ghost t_out = outcome(t);
                let out: Result<Vec<IndexAtom>, Error> = match t {
                    Err(error) => Err(error),
                    Ok(value) => if depends(expr, &self.known.data) {
                        Err(dependent())
                    } else {
                        index_part(&value, "index values must be integers, got ")
                    },
                };
                assert(atom_read(
                    guarded(env, expr_view(**expr), t_out),
                    "index values must be integers, got "@,
                    list_outcome(out),
                ));
                out
            },
            IndexSpec::Tuple(items) => {
                let ghost all = indices_view(items@);
                let mut atoms: Vec<IndexAtom> = Vec::new();
                assert(views(atoms@) =~= Seq::empty());
                let mut i: usize = 0;
                while i < items.len()
                    invariant
                        i <= items.len(),
                        ops.reliable(),
                        env == self@,
                        env_full(env),
                        *spec_of == IndexSpec::Tuple(*items),
                        all == indices_view(items@),
                        indices_settled(ops, all.take(i as int), env, Ok(views(atoms@))),
                    decreases items.len() - i,
                {
                    broadcast use group_ir_views;

                    let ghost done = all.take(i + 1);
                    proof {
                        assert(done.drop_last() =~= all.take(i as int));
                        assert(all[i as int] == items@[i as int]@);
                        assert(done.last() == items@[i as int]@);
                        assert(decreases_to!(*spec_of => spec_of->Tuple_0));
                        assert(decreases_to!(spec_of->Tuple_0 => spec_of->Tuple_0@));
                        assert(decreases_to!(items@ => items@[i as int]));
                    }
                    let item: Result<Vec<IndexAtom>, Error> = match &items[i] {
                        IndexSpec::Tuple(_) => Err(
                            malformed("nested index tuples are not supported".to_owned()),
                        ),
                        other => self.evaluate_index_spec(ops, other),
                    };
                    let ghost before = views(atoms@);
                    match item {
                        Err(error) => {
                            proof {
                                let failed = Err::<Seq<AtomModel>, Fault>(error@);
                                assert(atoms_joined(before, failed, failed));
                                assert(indices_settled(ops, done, env, failed));
                                lemma_settled_fail(ops, all, env, i + 1, error@);
                            }
                            return Err(error);
                        },
                        Ok(more) => {
                            let ghost added = views(more@);
                            append_atoms(&mut atoms, more);
                            proof {
                                assert(views(atoms@) =~= before + added);
                                assert(atoms_joined(before, Ok(added), Ok(views(atoms@))));
                                assert(indices_settled(ops, done, env, Ok(views(atoms@))));
                            }
                        },
                    }
                    i += 1;
                }
                assert(all.take(i as int) =~= all);
                Ok(atoms)
            },
        }
    }
}

} // verus!
