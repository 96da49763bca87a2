//! Over services that give one answer to one question, evaluation and simulation come to one
//! outcome only.

use vstd::prelude::*;

#[allow(unused_imports)]
use crate::bounds::{EdgesModel, ResolvedModel, SupportModel};
#[allow(unused_imports)]
use crate::constants::{
    atom_constant, atoms_extended, binary_constant, data_evaluated, data_index_evaluated, data_indices_evaluated,
    gather_constant, known, product_constant, unary_constant, Constant, ConstantAtoms,
};
#[allow(unused_imports)]
use crate::data::DataModel;
#[allow(unused_imports)]
use crate::error::Fault;
#[allow(unused_imports)]
use crate::ir::{
    dist_params, optional_param, resolved_free, resolved_sites, BinOpKind, ConstraintModel, DistModel, ExprModel,
    FreeModel, IndexModel, MetaModel, SiteModel, UnaryFn,
};
#[allow(unused_imports)]
use crate::number::NumberModel;
#[allow(unused_imports)]
use crate::numerics::{Arithmetic, AtomModel, DrawModel, Randomness};
#[allow(unused_imports)]
use crate::posterior::{resolves, support_values, supported};
#[allow(unused_imports)]
use crate::tensor::TensorModel;

#[allow(unused_imports)]
use super::cells::{cell_drawn, FamilyModel};
#[allow(unused_imports)]
use super::forward::{
    atom_read, atoms_joined, binary_joined, evaluated, gather_joined, index_evaluated, indices_evaluated, positions_of,
    product_joined, scatter_joined, unary_joined, EnvModel,
};
#[allow(unused_imports)]
use super::partial::{
    missing_drawn, partial_drawn, vector_drawn_at, vector_drawn_of, PartialModel, StepModel,
};
#[allow(unused_imports)]
use super::prior::{
    data_drawn, param_drawn, prior_extended, prior_simulated, row_drawn, row_extended, rows_drawn, site_drawn,
    RowModel,
};
#[allow(unused_imports)]
use super::records::RunModel;
#[allow(unused_imports)]
use super::restricted::{
    bounded_labels, bounded_params, constrained_sampled, exponential_within, kinds_drawn, restricted_sampled,
    satisfies, scalar_read, scalars_read, vector_within, MAX_TRIES,
};
#[allow(unused_imports)]
use super::sampling::{
    all_evaluated, all_spread, bounded_sampled, cells_drawn, cells_sampled, correlated_sampled, extended, grid_drawn,
    number_extended, ordered_sampled, param_spread, plain_sampled, row_at, sampled, shape_chosen, shape_joined,
    shape_sampled, shapes_of, truncation_sampled, vector_drawn, vector_sampled,
};
#[allow(unused_imports)]
use super::setup::{free_shapes, spec_extended, specs_laid, specs_resolved, FreeSpecModel};
#[allow(unused_imports)]
use super::vector::{normal_vector, normals_drawn, row_combined, vector_combined};

verus! {

/// Operations on tensors come to one answer only.
pub open spec fn steady_ops<A: Arithmetic>(ops: &A) -> bool {
    &&& forall|
        op: BinOpKind,
        a: TensorModel,
        b: TensorModel,
        x: Result<TensorModel, Fault>,
        y: Result<TensorModel, Fault>,
    |
        #![trigger ops.binary_gives(op, a, b, x), ops.binary_gives(op, a, b, y)]
        ops.binary_gives(op, a, b, x) && ops.binary_gives(op, a, b, y) ==> x == y
    &&& forall|f: UnaryFn, a: TensorModel, x: TensorModel, y: TensorModel|
        #![trigger ops.unary_gives(f, a, x), ops.unary_gives(f, a, y)]
        ops.unary_gives(f, a, x) && ops.unary_gives(f, a, y) ==> x == y
    &&& forall|
        a: TensorModel,
        b: TensorModel,
        x: Result<TensorModel, Fault>,
        y: Result<TensorModel, Fault>,
    |
        #![trigger ops.product_gives(a, b, x), ops.product_gives(a, b, y)]
        ops.product_gives(a, b, x) && ops.product_gives(a, b, y) ==> x == y
    &&& forall|
        a: TensorModel,
        atoms: Seq<AtomModel>,
        x: Result<TensorModel, Fault>,
        y: Result<TensorModel, Fault>,
    |
        #![trigger ops.gather_gives(a, atoms, x), ops.gather_gives(a, atoms, y)]
        ops.gather_gives(a, atoms, x) && ops.gather_gives(a, atoms, y) ==> x == y
    &&& forall|
        a: Seq<usize>,
        b: Seq<usize>,
        x: Result<Seq<usize>, Fault>,
        y: Result<Seq<usize>, Fault>,
    |
        #![trigger ops.joint_gives(a, b, x), ops.joint_gives(a, b, y)]
        ops.joint_gives(a, b, x) && ops.joint_gives(a, b, y) ==> x == y
    &&& forall|
        a: TensorModel,
        shape: Seq<usize>,
        x: Result<TensorModel, Fault>,
        y: Result<TensorModel, Fault>,
    |
        #![trigger ops.spread_gives(a, shape, x), ops.spread_gives(a, shape, y)]
        ops.spread_gives(a, shape, x) && ops.spread_gives(a, shape, y) ==> x == y
}

/// A source of random numbers comes to one answer only: it is a function of its state.
pub open spec fn steady_rand<N: Randomness>(rand: &N) -> bool {
    &&& forall|seed: u64, x: N::Source, y: N::Source|
        #![trigger rand.start_gives(seed, x), rand.start_gives(seed, y)]
        rand.start_gives(seed, x) && rand.start_gives(seed, y) ==> x == y
    &&& forall|
        s: N::Source,
        kind: DrawModel,
        x: Result<(NumberModel, N::Source), Fault>,
        y: Result<(NumberModel, N::Source), Fault>,
    |
        #![trigger rand.draw_gives(s, kind, x), rand.draw_gives(s, kind, y)]
        rand.draw_gives(s, kind, x) && rand.draw_gives(s, kind, y) ==> x == y
    &&& forall|s: N::Source, m: NumberModel, n: NumberModel, x: N::Source, y: N::Source|
        #![trigger rand.standard_gives(s, m, x), rand.standard_gives(s, n, y)]
        rand.standard_gives(s, m, x) && rand.standard_gives(s, n, y) ==> m == n && x == y
    &&& forall|v: NumberModel, f: NumberModel, z: NumberModel, x: NumberModel, y: NumberModel|
        #![trigger rand.step_gives(v, f, z, x), rand.step_gives(v, f, z, y)]
        rand.step_gives(v, f, z, x) && rand.step_gives(v, f, z, y) ==> x == y
}

proof fn lemma_one_value<A: Arithmetic>(
    ops: &A,
    e: ExprModel,
    env: EnvModel,
    x: Result<TensorModel, Fault>,
    y: Result<TensorModel, Fault>,
)
    requires
        steady_ops(ops),
        evaluated(ops, e, env, x),
        evaluated(ops, e, env, y),
    ensures
        x == y,
    decreases e,
{
    match e {
        ExprModel::Bin { op, left, right } => {
            let (l, r) = choose|l: Result<TensorModel, Fault>, r: Result<TensorModel, Fault>|
                #[trigger]
                binary_joined(ops, op, l, r, x) && evaluated(ops, *left, env, l) && (l is Ok
                    ==> evaluated(ops, *right, env, r));
            let (m, s) = choose|m: Result<TensorModel, Fault>, s: Result<TensorModel, Fault>|
                #[trigger]
                binary_joined(ops, op, m, s, y) && evaluated(ops, *left, env, m) && (m is Ok
                    ==> evaluated(ops, *right, env, s));
            lemma_one_value(ops, *left, env, l, m);
            if l is Ok {
                lemma_one_value(ops, *right, env, r, s);
            }
        },
        ExprModel::Unary { function, operand } => {
            let o = choose|o: Result<TensorModel, Fault>| #[trigger]
                unary_joined(ops, function, o, x) && evaluated(ops, *operand, env, o);
            let n = choose|n: Result<TensorModel, Fault>| #[trigger]
                unary_joined(ops, function, n, y) && evaluated(ops, *operand, env, n);
            lemma_one_value(ops, *operand, env, o, n);
        },
        ExprModel::MatVec { matrix, vector } => {
            let (l, r) = choose|l: Result<TensorModel, Fault>, r: Result<TensorModel, Fault>|
                #[trigger]
                product_joined(ops, l, r, x) && evaluated(ops, *matrix, env, l) && (l is Ok
                    ==> evaluated(ops, *vector, env, r));
            let (m, s) = choose|m: Result<TensorModel, Fault>, s: Result<TensorModel, Fault>|
                #[trigger]
                product_joined(ops, m, s, y) && evaluated(ops, *matrix, env, m) && (m is Ok
                    ==> evaluated(ops, *vector, env, s));
            lemma_one_value(ops, *matrix, env, l, m);
            if l is Ok {
                lemma_one_value(ops, *vector, env, r, s);
            }
        },
        ExprModel::Index { base, index } => {
            let (l, r) = choose|l: Result<TensorModel, Fault>, r: Result<Seq<AtomModel>, Fault>|
                #[trigger]
                gather_joined(ops, l, r, x) && evaluated(ops, *base, env, l) && (l is Ok
                    ==> index_evaluated(ops, index, env, r));
            let (m, s) = choose|m: Result<TensorModel, Fault>, s: Result<Seq<AtomModel>, Fault>|
                #[trigger]
                gather_joined(ops, m, s, y) && evaluated(ops, *base, env, m) && (m is Ok
                    ==> index_evaluated(ops, index, env, s));
            lemma_one_value(ops, *base, env, l, m);
            if l is Ok {
                lemma_one_index(ops, index, env, r, s);
            }
        },
        ExprModel::VectorScatter {
            length,
            observed_idx,
            observed_values,
            missing_idx,
            missing_values,
        } => {
            let (oi, mi, ov, mv) = choose|
                oi: Result<TensorModel, Fault>,
                mi: Result<TensorModel, Fault>,
                ov: Result<TensorModel, Fault>,
                mv: Result<TensorModel, Fault>,
            | #[trigger]
                scatter_joined(oi, mi, ov, mv, x) && evaluated(ops, *observed_idx, env, oi) && (
                positions_of(oi) is Ok ==> evaluated(ops, *missing_idx, env, mi)) && (
                positions_of(oi) is Ok && positions_of(mi) is Ok ==> evaluated(
                    ops,
                    *observed_values,
                    env,
                    ov,
                )) && (positions_of(oi) is Ok && positions_of(mi) is Ok && ov is Ok ==> evaluated(
                    ops,
                    *missing_values,
                    env,
                    mv,
                ));
            let (oj, mj, ow, mw) = choose|
                oi: Result<TensorModel, Fault>,
                mi: Result<TensorModel, Fault>,
                ov: Result<TensorModel, Fault>,
                mv: Result<TensorModel, Fault>,
            | #[trigger]
                scatter_joined(oi, mi, ov, mv, y) && evaluated(ops, *observed_idx, env, oi) && (
                positions_of(oi) is Ok ==> evaluated(ops, *missing_idx, env, mi)) && (
                positions_of(oi) is Ok && positions_of(mi) is Ok ==> evaluated(
                    ops,
                    *observed_values,
                    env,
                    ov,
                )) && (positions_of(oi) is Ok && positions_of(mi) is Ok && ov is Ok ==> evaluated(
                    ops,
                    *missing_values,
                    env,
                    mv,
                ));
            lemma_one_value(ops, *observed_idx, env, oi, oj);
            if positions_of(oi) is Ok {
                lemma_one_value(ops, *missing_idx, env, mi, mj);
                if positions_of(mi) is Ok {
                    lemma_one_value(ops, *observed_values, env, ov, ow);
                    if ov is Ok {
                        lemma_one_value(ops, *missing_values, env, mv, mw);
                    }
                }
            }
        },
        _ => {},
    }
}

proof fn lemma_one_index<A: Arithmetic>(
    ops: &A,
    index: IndexModel,
    env: EnvModel,
    x: Result<Seq<AtomModel>, Fault>,
    y: Result<Seq<AtomModel>, Fault>,
)
    requires
        steady_ops(ops),
        index_evaluated(ops, index, env, x),
        index_evaluated(ops, index, env, y),
    ensures
        x == y,
    decreases index,
{
    match index {
        IndexModel::Scalar(e) => {
            let complaint = "index values must be integers, got "@;
            let t = choose|t: Result<TensorModel, Fault>| #[trigger]
                atom_read(t, complaint, x) && evaluated(ops, *e, env, t);
            let u = choose|u: Result<TensorModel, Fault>| #[trigger]
                atom_read(u, complaint, y) && evaluated(ops, *e, env, u);
            lemma_one_value(ops, *e, env, t, u);
        },
        IndexModel::Tuple(items) => {
            lemma_one_tuple(ops, items, env, x, y);
        },
        _ => {},
    }
}

proof fn lemma_one_tuple<A: Arithmetic>(
    ops: &A,
    items: Seq<IndexModel>,
    env: EnvModel,
    x: Result<Seq<AtomModel>, Fault>,
    y: Result<Seq<AtomModel>, Fault>,
)
    requires
        steady_ops(ops),
        indices_evaluated(ops, items, env, x),
        indices_evaluated(ops, items, env, y),
    ensures
        x == y,
    decreases items,
{
    if items.len() > 0 {
        if x is Err && indices_evaluated(ops, items.drop_last(), env, x) {
            if y is Err && indices_evaluated(ops, items.drop_last(), env, y) {
                lemma_one_tuple(ops, items.drop_last(), env, x, y);
            } else {
                let (b, j) = choose|b: Seq<AtomModel>, j: Result<Seq<AtomModel>, Fault>| #[trigger]
                    atoms_joined(b, j, y) && indices_evaluated(ops, items.drop_last(), env, Ok(b))
                        && (if items.last() is Tuple {
                        j == Err::<Seq<AtomModel>, Fault>(super::forward::nested_fault())
                    } else {
                        index_evaluated(ops, items.last(), env, j)
                    });
                lemma_one_tuple(ops, items.drop_last(), env, x, Ok(b));
            }
        } else {
            let (a, i) = choose|b: Seq<AtomModel>, j: Result<Seq<AtomModel>, Fault>| #[trigger]
                    atoms_joined(b, j, x) && indices_evaluated(ops, items.drop_last(), env, Ok(b))
                        && (if items.last() is Tuple {
                        j == Err::<Seq<AtomModel>, Fault>(super::forward::nested_fault())
                    } else {
                        index_evaluated(ops, items.last(), env, j)
                    });
            if y is Err && indices_evaluated(ops, items.drop_last(), env, y) {
                lemma_one_tuple(ops, items.drop_last(), env, Ok(a), y);
            } else {
                let (b, j) = choose|b: Seq<AtomModel>, j: Result<Seq<AtomModel>, Fault>| #[trigger]
                    atoms_joined(b, j, y) && indices_evaluated(ops, items.drop_last(), env, Ok(b))
                        && (if items.last() is Tuple {
                        j == Err::<Seq<AtomModel>, Fault>(super::forward::nested_fault())
                    } else {
                        index_evaluated(ops, items.last(), env, j)
                    });
                lemma_one_tuple(ops, items.drop_last(), env, Ok(a), Ok(b));
                if !(items.last() is Tuple) {
                    lemma_one_index(ops, items.last(), env, i, j);
                }
            }
        }
    }
}

proof fn lemma_one_constant<A: Arithmetic>(
    ops: &A,
    e: ExprModel,
    data: Seq<(Seq<char>, DataModel)>,
    x: Constant,
    y: Constant,
)
    requires
        steady_ops(ops),
        data_evaluated(ops, e, data, x),
        data_evaluated(ops, e, data, y),
    ensures
        x == y,
    decreases e,
{
    match e {
        ExprModel::Bin { op, left, right } => {
            let (l, r) = choose|l: Constant, r: Constant| #[trigger]
                binary_constant(ops, op, l, r, x) && data_evaluated(ops, *left, data, l) && (known(l)
                    ==> data_evaluated(ops, *right, data, r));
            let (m, s) = choose|m: Constant, s: Constant| #[trigger]
                binary_constant(ops, op, m, s, y) && data_evaluated(ops, *left, data, m) && (known(m)
                    ==> data_evaluated(ops, *right, data, s));
            lemma_one_constant(ops, *left, data, l, m);
            if known(l) {
                lemma_one_constant(ops, *right, data, r, s);
            }
        },
        ExprModel::Unary { function, operand } => {
            let o = choose|o: Constant| #[trigger]
                unary_constant(ops, function, o, x) && data_evaluated(ops, *operand, data, o);
            let n = choose|n: Constant| #[trigger]
                unary_constant(ops, function, n, y) && data_evaluated(ops, *operand, data, n);
            lemma_one_constant(ops, *operand, data, o, n);
        },
        ExprModel::MatVec { matrix, vector } => {
            let (l, r) = choose|l: Constant, r: Constant| #[trigger]
                product_constant(ops, l, r, x) && data_evaluated(ops, *matrix, data, l) && (known(l)
                    ==> data_evaluated(ops, *vector, data, r));
            let (m, s) = choose|m: Constant, s: Constant| #[trigger]
                product_constant(ops, m, s, y) && data_evaluated(ops, *matrix, data, m) && (known(m)
                    ==> data_evaluated(ops, *vector, data, s));
            lemma_one_constant(ops, *matrix, data, l, m);
            if known(l) {
                lemma_one_constant(ops, *vector, data, r, s);
            }
        },
        ExprModel::Index { base, index } => {
            let (l, r) = choose|l: Constant, r: ConstantAtoms| #[trigger]
                gather_constant(ops, l, r, x) && data_evaluated(ops, *base, data, l) && (known(l)
                    ==> data_index_evaluated(ops, index, data, r));
            let (m, s) = choose|m: Constant, s: ConstantAtoms| #[trigger]
                gather_constant(ops, m, s, y) && data_evaluated(ops, *base, data, m) && (known(m)
                    ==> data_index_evaluated(ops, index, data, s));
            lemma_one_constant(ops, *base, data, l, m);
            if known(l) {
                lemma_one_constant_index(ops, index, data, r, s);
            }
        },
        _ => {},
    }
}

proof fn lemma_one_constant_index<A: Arithmetic>(
    ops: &A,
    index: IndexModel,
    data: Seq<(Seq<char>, DataModel)>,
    x: ConstantAtoms,
    y: ConstantAtoms,
)
    requires
        steady_ops(ops),
        data_index_evaluated(ops, index, data, x),
        data_index_evaluated(ops, index, data, y),
    ensures
        x == y,
    decreases index,
{
    match index {
        IndexModel::Scalar(e) => {
            let t = choose|t: Constant| #[trigger]
                atom_constant(t, x) && data_evaluated(ops, *e, data, t);
            let u = choose|u: Constant| #[trigger]
                atom_constant(u, y) && data_evaluated(ops, *e, data, u);
            lemma_one_constant(ops, *e, data, t, u);
        },
        IndexModel::Tuple(items) => {
            lemma_one_constant_tuple(ops, items, data, x, y);
        },
        _ => {},
    }
}

proof fn lemma_one_constant_tuple<A: Arithmetic>(
    ops: &A,
    items: Seq<IndexModel>,
    data: Seq<(Seq<char>, DataModel)>,
    x: ConstantAtoms,
    y: ConstantAtoms,
)
    requires
        steady_ops(ops),
        data_indices_evaluated(ops, items, data, x),
        data_indices_evaluated(ops, items, data, y),
    ensures
        x == y,
    decreases items,
{
    if items.len() > 0 {
        if !known(x) && data_indices_evaluated(ops, items.drop_last(), data, x) {
            if !known(y) && data_indices_evaluated(ops, items.drop_last(), data, y) {
                lemma_one_constant_tuple(ops, items.drop_last(), data, x, y);
            } else {
                let (b, j) = choose|b: Seq<AtomModel>, j: ConstantAtoms| #[trigger]
                    atoms_extended(b, j, y) && data_indices_evaluated(
                        ops,
                        items.drop_last(),
                        data,
                        Ok(Some(b)),
                    ) && (if items.last() is Tuple {
                        j == Err::<Option<Seq<AtomModel>>, Fault>(super::forward::nested_fault())
                    } else {
                        data_index_evaluated(ops, items.last(), data, j)
                    });
                lemma_one_constant_tuple(ops, items.drop_last(), data, x, Ok(Some(b)));
            }
        } else {
            let (a, i) = choose|b: Seq<AtomModel>, j: ConstantAtoms| #[trigger]
                    atoms_extended(b, j, x) && data_indices_evaluated(
                        ops,
                        items.drop_last(),
                        data,
                        Ok(Some(b)),
                    ) && (if items.last() is Tuple {
                        j == Err::<Option<Seq<AtomModel>>, Fault>(super::forward::nested_fault())
                    } else {
                        data_index_evaluated(ops, items.last(), data, j)
                    });
            if !known(y) && data_indices_evaluated(ops, items.drop_last(), data, y) {
                lemma_one_constant_tuple(ops, items.drop_last(), data, Ok(Some(a)), y);
            } else {
                let (b, j) = choose|b: Seq<AtomModel>, j: ConstantAtoms| #[trigger]
                    atoms_extended(b, j, y) && data_indices_evaluated(
                        ops,
                        items.drop_last(),
                        data,
                        Ok(Some(b)),
                    ) && (if items.last() is Tuple {
                        j == Err::<Option<Seq<AtomModel>>, Fault>(super::forward::nested_fault())
                    } else {
                        data_index_evaluated(ops, items.last(), data, j)
                    });
                lemma_one_constant_tuple(ops, items.drop_last(), data, Ok(Some(a)), Ok(Some(b)));
                if !(items.last() is Tuple) {
                    lemma_one_constant_index(ops, items.last(), data, i, j);
                }
            }
        }
    }
}

proof fn lemma_one_support<A: Arithmetic>(
    ops: &A,
    sites: Seq<SiteModel>,
    data: Seq<(Seq<char>, DataModel)>,
    name: Seq<char>,
    length: usize,
    x: Result<EdgesModel, Fault>,
    y: Result<EdgesModel, Fault>,
)
    requires
        steady_ops(ops),
        supported(ops, sites, data, name, length, x),
        supported(ops, sites, data, name, length, y),
    ensures
        x == y,
{
    if let Some(k) = crate::posterior::mention_from(sites, name, 0) {
        let site = sites[k];
        let v = choose|v: SupportModel| #[trigger]
            support_values(ops, site, data, v) && x == crate::bounds::support_edges(
                site,
                name,
                v,
                length,
            );
        let w = choose|w: SupportModel| #[trigger]
            support_values(ops, site, data, w) && y == crate::bounds::support_edges(
                site,
                name,
                w,
                length,
            );
        if site.value is VectorScatter {
            lemma_one_constant(ops, *site.value->missing_idx, data, v.index, w.index);
        }
        if site.distribution is Uniform {
            lemma_one_constant(ops, site.distribution->low, data, v.low, w.low);
            lemma_one_constant(ops, site.distribution->high, data, v.high, w.high);
        }
    }
}

proof fn lemma_one_constraint<A: Arithmetic>(
    ops: &A,
    sites: Seq<SiteModel>,
    data: Seq<(Seq<char>, DataModel)>,
    constraint: Option<ConstraintModel>,
    name: Seq<char>,
    shape: Seq<usize>,
    x: Result<Option<ResolvedModel>, Fault>,
    y: Result<Option<ResolvedModel>, Fault>,
)
    requires
        steady_ops(ops),
        resolves(ops, sites, data, constraint, name, shape, x),
        resolves(ops, sites, data, constraint, name, shape, y),
    ensures
        x == y,
{
    if constraint is Some && constraint->0 is VectorBounds && shape.len() == 1 {
        assert forall|p: Result<EdgesModel, Fault>, q: Result<EdgesModel, Fault>|
            #![trigger supported(ops, sites, data, name, shape[0], p), supported(ops, sites, data, name, shape[0], q)]
            supported(ops, sites, data, name, shape[0], p) && supported(ops, sites, data, name, shape[0], q) implies p == q by {
            lemma_one_support(ops, sites, data, name, shape[0], p, q);
        }
    }
}

proof fn lemma_one_resolution<A: Arithmetic>(
    ops: &A,
    sites: Seq<SiteModel>,
    data: Seq<(Seq<char>, DataModel)>,
    free: Seq<(Seq<char>, FreeModel)>,
    shapes: Seq<Seq<usize>>,
    n: nat,
    x: Result<Seq<(Seq<char>, FreeSpecModel)>, Fault>,
    y: Result<Seq<(Seq<char>, FreeSpecModel)>, Fault>,
)
    requires
        steady_ops(ops),
        specs_resolved(ops, sites, data, free, shapes, n, x),
        specs_resolved(ops, sites, data, free, shapes, n, y),
    ensures
        x == y,
    decreases n,
{
    if n > 0 {
        if x is Err && specs_resolved(ops, sites, data, free, shapes, (n - 1) as nat, x) {
            if y is Err && specs_resolved(ops, sites, data, free, shapes, (n - 1) as nat, y) {
                lemma_one_resolution(ops, sites, data, free, shapes, (n - 1) as nat, x, y);
            } else {
                let (b, j) = choose|b: Seq<(Seq<char>, FreeSpecModel)>, j: Result<Option<ResolvedModel>, Fault>| #[trigger]
                    spec_extended(b, free[n - 1].0, shapes[n - 1], j, y) && specs_resolved(
                        ops,
                        sites,
                        data,
                        free,
                        shapes,
                        (n - 1) as nat,
                        Ok(b),
                    ) && resolves(
                        ops,
                        sites,
                        data,
                        free[n - 1].1.constraint,
                        free[n - 1].0,
                        shapes[n - 1],
                        j,
                    );
                lemma_one_resolution(ops, sites, data, free, shapes, (n - 1) as nat, x, Ok(b));
            }
        } else {
            let (a, i) = choose|b: Seq<(Seq<char>, FreeSpecModel)>, j: Result<Option<ResolvedModel>, Fault>| #[trigger]
                    spec_extended(b, free[n - 1].0, shapes[n - 1], j, x) && specs_resolved(
                        ops,
                        sites,
                        data,
                        free,
                        shapes,
                        (n - 1) as nat,
                        Ok(b),
                    ) && resolves(
                        ops,
                        sites,
                        data,
                        free[n - 1].1.constraint,
                        free[n - 1].0,
                        shapes[n - 1],
                        j,
                    );
            if y is Err && specs_resolved(ops, sites, data, free, shapes, (n - 1) as nat, y) {
                lemma_one_resolution(ops, sites, data, free, shapes, (n - 1) as nat, Ok(a), y);
            } else {
                let (b, j) = choose|b: Seq<(Seq<char>, FreeSpecModel)>, j: Result<Option<ResolvedModel>, Fault>| #[trigger]
                    spec_extended(b, free[n - 1].0, shapes[n - 1], j, y) && specs_resolved(
                        ops,
                        sites,
                        data,
                        free,
                        shapes,
                        (n - 1) as nat,
                        Ok(b),
                    ) && resolves(
                        ops,
                        sites,
                        data,
                        free[n - 1].1.constraint,
                        free[n - 1].0,
                        shapes[n - 1],
                        j,
                    );
                lemma_one_resolution(ops, sites, data, free, shapes, (n - 1) as nat, Ok(a), Ok(b));
                lemma_one_constraint(ops, sites, data, free[n - 1].1.constraint, free[n - 1].0, shapes[n - 1], i, j);
            }
        }
    }
}

proof fn lemma_one_layout<A: Arithmetic>(
    ops: &A,
    m: MetaModel,
    data: Seq<(Seq<char>, DataModel)>,
    x: Result<Seq<(Seq<char>, FreeSpecModel)>, Fault>,
    y: Result<Seq<(Seq<char>, FreeSpecModel)>, Fault>,
)
    requires
        steady_ops(ops),
        specs_laid(ops, m, data, x),
        specs_laid(ops, m, data, y),
    ensures
        x == y,
{
    let free = resolved_free(m);
    if let Ok(shapes) = free_shapes(free, data, free.len()) {
        lemma_one_resolution(ops, resolved_sites(m), data, free, shapes, free.len(), x, y);
    }
}

proof fn lemma_one_list<A: Arithmetic>(
    ops: &A,
    exprs: Seq<ExprModel>,
    env: EnvModel,
    x: Result<Seq<TensorModel>, Fault>,
    y: Result<Seq<TensorModel>, Fault>,
)
    requires
        steady_ops(ops),
        all_evaluated(ops, exprs, env, x),
        all_evaluated(ops, exprs, env, y),
    ensures
        x == y,
    decreases exprs.len(),
{
    if exprs.len() > 0 {
        if x is Err && all_evaluated(ops, exprs.drop_last(), env, x) {
            if y is Err && all_evaluated(ops, exprs.drop_last(), env, y) {
                lemma_one_list(ops, exprs.drop_last(), env, x, y);
            } else {
                let (b, j) = choose|b: Seq<TensorModel>, j: Result<TensorModel, Fault>| #[trigger]
                    extended(b, j, y) && all_evaluated(ops, exprs.drop_last(), env, Ok(b))
                        && evaluated(ops, exprs.last(), env, j);
                lemma_one_list(ops, exprs.drop_last(), env, x, Ok(b));
            }
        } else {
            let (a, i) = choose|b: Seq<TensorModel>, j: Result<TensorModel, Fault>| #[trigger]
                    extended(b, j, x) && all_evaluated(ops, exprs.drop_last(), env, Ok(b))
                        && evaluated(ops, exprs.last(), env, j);
            if y is Err && all_evaluated(ops, exprs.drop_last(), env, y) {
                lemma_one_list(ops, exprs.drop_last(), env, Ok(a), y);
            } else {
                let (b, j) = choose|b: Seq<TensorModel>, j: Result<TensorModel, Fault>| #[trigger]
                    extended(b, j, y) && all_evaluated(ops, exprs.drop_last(), env, Ok(b))
                        && evaluated(ops, exprs.last(), env, j);
                lemma_one_list(ops, exprs.drop_last(), env, Ok(a), Ok(b));
                lemma_one_value(ops, exprs.last(), env, i, j);
            }
        }
    }
}

proof fn lemma_one_joint<A: Arithmetic>(
    ops: &A,
    start: Seq<usize>,
    shapes: Seq<Seq<usize>>,
    x: Result<Seq<usize>, Fault>,
    y: Result<Seq<usize>, Fault>,
)
    requires
        steady_ops(ops),
        shape_joined(ops, start, shapes, x),
        shape_joined(ops, start, shapes, y),
    ensures
        x == y,
    decreases shapes.len(),
{
    if shapes.len() > 0 {
        let rest = shapes.drop_last();
        if x is Err && shape_joined(ops, start, rest, x) {
            if y is Err && shape_joined(ops, start, rest, y) {
                lemma_one_joint(ops, start, rest, x, y);
            } else {
                let b = choose|b: Seq<usize>| #[trigger]
                    ops.joint_gives(b, shapes.last(), y) && shape_joined(ops, start, rest, Ok(b));
                lemma_one_joint(ops, start, rest, x, Ok(b));
            }
        } else {
            let a = choose|a: Seq<usize>| #[trigger]
                ops.joint_gives(a, shapes.last(), x) && shape_joined(ops, start, rest, Ok(a));
            if y is Err && shape_joined(ops, start, rest, y) {
                lemma_one_joint(ops, start, rest, Ok(a), y);
            } else {
                let b = choose|b: Seq<usize>| #[trigger]
                    ops.joint_gives(b, shapes.last(), y) && shape_joined(ops, start, rest, Ok(b));
                lemma_one_joint(ops, start, rest, Ok(a), Ok(b));
            }
        }
    }
}

proof fn lemma_one_spread<A: Arithmetic>(
    ops: &A,
    list: Seq<TensorModel>,
    labels: Seq<Seq<char>>,
    shape: Seq<usize>,
    x: Result<Seq<TensorModel>, Fault>,
    y: Result<Seq<TensorModel>, Fault>,
)
    requires
        steady_ops(ops),
        all_spread(ops, list, labels, shape, x),
        all_spread(ops, list, labels, shape, y),
    ensures
        x == y,
    decreases list.len(),
{
    if list.len() > 0 {
        if x is Err && all_spread(ops, list.drop_last(), labels, shape, x) {
            if y is Err && all_spread(ops, list.drop_last(), labels, shape, y) {
                lemma_one_spread(ops, list.drop_last(), labels, shape, x, y);
            } else {
                let (b, j) = choose|b: Seq<TensorModel>, j: Result<TensorModel, Fault>| #[trigger]
                    extended(b, j, y) && all_spread(ops, list.drop_last(), labels, shape, Ok(b))
                        && param_spread(ops, list.last(), labels[list.len() - 1], shape, j);
                lemma_one_spread(ops, list.drop_last(), labels, shape, x, Ok(b));
            }
        } else {
            let (a, i) = choose|b: Seq<TensorModel>, j: Result<TensorModel, Fault>| #[trigger]
                    extended(b, j, x) && all_spread(ops, list.drop_last(), labels, shape, Ok(b))
                        && param_spread(ops, list.last(), labels[list.len() - 1], shape, j);
            if y is Err && all_spread(ops, list.drop_last(), labels, shape, y) {
                lemma_one_spread(ops, list.drop_last(), labels, shape, Ok(a), y);
            } else {
                let (b, j) = choose|b: Seq<TensorModel>, j: Result<TensorModel, Fault>| #[trigger]
                    extended(b, j, y) && all_spread(ops, list.drop_last(), labels, shape, Ok(b))
                        && param_spread(ops, list.last(), labels[list.len() - 1], shape, j);
                lemma_one_spread(ops, list.drop_last(), labels, shape, Ok(a), Ok(b));
                
            }
        }
    }
}

proof fn lemma_one_run_of_cells<N: Randomness>(
    rand: &N,
    f: FamilyModel,
    list: Seq<TensorModel>,
    n: nat,
    source: N::Source,
    x: Result<(Seq<NumberModel>, N::Source), Fault>,
    y: Result<(Seq<NumberModel>, N::Source), Fault>,
)
    requires
        steady_rand(rand),
        cells_drawn(rand, f, list, n, source, x),
        cells_drawn(rand, f, list, n, source, y),
    ensures
        x == y,
    decreases n,
{
    if n > 0 {
        if x is Err && cells_drawn(rand, f, list, (n - 1) as nat, source, x) {
            if y is Err && cells_drawn(rand, f, list, (n - 1) as nat, source, y) {
                lemma_one_run_of_cells(rand, f, list, (n - 1) as nat, source, x, y);
            } else {
                let (b, j) = choose|b: (Seq<NumberModel>, N::Source), j: Result<(NumberModel, N::Source), Fault>| #[trigger]
                    number_extended(b, j, y) && cells_drawn(rand, f, list, (n - 1) as nat, source, Ok(b))
                        && cell_drawn(rand, f, row_at(list, n - 1), b.1, j);
                lemma_one_run_of_cells(rand, f, list, (n - 1) as nat, source, x, Ok(b));
            }
        } else {
            let (a, i) = choose|b: (Seq<NumberModel>, N::Source), j: Result<(NumberModel, N::Source), Fault>| #[trigger]
                    number_extended(b, j, x) && cells_drawn(rand, f, list, (n - 1) as nat, source, Ok(b))
                        && cell_drawn(rand, f, row_at(list, n - 1), b.1, j);
            if y is Err && cells_drawn(rand, f, list, (n - 1) as nat, source, y) {
                lemma_one_run_of_cells(rand, f, list, (n - 1) as nat, source, Ok(a), y);
            } else {
                let (b, j) = choose|b: (Seq<NumberModel>, N::Source), j: Result<(NumberModel, N::Source), Fault>| #[trigger]
                    number_extended(b, j, y) && cells_drawn(rand, f, list, (n - 1) as nat, source, Ok(b))
                        && cell_drawn(rand, f, row_at(list, n - 1), b.1, j);
                lemma_one_run_of_cells(rand, f, list, (n - 1) as nat, source, Ok(a), Ok(b));
                
            }
        }
    }
}

proof fn lemma_one_run_of_kinds<N: Randomness>(
    rand: &N,
    kinds: Seq<DrawModel>,
    source: N::Source,
    x: Result<(Seq<NumberModel>, N::Source), Fault>,
    y: Result<(Seq<NumberModel>, N::Source), Fault>,
)
    requires
        steady_rand(rand),
        kinds_drawn(rand, kinds, source, x),
        kinds_drawn(rand, kinds, source, y),
    ensures
        x == y,
    decreases kinds.len(),
{
    if kinds.len() > 0 {
        if x is Err && kinds_drawn(rand, kinds.drop_last(), source, x) {
            if y is Err && kinds_drawn(rand, kinds.drop_last(), source, y) {
                lemma_one_run_of_kinds(rand, kinds.drop_last(), source, x, y);
            } else {
                let (b, j) = choose|b: (Seq<NumberModel>, N::Source), j: Result<(NumberModel, N::Source), Fault>| #[trigger]
                    number_extended(b, j, y) && kinds_drawn(rand, kinds.drop_last(), source, Ok(b))
                        && rand.draw_gives(b.1, kinds.last(), j);
                lemma_one_run_of_kinds(rand, kinds.drop_last(), source, x, Ok(b));
            }
        } else {
            let (a, i) = choose|b: (Seq<NumberModel>, N::Source), j: Result<(NumberModel, N::Source), Fault>| #[trigger]
                    number_extended(b, j, x) && kinds_drawn(rand, kinds.drop_last(), source, Ok(b))
                        && rand.draw_gives(b.1, kinds.last(), j);
            if y is Err && kinds_drawn(rand, kinds.drop_last(), source, y) {
                lemma_one_run_of_kinds(rand, kinds.drop_last(), source, Ok(a), y);
            } else {
                let (b, j) = choose|b: (Seq<NumberModel>, N::Source), j: Result<(NumberModel, N::Source), Fault>| #[trigger]
                    number_extended(b, j, y) && kinds_drawn(rand, kinds.drop_last(), source, Ok(b))
                        && rand.draw_gives(b.1, kinds.last(), j);
                lemma_one_run_of_kinds(rand, kinds.drop_last(), source, Ok(a), Ok(b));
                
            }
        }
    }
}

proof fn lemma_one_grid<N: Randomness>(
    rand: &N,
    f: FamilyModel,
    list: Seq<TensorModel>,
    shape: Seq<usize>,
    source: N::Source,
    x: Result<(TensorModel, N::Source), Fault>,
    y: Result<(TensorModel, N::Source), Fault>,
)
    requires
        steady_rand(rand),
        grid_drawn(rand, f, list, shape, source, x),
        grid_drawn(rand, f, list, shape, source, y),
    ensures
        x == y,
{
    assert forall|p: Result<(Seq<NumberModel>, N::Source), Fault>, q: Result<(Seq<NumberModel>, N::Source), Fault>|
        #![trigger cells_drawn(rand, f, list, list[0].values.len(), source, p), cells_drawn(rand, f, list, list[0].values.len(), source, q)]
        cells_drawn(rand, f, list, list[0].values.len(), source, p) && cells_drawn(rand, f, list, list[0].values.len(), source, q) implies p == q by {
        lemma_one_run_of_cells(rand, f, list, list[0].values.len(), source, p, q);
    }
}

proof fn lemma_one_shape<A: Arithmetic, N: Randomness>(
    ops: &A,
    rand: &N,
    f: FamilyModel,
    list: Seq<TensorModel>,
    labels: Seq<Seq<char>>,
    shape: Seq<usize>,
    source: N::Source,
    x: Result<(TensorModel, N::Source), Fault>,
    y: Result<(TensorModel, N::Source), Fault>,
)
    requires
        steady_ops(ops),
        steady_rand(rand),
        shape_sampled(ops, rand, f, list, labels, shape, source, x),
        shape_sampled(ops, rand, f, list, labels, shape, source, y),
    ensures
        x == y,
{
    assert forall|p: Result<Seq<TensorModel>, Fault>, q: Result<Seq<TensorModel>, Fault>|
        #![trigger all_spread(ops, list, labels, shape, p), all_spread(ops, list, labels, shape, q)]
        all_spread(ops, list, labels, shape, p) && all_spread(ops, list, labels, shape, q) implies p == q by {
        lemma_one_spread(ops, list, labels, shape, p, q);
    }
    assert forall|wide: Seq<TensorModel>|
        grid_drawn(rand, f, wide, shape, source, x) && #[trigger] grid_drawn(rand, f, wide, shape, source, y)
            implies x == y by {
        lemma_one_grid(rand, f, wide, shape, source, x, y);
    }
}

proof fn lemma_one_sample<A: Arithmetic, N: Randomness>(
    ops: &A,
    rand: &N,
    f: FamilyModel,
    list: Seq<TensorModel>,
    labels: Seq<Seq<char>>,
    target: Option<Seq<usize>>,
    source: N::Source,
    x: Result<(TensorModel, N::Source), Fault>,
    y: Result<(TensorModel, N::Source), Fault>,
)
    requires
        steady_ops(ops),
        steady_rand(rand),
        cells_sampled(ops, rand, f, list, labels, target, source, x),
        cells_sampled(ops, rand, f, list, labels, target, source, y),
    ensures
        x == y,
{
    assert forall|p: Result<Seq<usize>, Fault>, q: Result<Seq<usize>, Fault>|
        #![trigger shape_chosen(ops, list, target, p), shape_chosen(ops, list, target, q)]
        shape_chosen(ops, list, target, p) && shape_chosen(ops, list, target, q) implies p == q by {
        if target is None {
            lemma_one_joint(ops, Seq::empty(), shapes_of(list), p, q);
        }
    }
    assert forall|found: Seq<usize>|
        shape_sampled(ops, rand, f, list, labels, found, source, x) && #[trigger] shape_sampled(
            ops,
            rand,
            f,
            list,
            labels,
            found,
            source,
            y,
        ) implies x == y by {
        lemma_one_shape(ops, rand, f, list, labels, found, source, x, y);
    }
}

proof fn lemma_one_plain<A: Arithmetic, N: Randomness>(
    ops: &A,
    rand: &N,
    env: EnvModel,
    d: DistModel,
    target: Option<Seq<usize>>,
    source: N::Source,
    x: Result<(TensorModel, N::Source), Fault>,
    y: Result<(TensorModel, N::Source), Fault>,
)
    requires
        steady_ops(ops),
        steady_rand(rand),
        plain_sampled(ops, rand, env, d, target, source, x),
        plain_sampled(ops, rand, env, d, target, source, y),
    ensures
        x == y,
{
    assert forall|p: Result<Seq<TensorModel>, Fault>, q: Result<Seq<TensorModel>, Fault>|
        #![trigger all_evaluated(ops, dist_params(d), env, p), all_evaluated(ops, dist_params(d), env, q)]
        all_evaluated(ops, dist_params(d), env, p) && all_evaluated(ops, dist_params(d), env, q) implies p == q by {
        lemma_one_list(ops, dist_params(d), env, p, q);
    }
    assert forall|f: FamilyModel, list: Seq<TensorModel>, labels: Seq<Seq<char>>|
        cells_sampled(ops, rand, f, list, labels, target, source, x) && #[trigger] cells_sampled(
            ops,
            rand,
            f,
            list,
            labels,
            target,
            source,
            y,
        ) implies x == y by {
        lemma_one_sample(ops, rand, f, list, labels, target, source, x, y);
    }
}

proof fn lemma_one_ordered<A: Arithmetic, N: Randomness>(
    ops: &A,
    rand: &N,
    env: EnvModel,
    d: DistModel,
    target: Option<Seq<usize>>,
    source: N::Source,
    x: Result<(TensorModel, N::Source), Fault>,
    y: Result<(TensorModel, N::Source), Fault>,
)
    requires
        steady_ops(ops),
        steady_rand(rand),
        ordered_sampled(ops, rand, env, d, target, source, x),
        ordered_sampled(ops, rand, env, d, target, source, y),
    ensures
        x == y,
{
    assert forall|p: Result<Seq<TensorModel>, Fault>, q: Result<Seq<TensorModel>, Fault>|
        #![trigger all_evaluated(ops, dist_params(d), env, p), all_evaluated(ops, dist_params(d), env, q)]
        all_evaluated(ops, dist_params(d), env, p) && all_evaluated(ops, dist_params(d), env, q) implies p == q by {
        lemma_one_list(ops, dist_params(d), env, p, q);
    }
    assert forall|f: FamilyModel, list: Seq<TensorModel>, labels: Seq<Seq<char>>|
        cells_sampled(ops, rand, f, list, labels, target, source, x) && #[trigger] cells_sampled(
            ops,
            rand,
            f,
            list,
            labels,
            target,
            source,
            y,
        ) implies x == y by {
        lemma_one_sample(ops, rand, f, list, labels, target, source, x, y);
    }
}

proof fn lemma_one_bounded<A: Arithmetic, N: Randomness>(
    ops: &A,
    rand: &N,
    env: EnvModel,
    base: DistModel,
    lower: bool,
    upper: bool,
    bounds: Seq<TensorModel>,
    target: Option<Seq<usize>>,
    source: N::Source,
    x: Result<(TensorModel, N::Source), Fault>,
    y: Result<(TensorModel, N::Source), Fault>,
)
    requires
        steady_ops(ops),
        steady_rand(rand),
        bounded_sampled(ops, rand, env, base, lower, upper, bounds, target, source, x),
        bounded_sampled(ops, rand, env, base, lower, upper, bounds, target, source, y),
    ensures
        x == y,
{
    assert forall|p: Result<Seq<TensorModel>, Fault>, q: Result<Seq<TensorModel>, Fault>|
        #![trigger all_evaluated(ops, dist_params(base), env, p), all_evaluated(ops, dist_params(base), env, q)]
        all_evaluated(ops, dist_params(base), env, p) && all_evaluated(ops, dist_params(base), env, q) implies p == q by {
        lemma_one_list(ops, dist_params(base), env, p, q);
    }
    assert forall|f: FamilyModel, list: Seq<TensorModel>, labels: Seq<Seq<char>>|
        cells_sampled(ops, rand, f, list, labels, target, source, x) && #[trigger] cells_sampled(
            ops,
            rand,
            f,
            list,
            labels,
            target,
            source,
            y,
        ) implies x == y by {
        lemma_one_sample(ops, rand, f, list, labels, target, source, x, y);
    }
}

proof fn lemma_one_truncation<A: Arithmetic, N: Randomness>(
    ops: &A,
    rand: &N,
    env: EnvModel,
    base: DistModel,
    lower: Option<ExprModel>,
    upper: Option<ExprModel>,
    target: Option<Seq<usize>>,
    source: N::Source,
    x: Result<(TensorModel, N::Source), Fault>,
    y: Result<(TensorModel, N::Source), Fault>,
)
    requires
        steady_ops(ops),
        steady_rand(rand),
        truncation_sampled(ops, rand, env, base, lower, upper, target, source, x),
        truncation_sampled(ops, rand, env, base, lower, upper, target, source, y),
    ensures
        x == y,
{
    assert forall|p: Result<Seq<TensorModel>, Fault>, q: Result<Seq<TensorModel>, Fault>|
        #![trigger all_evaluated(ops, optional_param(lower) + optional_param(upper), env, p), all_evaluated(ops, optional_param(lower) + optional_param(upper), env, q)]
        all_evaluated(ops, optional_param(lower) + optional_param(upper), env, p) && all_evaluated(ops, optional_param(lower) + optional_param(upper), env, q) implies p == q by {
        lemma_one_list(ops, optional_param(lower) + optional_param(upper), env, p, q);
    }
    assert forall|list: Seq<TensorModel>|
        bounded_sampled(
            ops,
            rand,
            env,
            base,
            lower is Some,
            upper is Some,
            list,
            target,
            source,
            x,
        ) && #[trigger] bounded_sampled(
            ops,
            rand,
            env,
            base,
            lower is Some,
            upper is Some,
            list,
            target,
            source,
            y,
        ) implies x == y by {
        lemma_one_bounded(
            ops,
            rand,
            env,
            base,
            lower is Some,
            upper is Some,
            list,
            target,
            source,
            x,
            y,
        );
    }
}

proof fn lemma_one_row_of_normals<N: Randomness>(
    rand: &N,
    n: nat,
    source: N::Source,
    z: Seq<NumberModel>,
    after: N::Source,
    w: Seq<NumberModel>,
    end: N::Source,
)
    requires
        steady_rand(rand),
        normals_drawn(rand, n, source, z, after),
        normals_drawn(rand, n, source, w, end),
    ensures
        z == w,
        after == end,
    decreases n,
{
    if n == 0 {
        assert(z =~= w);
    } else {
        let p = choose|p: N::Source| #[trigger]
            rand.standard_gives(p, z.last(), after) && normals_drawn(
                rand,
                (n - 1) as nat,
                source,
                z.drop_last(),
                p,
            );
        let q = choose|q: N::Source| #[trigger]
            rand.standard_gives(q, w.last(), end) && normals_drawn(
                rand,
                (n - 1) as nat,
                source,
                w.drop_last(),
                q,
            );
        lemma_one_row_of_normals(
            rand,
            (n - 1) as nat,
            source,
            z.drop_last(),
            p,
            w.drop_last(),
            q,
        );
        assert(z =~= z.drop_last().push(z.last()));
        assert(w =~= w.drop_last().push(w.last()));
    }
}

proof fn lemma_one_entry<N: Randomness>(
    rand: &N,
    begin: NumberModel,
    factors: Seq<NumberModel>,
    z: Seq<NumberModel>,
    n: nat,
    x: NumberModel,
    y: NumberModel,
)
    requires
        steady_rand(rand),
        row_combined(rand, begin, factors, z, n, x),
        row_combined(rand, begin, factors, z, n, y),
    ensures
        x == y,
    decreases n,
{
    if n > 0 {
        let p = choose|p: NumberModel| #[trigger]
            rand.step_gives(p, factors[n - 1], z[n - 1], x) && row_combined(
                rand,
                begin,
                factors,
                z,
                (n - 1) as nat,
                p,
            );
        let q = choose|q: NumberModel| #[trigger]
            rand.step_gives(q, factors[n - 1], z[n - 1], y) && row_combined(
                rand,
                begin,
                factors,
                z,
                (n - 1) as nat,
                q,
            );
        lemma_one_entry(rand, begin, factors, z, (n - 1) as nat, p, q);
    }
}

proof fn lemma_one_normal_vector<N: Randomness>(
    rand: &N,
    mean: Seq<NumberModel>,
    scale: Seq<NumberModel>,
    source: N::Source,
    x: Seq<NumberModel>,
    after: N::Source,
    y: Seq<NumberModel>,
    end: N::Source,
)
    requires
        steady_rand(rand),
        normal_vector(rand, mean, scale, source, x, after),
        normal_vector(rand, mean, scale, source, y, end),
    ensures
        x == y,
        after == end,
{
    let z = choose|z: Seq<NumberModel>| #[trigger]
        normals_drawn(rand, mean.len(), source, z, after) && vector_combined(rand, mean, scale, z, x);
    let w = choose|w: Seq<NumberModel>| #[trigger]
        normals_drawn(rand, mean.len(), source, w, end) && vector_combined(rand, mean, scale, w, y);
    lemma_one_row_of_normals(rand, mean.len(), source, z, after, w, end);
    assert forall|k: int| 0 <= k < x.len() implies x[k] == y[k] by {
        lemma_one_entry(
            rand,
            mean[k],
            super::vector::matrix_row(scale, mean.len(), k),
            z,
            (k + 1) as nat,
            x[k],
            y[k],
        );
    }
    assert(x =~= y);
}

proof fn lemma_one_vector<N: Randomness>(
    rand: &N,
    mean: TensorModel,
    scale_tril: TensorModel,
    shape: Seq<usize>,
    source: N::Source,
    x: Result<(TensorModel, N::Source), Fault>,
    y: Result<(TensorModel, N::Source), Fault>,
)
    requires
        steady_rand(rand),
        vector_drawn(rand, mean, scale_tril, shape, source, x),
        vector_drawn(rand, mean, scale_tril, shape, source, y),
    ensures
        x == y,
{
    assert forall|p: Seq<NumberModel>, a: N::Source, q: Seq<NumberModel>, b: N::Source|
        #![trigger normal_vector(rand, mean.values, scale_tril.values, source, p, a), normal_vector(rand, mean.values, scale_tril.values, source, q, b)]
        normal_vector(rand, mean.values, scale_tril.values, source, p, a) && normal_vector(
            rand,
            mean.values,
            scale_tril.values,
            source,
            q,
            b,
        ) implies p == q && a == b by {
        lemma_one_normal_vector(rand, mean.values, scale_tril.values, source, p, a, q, b);
    }
}

proof fn lemma_one_vector_sample<A: Arithmetic, N: Randomness>(
    ops: &A,
    rand: &N,
    mean: TensorModel,
    scale_tril: TensorModel,
    target: Option<Seq<usize>>,
    source: N::Source,
    x: Result<(TensorModel, N::Source), Fault>,
    y: Result<(TensorModel, N::Source), Fault>,
)
    requires
        steady_ops(ops),
        steady_rand(rand),
        vector_sampled(ops, rand, mean, scale_tril, target, source, x),
        vector_sampled(ops, rand, mean, scale_tril, target, source, y),
    ensures
        x == y,
{
    if scale_tril.shape.len() == 2 && scale_tril.shape[0] == scale_tril.shape[1] {
        let shape = super::sampling::event_shape(mean, scale_tril.shape[0], target);
        assert forall|wide: TensorModel|
            vector_drawn(rand, wide, scale_tril, shape, source, x) && #[trigger] vector_drawn(
                rand,
                wide,
                scale_tril,
                shape,
                source,
                y,
            ) implies x == y by {
            lemma_one_vector(rand, wide, scale_tril, shape, source, x, y);
        }
    }
}

proof fn lemma_one_correlated<A: Arithmetic, N: Randomness>(
    ops: &A,
    rand: &N,
    env: EnvModel,
    d: DistModel,
    target: Option<Seq<usize>>,
    source: N::Source,
    x: Result<(TensorModel, N::Source), Fault>,
    y: Result<(TensorModel, N::Source), Fault>,
)
    requires
        steady_ops(ops),
        steady_rand(rand),
        correlated_sampled(ops, rand, env, d, target, source, x),
        correlated_sampled(ops, rand, env, d, target, source, y),
    ensures
        x == y,
{
    assert forall|p: Result<Seq<TensorModel>, Fault>, q: Result<Seq<TensorModel>, Fault>|
        #![trigger all_evaluated(ops, dist_params(d), env, p), all_evaluated(ops, dist_params(d), env, q)]
        all_evaluated(ops, dist_params(d), env, p) && all_evaluated(ops, dist_params(d), env, q) implies p == q by {
        lemma_one_list(ops, dist_params(d), env, p, q);
    }
    assert forall|list: Seq<TensorModel>|
        vector_sampled(ops, rand, #[trigger] list[0], list[1], target, source, x) && vector_sampled(
            ops,
            rand,
            list[0],
            list[1],
            target,
            source,
            y,
        ) implies x == y by {
        lemma_one_vector_sample(ops, rand, list[0], list[1], target, source, x, y);
    }
}

proof fn lemma_one_distribution<A: Arithmetic, N: Randomness>(
    ops: &A,
    rand: &N,
    env: EnvModel,
    d: DistModel,
    target: Option<Seq<usize>>,
    source: N::Source,
    x: Result<(TensorModel, N::Source), Fault>,
    y: Result<(TensorModel, N::Source), Fault>,
)
    requires
        steady_ops(ops),
        steady_rand(rand),
        sampled(ops, rand, env, d, target, source, x),
        sampled(ops, rand, env, d, target, source, y),
    ensures
        x == y,
{
    match d {
        DistModel::MultivariateNormal { .. } => {
            lemma_one_correlated(ops, rand, env, d, target, source, x, y);
        },
        DistModel::OrderedLogistic { .. } => {
            lemma_one_ordered(ops, rand, env, d, target, source, x, y);
        },
        DistModel::Truncated { base, lower, upper } => {
            lemma_one_truncation(ops, rand, env, *base, lower, upper, target, source, x, y);
        },
        _ => {
            lemma_one_plain(ops, rand, env, d, target, source, x, y);
        },
    }
}

proof fn lemma_one_constrained<A: Arithmetic, N: Randomness>(
    ops: &A,
    rand: &N,
    env: EnvModel,
    d: DistModel,
    shape: Seq<usize>,
    constraint: Option<ResolvedModel>,
    name: Seq<char>,
    tries: nat,
    source: N::Source,
    x: Result<(TensorModel, N::Source), Fault>,
    y: Result<(TensorModel, N::Source), Fault>,
)
    requires
        steady_ops(ops),
        steady_rand(rand),
        constrained_sampled(ops, rand, env, d, shape, constraint, name, tries, source, x),
        constrained_sampled(ops, rand, env, d, shape, constraint, name, tries, source, y),
    ensures
        x == y,
    decreases tries,
{
    if tries > 0 {
        let less = (tries - 1) as nat;
        let p = choose|one: Result<(TensorModel, N::Source), Fault>| #[trigger]
            sampled(ops, rand, env, d, Some(shape), source, one) && match one {
                Err(fault) => x == Err::<(TensorModel, N::Source), Fault>(fault),
                Ok(found) => if satisfies(found.0, constraint) {
                    x == one
                } else {
                    constrained_sampled(ops, rand, env, d, shape, constraint, name, less, found.1, x)
                },
            };
        let q = choose|one: Result<(TensorModel, N::Source), Fault>| #[trigger]
            sampled(ops, rand, env, d, Some(shape), source, one) && match one {
                Err(fault) => y == Err::<(TensorModel, N::Source), Fault>(fault),
                Ok(found) => if satisfies(found.0, constraint) {
                    y == one
                } else {
                    constrained_sampled(ops, rand, env, d, shape, constraint, name, less, found.1, y)
                },
            };
        lemma_one_distribution(ops, rand, env, d, Some(shape), source, p, q);
        if let Ok(found) = p {
            if !satisfies(found.0, constraint) {
                lemma_one_constrained(
                    ops,
                    rand,
                    env,
                    d,
                    shape,
                    constraint,
                    name,
                    less,
                    found.1,
                    x,
                    y,
                );
            }
        }
    }
}

proof fn lemma_one_scalar<A: Arithmetic>(
    ops: &A,
    env: EnvModel,
    e: ExprModel,
    label: Seq<char>,
    x: Result<NumberModel, Fault>,
    y: Result<NumberModel, Fault>,
)
    requires
        steady_ops(ops),
        scalar_read(ops, env, e, label, x),
        scalar_read(ops, env, e, label, y),
    ensures
        x == y,
{
    assert forall|p: Result<TensorModel, Fault>, q: Result<TensorModel, Fault>|
        #![trigger evaluated(ops, e, env, p), evaluated(ops, e, env, q)]
        evaluated(ops, e, env, p) && evaluated(ops, e, env, q) implies p == q by {
        lemma_one_value(ops, e, env, p, q);
    }
}

proof fn lemma_one_list_of_scalars<A: Arithmetic>(
    ops: &A,
    env: EnvModel,
    exprs: Seq<ExprModel>,
    labels: Seq<Seq<char>>,
    x: Result<Seq<NumberModel>, Fault>,
    y: Result<Seq<NumberModel>, Fault>,
)
    requires
        steady_ops(ops),
        scalars_read(ops, env, exprs, labels, x),
        scalars_read(ops, env, exprs, labels, y),
    ensures
        x == y,
    decreases exprs.len(),
{
    if exprs.len() > 0 {
        if x is Err && scalars_read(ops, env, exprs.drop_last(), labels, x) {
            if y is Err && scalars_read(ops, env, exprs.drop_last(), labels, y) {
                lemma_one_list_of_scalars(ops, env, exprs.drop_last(), labels, x, y);
            } else {
                let (b, j) = choose|b: Seq<NumberModel>, j: Result<NumberModel, Fault>| #[trigger]
                    extended(b, j, y) && scalars_read(ops, env, exprs.drop_last(), labels, Ok(b))
                        && scalar_read(ops, env, exprs.last(), labels[exprs.len() - 1], j);
                lemma_one_list_of_scalars(ops, env, exprs.drop_last(), labels, x, Ok(b));
            }
        } else {
            let (a, i) = choose|b: Seq<NumberModel>, j: Result<NumberModel, Fault>| #[trigger]
                    extended(b, j, x) && scalars_read(ops, env, exprs.drop_last(), labels, Ok(b))
                        && scalar_read(ops, env, exprs.last(), labels[exprs.len() - 1], j);
            if y is Err && scalars_read(ops, env, exprs.drop_last(), labels, y) {
                lemma_one_list_of_scalars(ops, env, exprs.drop_last(), labels, Ok(a), y);
            } else {
                let (b, j) = choose|b: Seq<NumberModel>, j: Result<NumberModel, Fault>| #[trigger]
                    extended(b, j, y) && scalars_read(ops, env, exprs.drop_last(), labels, Ok(b))
                        && scalar_read(ops, env, exprs.last(), labels[exprs.len() - 1], j);
                lemma_one_list_of_scalars(ops, env, exprs.drop_last(), labels, Ok(a), Ok(b));
                lemma_one_scalar(ops, env, exprs.last(), labels[exprs.len() - 1], i, j);
            }
        }
    }
}

proof fn lemma_one_vector_within<N: Randomness>(
    rand: &N,
    d: DistModel,
    scalars: Seq<NumberModel>,
    lower: Option<Seq<NumberModel>>,
    upper: Option<Seq<NumberModel>>,
    length: usize,
    source: N::Source,
    x: Result<(TensorModel, N::Source), Fault>,
    y: Result<(TensorModel, N::Source), Fault>,
)
    requires
        steady_rand(rand),
        vector_within(rand, d, scalars, lower, upper, length, source, x),
        vector_within(rand, d, scalars, lower, upper, length, source, y),
    ensures
        x == y,
{
    let f = super::sampling::truncated_family(d, lower is Some, upper is Some);
    let list = super::restricted::columns(scalars, lower, upper, length);
    assert forall|p: Result<(Seq<NumberModel>, N::Source), Fault>, q: Result<(Seq<NumberModel>, N::Source), Fault>|
        #![trigger cells_drawn(rand, f, list, length as nat, source, p), cells_drawn(rand, f, list, length as nat, source, q)]
        cells_drawn(rand, f, list, length as nat, source, p) && cells_drawn(rand, f, list, length as nat, source, q) implies p == q by {
        lemma_one_run_of_cells(rand, f, list, length as nat, source, p, q);
    }
}

proof fn lemma_one_exponential<N: Randomness>(
    rand: &N,
    d: DistModel,
    rate: NumberModel,
    lower: Option<Seq<NumberModel>>,
    upper: Option<Seq<NumberModel>>,
    length: usize,
    source: N::Source,
    x: Result<(TensorModel, N::Source), Fault>,
    y: Result<(TensorModel, N::Source), Fault>,
)
    requires
        steady_rand(rand),
        exponential_within(rand, d, rate, lower, upper, length, source, x),
        exponential_within(rand, d, rate, lower, upper, length, source, y),
    ensures
        x == y,
{
    if super::cells::sign_fault(rate, "Exponential rate"@) is None {
        if upper is Some {
            lemma_one_vector_within(rand, d, seq![rate], lower, upper, length, source, x, y);
        } else if lower is Some {
            let kinds = super::restricted::shifted_kinds(rate, lower->0);
            assert forall|p: Result<(Seq<NumberModel>, N::Source), Fault>, q: Result<(Seq<NumberModel>, N::Source), Fault>|
                #![trigger kinds_drawn(rand, kinds, source, p), kinds_drawn(rand, kinds, source, q)]
                kinds_drawn(rand, kinds, source, p) && kinds_drawn(rand, kinds, source, q) implies p == q by {
                lemma_one_run_of_kinds(rand, kinds, source, p, q);
            }
        }
    }
}

proof fn lemma_one_restricted<A: Arithmetic, N: Randomness>(
    ops: &A,
    rand: &N,
    env: EnvModel,
    d: DistModel,
    lower: Option<Seq<NumberModel>>,
    upper: Option<Seq<NumberModel>>,
    length: usize,
    source: N::Source,
    x: Result<(TensorModel, N::Source), Fault>,
    y: Result<(TensorModel, N::Source), Fault>,
)
    requires
        steady_ops(ops),
        steady_rand(rand),
        restricted_sampled(ops, rand, env, d, lower, upper, length, source, x),
        restricted_sampled(ops, rand, env, d, lower, upper, length, source, y),
    ensures
        x == y,
{
    assert forall|p: Result<Seq<NumberModel>, Fault>, q: Result<Seq<NumberModel>, Fault>|
        #![trigger scalars_read(ops, env, bounded_params(d), bounded_labels(d), p), scalars_read(ops, env, bounded_params(d), bounded_labels(d), q)]
        scalars_read(ops, env, bounded_params(d), bounded_labels(d), p) && scalars_read(ops, env, bounded_params(d), bounded_labels(d), q) implies p == q by {
        lemma_one_list_of_scalars(ops, env, bounded_params(d), bounded_labels(d), p, q);
    }
    assert forall|list: Seq<NumberModel>|
        exponential_within(rand, d, #[trigger] list[0], lower, upper, length, source, x)
            && exponential_within(rand, d, list[0], lower, upper, length, source, y) implies x == y by {
        lemma_one_exponential(rand, d, list[0], lower, upper, length, source, x, y);
    }
    assert forall|list: Seq<NumberModel>|
        vector_within(rand, d, list, lower, upper, length, source, x) && #[trigger] vector_within(
            rand,
            d,
            list,
            lower,
            upper,
            length,
            source,
            y,
        ) implies x == y by {
        lemma_one_vector_within(rand, d, list, lower, upper, length, source, x, y);
    }
}

proof fn lemma_one_missing<A: Arithmetic, N: Randomness>(
    ops: &A,
    rand: &N,
    env: EnvModel,
    p: PartialModel,
    length: usize,
    positions: Seq<i64>,
    base: Result<(TensorModel, N::Source), Fault>,
    x: Result<(StepModel, N::Source), Fault>,
    y: Result<(StepModel, N::Source), Fault>,
)
    requires
        steady_ops(ops),
        steady_rand(rand),
        missing_drawn(ops, rand, env, p, length, positions, base, x),
        missing_drawn(ops, rand, env, p, length, positions, base, y),
    ensures
        x == y,
{
    if let Ok((value, mid)) = base {
        if let Some(ResolvedModel::VectorBounds { lower, upper }) = p.spec.constraint {
            assert forall|a: Result<(TensorModel, N::Source), Fault>, b: Result<(TensorModel, N::Source), Fault>|
                #![trigger restricted_sampled(ops, rand, env, p.distribution, lower, upper, positions.len() as usize, mid, a), restricted_sampled(ops, rand, env, p.distribution, lower, upper, positions.len() as usize, mid, b)]
                restricted_sampled(ops, rand, env, p.distribution, lower, upper, positions.len() as usize, mid, a)
                    && restricted_sampled(
                    ops,
                    rand,
                    env,
                    p.distribution,
                    lower,
                    upper,
                    positions.len() as usize,
                    mid,
                    b,
                ) implies a == b by {
                lemma_one_restricted(
                    ops,
                    rand,
                    env,
                    p.distribution,
                    lower,
                    upper,
                    positions.len() as usize,
                    mid,
                    a,
                    b,
                );
            }
        }
    }
}

proof fn lemma_one_vector_at<A: Arithmetic, N: Randomness>(
    ops: &A,
    rand: &N,
    env: EnvModel,
    p: PartialModel,
    length: usize,
    positions: Result<Seq<i64>, Fault>,
    source: N::Source,
    x: Result<(StepModel, N::Source), Fault>,
    y: Result<(StepModel, N::Source), Fault>,
)
    requires
        steady_ops(ops),
        steady_rand(rand),
        vector_drawn_at(ops, rand, env, p, length, positions, source, x),
        vector_drawn_at(ops, rand, env, p, length, positions, source, y),
    ensures
        x == y,
{
    let d = p.distribution;
    assert forall|a: Result<Seq<TensorModel>, Fault>, b: Result<Seq<TensorModel>, Fault>|
        #![trigger all_evaluated(ops, dist_params(d), env, a), all_evaluated(ops, dist_params(d), env, b)]
        all_evaluated(ops, dist_params(d), env, a) && all_evaluated(ops, dist_params(d), env, b)
            implies a == b by {
        lemma_one_list(ops, dist_params(d), env, a, b);
    }
    let wanted = Some(super::partial::one_axis(length));
    assert forall|a: Result<(TensorModel, N::Source), Fault>, b: Result<(TensorModel, N::Source), Fault>|
        #![trigger sampled(ops, rand, env, d, wanted, source, a), sampled(ops, rand, env, d, wanted, source, b)]
        sampled(ops, rand, env, d, wanted, source, a) && sampled(ops, rand, env, d, wanted, source, b)
            implies a == b by {
        lemma_one_distribution(ops, rand, env, d, wanted, source, a, b);
    }
    assert forall|places: Seq<i64>, base: Result<(TensorModel, N::Source), Fault>|
        missing_drawn(ops, rand, env, p, length, places, base, x) && #[trigger] missing_drawn(
            ops,
            rand,
            env,
            p,
            length,
            places,
            base,
            y,
        ) implies x == y by {
        lemma_one_missing(ops, rand, env, p, length, places, base, x, y);
    }
}

proof fn lemma_one_vector_of<A: Arithmetic, N: Randomness>(
    ops: &A,
    rand: &N,
    env: EnvModel,
    p: PartialModel,
    missing_idx: ExprModel,
    length: Result<TensorModel, Fault>,
    source: N::Source,
    x: Result<(StepModel, N::Source), Fault>,
    y: Result<(StepModel, N::Source), Fault>,
)
    requires
        steady_ops(ops),
        steady_rand(rand),
        vector_drawn_of(ops, rand, env, p, missing_idx, length, source, x),
        vector_drawn_of(ops, rand, env, p, missing_idx, length, source, y),
    ensures
        x == y,
{
    assert forall|a: Result<TensorModel, Fault>, b: Result<TensorModel, Fault>|
        #![trigger evaluated(ops, missing_idx, env, a), evaluated(ops, missing_idx, env, b)]
        evaluated(ops, missing_idx, env, a) && evaluated(ops, missing_idx, env, b) implies a == b by {
        lemma_one_value(ops, missing_idx, env, a, b);
    }
    assert forall|size: usize, places: Result<Seq<i64>, Fault>|
        vector_drawn_at(ops, rand, env, p, size, places, source, x) && #[trigger] vector_drawn_at(
            ops,
            rand,
            env,
            p,
            size,
            places,
            source,
            y,
        ) implies x == y by {
        lemma_one_vector_at(ops, rand, env, p, size, places, source, x, y);
    }
}

proof fn lemma_one_partial<A: Arithmetic, N: Randomness>(
    ops: &A,
    rand: &N,
    env: EnvModel,
    p: PartialModel,
    length: ExprModel,
    missing_idx: ExprModel,
    source: N::Source,
    x: Result<(StepModel, N::Source), Fault>,
    y: Result<(StepModel, N::Source), Fault>,
)
    requires
        steady_ops(ops),
        steady_rand(rand),
        partial_drawn(ops, rand, env, p, length, missing_idx, source, x),
        partial_drawn(ops, rand, env, p, length, missing_idx, source, y),
    ensures
        x == y,
{
    assert forall|a: Result<TensorModel, Fault>, b: Result<TensorModel, Fault>|
        #![trigger evaluated(ops, length, env, a), evaluated(ops, length, env, b)]
        evaluated(ops, length, env, a) && evaluated(ops, length, env, b) implies a == b by {
        lemma_one_value(ops, length, env, a, b);
    }
    assert forall|size: Result<TensorModel, Fault>|
        vector_drawn_of(ops, rand, env, p, missing_idx, size, source, x) && #[trigger] vector_drawn_of(
            ops,
            rand,
            env,
            p,
            missing_idx,
            size,
            source,
            y,
        ) implies x == y by {
        lemma_one_vector_of(ops, rand, env, p, missing_idx, size, source, x, y);
    }
}

proof fn lemma_one_param<A: Arithmetic, N: Randomness>(
    ops: &A,
    rand: &N,
    env: EnvModel,
    site: SiteModel,
    name: Seq<char>,
    spec: Option<FreeSpecModel>,
    source: N::Source,
    x: Result<(StepModel, N::Source), Fault>,
    y: Result<(StepModel, N::Source), Fault>,
)
    requires
        steady_ops(ops),
        steady_rand(rand),
        param_drawn(ops, rand, env, site, name, spec, source, x),
        param_drawn(ops, rand, env, site, name, spec, source, y),
    ensures
        x == y,
{
    if let Some(free) = spec {
        assert forall|p: Result<(TensorModel, N::Source), Fault>, q: Result<(TensorModel, N::Source), Fault>|
            #![trigger constrained_sampled(ops, rand, env, site.distribution, free.shape, free.constraint, name, MAX_TRIES as nat, source, p), constrained_sampled(ops, rand, env, site.distribution, free.shape, free.constraint, name, MAX_TRIES as nat, source, q)]
            constrained_sampled(ops, rand, env, site.distribution, free.shape, free.constraint, name, MAX_TRIES as nat, source, p) && constrained_sampled(ops, rand, env, site.distribution, free.shape, free.constraint, name, MAX_TRIES as nat, source, q) implies p == q by {
            lemma_one_constrained(ops, rand, env, site.distribution, free.shape, free.constraint, name, MAX_TRIES as nat, source, p, q);
        }
    }
}

proof fn lemma_one_data<A: Arithmetic, N: Randomness>(
    ops: &A,
    rand: &N,
    env: EnvModel,
    site: SiteModel,
    name: Seq<char>,
    source: N::Source,
    x: Result<(StepModel, N::Source), Fault>,
    y: Result<(StepModel, N::Source), Fault>,
)
    requires
        steady_ops(ops),
        steady_rand(rand),
        data_drawn(ops, rand, env, site, name, source, x),
        data_drawn(ops, rand, env, site, name, source, y),
    ensures
        x == y,
{
    assert forall|p: Result<(TensorModel, N::Source), Fault>, q: Result<(TensorModel, N::Source), Fault>|
        #![trigger sampled(ops, rand, env, site.distribution, None, source, p), sampled(ops, rand, env, site.distribution, None, source, q)]
        sampled(ops, rand, env, site.distribution, None, source, p) && sampled(ops, rand, env, site.distribution, None, source, q) implies p == q by {
        lemma_one_distribution(ops, rand, env, site.distribution, None, source, p, q);
    }
}

proof fn lemma_one_site<A: Arithmetic, N: Randomness>(
    ops: &A,
    rand: &N,
    specs: Seq<(Seq<char>, FreeSpecModel)>,
    env: EnvModel,
    site: SiteModel,
    source: N::Source,
    x: Result<(StepModel, N::Source), Fault>,
    y: Result<(StepModel, N::Source), Fault>,
)
    requires
        steady_ops(ops),
        steady_rand(rand),
        site_drawn(ops, rand, specs, env, site, source, x),
        site_drawn(ops, rand, specs, env, site, source, y),
    ensures
        x == y,
{
    match site.value {
        ExprModel::Param(name) => {
            lemma_one_param(
                ops,
                rand,
                env,
                site,
                name,
                super::forward::last_named(specs, name),
                source,
                x,
                y,
            );
        },
        ExprModel::Data(name) => {
            lemma_one_data(ops, rand, env, site, name, source, x, y);
        },
        ExprModel::VectorScatter {
            length,
            observed_idx,
            observed_values,
            missing_idx,
            missing_values,
        } => {
            if let ExprModel::Param(free_name) = *missing_values {
                if let Some(spec) = super::forward::last_named(specs, free_name) {
                    let p = PartialModel {
                        site: site.name,
                        distribution: site.distribution,
                        free_name,
                        spec,
                    };
                    lemma_one_partial(ops, rand, env, p, *length, *missing_idx, source, x, y);
                }
            }
        },
        _ => {},
    }
}

proof fn lemma_one_row<A: Arithmetic, N: Randomness>(
    ops: &A,
    rand: &N,
    specs: Seq<(Seq<char>, FreeSpecModel)>,
    data: Seq<(Seq<char>, DataModel)>,
    sites: Seq<SiteModel>,
    source: N::Source,
    x: Result<(RowModel, N::Source), Fault>,
    y: Result<(RowModel, N::Source), Fault>,
)
    requires
        steady_ops(ops),
        steady_rand(rand),
        row_drawn(ops, rand, specs, data, sites, source, x),
        row_drawn(ops, rand, specs, data, sites, source, y),
    ensures
        x == y,
    decreases sites.len(),
{
    if sites.len() > 0 {
        if x is Err && row_drawn(ops, rand, specs, data, sites.drop_last(), source, x) {
            if y is Err && row_drawn(ops, rand, specs, data, sites.drop_last(), source, y) {
                lemma_one_row(ops, rand, specs, data, sites.drop_last(), source, x, y);
            } else {
                let (b, j) = choose|b: (RowModel, N::Source), j: Result<(StepModel, N::Source), Fault>| #[trigger]
                    row_extended(b, j, y) && row_drawn(
                        ops,
                        rand,
                        specs,
                        data,
                        sites.drop_last(),
                        source,
                        Ok(b),
                    ) && site_drawn(
                        ops,
                        rand,
                        specs,
                        EnvModel { values: b.0.seen, data },
                        sites.last(),
                        b.1,
                        j,
                    );
                lemma_one_row(ops, rand, specs, data, sites.drop_last(), source, x, Ok(b));
            }
        } else {
            let (a, i) = choose|b: (RowModel, N::Source), j: Result<(StepModel, N::Source), Fault>| #[trigger]
                    row_extended(b, j, x) && row_drawn(
                        ops,
                        rand,
                        specs,
                        data,
                        sites.drop_last(),
                        source,
                        Ok(b),
                    ) && site_drawn(
                        ops,
                        rand,
                        specs,
                        EnvModel { values: b.0.seen, data },
                        sites.last(),
                        b.1,
                        j,
                    );
            if y is Err && row_drawn(ops, rand, specs, data, sites.drop_last(), source, y) {
                lemma_one_row(ops, rand, specs, data, sites.drop_last(), source, Ok(a), y);
            } else {
                let (b, j) = choose|b: (RowModel, N::Source), j: Result<(StepModel, N::Source), Fault>| #[trigger]
                    row_extended(b, j, y) && row_drawn(
                        ops,
                        rand,
                        specs,
                        data,
                        sites.drop_last(),
                        source,
                        Ok(b),
                    ) && site_drawn(
                        ops,
                        rand,
                        specs,
                        EnvModel { values: b.0.seen, data },
                        sites.last(),
                        b.1,
                        j,
                    );
                lemma_one_row(ops, rand, specs, data, sites.drop_last(), source, Ok(a), Ok(b));
                lemma_one_site(ops, rand, specs, EnvModel { values: a.0.seen, data }, sites.last(), a.1, i, j);
            }
        }
    }
}

proof fn lemma_one_run<A: Arithmetic, N: Randomness>(
    ops: &A,
    rand: &N,
    specs: Seq<(Seq<char>, FreeSpecModel)>,
    data: Seq<(Seq<char>, DataModel)>,
    sites: Seq<SiteModel>,
    n: nat,
    source: N::Source,
    x: Result<(RunModel, N::Source), Fault>,
    y: Result<(RunModel, N::Source), Fault>,
)
    requires
        steady_ops(ops),
        steady_rand(rand),
        rows_drawn(ops, rand, specs, data, sites, n, source, x),
        rows_drawn(ops, rand, specs, data, sites, n, source, y),
    ensures
        x == y,
    decreases n,
{
    if n > 0 {
        if x is Err && rows_drawn(ops, rand, specs, data, sites, (n - 1) as nat, source, x) {
            if y is Err && rows_drawn(ops, rand, specs, data, sites, (n - 1) as nat, source, y) {
                lemma_one_run(ops, rand, specs, data, sites, (n - 1) as nat, source, x, y);
            } else {
                let (b, j) = choose|b: (RunModel, N::Source), j: Result<(RowModel, N::Source), Fault>| #[trigger]
                    prior_extended(b, j, y) && rows_drawn(
                        ops,
                        rand,
                        specs,
                        data,
                        sites,
                        (n - 1) as nat,
                        source,
                        Ok(b),
                    ) && row_drawn(ops, rand, specs, data, sites, b.1, j);
                lemma_one_run(ops, rand, specs, data, sites, (n - 1) as nat, source, x, Ok(b));
            }
        } else {
            let (a, i) = choose|b: (RunModel, N::Source), j: Result<(RowModel, N::Source), Fault>| #[trigger]
                    prior_extended(b, j, x) && rows_drawn(
                        ops,
                        rand,
                        specs,
                        data,
                        sites,
                        (n - 1) as nat,
                        source,
                        Ok(b),
                    ) && row_drawn(ops, rand, specs, data, sites, b.1, j);
            if y is Err && rows_drawn(ops, rand, specs, data, sites, (n - 1) as nat, source, y) {
                lemma_one_run(ops, rand, specs, data, sites, (n - 1) as nat, source, Ok(a), y);
            } else {
                let (b, j) = choose|b: (RunModel, N::Source), j: Result<(RowModel, N::Source), Fault>| #[trigger]
                    prior_extended(b, j, y) && rows_drawn(
                        ops,
                        rand,
                        specs,
                        data,
                        sites,
                        (n - 1) as nat,
                        source,
                        Ok(b),
                    ) && row_drawn(ops, rand, specs, data, sites, b.1, j);
                lemma_one_run(ops, rand, specs, data, sites, (n - 1) as nat, source, Ok(a), Ok(b));
                lemma_one_row(ops, rand, specs, data, sites, a.1, i, j);
            }
        }
    }
}

/// Over services that give one answer to one question, a prior-predictive simulation comes to one
/// outcome only: the same model, data and seed give the same run, or the same failure.
pub proof fn law_prior_simulation_is_a_function_of_its_seed<A: Arithmetic, N: Randomness>(
    ops: &A,
    rand: &N,
    m: MetaModel,
    data: Seq<(Seq<char>, DataModel)>,
    n: nat,
    seed: u64,
    x: Result<RunModel, Fault>,
    y: Result<RunModel, Fault>,
)
    requires
        steady_ops(ops),
        steady_rand(rand),
        prior_simulated(ops, rand, m, data, n, seed, x),
        prior_simulated(ops, rand, m, data, n, seed, y),
    ensures
        x == y,
{
    assert forall|p: Result<Seq<(Seq<char>, FreeSpecModel)>, Fault>, q: Result<Seq<(Seq<char>, FreeSpecModel)>, Fault>|
        #![trigger specs_laid(ops, m, data, p), specs_laid(ops, m, data, q)]
        specs_laid(ops, m, data, p) && specs_laid(ops, m, data, q) implies p == q by {
        lemma_one_layout(ops, m, data, p, q);
    }
    let sites = resolved_sites(m);
    assert forall|
        laid: Seq<(Seq<char>, FreeSpecModel)>,
        source: N::Source,
        p: Result<(RunModel, N::Source), Fault>,
        q: Result<(RunModel, N::Source), Fault>,
    |
        #![trigger rows_drawn(ops, rand, laid, data, sites, n, source, p), rows_drawn(ops, rand, laid, data, sites, n, source, q)]
        rows_drawn(ops, rand, laid, data, sites, n, source, p) && rows_drawn(
            ops,
            rand,
            laid,
            data,
            sites,
            n,
            source,
            q,
        ) implies p == q by {
        lemma_one_run(ops, rand, laid, data, sites, n, source, p, q);
    }
}

} // verus!
