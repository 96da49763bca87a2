//! Where services give one answer to one question, so does a log density.

use vstd::prelude::*;

#[allow(unused_imports)]
use crate::data::DataModel;
#[allow(unused_imports)]
use crate::density::{
    base_fault, density_checked, joint_fault, parameter_fault, shapes_checked, truncated_checked,
    DistVars, Var,
};
#[allow(unused_imports)]
use crate::error::Fault;
#[allow(unused_imports)]
use crate::ir::{dist_params, BinOpKind, DistModel, ExprModel, IndexModel};
#[allow(unused_imports)]
use crate::number::NumberModel;
#[allow(unused_imports)]
use crate::numerics::{Arithmetic, AtomModel};
#[allow(unused_imports)]
use crate::posterior::length_refusal;
#[allow(unused_imports)]
use crate::predictive::forward::{
    atom_read, atoms_joined, binary_joined, gather_joined, nested_fault, positions_of,
    product_joined, unary_joined, EnvModel,
};
#[allow(unused_imports)]
use crate::predictive::steady::steady_ops;
#[allow(unused_imports)]
use crate::shapes::{
    bounded_shapes, density_shapes, mass_shapes, pair_gives, shapes_give, JointModel,
};
#[allow(unused_imports)]
use crate::tensor::TensorModel;
#[allow(unused_imports)]
use crate::term::{Term, UnaryOp};

#[allow(unused_imports)]
use super::calculus::{Calculus, InputsModel};
#[allow(unused_imports)]
use super::compiled::{gradient_joined, graph_grades};
#[allow(unused_imports)]
use super::evaluate::{
    guarded, index_settled, indices_settled, scatter_settled, settled,
};
#[allow(unused_imports)]
use super::graph::{made, GraphModel, SiteFormModel, SlotFormModel};
#[allow(unused_imports)]
use super::parameters::{all_settled, describes, list_joined, stands};
#[allow(unused_imports)]
use super::place::{
    form_added, form_gives, form_inputs, form_placed, forms_placed, jacobian_joined, slot_added,
    slot_joined, total_joined, PlacedModel, SlotValueModel,
};
#[allow(unused_imports)]
use super::point::{
    graph_gives, list_added, logp_joined, params_added, parts_give, score_added, site_added,
    site_checked, sites_added, sum_added, value_added,
};

verus! {

/// Tensor operations, expressions and derivatives come to one answer only.
pub open spec fn steady_calculus<S: Calculus>(s: &S) -> bool {
    &&& steady_ops(s)
    &&& forall|
        term: Term,
        inputs: InputsModel,
        x: Result<TensorModel, Fault>,
        y: Result<TensorModel, Fault>,
    |
        #![trigger s.term_gives(term, inputs, x), s.term_gives(term, inputs, y)]
        s.term_gives(term, inputs, x) && s.term_gives(term, inputs, y) ==> x == y
    &&& forall|graph: GraphModel, q: Seq<NumberModel>, x: Seq<TensorModel>, y: Seq<TensorModel>|
        #![trigger s.slopes_give(graph, q, x), s.slopes_give(graph, q, y)]
        s.slopes_give(graph, q, x) && s.slopes_give(graph, q, y) ==> x == y
}

proof fn lemma_one_value<A: Arithmetic>(
    ops: &A,
    e: ExprModel,
    env: EnvModel,
    x: Result<TensorModel, Fault>,
    y: Result<TensorModel, Fault>,
)
    requires
        steady_ops(ops),
        settled(ops, e, env, x),
        settled(ops, e, env, y),
    ensures
        x == y,
    decreases e,
{
    match e {
        ExprModel::Bin { op, left, right } => {
            let (l, r) = choose|l: Result<TensorModel, Fault>, r: Result<TensorModel, Fault>|
                #[trigger]
                binary_joined(ops, op, l, r, x) && settled(ops, *left, env, l) && (l is Ok
                    ==> settled(ops, *right, env, r));
            let (m, s) = choose|m: Result<TensorModel, Fault>, s: Result<TensorModel, Fault>|
                #[trigger]
                binary_joined(ops, op, m, s, y) && settled(ops, *left, env, m) && (m is Ok
                    ==> settled(ops, *right, env, s));
            lemma_one_value(ops, *left, env, l, m);
            if l is Ok {
                lemma_one_value(ops, *right, env, r, s);
            }
        },
        ExprModel::Unary { function, operand } => {
            let o = choose|o: Result<TensorModel, Fault>| #[trigger]
                unary_joined(ops, function, o, x) && settled(ops, *operand, env, o);
            let n = choose|n: Result<TensorModel, Fault>| #[trigger]
                unary_joined(ops, function, n, y) && settled(ops, *operand, env, n);
            lemma_one_value(ops, *operand, env, o, n);
        },
        ExprModel::MatVec { matrix, vector } => {
            let (l, r) = choose|l: Result<TensorModel, Fault>, r: Result<TensorModel, Fault>|
                #[trigger]
                product_joined(ops, l, r, x) && settled(ops, *matrix, env, l) && (l is Ok
                    ==> settled(ops, *vector, env, r));
            let (m, s) = choose|m: Result<TensorModel, Fault>, s: Result<TensorModel, Fault>|
                #[trigger]
                product_joined(ops, m, s, y) && settled(ops, *matrix, env, m) && (m is Ok
                    ==> settled(ops, *vector, env, s));
            lemma_one_value(ops, *matrix, env, l, m);
            if l is Ok {
                lemma_one_value(ops, *vector, env, r, s);
            }
        },
        ExprModel::Index { base, index } => {
            let (l, r) = choose|l: Result<TensorModel, Fault>, r: Result<Seq<AtomModel>, Fault>|
                #[trigger]
                gather_joined(ops, l, r, x) && settled(ops, *base, env, l) && (l is Ok
                    ==> index_settled(ops, index, env, r));
            let (m, s) = choose|m: Result<TensorModel, Fault>, s: Result<Seq<AtomModel>, Fault>|
                #[trigger]
                gather_joined(ops, m, s, y) && settled(ops, *base, env, m) && (m is Ok
                    ==> index_settled(ops, index, env, s));
            lemma_one_value(ops, *base, env, l, m);
            if l is Ok {
                lemma_one_index(ops, index, env, r, s);
            }
        },
        ExprModel::VectorScatter {
            length,
            observed_idx,
            observed_values,
            missing_idx,
            missing_values,
        } => {
            let (oi, mi, ov, mv) = choose|
                oi: Result<TensorModel, Fault>,
                mi: Result<TensorModel, Fault>,
                ov: Result<TensorModel, Fault>,
                mv: Result<TensorModel, Fault>,
            | #[trigger]
                scatter_settled(
                    guarded(env, *observed_idx, oi),
                    guarded(env, *missing_idx, mi),
                    ov,
                    mv,
                    x,
                ) && settled(ops, *observed_idx, env, oi) && (positions_of(
                    guarded(env, *observed_idx, oi),
                ) is Ok ==> settled(ops, *missing_idx, env, mi)) && (positions_of(
                    guarded(env, *observed_idx, oi),
                ) is Ok && positions_of(guarded(env, *missing_idx, mi)) is Ok ==> settled(
                    ops,
                    *observed_values,
                    env,
                    ov,
                )) && (positions_of(guarded(env, *observed_idx, oi)) is Ok && positions_of(
                    guarded(env, *missing_idx, mi),
                ) is Ok && ov is Ok ==> settled(ops, *missing_values, env, mv));
            let (oj, mj, ow, mw) = choose|
                oi: Result<TensorModel, Fault>,
                mi: Result<TensorModel, Fault>,
                ov: Result<TensorModel, Fault>,
                mv: Result<TensorModel, Fault>,
            | #[trigger]
                scatter_settled(
                    guarded(env, *observed_idx, oi),
                    guarded(env, *missing_idx, mi),
                    ov,
                    mv,
                    y,
                ) && settled(ops, *observed_idx, env, oi) && (positions_of(
                    guarded(env, *observed_idx, oi),
                ) is Ok ==> settled(ops, *missing_idx, env, mi)) && (positions_of(
                    guarded(env, *observed_idx, oi),
                ) is Ok && positions_of(guarded(env, *missing_idx, mi)) is Ok ==> settled(
                    ops,
                    *observed_values,
                    env,
                    ov,
                )) && (positions_of(guarded(env, *observed_idx, oi)) is Ok && positions_of(
                    guarded(env, *missing_idx, mi),
                ) is Ok && ov is Ok ==> settled(ops, *missing_values, env, mv));
            lemma_one_value(ops, *observed_idx, env, oi, oj);
            if positions_of(guarded(env, *observed_idx, oi)) is Ok {
                lemma_one_value(ops, *missing_idx, env, mi, mj);
                if positions_of(guarded(env, *missing_idx, mi)) is Ok {
                    lemma_one_value(ops, *observed_values, env, ov, ow);
                    if ov is Ok {
                        lemma_one_value(ops, *missing_values, env, mv, mw);
                    }
                }
            }
        },
        _ => {},
    }
}

proof fn lemma_one_index<A: Arithmetic>(
    ops: &A,
    index: IndexModel,
    env: EnvModel,
    x: Result<Seq<AtomModel>, Fault>,
    y: Result<Seq<AtomModel>, Fault>,
)
    requires
        steady_ops(ops),
        index_settled(ops, index, env, x),
        index_settled(ops, index, env, y),
    ensures
        x == y,
    decreases index,
{
    match index {
        IndexModel::Scalar(e) => {
            let complaint = "index values must be integers, got "@;
            let t = choose|t: Result<TensorModel, Fault>| #[trigger]
                atom_read(guarded(env, *e, t), complaint, x) && settled(ops, *e, env, t);
            let u = choose|u: Result<TensorModel, Fault>| #[trigger]
                atom_read(guarded(env, *e, u), complaint, y) && settled(ops, *e, env, u);
            lemma_one_value(ops, *e, env, t, u);
        },
        IndexModel::Tuple(items) => {
            lemma_one_tuple(ops, items, env, x, y);
        },
        _ => {},
    }
}

proof fn lemma_one_tuple<A: Arithmetic>(
    ops: &A,
    items: Seq<IndexModel>,
    env: EnvModel,
    x: Result<Seq<AtomModel>, Fault>,
    y: Result<Seq<AtomModel>, Fault>,
)
    requires
        steady_ops(ops),
        indices_settled(ops, items, env, x),
        indices_settled(ops, items, env, y),
    ensures
        x == y,
    decreases items,
{
    if items.len() > 0 {
        if x is Err && indices_settled(ops, items.drop_last(), env, x) {
            if y is Err && indices_settled(ops, items.drop_last(), env, y) {
                lemma_one_tuple(ops, items.drop_last(), env, x, y);
            } else {
                let (b, j) = choose|b: Seq<AtomModel>, j: Result<Seq<AtomModel>, Fault>| #[trigger]
                    atoms_joined(b, j, y) && indices_settled(ops, items.drop_last(), env, Ok(b))
                        && (if items.last() is Tuple {
                        j == Err::<Seq<AtomModel>, Fault>(nested_fault())
                    } else {
                        index_settled(ops, items.last(), env, j)
                    });
                lemma_one_tuple(ops, items.drop_last(), env, x, Ok(b));
            }
        } else {
            let (a, i) = choose|b: Seq<AtomModel>, j: Result<Seq<AtomModel>, Fault>| #[trigger]
                    atoms_joined(b, j, x) && indices_settled(ops, items.drop_last(), env, Ok(b))
                        && (if items.last() is Tuple {
                        j == Err::<Seq<AtomModel>, Fault>(nested_fault())
                    } else {
                        index_settled(ops, items.last(), env, j)
                    });
            if y is Err && indices_settled(ops, items.drop_last(), env, y) {
                lemma_one_tuple(ops, items.drop_last(), env, Ok(a), y);
            } else {
                let (b, j) = choose|b: Seq<AtomModel>, j: Result<Seq<AtomModel>, Fault>| #[trigger]
                    atoms_joined(b, j, y) && indices_settled(ops, items.drop_last(), env, Ok(b))
                        && (if items.last() is Tuple {
                        j == Err::<Seq<AtomModel>, Fault>(nested_fault())
                    } else {
                        index_settled(ops, items.last(), env, j)
                    });
                lemma_one_tuple(ops, items.drop_last(), env, Ok(a), Ok(b));
                if !(items.last() is Tuple) {
                    lemma_one_index(ops, items.last(), env, i, j);
                }
            }
        }
    }
}

proof fn lemma_one_list<A: Arithmetic>(
    ops: &A,
    exprs: Seq<ExprModel>,
    env: EnvModel,
    x: Result<Seq<TensorModel>, Fault>,
    y: Result<Seq<TensorModel>, Fault>,
)
    requires
        steady_ops(ops),
        all_settled(ops, exprs, env, x),
        all_settled(ops, exprs, env, y),
    ensures
        x == y,
    decreases exprs.len(),
{
    if exprs.len() > 0 {
        if x is Err && all_settled(ops, exprs.drop_last(), env, x) {
            if y is Err && all_settled(ops, exprs.drop_last(), env, y) {
                lemma_one_list(ops, exprs.drop_last(), env, x, y);
            } else {
                let (b, j) = choose|b: Seq<TensorModel>, j: Result<TensorModel, Fault>| #[trigger]
                    list_joined(b, j, y) && all_settled(ops, exprs.drop_last(), env, Ok(b))
                        && settled(ops, exprs.last(), env, j);
                lemma_one_list(ops, exprs.drop_last(), env, x, Ok(b));
            }
        } else {
            let (a, i) = choose|b: Seq<TensorModel>, j: Result<TensorModel, Fault>| #[trigger]
                    list_joined(b, j, x) && all_settled(ops, exprs.drop_last(), env, Ok(b))
                        && settled(ops, exprs.last(), env, j);
            if y is Err && all_settled(ops, exprs.drop_last(), env, y) {
                lemma_one_list(ops, exprs.drop_last(), env, Ok(a), y);
            } else {
                let (b, j) = choose|b: Seq<TensorModel>, j: Result<TensorModel, Fault>| #[trigger]
                    list_joined(b, j, y) && all_settled(ops, exprs.drop_last(), env, Ok(b))
                        && settled(ops, exprs.last(), env, j);
                lemma_one_list(ops, exprs.drop_last(), env, Ok(a), Ok(b));
                lemma_one_value(ops, exprs.last(), env, i, j);
            }
        }
    }
}

proof fn lemma_one_shape<A: Arithmetic>(
    ops: &A,
    joint: JointModel,
    x: Result<Seq<usize>, Fault>,
    y: Result<Seq<usize>, Fault>,
)
    requires
        steady_ops(ops),
        shapes_give(ops, joint, x),
        shapes_give(ops, joint, y),
    ensures
        x == y,
    decreases joint,
{
    if let JointModel::Both(left, right) = joint {
        let (l, r) = choose|l: Result<Seq<usize>, Fault>, r: Result<Seq<usize>, Fault>| #[trigger]
            pair_gives(ops, l, r, x) && shapes_give(ops, *left, l) && (l is Ok ==> shapes_give(
                ops,
                *right,
                r,
            ));
        let (m, n) = choose|l: Result<Seq<usize>, Fault>, r: Result<Seq<usize>, Fault>| #[trigger]
            pair_gives(ops, l, r, y) && shapes_give(ops, *left, l) && (l is Ok ==> shapes_give(
                ops,
                *right,
                r,
            ));
        lemma_one_shape(ops, *left, l, m);
        if l is Ok {
            lemma_one_shape(ops, *right, r, n);
        }
    }
}

proof fn lemma_one_broadcast<A: Arithmetic>(
    ops: &A,
    joint: JointModel,
    x: Option<Fault>,
    y: Option<Fault>,
)
    requires
        steady_ops(ops),
        shapes_checked(ops, joint, x),
        shapes_checked(ops, joint, y),
    ensures
        x == y,
{
    let a = choose|a: Result<Seq<usize>, Fault>| #[trigger]
        shapes_give(ops, joint, a) && x == joint_fault(a);
    let b = choose|b: Result<Seq<usize>, Fault>| #[trigger]
        shapes_give(ops, joint, b) && y == joint_fault(b);
    lemma_one_shape(ops, joint, a, b);
}

/// Parameters that stand for the same tensors put the same shapes together.
proof fn lemma_same_shapes(
    u: DistVars,
    v: DistVars,
    d: DistModel,
    tensors: Seq<TensorModel>,
    from: int,
    a: Var,
    b: Var,
)
    requires
        describes(u, d, tensors, from),
        describes(v, d, tensors, from),
        a.shape@ == b.shape@,
    ensures
        density_shapes(u, a) == density_shapes(v, b),
        parameter_fault(u, a) == parameter_fault(v, b),
        base_fault(u) == base_fault(v),
    decreases d,
{
    if let DistModel::Truncated { base, .. } = d {
        lemma_same_shapes(*u->base, *v->base, *base, tensors, from, a, b);
        assert(mass_shapes(*u->base, u->lower, u->upper) == mass_shapes(
            *v->base,
            v->lower,
            v->upper,
        ));
        let inner = density_shapes(*u->base, a).with(
            mass_shapes(*u->base, u->lower, u->upper),
        );
        assert(bounded_shapes(inner, u->lower, u->upper, a) == bounded_shapes(
            inner,
            v->lower,
            v->upper,
            b,
        ));
    }
}

proof fn lemma_one_check<A: Arithmetic>(
    ops: &A,
    u: DistVars,
    v: DistVars,
    d: DistModel,
    tensors: Seq<TensorModel>,
    from: int,
    a: Var,
    b: Var,
    x: Option<Fault>,
    y: Option<Fault>,
)
    requires
        steady_ops(ops),
        describes(u, d, tensors, from),
        describes(v, d, tensors, from),
        a.shape@ == b.shape@,
        density_checked(ops, u, a, x),
        density_checked(ops, v, b, y),
    ensures
        x == y,
    decreases d,
{
    lemma_same_shapes(u, v, d, tensors, from, a, b);
    if let DistModel::Truncated { base, .. } = d {
        let i = choose|i: Option<Fault>| #[trigger]
            truncated_checked(ops, u, a, i, x) && density_checked(ops, *u->base, a, i);
        let j = choose|j: Option<Fault>| #[trigger]
            truncated_checked(ops, v, b, j, y) && density_checked(ops, *v->base, b, j);
        lemma_one_check(ops, *u->base, *v->base, *base, tensors, from, a, b, i, j);
        lemma_same_shapes(*u->base, *v->base, *base, tensors, from, a, b);
        if i is None && base_fault(*u->base) is None {
            lemma_one_broadcast(ops, density_shapes(u, a), x, y);
        }
    } else if parameter_fault(u, a) is None {
        lemma_one_broadcast(ops, density_shapes(u, a), x, y);
    }
}

proof fn lemma_one_score<S: Calculus>(
    s: &S,
    before: TensorModel,
    site: SiteFormModel,
    tensors: Seq<TensorModel>,
    e: Option<Fault>,
    f: Option<Fault>,
    x: Result<TensorModel, Fault>,
    y: Result<TensorModel, Fault>,
)
    requires
        steady_calculus(s),
        site_checked(s, site.distribution, tensors, e),
        site_checked(s, site.distribution, tensors, f),
        score_added(s, before, site.score, tensors, e, x),
        score_added(s, before, site.score, tensors, f, y),
    ensures
        x == y,
{
    let d = site.distribution;
    let (u, a) = choose|u: DistVars, a: Var| #[trigger]
        density_checked(s, u, a, e) && describes(u, d, tensors, 0) && stands(
            a,
            tensors,
            tensors.len() - 1,
        );
    let (v, b) = choose|v: DistVars, b: Var| #[trigger]
        density_checked(s, v, b, f) && describes(v, d, tensors, 0) && stands(
            b,
            tensors,
            tensors.len() - 1,
        );
    lemma_one_check(s, u, v, d, tensors, 0, a, b, e, f);
    if e is None {
        let term = site.score.unary(UnaryOp::Sum);
        let inputs = InputsModel { leaves: tensors, lower: None, upper: None };
        let m = choose|m: Result<TensorModel, Fault>| #[trigger]
            sum_added(s, before, m, x) && s.term_gives(term, inputs, m);
        let n = choose|n: Result<TensorModel, Fault>| #[trigger]
            sum_added(s, before, n, y) && s.term_gives(term, inputs, n);
        assert(m == n);
    }
}

proof fn lemma_one_site<S: Calculus>(
    s: &S,
    env: EnvModel,
    before: TensorModel,
    site: SiteFormModel,
    x: Result<TensorModel, Fault>,
    y: Result<TensorModel, Fault>,
)
    requires
        steady_calculus(s),
        site_added(s, env, before, site, x),
        site_added(s, env, before, site, y),
    ensures
        x == y,
{
    let exprs = dist_params(site.distribution);
    let p = choose|p: Result<Seq<TensorModel>, Fault>| #[trigger]
        params_added(s, env, before, site, p, x) && all_settled(s, exprs, env, p);
    let r = choose|r: Result<Seq<TensorModel>, Fault>| #[trigger]
        params_added(s, env, before, site, r, y) && all_settled(s, exprs, env, r);
    lemma_one_list(s, exprs, env, p, r);
    if let Ok(list) = p {
        assert(list_added(s, env, before, site, list, x));
        assert(list_added(s, env, before, site, list, y));
        let v = choose|v: Result<TensorModel, Fault>| #[trigger]
            value_added(s, before, site, list, v, x) && settled(s, site.value, env, v);
        let w = choose|w: Result<TensorModel, Fault>| #[trigger]
            value_added(s, before, site, list, w, y) && settled(s, site.value, env, w);
        lemma_one_value(s, site.value, env, v, w);
        if let Ok(t) = v {
            let all = list.push(t);
            let e = choose|e: Option<Fault>| #[trigger]
                score_added(s, before, site.score, all, e, x) && site_checked(
                    s,
                    site.distribution,
                    all,
                    e,
                );
            let f = choose|f: Option<Fault>| #[trigger]
                score_added(s, before, site.score, all, f, y) && site_checked(
                    s,
                    site.distribution,
                    all,
                    f,
                );
            lemma_one_score(s, before, site, all, e, f, x, y);
        }
    }
}

proof fn lemma_one_sum<S: Calculus>(
    s: &S,
    env: EnvModel,
    start: TensorModel,
    sites: Seq<SiteFormModel>,
    x: Result<TensorModel, Fault>,
    y: Result<TensorModel, Fault>,
)
    requires
        steady_calculus(s),
        sites_added(s, env, start, sites, x),
        sites_added(s, env, start, sites, y),
    ensures
        x == y,
    decreases sites.len(),
{
    if sites.len() > 0 {
        let rest = sites.drop_last();
        if x is Err && sites_added(s, env, start, rest, x) {
            if y is Err && sites_added(s, env, start, rest, y) {
                lemma_one_sum(s, env, start, rest, x, y);
            } else {
                let b = choose|b: TensorModel| #[trigger]
                    site_added(s, env, b, sites.last(), y) && sites_added(s, env, start, rest, Ok(b));
                lemma_one_sum(s, env, start, rest, x, Ok(b));
            }
        } else {
            let a = choose|a: TensorModel| #[trigger]
                site_added(s, env, a, sites.last(), x) && sites_added(s, env, start, rest, Ok(a));
            if y is Err && sites_added(s, env, start, rest, y) {
                lemma_one_sum(s, env, start, rest, Ok(a), y);
            } else {
                let b = choose|b: TensorModel| #[trigger]
                    site_added(s, env, b, sites.last(), y) && sites_added(s, env, start, rest, Ok(b));
                lemma_one_sum(s, env, start, rest, Ok(a), Ok(b));
                lemma_one_site(s, env, a, sites.last(), x, y);
            }
        }
    }
}

proof fn lemma_one_slot<S: Calculus>(
    s: &S,
    form: SlotFormModel,
    q: Seq<NumberModel>,
    x: Result<SlotValueModel, Fault>,
    y: Result<SlotValueModel, Fault>,
)
    requires
        steady_calculus(s),
        form_gives(s, form, q, x),
        form_gives(s, form, q, y),
    ensures
        x == y,
{
    let inputs = form_inputs(form, q);
    let jacobian = form.form.jacobian;
    let v = choose|v: Result<TensorModel, Fault>| #[trigger]
        slot_joined(s, jacobian, inputs, v, x) && s.term_gives(form.form.value, inputs, v);
    let w = choose|w: Result<TensorModel, Fault>| #[trigger]
        slot_joined(s, jacobian, inputs, w, y) && s.term_gives(form.form.value, inputs, w);
    assert(v == w);
    if v is Ok && jacobian is Some {
        let term = jacobian->0.unary(UnaryOp::Sum);
        let m = choose|m: Result<TensorModel, Fault>| #[trigger]
            jacobian_joined(v->Ok_0, m, x) && s.term_gives(term, inputs, m);
        let n = choose|n: Result<TensorModel, Fault>| #[trigger]
            jacobian_joined(v->Ok_0, n, y) && s.term_gives(term, inputs, n);
        assert(m == n);
    }
}

proof fn lemma_one_place<S: Calculus>(
    s: &S,
    before: PlacedModel,
    form: SlotFormModel,
    q: Seq<NumberModel>,
    x: Result<PlacedModel, Fault>,
    y: Result<PlacedModel, Fault>,
)
    requires
        steady_calculus(s),
        form_added(s, before, form, q, x),
        form_added(s, before, form, q, y),
    ensures
        x == y,
{
    let name = form.place.name;
    let v = choose|v: Result<SlotValueModel, Fault>| #[trigger]
        slot_added(s, before, name, v, x) && form_gives(s, form, q, v);
    let w = choose|w: Result<SlotValueModel, Fault>| #[trigger]
        slot_added(s, before, name, w, y) && form_gives(s, form, q, w);
    lemma_one_slot(s, form, q, v, w);
    if v is Ok && v->Ok_0.jacobian is Some {
        let values = before.values.push((name, v->Ok_0.value));
        let jacobian = v->Ok_0.jacobian->0;
        let m = choose|m: Result<TensorModel, Fault>| #[trigger]
            total_joined(values, m, x) && s.binary_gives(
                BinOpKind::Add,
                before.total,
                jacobian,
                m,
            );
        let n = choose|n: Result<TensorModel, Fault>| #[trigger]
            total_joined(values, n, y) && s.binary_gives(
                BinOpKind::Add,
                before.total,
                jacobian,
                n,
            );
        assert(m == n);
    }
}

proof fn lemma_one_placing<S: Calculus>(
    s: &S,
    forms: Seq<Result<SlotFormModel, Fault>>,
    q: Seq<NumberModel>,
    x: Result<PlacedModel, Fault>,
    y: Result<PlacedModel, Fault>,
)
    requires
        steady_calculus(s),
        forms_placed(s, forms, q, x),
        forms_placed(s, forms, q, y),
    ensures
        x == y,
    decreases forms.len(),
{
    if forms.len() > 0 {
        let rest = forms.drop_last();
        if x is Err && forms_placed(s, rest, q, x) {
            if y is Err && forms_placed(s, rest, q, y) {
                lemma_one_placing(s, rest, q, x, y);
            } else {
                let b = choose|b: PlacedModel| #[trigger]
                    form_placed(s, b, forms.last(), q, y) && forms_placed(s, rest, q, Ok(b));
                lemma_one_placing(s, rest, q, x, Ok(b));
            }
        } else {
            let a = choose|a: PlacedModel| #[trigger]
                form_placed(s, a, forms.last(), q, x) && forms_placed(s, rest, q, Ok(a));
            if y is Err && forms_placed(s, rest, q, y) {
                lemma_one_placing(s, rest, q, Ok(a), y);
            } else {
                let b = choose|b: PlacedModel| #[trigger]
                    form_placed(s, b, forms.last(), q, y) && forms_placed(s, rest, q, Ok(b));
                lemma_one_placing(s, rest, q, Ok(a), Ok(b));
                if let Ok(form) = forms.last() {
                    lemma_one_place(s, a, form, q, x, y);
                }
            }
        }
    }
}

proof fn lemma_one_total<S: Calculus>(
    s: &S,
    n_params: usize,
    slots: Seq<Result<SlotFormModel, Fault>>,
    sites: Seq<SiteFormModel>,
    data: Seq<(Seq<char>, DataModel)>,
    q: Seq<NumberModel>,
    x: Result<TensorModel, Fault>,
    y: Result<TensorModel, Fault>,
)
    requires
        steady_calculus(s),
        parts_give(s, n_params, slots, sites, data, q, x),
        parts_give(s, n_params, slots, sites, data, q, y),
    ensures
        x == y,
{
    if length_refusal(n_params, q.len()) is None {
        let a = choose|a: Result<PlacedModel, Fault>| #[trigger]
            logp_joined(s, sites, data, a, x) && forms_placed(s, slots, q, a);
        let b = choose|b: Result<PlacedModel, Fault>| #[trigger]
            logp_joined(s, sites, data, b, y) && forms_placed(s, slots, q, b);
        lemma_one_placing(s, slots, q, a, b);
        if let Ok(found) = a {
            lemma_one_sum(
                s,
                EnvModel { values: found.values, data },
                found.total,
                sites,
                x,
                y,
            );
        }
    }
}

/// Over services that give one answer to one question, a log density with its gradient comes to
/// one thing at one point.
pub proof fn law_density_is_a_function_of_its_point<S: Calculus>(
    s: &S,
    graph: GraphModel,
    q: Seq<NumberModel>,
    x: Result<(NumberModel, Seq<NumberModel>), Fault>,
    y: Result<(NumberModel, Seq<NumberModel>), Fault>,
)
    requires
        steady_calculus(s),
        graph_grades(s, graph, q, x),
        graph_grades(s, graph, q, y),
    ensures
        x == y,
{
    let a = choose|a: Result<TensorModel, Fault>| #[trigger]
        gradient_joined(s, graph, q, a, x) && graph_gives(s, graph, q, a);
    let b = choose|b: Result<TensorModel, Fault>| #[trigger]
        gradient_joined(s, graph, q, b, y) && graph_gives(s, graph, q, b);
    lemma_one_total(
        s,
        graph.n_params,
        made(graph.slots),
        graph.sites,
        graph.data,
        q,
        a,
        b,
    );
}

} // verus!
