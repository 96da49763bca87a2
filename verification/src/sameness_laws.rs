//! What it means that expressions and distributions are the same: they are equal once equal numbers
//! are spelled alike.

use vstd::prelude::*;

#[allow(unused_imports)]
use crate::ir::{dist_params, optional_param, DistModel, ExprModel, IndexModel};
#[allow(unused_imports)]
use crate::number::{equal_value, nan, NumberModel};
#[allow(unused_imports)]
use crate::sameness::{same_dist, same_expr, same_index, same_indices, same_optional};

verus! {

/// Whether a way of spelling spells two numbers alike exactly where they are equal.
pub open spec fn spells_alike(r: spec_fn(NumberModel) -> NumberModel) -> bool {
    forall|x: NumberModel, y: NumberModel|
        !nan(x.bits) && !nan(y.bits) ==> (#[trigger] r(x) == #[trigger] r(y) <==> equal_value(
            x.bits,
            y.bits,
        ))
}

/// An expression with its numbers spelled in a way.
pub open spec fn spelled(r: spec_fn(NumberModel) -> NumberModel, e: ExprModel) -> ExprModel
    decreases e,
{
    match e {
        ExprModel::Param(name) => ExprModel::Param(name),
        ExprModel::Data(name) => ExprModel::Data(name),
        ExprModel::Const(value) => ExprModel::Const(r(value)),
        ExprModel::Bin { op, left, right } => ExprModel::Bin {
            op,
            left: Box::new(spelled(r, *left)),
            right: Box::new(spelled(r, *right)),
        },
        ExprModel::Unary { function, operand } => ExprModel::Unary {
            function,
            operand: Box::new(spelled(r, *operand)),
        },
        ExprModel::MatVec { matrix, vector } => ExprModel::MatVec {
            matrix: Box::new(spelled(r, *matrix)),
            vector: Box::new(spelled(r, *vector)),
        },
        ExprModel::Index { base, index } => ExprModel::Index {
            base: Box::new(spelled(r, *base)),
            index: spelled_index(r, index),
        },
        ExprModel::VectorScatter {
            length,
            observed_idx,
            observed_values,
            missing_idx,
            missing_values,
        } => ExprModel::VectorScatter {
            length: Box::new(spelled(r, *length)),
            observed_idx: Box::new(spelled(r, *observed_idx)),
            observed_values: Box::new(spelled(r, *observed_values)),
            missing_idx: Box::new(spelled(r, *missing_idx)),
            missing_values: Box::new(spelled(r, *missing_values)),
        },
    }
}

/// An index with its numbers spelled in a way.
pub open spec fn spelled_index(r: spec_fn(NumberModel) -> NumberModel, s: IndexModel) -> IndexModel
    decreases s,
{
    match s {
        IndexModel::Full => IndexModel::Full,
        IndexModel::Scalar(e) => IndexModel::Scalar(Box::new(spelled(r, *e))),
        IndexModel::Tuple(items) => IndexModel::Tuple(spelled_indices(r, items)),
    }
}

/// Indices with their numbers spelled in a way.
pub open spec fn spelled_indices(
    r: spec_fn(NumberModel) -> NumberModel,
    items: Seq<IndexModel>,
) -> Seq<IndexModel>
    decreases items,
{
    if items.len() == 0 {
        Seq::empty()
    } else {
        spelled_indices(r, items.drop_last()).push(spelled_index(r, items.last()))
    }
}

/// Whether every number in an expression is one.
pub open spec fn numeric(e: ExprModel) -> bool
    decreases e,
{
    match e {
        ExprModel::Param(_) => true,
        ExprModel::Data(_) => true,
        ExprModel::Const(value) => !nan(value.bits),
        ExprModel::Bin { op, left, right } => numeric(*left) && numeric(*right),
        ExprModel::Unary { function, operand } => numeric(*operand),
        ExprModel::MatVec { matrix, vector } => numeric(*matrix) && numeric(*vector),
        ExprModel::Index { base, index } => numeric(*base) && numeric_index(index),
        ExprModel::VectorScatter {
            length,
            observed_idx,
            observed_values,
            missing_idx,
            missing_values,
        } => numeric(*length) && numeric(*observed_idx) && numeric(*observed_values) && numeric(
            *missing_idx,
        ) && numeric(*missing_values),
    }
}

/// Whether every number in an index is one.
pub open spec fn numeric_index(s: IndexModel) -> bool
    decreases s,
{
    match s {
        IndexModel::Full => true,
        IndexModel::Scalar(e) => numeric(*e),
        IndexModel::Tuple(items) => numeric_indices(items),
    }
}

/// Whether every number in indices is one.
pub open spec fn numeric_indices(items: Seq<IndexModel>) -> bool
    decreases items,
{
    items.len() == 0 || numeric_indices(items.drop_last()) && numeric_index(items.last())
}

/// Two expressions are the same exactly where they are equal once equal numbers are spelled alike.
pub proof fn law_same_expressions_are_spelled_alike(
    r: spec_fn(NumberModel) -> NumberModel,
    a: ExprModel,
    b: ExprModel,
)
    requires
        spells_alike(r),
        numeric(a),
        numeric(b),
    ensures
        same_expr(a, b) <==> spelled(r, a) == spelled(r, b),
    decreases a,
{
    match (a, b) {
        (ExprModel::Const(x), ExprModel::Const(y)) => {
            assert(r(x) == r(y) <==> equal_value(x.bits, y.bits));
        },
        (
            ExprModel::Bin { op, left, right },
            ExprModel::Bin { op: op2, left: left2, right: right2 },
        ) => {
            law_same_expressions_are_spelled_alike(r, *left, *left2);
            law_same_expressions_are_spelled_alike(r, *right, *right2);
        },
        (
            ExprModel::Unary { function, operand },
            ExprModel::Unary { function: function2, operand: operand2 },
        ) => {
            law_same_expressions_are_spelled_alike(r, *operand, *operand2);
        },
        (
            ExprModel::MatVec { matrix, vector },
            ExprModel::MatVec { matrix: matrix2, vector: vector2 },
        ) => {
            law_same_expressions_are_spelled_alike(r, *matrix, *matrix2);
            law_same_expressions_are_spelled_alike(r, *vector, *vector2);
        },
        (
            ExprModel::Index { base, index },
            ExprModel::Index { base: base2, index: index2 },
        ) => {
            law_same_expressions_are_spelled_alike(r, *base, *base2);
            lemma_same_index(r, index, index2);
        },
        (
            ExprModel::VectorScatter {
                length,
                observed_idx,
                observed_values,
                missing_idx,
                missing_values,
            },
            ExprModel::VectorScatter {
                length: length2,
                observed_idx: observed_idx2,
                observed_values: observed_values2,
                missing_idx: missing_idx2,
                missing_values: missing_values2,
            },
        ) => {
            law_same_expressions_are_spelled_alike(r, *length, *length2);
            law_same_expressions_are_spelled_alike(r, *observed_idx, *observed_idx2);
            law_same_expressions_are_spelled_alike(r, *observed_values, *observed_values2);
            law_same_expressions_are_spelled_alike(r, *missing_idx, *missing_idx2);
            law_same_expressions_are_spelled_alike(r, *missing_values, *missing_values2);
        },
        _ => {},
    }
}

proof fn lemma_same_index(r: spec_fn(NumberModel) -> NumberModel, a: IndexModel, b: IndexModel)
    requires
        spells_alike(r),
        numeric_index(a),
        numeric_index(b),
    ensures
        same_index(a, b) <==> spelled_index(r, a) == spelled_index(r, b),
    decreases a,
{
    match (a, b) {
        (IndexModel::Scalar(x), IndexModel::Scalar(y)) => {
            law_same_expressions_are_spelled_alike(r, *x, *y);
        },
        (IndexModel::Tuple(x), IndexModel::Tuple(y)) => {
            lemma_spelled_length(r, x);
            lemma_spelled_length(r, y);
            if x.len() == y.len() {
                lemma_same_indices(r, x, y);
            }
        },
        _ => {},
    }
}

proof fn lemma_spelled_length(r: spec_fn(NumberModel) -> NumberModel, items: Seq<IndexModel>)
    ensures
        spelled_indices(r, items).len() == items.len(),
    decreases items.len(),
{
    if items.len() > 0 {
        lemma_spelled_length(r, items.drop_last());
    }
}

proof fn lemma_same_indices(
    r: spec_fn(NumberModel) -> NumberModel,
    a: Seq<IndexModel>,
    b: Seq<IndexModel>,
)
    requires
        spells_alike(r),
        numeric_indices(a),
        numeric_indices(b),
        a.len() == b.len(),
    ensures
        same_indices(a, b) <==> spelled_indices(r, a) == spelled_indices(r, b),
    decreases a,
{
    if a.len() > 0 {
        lemma_same_indices(r, a.drop_last(), b.drop_last());
        lemma_same_index(r, a.last(), b.last());
        let (x, y) = (spelled_indices(r, a), spelled_indices(r, b));
        let (p, q) = (spelled_indices(r, a.drop_last()), spelled_indices(r, b.drop_last()));
        assert(x.drop_last() =~= p && y.drop_last() =~= q);
        assert(x.last() == spelled_index(r, a.last()) && y.last() == spelled_index(r, b.last()));
    }
}

/// Whether two distributions are of one family; two truncated ones of one family and bounded on the
/// same sides.
pub open spec fn one_family(a: DistModel, b: DistModel) -> bool
    decreases a,
{
    match (a, b) {
        (DistModel::Normal { .. }, DistModel::Normal { .. }) => true,
        (DistModel::HalfNormal { .. }, DistModel::HalfNormal { .. }) => true,
        (DistModel::StudentT { .. }, DistModel::StudentT { .. }) => true,
        (DistModel::Exponential { .. }, DistModel::Exponential { .. }) => true,
        (DistModel::Uniform { .. }, DistModel::Uniform { .. }) => true,
        (DistModel::Beta { .. }, DistModel::Beta { .. }) => true,
        (DistModel::Bernoulli { .. }, DistModel::Bernoulli { .. }) => true,
        (DistModel::Poisson { .. }, DistModel::Poisson { .. }) => true,
        (DistModel::Binomial { .. }, DistModel::Binomial { .. }) => true,
        (DistModel::BetaBinomial { .. }, DistModel::BetaBinomial { .. }) => true,
        (DistModel::NegativeBinomial { .. }, DistModel::NegativeBinomial { .. }) => true,
        (DistModel::MultivariateNormal { .. }, DistModel::MultivariateNormal { .. }) => true,
        (DistModel::OrderedLogistic { .. }, DistModel::OrderedLogistic { .. }) => true,
        (
            DistModel::Truncated { base, lower, upper },
            DistModel::Truncated { base: base2, lower: lower2, upper: upper2 },
        ) => one_family(*base, *base2) && (lower is Some <==> lower2 is Some) && (upper is Some
            <==> upper2 is Some),
        _ => false,
    }
}

/// Whether the parameters of two distributions are the same one by one.
pub open spec fn same_params(a: Seq<ExprModel>, b: Seq<ExprModel>) -> bool {
    a.len() == b.len() && forall|k: int| 0 <= k < a.len() ==> same_expr(#[trigger] a[k], b[k])
}

proof fn lemma_same_params_parts(
    a: Seq<ExprModel>,
    b: Seq<ExprModel>,
    c: Seq<ExprModel>,
    d: Seq<ExprModel>,
)
    requires
        a.len() == b.len(),
        c.len() == d.len(),
    ensures
        same_params(a + c, b + d) <==> same_params(a, b) && same_params(c, d),
{
    let (x, y) = (a + c, b + d);
    if same_params(x, y) {
        assert forall|k: int| 0 <= k < a.len() implies same_expr(#[trigger] a[k], b[k]) by {
            assert(x[k] == a[k] && y[k] == b[k]);
        }
        assert forall|k: int| 0 <= k < c.len() implies same_expr(#[trigger] c[k], d[k]) by {
            assert(x[a.len() + k] == c[k] && y[a.len() + k] == d[k]);
        }
    }
    if same_params(a, b) && same_params(c, d) {
        assert forall|k: int| 0 <= k < x.len() implies same_expr(#[trigger] x[k], y[k]) by {
            if k < a.len() {
                assert(x[k] == a[k] && y[k] == b[k]);
            } else {
                assert(x[k] == c[k - a.len()] && y[k] == d[k - a.len()]);
            }
        }
    }
}

/// Two distributions are the same exactly where they are of one family and their parameters are the
/// same one by one.
pub proof fn law_same_distributions_have_the_same_parameters(a: DistModel, b: DistModel)
    ensures
        same_dist(a, b) <==> one_family(a, b) && same_params(dist_params(a), dist_params(b)),
        one_family(a, b) ==> dist_params(a).len() == dist_params(b).len(),
    decreases a,
{
    let (x, y) = (dist_params(a), dist_params(b));
    if let DistModel::Truncated { base, lower, upper } = a {
        if let DistModel::Truncated { base: base2, lower: lower2, upper: upper2 } = b {
            law_same_distributions_have_the_same_parameters(*base, *base2);
            if one_family(a, b) {
                let (p, q) = (dist_params(*base), dist_params(*base2));
                lemma_same_params_parts(p, q, optional_param(lower), optional_param(lower2));
                lemma_same_params_parts(
                    p + optional_param(lower),
                    q + optional_param(lower2),
                    optional_param(upper),
                    optional_param(upper2),
                );
                lemma_same_optional(lower, lower2);
                lemma_same_optional(upper, upper2);
                assert(x == p + optional_param(lower) + optional_param(upper));
                assert(y == q + optional_param(lower2) + optional_param(upper2));
                assert(same_dist(a, b) <==> same_params(x, y));
            } else {
                assert(!same_dist(a, b));
            }
        }
    } else if one_family(a, b) {
        lemma_few_params(x, y);
        assert(same_dist(a, b) <==> same_params(x, y));
    } else {
        assert(!same_dist(a, b));
    }
}

proof fn lemma_few_params(x: Seq<ExprModel>, y: Seq<ExprModel>)
    requires
        x.len() == y.len(),
        1 <= x.len() <= 3,
    ensures
        same_params(x, y) <==> same_expr(x[0], y[0]) && (x.len() > 1 ==> same_expr(x[1], y[1])) && (
        x.len() > 2 ==> same_expr(x[2], y[2])),
{
    if same_expr(x[0], y[0]) && (x.len() > 1 ==> same_expr(x[1], y[1])) && (x.len() > 2
        ==> same_expr(x[2], y[2])) {
        assert forall|k: int| 0 <= k < x.len() implies same_expr(#[trigger] x[k], y[k]) by {
            assert(k == 0 || k == 1 || k == 2);
        }
    }
}

proof fn lemma_same_optional(a: Option<ExprModel>, b: Option<ExprModel>)
    requires
        a is Some <==> b is Some,
    ensures
        same_optional(a, b) <==> same_params(optional_param(a), optional_param(b)),
{
    if a is Some {
        assert(optional_param(a)[0] == a->0 && optional_param(b)[0] == b->0);
    }
}

} // verus!
