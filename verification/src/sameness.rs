//! Equality of expressions and distributions: the same structure, with equal numbers.

use vstd::prelude::*;

use crate::ir::{Constraint, Distribution, Expr, IndexSpec, Size};
#[allow(unused_imports)]
use crate::ir::{
    dist_view, expr_view, group_ir_views, indices_view, optional_constraint, optional_expr, optional_name,
    ConstraintModel, DistModel, ExprModel, IndexModel,
};
use crate::number::equals;
#[allow(unused_imports)]
use crate::number::equal_value;
use crate::text;

verus! {

/// Whether two expressions are equal. Constants are compared as numbers.
pub open spec fn same_expr(a: ExprModel, b: ExprModel) -> bool
    decreases a,
{
    match (a, b) {
        (ExprModel::Param(x), ExprModel::Param(y)) => x == y,
        (ExprModel::Data(x), ExprModel::Data(y)) => x == y,
        (ExprModel::Const(x), ExprModel::Const(y)) => equal_value(x.bits, y.bits),
        (
            ExprModel::Bin { op, left, right },
            ExprModel::Bin { op: op2, left: left2, right: right2 },
        ) => op == op2 && same_expr(*left, *left2) && same_expr(*right, *right2),
        (
            ExprModel::Unary { function, operand },
            ExprModel::Unary { function: function2, operand: operand2 },
        ) => function == function2 && same_expr(*operand, *operand2),
        (
            ExprModel::MatVec { matrix, vector },
            ExprModel::MatVec { matrix: matrix2, vector: vector2 },
        ) => same_expr(*matrix, *matrix2) && same_expr(*vector, *vector2),
        (
            ExprModel::Index { base, index },
            ExprModel::Index { base: base2, index: index2 },
        ) => same_expr(*base, *base2) && same_index(index, index2),
        (
            ExprModel::VectorScatter {
                length,
                observed_idx,
                observed_values,
                missing_idx,
                missing_values,
            },
            ExprModel::VectorScatter {
                length: length2,
                observed_idx: observed_idx2,
                observed_values: observed_values2,
                missing_idx: missing_idx2,
                missing_values: missing_values2,
            },
        ) => same_expr(*length, *length2) && same_expr(*observed_idx, *observed_idx2) && same_expr(
            *observed_values,
            *observed_values2,
        ) && same_expr(*missing_idx, *missing_idx2) && same_expr(*missing_values, *missing_values2),
        _ => false,
    }
}

/// Whether two indices are equal.
pub open spec fn same_index(a: IndexModel, b: IndexModel) -> bool
    decreases a,
{
    match (a, b) {
        (IndexModel::Full, IndexModel::Full) => true,
        (IndexModel::Scalar(x), IndexModel::Scalar(y)) => same_expr(*x, *y),
        (IndexModel::Tuple(x), IndexModel::Tuple(y)) => x.len() == y.len() && same_indices(x, y),
        _ => false,
    }
}

/// Whether two lists of indices are equal item by item.
pub open spec fn same_indices(a: Seq<IndexModel>, b: Seq<IndexModel>) -> bool
    decreases a,
{
    a.len() == 0 || (same_indices(a.drop_last(), b.drop_last()) && same_index(a.last(), b.last()))
}

proof fn lemma_indices_differ(a: Seq<IndexModel>, b: Seq<IndexModel>, n: int)
    requires
        a.len() == b.len(),
        0 <= n <= a.len(),
        !same_indices(a.take(n), b.take(n)),
    ensures
        !same_indices(a, b),
    decreases a.len(),
{
    if n < a.len() {
        assert(a.drop_last().take(n) =~= a.take(n));
        assert(b.drop_last().take(n) =~= b.take(n));
        lemma_indices_differ(a.drop_last(), b.drop_last(), n);
    } else {
        assert(a.take(n) =~= a);
        assert(b.take(n) =~= b);
    }
}

pub fn equal_exprs(a: &Expr, b: &Expr) -> (r: bool)
    ensures
        r == same_expr(a@, b@),
    decreases a,
{
    reveal_with_fuel(expr_view, 2);
    match (a, b) {
        (Expr::Param(x), Expr::Param(y)) => text::same(x.as_str(), y.as_str()),
        (Expr::Data(x), Expr::Data(y)) => text::same(x.as_str(), y.as_str()),
        (Expr::Const(x), Expr::Const(y)) => equals(x.bits, y.bits),
        (Expr::Bin { op, left, right }, Expr::Bin { op: op2, left: left2, right: right2 }) => {
            *op == *op2 && equal_exprs(left, left2) && equal_exprs(right, right2)
        },
        (
            Expr::Unary { function, operand },
            Expr::Unary { function: function2, operand: operand2 },
        ) => *function == *function2 && equal_exprs(operand, operand2),
        (Expr::MatVec { matrix, vector }, Expr::MatVec { matrix: matrix2, vector: vector2 }) => {
            equal_exprs(matrix, matrix2) && equal_exprs(vector, vector2)
        },
        (Expr::Index { base, index }, Expr::Index { base: base2, index: index2 }) => {
            equal_exprs(base, base2) && equal_indices(index, index2)
        },
        (
            Expr::VectorScatter {
                length,
                observed_idx,
                observed_values,
                missing_idx,
                missing_values,
            },
            Expr::VectorScatter {
                length: length2,
                observed_idx: observed_idx2,
                observed_values: observed_values2,
                missing_idx: missing_idx2,
                missing_values: missing_values2,
            },
        ) => equal_exprs(length, length2) && equal_exprs(observed_idx, observed_idx2)
            && equal_exprs(observed_values, observed_values2) && equal_exprs(
            missing_idx,
            missing_idx2,
        ) && equal_exprs(missing_values, missing_values2),
        _ => false,
    }
}

fn equal_indices(a: &IndexSpec, b: &IndexSpec) -> (r: bool)
    ensures
        r == same_index(a@, b@),
    decreases a,
{
    broadcast use group_ir_views;

    match (a, b) {
        (IndexSpec::Full, IndexSpec::Full) => true,
        (IndexSpec::Scalar(x), IndexSpec::Scalar(y)) => equal_exprs(x, y),
        (IndexSpec::Tuple(x), IndexSpec::Tuple(y)) => {
            let ghost all = indices_view(x@);
            let ghost other = indices_view(y@);
            if x.len() != y.len() {
                return false;
            }
            let mut i: usize = 0;
            while i < x.len()
                invariant
                    i <= x.len(),
                    x.len() == y.len(),
                    *a == IndexSpec::Tuple(*x),
                    *b == IndexSpec::Tuple(*y),
                    all == indices_view(x@),
                    other == indices_view(y@),
                    all.len() == other.len(),
                    all.len() == x.len(),
                    same_indices(all.take(i as int), other.take(i as int)),
                decreases x.len() - i,
            {
                broadcast use group_ir_views;

                proof {
                    let done = all.take(i + 1);
                    let done2 = other.take(i + 1);
                    assert(done.drop_last() =~= all.take(i as int));
                    assert(done2.drop_last() =~= other.take(i as int));
                    assert(done.last() == x@[i as int]@);
                    assert(done2.last() == y@[i as int]@);
                    assert(decreases_to!(*a => a->Tuple_0));
                    assert(decreases_to!(a->Tuple_0 => a->Tuple_0@));
                    assert(decreases_to!(x@ => x@[i as int]));
                }
                if !equal_indices(&x[i], &y[i]) {
                    proof {
                        lemma_indices_differ(all, other, i + 1);
                    }
                    return false;
                }
                i += 1;
            }
            assert(all.take(i as int) =~= all);
            assert(other.take(i as int) =~= other);
            true
        },
        _ => false,
    }
}

/// Whether two optional expressions are equal.
pub open spec fn same_optional(a: Option<ExprModel>, b: Option<ExprModel>) -> bool {
    match (a, b) {
        (Some(x), Some(y)) => same_expr(x, y),
        (None, None) => true,
        _ => false,
    }
}

/// Whether two distributions are equal.
pub open spec fn same_dist(a: DistModel, b: DistModel) -> bool
    decreases a,
{
    match (a, b) {
        (
            DistModel::Normal { loc, scale },
            DistModel::Normal { loc: loc2, scale: scale2 },
        ) => same_expr(loc, loc2) && same_expr(scale, scale2),
        (DistModel::HalfNormal { scale }, DistModel::HalfNormal { scale: scale2 }) => same_expr(
            scale,
            scale2,
        ),
        (
            DistModel::StudentT { df, loc, scale },
            DistModel::StudentT { df: df2, loc: loc2, scale: scale2 },
        ) => same_expr(df, df2) && same_expr(loc, loc2) && same_expr(scale, scale2),
        (DistModel::Exponential { rate }, DistModel::Exponential { rate: rate2 }) => same_expr(
            rate,
            rate2,
        ),
        (
            DistModel::Uniform { low, high },
            DistModel::Uniform { low: low2, high: high2 },
        ) => same_expr(low, low2) && same_expr(high, high2),
        (
            DistModel::Beta { alpha, beta },
            DistModel::Beta { alpha: alpha2, beta: beta2 },
        ) => same_expr(alpha, alpha2) && same_expr(beta, beta2),
        (DistModel::Bernoulli { probs }, DistModel::Bernoulli { probs: probs2 }) => same_expr(
            probs,
            probs2,
        ),
        (DistModel::Poisson { rate }, DistModel::Poisson { rate: rate2 }) => same_expr(rate, rate2),
        (
            DistModel::Binomial { total_count, probs },
            DistModel::Binomial { total_count: total_count2, probs: probs2 },
        ) => same_expr(total_count, total_count2) && same_expr(probs, probs2),
        (
            DistModel::BetaBinomial { total_count, alpha, beta },
            DistModel::BetaBinomial { total_count: total_count2, alpha: alpha2, beta: beta2 },
        ) => same_expr(total_count, total_count2) && same_expr(alpha, alpha2) && same_expr(
            beta,
            beta2,
        ),
        (
            DistModel::NegativeBinomial { mean, overdispersion },
            DistModel::NegativeBinomial { mean: mean2, overdispersion: overdispersion2 },
        ) => same_expr(mean, mean2) && same_expr(overdispersion, overdispersion2),
        (
            DistModel::MultivariateNormal { mean, scale_tril },
            DistModel::MultivariateNormal { mean: mean2, scale_tril: scale_tril2 },
        ) => same_expr(mean, mean2) && same_expr(scale_tril, scale_tril2),
        (
            DistModel::OrderedLogistic { eta, cutpoints },
            DistModel::OrderedLogistic { eta: eta2, cutpoints: cutpoints2 },
        ) => same_expr(eta, eta2) && same_expr(cutpoints, cutpoints2),
        (
            DistModel::Truncated { base, lower, upper },
            DistModel::Truncated { base: base2, lower: lower2, upper: upper2 },
        ) => same_dist(*base, *base2) && same_optional(lower, lower2) && same_optional(
            upper,
            upper2,
        ),
        _ => false,
    }
}

fn equal_optional(a: &Option<Expr>, b: &Option<Expr>) -> (r: bool)
    ensures
        r == same_optional(optional_expr(*a), optional_expr(*b)),
{
    match (a, b) {
        (Some(x), Some(y)) => equal_exprs(x, y),
        (None, None) => true,
        _ => false,
    }
}

pub fn equal_distributions(a: &Distribution, b: &Distribution) -> (r: bool)
    ensures
        r == same_dist(a@, b@),
    decreases a,
{
    reveal_with_fuel(dist_view, 2);
    match (a, b) {
        (
            Distribution::Normal { loc, scale },
            Distribution::Normal { loc: loc2, scale: scale2 },
        ) => equal_exprs(loc, loc2) && equal_exprs(scale, scale2),
        (
            Distribution::HalfNormal { scale },
            Distribution::HalfNormal { scale: scale2 },
        ) => equal_exprs(scale, scale2),
        (
            Distribution::StudentT { df, loc, scale },
            Distribution::StudentT { df: df2, loc: loc2, scale: scale2 },
        ) => equal_exprs(df, df2) && equal_exprs(loc, loc2) && equal_exprs(scale, scale2),
        (
            Distribution::Exponential { rate },
            Distribution::Exponential { rate: rate2 },
        ) => equal_exprs(rate, rate2),
        (
            Distribution::Uniform { low, high },
            Distribution::Uniform { low: low2, high: high2 },
        ) => equal_exprs(low, low2) && equal_exprs(high, high2),
        (
            Distribution::Beta { alpha, beta },
            Distribution::Beta { alpha: alpha2, beta: beta2 },
        ) => equal_exprs(alpha, alpha2) && equal_exprs(beta, beta2),
        (
            Distribution::Bernoulli { probs },
            Distribution::Bernoulli { probs: probs2 },
        ) => equal_exprs(probs, probs2),
        (
            Distribution::Poisson { rate },
            Distribution::Poisson { rate: rate2 },
        ) => equal_exprs(rate, rate2),
        (
            Distribution::Binomial { total_count, probs },
            Distribution::Binomial { total_count: total_count2, probs: probs2 },
        ) => equal_exprs(total_count, total_count2) && equal_exprs(probs, probs2),
        (
            Distribution::BetaBinomial { total_count, alpha, beta },
            Distribution::BetaBinomial { total_count: total_count2, alpha: alpha2, beta: beta2 },
        ) => equal_exprs(total_count, total_count2) && equal_exprs(alpha, alpha2) && equal_exprs(
            beta,
            beta2,
        ),
        (
            Distribution::NegativeBinomial { mean, overdispersion },
            Distribution::NegativeBinomial { mean: mean2, overdispersion: overdispersion2 },
        ) => equal_exprs(mean, mean2) && equal_exprs(overdispersion, overdispersion2),
        (
            Distribution::MultivariateNormal { mean, scale_tril },
            Distribution::MultivariateNormal { mean: mean2, scale_tril: scale_tril2 },
        ) => equal_exprs(mean, mean2) && equal_exprs(scale_tril, scale_tril2),
        (
            Distribution::OrderedLogistic { eta, cutpoints },
            Distribution::OrderedLogistic { eta: eta2, cutpoints: cutpoints2 },
        ) => equal_exprs(eta, eta2) && equal_exprs(cutpoints, cutpoints2),
        (
            Distribution::Truncated { base, lower, upper },
            Distribution::Truncated { base: base2, lower: lower2, upper: upper2 },
        ) => equal_distributions(base, base2) && equal_optional(lower, lower2) && equal_optional(
            upper,
            upper2,
        ),
        _ => false,
    }
}

/// Whether two constraints are equal. Limits are compared as numbers.
pub open spec fn same_constraint(a: Option<ConstraintModel>, b: Option<ConstraintModel>) -> bool {
    match (a, b) {
        (None, None) => true,
        (Some(ConstraintModel::Positive), Some(ConstraintModel::Positive)) => true,
        (Some(ConstraintModel::UnitInterval), Some(ConstraintModel::UnitInterval)) => true,
        (Some(ConstraintModel::Ordered), Some(ConstraintModel::Ordered)) => true,
        (
            Some(ConstraintModel::Interval { lower, upper }),
            Some(ConstraintModel::Interval { lower: lower2, upper: upper2 }),
        ) => equal_value(lower.bits, lower2.bits) && equal_value(upper.bits, upper2.bits),
        (
            Some(ConstraintModel::VectorBounds { lower, upper }),
            Some(ConstraintModel::VectorBounds { lower: lower2, upper: upper2 }),
        ) => lower == lower2 && upper == upper2,
        _ => false,
    }
}

fn equal_names(a: &Option<String>, b: &Option<String>) -> (r: bool)
    ensures
        r == (optional_name(*a) == optional_name(*b)),
{
    match (a, b) {
        (Some(x), Some(y)) => text::same(x.as_str(), y.as_str()),
        (None, None) => true,
        _ => false,
    }
}

pub fn equal_constraints(a: &Option<Constraint>, b: &Option<Constraint>) -> (r: bool)
    ensures
        r == same_constraint(optional_constraint(*a), optional_constraint(*b)),
{
    match (a, b) {
        (None, None) => true,
        (Some(Constraint::Positive), Some(Constraint::Positive)) => true,
        (Some(Constraint::UnitInterval), Some(Constraint::UnitInterval)) => true,
        (Some(Constraint::Ordered), Some(Constraint::Ordered)) => true,
        (
            Some(Constraint::Interval { lower, upper }),
            Some(Constraint::Interval { lower: lower2, upper: upper2 }),
        ) => equals(lower.bits, lower2.bits) && equals(upper.bits, upper2.bits),
        (
            Some(Constraint::VectorBounds { lower, upper }),
            Some(Constraint::VectorBounds { lower: lower2, upper: upper2 }),
        ) => equal_names(lower, lower2) && equal_names(upper, upper2),
        _ => false,
    }
}

pub fn equal_sizes(a: &Size, b: &Size) -> (r: bool)
    ensures
        r == (a@ == b@),
{
    match (a, b) {
        (Size::Scalar, Size::Scalar) => true,
        (Size::Fixed(x), Size::Fixed(y)) => *x == *y,
        (Size::Data(x), Size::Data(y)) => text::same(x.as_str(), y.as_str()),
        _ => false,
    }
}

} // verus!
