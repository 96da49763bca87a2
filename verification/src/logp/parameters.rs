//! Distributions whose parameters have been evaluated.

use vstd::prelude::*;

use crate::data::copy_shape;
use crate::density::{DistVars, Var};
#[allow(unused_imports)]
use crate::density::{
    bernoulli, beta, beta_binomial, binomial, density_term, double, exponential,
    exponential_normalizer, half_normal, multivariate, negative_binomial, normal_normalizer,
    ordered_logistic, poisson, student_t, uniform, uniform_normalizer, within, ZERO,
};
use crate::error::Error;
#[allow(unused_imports)]
use crate::error::Fault;
#[allow(unused_imports)]
use crate::investigation::ledger::views;
#[allow(unused_imports)]
use crate::investigation::manifest::list_outcome;
use crate::ir::{distribution_exprs, Distribution, Expr};
#[allow(unused_imports)]
use crate::ir::{dist_params, expr_views, optional_param, DistModel, ExprModel};
use crate::numerics::Arithmetic;
#[allow(unused_imports)]
use crate::predictive::forward::{env_full, EnvModel};
use crate::tensor::Tensor;
#[allow(unused_imports)]
use crate::tensor::TensorModel;
use crate::term::Term;

use super::evaluate::Env;
#[allow(unused_imports)]
use super::evaluate::settled;

verus! {

/// Whether an expression stands for one of several tensors.
pub open spec fn stands(var: Var, tensors: Seq<TensorModel>, k: int) -> bool {
    var.term == Term::Leaf(k as usize) && var.shape@ == tensors[k].shape
}

/// Whether an optional bound stands for the tensor there, and is missing where it is not given.
pub open spec fn bound_stands(
    var: Option<Var>,
    bound: Option<ExprModel>,
    tensors: Seq<TensorModel>,
    k: int,
) -> bool {
    match bound {
        Some(_) => var is Some && stands(var->0, tensors, k),
        None => var is None,
    }
}

/// Whether parameters stand for tensors, in the order of a distribution, from one tensor on.
pub open spec fn describes(
    vars: DistVars,
    d: DistModel,
    tensors: Seq<TensorModel>,
    from: int,
) -> bool
    decreases d,
{
    match d {
        DistModel::Normal { .. } => vars matches DistVars::Normal { loc, scale } && stands(loc, tensors, from) && stands(scale, tensors, from + 1),
        DistModel::HalfNormal { .. } => vars matches DistVars::HalfNormal { scale } && stands(scale, tensors, from),
        DistModel::StudentT { .. } => vars matches DistVars::StudentT { df, loc, scale } && stands(df, tensors, from) && stands(loc, tensors, from + 1) && stands(scale, tensors, from + 2),
        DistModel::Exponential { .. } => vars matches DistVars::Exponential { rate } && stands(rate, tensors, from),
        DistModel::Uniform { .. } => vars matches DistVars::Uniform { low, high } && stands(low, tensors, from) && stands(high, tensors, from + 1),
        DistModel::Beta { .. } => vars matches DistVars::Beta { alpha, beta } && stands(alpha, tensors, from) && stands(beta, tensors, from + 1),
        DistModel::Bernoulli { .. } => vars matches DistVars::Bernoulli { probs } && stands(probs, tensors, from),
        DistModel::Poisson { .. } => vars matches DistVars::Poisson { rate } && stands(rate, tensors, from),
        DistModel::Binomial { .. } => vars matches DistVars::Binomial { total_count, probs } && stands(total_count, tensors, from) && stands(probs, tensors, from + 1),
        DistModel::BetaBinomial { .. } => vars matches DistVars::BetaBinomial { total_count, alpha, beta } && stands(total_count, tensors, from) && stands(alpha, tensors, from + 1) && stands(beta, tensors, from + 2),
        DistModel::NegativeBinomial { .. } => vars matches DistVars::NegativeBinomial { mean, overdispersion } && stands(mean, tensors, from) && stands(overdispersion, tensors, from + 1),
        DistModel::MultivariateNormal { .. } => vars matches DistVars::MultivariateNormal { mean, scale_tril } && stands(mean, tensors, from) && stands(scale_tril, tensors, from + 1),
        DistModel::OrderedLogistic { .. } => vars matches DistVars::OrderedLogistic { eta, cutpoints } && stands(eta, tensors, from) && stands(cutpoints, tensors, from + 1),
        DistModel::Truncated { base, lower, upper } => vars matches DistVars::Truncated {
            base: inner,
            lower: low,
            upper: high,
        } && describes(*inner, *base, tensors, from) && bound_stands(
            low,
            lower,
            tensors,
            from + dist_params(*base).len(),
        ) && bound_stands(
            high,
            upper,
            tensors,
            from + dist_params(*base).len() + optional_param(lower).len(),
        ),
    }
}

/// An input, by number.
pub open spec fn leaf(k: int) -> Term {
    Term::Leaf(k as usize)
}

/// The logarithm of the mass between bounds, of a base whose parameters are inputs.
pub open spec fn mass_term(d: DistModel, from: int, lower: Option<Term>, upper: Option<Term>) -> Term {
    match d {
        DistModel::Normal { .. } => normal_normalizer(leaf(from), leaf(from + 1), lower, upper),
        DistModel::Uniform { .. } => uniform_normalizer(leaf(from), leaf(from + 1), lower, upper),
        DistModel::Exponential { .. } => exponential_normalizer(leaf(from), lower, upper),
        _ => double(ZERO),
    }
}

/// The log density of a value under a distribution whose parameters are inputs, in order from one
/// input on.
pub open spec fn score_term(d: DistModel, from: int, x: Term) -> Term
    decreases d,
{
    let (a, b, c) = (leaf(from), leaf(from + 1), leaf(from + 2));
    match d {
        DistModel::Normal { .. } => Term::NormalLogProb(Box::new(x), Box::new(a), Box::new(b)),
        DistModel::HalfNormal { .. } => half_normal(a, x),
        DistModel::StudentT { .. } => student_t(a, b, c, x),
        DistModel::Exponential { .. } => exponential(a, x),
        DistModel::Uniform { .. } => uniform(a, b, x),
        DistModel::Beta { .. } => beta(a, b, x),
        DistModel::Bernoulli { .. } => bernoulli(a, x),
        DistModel::Poisson { .. } => poisson(a, x),
        DistModel::Binomial { .. } => binomial(a, b, x),
        DistModel::BetaBinomial { .. } => beta_binomial(a, b, c, x),
        DistModel::NegativeBinomial { .. } => negative_binomial(a, b, x),
        DistModel::MultivariateNormal { .. } => multivariate(a, b, x),
        DistModel::OrderedLogistic { .. } => ordered_logistic(a, b, x),
        DistModel::Truncated { base, lower, upper } => {
            let next = from + dist_params(*base).len();
            let low = match lower {
                Some(_) => Some(leaf(next)),
                None => None,
            };
            let high = match upper {
                Some(_) => Some(leaf(next + optional_param(lower).len())),
                None => None,
            };
            within(
                x,
                low,
                high,
                score_term(*base, from, x).minus(mass_term(*base, from, low, high)),
            )
        },
    }
}

/// The log density of a value is fixed by the distribution and the numbers of its inputs.
pub proof fn lemma_score(
    vars: DistVars,
    d: DistModel,
    tensors: Seq<TensorModel>,
    from: int,
    x: Term,
)
    requires
        describes(vars, d, tensors, from),
    ensures
        density_term(vars, x) == score_term(d, from, x),
    decreases d,
{
    if let DistModel::Truncated { base, .. } = d {
        lemma_score(*vars->base, *base, tensors, from, x);
    }
}

fn input(tensors: &Vec<Tensor>, k: usize) -> (r: Var)
    requires
        k < tensors.len(),
    ensures
        stands(r, views(tensors@), k as int),
{
    Var { term: Term::Leaf(k), shape: copy_shape(&tensors[k].shape) }
}

/// The parameters of a distribution, as expressions for tensors.
pub fn vars_of(dist: &Distribution, tensors: &Vec<Tensor>, from: usize) -> (r: DistVars)
    requires
        from + dist_params(dist@).len() <= tensors.len(),
    ensures
        describes(r, dist@, views(tensors@), from as int),
    decreases dist,
{
    match dist {
        Distribution::Normal { .. } => DistVars::Normal {
            loc: input(tensors, from),
            scale: input(tensors, from + 1),
        },
        Distribution::HalfNormal { .. } => DistVars::HalfNormal {
            scale: input(tensors, from),
        },
        Distribution::StudentT { .. } => DistVars::StudentT {
            df: input(tensors, from),
            loc: input(tensors, from + 1),
            scale: input(tensors, from + 2),
        },
        Distribution::Exponential { .. } => DistVars::Exponential {
            rate: input(tensors, from),
        },
        Distribution::Uniform { .. } => DistVars::Uniform {
            low: input(tensors, from),
            high: input(tensors, from + 1),
        },
        Distribution::Beta { .. } => DistVars::Beta {
            alpha: input(tensors, from),
            beta: input(tensors, from + 1),
        },
        Distribution::Bernoulli { .. } => DistVars::Bernoulli {
            probs: input(tensors, from),
        },
        Distribution::Poisson { .. } => DistVars::Poisson {
            rate: input(tensors, from),
        },
        Distribution::Binomial { .. } => DistVars::Binomial {
            total_count: input(tensors, from),
            probs: input(tensors, from + 1),
        },
        Distribution::BetaBinomial { .. } => DistVars::BetaBinomial {
            total_count: input(tensors, from),
            alpha: input(tensors, from + 1),
            beta: input(tensors, from + 2),
        },
        Distribution::NegativeBinomial { .. } => DistVars::NegativeBinomial {
            mean: input(tensors, from),
            overdispersion: input(tensors, from + 1),
        },
        Distribution::MultivariateNormal { .. } => DistVars::MultivariateNormal {
            mean: input(tensors, from),
            scale_tril: input(tensors, from + 1),
        },
        Distribution::OrderedLogistic { .. } => DistVars::OrderedLogistic {
            eta: input(tensors, from),
            cutpoints: input(tensors, from + 1),
        },
        Distribution::Truncated { base, lower, upper } => {
            let inner: DistVars = vars_of(base, tensors, from);
            let mut next: usize = from + distribution_exprs(base).len();
            assert(next == from + dist_params(base@).len());
            let low: Option<Var> = match lower {
                Some(_) => {
                    let var: Var = input(tensors, next);
                    next = next + 1;
                    Some(var)
                },
                None => None,
            };
            let high: Option<Var> = match upper {
                Some(_) => Some(input(tensors, next)),
                None => None,
            };
            DistVars::Truncated { base: Box::new(inner), lower: low, upper: high }
        },
    }
}

/// What a list of tensors comes to with one more behind it.
pub open spec fn list_joined(
    before: Seq<TensorModel>,
    item: Result<TensorModel, Fault>,
    out: Result<Seq<TensorModel>, Fault>,
) -> bool {
    out == (match item {
        Err(fault) => Err::<Seq<TensorModel>, Fault>(fault),
        Ok(t) => Ok(before.push(t)),
    })
}

/// Whether evaluating expressions one after the other can come to that.
pub open spec fn all_settled<A: Arithmetic>(
    ops: &A,
    exprs: Seq<ExprModel>,
    env: EnvModel,
    out: Result<Seq<TensorModel>, Fault>,
) -> bool
    decreases exprs.len(),
{
    if exprs.len() == 0 {
        out == Ok::<Seq<TensorModel>, Fault>(Seq::empty())
    } else {
        ||| out is Err && all_settled(ops, exprs.drop_last(), env, out)
        ||| exists|before: Seq<TensorModel>, item: Result<TensorModel, Fault>| #[trigger]
            list_joined(before, item, out) && all_settled(ops, exprs.drop_last(), env, Ok(before))
                && settled(ops, exprs.last(), env, item)
    }
}

proof fn lemma_all_fail<A: Arithmetic>(
    ops: &A,
    exprs: Seq<ExprModel>,
    env: EnvModel,
    n: int,
    fault: Fault,
)
    requires
        0 <= n <= exprs.len(),
        all_settled(ops, exprs.take(n), env, Err(fault)),
    ensures
        all_settled(ops, exprs, env, Err(fault)),
    decreases exprs.len(),
{
    if n < exprs.len() {
        assert(exprs.drop_last().take(n) =~= exprs.take(n));
        lemma_all_fail(ops, exprs.drop_last(), env, n, fault);
    } else {
        assert(exprs.take(n) =~= exprs);
    }
}

/// The tensors of expressions, one after the other.
pub fn evaluate_all<A: Arithmetic>(ops: &A, env: &Env, exprs: &Vec<&Expr>) -> (r: Result<
    Vec<Tensor>,
    Error,
>)
    requires
        ops.reliable(),
        env_full(env@),
    ensures
        all_settled(ops, expr_views(exprs@), env@, list_outcome(r)),
        r is Ok ==> r->Ok_0@.len() == exprs@.len(),
{
    let ghost all = expr_views(exprs@);
    let ghost world = env@;
    let mut out: Vec<Tensor> = Vec::new();
    assert(views(out@) =~= Seq::empty());
    let mut i: usize = 0;
    while i < exprs.len()
        invariant
            i <= exprs.len(),
            ops.reliable(),
            env_full(world),
            world == env@,
            all == expr_views(exprs@),
            out.len() == i,
            all_settled(ops, all.take(i as int), world, Ok(views(out@))),
        decreases exprs.len() - i,
    {
        let ghost done = all.take(i + 1);
        proof {
            assert(done.drop_last() =~= all.take(i as int));
            assert(done.last() == exprs@[i as int]@);
        }
        let item: Result<Tensor, Error> = env.evaluate(ops, exprs[i]);
        let ghost before = views(out@);
        match item {
            Err(error) => {
                proof {
                    let failed = Err::<Seq<TensorModel>, Fault>(error@);
                    assert(list_joined(before, Err(error@), failed));
                    assert(all_settled(ops, done, world, failed));
                    lemma_all_fail(ops, all, world, i + 1, error@);
                }
                return Err(error);
            },
            Ok(t) => {
                let ghost content = t@;
                out.push(t);
                proof {
                    assert(views(out@) =~= before.push(content));
                    assert(list_joined(before, Ok(content), Ok(views(out@))));
                    assert(all_settled(ops, done, world, Ok(views(out@))));
                }
            },
        }
        i += 1;
    }
    assert(all.take(i as int) =~= all);
    Ok(out)
}

} // verus!
