//! The shape that a replicated value takes.

use vstd::prelude::*;

use crate::error::Error;
#[allow(unused_imports)]
use crate::error::{outcome, Fault};
#[allow(unused_imports)]
use crate::investigation::ledger::views;
#[allow(unused_imports)]
use crate::investigation::manifest::list_outcome;
use crate::ir::{distribution_exprs, Distribution, Expr};
#[allow(unused_imports)]
use crate::ir::{
    dist_params, dist_view, expr_views, optional_expr, optional_param, DistModel, ExprModel,
};
#[allow(unused_imports)]
use crate::model::shape_outcome;
use crate::numerics::Arithmetic;
use crate::tensor::Tensor;
#[allow(unused_imports)]
use crate::tensor::TensorModel;

use super::forward::ForwardEnv;
#[allow(unused_imports)]
use super::forward::{env_full, evaluated, EnvModel};
use super::sampling::{bound_exprs, evaluate_all};
#[allow(unused_imports)]
use super::sampling::all_evaluated;
#[allow(unused_imports)]
use super::partial::one_axis;

verus! {

/// A shape broadcast with that of a value.
pub open spec fn shape_included<A: Arithmetic>(
    ops: &A,
    before: Seq<usize>,
    value: Result<TensorModel, Fault>,
    out: Result<Seq<usize>, Fault>,
) -> bool {
    match value {
        Err(fault) => out == Err::<Seq<usize>, Fault>(fault),
        Ok(t) => ops.joint_gives(before, t.shape, out),
    }
}

/// Whether broadcasting a shape with the values of expressions, one after the other, can come to
/// that.
pub open spec fn exprs_included<A: Arithmetic>(
    ops: &A,
    env: EnvModel,
    start: Seq<usize>,
    exprs: Seq<ExprModel>,
    out: Result<Seq<usize>, Fault>,
) -> bool
    decreases exprs.len(),
{
    if exprs.len() == 0 {
        out == Ok::<Seq<usize>, Fault>(start)
    } else {
        ||| out is Err && exprs_included(ops, env, start, exprs.drop_last(), out)
        ||| exists|before: Seq<usize>, value: Result<TensorModel, Fault>| #[trigger]
            shape_included(ops, before, value, out) && exprs_included(
                ops,
                env,
                start,
                exprs.drop_last(),
                Ok(before),
            ) && evaluated(ops, exprs.last(), env, value)
    }
}

/// The expressions whose shapes count for a distribution.
pub open spec fn shape_params(d: DistModel) -> Seq<ExprModel> {
    match d {
        DistModel::OrderedLogistic { eta, cutpoints } => seq![eta],
        _ => dist_params(d),
    }
}

/// Whether the shape of a multivariate normal can come to that.
pub open spec fn vector_target<A: Arithmetic>(
    ops: &A,
    start: Seq<usize>,
    params: Result<Seq<TensorModel>, Fault>,
    out: Result<Seq<usize>, Fault>,
) -> bool {
    match params {
        Err(fault) => out == Err::<Seq<usize>, Fault>(fault),
        Ok(list) => if list[1].shape.len() == 2 {
            exists|mid: Result<Seq<usize>, Fault>| #[trigger]
                ops.joint_gives(start, one_axis(list[1].shape[0]), mid) && match mid {
                    Err(fault) => out == Err::<Seq<usize>, Fault>(fault),
                    Ok(shape) => ops.joint_gives(shape, list[0].shape, out),
                }
        } else {
            ops.joint_gives(start, list[0].shape, out)
        },
    }
}

/// Whether the shape of a replicated value can come to that.
pub open spec fn target_shaped<A: Arithmetic>(
    ops: &A,
    env: EnvModel,
    d: DistModel,
    start: Seq<usize>,
    out: Result<Seq<usize>, Fault>,
) -> bool
    decreases d,
{
    match d {
        DistModel::MultivariateNormal { .. } => exists|params: Result<Seq<TensorModel>, Fault>|
            #[trigger] all_evaluated(ops, dist_params(d), env, params) && vector_target(
                ops,
                start,
                params,
                out,
            ),
        DistModel::Truncated { base, lower, upper } => exists|mid: Result<Seq<usize>, Fault>|
            #[trigger] exprs_included(
                ops,
                env,
                start,
                optional_param(lower) + optional_param(upper),
                mid,
            ) && match mid {
                Err(fault) => out == Err::<Seq<usize>, Fault>(fault),
                Ok(shape) => target_shaped(ops, env, *base, shape, out),
            },
        _ => exprs_included(ops, env, start, shape_params(d), out),
    }
}

proof fn lemma_included_fail<A: Arithmetic>(
    ops: &A,
    env: EnvModel,
    start: Seq<usize>,
    exprs: Seq<ExprModel>,
    n: int,
    fault: Fault,
)
    requires
        0 <= n <= exprs.len(),
        exprs_included(ops, env, start, exprs.take(n), Err(fault)),
    ensures
        exprs_included(ops, env, start, exprs, Err(fault)),
    decreases exprs.len(),
{
    if n < exprs.len() {
        assert(exprs.drop_last().take(n) =~= exprs.take(n));
        lemma_included_fail(ops, env, start, exprs.drop_last(), n, fault);
    } else {
        assert(exprs.take(n) =~= exprs);
    }
}

fn include_exprs<A: Arithmetic>(ops: &A, env: &ForwardEnv, start: Vec<usize>, exprs: &Vec<&Expr>) -> (r: Result<
    Vec<usize>,
    Error,
>)
    requires
        ops.reliable(),
        env_full(env@),
    ensures
        exprs_included(ops, env@, start@, expr_views(exprs@), shape_outcome(r)),
{
    let ghost all = expr_views(exprs@);
    let ghost begin = start@;
    let mut shape: Vec<usize> = start;
    let mut i: usize = 0;
    assert(all.take(0) =~= Seq::empty());
    while i < exprs.len()
        invariant
            i <= exprs.len(),
            ops.reliable(),
            env_full(env@),
            all == expr_views(exprs@),
            begin == start@,
            exprs_included(ops, env@, begin, all.take(i as int), Ok(shape@)),
        decreases exprs.len() - i,
    {
        let ghost done = all.take(i + 1);
        let ghost before = shape@;
        proof {
            assert(done.drop_last() =~= all.take(i as int));
            assert(done.last() == exprs@[i as int]@);
        }
        let value: Result<Tensor, Error> = env.evaluate(ops, exprs[i]);
        let ghost kept = outcome(value);
        assert(evaluated(ops, done.last(), env@, kept));
        let joined: Result<Vec<usize>, Error> = match value {
            Err(error) => Err(error),
            Ok(t) => ops.joint(&shape, &t.shape),
        };
        assert(shape_included(ops, before, kept, shape_outcome(joined)));
        match joined {
            Err(error) => {
                proof {
                    assert(exprs_included(ops, env@, begin, done, Err(error@)));
                    lemma_included_fail(ops, env@, begin, all, i + 1, error@);
                }
                return Err(error);
            },
            Ok(next) => {
                assert(exprs_included(ops, env@, begin, done, Ok(next@)));
                shape = next;
            },
        }
        i += 1;
    }
    assert(all.take(i as int) =~= all);
    Ok(shape)
}

fn shape_of_vector<A: Arithmetic>(ops: &A, env: &ForwardEnv, dist: &Distribution, start: Vec<usize>) -> (r: Result<
    Vec<usize>,
    Error,
>)
    requires
        ops.reliable(),
        env_full(env@),
        dist is MultivariateNormal,
    ensures
        target_shaped(ops, env@, dist@, start@, shape_outcome(r)),
{
    let exprs: Vec<&Expr> = distribution_exprs(dist);
    assert(expr_views(exprs@).len() == exprs@.len());
    let params: Result<Vec<Tensor>, Error> = evaluate_all(ops, &exprs, env);
    let ghost kept = list_outcome(params);
    assert(all_evaluated(ops, dist_params(dist@), env@, kept));
    let list: Vec<Tensor> = match params {
        Err(error) => {
            assert(vector_target(ops, start@, kept, Err(error@)));
            return Err(error);
        },
        Ok(list) => list,
    };
    proof {
        assert(list@.len() == 2);
        assert(views(list@)[0] == list@[0]@ && views(list@)[1] == list@[1]@);
    }
    let ghost begin = start@;
    let mut shape: Vec<usize> = start;
    if list[1].shape.len() == 2 {
        let event: Vec<usize> = vec![list[1].shape[0]];
        assert(event@ =~= one_axis(list@[1]@.shape[0]));
        let mid: Result<Vec<usize>, Error> = ops.joint(&shape, &event);
        assert(ops.joint_gives(begin, one_axis(list@[1]@.shape[0]), shape_outcome(mid)));
        match mid {
            Err(error) => {
                assert(vector_target(ops, begin, kept, Err(error@)));
                return Err(error);
            },
            Ok(next) => {
                shape = next;
            },
        }
    }
    let out: Result<Vec<usize>, Error> = ops.joint(&shape, &list[0].shape);
    assert(vector_target(ops, begin, kept, shape_outcome(out)));
    out
}

/// The shape of a replicated value: that of the observed one, broadcast with those of the
/// parameters.
pub fn posterior_predictive_target_shape<A: Arithmetic>(
    ops: &A,
    env: &ForwardEnv,
    dist: &Distribution,
    observed_shape: Vec<usize>,
) -> (r: Result<Vec<usize>, Error>)
    requires
        ops.reliable(),
        env_full(env@),
    ensures
        target_shaped(ops, env@, dist@, observed_shape@, shape_outcome(r)),
    decreases dist,
{
    match dist {
        Distribution::MultivariateNormal { .. } => shape_of_vector(ops, env, dist, observed_shape),
        Distribution::OrderedLogistic { eta, cutpoints: _ } => {
            let exprs: Vec<&Expr> = vec![eta];
            assert(expr_views(exprs@) =~= shape_params(dist@));
            include_exprs(ops, env, observed_shape, &exprs)
        },
        Distribution::Truncated { base, lower, upper } => {
            let exprs: Vec<&Expr> = bound_exprs(lower, upper);
            let ghost begin = observed_shape@;
            let mid: Result<Vec<usize>, Error> = include_exprs(ops, env, observed_shape, &exprs);
            assert(exprs_included(
                ops,
                env@,
                begin,
                optional_param(optional_expr(*lower)) + optional_param(optional_expr(*upper)),
                shape_outcome(mid),
            ));
            match mid {
                Err(error) => Err(error),
                Ok(shape) => {
                    let out: Result<Vec<usize>, Error> = posterior_predictive_target_shape(
                        ops,
                        env,
                        base,
                        shape,
                    );
                    assert(target_shaped(
                        ops,
                        env@,
                        dist_view(**base),
                        shape@,
                        shape_outcome(out),
                    ));
                    out
                },
            }
        },
        _ => {
            let exprs: Vec<&Expr> = distribution_exprs(dist);
            include_exprs(ops, env, observed_shape, &exprs)
        },
    }
}

} // verus!
