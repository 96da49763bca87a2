//! How the shapes of a density broadcast: which expressions it puts together, in which order.

use vstd::prelude::*;

use crate::data::copy_shape;
use crate::density::{DistVars, Var};
use crate::error::Error;
#[allow(unused_imports)]
use crate::error::Fault;
#[allow(unused_imports)]
use crate::model::shape_outcome;
use crate::numerics::Arithmetic;

verus! {

/// Shapes that are joined pairwise, the left part first.
#[derive(Debug)]
pub enum Joint {
    Of(Vec<usize>),
    Both(Box<Joint>, Box<Joint>),
}

/// The shapes of a [`Joint`].
pub enum JointModel {
    Of(Seq<usize>),
    Both(Box<JointModel>, Box<JointModel>),
}

/// The content of joined shapes.
pub open spec fn joint_view(joint: Joint) -> JointModel
    decreases joint,
{
    match joint {
        Joint::Of(shape) => JointModel::Of(shape@),
        Joint::Both(left, right) => JointModel::Both(
            Box::new(joint_view(*left)),
            Box::new(joint_view(*right)),
        ),
    }
}

impl View for Joint {
    type V = JointModel;

    open spec fn view(&self) -> JointModel {
        joint_view(*self)
    }
}

impl JointModel {
    pub open spec fn with(self, other: JointModel) -> JointModel {
        JointModel::Both(Box::new(self), Box::new(other))
    }
}

/// The shape of an expression.
pub open spec fn of(var: Var) -> JointModel {
    JointModel::Of(var.shape@)
}

/// Whether two joined parts can broadcast to that: the left part fails first.
pub open spec fn pair_gives<A: Arithmetic>(
    ops: &A,
    left: Result<Seq<usize>, Fault>,
    right: Result<Seq<usize>, Fault>,
    out: Result<Seq<usize>, Fault>,
) -> bool {
    match left {
        Err(fault) => out == Err::<Seq<usize>, Fault>(fault),
        Ok(l) => match right {
            Err(fault) => out == Err::<Seq<usize>, Fault>(fault),
            Ok(r) => ops.joint_gives(l, r, out),
        },
    }
}

/// Whether shapes can broadcast to that.
pub open spec fn shapes_give<A: Arithmetic>(
    ops: &A,
    joint: JointModel,
    out: Result<Seq<usize>, Fault>,
) -> bool
    decreases joint,
{
    match joint {
        JointModel::Of(shape) => out == Ok::<Seq<usize>, Fault>(shape),
        JointModel::Both(left, right) => exists|
            l: Result<Seq<usize>, Fault>,
            r: Result<Seq<usize>, Fault>,
        | #[trigger]
            pair_gives(ops, l, r, out) && shapes_give(ops, *left, l) && (l is Ok ==> shapes_give(
                ops,
                *right,
                r,
            )),
    }
}

impl Joint {
    /// The shapes with others, which are joined after them.
    pub fn and(self, other: Joint) -> (r: Joint)
        ensures
            r@ == self@.with(other@),
    {
        Joint::Both(Box::new(self), Box::new(other))
    }

    /// What the shapes broadcast to.
    pub fn shape<A: Arithmetic>(&self, ops: &A) -> (r: Result<Vec<usize>, Error>)
        requires
            ops.reliable(),
        ensures
            shapes_give(ops, self@, shape_outcome(r)),
        decreases self,
    {
        match self {
            Joint::Of(shape) => Ok(copy_shape(shape)),
            Joint::Both(left, right) => {
                let first: Result<Vec<usize>, Error> = left.shape(ops);
                let ghost one = shape_outcome(first);
                match first {
                    Err(error) => {
                        assert(pair_gives(ops, one, one, Err(error@)));
                        Err(error)
                    },
                    Ok(l) => {
                        let second: Result<Vec<usize>, Error> = right.shape(ops);
                        let ghost two = shape_outcome(second);
                        match second {
                            Err(error) => {
                                assert(pair_gives(ops, one, two, Err(error@)));
                                Err(error)
                            },
                            Ok(r) => {
                                let out: Result<Vec<usize>, Error> = ops.joint(&l, &r);
                                assert(pair_gives(ops, one, two, shape_outcome(out)));
                                out
                            },
                        }
                    },
                }
            },
        }
    }
}

/// The shapes that the logarithm of the mass between bounds puts together.
pub open spec fn mass_shapes(base: DistVars, lower: Option<Var>, upper: Option<Var>) -> JointModel {
    match base {
        DistVars::Normal { loc, scale } => match (lower, upper) {
            (Some(l), None) => of(l).with(of(loc)).with(of(scale)),
            (None, Some(u)) => of(u).with(of(loc)).with(of(scale)),
            (Some(l), Some(u)) => of(l).with(of(loc)).with(of(scale)).with(
                of(u).with(of(loc)).with(of(scale)),
            ),
            (None, None) => JointModel::Of(Seq::empty()),
        },
        DistVars::Uniform { low, high } => {
            let from = match lower {
                Some(l) => of(l).with(of(low)),
                None => of(low),
            };
            let to = match upper {
                Some(u) => of(u).with(of(high)),
                None => of(high),
            };
            from.with(to).with(of(high).with(of(low)))
        },
        DistVars::Exponential { rate } => {
            let head = match lower {
                Some(l) => of(rate).with(of(l)),
                None => of(rate),
            };
            match upper {
                Some(u) => head.with(of(u)),
                None => head,
            }
        },
        _ => JointModel::Of(Seq::empty()),
    }
}

/// The shapes of a log density held to the interval between bounds.
pub open spec fn bounded_shapes(
    inner: JointModel,
    lower: Option<Var>,
    upper: Option<Var>,
    x: Var,
) -> JointModel {
    match (lower, upper) {
        (Some(l), Some(u)) => inner.with(of(x).with(of(l)).with(of(x).with(of(u)))),
        (Some(l), None) => inner.with(of(x).with(of(l))),
        (None, Some(u)) => inner.with(of(x).with(of(u))),
        (None, None) => inner,
    }
}

/// The shapes that a log density puts together.
pub open spec fn density_shapes(dist: DistVars, x: Var) -> JointModel
    decreases dist,
{
    match dist {
        DistVars::Normal { loc, scale } => of(x).with(of(loc)).with(of(scale)),
        DistVars::HalfNormal { scale } => of(x).with(of(scale)),
        DistVars::StudentT { df, loc, scale } => of(x).with(of(loc)).with(of(scale)).with(of(df)),
        DistVars::Exponential { rate } => of(rate).with(of(x)),
        DistVars::Uniform { low, high } => of(high).with(of(low)).with(
            of(x).with(of(low)).with(of(x).with(of(high))),
        ),
        DistVars::Beta { alpha, beta } => of(x).with(of(alpha).with(of(beta))),
        DistVars::Bernoulli { probs } => of(x).with(of(x).with(of(probs))),
        DistVars::Poisson { rate } => of(x).with(of(rate)),
        DistVars::Binomial { total_count, probs } => {
            let counts = of(x).with(of(total_count));
            counts.with(counts).with(counts.with(of(probs)))
        },
        DistVars::BetaBinomial { total_count, alpha, beta } => {
            let counts = of(x).with(of(total_count));
            counts.with(counts).with(counts.with(of(alpha).with(of(beta))))
        },
        DistVars::NegativeBinomial { mean, overdispersion } => of(x).with(
            of(mean).with(of(overdispersion)),
        ),
        DistVars::MultivariateNormal { mean, .. } => of(x).with(of(mean)),
        DistVars::OrderedLogistic { eta, .. } => of(eta).with(of(x)),
        DistVars::Truncated { base, lower, upper } => bounded_shapes(
            density_shapes(*base, x).with(mass_shapes(*base, lower, upper)),
            lower,
            upper,
            x,
        ),
    }
}

fn shape_of(var: &Var) -> (r: Joint)
    ensures
        r@ == of(*var),
{
    Joint::Of(copy_shape(&var.shape))
}

fn pair(left: &Var, right: &Var) -> (r: Joint)
    ensures
        r@ == of(*left).with(of(*right)),
{
    shape_of(left).and(shape_of(right))
}

fn mass_joint(base: &DistVars, lower: &Option<Var>, upper: &Option<Var>) -> (r: Joint)
    ensures
        r@ == mass_shapes(*base, *lower, *upper),
{
    match base {
        DistVars::Normal { loc, scale } => match (lower, upper) {
            (Some(l), None) => pair(l, loc).and(shape_of(scale)),
            (None, Some(u)) => pair(u, loc).and(shape_of(scale)),
            (Some(l), Some(u)) => pair(l, loc).and(shape_of(scale)).and(
                pair(u, loc).and(shape_of(scale)),
            ),
            (None, None) => Joint::Of(Vec::new()),
        },
        DistVars::Uniform { low, high } => {
            let from: Joint = match lower {
                Some(l) => pair(l, low),
                None => shape_of(low),
            };
            let to: Joint = match upper {
                Some(u) => pair(u, high),
                None => shape_of(high),
            };
            from.and(to).and(pair(high, low))
        },
        DistVars::Exponential { rate } => {
            let head: Joint = match lower {
                Some(l) => pair(rate, l),
                None => shape_of(rate),
            };
            match upper {
                Some(u) => head.and(shape_of(u)),
                None => head,
            }
        },
        _ => Joint::Of(Vec::new()),
    }
}

fn bounded_joint(inner: Joint, lower: &Option<Var>, upper: &Option<Var>, x: &Var) -> (r: Joint)
    ensures
        r@ == bounded_shapes(inner@, *lower, *upper, *x),
{
    match (lower, upper) {
        (Some(l), Some(u)) => inner.and(pair(x, l).and(pair(x, u))),
        (Some(l), None) => inner.and(pair(x, l)),
        (None, Some(u)) => inner.and(pair(x, u)),
        (None, None) => inner,
    }
}

/// Lists the shapes that a log density puts together.
pub fn density_joint(dist: &DistVars, x: &Var) -> (r: Joint)
    ensures
        r@ == density_shapes(*dist, *x),
    decreases dist,
{
    match dist {
        DistVars::Normal { loc, scale } => pair(x, loc).and(shape_of(scale)),
        DistVars::HalfNormal { scale } => pair(x, scale),
        DistVars::StudentT { df, loc, scale } => pair(x, loc).and(shape_of(scale)).and(
            shape_of(df),
        ),
        DistVars::Exponential { rate } => pair(rate, x),
        DistVars::Uniform { low, high } => pair(high, low).and(pair(x, low).and(pair(x, high))),
        DistVars::Beta { alpha, beta } => shape_of(x).and(pair(alpha, beta)),
        DistVars::Bernoulli { probs } => shape_of(x).and(pair(x, probs)),
        DistVars::Poisson { rate } => pair(x, rate),
        DistVars::Binomial { total_count, probs } => pair(x, total_count).and(
            pair(x, total_count),
        ).and(pair(x, total_count).and(shape_of(probs))),
        DistVars::BetaBinomial { total_count, alpha, beta } => pair(x, total_count).and(
            pair(x, total_count),
        ).and(pair(x, total_count).and(pair(alpha, beta))),
        DistVars::NegativeBinomial { mean, overdispersion } => shape_of(x).and(
            pair(mean, overdispersion),
        ),
        DistVars::MultivariateNormal { mean, .. } => pair(x, mean),
        DistVars::OrderedLogistic { eta, .. } => pair(eta, x),
        DistVars::Truncated { base, lower, upper } => {
            let inner: Joint = density_joint(base, x).and(mass_joint(base, lower, upper));
            bounded_joint(inner, lower, upper, x)
        },
    }
}

} // verus!
