//! Which shapes a log density broadcasts: those of the value and of every parameter, and no others.

use vstd::prelude::*;

#[allow(unused_imports)]
use crate::density::{DistVars, Var};
#[allow(unused_imports)]
use crate::error::Fault;
#[allow(unused_imports)]
use crate::numerics::Arithmetic;

#[allow(unused_imports)]
use crate::shapes::{density_shapes, of, pair_gives, shapes_give, JointModel};

verus! {

/// Whether a shape takes part.
pub open spec fn takes_part(joint: JointModel, shape: Seq<usize>) -> bool
    decreases joint,
{
    match joint {
        JointModel::Of(own) => own == shape,
        JointModel::Both(left, right) => takes_part(*left, shape) || takes_part(*right, shape),
    }
}

/// The parameters of a distribution whose shapes are broadcast: all of them but a scale matrix and
/// cutpoints, which are read as a whole.
pub open spec fn broadcast_params(dist: DistVars) -> Seq<Var>
    decreases dist,
{
    match dist {
        DistVars::Normal { loc, scale } => seq![loc, scale],
        DistVars::HalfNormal { scale } => seq![scale],
        DistVars::StudentT { df, loc, scale } => seq![df, loc, scale],
        DistVars::Exponential { rate } => seq![rate],
        DistVars::Uniform { low, high } => seq![low, high],
        DistVars::Beta { alpha, beta } => seq![alpha, beta],
        DistVars::Bernoulli { probs } => seq![probs],
        DistVars::Poisson { rate } => seq![rate],
        DistVars::Binomial { total_count, probs } => seq![total_count, probs],
        DistVars::BetaBinomial { total_count, alpha, beta } => seq![total_count, alpha, beta],
        DistVars::NegativeBinomial { mean, overdispersion } => seq![mean, overdispersion],
        DistVars::MultivariateNormal { mean, .. } => seq![mean],
        DistVars::OrderedLogistic { eta, .. } => seq![eta],
        DistVars::Truncated { base, lower, upper } => broadcast_params(*base) + (match lower {
            Some(bound) => seq![bound],
            None => Seq::empty(),
        }) + (match upper {
            Some(bound) => seq![bound],
            None => Seq::empty(),
        }),
    }
}

/// A log density broadcasts the shape of its value with that of every parameter.
pub proof fn law_density_broadcasts_value_and_parameters(dist: DistVars, x: Var)
    ensures
        takes_part(density_shapes(dist, x), x.shape@),
        forall|k: int|
            0 <= k < broadcast_params(dist).len() ==> takes_part(
                density_shapes(dist, x),
                (#[trigger] broadcast_params(dist)[k]).shape@,
            ),
    decreases dist,
{
    reveal_with_fuel(takes_part, 6);
    if let DistVars::Truncated { base, lower, upper } = dist {
        law_density_broadcasts_value_and_parameters(*base, x);
        let inner = broadcast_params(*base);
        let all = broadcast_params(dist);
        assert forall|k: int| 0 <= k < all.len() implies takes_part(
            density_shapes(dist, x),
            (#[trigger] all[k]).shape@,
        ) by {
            if k < inner.len() {
                assert(all[k] == inner[k]);
            }
        }
    }
}

/// Whether every shape that takes part is one of these.
pub open spec fn made_of(joint: JointModel, shapes: Seq<Seq<usize>>) -> bool
    decreases joint,
{
    match joint {
        JointModel::Of(own) => shapes.contains(own),
        JointModel::Both(left, right) => made_of(*left, shapes) && made_of(*right, shapes),
    }
}

/// Shapes that broadcast with themselves to themselves broadcast to themselves together, whatever
/// takes part how often.
proof fn lemma_one_shape<A: Arithmetic>(
    ops: &A,
    joint: JointModel,
    shape: Seq<usize>,
    out: Result<Seq<usize>, Fault>,
)
    requires
        forall|r: Result<Seq<usize>, Fault>| #[trigger]
            ops.joint_gives(shape, shape, r) ==> r == Ok::<Seq<usize>, Fault>(shape),
        made_of(joint, seq![shape]),
        shapes_give(ops, joint, out),
    ensures
        out == Ok::<Seq<usize>, Fault>(shape),
    decreases joint,
{
    match joint {
        JointModel::Of(own) => {
            let i = choose|i: int| 0 <= i < seq![shape].len() && seq![shape][i] == own;
            assert(own == shape);
        },
        JointModel::Both(left, right) => {
            let (l, r) = choose|l: Result<Seq<usize>, Fault>, r: Result<Seq<usize>, Fault>|
                #[trigger] pair_gives(ops, l, r, out) && shapes_give(ops, *left, l) && (l is Ok
                    ==> shapes_give(ops, *right, r));
            lemma_one_shape(ops, *left, shape, l);
            lemma_one_shape(ops, *right, shape, r);
        },
    }
}

/// Where the value and every parameter have one shape, and that shape broadcasts with itself to
/// itself, the log density has it too: no other shape takes part.
pub proof fn law_density_of_one_shape_keeps_it<A: Arithmetic>(
    ops: &A,
    dist: DistVars,
    x: Var,
    shape: Seq<usize>,
    out: Result<Seq<usize>, Fault>,
)
    requires
        !(dist is Truncated),
        forall|r: Result<Seq<usize>, Fault>| #[trigger]
            ops.joint_gives(shape, shape, r) ==> r == Ok::<Seq<usize>, Fault>(shape),
        x.shape@ == shape,
        forall|k: int|
            0 <= k < broadcast_params(dist).len() ==> (#[trigger] broadcast_params(dist)[k]).shape@
                == shape,
        shapes_give(ops, density_shapes(dist, x), out),
    ensures
        out == Ok::<Seq<usize>, Fault>(shape),
{
    let one = seq![shape];
    assert(one[0] == shape);
    assert(one.contains(shape));
    let params = broadcast_params(dist);
    assert(params[0].shape@ == shape);
    if params.len() > 1 {
        assert(params[1].shape@ == shape);
    }
    if params.len() > 2 {
        assert(params[2].shape@ == shape);
    }
    reveal_with_fuel(made_of, 6);
    assert(made_of(density_shapes(dist, x), one));
    lemma_one_shape(ops, density_shapes(dist, x), shape, out);
}

} // verus!
