//! How unconstrained inputs stand for constrained values, as symbolic expressions.

use vstd::prelude::*;

use crate::bounds::ResolvedConstraint;
#[allow(unused_imports)]
use crate::bounds::ResolvedModel;
use crate::density::{difference, product, sum};
#[allow(unused_imports)]
use crate::density::double;
use crate::error::{shape_mismatch, Error};
#[allow(unused_imports)]
use crate::error::{shape_fault, Fault};
use crate::posterior::FreeSlot;
#[allow(unused_imports)]
use crate::term::{BinaryOp, Term, UnaryOp};
use crate::text;

verus! {

/// A constrained value, and what its logarithmic Jacobian adds up entry by entry.
#[derive(Debug)]
pub struct Constrained {
    pub value: Term,
    pub jacobian: Option<Term>,
}

/// An input pressed into the interval between two bounds.
pub open spec fn squeezed(leaf: Term, lower: Term, upper: Term) -> Term {
    lower.plus(upper.minus(lower).times(leaf.unary(UnaryOp::Sigmoid)))
}

/// A value kept off the bounds themselves.
pub open spec fn opened(value: Term, lower: Term, upper: Term) -> Term {
    let above = value.ge(lower.unary(UnaryOp::NextUp)).select(value, lower.unary(UnaryOp::NextUp));
    above.le(upper.unary(UnaryOp::NextDown)).select(above, upper.unary(UnaryOp::NextDown))
}

/// The logarithm of the derivative of [`squeezed`].
pub open spec fn squeeze_jacobian(leaf: Term, lower: Term, upper: Term) -> Term {
    upper.minus(lower).ln().minus(leaf.neg().unary(UnaryOp::Softplus)).minus(
        leaf.unary(UnaryOp::Softplus),
    )
}

/// An input between two bounds.
pub open spec fn bounded(leaf: Term, lower: Term, upper: Term, open: bool) -> Constrained {
    let value = squeezed(leaf, lower, upper);
    Constrained {
        value: if open {
            opened(value, lower, upper)
        } else {
            value
        },
        jacobian: Some(squeeze_jacobian(leaf, lower, upper)),
    }
}

/// The constrained value of an input of a slot, or what is wrong with the slot.
pub open spec fn constrained(
    constraint: Option<ResolvedModel>,
    name: Seq<char>,
    shape: Seq<usize>,
    index: usize,
) -> Result<Constrained, Fault> {
    let leaf = Term::Leaf(index);
    match constraint {
        None => Ok(Constrained { value: leaf, jacobian: None }),
        Some(ResolvedModel::Positive) => Ok(
            Constrained { value: leaf.exp(), jacobian: Some(leaf) },
        ),
        Some(ResolvedModel::UnitInterval) => Ok(
            bounded(leaf, double(crate::density::ZERO), double(crate::density::ONE), false),
        ),
        Some(ResolvedModel::Interval { lower, upper }) => Ok(
            bounded(leaf, double(lower.bits), double(upper.bits), false),
        ),
        Some(ResolvedModel::Ordered) => if shape.len() != 1 {
            Err(
                shape_fault(
                    "Ordered constraint on \""@ + name + "\" requires vector values"@,
                ),
            )
        } else {
            Ok(
                Constrained {
                    value: leaf.unary(UnaryOp::OrderedInverse),
                    jacobian: Some(leaf.slice(1, shape[0])),
                },
            )
        },
        Some(ResolvedModel::VectorBounds { lower, upper }) => match (lower, upper) {
            (Some(_), None) => Ok(
                Constrained {
                    value: Term::LowerBounds(index).plus(leaf.exp()),
                    jacobian: Some(leaf),
                },
            ),
            (None, Some(_)) => Ok(
                Constrained {
                    value: Term::UpperBounds(index).minus(leaf.exp()),
                    jacobian: Some(leaf),
                },
            ),
            (Some(_), Some(_)) => Ok(
                bounded(leaf, Term::LowerBounds(index), Term::UpperBounds(index), true),
            ),
            (None, None) => Err(
                shape_fault("resolved VectorBounds require at least one bound side"@),
            ),
        },
    }
}

/// The result of constraining.
pub open spec fn constrained_outcome(r: Result<Constrained, Error>) -> Result<Constrained, Fault> {
    match r {
        Ok(found) => Ok(found),
        Err(error) => Err(error@),
    }
}

fn bounded_constraint(leaf: &Term, lower: &Term, upper: &Term, clip_open_interval: bool) -> (r: Constrained)
    ensures
        r == bounded(*leaf, *lower, *upper, clip_open_interval),
{
    let width: Term = difference(upper, lower);
    let plain: Term = sum(lower, &product(&width, &leaf.apply(UnaryOp::Sigmoid)));
    let value: Term = if clip_open_interval {
        let low: Term = lower.apply(UnaryOp::NextUp);
        let high: Term = upper.apply(UnaryOp::NextDown);
        let above: Term = plain.with(BinaryOp::Ge, &low).choose_between(&plain, &low);
        above.with(BinaryOp::Le, &high).choose_between(&above, &high)
    } else {
        plain
    };
    let left: Term = leaf.apply(UnaryOp::Neg).apply(UnaryOp::Softplus);
    let lead: Term = difference(&width.apply(UnaryOp::Ln), &left);
    let jacobian: Term = difference(&lead, &leaf.apply(UnaryOp::Softplus));
    Constrained { value, jacobian: Some(jacobian) }
}

/// The content of an optional constraint.
pub open spec fn constraint_view(constraint: Option<ResolvedConstraint>) -> Option<ResolvedModel> {
    match constraint {
        Some(c) => Some(c@),
        None => None,
    }
}

/// The constrained value that the input of a slot stands for.
pub fn apply_constraint(slot: &FreeSlot, index: usize) -> (r: Result<Constrained, Error>)
    ensures
        constrained_outcome(r) == constrained(
            constraint_view(slot.constraint),
            slot.name@,
            slot.shape@,
            index,
        ),
{
    let leaf: Term = Term::Leaf(index);
    match &slot.constraint {
        None => Ok(Constrained { value: leaf, jacobian: None }),
        Some(ResolvedConstraint::Positive) => Ok(
            Constrained { value: leaf.apply(UnaryOp::Exp), jacobian: Some(leaf) },
        ),
        Some(ResolvedConstraint::UnitInterval) => Ok(
            bounded_constraint(
                &leaf,
                &Term::Double(crate::density::ZERO),
                &Term::Double(crate::density::ONE),
                false,
            ),
        ),
        Some(ResolvedConstraint::Interval { lower, upper }) => Ok(
            bounded_constraint(
                &leaf,
                &Term::Double(lower.bits),
                &Term::Double(upper.bits),
                false,
            ),
        ),
        Some(ResolvedConstraint::Ordered) => {
            if slot.shape.len() != 1 {
                return Err(
                    shape_mismatch(
                        text::cat3(
                            "Ordered constraint on \"",
                            slot.name.as_str(),
                            "\" requires vector values",
                        ),
                    ),
                );
            }
            Ok(
                Constrained {
                    value: leaf.apply(UnaryOp::OrderedInverse),
                    jacobian: Some(leaf.part(1, slot.shape[0])),
                },
            )
        },
        Some(ResolvedConstraint::VectorBounds { lower, upper }) => match (lower, upper) {
            (Some(_), None) => Ok(
                Constrained {
                    value: sum(&Term::LowerBounds(index), &leaf.apply(UnaryOp::Exp)),
                    jacobian: Some(leaf),
                },
            ),
            (None, Some(_)) => Ok(
                Constrained {
                    value: difference(&Term::UpperBounds(index), &leaf.apply(UnaryOp::Exp)),
                    jacobian: Some(leaf),
                },
            ),
            (Some(_), Some(_)) => Ok(
                bounded_constraint(
                    &leaf,
                    &Term::LowerBounds(index),
                    &Term::UpperBounds(index),
                    true,
                ),
            ),
            (None, None) => Err(
                shape_mismatch("resolved VectorBounds require at least one bound side".to_owned()),
            ),
        },
    }
}

/// A value between two bounds on both sides is kept off the bounds, and only there.
pub proof fn law_only_vector_bounds_are_open(
    constraint: Option<ResolvedModel>,
    name: Seq<char>,
    shape: Seq<usize>,
    index: usize,
)
    requires
        constrained(constraint, name, shape, index) is Ok,
    ensures
        constrained(constraint, name, shape, index)->Ok_0.value is Select <==> (constraint matches Some(
            ResolvedModel::VectorBounds { lower: Some(_), upper: Some(_) },
        )),
{
}

} // verus!
