//! What constrained values are: they lie in their set, and the Jacobian is the logarithm of how
//! fast they move.

use vstd::prelude::*;

#[allow(unused_imports)]
use crate::bounds::ResolvedModel;
#[allow(unused_imports)]
use crate::density::{double, ONE, ZERO};
#[allow(unused_imports)]
use crate::meaning::{
    exp_adds, exp_undone, genuine, lemma_binary, lemma_binary_moves, lemma_ln_product, lemma_ln_quotient,
    lemma_select, lemma_unary, lemma_unary_moves, logistic, meaning, moves, neighbours, reads, size, slope, Reals,
    Scalars,
};
#[allow(unused_imports)]
use crate::number::NumberModel;
#[allow(unused_imports)]
use crate::term::{BinaryOp, Term, UnaryOp};
#[allow(unused_imports)]
use crate::transform::{constrained, opened, squeeze_jacobian, squeezed, Constrained};

verus! {

/// Whether a Jacobian is the logarithm of how fast a value moves with its input; a value without a
/// Jacobian moves as its input does.
pub open spec fn tells_the_slope(f: Reals, at: Scalars, c: Constrained, index: usize) -> bool {
    let rate = slope(f, at, c.value, index as int);
    match c.jacobian {
        Some(t) => rate != 0real && reads(f, at, t, (f.ln)(size(rate))),
        None => rate == 1real,
    }
}

/// The logistic function lies strictly between zero and one, and with its mirror makes one.
proof fn lemma_logistic(f: Reals, x: real)
    requires
        genuine(f),
    ensures
        0real < logistic(f, x) < 1real,
        logistic(f, x) == 1real / (1real + (f.exp)(-x)),
        1real - logistic(f, x) == 1real / (1real + (f.exp)(x)),
        (f.exp)(x) > 0real,
        (f.exp)(-x) > 0real,
{
    assert(exp_undone(f, x) && exp_undone(f, -x));
    assert(exp_adds(f, x, -x));
    assert(x + -x == 0real);
    let (e, g) = ((f.exp)(x), (f.exp)(-x));
    assert(0real < 1real / (1real + g) < 1real && 1real - 1real / (1real + g) == 1real / (1real
        + e)) by (nonlinear_arith)
        requires
            e > 0real,
            g > 0real,
            e * g == 1real,
    ;
}

/// An input pressed between two bounds, and how fast it moves there.
proof fn lemma_squeezed(
    f: Reals,
    at: Scalars,
    index: usize,
    lower: Term,
    upper: Term,
    q: real,
    a: real,
    b: real,
)
    requires
        genuine(f),
        at.leaves[index as int] == q,
        moves(f, at, lower, index as int, a, 0real),
        moves(f, at, upper, index as int, b, 0real),
        a < b,
    ensures
        ({
            let leaf = Term::Leaf(index);
            let v = a + (b - a) * logistic(f, q);
            let rate = (b - a) * (logistic(f, q) * (1real - logistic(f, q)));
            &&& a < v < b
            &&& rate > 0real
            &&& moves(f, at, squeezed(leaf, lower, upper), index as int, v, rate)
            &&& reads(f, at, squeeze_jacobian(leaf, lower, upper), (f.ln)(rate))
        }),
{
    let leaf = Term::Leaf(index);
    let k = index as int;
    let s = logistic(f, q);
    lemma_logistic(f, q);
    assert(moves(f, at, leaf, k, q, 1real));
    lemma_unary_moves(f, at, UnaryOp::Sigmoid, leaf, k, q, 1real);
    lemma_binary_moves(f, at, BinaryOp::Sub, upper, lower, k, b, 0real, a, 0real);
    let width = upper.minus(lower);
    let w = b - a;
    let ds = s * (1real - s) * 1real;
    lemma_binary_moves(
        f,
        at,
        BinaryOp::Mul,
        width,
        leaf.unary(UnaryOp::Sigmoid),
        k,
        w,
        0real - 0real,
        s,
        ds,
    );
    let part = width.times(leaf.unary(UnaryOp::Sigmoid));
    let dp = (0real - 0real) * s + w * ds;
    lemma_binary_moves(f, at, BinaryOp::Add, lower, part, k, a, 0real, w * s, dp);
    let rate = w * (s * (1real - s));
    assert(0real + dp == rate) by (nonlinear_arith)
        requires
            dp == (0real - 0real) * s + w * ds,
            ds == s * (1real - s) * 1real,
            rate == w * (s * (1real - s)),
    ;
    assert(rate > 0real && a < a + w * s && a + w * s < b) by (nonlinear_arith)
        requires
            rate == w * (s * (1real - s)),
            w == b - a,
            w > 0real,
            0real < s,
            s < 1real,
    ;
    lemma_unary(f, at, UnaryOp::Ln, width, w);
    lemma_unary(f, at, UnaryOp::Neg, leaf, q);
    lemma_unary(f, at, UnaryOp::Softplus, leaf.neg(), -q);
    lemma_unary(f, at, UnaryOp::Softplus, leaf, q);
    let (up, down) = ((f.ln)(1real + (f.exp)(-q)), (f.ln)(1real + (f.exp)(q)));
    lemma_binary(
        f,
        at,
        BinaryOp::Sub,
        width.ln(),
        leaf.neg().unary(UnaryOp::Softplus),
        (f.ln)(w),
        up,
    );
    lemma_binary(
        f,
        at,
        BinaryOp::Sub,
        width.ln().minus(leaf.neg().unary(UnaryOp::Softplus)),
        leaf.unary(UnaryOp::Softplus),
        (f.ln)(w) - up,
        down,
    );
    lemma_ln_quotient(f, 1real, 1real + (f.exp)(-q));
    lemma_ln_quotient(f, 1real, 1real + (f.exp)(q));
    crate::meaning::lemma_ln_one(f);
    let c = s * (1real - s);
    assert(c > 0real) by (nonlinear_arith)
        requires
            c == s * (1real - s),
            0real < s,
            s < 1real,
    ;
    lemma_ln_product(f, s, 1real - s);
    lemma_ln_product(f, w, c);
}

/// An unconstrained value is its input.
pub proof fn law_free_value_is_its_input(
    f: Reals,
    at: Scalars,
    name: Seq<char>,
    shape: Seq<usize>,
    index: usize,
)
    ensures
        ({
            let c = constrained(None, name, shape, index);
            &&& c is Ok
            &&& reads(f, at, c->Ok_0.value, at.leaves[index as int])
            &&& tells_the_slope(f, at, c->Ok_0, index)
        }),
{
}

/// A positive value is the exponential of its input.
pub proof fn law_positive_value(
    f: Reals,
    at: Scalars,
    name: Seq<char>,
    shape: Seq<usize>,
    index: usize,
)
    requires
        genuine(f),
    ensures
        ({
            let c = constrained(Some(ResolvedModel::Positive), name, shape, index);
            let v = (f.exp)(at.leaves[index as int]);
            &&& c is Ok
            &&& reads(f, at, c->Ok_0.value, v)
            &&& v > 0real
            &&& tells_the_slope(f, at, c->Ok_0, index)
        }),
{
    let q = at.leaves[index as int];
    let leaf = Term::Leaf(index);
    assert(moves(f, at, leaf, index as int, q, 1real));
    lemma_unary_moves(f, at, UnaryOp::Exp, leaf, index as int, q, 1real);
    assert(exp_undone(f, q));
    assert((f.exp)(q) * 1real == (f.exp)(q));
}

/// A value of an interval lies strictly inside it, by the logistic share of its width, and its
/// Jacobian is the logarithm of how fast it moves.
pub proof fn law_interval_value_lies_inside(
    f: Reals,
    at: Scalars,
    lower: NumberModel,
    upper: NumberModel,
    name: Seq<char>,
    shape: Seq<usize>,
    index: usize,
)
    requires
        genuine(f),
        lower.bits != 0xFFF0_0000_0000_0000,
        upper.bits != 0xFFF0_0000_0000_0000,
        (f.constant)(lower.bits) < (f.constant)(upper.bits),
    ensures
        ({
            let c = constrained(
                Some(ResolvedModel::Interval { lower, upper }),
                name,
                shape,
                index,
            );
            let (a, b) = ((f.constant)(lower.bits), (f.constant)(upper.bits));
            let v = a + (b - a) * logistic(f, at.leaves[index as int]);
            &&& c is Ok
            &&& reads(f, at, c->Ok_0.value, v)
            &&& a < v < b
            &&& tells_the_slope(f, at, c->Ok_0, index)
        }),
{
    let (low, high) = (double(lower.bits), double(upper.bits));
    let (a, b) = ((f.constant)(lower.bits), (f.constant)(upper.bits));
    lemma_squeezed(f, at, index, low, high, at.leaves[index as int], a, b);
}

/// A value of the unit interval lies strictly between zero and one.
pub proof fn law_unit_value_lies_inside(
    f: Reals,
    at: Scalars,
    name: Seq<char>,
    shape: Seq<usize>,
    index: usize,
)
    requires
        genuine(f),
    ensures
        ({
            let c = constrained(Some(ResolvedModel::UnitInterval), name, shape, index);
            let v = logistic(f, at.leaves[index as int]);
            &&& c is Ok
            &&& reads(f, at, c->Ok_0.value, v)
            &&& 0real < v < 1real
            &&& tells_the_slope(f, at, c->Ok_0, index)
        }),
{
    let q = at.leaves[index as int];
    lemma_squeezed(f, at, index, double(ZERO), double(ONE), q, 0real, 1real);
    let s = logistic(f, q);
    assert(0real + (1real - 0real) * s == s) by (nonlinear_arith);
}

/// A value above a bound is the bound and the exponential of its input.
pub proof fn law_value_above_its_bound(
    f: Reals,
    at: Scalars,
    lower: Seq<NumberModel>,
    name: Seq<char>,
    shape: Seq<usize>,
    index: usize,
)
    requires
        genuine(f),
    ensures
        ({
            let c = constrained(
                Some(ResolvedModel::VectorBounds { lower: Some(lower), upper: None }),
                name,
                shape,
                index,
            );
            let v = at.lower + (f.exp)(at.leaves[index as int]);
            &&& c is Ok
            &&& reads(f, at, c->Ok_0.value, v)
            &&& v > at.lower
            &&& tells_the_slope(f, at, c->Ok_0, index)
        }),
{
    let q = at.leaves[index as int];
    let k = index as int;
    let leaf = Term::Leaf(index);
    assert(moves(f, at, leaf, k, q, 1real));
    assert(moves(f, at, Term::LowerBounds(index), k, at.lower, 0real));
    lemma_unary_moves(f, at, UnaryOp::Exp, leaf, k, q, 1real);
    let e = (f.exp)(q);
    lemma_binary_moves(
        f,
        at,
        BinaryOp::Add,
        Term::LowerBounds(index),
        leaf.exp(),
        k,
        at.lower,
        0real,
        e,
        e * 1real,
    );
    assert(exp_undone(f, q));
    assert(0real + e * 1real == e);
}

/// A value below a bound is the bound less the exponential of its input.
pub proof fn law_value_below_its_bound(
    f: Reals,
    at: Scalars,
    upper: Seq<NumberModel>,
    name: Seq<char>,
    shape: Seq<usize>,
    index: usize,
)
    requires
        genuine(f),
    ensures
        ({
            let c = constrained(
                Some(ResolvedModel::VectorBounds { lower: None, upper: Some(upper) }),
                name,
                shape,
                index,
            );
            let v = at.upper - (f.exp)(at.leaves[index as int]);
            &&& c is Ok
            &&& reads(f, at, c->Ok_0.value, v)
            &&& v < at.upper
            &&& tells_the_slope(f, at, c->Ok_0, index)
        }),
{
    let q = at.leaves[index as int];
    let k = index as int;
    let leaf = Term::Leaf(index);
    assert(moves(f, at, leaf, k, q, 1real));
    assert(moves(f, at, Term::UpperBounds(index), k, at.upper, 0real));
    lemma_unary_moves(f, at, UnaryOp::Exp, leaf, k, q, 1real);
    let e = (f.exp)(q);
    lemma_binary_moves(
        f,
        at,
        BinaryOp::Sub,
        Term::UpperBounds(index),
        leaf.exp(),
        k,
        at.upper,
        0real,
        e,
        e * 1real,
    );
    assert(exp_undone(f, q));
    assert(0real - e * 1real == -e);
}

/// A value between two bounds on both sides lies strictly between them: by the logistic share of
/// the width, but not beyond the doubles next to the bounds. Where it is not held back by those,
/// its Jacobian is the logarithm of how fast it moves.
pub proof fn law_value_between_its_bounds(
    f: Reals,
    at: Scalars,
    lower: Seq<NumberModel>,
    upper: Seq<NumberModel>,
    name: Seq<char>,
    shape: Seq<usize>,
    index: usize,
)
    requires
        genuine(f),
        at.lower < at.upper,
        (f.next_up)(at.lower) <= (f.next_down)(at.upper),
    ensures
        ({
            let c = constrained(
                Some(ResolvedModel::VectorBounds { lower: Some(lower), upper: Some(upper) }),
                name,
                shape,
                index,
            );
            let (low, high) = ((f.next_up)(at.lower), (f.next_down)(at.upper));
            let v = at.lower + (at.upper - at.lower) * logistic(f, at.leaves[index as int]);
            &&& c is Ok
            &&& reads(
                f,
                at,
                c->Ok_0.value,
                if v < low {
                    low
                } else if v > high {
                    high
                } else {
                    v
                },
            )
            &&& at.lower < low <= high < at.upper
            &&& low <= v <= high ==> tells_the_slope(f, at, c->Ok_0, index)
        }),
{
    let q = at.leaves[index as int];
    let k = index as int;
    let leaf = Term::Leaf(index);
    let (a, b) = (at.lower, at.upper);
    let (lt, ut) = (Term::LowerBounds(index), Term::UpperBounds(index));
    assert(moves(f, at, lt, k, a, 0real) && moves(f, at, ut, k, b, 0real));
    lemma_squeezed(f, at, index, lt, ut, q, a, b);
    assert(neighbours(f, a) && neighbours(f, b));
    let (low, high) = ((f.next_up)(a), (f.next_down)(b));
    let v = a + (b - a) * logistic(f, q);
    let rate = (b - a) * (logistic(f, q) * (1real - logistic(f, q)));
    let value = squeezed(leaf, lt, ut);
    let (up, down) = (lt.unary(UnaryOp::NextUp), ut.unary(UnaryOp::NextDown));
    lemma_unary_moves(f, at, UnaryOp::NextUp, lt, k, a, 0real);
    lemma_unary_moves(f, at, UnaryOp::NextDown, ut, k, b, 0real);
    lemma_binary(f, at, BinaryOp::Ge, value, up, v, low);
    lemma_select(f, at, value.ge(up), value, up, v >= low);
    let above = value.ge(up).select(value, up);
    let w = if v >= low {
        v
    } else {
        low
    };
    assert(reads(f, at, above, w));
    lemma_binary(f, at, BinaryOp::Le, above, down, w, high);
    lemma_select(f, at, above.le(down), above, down, w <= high);
    if low <= v <= high {
        assert(slope(f, at, above, k) == rate);
        assert(slope(f, at, opened(value, lt, ut), k) == rate);
    }
}

} // verus!
