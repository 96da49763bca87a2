//! Expressions as real functions: what they come to over single numbers, if nothing is rounded.

use vstd::prelude::*;

#[allow(unused_imports)]
use crate::term::{BinaryOp, Term, UnaryOp};

verus! {

/// The real functions that expressions name, and the reals that doubles stand for.
pub struct Reals {
    pub exp: spec_fn(real) -> real,
    pub ln: spec_fn(real) -> real,
    /// The logarithm of the gamma function.
    pub log_gamma: spec_fn(real) -> real,
    /// The logarithm of the standard normal distribution function.
    pub log_ndtr: spec_fn(real) -> real,
    /// The real that a double stands for.
    pub constant: spec_fn(u64) -> real,
    /// The next greater double, as a real.
    pub next_up: spec_fn(real) -> real,
    /// The next smaller double, as a real.
    pub next_down: spec_fn(real) -> real,
    pub pi: real,
}

/// The exponential turns sums into products.
pub open spec fn exp_adds(f: Reals, x: real, y: real) -> bool {
    (f.exp)(x + y) == (f.exp)(x) * (f.exp)(y)
}

/// The exponential is positive, and the logarithm undoes it.
pub open spec fn exp_undone(f: Reals, x: real) -> bool {
    (f.exp)(x) > 0real && (f.ln)((f.exp)(x)) == x
}

/// The exponential undoes the logarithm of a positive number.
pub open spec fn ln_undone(f: Reals, y: real) -> bool {
    y > 0real ==> (f.exp)((f.ln)(y)) == y
}

/// The exponential strictly increases.
pub open spec fn exp_increases(f: Reals, x: real, y: real) -> bool {
    x < y ==> (f.exp)(x) < (f.exp)(y)
}

/// The gamma function at a successor.
pub open spec fn gamma_steps(f: Reals, x: real) -> bool {
    x > 0real ==> (f.log_gamma)(x + 1real) == (f.log_gamma)(x) + (f.ln)(x)
}

/// The normal distribution function is symmetric about zero.
pub open spec fn ndtr_mirrors(f: Reals, x: real) -> bool {
    (f.exp)((f.log_ndtr)(x)) + (f.exp)((f.log_ndtr)(-x)) == 1real
}

/// The normal distribution function strictly increases.
pub open spec fn ndtr_increases(f: Reals, x: real, y: real) -> bool {
    x < y ==> (f.log_ndtr)(x) < (f.log_ndtr)(y)
}

/// The neighbours of a double lie on its two sides.
pub open spec fn neighbours(f: Reals, x: real) -> bool {
    (f.next_down)(x) < x < (f.next_up)(x)
}

/// Whether these are the real functions that they are called, over the reals that doubles stand
/// for. The doubles nearest to numbers with pi in them are read as those numbers.
pub open spec fn genuine(f: Reals) -> bool {
    &&& (f.exp)(0real) == 1real
    &&& (f.log_gamma)(1real) == 0real
    &&& forall|x: real, y: real| #[trigger] exp_adds(f, x, y)
    &&& forall|x: real| #[trigger] exp_undone(f, x)
    &&& forall|y: real| #[trigger] ln_undone(f, y)
    &&& forall|x: real, y: real| #[trigger] exp_increases(f, x, y)
    &&& forall|x: real| #[trigger] gamma_steps(f, x)
    &&& forall|x: real| #[trigger] ndtr_mirrors(f, x)
    &&& forall|x: real, y: real| #[trigger] ndtr_increases(f, x, y)
    &&& forall|x: real| #[trigger] neighbours(f, x)
    &&& f.pi > 3real
    &&& (f.constant)(0) == 0real
    &&& (f.constant)(0x3FE0_0000_0000_0000) == 1real / 2real
    &&& (f.constant)(0x3FF0_0000_0000_0000) == 1real
    &&& (f.constant)(0x4009_21FB_5444_2D18) == f.pi
    &&& (f.constant)(0xBFCC_E6BB_25AA_1315) == (f.ln)(2real) - (f.ln)(2real * f.pi) / 2real
    &&& 0real < (f.constant)(0x0010_0000_0000_0000) < 1real / 2real
    &&& 1real / 2real < (f.constant)(0x3FEF_FFFF_FFFF_FFFE) < 1real
}

/// A real number, or negative infinity.
pub enum Entry {
    At(real),
    Below,
}

/// Whether a real is that integer.
pub open spec fn whole_at(x: real, n: int) -> bool {
    x == n as real
}

/// Whether a real is an integer.
pub open spec fn whole(x: real) -> bool {
    exists|n: int| #[trigger] whole_at(x, n)
}

/// A truth value as a number.
pub open spec fn truth(holds: bool) -> real {
    if holds {
        1real
    } else {
        0real
    }
}

/// The logistic function.
pub open spec fn logistic(f: Reals, x: real) -> real {
    1real / (1real + (f.exp)(-x))
}

pub open spec fn unary_real(f: Reals, op: UnaryOp, x: real) -> real {
    match op {
        UnaryOp::Exp => (f.exp)(x),
        UnaryOp::Neg => -x,
        UnaryOp::Ln => (f.ln)(x),
        UnaryOp::Ln1p => (f.ln)(1real + x),
        UnaryOp::Sigmoid => logistic(f, x),
        UnaryOp::Softplus => (f.ln)(1real + (f.exp)(x)),
        UnaryOp::LogGamma => (f.log_gamma)(x),
        UnaryOp::LogNormalCdf => (f.log_ndtr)(x),
        UnaryOp::IsInteger => truth(whole(x)),
        UnaryOp::NextUp => (f.next_up)(x),
        UnaryOp::NextDown => (f.next_down)(x),
        UnaryOp::IsIncreasing => 1real,
        UnaryOp::Extent => 1real,
        _ => x,
    }
}

pub open spec fn binary_real(f: Reals, op: BinaryOp, x: real, y: real) -> real {
    match op {
        BinaryOp::Add => x + y,
        BinaryOp::Sub => x - y,
        BinaryOp::Mul => x * y,
        BinaryOp::Div => x / y,
        BinaryOp::XLogY => if x == 0real {
            0real
        } else {
            x * (f.ln)(y)
        },
        BinaryOp::Ge => truth(x >= y),
        BinaryOp::Le => truth(x <= y),
        BinaryOp::Gt => truth(x > y),
        BinaryOp::Lt => truth(x < y),
        BinaryOp::And => truth(x != 0real && y != 0real),
        _ => x,
    }
}

/// The log density of a normal distribution.
pub open spec fn normal_real(f: Reals, x: real, loc: real, scale: real) -> real {
    let z = (x - loc) / scale;
    -(z * z) / 2real - (f.ln)(scale) - (f.ln)(2real * f.pi) / 2real
}

/// What an expression is read over: single numbers as inputs, and the bounds of the first.
pub struct Scalars {
    pub leaves: Seq<real>,
    pub lower: real,
    pub upper: real,
}

pub open spec fn unary_entry(f: Reals, op: UnaryOp, a: Entry) -> Entry {
    match a {
        Entry::At(x) => Entry::At(unary_real(f, op, x)),
        Entry::Below => Entry::Below,
    }
}

pub open spec fn binary_entry(f: Reals, op: BinaryOp, a: Entry, b: Entry) -> Entry {
    match (a, b) {
        (Entry::At(x), Entry::At(y)) => Entry::At(binary_real(f, op, x, y)),
        _ => Entry::Below,
    }
}

pub open spec fn normal_entry(f: Reals, x: Entry, loc: Entry, scale: Entry) -> Entry {
    match (x, loc, scale) {
        (Entry::At(v), Entry::At(m), Entry::At(s)) => Entry::At(normal_real(f, v, m, s)),
        _ => Entry::Below,
    }
}

/// What an expression comes to over single numbers. A multivariate normal distribution is then one
/// of a single coordinate, and parts along an axis are the number itself.
pub open spec fn meaning(f: Reals, at: Scalars, t: Term) -> Entry
    decreases t,
{
    match t {
        Term::Leaf(i) => Entry::At(at.leaves[i as int]),
        Term::LowerBounds(_) => Entry::At(at.lower),
        Term::UpperBounds(_) => Entry::At(at.upper),
        Term::Double(bits) => if bits == 0xFFF0_0000_0000_0000 {
            Entry::Below
        } else {
            Entry::At((f.constant)(bits))
        },
        Term::Unary(op, a) => unary_entry(f, op, meaning(f, at, *a)),
        Term::Binary(op, a, b) => binary_entry(f, op, meaning(f, at, *a), meaning(f, at, *b)),
        Term::Select(c, a, b) => if meaning(f, at, *c) == Entry::At(0real) {
            meaning(f, at, *b)
        } else {
            meaning(f, at, *a)
        },
        Term::Join(a, _, _) => meaning(f, at, *a),
        Term::Slice(a, _, _) => meaning(f, at, *a),
        Term::NormalLogProb(x, m, s) => normal_entry(
            f,
            meaning(f, at, *x),
            meaning(f, at, *m),
            meaning(f, at, *s),
        ),
        Term::MultivariateLogProb(x, m, s) => normal_entry(
            f,
            meaning(f, at, *x),
            meaning(f, at, *m),
            meaning(f, at, *s),
        ),
    }
}

/// Whether an expression reads as that real.
pub open spec fn reads(f: Reals, at: Scalars, t: Term, x: real) -> bool {
    meaning(f, at, t) == Entry::At(x)
}

/// The derivative of a function of one argument.
pub open spec fn unary_slope(f: Reals, op: UnaryOp, x: real, dx: real) -> real {
    match op {
        UnaryOp::Exp => (f.exp)(x) * dx,
        UnaryOp::Neg => -dx,
        UnaryOp::Ln => dx / x,
        UnaryOp::Sigmoid => logistic(f, x) * (1real - logistic(f, x)) * dx,
        UnaryOp::Softplus => logistic(f, x) * dx,
        UnaryOp::NextUp => 0real,
        UnaryOp::NextDown => 0real,
        _ => dx,
    }
}

/// The derivative of a function of two arguments.
pub open spec fn binary_slope(op: BinaryOp, x: real, dx: real, y: real, dy: real) -> real {
    match op {
        BinaryOp::Add => dx + dy,
        BinaryOp::Sub => dx - dy,
        BinaryOp::Mul => dx * y + x * dy,
        BinaryOp::Div => (dx * y - x * dy) / (y * y),
        _ => 0real,
    }
}

/// The derivative of an expression by one of its inputs, by the rules of calculus.
pub open spec fn slope(f: Reals, at: Scalars, t: Term, k: int) -> real
    decreases t,
{
    match t {
        Term::Leaf(i) => if i == k {
            1real
        } else {
            0real
        },
        Term::Unary(op, a) => match meaning(f, at, *a) {
            Entry::At(x) => unary_slope(f, op, x, slope(f, at, *a, k)),
            Entry::Below => 0real,
        },
        Term::Binary(op, a, b) => match (meaning(f, at, *a), meaning(f, at, *b)) {
            (Entry::At(x), Entry::At(y)) => binary_slope(
                op,
                x,
                slope(f, at, *a, k),
                y,
                slope(f, at, *b, k),
            ),
            _ => 0real,
        },
        Term::Select(c, a, b) => if meaning(f, at, *c) == Entry::At(0real) {
            slope(f, at, *b, k)
        } else {
            slope(f, at, *a, k)
        },
        _ => 0real,
    }
}

/// The size of a number.
pub open spec fn size(x: real) -> real {
    if x < 0real {
        -x
    } else {
        x
    }
}

/// Whether an expression reads as that real, with that derivative.
pub open spec fn moves(f: Reals, at: Scalars, t: Term, k: int, x: real, dx: real) -> bool {
    reads(f, at, t, x) && slope(f, at, t, k) == dx
}

/// An operation on two expressions whose readings and derivatives are known.
pub proof fn lemma_binary_moves(
    f: Reals,
    at: Scalars,
    op: BinaryOp,
    a: Term,
    b: Term,
    k: int,
    x: real,
    dx: real,
    y: real,
    dy: real,
)
    requires
        moves(f, at, a, k, x, dx),
        moves(f, at, b, k, y, dy),
    ensures
        moves(
            f,
            at,
            a.binary(op, b),
            k,
            binary_real(f, op, x, y),
            binary_slope(op, x, dx, y, dy),
        ),
{
}

/// A function of an expression whose reading and derivative are known.
pub proof fn lemma_unary_moves(
    f: Reals,
    at: Scalars,
    op: UnaryOp,
    a: Term,
    k: int,
    x: real,
    dx: real,
)
    requires
        moves(f, at, a, k, x, dx),
    ensures
        moves(f, at, a.unary(op), k, unary_real(f, op, x), unary_slope(f, op, x, dx)),
{
}

/// Whether an expression reads as that truth value.
pub open spec fn holds(f: Reals, at: Scalars, t: Term, b: bool) -> bool {
    meaning(f, at, t) == Entry::At(truth(b))
}

/// An operation on two expressions whose readings are known.
pub proof fn lemma_binary(f: Reals, at: Scalars, op: BinaryOp, a: Term, b: Term, x: real, y: real)
    requires
        reads(f, at, a, x),
        reads(f, at, b, y),
    ensures
        reads(f, at, a.binary(op, b), binary_real(f, op, x, y)),
{
}

/// A function of an expression whose reading is known.
pub proof fn lemma_unary(f: Reals, at: Scalars, op: UnaryOp, a: Term, x: real)
    requires
        reads(f, at, a, x),
    ensures
        reads(f, at, a.unary(op), unary_real(f, op, x)),
{
}

/// Two expressions that hold, or not, together.
pub proof fn lemma_and(f: Reals, at: Scalars, a: Term, b: Term, p: bool, q: bool)
    requires
        holds(f, at, a, p),
        holds(f, at, b, q),
    ensures
        holds(f, at, a.and(b), p && q),
{
}

/// A choice whose condition is known.
pub proof fn lemma_select(f: Reals, at: Scalars, c: Term, a: Term, b: Term, p: bool)
    requires
        holds(f, at, c, p),
    ensures
        meaning(f, at, c.select(a, b)) == (if p {
            meaning(f, at, a)
        } else {
            meaning(f, at, b)
        }),
{
}

/// The logarithm of a factorial, term by term.
pub open spec fn log_factorial(f: Reals, n: nat) -> real
    decreases n,
{
    if n == 0 {
        0real
    } else {
        log_factorial(f, (n - 1) as nat) + (f.ln)(n as real)
    }
}

/// The gamma function at integers is the factorial.
pub proof fn lemma_gamma_is_factorial(f: Reals, n: nat)
    requires
        genuine(f),
    ensures
        (f.log_gamma)(n as real + 1real) == log_factorial(f, n),
    decreases n,
{
    if n > 0 {
        lemma_gamma_is_factorial(f, (n - 1) as nat);
        assert(gamma_steps(f, n as real));
        assert((n - 1) as real + 1real == n as real);
    } else {
        assert(0nat as real + 1real == 1real);
    }
}

/// The logarithm of a product.
pub proof fn lemma_ln_product(f: Reals, x: real, y: real)
    requires
        genuine(f),
        x > 0real,
        y > 0real,
    ensures
        (f.ln)(x * y) == (f.ln)(x) + (f.ln)(y),
{
    let a = (f.ln)(x);
    let b = (f.ln)(y);
    assert(ln_undone(f, x) && ln_undone(f, y));
    assert(exp_adds(f, a, b));
    assert(exp_undone(f, a + b));
}

/// The logarithm of a quotient.
pub proof fn lemma_ln_quotient(f: Reals, x: real, y: real)
    requires
        genuine(f),
        x > 0real,
        y > 0real,
    ensures
        (f.ln)(x / y) == (f.ln)(x) - (f.ln)(y),
{
    assert(x / y > 0real && (x / y) * y == x) by (nonlinear_arith)
        requires
            x > 0real,
            y > 0real,
    ;
    lemma_ln_product(f, x / y, y);
}

/// The logarithm of one is zero.
pub proof fn lemma_ln_one(f: Reals)
    requires
        genuine(f),
    ensures
        (f.ln)(1real) == 0real,
{
    assert(exp_undone(f, 0real));
}

/// The exponential of a difference.
pub proof fn lemma_exp_difference(f: Reals, x: real, y: real)
    requires
        genuine(f),
    ensures
        (f.exp)(x - y) * (f.exp)(y) == (f.exp)(x),
        (f.exp)(x - y) == (f.exp)(x) / (f.exp)(y),
{
    assert(exp_adds(f, x - y, y));
    assert((x - y) + y == x);
    assert(exp_undone(f, y));
    let a = (f.exp)(x - y);
    let b = (f.exp)(y);
    assert(a == (a * b) / b) by (nonlinear_arith)
        requires
            b > 0real,
    ;
}

} // verus!
