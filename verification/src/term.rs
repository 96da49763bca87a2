//! Symbolic expressions over doubles: what a density computes, before any number is known.

use vstd::prelude::*;

verus! {

/// A function of one argument, entry by entry unless it says otherwise.
#[derive(Debug, Clone, Copy, PartialEq, Eq, Structural)]
pub enum UnaryOp {
    Exp,
    Neg,
    Ln,
    /// `ln(1 + x)`.
    Ln1p,
    Sigmoid,
    Softplus,
    LogGamma,
    /// The logarithm of the standard normal distribution function.
    LogNormalCdf,
    /// Whether an entry is an integer.
    IsInteger,
    /// Whether the entries of a vector strictly increase.
    IsIncreasing,
    /// The next greater double.
    NextUp,
    /// The next smaller double.
    NextDown,
    /// The increasing vector that an unconstrained one stands for.
    OrderedInverse,
    /// The sum of all entries.
    Sum,
    /// A scalar as a vector of one entry; a vector stays as it is.
    AsVector,
    /// The argument with a last axis of extent one.
    AsColumn,
    /// The first entry along the last axis, which stays.
    First,
    /// The last entry along the last axis, which stays.
    Last,
    /// All entries but the first along the last axis.
    Rest,
    /// All entries but the last along the last axis.
    Lead,
    /// The extent of the last axis, as a scalar.
    Extent,
}

/// A function of two arguments, with broadcasting.
#[derive(Debug, Clone, Copy, PartialEq, Eq, Structural)]
pub enum BinaryOp {
    Add,
    Sub,
    Mul,
    Div,
    /// `x * ln(y)`, and zero where `x` is zero.
    XLogY,
    Ge,
    Le,
    Gt,
    Lt,
    And,
    /// The first argument broadcast to the shape that both broadcast to.
    SpreadTo,
    /// The first argument broadcast so, over all its axes but the last.
    SpreadRows,
    /// From each row of the first argument the entry that the second names, clipped to the row.
    TakeLast,
}

/// An expression.
#[derive(Debug, PartialEq)]
pub enum Term {
    /// An input, by number.
    Leaf(usize),
    /// The lower bounds of an input.
    LowerBounds(usize),
    /// The upper bounds of an input.
    UpperBounds(usize),
    /// A double, by its bit pattern.
    Double(u64),
    Unary(UnaryOp, Box<Term>),
    Binary(BinaryOp, Box<Term>, Box<Term>),
    /// The second argument where the first holds, else the third.
    Select(Box<Term>, Box<Term>, Box<Term>),
    /// Three arguments behind one another along the last axis.
    Join(Box<Term>, Box<Term>, Box<Term>),
    /// The entries from one position up to another along the last axis.
    Slice(Box<Term>, usize, usize),
    /// The normal log density of a value, by location and scale.
    NormalLogProb(Box<Term>, Box<Term>, Box<Term>),
    /// The multivariate normal log density of a value, by mean and triangular scale.
    MultivariateLogProb(Box<Term>, Box<Term>, Box<Term>),
}

impl Term {
    pub open spec fn unary(self, op: UnaryOp) -> Term {
        Term::Unary(op, Box::new(self))
    }

    pub open spec fn binary(self, op: BinaryOp, other: Term) -> Term {
        Term::Binary(op, Box::new(self), Box::new(other))
    }

    pub open spec fn plus(self, other: Term) -> Term {
        self.binary(BinaryOp::Add, other)
    }

    pub open spec fn minus(self, other: Term) -> Term {
        self.binary(BinaryOp::Sub, other)
    }

    pub open spec fn times(self, other: Term) -> Term {
        self.binary(BinaryOp::Mul, other)
    }

    pub open spec fn over(self, other: Term) -> Term {
        self.binary(BinaryOp::Div, other)
    }

    pub open spec fn xlogy(self, other: Term) -> Term {
        self.binary(BinaryOp::XLogY, other)
    }

    pub open spec fn ge(self, other: Term) -> Term {
        self.binary(BinaryOp::Ge, other)
    }

    pub open spec fn le(self, other: Term) -> Term {
        self.binary(BinaryOp::Le, other)
    }

    pub open spec fn gt(self, other: Term) -> Term {
        self.binary(BinaryOp::Gt, other)
    }

    pub open spec fn lt(self, other: Term) -> Term {
        self.binary(BinaryOp::Lt, other)
    }

    pub open spec fn and(self, other: Term) -> Term {
        self.binary(BinaryOp::And, other)
    }

    pub open spec fn exp(self) -> Term {
        self.unary(UnaryOp::Exp)
    }

    pub open spec fn neg(self) -> Term {
        self.unary(UnaryOp::Neg)
    }

    pub open spec fn ln(self) -> Term {
        self.unary(UnaryOp::Ln)
    }

    pub open spec fn ln_1p(self) -> Term {
        self.unary(UnaryOp::Ln1p)
    }

    pub open spec fn log_gamma(self) -> Term {
        self.unary(UnaryOp::LogGamma)
    }

    pub open spec fn log_ndtr(self) -> Term {
        self.unary(UnaryOp::LogNormalCdf)
    }

    pub open spec fn is_integer(self) -> Term {
        self.unary(UnaryOp::IsInteger)
    }

    pub open spec fn select(self, yes: Term, no: Term) -> Term {
        Term::Select(Box::new(self), Box::new(yes), Box::new(no))
    }

    pub open spec fn slice(self, from: usize, to: usize) -> Term {
        Term::Slice(Box::new(self), from, to)
    }

    /// A copy.
    pub fn copy(&self) -> (r: Term)
        ensures
            r == *self,
        decreases self,
    {
        match self {
            Term::Leaf(i) => Term::Leaf(*i),
            Term::LowerBounds(i) => Term::LowerBounds(*i),
            Term::UpperBounds(i) => Term::UpperBounds(*i),
            Term::Double(bits) => Term::Double(*bits),
            Term::Unary(op, a) => Term::Unary(*op, Box::new(a.copy())),
            Term::Binary(op, a, b) => Term::Binary(*op, Box::new(a.copy()), Box::new(b.copy())),
            Term::Select(a, b, c) => Term::Select(
                Box::new(a.copy()),
                Box::new(b.copy()),
                Box::new(c.copy()),
            ),
            Term::Join(a, b, c) => Term::Join(
                Box::new(a.copy()),
                Box::new(b.copy()),
                Box::new(c.copy()),
            ),
            Term::Slice(a, from, to) => Term::Slice(Box::new(a.copy()), *from, *to),
            Term::NormalLogProb(a, b, c) => Term::NormalLogProb(
                Box::new(a.copy()),
                Box::new(b.copy()),
                Box::new(c.copy()),
            ),
            Term::MultivariateLogProb(a, b, c) => Term::MultivariateLogProb(
                Box::new(a.copy()),
                Box::new(b.copy()),
                Box::new(c.copy()),
            ),
        }
    }

    /// A function of this expression.
    pub fn apply(&self, op: UnaryOp) -> (r: Term)
        ensures
            r == self.unary(op),
    {
        Term::Unary(op, Box::new(self.copy()))
    }

    /// A function of this expression and another.
    pub fn with(&self, op: BinaryOp, other: &Term) -> (r: Term)
        ensures
            r == self.binary(op, *other),
    {
        Term::Binary(op, Box::new(self.copy()), Box::new(other.copy()))
    }

    /// One expression where this one holds, else another.
    pub fn choose_between(&self, yes: &Term, no: &Term) -> (r: Term)
        ensures
            r == self.select(*yes, *no),
    {
        Term::Select(Box::new(self.copy()), Box::new(yes.copy()), Box::new(no.copy()))
    }

    /// A part along the last axis.
    pub fn part(&self, from: usize, to: usize) -> (r: Term)
        ensures
            r == self.slice(from, to),
    {
        Term::Slice(Box::new(self.copy()), from, to)
    }
}

} // verus!
