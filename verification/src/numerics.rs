//! The arithmetic that a host provides: operations on tensors, and draws from scalar families.

use vstd::prelude::*;

#[allow(unused_imports)]
use crate::data::number_views;
use crate::error::Error;
#[allow(unused_imports)]
use crate::error::{outcome, Fault};
use crate::ir::{BinOpKind, UnaryFn};
#[allow(unused_imports)]
use crate::investigation::ledger::views;
#[allow(unused_imports)]
use crate::model::shape_outcome;
use crate::number::Number;
#[allow(unused_imports)]
use crate::number::NumberModel;
use crate::tensor::Tensor;
#[allow(unused_imports)]
use crate::tensor::{full, TensorModel};

verus! {

/// One part of an index.
#[derive(Debug)]
pub enum IndexAtom {
    Full,
    Scalar(i64),
    Array { shape: Vec<usize>, values: Vec<i64> },
}

/// The mathematical content of an [`IndexAtom`].
#[verifier::ext_equal]
pub enum AtomModel {
    Full,
    Scalar(i64),
    Array { shape: Seq<usize>, values: Seq<i64> },
}

impl View for IndexAtom {
    type V = AtomModel;

    open spec fn view(&self) -> AtomModel {
        match *self {
            IndexAtom::Full => AtomModel::Full,
            IndexAtom::Scalar(i) => AtomModel::Scalar(i),
            IndexAtom::Array { shape, values } => AtomModel::Array {
                shape: shape@,
                values: values@,
            },
        }
    }
}

/// Whether a result is no tensor or a full one.
pub open spec fn full_or_failed(r: Result<TensorModel, Fault>) -> bool {
    r is Ok ==> full(r->Ok_0)
}

/// Operations on tensors. What they can come to is a relation between contents.
pub trait Arithmetic {
    /// Whether every operation can be called, and gives full tensors only.
    spec fn reliable(&self) -> bool;

    spec fn binary_gives(
        &self,
        op: BinOpKind,
        left: TensorModel,
        right: TensorModel,
        out: Result<TensorModel, Fault>,
    ) -> bool;

    spec fn unary_gives(&self, function: UnaryFn, operand: TensorModel, out: TensorModel) -> bool;

    spec fn product_gives(
        &self,
        matrix: TensorModel,
        vector: TensorModel,
        out: Result<TensorModel, Fault>,
    ) -> bool;

    spec fn gather_gives(
        &self,
        base: TensorModel,
        atoms: Seq<AtomModel>,
        out: Result<TensorModel, Fault>,
    ) -> bool;

    spec fn joint_gives(
        &self,
        left: Seq<usize>,
        right: Seq<usize>,
        out: Result<Seq<usize>, Fault>,
    ) -> bool;

    spec fn spread_gives(
        &self,
        tensor: TensorModel,
        shape: Seq<usize>,
        out: Result<TensorModel, Fault>,
    ) -> bool;

    /// An operation entry by entry, with broadcasting.
    fn binary(&self, op: BinOpKind, left: &Tensor, right: &Tensor) -> (r: Result<Tensor, Error>)
        requires
            self.reliable(),
        ensures
            self.binary_gives(op, left@, right@, outcome(r)),
            full_or_failed(outcome(r)),
    ;

    /// A function entry by entry.
    fn unary(&self, function: UnaryFn, operand: &Tensor) -> (r: Tensor)
        requires
            self.reliable(),
        ensures
            self.unary_gives(function, operand@, r@),
            full(r@),
    ;

    /// The product of a matrix and a vector.
    fn product(&self, matrix: &Tensor, vector: &Tensor) -> (r: Result<Tensor, Error>)
        requires
            self.reliable(),
        ensures
            self.product_gives(matrix@, vector@, outcome(r)),
            full_or_failed(outcome(r)),
    ;

    /// The entries that an index picks.
    fn gather(&self, base: &Tensor, atoms: &Vec<IndexAtom>) -> (r: Result<Tensor, Error>)
        requires
            self.reliable(),
        ensures
            self.gather_gives(base@, views(atoms@), outcome(r)),
            full_or_failed(outcome(r)),
    ;

    /// The shape that two shapes broadcast to.
    fn joint(&self, left: &Vec<usize>, right: &Vec<usize>) -> (r: Result<Vec<usize>, Error>)
        requires
            self.reliable(),
        ensures
            self.joint_gives(left@, right@, shape_outcome(r)),
    ;

    /// A tensor broadcast to a shape.
    fn spread(&self, tensor: &Tensor, shape: &Vec<usize>) -> (r: Result<Tensor, Error>)
        requires
            self.reliable(),
        ensures
            self.spread_gives(tensor@, shape@, outcome(r)),
            full_or_failed(outcome(r)),
            r is Ok ==> r->Ok_0@.shape == shape@,
    ;
}

/// Tensor operations that are handed in one by one.
pub struct TensorOps<A, U, P, G, J, S> {
    pub binary: A,
    pub unary: U,
    pub product: P,
    pub gather: G,
    pub joint: J,
    pub spread: S,
}

impl<
    A: Fn(BinOpKind, &Tensor, &Tensor) -> Result<Tensor, Error>,
    U: Fn(UnaryFn, &Tensor) -> Tensor,
    P: Fn(&Tensor, &Tensor) -> Result<Tensor, Error>,
    G: Fn(&Tensor, &Vec<IndexAtom>) -> Result<Tensor, Error>,
    J: Fn(&Vec<usize>, &Vec<usize>) -> Result<Vec<usize>, Error>,
    S: Fn(&Tensor, &Vec<usize>) -> Result<Tensor, Error>,
> Arithmetic for TensorOps<A, U, P, G, J, S> {
    open spec fn reliable(&self) -> bool {
        &&& forall|op: BinOpKind, a: &Tensor, b: &Tensor| #[trigger]
            call_requires(self.binary, (op, a, b))
        &&& forall|op: BinOpKind, a: &Tensor, b: &Tensor, r: Result<Tensor, Error>| #[trigger]
            call_ensures(self.binary, (op, a, b), r) ==> full_or_failed(outcome(r))
        &&& forall|f: UnaryFn, a: &Tensor| #[trigger] call_requires(self.unary, (f, a))
        &&& forall|f: UnaryFn, a: &Tensor, r: Tensor| #[trigger]
            call_ensures(self.unary, (f, a), r) ==> full(r@)
        &&& forall|a: &Tensor, b: &Tensor| #[trigger] call_requires(self.product, (a, b))
        &&& forall|a: &Tensor, b: &Tensor, r: Result<Tensor, Error>| #[trigger]
            call_ensures(self.product, (a, b), r) ==> full_or_failed(outcome(r))
        &&& forall|a: &Tensor, atoms: &Vec<IndexAtom>| #[trigger]
            call_requires(self.gather, (a, atoms))
        &&& forall|a: &Tensor, atoms: &Vec<IndexAtom>, r: Result<Tensor, Error>| #[trigger]
            call_ensures(self.gather, (a, atoms), r) ==> full_or_failed(outcome(r))
        &&& forall|a: &Vec<usize>, b: &Vec<usize>| #[trigger] call_requires(self.joint, (a, b))
        &&& forall|a: &Tensor, shape: &Vec<usize>| #[trigger]
            call_requires(self.spread, (a, shape))
        &&& forall|a: &Tensor, shape: &Vec<usize>, r: Result<Tensor, Error>| #[trigger]
            call_ensures(self.spread, (a, shape), r) ==> full_or_failed(outcome(r)) && (r is Ok
                ==> r->Ok_0@.shape == shape@)
    }

    open spec fn binary_gives(
        &self,
        op: BinOpKind,
        left: TensorModel,
        right: TensorModel,
        out: Result<TensorModel, Fault>,
    ) -> bool {
        exists|a: &Tensor, b: &Tensor, r: Result<Tensor, Error>|
            a@ == left && b@ == right && #[trigger] call_ensures(self.binary, (op, a, b), r)
                && outcome(r) == out
    }

    open spec fn unary_gives(&self, function: UnaryFn, operand: TensorModel, out: TensorModel) -> bool {
        exists|a: &Tensor, r: Tensor|
            a@ == operand && #[trigger] call_ensures(self.unary, (function, a), r) && r@ == out
    }

    open spec fn product_gives(
        &self,
        matrix: TensorModel,
        vector: TensorModel,
        out: Result<TensorModel, Fault>,
    ) -> bool {
        exists|a: &Tensor, b: &Tensor, r: Result<Tensor, Error>|
            a@ == matrix && b@ == vector && #[trigger] call_ensures(self.product, (a, b), r)
                && outcome(r) == out
    }

    open spec fn gather_gives(
        &self,
        base: TensorModel,
        atoms: Seq<AtomModel>,
        out: Result<TensorModel, Fault>,
    ) -> bool {
        exists|a: &Tensor, list: &Vec<IndexAtom>, r: Result<Tensor, Error>|
            a@ == base && views(list@) == atoms && #[trigger] call_ensures(
                self.gather,
                (a, list),
                r,
            ) && outcome(r) == out
    }

    open spec fn joint_gives(
        &self,
        left: Seq<usize>,
        right: Seq<usize>,
        out: Result<Seq<usize>, Fault>,
    ) -> bool {
        exists|a: &Vec<usize>, b: &Vec<usize>, r: Result<Vec<usize>, Error>|
            a@ == left && b@ == right && #[trigger] call_ensures(self.joint, (a, b), r)
                && shape_outcome(r) == out
    }

    open spec fn spread_gives(
        &self,
        tensor: TensorModel,
        shape: Seq<usize>,
        out: Result<TensorModel, Fault>,
    ) -> bool {
        exists|a: &Tensor, s: &Vec<usize>, r: Result<Tensor, Error>|
            a@ == tensor && s@ == shape && #[trigger] call_ensures(self.spread, (a, s), r)
                && outcome(r) == out
    }

    fn binary(&self, op: BinOpKind, left: &Tensor, right: &Tensor) -> (r: Result<Tensor, Error>) {
        (self.binary)(op, left, right)
    }

    fn unary(&self, function: UnaryFn, operand: &Tensor) -> (r: Tensor) {
        (self.unary)(function, operand)
    }

    fn product(&self, matrix: &Tensor, vector: &Tensor) -> (r: Result<Tensor, Error>) {
        (self.product)(matrix, vector)
    }

    fn gather(&self, base: &Tensor, atoms: &Vec<IndexAtom>) -> (r: Result<Tensor, Error>) {
        (self.gather)(base, atoms)
    }

    fn joint(&self, left: &Vec<usize>, right: &Vec<usize>) -> (r: Result<Vec<usize>, Error>) {
        (self.joint)(left, right)
    }

    fn spread(&self, tensor: &Tensor, shape: &Vec<usize>) -> (r: Result<Tensor, Error>) {
        (self.spread)(tensor, shape)
    }
}

/// A draw of one number from a family whose parameters have been checked.
#[derive(Debug)]
pub enum Draw {
    Normal { loc: Number, scale: Number },
    HalfNormal { scale: Number },
    StudentT { df: Number, loc: Number, scale: Number },
    Exponential { rate: Number },
    Uniform { low: Number, high: Number },
    Beta { alpha: Number, beta: Number },
    Bernoulli { probs: Number },
    Poisson { rate: Number },
    Binomial { total_count: Number, probs: Number },
    /// The rate of a Poisson count that is negative binomial with that mean.
    MixedRate { mean: Number, overdispersion: Number },
    TruncatedNormal { loc: Number, scale: Number, lower: Option<Number>, upper: Option<Number> },
    TruncatedExponential { rate: Number, lower: Option<Number>, upper: Option<Number> },
    /// An exponential draw behind a bound.
    ShiftedExponential { rate: Number, from: Number },
    TruncatedUniform { low: Number, high: Number, lower: Option<Number>, upper: Option<Number> },
    OrderedLogistic { eta: Number, cutpoints: Vec<Number> },
}

/// The mathematical content of a [`Draw`].
#[verifier::ext_equal]
pub enum DrawModel {
    Normal { loc: NumberModel, scale: NumberModel },
    HalfNormal { scale: NumberModel },
    StudentT { df: NumberModel, loc: NumberModel, scale: NumberModel },
    Exponential { rate: NumberModel },
    Uniform { low: NumberModel, high: NumberModel },
    Beta { alpha: NumberModel, beta: NumberModel },
    Bernoulli { probs: NumberModel },
    Poisson { rate: NumberModel },
    Binomial { total_count: NumberModel, probs: NumberModel },
    MixedRate { mean: NumberModel, overdispersion: NumberModel },
    TruncatedNormal {
        loc: NumberModel,
        scale: NumberModel,
        lower: Option<NumberModel>,
        upper: Option<NumberModel>,
    },
    TruncatedExponential {
        rate: NumberModel,
        lower: Option<NumberModel>,
        upper: Option<NumberModel>,
    },
    ShiftedExponential { rate: NumberModel, from: NumberModel },
    TruncatedUniform {
        low: NumberModel,
        high: NumberModel,
        lower: Option<NumberModel>,
        upper: Option<NumberModel>,
    },
    OrderedLogistic { eta: NumberModel, cutpoints: Seq<NumberModel> },
}

/// The view of an optional number.
pub open spec fn optional_number(n: Option<Number>) -> Option<NumberModel> {
    match n {
        Some(found) => Some(found@),
        None => None,
    }
}

impl View for Draw {
    type V = DrawModel;

    open spec fn view(&self) -> DrawModel {
        match *self {
            Draw::Normal { loc, scale } => DrawModel::Normal { loc: loc@, scale: scale@ },
            Draw::HalfNormal { scale } => DrawModel::HalfNormal { scale: scale@ },
            Draw::StudentT { df, loc, scale } => DrawModel::StudentT {
                df: df@,
                loc: loc@,
                scale: scale@,
            },
            Draw::Exponential { rate } => DrawModel::Exponential { rate: rate@ },
            Draw::Uniform { low, high } => DrawModel::Uniform { low: low@, high: high@ },
            Draw::Beta { alpha, beta } => DrawModel::Beta { alpha: alpha@, beta: beta@ },
            Draw::Bernoulli { probs } => DrawModel::Bernoulli { probs: probs@ },
            Draw::Poisson { rate } => DrawModel::Poisson { rate: rate@ },
            Draw::Binomial { total_count, probs } => DrawModel::Binomial {
                total_count: total_count@,
                probs: probs@,
            },
            Draw::MixedRate { mean, overdispersion } => DrawModel::MixedRate {
                mean: mean@,
                overdispersion: overdispersion@,
            },
            Draw::TruncatedNormal { loc, scale, lower, upper } => DrawModel::TruncatedNormal {
                loc: loc@,
                scale: scale@,
                lower: optional_number(lower),
                upper: optional_number(upper),
            },
            Draw::TruncatedExponential { rate, lower, upper } => DrawModel::TruncatedExponential {
                rate: rate@,
                lower: optional_number(lower),
                upper: optional_number(upper),
            },
            Draw::ShiftedExponential { rate, from } => DrawModel::ShiftedExponential {
                rate: rate@,
                from: from@,
            },
            Draw::TruncatedUniform { low, high, lower, upper } => DrawModel::TruncatedUniform {
                low: low@,
                high: high@,
                lower: optional_number(lower),
                upper: optional_number(upper),
            },
            Draw::OrderedLogistic { eta, cutpoints } => DrawModel::OrderedLogistic {
                eta: eta@,
                cutpoints: number_views(cutpoints@),
            },
        }
    }
}

/// The view of what a draw came to: the number and the state of the source behind it.
pub open spec fn drawn<S>(r: Result<(Number, S), Error>) -> Result<(NumberModel, S), Fault> {
    match r {
        Ok(found) => Ok((found.0@, found.1)),
        Err(error) => Err(error@),
    }
}

/// The view of what a joint draw came to.
pub open spec fn jointly_drawn<S>(r: Result<(Vec<Number>, S), Error>) -> Result<
    (Seq<NumberModel>, S),
    Fault,
> {
    match r {
        Ok(found) => Ok((number_views(found.0@), found.1)),
        Err(error) => Err(error@),
    }
}

/// A source of random numbers. Every draw takes the state of the source and hands out the next.
pub trait Randomness {
    type Source;

    /// Whether every draw can be made.
    spec fn ready(&self) -> bool;

    spec fn start_gives(&self, seed: u64, source: Self::Source) -> bool;

    spec fn draw_gives(
        &self,
        source: Self::Source,
        kind: DrawModel,
        out: Result<(NumberModel, Self::Source), Fault>,
    ) -> bool;

    spec fn standard_gives(
        &self,
        source: Self::Source,
        value: NumberModel,
        next: Self::Source,
    ) -> bool;

    spec fn step_gives(
        &self,
        value: NumberModel,
        factor: NumberModel,
        z: NumberModel,
        out: NumberModel,
    ) -> bool;

    spec fn integer_gives(&self, source: Self::Source, value: u64, next: Self::Source) -> bool;

    /// The source of a seed.
    fn start(&self, seed: u64) -> (r: Self::Source)
        requires
            self.ready(),
        ensures
            self.start_gives(seed, r),
    ;

    /// One number from a family.
    fn draw(&self, source: Self::Source, kind: &Draw) -> (r: Result<(Number, Self::Source), Error>)
        requires
            self.ready(),
        ensures
            self.draw_gives(source, kind@, drawn(r)),
    ;

    /// A standard normal number.
    fn standard(&self, source: Self::Source) -> (r: (Number, Self::Source))
        requires
            self.ready(),
        ensures
            self.standard_gives(source, r.0@, r.1),
    ;

    /// A number with the product of a factor and a drawn number added to it, each rounded.
    fn step(&self, value: &Number, factor: &Number, z: &Number) -> (r: Number)
        requires
            self.ready(),
        ensures
            self.step_gives(value@, factor@, z@, r@),
    ;

    /// The next 64 random bits.
    fn integer(&self, source: Self::Source) -> (r: (u64, Self::Source))
        requires
            self.ready(),
        ensures
            self.integer_gives(source, r.0, r.1),
    ;
}

/// Draws that are handed in one by one.
pub struct DrawOps<T, D, S, C, N> {
    pub start: T,
    pub draw: D,
    pub standard: S,
    pub step: C,
    pub integer: N,
}

impl<
    Z,
    T: Fn(u64) -> Z,
    D: Fn(Z, &Draw) -> Result<(Number, Z), Error>,
    S: Fn(Z) -> (Number, Z),
    C: Fn(&Number, &Number, &Number) -> Number,
    N: Fn(Z) -> (u64, Z),
> Randomness for DrawOps<T, D, S, C, N> {
    type Source = Z;

    open spec fn ready(&self) -> bool {
        &&& forall|seed: u64| #[trigger] call_requires(self.start, (seed,))
        &&& forall|z: Z, kind: &Draw| #[trigger] call_requires(self.draw, (z, kind))
        &&& forall|z: Z| #[trigger] call_requires(self.standard, (z,))
        &&& forall|v: &Number, f: &Number, z: &Number| #[trigger]
            call_requires(self.step, (v, f, z))
        &&& forall|z: Z| #[trigger] call_requires(self.integer, (z,))
    }

    open spec fn start_gives(&self, seed: u64, source: Z) -> bool {
        call_ensures(self.start, (seed,), source)
    }

    open spec fn draw_gives(
        &self,
        source: Z,
        kind: DrawModel,
        out: Result<(NumberModel, Z), Fault>,
    ) -> bool {
        exists|k: &Draw, r: Result<(Number, Z), Error>|
            k@ == kind && #[trigger] call_ensures(self.draw, (source, k), r) && drawn(r) == out
    }

    open spec fn standard_gives(&self, source: Z, value: NumberModel, next: Z) -> bool {
        exists|n: Number| n@ == value && #[trigger] call_ensures(self.standard, (source,), (n, next))
    }

    open spec fn step_gives(
        &self,
        value: NumberModel,
        factor: NumberModel,
        z: NumberModel,
        out: NumberModel,
    ) -> bool {
        exists|v: &Number, f: &Number, n: &Number, r: Number|
            v@ == value && f@ == factor && n@ == z && #[trigger] call_ensures(
                self.step,
                (v, f, n),
                r,
            ) && r@ == out
    }

    open spec fn integer_gives(&self, source: Z, value: u64, next: Z) -> bool {
        call_ensures(self.integer, (source,), (value, next))
    }

    fn start(&self, seed: u64) -> (r: Z) {
        (self.start)(seed)
    }

    fn draw(&self, source: Z, kind: &Draw) -> (r: Result<(Number, Z), Error>) {
        (self.draw)(source, kind)
    }

    fn standard(&self, source: Z) -> (r: (Number, Z)) {
        let r: (Number, Z) = (self.standard)(source);
        assert(call_ensures(self.standard, (source,), (r.0, r.1)));
        r
    }

    fn step(&self, value: &Number, factor: &Number, z: &Number) -> (r: Number) {
        (self.step)(value, factor, z)
    }

    fn integer(&self, source: Z) -> (r: (u64, Z)) {
        (self.integer)(source)
    }
}

} // verus!
