//! What a transition is handed: rounded arithmetic, what a log density is computed with, and
//! random numbers.

use std::marker::PhantomData;

use vstd::prelude::*;

#[allow(unused_imports)]
use crate::data::number_views;
use crate::error::Error;
#[allow(unused_imports)]
use crate::error::Fault;
use crate::logp::calculus::Calculus;
#[allow(unused_imports)]
use crate::logp::calculus::usable;
#[allow(unused_imports)]
use crate::logp::compiled::{graded_outcome, graph_grades};
use crate::logp::graph::CompiledLogp;
#[allow(unused_imports)]
use crate::logp::graph::GraphModel;
#[allow(unused_imports)]
use crate::logp::point::graph_fits;
#[allow(unused_imports)]
use crate::logp::steady::{law_density_is_a_function_of_its_point, steady_calculus};
use crate::number::Number;
#[allow(unused_imports)]
use crate::number::NumberModel;

verus! {

/// An operation on doubles that rounds. Functions of one argument leave the second aside.
#[derive(Debug, Clone, Copy, PartialEq, Eq, Structural)]
pub enum Rounded {
    Add,
    Sub,
    Mul,
    Div,
    Exp,
    Ln,
    Sqrt,
}

/// The content of a log density with its gradient.
pub open spec fn density_outcome(r: Result<(u64, Vec<u64>), Error>) -> Result<
    (u64, Seq<u64>),
    Fault,
> {
    match r {
        Ok(found) => Ok((found.0, found.1@)),
        Err(error) => Err(error@),
    }
}

/// What a transition is handed. Every service is a function of what it is given.
pub trait Dynamics {
    /// The state of the source of random numbers.
    type Source;

    /// What the log density is computed with.
    type Model: Calculus;

    /// Whether every service can be called, and gives one answer to one question.
    spec fn settled(&self) -> bool;

    spec fn calculus(&self) -> Self::Model;

    spec fn value(&self, op: Rounded, a: u64, b: u64) -> u64;

    spec fn spelled(&self, bits: u64) -> Seq<char>;

    spec fn uniform(&self, source: Self::Source) -> (u64, Self::Source);

    spec fn normal(&self, source: Self::Source) -> (u64, Self::Source);

    /// What the log density is computed with.
    fn model(&self) -> (r: &Self::Model)
        ensures
            *r == self.calculus(),
    ;

    /// The rounded result of an operation.
    fn compute(&self, op: Rounded, a: u64, b: u64) -> (r: u64)
        requires
            self.settled(),
        ensures
            r == self.value(op, a, b),
    ;

    /// How a double is spelled.
    fn spell(&self, bits: u64) -> (r: String)
        requires
            self.settled(),
        ensures
            r@ == self.spelled(bits),
    ;

    /// A number from the unit interval, and the source behind it.
    fn draw_uniform(&self, source: Self::Source) -> (r: (u64, Self::Source))
        requires
            self.settled(),
        ensures
            r == self.uniform(source),
    ;

    /// A standard normal number, and the source behind it.
    fn draw_normal(&self, source: Self::Source) -> (r: (u64, Self::Source))
        requires
            self.settled(),
        ensures
            r == self.normal(source),
    ;
}

/// A packed vector of doubles, with their spellings.
pub open spec fn spelled_out<D: Dynamics>(d: &D, q: Seq<u64>) -> Seq<NumberModel> {
    Seq::new(q.len(), |i: int| NumberModel { bits: q[i], text: d.spelled(q[i]) })
}

/// The doubles among numbers.
pub open spec fn bits_of(numbers: Seq<NumberModel>) -> Seq<u64> {
    Seq::new(numbers.len(), |i: int| numbers[i].bits)
}

/// A log density with its gradient, as doubles.
pub open spec fn graded_bits(r: Result<(NumberModel, Seq<NumberModel>), Fault>) -> Result<
    (u64, Seq<u64>),
    Fault,
> {
    match r {
        Err(fault) => Err(fault),
        Ok((value, gradient)) => Ok((value.bits, bits_of(gradient))),
    }
}

/// What a log density with its gradient comes to at a point.
pub open spec fn graded<D: Dynamics>(d: &D, graph: GraphModel, q: Seq<u64>) -> Result<
    (NumberModel, Seq<NumberModel>),
    Fault,
> {
    choose|r: Result<(NumberModel, Seq<NumberModel>), Fault>|
        graph_grades(&d.calculus(), graph, spelled_out(d, q), r)
}

/// What a log density with its gradient comes to at a point, as doubles.
pub open spec fn density<D: Dynamics>(d: &D, graph: GraphModel, q: Seq<u64>) -> Result<
    (u64, Seq<u64>),
    Fault,
> {
    graded_bits(graded(d, graph, q))
}

/// Whether every question has one answer.
pub open spec fn decided<D: Dynamics>(d: &D) -> bool {
    d.settled() && usable(&d.calculus()) && steady_calculus(&d.calculus())
}

/// The log density at a point, with its gradient.
pub fn log_density<D: Dynamics>(d: &D, logp: &CompiledLogp, q: &Vec<u64>) -> (r: Result<
    (u64, Vec<u64>),
    Error,
>)
    requires
        decided(d),
        graph_fits(logp@),
    ensures
        density_outcome(r) == density(d, logp@, q@),
        r is Ok ==> r->Ok_0.1@.len() == logp.n_params,
{
    let mut point: Vec<Number> = Vec::new();
    let mut i: usize = 0;
    while i < q.len()
        invariant
            i <= q.len(),
            d.settled(),
            point.len() == i,
            forall|k: int|
                0 <= k < i ==> (#[trigger] point@[k])@ == (NumberModel {
                    bits: q@[k],
                    text: d.spelled(q@[k]),
                }),
        decreases q.len() - i,
    {
        point.push(Number { bits: q[i], text: d.spell(q[i]) });
        i += 1;
    }
    assert(number_views(point@) =~= spelled_out(d, q@));
    let found: Result<(Number, Vec<Number>), Error> = logp.logp_grad(d.model(), &point);
    assert(graph_grades(&d.calculus(), logp@, spelled_out(d, q@), graded_outcome(found)));
    proof {
        law_density_is_a_function_of_its_point(
            &d.calculus(),
            logp@,
            spelled_out(d, q@),
            graded(d, logp@, q@),
            graded_outcome(found),
        );
    }
    match found {
        Err(error) => Err(error),
        Ok((value, gradient)) => {
            let mut out: Vec<u64> = Vec::new();
            let ghost numbers = number_views(gradient@);
            let mut k: usize = 0;
            while k < gradient.len()
                invariant
                    k <= gradient.len(),
                    numbers == number_views(gradient@),
                    out.len() == k,
                    forall|j: int| 0 <= j < k ==> out@[j] == numbers[j].bits,
                decreases gradient.len() - k,
            {
                assert(numbers[k as int] == gradient@[k as int]@);
                out.push(gradient[k].bits);
                k += 1;
            }
            assert(out@ =~= bits_of(numbers));
            Ok((value.bits, out))
        },
    }
}

/// Services that are handed in one by one.
pub struct DynamicsOps<Z, M, C, T, U, N> {
    pub model: M,
    pub compute: C,
    pub spell: T,
    pub uniform: U,
    pub normal: N,
    pub source: PhantomData<Z>,
}

impl<
    Z,
    M: Calculus,
    C: Fn(Rounded, u64, u64) -> u64,
    T: Fn(u64) -> String,
    U: Fn(Z) -> (u64, Z),
    N: Fn(Z) -> (u64, Z),
> Dynamics for DynamicsOps<Z, M, C, T, U, N> {
    type Source = Z;

    type Model = M;

    open spec fn settled(&self) -> bool {
        &&& forall|op: Rounded, a: u64, b: u64| #[trigger] call_requires(self.compute, (op, a, b))
        &&& forall|op: Rounded, a: u64, b: u64, x: u64, y: u64|
            #![trigger call_ensures(self.compute, (op, a, b), x), call_ensures(self.compute, (op, a, b), y)]
            call_ensures(self.compute, (op, a, b), x) && call_ensures(self.compute, (op, a, b), y)
                ==> x == y
        &&& forall|bits: u64| #[trigger] call_requires(self.spell, (bits,))
        &&& forall|bits: u64, x: String, y: String|
            #![trigger call_ensures(self.spell, (bits,), x), call_ensures(self.spell, (bits,), y)]
            call_ensures(self.spell, (bits,), x) && call_ensures(self.spell, (bits,), y) ==> x@
                == y@
        &&& forall|z: Z| #[trigger] call_requires(self.uniform, (z,))
        &&& forall|z: Z, x: (u64, Z), y: (u64, Z)|
            #![trigger call_ensures(self.uniform, (z,), x), call_ensures(self.uniform, (z,), y)]
            call_ensures(self.uniform, (z,), x) && call_ensures(self.uniform, (z,), y) ==> x == y
        &&& forall|z: Z| #[trigger] call_requires(self.normal, (z,))
        &&& forall|z: Z, x: (u64, Z), y: (u64, Z)|
            #![trigger call_ensures(self.normal, (z,), x), call_ensures(self.normal, (z,), y)]
            call_ensures(self.normal, (z,), x) && call_ensures(self.normal, (z,), y) ==> x == y
    }

    open spec fn calculus(&self) -> M {
        self.model
    }

    open spec fn value(&self, op: Rounded, a: u64, b: u64) -> u64 {
        choose|r: u64| call_ensures(self.compute, (op, a, b), r)
    }

    open spec fn spelled(&self, bits: u64) -> Seq<char> {
        (choose|r: String| call_ensures(self.spell, (bits,), r))@
    }

    open spec fn uniform(&self, source: Z) -> (u64, Z) {
        choose|r: (u64, Z)| call_ensures(self.uniform, (source,), r)
    }

    open spec fn normal(&self, source: Z) -> (u64, Z) {
        choose|r: (u64, Z)| call_ensures(self.normal, (source,), r)
    }

    fn model(&self) -> (r: &M) {
        &self.model
    }

    fn compute(&self, op: Rounded, a: u64, b: u64) -> (r: u64) {
        (self.compute)(op, a, b)
    }

    fn spell(&self, bits: u64) -> (r: String) {
        (self.spell)(bits)
    }

    fn draw_uniform(&self, source: Z) -> (r: (u64, Z)) {
        (self.uniform)(source)
    }

    fn draw_normal(&self, source: Z) -> (r: (u64, Z)) {
        (self.normal)(source)
    }
}

} // verus!
