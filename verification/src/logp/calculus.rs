//! What the log density of a model is computed with: tensor operations, symbolic expressions, and
//! derivatives.

use vstd::prelude::*;

#[allow(unused_imports)]
use crate::bounds::optional_numbers;
#[allow(unused_imports)]
use crate::data::number_views;
use crate::error::Error;
#[allow(unused_imports)]
use crate::error::{outcome, Fault};
#[allow(unused_imports)]
use crate::investigation::ledger::views;
use crate::ir::{BinOpKind, UnaryFn};
use crate::number::Number;
#[allow(unused_imports)]
use crate::number::NumberModel;
use crate::numerics::{Arithmetic, IndexAtom};
#[allow(unused_imports)]
use crate::numerics::AtomModel;
use crate::tensor::Tensor;
#[allow(unused_imports)]
use crate::tensor::{full, TensorModel};
use crate::term::Term;
#[allow(unused_imports)]
use crate::term::UnaryOp;

use super::graph::CompiledLogp;
#[allow(unused_imports)]
use super::graph::GraphModel;

verus! {

/// What a symbolic expression is evaluated on: its inputs, and the bounds of the first.
#[derive(Debug)]
pub struct Inputs {
    pub leaves: Vec<Tensor>,
    pub lower: Option<Vec<Number>>,
    pub upper: Option<Vec<Number>>,
}

/// The mathematical content of [`Inputs`].
#[verifier::ext_equal]
pub struct InputsModel {
    pub leaves: Seq<TensorModel>,
    pub lower: Option<Seq<NumberModel>>,
    pub upper: Option<Seq<NumberModel>>,
}

impl View for Inputs {
    type V = InputsModel;

    open spec fn view(&self) -> InputsModel {
        InputsModel {
            leaves: views(self.leaves@),
            lower: optional_numbers(self.lower),
            upper: optional_numbers(self.upper),
        }
    }
}

/// A single number.
pub open spec fn scalar(t: TensorModel) -> bool {
    t.shape == Seq::<usize>::empty() && full(t)
}

/// Whether an expression adds up all entries of another.
pub open spec fn sums(term: Term) -> bool {
    term matches Term::Unary(UnaryOp::Sum, _)
}

/// Whether a result of evaluating an expression is in order: a full tensor, and a single number
/// where the expression is a sum.
pub open spec fn in_order(term: Term, r: Result<TensorModel, Fault>) -> bool {
    r is Ok ==> full(r->Ok_0) && (sums(term) ==> scalar(r->Ok_0))
}

/// One tensor for each free value, with as many entries as the free value has.
pub open spec fn sized(graph: GraphModel, slopes: Seq<TensorModel>) -> bool {
    slopes.len() == graph.slots.len() && forall|i: int|
        0 <= i < slopes.len() ==> (#[trigger] slopes[i]).values.len() == graph.slots[i].place.size
}

/// Tensor operations with symbolic expressions and derivatives.
pub trait Calculus: Arithmetic {
    /// Whether expressions can always be evaluated, and derivatives taken, with results in order.
    spec fn sound(&self) -> bool;

    spec fn term_gives(
        &self,
        term: Term,
        inputs: InputsModel,
        out: Result<TensorModel, Fault>,
    ) -> bool;

    /// Whether the derivatives of a log density at a point can be those, free value by free value.
    spec fn slopes_give(
        &self,
        graph: GraphModel,
        q: Seq<NumberModel>,
        out: Seq<TensorModel>,
    ) -> bool;

    /// The value of an expression.
    fn evaluate(&self, term: &Term, inputs: &Inputs) -> (r: Result<Tensor, Error>)
        requires
            self.sound(),
        ensures
            self.term_gives(*term, inputs@, outcome(r)),
            in_order(*term, outcome(r)),
    ;

    /// The derivatives of a log density at a point by its free values, in packing order.
    fn slopes(&self, graph: &CompiledLogp, q: &Vec<Number>) -> (r: Vec<Tensor>)
        requires
            self.sound(),
        ensures
            self.slopes_give(graph@, number_views(q@), views(r@)),
            sized(graph@, views(r@)),
    ;
}

/// Whether single numbers add up to single numbers.
pub open spec fn adds_scalars<A: Arithmetic>(ops: &A) -> bool {
    forall|a: TensorModel, b: TensorModel, out: Result<TensorModel, Fault>| #[trigger]
        ops.binary_gives(BinOpKind::Add, a, b, out) && scalar(a) && scalar(b) && out is Ok
            ==> out->Ok_0.shape == Seq::<usize>::empty()
}

/// Whether a log density can be computed with these services.
pub open spec fn usable<S: Calculus>(s: &S) -> bool {
    s.reliable() && s.sound() && adds_scalars(s)
}

/// Services that are handed in one by one.
pub struct ModelOps<T, E, G> {
    pub tensors: T,
    pub evaluate: E,
    pub slopes: G,
}

impl<T: Arithmetic, E, G> Arithmetic for ModelOps<T, E, G> {
    open spec fn reliable(&self) -> bool {
        self.tensors.reliable()
    }

    open spec fn binary_gives(
        &self,
        op: BinOpKind,
        left: TensorModel,
        right: TensorModel,
        out: Result<TensorModel, Fault>,
    ) -> bool {
        self.tensors.binary_gives(op, left, right, out)
    }

    open spec fn unary_gives(&self, function: UnaryFn, operand: TensorModel, out: TensorModel) -> bool {
        self.tensors.unary_gives(function, operand, out)
    }

    open spec fn product_gives(
        &self,
        matrix: TensorModel,
        vector: TensorModel,
        out: Result<TensorModel, Fault>,
    ) -> bool {
        self.tensors.product_gives(matrix, vector, out)
    }

    open spec fn gather_gives(
        &self,
        base: TensorModel,
        atoms: Seq<AtomModel>,
        out: Result<TensorModel, Fault>,
    ) -> bool {
        self.tensors.gather_gives(base, atoms, out)
    }

    open spec fn joint_gives(
        &self,
        left: Seq<usize>,
        right: Seq<usize>,
        out: Result<Seq<usize>, Fault>,
    ) -> bool {
        self.tensors.joint_gives(left, right, out)
    }

    open spec fn spread_gives(
        &self,
        tensor: TensorModel,
        shape: Seq<usize>,
        out: Result<TensorModel, Fault>,
    ) -> bool {
        self.tensors.spread_gives(tensor, shape, out)
    }

    fn binary(&self, op: BinOpKind, left: &Tensor, right: &Tensor) -> (r: Result<Tensor, Error>) {
        self.tensors.binary(op, left, right)
    }

    fn unary(&self, function: UnaryFn, operand: &Tensor) -> (r: Tensor) {
        self.tensors.unary(function, operand)
    }

    fn product(&self, matrix: &Tensor, vector: &Tensor) -> (r: Result<Tensor, Error>) {
        self.tensors.product(matrix, vector)
    }

    fn gather(&self, base: &Tensor, atoms: &Vec<IndexAtom>) -> (r: Result<Tensor, Error>) {
        self.tensors.gather(base, atoms)
    }

    fn joint(&self, left: &Vec<usize>, right: &Vec<usize>) -> (r: Result<Vec<usize>, Error>) {
        self.tensors.joint(left, right)
    }

    fn spread(&self, tensor: &Tensor, shape: &Vec<usize>) -> (r: Result<Tensor, Error>) {
        self.tensors.spread(tensor, shape)
    }
}

impl<
    T: Arithmetic,
    E: Fn(&Term, &Inputs) -> Result<Tensor, Error>,
    G: Fn(&CompiledLogp, &Vec<Number>) -> Vec<Tensor>,
> Calculus for ModelOps<T, E, G> {
    open spec fn sound(&self) -> bool {
        &&& forall|t: &Term, i: &Inputs| #[trigger] call_requires(self.evaluate, (t, i))
        &&& forall|t: &Term, i: &Inputs, r: Result<Tensor, Error>| #[trigger]
            call_ensures(self.evaluate, (t, i), r) ==> in_order(*t, outcome(r))
        &&& forall|c: &CompiledLogp, q: &Vec<Number>| #[trigger] call_requires(self.slopes, (c, q))
        &&& forall|c: &CompiledLogp, q: &Vec<Number>, r: Vec<Tensor>| #[trigger]
            call_ensures(self.slopes, (c, q), r) ==> sized(c@, views(r@))
    }

    open spec fn term_gives(
        &self,
        term: Term,
        inputs: InputsModel,
        out: Result<TensorModel, Fault>,
    ) -> bool {
        exists|t: &Term, i: &Inputs, r: Result<Tensor, Error>|
            *t == term && i@ == inputs && #[trigger] call_ensures(self.evaluate, (t, i), r)
                && outcome(r) == out
    }

    open spec fn slopes_give(
        &self,
        graph: GraphModel,
        q: Seq<NumberModel>,
        out: Seq<TensorModel>,
    ) -> bool {
        exists|c: &CompiledLogp, point: &Vec<Number>, r: Vec<Tensor>|
            c@ == graph && number_views(point@) == q && #[trigger] call_ensures(
                self.slopes,
                (c, point),
                r,
            ) && views(r@) == out
    }

    fn evaluate(&self, term: &Term, inputs: &Inputs) -> (r: Result<Tensor, Error>) {
        let r: Result<Tensor, Error> = (self.evaluate)(term, inputs);
        assert(call_ensures(self.evaluate, (term, inputs), r));
        r
    }

    fn slopes(&self, graph: &CompiledLogp, q: &Vec<Number>) -> (r: Vec<Tensor>) {
        let r: Vec<Tensor> = (self.slopes)(graph, q);
        assert(call_ensures(self.slopes, (graph, q), r));
        r
    }
}

} // verus!
