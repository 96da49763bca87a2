//! Arrays of numbers with a shape.

use vstd::prelude::*;

#[allow(unused_imports)]
use crate::artifact::cells;
use crate::data::{copy_numbers, copy_shape};
#[allow(unused_imports)]
use crate::data::number_views;
use crate::number::Number;
#[allow(unused_imports)]
use crate::number::NumberModel;

verus! {

/// Numbers in row-major order with their shape.
#[derive(Debug)]
pub struct Tensor {
    pub shape: Vec<usize>,
    pub values: Vec<Number>,
}

/// The mathematical content of a [`Tensor`].
#[verifier::ext_equal]
pub struct TensorModel {
    pub shape: Seq<usize>,
    pub values: Seq<NumberModel>,
}

impl View for Tensor {
    type V = TensorModel;

    open spec fn view(&self) -> TensorModel {
        TensorModel { shape: self.shape@, values: number_views(self.values@) }
    }
}

/// As many values as the shape has cells.
pub open spec fn full(t: TensorModel) -> bool {
    t.values.len() == cells(t.shape)
}

/// The view of an optional tensor.
pub open spec fn optional_tensor(t: Option<Tensor>) -> Option<TensorModel> {
    match t {
        Some(found) => Some(found@),
        None => None,
    }
}

impl Tensor {
    /// A single number.
    pub fn scalar(value: Number) -> (r: Tensor)
        ensures
            r@ == (TensorModel { shape: Seq::empty(), values: seq![value@] }),
            full(r@),
    {
        let shape: Vec<usize> = Vec::new();
        let ghost content = value@;
        let values: Vec<Number> = vec![value];
        assert(number_views(values@) =~= seq![content]);
        Tensor { shape, values }
    }

    pub fn copy(&self) -> (r: Tensor)
        ensures
            r@ == self@,
    {
        Tensor { shape: copy_shape(&self.shape), values: copy_numbers(&self.values) }
    }
}

} // verus!
