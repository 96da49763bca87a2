//! Constraints of free values, with vector bounds resolved against data and base supports.

use vstd::prelude::*;

use crate::ancestral::{collect_expr_refs, ValueRef};
#[allow(unused_imports)]
use crate::ancestral::{expr_refs, ValueModel};
#[allow(unused_imports)]
use crate::artifact::cells;
use crate::data::{copy_numbers, DataValue};
#[allow(unused_imports)]
use crate::data::{data_views, number_views, numbers_outcome, DataModel};
use crate::error::{malformed, shape_mismatch, Error};
#[allow(unused_imports)]
use crate::error::{malformed_fault, outcome, shape_fault, Fault};
use crate::ir::{Constraint, Distribution, Expr, ResolvedStochasticSite};
#[allow(unused_imports)]
use crate::ir::{
    list_views, optional_constraint, optional_name, ConstraintModel, DistModel, ExprModel, SiteModel,
};
use crate::model::{checked, find_data};
#[allow(unused_imports)]
use crate::model::{all_filled, data_named, lemma_named_filled};
use crate::number::{less_than, whole_number, Number};
#[allow(unused_imports)]
use crate::number::{
    clamped, finite, integer_value, integral, less, nan, message_text, number_of_integer, order_key, NumberModel,
};
use crate::tensor::Tensor;
#[allow(unused_imports)]
use crate::tensor::{full, optional_tensor, TensorModel};
use crate::text;
#[allow(unused_imports)]
use crate::text::{debug_text, decimal_text, integer_text, numbers_text};

verus! {

/// A constraint with its bounds read from data.
#[derive(Debug)]
pub enum ResolvedConstraint {
    Positive,
    Interval { lower: Number, upper: Number },
    UnitInterval,
    Ordered,
    VectorBounds { lower: Option<Vec<Number>>, upper: Option<Vec<Number>> },
}

/// The mathematical content of a [`ResolvedConstraint`].
#[verifier::ext_equal]
pub enum ResolvedModel {
    Positive,
    Interval { lower: NumberModel, upper: NumberModel },
    UnitInterval,
    Ordered,
    VectorBounds { lower: Option<Seq<NumberModel>>, upper: Option<Seq<NumberModel>> },
}

/// The view of an optional list of numbers.
pub open spec fn optional_numbers(s: Option<Vec<Number>>) -> Option<Seq<NumberModel>> {
    match s {
        Some(found) => Some(number_views(found@)),
        None => None,
    }
}

impl View for ResolvedConstraint {
    type V = ResolvedModel;

    open spec fn view(&self) -> ResolvedModel {
        match *self {
            ResolvedConstraint::Positive => ResolvedModel::Positive,
            ResolvedConstraint::Interval { lower, upper } => ResolvedModel::Interval {
                lower: lower@,
                upper: upper@,
            },
            ResolvedConstraint::UnitInterval => ResolvedModel::UnitInterval,
            ResolvedConstraint::Ordered => ResolvedModel::Ordered,
            ResolvedConstraint::VectorBounds { lower, upper } => ResolvedModel::VectorBounds {
                lower: optional_numbers(lower),
                upper: optional_numbers(upper),
            },
        }
    }
}

/// The edges of the support of the distribution that a free value follows.
#[derive(Debug)]
pub struct VectorSupportEdges {
    pub lower: Option<Vec<Number>>,
    pub upper: Option<Vec<Number>>,
}

/// The mathematical content of a [`VectorSupportEdges`].
#[verifier::ext_equal]
pub struct EdgesModel {
    pub lower: Option<Seq<NumberModel>>,
    pub upper: Option<Seq<NumberModel>>,
}

impl View for VectorSupportEdges {
    type V = EdgesModel;

    open spec fn view(&self) -> EdgesModel {
        EdgesModel { lower: optional_numbers(self.lower), upper: optional_numbers(self.upper) }
    }
}

/// Whether an expression refers to a free value.
pub open spec fn mentions(e: ExprModel, name: Seq<char>) -> bool {
    expr_refs(e).contains(ValueModel::Param(name))
}

pub fn expr_references_free_value(expr: &Expr, free_name: &str) -> (r: bool)
    ensures
        r == mentions(expr@, free_name@),
{
    let mut refs: Vec<ValueRef> = Vec::new();
    collect_expr_refs(expr, &mut refs);
    assert(list_views(refs@) =~= expr_refs(expr@));
    let wanted: ValueRef = ValueRef::param(free_name);
    let mut i: usize = 0;
    while i < refs.len()
        invariant
            i <= refs.len(),
            wanted@ == ValueModel::Param(free_name@),
            list_views(refs@) == expr_refs(expr@),
            forall|j: int| 0 <= j < i ==> list_views(refs@)[j] != wanted@,
        decreases refs.len() - i,
    {
        if refs[i].same(&wanted) {
            assert(list_views(refs@)[i as int] == wanted@);
            return true;
        }
        i += 1;
    }
    false
}

/// The beginning of every message about vector bounds.
pub open spec fn about_bounds(name: Seq<char>) -> Seq<char> {
    "VectorBounds for free value "@ + debug_text(name)
}

fn bounds_error(free_name: &str, rest: &str) -> (r: Error)
    ensures
        r@ == shape_fault(about_bounds(free_name@) + rest@),
{
    let shown: String = text::quoted(free_name);
    shape_mismatch(text::cat3("VectorBounds for free value ", shown.as_str(), rest))
}

/// Whether every number is finite.
pub open spec fn all_finite(s: Seq<NumberModel>) -> bool {
    forall|i: int| 0 <= i < s.len() ==> finite((#[trigger] s[i]).bits)
}

/// The bound that a side reads from data.
pub open spec fn bound_side(
    free_name: Seq<char>,
    side: Seq<char>,
    data_name: Option<Seq<char>>,
    data: Seq<(Seq<char>, DataModel)>,
    length: usize,
) -> Result<Option<Seq<NumberModel>>, Fault> {
    match data_name {
        None => Ok(None),
        Some(name) => match data_named(data, name) {
            None => Err(
                shape_fault(
                    about_bounds(free_name) + (" reference missing "@ + side + " data "@ + debug_text(
                        name,
                    )),
                ),
            ),
            Some(value) => if value.shape.len() != 1 {
                Err(
                    shape_fault(
                        about_bounds(free_name) + (" "@ + side + " data "@ + debug_text(name)
                            + " must be a rank-1 vector"@),
                    ),
                )
            } else if value.shape[0] != length {
                Err(
                    shape_fault(
                        about_bounds(free_name) + (" "@ + side + " data "@ + debug_text(name)
                            + " has wrong length: expected "@ + decimal_text(length as nat)
                            + ", got "@ + decimal_text(value.shape[0] as nat)),
                    ),
                )
            } else if !all_finite(value.values) {
                Err(
                    shape_fault(
                        about_bounds(free_name) + (" "@ + side + " data "@ + debug_text(name)
                            + " must contain only finite values"@),
                    ),
                )
            } else {
                Ok(Some(value.values))
            },
        },
    }
}

/// The view of a result that may carry numbers.
pub open spec fn optional_numbers_outcome(r: Result<Option<Vec<Number>>, Error>) -> Result<
    Option<Seq<NumberModel>>,
    Fault,
> {
    match r {
        Ok(found) => Ok(optional_numbers(found)),
        Err(error) => Err(error@),
    }
}

fn finite_values(values: &Vec<Number>) -> (r: bool)
    ensures
        r == all_finite(number_views(values@)),
{
    let mut i: usize = 0;
    while i < values.len()
        invariant
            i <= values.len(),
            forall|j: int| 0 <= j < i ==> finite((#[trigger] number_views(values@)[j]).bits),
        decreases values.len() - i,
    {
        assert(number_views(values@)[i as int] == values@[i as int]@);
        if !values[i].is_finite() {
            return false;
        }
        i += 1;
    }
    true
}

pub fn resolve_vector_bound_side(
    free_name: &str,
    side_name: &str,
    data_name: &Option<String>,
    data: &Vec<(String, DataValue)>,
    expected_length: usize,
) -> (r: Result<Option<Vec<Number>>, Error>)
    ensures
        optional_numbers_outcome(r) == bound_side(
            free_name@,
            side_name@,
            optional_name(*data_name),
            data_views(data@),
            expected_length,
        ),
{
    match data_name {
        None => Ok(None),
        Some(name) => {
            let shown: String = text::quoted(name.as_str());
            match find_data(data, name.as_str()) {
                None => Err(
                    bounds_error(
                        free_name,
                        text::cat4(
                            " reference missing ",
                            side_name,
                            " data ",
                            shown.as_str(),
                        ).as_str(),
                    ),
                ),
                Some(value) => {
                    if value.shape.len() != 1 {
                        return Err(
                            bounds_error(
                                free_name,
                                text::cat5(
                                    " ",
                                    side_name,
                                    " data ",
                                    shown.as_str(),
                                    " must be a rank-1 vector",
                                ).as_str(),
                            ),
                        );
                    }
                    if value.shape[0] != expected_length {
                        let wanted: String = text::decimal(expected_length as u64);
                        let have: String = text::decimal(value.shape[0] as u64);
                        let head: String = text::cat5(
                            " ",
                            side_name,
                            " data ",
                            shown.as_str(),
                            " has wrong length: expected ",
                        );
                        return Err(
                            bounds_error(
                                free_name,
                                text::cat4(
                                    head.as_str(),
                                    wanted.as_str(),
                                    ", got ",
                                    have.as_str(),
                                ).as_str(),
                            ),
                        );
                    }
                    if !finite_values(&value.values) {
                        return Err(
                            bounds_error(
                                free_name,
                                text::cat5(
                                    " ",
                                    side_name,
                                    " data ",
                                    shown.as_str(),
                                    " must contain only finite values",
                                ).as_str(),
                            ),
                        );
                    }
                    Ok(Some(copy_numbers(&value.values)))
                },
            }
        },
    }
}

/// Integers read from numbers; `complaint` is the message before the first that is none.
pub open spec fn read_integers(values: Seq<NumberModel>, complaint: Seq<char>) -> Result<
    Seq<i64>,
    Fault,
>
    decreases values.len(),
{
    if values.len() == 0 {
        Ok(Seq::empty())
    } else {
        match read_integers(values.drop_last(), complaint) {
            Err(fault) => Err(fault),
            Ok(before) => if !integral(values.last().bits) {
                Err(shape_fault(complaint + message_text(values.last())))
            } else {
                Ok(before.push(clamped(integer_value(values.last().bits))))
            },
        }
    }
}

proof fn lemma_read_integers_fail(values: Seq<NumberModel>, complaint: Seq<char>, n: int)
    requires
        0 <= n <= values.len(),
        read_integers(values.take(n), complaint) is Err,
    ensures
        read_integers(values, complaint) == read_integers(values.take(n), complaint),
    decreases values.len(),
{
    if n < values.len() {
        assert(values.drop_last().take(n) =~= values.take(n));
        lemma_read_integers_fail(values.drop_last(), complaint, n);
    } else {
        assert(values.take(n) =~= values);
    }
}

/// The view of a result that carries integers.
pub open spec fn integers_outcome(r: Result<Vec<i64>, Error>) -> Result<Seq<i64>, Fault> {
    match r {
        Ok(list) => Ok(list@),
        Err(error) => Err(error@),
    }
}

/// Reads numbers as integers.
pub fn integers_of(values: &Vec<Number>, complaint: &str) -> (r: Result<Vec<i64>, Error>)
    ensures
        integers_outcome(r) == read_integers(number_views(values@), complaint@),
{
    let ghost all = number_views(values@);
    let mut out: Vec<i64> = Vec::new();
    let mut i: usize = 0;
    while i < values.len()
        invariant
            i <= values.len(),
            all == number_views(values@),
            read_integers(all.take(i as int), complaint@) == Ok::<Seq<i64>, Fault>(out@),
        decreases values.len() - i,
    {
        proof {
            let done = all.take(i + 1);
            assert(done.drop_last() =~= all.take(i as int));
            assert(done.last() == values@[i as int]@);
        }
        match whole_number(values[i].bits) {
            None => {
                proof {
                    lemma_read_integers_fail(all, complaint@, i + 1);
                }
                return Err(
                    shape_mismatch(text::cat2(complaint, values[i].shown().as_str())),
                );
            },
            Some(whole) => {
                out.push(whole.nearest);
            },
        }
        i += 1;
    }
    assert(all.take(i as int) =~= all);
    Ok(out)
}

/// The missing positions of a scatter, from what its index expression came to.
pub open spec fn missing_positions(index: Option<TensorModel>) -> Result<Seq<i64>, Fault> {
    match index {
        None => Err(
            malformed_fault(
                "VectorBounds support/index expressions must depend only on data or constants"@,
            ),
        ),
        Some(t) => if t.shape.len() != 1 {
            Err(
                shape_fault(
                    "VectorBounds scatter missing_idx must be rank-1, got shape "@ + numbers_text(
                        t.shape,
                    ),
                ),
            )
        } else {
            read_integers(
                t.values,
                "VectorBounds scatter missing_idx values must be integers, got "@,
            )
        },
    }
}

pub fn scatter_positions(index: Option<Tensor>) -> (r: Result<Vec<i64>, Error>)
    ensures
        integers_outcome(r) == missing_positions(optional_tensor(index)),
{
    match index {
        None => Err(
            malformed(
                "VectorBounds support/index expressions must depend only on data or constants".to_owned(),
            ),
        ),
        Some(t) => {
            if t.shape.len() != 1 {
                let shown: String = text::numbers(t.shape.as_slice());
                return Err(
                    shape_mismatch(
                        text::cat2(
                            "VectorBounds scatter missing_idx must be rank-1, got shape ",
                            shown.as_str(),
                        ),
                    ),
                );
            }
            integers_of(
                &t.values,
                "VectorBounds scatter missing_idx values must be integers, got ",
            )
        },
    }
}

/// The entries of a vector at given positions.
pub open spec fn aligned(values: Seq<NumberModel>, positions: Seq<i64>) -> Result<
    Seq<NumberModel>,
    Fault,
>
    decreases positions.len(),
{
    if positions.len() == 0 {
        Ok(Seq::empty())
    } else {
        match aligned(values, positions.drop_last()) {
            Err(fault) => Err(fault),
            Ok(before) => if positions.last() < 0 || positions.last() as usize >= values.len() {
                Err(
                    shape_fault(
                        "VectorBounds scatter missing_idx "@ + integer_text(positions.last() as int)
                            + " is out of bounds for Uniform support length "@ + decimal_text(
                            values.len(),
                        ),
                    ),
                )
            } else {
                Ok(before.push(values[positions.last() as usize as int]))
            },
        }
    }
}

proof fn lemma_aligned_fails(values: Seq<NumberModel>, positions: Seq<i64>, n: int)
    requires
        0 <= n <= positions.len(),
        aligned(values, positions.take(n)) is Err,
    ensures
        aligned(values, positions) == aligned(values, positions.take(n)),
    decreases positions.len(),
{
    if n < positions.len() {
        assert(positions.drop_last().take(n) =~= positions.take(n));
        lemma_aligned_fails(values, positions.drop_last(), n);
    } else {
        assert(positions.take(n) =~= positions);
    }
}

fn align(values: &Vec<Number>, positions: &Vec<i64>) -> (r: Result<Vec<Number>, Error>)
    ensures
        numbers_outcome(r) == aligned(number_views(values@), positions@),
{
    let ghost all = number_views(values@);
    let mut out: Vec<Number> = Vec::new();
    assert(number_views(out@) =~= Seq::empty());
    let mut i: usize = 0;
    while i < positions.len()
        invariant
            i <= positions.len(),
            all == number_views(values@),
            aligned(all, positions@.take(i as int)) == Ok::<Seq<NumberModel>, Fault>(
                number_views(out@),
            ),
        decreases positions.len() - i,
    {
        let index: i64 = positions[i];
        proof {
            let done = positions@.take(i + 1);
            assert(done.drop_last() =~= positions@.take(i as int));
            assert(done.last() == index);
        }
        if index < 0 || index as usize >= values.len() {
            proof {
                lemma_aligned_fails(all, positions@, i + 1);
            }
            let place: String = text::integer(index);
            let length: String = text::decimal(values.len() as u64);
            return Err(
                shape_mismatch(
                    text::cat4(
                        "VectorBounds scatter missing_idx ",
                        place.as_str(),
                        " is out of bounds for Uniform support length ",
                        length.as_str(),
                    ),
                ),
            );
        }
        let ghost before = out@;
        let entry: Number = values[index as usize].copy();
        out.push(entry);
        assert(number_views(out@) =~= number_views(before).push(entry@));
        i += 1;
    }
    assert(positions@.take(i as int) =~= positions@);
    Ok(out)
}

/// The same number in every place.
pub open spec fn repeated(n: NumberModel, length: nat) -> Seq<NumberModel> {
    Seq::new(length, |i: int| n)
}

pub fn repeat(n: &Number, length: usize) -> (r: Vec<Number>)
    ensures
        number_views(r@) == repeated(n@, length as nat),
{
    let mut out: Vec<Number> = Vec::new();
    let mut i: usize = 0;
    while i < length
        invariant
            i <= length,
            out.len() == i,
            forall|j: int| 0 <= j < i ==> (#[trigger] out@[j])@ == n@,
        decreases length - i,
    {
        out.push(n.copy());
        i += 1;
    }
    assert(number_views(out@) =~= repeated(n@, length as nat));
    out
}

pub open spec fn wrong_support_shape(length: usize, shape: Seq<usize>) -> Fault {
    shape_fault(
        "Uniform support used by VectorBounds has wrong shape: expected "@ + numbers_text(
            seq![length],
        ) + ", got "@ + numbers_text(shape),
    )
}

/// One edge of a uniform support, from what its expression came to: one number for every
/// coordinate, or one per coordinate, picked at the missing positions of a scatter.
pub open spec fn uniform_edge(
    support: Option<TensorModel>,
    positions: Option<Seq<i64>>,
    length: usize,
) -> Result<Option<Seq<NumberModel>>, Fault> {
    match support {
        None => Ok(None),
        Some(t) => if t.shape.len() == 0 {
            Ok(Some(repeated(t.values[0], length as nat)))
        } else {
            match positions {
                Some(picked) => if t.shape.len() != 1 {
                    Err(
                        shape_fault(
                            "Uniform support used by VectorBounds must be scalar or rank-1, got shape "@
                                + numbers_text(t.shape),
                        ),
                    )
                } else {
                    match aligned(t.values, picked) {
                        Err(fault) => Err(fault),
                        Ok(values) => if values.len() != length {
                            Err(wrong_support_shape(length, seq![values.len() as usize]))
                        } else {
                            Ok(Some(values))
                        },
                    }
                },
                None => if t.shape != seq![length] {
                    Err(wrong_support_shape(length, t.shape))
                } else {
                    Ok(Some(t.values))
                },
            }
        },
    }
}

fn support_shape_error(length: usize, shape: &[usize]) -> (r: Error)
    ensures
        r@ == wrong_support_shape(length, shape@),
{
    let wanted_shape: Vec<usize> = vec![length];
    assert(wanted_shape@ =~= seq![length]);
    let wanted: String = text::numbers(wanted_shape.as_slice());
    let have: String = text::numbers(shape);
    shape_mismatch(
        text::cat4(
            "Uniform support used by VectorBounds has wrong shape: expected ",
            wanted.as_str(),
            ", got ",
            have.as_str(),
        ),
    )
}

/// The view of an optional list of positions.
pub open spec fn optional_positions(s: Option<Vec<i64>>) -> Option<Seq<i64>> {
    match s {
        Some(found) => Some(found@),
        None => None,
    }
}

pub fn uniform_support_edge(support: Option<Tensor>, missing_idx: &Option<Vec<i64>>, expected_length: usize) -> (r:
    Result<Option<Vec<Number>>, Error>)
    requires
        support is Some ==> full(support->0@),
    ensures
        optional_numbers_outcome(r) == uniform_edge(
            optional_tensor(support),
            optional_positions(*missing_idx),
            expected_length,
        ),
{
    match support {
        None => Ok(None),
        Some(t) => {
            if t.shape.len() == 0 {
                assert(t@.values.len() == 1);
                assert(t@.values[0] == t.values@[0]@);
                return Ok(Some(repeat(&t.values[0], expected_length)));
            }
            match missing_idx {
                Some(positions) => {
                    if t.shape.len() != 1 {
                        let shown: String = text::numbers(t.shape.as_slice());
                        return Err(
                            shape_mismatch(
                                text::cat2(
                                    "Uniform support used by VectorBounds must be scalar or rank-1, got shape ",
                                    shown.as_str(),
                                ),
                            ),
                        );
                    }
                    let values: Vec<Number> = align(&t.values, positions)?;
                    assert(number_views(values@).len() == values.len());
                    if values.len() != expected_length {
                        let have: Vec<usize> = vec![values.len()];
                        assert(have@ =~= seq![number_views(values@).len() as usize]);
                        return Err(support_shape_error(expected_length, have.as_slice()));
                    }
                    Ok(Some(values))
                },
                None => {
                    if t.shape.len() != 1 || t.shape[0] != expected_length {
                        assert(t.shape@ != seq![expected_length]) by {
                            if t.shape@ == seq![expected_length] {
                                assert(t.shape@.len() == 1 && t.shape@[0] == expected_length);
                            }
                        }
                        return Err(support_shape_error(expected_length, t.shape.as_slice()));
                    }
                    assert(t.shape@ =~= seq![expected_length]);
                    Ok(Some(t.values))
                },
            }
        },
    }
}

/// IEEE-754 `a >= b`.
pub open spec fn at_least(a: u64, b: u64) -> bool {
    !nan(a) && !nan(b) && order_key(a) >= order_key(b)
}

fn at_least_as(a: u64, b: u64) -> (r: bool)
    ensures
        r == at_least(a, b),
{
    let x: u64 = if a >= crate::number::SIGN_WEIGHT { a - crate::number::SIGN_WEIGHT } else { a };
    let y: u64 = if b >= crate::number::SIGN_WEIGHT { b - crate::number::SIGN_WEIGHT } else { b };
    if x > crate::number::INFINITY_BITS || y > crate::number::INFINITY_BITS {
        return false;
    }
    !less_than(a, b)
}

/// Some entry of `a` is below the entry of `b` at its place.
pub open spec fn any_below(a: Seq<NumberModel>, b: Seq<NumberModel>) -> bool {
    exists|i: int|
        0 <= i < a.len() && i < b.len() && less((#[trigger] a[i]).bits, b[i].bits)
}

/// Some entry of `a` is at or above the entry of `b` at its place.
pub open spec fn any_at_least(a: Seq<NumberModel>, b: Seq<NumberModel>) -> bool {
    exists|i: int|
        0 <= i < a.len() && i < b.len() && at_least((#[trigger] a[i]).bits, b[i].bits)
}

fn some_below(a: &Vec<Number>, b: &Vec<Number>) -> (r: bool)
    ensures
        r == any_below(number_views(a@), number_views(b@)),
{
    let mut i: usize = 0;
    while i < a.len() && i < b.len()
        invariant
            i <= a.len(),
            i <= b.len(),
            forall|j: int|
                0 <= j < i ==> !less(
                    (#[trigger] number_views(a@)[j]).bits,
                    number_views(b@)[j].bits,
                ),
        decreases a.len() - i,
    {
        assert(number_views(a@)[i as int] == a@[i as int]@);
        assert(number_views(b@)[i as int] == b@[i as int]@);
        if less_than(a[i].bits, b[i].bits) {
            return true;
        }
        i += 1;
    }
    false
}

fn some_at_least(a: &Vec<Number>, b: &Vec<Number>) -> (r: bool)
    ensures
        r == any_at_least(number_views(a@), number_views(b@)),
{
    let mut i: usize = 0;
    while i < a.len() && i < b.len()
        invariant
            i <= a.len(),
            i <= b.len(),
            forall|j: int|
                0 <= j < i ==> !at_least(
                    (#[trigger] number_views(a@)[j]).bits,
                    number_views(b@)[j].bits,
                ),
        decreases a.len() - i,
    {
        assert(number_views(a@)[i as int] == a@[i as int]@);
        assert(number_views(b@)[i as int] == b@[i as int]@);
        if at_least_as(a[i].bits, b[i].bits) {
            return true;
        }
        i += 1;
    }
    false
}

/// The view of a result that may carry a tensor.
pub open spec fn tensor_outcome(r: Result<Option<Tensor>, Error>) -> Result<Option<TensorModel>, Fault> {
    match r {
        Ok(t) => Ok(optional_tensor(t)),
        Err(error) => Err(error@),
    }
}

/// The missing positions that a free value fills in a scatter, if it fills one; `index` is what the
/// index expression of the scatter came to.
pub open spec fn filled_positions(
    value: ExprModel,
    free_name: Seq<char>,
    index: Result<Option<TensorModel>, Fault>,
) -> Result<Option<Seq<i64>>, Fault> {
    match value {
        ExprModel::VectorScatter { length: _, observed_idx: _, observed_values: _, missing_idx: _, missing_values } => if !mentions(
            *missing_values,
            free_name,
        ) {
            Ok(None)
        } else {
            match index {
                Err(fault) => Err(fault),
                Ok(t) => match missing_positions(t) {
                    Err(fault) => Err(fault),
                    Ok(positions) => Ok(Some(positions)),
                },
            }
        },
        _ => Ok(None),
    }
}

/// The view of a result that may carry positions.
pub open spec fn positions_outcome(r: Result<Option<Vec<i64>>, Error>) -> Result<
    Option<Seq<i64>>,
    Fault,
> {
    match r {
        Ok(found) => Ok(optional_positions(found)),
        Err(error) => Err(error@),
    }
}

pub fn vector_scatter_missing_idx(value: &Expr, free_name: &str, index: Result<Option<Tensor>, Error>) -> (r:
    Result<Option<Vec<i64>>, Error>)
    ensures
        positions_outcome(r) == filled_positions(value@, free_name@, tensor_outcome(index)),
{
    match value {
        Expr::VectorScatter { length: _, observed_idx: _, observed_values: _, missing_idx: _, missing_values } => {
            if !expr_references_free_value(missing_values, free_name) {
                return Ok(None);
            }
            let evaluated: Option<Tensor> = index?;
            let positions: Vec<i64> = scatter_positions(evaluated)?;
            Ok(Some(positions))
        },
        _ => Ok(None),
    }
}

/// The edges of the support of a distribution; `low` and `high` are what the bounds of a uniform
/// distribution came to.
pub open spec fn distribution_edges(
    d: DistModel,
    positions: Option<Seq<i64>>,
    low: Result<Option<TensorModel>, Fault>,
    high: Result<Option<TensorModel>, Fault>,
    length: usize,
) -> Result<EdgesModel, Fault> {
    match d {
        DistModel::Exponential { .. } | DistModel::HalfNormal { .. } => Ok(
            EdgesModel { lower: Some(repeated(number_of_integer(0), length as nat)), upper: None },
        ),
        DistModel::Beta { .. } => Ok(
            EdgesModel {
                lower: Some(repeated(number_of_integer(0), length as nat)),
                upper: Some(repeated(number_of_integer(1), length as nat)),
            },
        ),
        DistModel::Uniform { .. } => match low {
            Err(fault) => Err(fault),
            Ok(lowest) => match uniform_edge(lowest, positions, length) {
                Err(fault) => Err(fault),
                Ok(lower) => match high {
                    Err(fault) => Err(fault),
                    Ok(highest) => match uniform_edge(highest, positions, length) {
                        Err(fault) => Err(fault),
                        Ok(upper) => Ok(EdgesModel { lower, upper }),
                    },
                },
            },
        },
        _ => Ok(EdgesModel { lower: None, upper: None }),
    }
}

/// What the expressions behind a support came to.
#[derive(Debug)]
pub struct SupportValues {
    pub index: Result<Option<Tensor>, Error>,
    pub low: Result<Option<Tensor>, Error>,
    pub high: Result<Option<Tensor>, Error>,
}

/// The mathematical content of a [`SupportValues`].
#[verifier::ext_equal]
pub struct SupportModel {
    pub index: Result<Option<TensorModel>, Fault>,
    pub low: Result<Option<TensorModel>, Fault>,
    pub high: Result<Option<TensorModel>, Fault>,
}

impl View for SupportValues {
    type V = SupportModel;

    open spec fn view(&self) -> SupportModel {
        SupportModel {
            index: tensor_outcome(self.index),
            low: tensor_outcome(self.low),
            high: tensor_outcome(self.high),
        }
    }
}

/// Whether an evaluated tensor, if there is one, is full.
pub open spec fn evaluated_full(r: Result<Option<TensorModel>, Fault>) -> bool {
    r is Ok && r->Ok_0 is Some ==> full(r->Ok_0->0)
}

/// The edges of the support of the site that a free value belongs to.
pub open spec fn support_edges(site: SiteModel, free_name: Seq<char>, values: SupportModel, length: usize) -> Result<
    EdgesModel,
    Fault,
> {
    match filled_positions(site.value, free_name, values.index) {
        Err(fault) => Err(fault),
        Ok(positions) => distribution_edges(
            site.distribution,
            positions,
            values.low,
            values.high,
            length,
        ),
    }
}

pub fn vector_bounds_support_edges(
    free_name: &str,
    site: &ResolvedStochasticSite,
    values: SupportValues,
    expected_length: usize,
) -> (r: Result<VectorSupportEdges, Error>)
    requires
        evaluated_full(values@.low),
        evaluated_full(values@.high),
    ensures
        outcome(r) == support_edges(site@, free_name@, values@, expected_length),
        r is Ok ==> edges_cover(r->Ok_0@, expected_length),
{
    proof {
        if support_edges(site@, free_name@, values@, expected_length) is Ok {
            lemma_support_covers(site@, free_name@, values@, expected_length);
        }
    }
    let positions: Option<Vec<i64>> = vector_scatter_missing_idx(
        &site.value,
        free_name,
        values.index,
    )?;
    match &site.distribution {
        Distribution::Exponential { .. } | Distribution::HalfNormal { .. } => Ok(
            VectorSupportEdges {
                lower: Some(repeat(&Number::from_integer(0), expected_length)),
                upper: None,
            },
        ),
        Distribution::Beta { .. } => Ok(
            VectorSupportEdges {
                lower: Some(repeat(&Number::from_integer(0), expected_length)),
                upper: Some(repeat(&Number::from_integer(1), expected_length)),
            },
        ),
        Distribution::Uniform { .. } => {
            let lowest: Option<Tensor> = values.low?;
            let lower: Option<Vec<Number>> = uniform_support_edge(
                lowest,
                &positions,
                expected_length,
            )?;
            let highest: Option<Tensor> = values.high?;
            let upper: Option<Vec<Number>> = uniform_support_edge(
                highest,
                &positions,
                expected_length,
            )?;
            Ok(VectorSupportEdges { lower, upper })
        },
        _ => Ok(VectorSupportEdges { lower: None, upper: None }),
    }
}

/// Whether bounds reach outside the support of the base distribution.
pub open spec fn outside_support(
    lower: Option<Seq<NumberModel>>,
    upper: Option<Seq<NumberModel>>,
    edges: EdgesModel,
) -> bool {
    ||| edges.lower is Some && ((lower is Some && any_below(lower->0, edges.lower->0)) || (upper is Some
        && any_below(upper->0, edges.lower->0)))
    ||| edges.upper is Some && ((lower is Some && any_below(edges.upper->0, lower->0)) || (upper is Some
        && any_below(edges.upper->0, upper->0)))
    ||| edges.lower is Some && edges.upper is Some && ((lower is Some && any_at_least(
        lower->0,
        edges.upper->0,
    )) || (upper is Some && any_at_least(edges.lower->0, upper->0)))
}

fn side_below(side: &Option<Vec<Number>>, edge: &Vec<Number>) -> (r: bool)
    ensures
        r == (optional_numbers(*side) is Some && any_below(
            optional_numbers(*side)->0,
            number_views(edge@),
        )),
{
    match side {
        Some(bound) => some_below(bound, edge),
        None => false,
    }
}

fn side_above(side: &Option<Vec<Number>>, edge: &Vec<Number>) -> (r: bool)
    ensures
        r == (optional_numbers(*side) is Some && any_below(
            number_views(edge@),
            optional_numbers(*side)->0,
        )),
{
    match side {
        Some(bound) => some_below(edge, bound),
        None => false,
    }
}

fn is_outside(lower: &Option<Vec<Number>>, upper: &Option<Vec<Number>>, edges: &VectorSupportEdges) -> (r:
    bool)
    ensures
        r == outside_support(optional_numbers(*lower), optional_numbers(*upper), edges@),
{
    if let Some(edge) = &edges.lower {
        if side_below(lower, edge) || side_below(upper, edge) {
            return true;
        }
    }
    if let Some(edge) = &edges.upper {
        if side_above(lower, edge) || side_above(upper, edge) {
            return true;
        }
    }
    if let Some(lowest) = &edges.lower {
        if let Some(highest) = &edges.upper {
            if let Some(bound) = lower {
                if some_at_least(bound, highest) {
                    return true;
                }
            }
            if let Some(bound) = upper {
                if some_at_least(lowest, bound) {
                    return true;
                }
            }
        }
    }
    false
}

/// What is wrong with bounds: they cross, or they leave the support of the base distribution.
pub open spec fn bounds_fault(
    free_name: Seq<char>,
    lower: Option<Seq<NumberModel>>,
    upper: Option<Seq<NumberModel>>,
    edges: EdgesModel,
) -> Option<Fault> {
    if lower is Some && upper is Some && any_at_least(lower->0, upper->0) {
        Some(
            shape_fault(
                about_bounds(free_name)
                    + " require lower < upper after folding finite base support edges"@,
            ),
        )
    } else if outside_support(lower, upper, edges) {
        Some(
            shape_fault(
                about_bounds(free_name) + " must be within base distribution support"@,
            ),
        )
    } else {
        None
    }
}

pub fn validate_vector_bounds_support(
    free_name: &str,
    lower: &Option<Vec<Number>>,
    upper: &Option<Vec<Number>>,
    edges: &VectorSupportEdges,
) -> (r: Result<(), Error>)
    ensures
        checked(r) == bounds_fault(
            free_name@,
            optional_numbers(*lower),
            optional_numbers(*upper),
            edges@,
        ),
{
    if let Some(low) = lower {
        if let Some(high) = upper {
            if some_at_least(low, high) {
                return Err(
                    bounds_error(
                        free_name,
                        " require lower < upper after folding finite base support edges",
                    ),
                );
            }
        }
    }
    if is_outside(lower, upper, edges) {
        return Err(bounds_error(free_name, " must be within base distribution support"));
    }
    Ok(())
}

/// A bound, or else the edge of the support.
pub open spec fn or_edge(bound: Option<Seq<NumberModel>>, edge: Option<Seq<NumberModel>>) -> Option<
    Seq<NumberModel>,
> {
    match bound {
        Some(found) => Some(found),
        None => edge,
    }
}

/// Vector bounds read from data, with open sides folded to the edges of the support.
pub open spec fn resolved_bounds(
    free_name: Seq<char>,
    lower_name: Option<Seq<char>>,
    upper_name: Option<Seq<char>>,
    shape: Seq<usize>,
    support: Result<EdgesModel, Fault>,
    data: Seq<(Seq<char>, DataModel)>,
) -> Result<ResolvedModel, Fault> {
    if shape.len() != 1 {
        Err(shape_fault(about_bounds(free_name) + " require a rank-1 free value"@))
    } else {
        match bound_side(free_name, "lower"@, lower_name, data, shape[0]) {
            Err(fault) => Err(fault),
            Ok(read_lower) => match bound_side(free_name, "upper"@, upper_name, data, shape[0]) {
                Err(fault) => Err(fault),
                Ok(read_upper) => match support {
                    Err(fault) => Err(fault),
                    Ok(edges) => {
                        let lower = or_edge(read_lower, edges.lower);
                        let upper = or_edge(read_upper, edges.upper);
                        match bounds_fault(free_name, lower, upper, edges) {
                            Some(fault) => Err(fault),
                            None => Ok(ResolvedModel::VectorBounds { lower, upper }),
                        }
                    },
                },
            },
        }
    }
}

/// A constraint with its bounds resolved.
pub open spec fn resolved(
    free_name: Seq<char>,
    constraint: Option<ConstraintModel>,
    shape: Seq<usize>,
    support: Result<EdgesModel, Fault>,
    data: Seq<(Seq<char>, DataModel)>,
) -> Result<Option<ResolvedModel>, Fault> {
    match constraint {
        None => Ok(None),
        Some(ConstraintModel::Positive) => Ok(Some(ResolvedModel::Positive)),
        Some(ConstraintModel::Interval { lower, upper }) => Ok(
            Some(ResolvedModel::Interval { lower, upper }),
        ),
        Some(ConstraintModel::UnitInterval) => Ok(Some(ResolvedModel::UnitInterval)),
        Some(ConstraintModel::Ordered) => Ok(Some(ResolvedModel::Ordered)),
        Some(ConstraintModel::VectorBounds { lower, upper }) => match resolved_bounds(
            free_name,
            lower,
            upper,
            shape,
            support,
            data,
        ) {
            Err(fault) => Err(fault),
            Ok(bounds) => Ok(Some(bounds)),
        },
    }
}

/// The view of an optional constraint.
pub open spec fn optional_resolved(c: Option<ResolvedConstraint>) -> Option<ResolvedModel> {
    match c {
        Some(found) => Some(found@),
        None => None,
    }
}

/// The view of a result that may carry a constraint.
pub open spec fn resolved_outcome(r: Result<Option<ResolvedConstraint>, Error>) -> Result<
    Option<ResolvedModel>,
    Fault,
> {
    match r {
        Ok(found) => Ok(optional_resolved(found)),
        Err(error) => Err(error@),
    }
}

fn copy_edge(edge: &Option<Vec<Number>>) -> (r: Option<Vec<Number>>)
    ensures
        optional_numbers(r) == optional_numbers(*edge),
{
    match edge {
        Some(values) => Some(copy_numbers(values)),
        None => None,
    }
}

/// Resolves a constraint. `support` is what the edges of the base support came to; it counts for
/// vector bounds alone.
pub fn resolve_constraint(
    free_name: &str,
    constraint: &Option<Constraint>,
    shape: &Vec<usize>,
    support: Result<VectorSupportEdges, Error>,
    data: &Vec<(String, DataValue)>,
) -> (r: Result<Option<ResolvedConstraint>, Error>)
    ensures
        resolved_outcome(r) == resolved(
            free_name@,
            optional_constraint(*constraint),
            shape@,
            outcome(support),
            data_views(data@),
        ),
{
    match constraint {
        None => Ok(None),
        Some(Constraint::Positive) => Ok(Some(ResolvedConstraint::Positive)),
        Some(Constraint::Interval { lower, upper }) => Ok(
            Some(ResolvedConstraint::Interval { lower: lower.copy(), upper: upper.copy() }),
        ),
        Some(Constraint::UnitInterval) => Ok(Some(ResolvedConstraint::UnitInterval)),
        Some(Constraint::Ordered) => Ok(Some(ResolvedConstraint::Ordered)),
        Some(Constraint::VectorBounds { lower, upper }) => {
            if shape.len() != 1 {
                return Err(bounds_error(free_name, " require a rank-1 free value"));
            }
            let mut low: Option<Vec<Number>> = resolve_vector_bound_side(
                free_name,
                "lower",
                lower,
                data,
                shape[0],
            )?;
            let mut high: Option<Vec<Number>> = resolve_vector_bound_side(
                free_name,
                "upper",
                upper,
                data,
                shape[0],
            )?;
            let edges: VectorSupportEdges = support?;
            if low.is_none() {
                low = copy_edge(&edges.lower);
            }
            if high.is_none() {
                high = copy_edge(&edges.upper);
            }
            validate_vector_bounds_support(free_name, &low, &high, &edges)?;
            Ok(Some(ResolvedConstraint::VectorBounds { lower: low, upper: high }))
        },
    }
}

/// Resolved vector bounds have two crossing-free sides at most: wherever both sides are there, the
/// lower one is strictly below the upper one at every coordinate where the numbers compare.
pub proof fn law_resolved_bounds_do_not_cross(
    free_name: Seq<char>,
    constraint: Option<ConstraintModel>,
    shape: Seq<usize>,
    support: Result<EdgesModel, Fault>,
    data: Seq<(Seq<char>, DataModel)>,
    lower: Seq<NumberModel>,
    upper: Seq<NumberModel>,
    i: int,
)
    requires
        resolved(free_name, constraint, shape, support, data) == Ok::<Option<ResolvedModel>, Fault>(
            Some(ResolvedModel::VectorBounds { lower: Some(lower), upper: Some(upper) }),
        ),
        constraint is Some,
        constraint->0 is VectorBounds,
        0 <= i < lower.len(),
        i < upper.len(),
    ensures
        !at_least(lower[i].bits, upper[i].bits),
{
    if at_least(lower[i].bits, upper[i].bits) {
        assert(any_at_least(lower, upper));
    }
}

/// The bounds of a constraint have an entry for every entry of a value.
pub open spec fn bounds_cover(constraint: Option<ResolvedModel>, length: nat) -> bool {
    match constraint {
        Some(ResolvedModel::VectorBounds { lower, upper }) => (lower is Some ==> length
            <= lower->0.len()) && (upper is Some ==> length <= upper->0.len()),
        _ => true,
    }
}

/// The edges of a support have an entry for every entry of a vector.
pub open spec fn edges_cover(edges: EdgesModel, length: usize) -> bool {
    &&& edges.lower is Some ==> edges.lower->0.len() == length
    &&& edges.upper is Some ==> edges.upper->0.len() == length
}

proof fn lemma_vector_cells(length: usize)
    ensures
        cells(seq![length]) == length,
{
    let shape = seq![length];
    assert(shape.drop_last() =~= Seq::empty());
    reveal_with_fuel(cells, 2);
    assert(1 * (length as nat) == length as nat) by (nonlinear_arith);
}

/// The edges of a support cover the vector that they were asked for.
pub proof fn lemma_support_covers(site: SiteModel, free_name: Seq<char>, values: SupportModel, length: usize)
    requires
        evaluated_full(values.low),
        evaluated_full(values.high),
        support_edges(site, free_name, values, length) is Ok,
    ensures
        edges_cover(support_edges(site, free_name, values, length)->Ok_0, length),
{
    lemma_vector_cells(length);
}

/// Resolved vector bounds cover the free value that they bound.
pub proof fn lemma_resolved_covers(
    free_name: Seq<char>,
    constraint: Option<ConstraintModel>,
    shape: Seq<usize>,
    support: Result<EdgesModel, Fault>,
    data: Seq<(Seq<char>, DataModel)>,
)
    requires
        all_filled(data),
        support is Ok && shape.len() == 1 ==> edges_cover(support->Ok_0, shape[0]),
        resolved(free_name, constraint, shape, support, data) is Ok,
    ensures
        bounds_cover(resolved(free_name, constraint, shape, support, data)->Ok_0, cells(shape)),
{
    if let Some(ConstraintModel::VectorBounds { lower, upper }) = constraint {
        lemma_vector_cells(shape[0]);
        assert(shape =~= seq![shape[0]]);
        if lower is Some && data_named(data, lower->0) is Some {
            lemma_named_filled(data, lower->0, 0);
            assert(data_named(data, lower->0)->0.shape =~= seq![data_named(data, lower->0)->0.shape[0]]);
            lemma_vector_cells(data_named(data, lower->0)->0.shape[0]);
        }
        if upper is Some && data_named(data, upper->0) is Some {
            lemma_named_filled(data, upper->0, 0);
            assert(data_named(data, upper->0)->0.shape =~= seq![data_named(data, upper->0)->0.shape[0]]);
            lemma_vector_cells(data_named(data, upper->0)->0.shape[0]);
        }
    }
}

} // verus!
