//! Free values at a point: their constrained values, and what their Jacobians add up to.

use vstd::prelude::*;

use crate::data::{copy_numbers, copy_shape};
#[allow(unused_imports)]
use crate::data::number_views;
use crate::error::Error;
#[allow(unused_imports)]
use crate::error::{outcome, Fault};
#[allow(unused_imports)]
use crate::investigation::ledger::views;
use crate::ir::BinOpKind;
#[allow(unused_imports)]
use crate::ir::named_views;
use crate::number::Number;
#[allow(unused_imports)]
use crate::number::{number_of_integer, NumberModel};
use crate::tensor::Tensor;
#[allow(unused_imports)]
use crate::tensor::{full, TensorModel};
use crate::term::{Term, UnaryOp};

use super::calculus::{Calculus, Inputs};
#[allow(unused_imports)]
use super::calculus::{scalar, usable, InputsModel};
use super::graph::SlotForm;
#[allow(unused_imports)]
use super::graph::{made, SlotFormModel};

verus! {

/// The inputs of a free value at a point: its part of the packed vector, and its bounds.
pub open spec fn form_inputs(form: SlotFormModel, q: Seq<NumberModel>) -> InputsModel {
    InputsModel {
        leaves: seq![
            TensorModel {
                shape: form.place.shape,
                values: q.subrange(
                    form.place.offset as int,
                    (form.place.offset + form.place.size) as int,
                ),
            },
        ],
        lower: form.lower,
        upper: form.upper,
    }
}

/// What constraining a free value comes to: its value, and the sum of its logarithmic Jacobian.
pub struct SlotValue {
    pub value: Tensor,
    pub jacobian: Option<Tensor>,
}

/// The mathematical content of a [`SlotValue`].
#[verifier::ext_equal]
pub struct SlotValueModel {
    pub value: TensorModel,
    pub jacobian: Option<TensorModel>,
}

impl View for SlotValue {
    type V = SlotValueModel;

    open spec fn view(&self) -> SlotValueModel {
        SlotValueModel {
            value: self.value@,
            jacobian: crate::tensor::optional_tensor(self.jacobian),
        }
    }
}

/// Whether the sum of a Jacobian can come to that, by the value and what the sum came to.
pub open spec fn jacobian_joined(
    value: TensorModel,
    total: Result<TensorModel, Fault>,
    out: Result<SlotValueModel, Fault>,
) -> bool {
    out == (match total {
        Err(fault) => Err::<SlotValueModel, Fault>(fault),
        Ok(t) => Ok(SlotValueModel { value, jacobian: Some(t) }),
    })
}

/// Whether a free value can come to that, by what its value came to.
pub open spec fn slot_joined<S: Calculus>(
    s: &S,
    jacobian: Option<Term>,
    inputs: InputsModel,
    value: Result<TensorModel, Fault>,
    out: Result<SlotValueModel, Fault>,
) -> bool {
    match value {
        Err(fault) => out == Err::<SlotValueModel, Fault>(fault),
        Ok(v) => match jacobian {
            None => out == Ok::<SlotValueModel, Fault>(
                SlotValueModel { value: v, jacobian: None },
            ),
            Some(term) => exists|total: Result<TensorModel, Fault>| #[trigger]
                jacobian_joined(v, total, out) && s.term_gives(
                    term.unary(UnaryOp::Sum),
                    inputs,
                    total,
                ),
        },
    }
}

/// Whether constraining a free value at a point can come to that.
pub open spec fn form_gives<S: Calculus>(
    s: &S,
    form: SlotFormModel,
    q: Seq<NumberModel>,
    out: Result<SlotValueModel, Fault>,
) -> bool {
    exists|value: Result<TensorModel, Fault>| #[trigger]
        slot_joined(s, form.form.jacobian, form_inputs(form, q), value, out) && s.term_gives(
            form.form.value,
            form_inputs(form, q),
            value,
        )
}

pub(crate) fn inputs_of(form: &SlotForm, q: &Vec<Number>) -> (r: Inputs)
    requires
        form.offset + form.size <= q.len(),
    ensures
        r@ == form_inputs(form@, number_views(q@)),
{
    let ghost all = number_views(q@);
    let mut values: Vec<Number> = Vec::new();
    let mut i: usize = 0;
    while i < form.size
        invariant
            i <= form.size,
            form.offset + form.size <= q.len(),
            all == number_views(q@),
            values.len() == i,
            forall|k: int| 0 <= k < i ==> (#[trigger] values@[k])@ == all[form.offset + k],
        decreases form.size - i,
    {
        assert(all[form.offset + i] == q@[form.offset + i]@);
        values.push(q[form.offset + i].copy());
        i += 1;
    }
    assert(number_views(values@) =~= all.subrange(form.offset as int, form.offset + form.size));
    let leaf: Tensor = Tensor { shape: copy_shape(&form.shape), values };
    let ghost content = leaf@;
    let leaves: Vec<Tensor> = vec![leaf];
    assert(views(leaves@) =~= seq![content]);
    let lower: Option<Vec<Number>> = match &form.lower {
        Some(found) => Some(copy_numbers(found)),
        None => None,
    };
    let upper: Option<Vec<Number>> = match &form.upper {
        Some(found) => Some(copy_numbers(found)),
        None => None,
    };
    Inputs { leaves, lower, upper }
}

/// Whether what a free value came to is in order.
pub open spec fn slot_in_order(slot: SlotValueModel) -> bool {
    full(slot.value) && (slot.jacobian is Some ==> scalar(slot.jacobian->0))
}

/// The constrained value of a free value at a point, with the sum of its logarithmic Jacobian.
pub fn constrain_form<S: Calculus>(s: &S, form: &SlotForm, q: &Vec<Number>) -> (r: Result<
    SlotValue,
    Error,
>)
    requires
        usable(s),
        form.offset + form.size <= q.len(),
    ensures
        form_gives(s, form@, number_views(q@), outcome(r)),
        r is Ok ==> slot_in_order(r->Ok_0@),
{
    let inputs: Inputs = inputs_of(form, q);
    let ghost given = inputs@;
    let value: Result<Tensor, Error> = s.evaluate(&form.form.value, &inputs);
    let ghost first = outcome(value);
    match value {
        Err(error) => {
            assert(slot_joined(s, form.form.jacobian, given, first, Err(error@)));
            Err(error)
        },
        Ok(value) => match &form.form.jacobian {
            None => {
                let found: SlotValue = SlotValue { value, jacobian: None };
                assert(slot_joined(s, form.form.jacobian, given, first, Ok(found@)));
                Ok(found)
            },
            Some(term) => {
                let sum: Term = term.apply(UnaryOp::Sum);
                let total: Result<Tensor, Error> = s.evaluate(&sum, &inputs);
                let ghost second = outcome(total);
                match total {
                    Err(error) => {
                        assert(jacobian_joined(value@, second, Err(error@)));
                        assert(slot_joined(s, form.form.jacobian, given, first, Err(error@)));
                        Err(error)
                    },
                    Ok(total) => {
                        let found: SlotValue = SlotValue { value, jacobian: Some(total) };
                        assert(jacobian_joined(found@.value, second, Ok(found@)));
                        assert(slot_joined(s, form.form.jacobian, given, first, Ok(found@)));
                        Ok(found)
                    },
                }
            },
        },
    }
}

/// Constrained values by their names, with what their Jacobians have added up to.
pub struct Placed {
    pub values: Vec<(String, Tensor)>,
    pub total: Tensor,
}

/// The mathematical content of [`Placed`].
#[verifier::ext_equal]
pub struct PlacedModel {
    pub values: Seq<(Seq<char>, TensorModel)>,
    pub total: TensorModel,
}

impl View for Placed {
    type V = PlacedModel;

    open spec fn view(&self) -> PlacedModel {
        PlacedModel { values: named_views(self.values@), total: self.total@ }
    }
}

/// The scalar zero.
pub open spec fn nothing() -> TensorModel {
    TensorModel { shape: Seq::empty(), values: seq![number_of_integer(0)] }
}

/// Whether a sum can come to that.
pub open spec fn total_joined(
    values: Seq<(Seq<char>, TensorModel)>,
    sum: Result<TensorModel, Fault>,
    out: Result<PlacedModel, Fault>,
) -> bool {
    out == (match sum {
        Err(fault) => Err::<PlacedModel, Fault>(fault),
        Ok(total) => Ok(PlacedModel { values, total }),
    })
}

/// Whether placing one more free value can come to that, by what it came to.
pub open spec fn slot_added<S: Calculus>(
    s: &S,
    before: PlacedModel,
    name: Seq<char>,
    slot: Result<SlotValueModel, Fault>,
    out: Result<PlacedModel, Fault>,
) -> bool {
    match slot {
        Err(fault) => out == Err::<PlacedModel, Fault>(fault),
        Ok(found) => match found.jacobian {
            None => out == Ok::<PlacedModel, Fault>(
                PlacedModel {
                    values: before.values.push((name, found.value)),
                    total: before.total,
                },
            ),
            Some(jacobian) => exists|sum: Result<TensorModel, Fault>| #[trigger]
                total_joined(before.values.push((name, found.value)), sum, out)
                    && s.binary_gives(BinOpKind::Add, before.total, jacobian, sum),
        },
    }
}

/// Whether placing one more form can come to that.
pub open spec fn form_added<S: Calculus>(
    s: &S,
    before: PlacedModel,
    form: SlotFormModel,
    q: Seq<NumberModel>,
    out: Result<PlacedModel, Fault>,
) -> bool {
    exists|slot: Result<SlotValueModel, Fault>| #[trigger]
        slot_added(s, before, form.place.name, slot, out) && form_gives(s, form, q, slot)
}

/// Whether placing one more free value can come to that, whose form may be refused.
pub open spec fn form_placed<S: Calculus>(
    s: &S,
    before: PlacedModel,
    form: Result<SlotFormModel, Fault>,
    q: Seq<NumberModel>,
    out: Result<PlacedModel, Fault>,
) -> bool {
    match form {
        Err(fault) => out == Err::<PlacedModel, Fault>(fault),
        Ok(found) => form_added(s, before, found, q, out),
    }
}

/// Whether placing free values one after the other can come to that.
pub open spec fn forms_placed<S: Calculus>(
    s: &S,
    forms: Seq<Result<SlotFormModel, Fault>>,
    q: Seq<NumberModel>,
    out: Result<PlacedModel, Fault>,
) -> bool
    decreases forms.len(),
{
    if forms.len() == 0 {
        out == Ok::<PlacedModel, Fault>(
            PlacedModel { values: Seq::empty(), total: nothing() },
        )
    } else {
        ||| out is Err && forms_placed(s, forms.drop_last(), q, out)
        ||| exists|before: PlacedModel| #[trigger]
            form_placed(s, before, forms.last(), q, out) && forms_placed(
                s,
                forms.drop_last(),
                q,
                Ok(before),
            )
    }
}

/// A failure among the first free values is the failure of all.
pub proof fn lemma_forms_fail<S: Calculus>(
    s: &S,
    forms: Seq<Result<SlotFormModel, Fault>>,
    q: Seq<NumberModel>,
    n: int,
    fault: Fault,
)
    requires
        0 <= n <= forms.len(),
        forms_placed(s, forms.take(n), q, Err(fault)),
    ensures
        forms_placed(s, forms, q, Err(fault)),
    decreases forms.len(),
{
    if n < forms.len() {
        assert(forms.drop_last().take(n) =~= forms.take(n));
        lemma_forms_fail(s, forms.drop_last(), q, n, fault);
    } else {
        assert(forms.take(n) =~= forms);
    }
}

/// The view of what placing came to.
pub open spec fn placed_outcome(r: Result<Placed, Error>) -> Result<PlacedModel, Fault> {
    match r {
        Ok(found) => Ok(found@),
        Err(error) => Err(error@),
    }
}

/// Whether every named value is full.
pub open spec fn values_full(values: Seq<(Seq<char>, TensorModel)>) -> bool {
    forall|i: int| 0 <= i < values.len() ==> full((#[trigger] values[i]).1)
}

/// Whether what was placed is in order.
pub open spec fn placed_in_order(placed: PlacedModel) -> bool {
    values_full(placed.values) && scalar(placed.total)
}

fn add_slot<S: Calculus>(s: &S, before: Placed, name: &str, slot: SlotValue) -> (r: Result<
    Placed,
    Error,
>)
    requires
        usable(s),
        placed_in_order(before@),
        slot_in_order(slot@),
    ensures
        slot_added(s, before@, name@, Ok(slot@), placed_outcome(r)),
        r is Ok ==> placed_in_order(r->Ok_0@),
{
    let ghost was = before@;
    let ghost content = slot@;
    let Placed { values, total } = before;
    let mut values: Vec<(String, Tensor)> = values;
    let SlotValue { value, jacobian } = slot;
    values.push((name.to_owned(), value));
    assert(named_views(values@) =~= was.values.push((name@, content.value)));
    match jacobian {
        None => Ok(Placed { values, total }),
        Some(jacobian) => {
            let sum: Result<Tensor, Error> = s.binary(BinOpKind::Add, &total, &jacobian);
            let ghost summed = outcome(sum);
            match sum {
                Err(error) => {
                    assert(total_joined(
                        was.values.push((name@, content.value)),
                        summed,
                        Err(error@),
                    ));
                    Err(error)
                },
                Ok(sum) => {
                    let out: Placed = Placed { values, total: sum };
                    assert(total_joined(
                        was.values.push((name@, content.value)),
                        summed,
                        Ok(out@),
                    ));
                    Ok(out)
                },
            }
        },
    }
}

/// Places one more free value.
pub(crate) fn place_form<S: Calculus>(s: &S, before: Placed, form: &SlotForm, q: &Vec<Number>) -> (r:
    Result<Placed, Error>)
    requires
        usable(s),
        placed_in_order(before@),
        form.offset + form.size <= q.len(),
    ensures
        form_added(s, before@, form@, number_views(q@), placed_outcome(r)),
        r is Ok ==> placed_in_order(r->Ok_0@),
{
    let ghost was = before@;
    let slot: Result<SlotValue, Error> = constrain_form(s, form, q);
    let ghost came = outcome(slot);
    match slot {
        Err(error) => {
            assert(slot_added(s, was, form@.place.name, came, Err(error@)));
            Err(error)
        },
        Ok(slot) => {
            let out: Result<Placed, Error> = add_slot(s, before, form.name.as_str(), slot);
            assert(slot_added(s, was, form@.place.name, came, placed_outcome(out)));
            out
        },
    }
}

/// No values, and nothing added up.
pub(crate) fn none_placed() -> (r: Placed)
    ensures
        r@ == (PlacedModel { values: Seq::empty(), total: nothing() }),
        placed_in_order(r@),
{
    let out: Placed = Placed {
        values: Vec::new(),
        total: Tensor::scalar(Number::from_integer(0)),
    };
    assert(out@ =~= (PlacedModel { values: Seq::empty(), total: nothing() }));
    out
}

/// Places free values one after the other.
pub(crate) fn place_forms<S: Calculus>(s: &S, forms: &Vec<SlotForm>, q: &Vec<Number>) -> (r: Result<
    Placed,
    Error,
>)
    requires
        usable(s),
        forall|i: int|
            0 <= i < forms@.len() ==> (#[trigger] forms@[i]).offset + forms@[i].size <= q@.len(),
    ensures
        forms_placed(s, made(views(forms@)), number_views(q@), placed_outcome(r)),
        r is Ok ==> placed_in_order(r->Ok_0@),
{
    let ghost point = number_views(q@);
    let ghost all = made(views(forms@));
    let mut now: Placed = none_placed();
    let mut i: usize = 0;
    while i < forms.len()
        invariant
            i <= forms.len(),
            usable(s),
            point == number_views(q@),
            all == made(views(forms@)),
            forall|k: int|
                0 <= k < forms@.len() ==> (#[trigger] forms@[k]).offset + forms@[k].size <= q@.len(),
            forms_placed(s, all.take(i as int), point, Ok(now@)),
            placed_in_order(now@),
        decreases forms.len() - i,
    {
        let ghost done = all.take(i + 1);
        proof {
            assert(done.drop_last() =~= all.take(i as int));
            assert(done.last() == Ok::<SlotFormModel, Fault>(forms@[i as int]@));
        }
        let ghost before = now@;
        match place_form(s, now, &forms[i], q) {
            Err(error) => {
                proof {
                    assert(form_placed(s, before, done.last(), point, Err(error@)));
                    assert(forms_placed(s, done, point, Err(error@)));
                    lemma_forms_fail(s, all, point, i + 1, error@);
                }
                return Err(error);
            },
            Ok(next) => {
                proof {
                    assert(form_placed(s, before, done.last(), point, Ok(next@)));
                    assert(forms_placed(s, done, point, Ok(next@)));
                }
                now = next;
            },
        }
        i += 1;
    }
    assert(all.take(i as int) =~= all);
    Ok(now)
}

} // verus!
