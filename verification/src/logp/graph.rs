//! The log density of a model as expressions: what it is made of, whatever the point.

use vstd::prelude::*;

#[allow(unused_imports)]
use crate::bounds::optional_numbers;
use crate::bounds::ResolvedConstraint;
#[allow(unused_imports)]
use crate::bounds::ResolvedModel;
use crate::data::{copy_numbers, copy_shape, DataValue};
#[allow(unused_imports)]
use crate::data::{data_views, DataModel};
use crate::density::{density_expression, DistVars};
use crate::error::Error;
#[allow(unused_imports)]
use crate::error::{outcome, Fault};
#[allow(unused_imports)]
use crate::investigation::ledger::views;
use crate::ir::{distribution_exprs, Distribution, Expr, ResolvedStochasticSite};
#[allow(unused_imports)]
use crate::ir::{dist_params, list_views, DistModel, ExprModel, SiteModel};
#[allow(unused_imports)]
use crate::model::{packed_end, SlotModel};
use crate::number::Number;
#[allow(unused_imports)]
use crate::number::NumberModel;
#[allow(unused_imports)]
use crate::posterior::slot_place;
use crate::posterior::FreeSlot;
use crate::tensor::Tensor;
use crate::term::Term;
use crate::transform::{apply_constraint, Constrained};
#[allow(unused_imports)]
use crate::transform::{constrained, constraint_view};

use super::parameters::vars_of;
#[allow(unused_imports)]
use super::parameters::{lemma_score, score_term};

verus! {

/// A free value: its place in the packed vector, its bounds, and its constrained value as an
/// expression for its part of the vector, which is the only input.
#[derive(Debug)]
pub struct SlotForm {
    pub name: String,
    pub shape: Vec<usize>,
    pub offset: usize,
    pub size: usize,
    pub lower: Option<Vec<Number>>,
    pub upper: Option<Vec<Number>>,
    pub form: Constrained,
}

/// The mathematical content of a [`SlotForm`].
#[verifier::ext_equal]
pub struct SlotFormModel {
    pub place: SlotModel,
    pub lower: Option<Seq<NumberModel>>,
    pub upper: Option<Seq<NumberModel>>,
    pub form: Constrained,
}

impl View for SlotForm {
    type V = SlotFormModel;

    open spec fn view(&self) -> SlotFormModel {
        SlotFormModel {
            place: SlotModel {
                name: self.name@,
                shape: self.shape@,
                offset: self.offset as nat,
                size: self.size as nat,
            },
            lower: optional_numbers(self.lower),
            upper: optional_numbers(self.upper),
            form: self.form,
        }
    }
}

/// A factor: a distribution, the value that it scores, and its log density as an expression whose
/// inputs are the parameters of the distribution in order, and then the value.
#[derive(Debug)]
pub struct SiteForm {
    pub distribution: Distribution,
    pub value: Expr,
    pub score: Term,
}

/// The mathematical content of a [`SiteForm`].
#[verifier::ext_equal]
pub struct SiteFormModel {
    pub distribution: DistModel,
    pub value: ExprModel,
    pub score: Term,
}

impl View for SiteForm {
    type V = SiteFormModel;

    open spec fn view(&self) -> SiteFormModel {
        SiteFormModel {
            distribution: self.distribution@,
            value: self.value@,
            score: self.score,
        }
    }
}

/// A log density that was built: the logarithmic Jacobians of its free values and the scores of
/// its sites, as expressions, and the data that they speak of.
#[derive(Debug)]
pub struct CompiledLogp {
    pub slots: Vec<SlotForm>,
    pub sites: Vec<SiteForm>,
    pub data: Vec<(String, DataValue)>,
    pub n_params: usize,
}

/// The mathematical content of a [`CompiledLogp`].
#[verifier::ext_equal]
pub struct GraphModel {
    pub slots: Seq<SlotFormModel>,
    pub sites: Seq<SiteFormModel>,
    pub data: Seq<(Seq<char>, DataModel)>,
    pub n_params: usize,
}

impl View for CompiledLogp {
    type V = GraphModel;

    open spec fn view(&self) -> GraphModel {
        GraphModel {
            slots: views(self.slots@),
            sites: views(self.sites@),
            data: data_views(self.data@),
            n_params: self.n_params,
        }
    }
}

/// Slots that follow each other without gaps or overlaps and fill a vector of that length.
pub open spec fn tiled(slots: Seq<SlotModel>, n_params: nat) -> bool {
    &&& forall|i: int|
        0 <= i < slots.len() ==> (#[trigger] slots[i]).offset == (if i == 0 {
            0
        } else {
            slots[i - 1].offset + slots[i - 1].size
        })
    &&& packed_end(slots) == n_params
}

/// The places of forms.
pub open spec fn form_places(slots: Seq<SlotFormModel>) -> Seq<SlotModel> {
    Seq::new(slots.len(), |i: int| slots[i].place)
}

/// The bounds of a constraint, where it is one by vectors.
pub open spec fn vector_bounds(constraint: Option<ResolvedModel>) -> (
    Option<Seq<NumberModel>>,
    Option<Seq<NumberModel>>,
) {
    match constraint {
        Some(ResolvedModel::VectorBounds { lower, upper }) => (lower, upper),
        _ => (None, None),
    }
}

/// A free slot as an expression, or what is wrong with it.
pub open spec fn slot_form(slot: FreeSlot) -> Result<SlotFormModel, Fault> {
    let (lower, upper) = vector_bounds(constraint_view(slot.constraint));
    match constrained(constraint_view(slot.constraint), slot.name@, slot.shape@, 0) {
        Err(fault) => Err(fault),
        Ok(form) => Ok(SlotFormModel { place: slot_place(slot), lower, upper, form }),
    }
}

/// The free slots of a model as expressions.
pub open spec fn slot_forms(free: Seq<FreeSlot>) -> Seq<Result<SlotFormModel, Fault>> {
    Seq::new(free.len(), |i: int| slot_form(free[i]))
}

/// Forms that are there.
pub open spec fn made(slots: Seq<SlotFormModel>) -> Seq<Result<SlotFormModel, Fault>> {
    Seq::new(slots.len(), |i: int| Ok(slots[i]))
}

/// A site as an expression.
pub open spec fn site_form(site: SiteModel) -> SiteFormModel {
    SiteFormModel {
        distribution: site.distribution,
        value: site.value,
        score: score_term(
            site.distribution,
            0,
            Term::Leaf(dist_params(site.distribution).len() as usize),
        ),
    }
}

/// The sites of a model as expressions.
pub open spec fn site_forms(sites: Seq<SiteModel>) -> Seq<SiteFormModel> {
    Seq::new(sites.len(), |i: int| site_form(sites[i]))
}

fn optional_copy(list: &Option<Vec<Number>>) -> (r: Option<Vec<Number>>)
    ensures
        optional_numbers(r) == optional_numbers(*list),
{
    match list {
        Some(found) => Some(copy_numbers(found)),
        None => None,
    }
}

/// Makes the expression of a free slot.
pub fn form_of_slot(slot: &FreeSlot) -> (r: Result<SlotForm, Error>)
    ensures
        outcome(r) == slot_form(*slot),
{
    let form: Constrained = match apply_constraint(slot, 0) {
        Err(error) => {
            return Err(error);
        },
        Ok(form) => form,
    };
    let (lower, upper): (Option<Vec<Number>>, Option<Vec<Number>>) = match &slot.constraint {
        Some(ResolvedConstraint::VectorBounds { lower, upper }) => (
            optional_copy(lower),
            optional_copy(upper),
        ),
        _ => (None, None),
    };
    let made: SlotForm = SlotForm {
        name: slot.name.clone(),
        shape: copy_shape(&slot.shape),
        offset: slot.offset,
        size: slot.size,
        lower,
        upper,
        form,
    };
    assert(made@ =~= slot_form(*slot)->Ok_0);
    Ok(made)
}

/// The score of a distribution. Shapes do not enter an expression, so that single numbers can
/// stand for its inputs.
fn score_of(dist: &Distribution) -> (r: Term)
    ensures
        r == score_term(dist@, 0, Term::Leaf(dist_params(dist@).len() as usize)),
{
    let count: usize = distribution_exprs(dist).len();
    let mut inputs: Vec<Tensor> = Vec::new();
    while inputs.len() < count
        invariant
            inputs.len() <= count,
        decreases count - inputs.len(),
    {
        inputs.push(Tensor::scalar(Number::from_integer(0)));
    }
    let vars: DistVars = vars_of(dist, &inputs, 0);
    proof {
        lemma_score(vars, dist@, views(inputs@), 0, Term::Leaf(count));
    }
    density_expression(&vars, &Term::Leaf(count))
}

/// Makes the expressions of sites.
pub fn forms_of_sites(sites: &Vec<ResolvedStochasticSite>) -> (r: Vec<SiteForm>)
    ensures
        views(r@) == site_forms(list_views(sites@)),
{
    let mut out: Vec<SiteForm> = Vec::new();
    let mut i: usize = 0;
    while i < sites.len()
        invariant
            i <= sites.len(),
            out.len() == i,
            forall|k: int| 0 <= k < i ==> (#[trigger] out@[k])@ == site_form(sites@[k]@),
        decreases sites.len() - i,
    {
        let made: SiteForm = SiteForm {
            distribution: sites[i].distribution.copy(),
            value: sites[i].value.copy(),
            score: score_of(&sites[i].distribution),
        };
        assert(made@ =~= site_form(sites@[i as int]@));
        out.push(made);
        i += 1;
    }
    assert(views(out@) =~= site_forms(list_views(sites@)));
    out
}

} // verus!
