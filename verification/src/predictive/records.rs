//! What a predictive run reports: its sites and the values of each draw.

use vstd::prelude::*;

#[allow(unused_imports)]
use crate::artifact::cells;
use crate::data::{copy_shape, DataValue};
#[allow(unused_imports)]
use crate::data::DataModel;
use crate::error::{invalid_settings, Error};
#[allow(unused_imports)]
use crate::error::{settings_fault, Fault};
use crate::ir::Distribution;
#[allow(unused_imports)]
use crate::ir::{list_views, named_views, DistModel};
#[allow(unused_imports)]
use crate::model::checked;
use crate::number::whole_number;
#[allow(unused_imports)]
use crate::number::{integral, NumberModel};
use crate::tensor::Tensor;
#[allow(unused_imports)]
use crate::tensor::TensorModel;
use crate::text;


verus! {

/// How many draws a run makes.
#[derive(Debug, Clone)]
pub struct PriorPredictiveSettings {
    pub num_draws: usize,
}

impl Default for PriorPredictiveSettings {
    fn default() -> (r: PriorPredictiveSettings)
        ensures
            r.num_draws == 1000,
    {
        PriorPredictiveSettings { num_draws: 1000 }
    }
}

/// What a site stands for.
#[derive(Debug, Clone, Copy, PartialEq, Eq, Structural)]
pub enum PriorPredictiveRole {
    Parameter,
    Observed,
}

/// The name of a role.
pub open spec fn role_name(role: PriorPredictiveRole) -> Seq<char> {
    match role {
        PriorPredictiveRole::Parameter => "parameter"@,
        PriorPredictiveRole::Observed => "observed"@,
    }
}

impl PriorPredictiveRole {
    pub fn as_str(self) -> (r: &'static str)
        ensures
            r@ == role_name(self),
    {
        match self {
            PriorPredictiveRole::Parameter => "parameter",
            PriorPredictiveRole::Observed => "observed",
        }
    }
}

/// A site of a run.
#[derive(Debug, Clone)]
pub struct PriorPredictiveSite {
    pub name: String,
    pub stochastic_site: String,
    pub role: PriorPredictiveRole,
    pub shape: Vec<usize>,
    pub integer: bool,
    pub integer_by_coordinate: Vec<bool>,
}

/// The mathematical content of a [`PriorPredictiveSite`].
#[verifier::ext_equal]
pub struct RecordModel {
    pub name: Seq<char>,
    pub stochastic_site: Seq<char>,
    pub role: PriorPredictiveRole,
    pub shape: Seq<usize>,
    pub integer: bool,
    pub flags: Seq<bool>,
}

impl View for PriorPredictiveSite {
    type V = RecordModel;

    open spec fn view(&self) -> RecordModel {
        RecordModel {
            name: self.name@,
            stochastic_site: self.stochastic_site@,
            role: self.role,
            shape: self.shape@,
            integer: self.integer,
            flags: self.integer_by_coordinate@,
        }
    }
}

/// The values of a draw.
#[derive(Debug)]
pub struct PriorPredictiveDraw {
    pub values: Vec<(String, Tensor)>,
}

impl View for PriorPredictiveDraw {
    type V = Seq<(Seq<char>, TensorModel)>;

    open spec fn view(&self) -> Seq<(Seq<char>, TensorModel)> {
        named_views(self.values@)
    }
}

/// A run: its sites and its draws.
#[derive(Debug)]
pub struct PriorPredictiveRun {
    pub sites: Vec<PriorPredictiveSite>,
    pub draws: Vec<PriorPredictiveDraw>,
}

/// The mathematical content of a [`PriorPredictiveRun`].
#[verifier::ext_equal]
pub struct RunModel {
    pub sites: Seq<RecordModel>,
    pub draws: Seq<Seq<(Seq<char>, TensorModel)>>,
}

impl View for PriorPredictiveRun {
    type V = RunModel;

    open spec fn view(&self) -> RunModel {
        RunModel { sites: list_views(self.sites@), draws: list_views(self.draws@) }
    }
}

/// Which numbers are integers.
pub open spec fn integral_flags(values: Seq<NumberModel>) -> Seq<bool> {
    values.map_values(|n: NumberModel| integral(n.bits))
}

/// Whether all numbers are integers.
pub open spec fn all_integral(values: Seq<NumberModel>) -> bool {
    forall|i: int| 0 <= i < values.len() ==> integral((#[trigger] values[i]).bits)
}

/// The record of a site whose value was drawn: what counts as an integer is read off the value.
pub open spec fn value_record(
    name: Seq<char>,
    stochastic_site: Seq<char>,
    role: PriorPredictiveRole,
    value: TensorModel,
) -> RecordModel {
    RecordModel {
        name,
        stochastic_site,
        role,
        shape: value.shape,
        integer: all_integral(value.values),
        flags: integral_flags(value.values),
    }
}

pub fn value_is_integer(tensor: &Tensor) -> (r: bool)
    ensures
        r == all_integral(tensor@.values),
{
    let mut i: usize = 0;
    while i < tensor.values.len()
        invariant
            i <= tensor.values.len(),
            forall|k: int| 0 <= k < i ==> integral((#[trigger] tensor@.values[k]).bits),
        decreases tensor.values.len() - i,
    {
        assert(tensor@.values[i as int] == tensor.values@[i as int]@);
        if whole_number(tensor.values[i].bits).is_none() {
            return false;
        }
        i += 1;
    }
    true
}

pub fn integer_flags(tensor: &Tensor) -> (r: Vec<bool>)
    ensures
        r@ == integral_flags(tensor@.values),
{
    let mut out: Vec<bool> = Vec::new();
    let mut i: usize = 0;
    while i < tensor.values.len()
        invariant
            i <= tensor.values.len(),
            out.len() == i,
            forall|k: int| 0 <= k < i ==> #[trigger] out@[k] == integral(tensor.values@[k]@.bits),
        decreases tensor.values.len() - i,
    {
        let is_integer: bool = whole_number(tensor.values[i].bits).is_some();
        out.push(is_integer);
        i += 1;
    }
    assert(out@ =~= integral_flags(tensor@.values));
    out
}

/// The record of a drawn value.
pub fn record_of(name: &str, stochastic_site: &str, role: PriorPredictiveRole, value: &Tensor) -> (r:
    PriorPredictiveSite)
    ensures
        r@ == value_record(name@, stochastic_site@, role, value@),
{
    PriorPredictiveSite {
        name: name.to_owned(),
        stochastic_site: stochastic_site.to_owned(),
        role,
        shape: copy_shape(&value.shape),
        integer: value_is_integer(value),
        integer_by_coordinate: integer_flags(value),
    }
}

/// Whether a distribution gives integers only.
pub open spec fn integer_support(d: DistModel) -> bool {
    match d {
        DistModel::Bernoulli { .. } => true,
        DistModel::Poisson { .. } => true,
        DistModel::Binomial { .. } => true,
        DistModel::BetaBinomial { .. } => true,
        DistModel::NegativeBinomial { .. } => true,
        DistModel::OrderedLogistic { .. } => true,
        _ => false,
    }
}

pub fn distribution_has_integer_support(distribution: &Distribution) -> (r: bool)
    ensures
        r == integer_support(distribution@),
{
    match distribution {
        Distribution::Bernoulli { .. } => true,
        Distribution::Poisson { .. } => true,
        Distribution::Binomial { .. } => true,
        Distribution::BetaBinomial { .. } => true,
        Distribution::NegativeBinomial { .. } => true,
        Distribution::OrderedLogistic { .. } => true,
        _ => false,
    }
}

/// The record of a site whose distribution says what counts as an integer.
pub open spec fn support_record(
    name: Seq<char>,
    stochastic_site: Seq<char>,
    d: DistModel,
    value: TensorModel,
) -> RecordModel {
    RecordModel {
        name,
        stochastic_site,
        role: PriorPredictiveRole::Observed,
        shape: value.shape,
        integer: integer_support(d),
        flags: Seq::new(value.values.len(), |i: int| integer_support(d)),
    }
}

fn distribution_integer_flags(distribution: &Distribution, value: &Tensor) -> (r: Vec<bool>)
    ensures
        r@ == Seq::new(value@.values.len(), |i: int| integer_support(distribution@)),
{
    let integer: bool = distribution_has_integer_support(distribution);
    let mut out: Vec<bool> = Vec::new();
    let mut i: usize = 0;
    while i < value.values.len()
        invariant
            i <= value.values.len(),
            out.len() == i,
            forall|k: int| 0 <= k < i ==> #[trigger] out@[k] == integer,
        decreases value.values.len() - i,
    {
        out.push(integer);
        i += 1;
    }
    assert(out@ =~= Seq::new(value@.values.len(), |i: int| integer));
    out
}

/// The record of an observed value by the support of its distribution.
pub fn supported_record(name: &str, stochastic_site: &str, distribution: &Distribution, value: &Tensor) -> (r:
    PriorPredictiveSite)
    ensures
        r@ == support_record(name@, stochastic_site@, distribution@, value@),
{
    PriorPredictiveSite {
        name: name.to_owned(),
        stochastic_site: stochastic_site.to_owned(),
        role: PriorPredictiveRole::Observed,
        shape: copy_shape(&value.shape),
        integer: distribution_has_integer_support(distribution),
        integer_by_coordinate: distribution_integer_flags(distribution, value),
    }
}

/// Whether two shapes are the same.
pub fn same_shape(a: &Vec<usize>, b: &Vec<usize>) -> (r: bool)
    ensures
        r == (a@ == b@),
{
    if a.len() != b.len() {
        return false;
    }
    let mut i: usize = 0;
    while i < a.len()
        invariant
            i <= a.len(),
            a.len() == b.len(),
            forall|k: int| 0 <= k < i ==> a@[k] == b@[k],
        decreases a.len() - i,
    {
        if a[i] != b[i] {
            return false;
        }
        i += 1;
    }
    assert(a@ =~= b@);
    true
}

fn same_flags(a: &Vec<bool>, b: &Vec<bool>) -> (r: bool)
    ensures
        r == (a@ == b@),
{
    if a.len() != b.len() {
        return false;
    }
    let mut i: usize = 0;
    while i < a.len()
        invariant
            i <= a.len(),
            a.len() == b.len(),
            forall|k: int| 0 <= k < i ==> a@[k] == b@[k],
        decreases a.len() - i,
    {
        if a[i] != b[i] {
            return false;
        }
        i += 1;
    }
    assert(a@ =~= b@);
    true
}

fn same_record(a: &PriorPredictiveSite, b: &PriorPredictiveSite) -> (r: bool)
    ensures
        r == (a@ == b@),
{
    let same: bool = text::same(a.name.as_str(), b.name.as_str()) && text::same(
        a.stochastic_site.as_str(),
        b.stochastic_site.as_str(),
    ) && a.role == b.role && same_shape(&a.shape, &b.shape) && a.integer == b.integer
        && same_flags(&a.integer_by_coordinate, &b.integer_by_coordinate);
    proof {
        if same {
            assert(a@ =~= b@);
        }
    }
    same
}

/// Whether two lists of records are the same.
pub fn same_records(a: &Vec<PriorPredictiveSite>, b: &Vec<PriorPredictiveSite>) -> (r: bool)
    requires
        a@.len() == b@.len(),
    ensures
        r == (list_views(a@) == list_views(b@)),
{
    let ghost left = list_views(a@);
    let ghost right = list_views(b@);
    let mut i: usize = 0;
    while i < a.len()
        invariant
            i <= a.len(),
            a.len() == b.len(),
            left == list_views(a@),
            right == list_views(b@),
            forall|k: int| 0 <= k < i ==> left[k] == right[k],
        decreases a.len() - i,
    {
        assert(left[i as int] == a@[i as int]@ && right[i as int] == b@[i as int]@);
        if !same_record(&a[i], &b[i]) {
            return false;
        }
        i += 1;
    }
    assert(left =~= right);
    true
}

/// What is wrong with records that should be those of the first draw.
pub open spec fn records_fault(
    expected: Seq<RecordModel>,
    got: Seq<RecordModel>,
    run: Seq<char>,
) -> Option<Fault> {
    if expected.len() != got.len() {
        Some(
            crate::error::shape_fault(
                run
                    + " site count changed across draws; dynamic stochastic structure is not supported"@,
            ),
        )
    } else if expected != got {
        Some(
            crate::error::shape_fault(
                run
                    + " site metadata changed across draws; dynamic-shape streams are not supported"@,
            ),
        )
    } else {
        None
    }
}

pub fn check_records(expected: &Vec<PriorPredictiveSite>, got: &Vec<PriorPredictiveSite>, run: &str) -> (r:
    Result<(), Error>)
    ensures
        checked(r) == records_fault(list_views(expected@), list_views(got@), run@),
{
    assert(list_views(expected@).len() == expected@.len());
    assert(list_views(got@).len() == got@.len());
    if expected.len() != got.len() {
        return Err(
            crate::error::shape_mismatch(
                text::cat2(
                    run,
                    " site count changed across draws; dynamic stochastic structure is not supported",
                ),
            ),
        );
    }
    if !same_records(expected, got) {
        return Err(
            crate::error::shape_mismatch(
                text::cat2(
                    run,
                    " site metadata changed across draws; dynamic-shape streams are not supported",
                ),
            ),
        );
    }
    Ok(())
}

/// Seeds are reported as JSON integers.
pub open spec fn seed_fault(seed: u64, context: Seq<char>) -> Option<Fault> {
    if seed <= i64::MAX as u64 {
        None
    } else {
        Some(
            settings_fault(
                context
                    + " seed must be in 0..=9223372036854775807 because artifacts report seeds as JSON integers"@,
            ),
        )
    }
}

pub fn validate_reportable_seed(seed: u64, context: &str) -> (r: Result<(), Error>)
    ensures
        checked(r) == seed_fault(seed, context@),
{
    if seed <= i64::MAX as u64 {
        Ok(())
    } else {
        Err(
            invalid_settings(
                text::cat2(
                    context,
                    " seed must be in 0..=9223372036854775807 because artifacts report seeds as JSON integers",
                ),
            ),
        )
    }
}

/// Draw counts are reported as JSON integers.
pub open spec fn count_fault(draws: usize, context: Seq<char>) -> Option<Fault> {
    if draws == 0 {
        Some(settings_fault(context + " settings.num_draws must be at least 1"@))
    } else if draws > i64::MAX {
        Some(
            settings_fault(
                context
                    + " settings.num_draws must be in 1..=9223372036854775807 because artifacts report draw counts as JSON integers"@,
            ),
        )
    } else {
        None
    }
}

pub fn validate_reportable_draw_count(draws: usize, context: &str) -> (r: Result<(), Error>)
    ensures
        checked(r) == count_fault(draws, context@),
{
    if draws == 0 {
        Err(invalid_settings(text::cat2(context, " settings.num_draws must be at least 1")))
    } else if draws as u64 > i64::MAX as u64 {
        Err(
            invalid_settings(
                text::cat2(
                    context,
                    " settings.num_draws must be in 1..=9223372036854775807 because artifacts report draw counts as JSON integers",
                ),
            ),
        )
    } else {
        Ok(())
    }
}

/// A tensor as bound data.
pub open spec fn tensor_data(t: TensorModel, integer: bool) -> DataModel {
    DataModel { shape: t.shape, values: t.values, integer }
}

pub fn as_data(t: Tensor, integer: bool) -> (r: DataValue)
    ensures
        r@ == tensor_data(t@, integer),
{
    DataValue { shape: t.shape, values: t.values, integer }
}

/// A record with a flag for every cell.
pub open spec fn sound_record(record: RecordModel) -> bool {
    record.flags.len() == cells(record.shape)
}

/// Whether all records have a flag for every cell.
pub open spec fn sound_records(records: Seq<RecordModel>) -> bool {
    forall|k: int| 0 <= k < records.len() ==> sound_record(#[trigger] records[k])
}

} // verus!
