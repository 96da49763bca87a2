//! What is drawn for one cell of a sampled value: the checks of its parameters, and the draws.

use vstd::prelude::*;

use crate::error::{invalid_settings, malformed, nonfinite, Error};
#[allow(unused_imports)]
use crate::error::{malformed_fault, nonfinite_fault, outcome, settings_fault, Fault};
use crate::data::copy_numbers;
#[allow(unused_imports)]
use crate::data::number_views;
use crate::ir::Distribution;
#[allow(unused_imports)]
use crate::ir::DistModel;
use crate::number::{less_than, whole_number, Number};
#[allow(unused_imports)]
use crate::number::{finite, integral, less, message_text, NumberModel};
use crate::numerics::{Draw, Randomness};
#[allow(unused_imports)]
use crate::numerics::{drawn, optional_number, DrawModel};
use crate::text;

verus! {

pub const UNIT_BITS: u64 = 0x3FF0_0000_0000_0000;

pub const THOUSAND_BITS: u64 = 0x408F_4000_0000_0000;

pub const MILLION_BITS: u64 = 0x412E_8480_0000_0000;

/// A number above zero.
pub open spec fn positive(n: NumberModel) -> bool {
    less(0, n.bits)
}

/// What is wrong with a number that must be finite.
pub open spec fn infinite_fault(n: NumberModel, context: Seq<char>) -> Option<Fault> {
    if finite(n.bits) {
        None
    } else {
        Some(nonfinite_fault(context + " must be finite, got "@ + message_text(n)))
    }
}

/// What is wrong with an optional bound that must be finite.
pub open spec fn infinite_bound(n: Option<NumberModel>, context: Seq<char>) -> Option<Fault> {
    match n {
        Some(found) => infinite_fault(found, context),
        None => None,
    }
}

/// What is wrong with a number that must be above zero.
pub open spec fn sign_fault(n: NumberModel, context: Seq<char>) -> Option<Fault> {
    if positive(n) {
        None
    } else {
        Some(nonfinite_fault(context + " must be positive, got "@ + message_text(n)))
    }
}

/// What is wrong with a shape of a gamma draw.
pub open spec fn gamma_fault(n: NumberModel) -> Option<Fault> {
    if finite(n.bits) && positive(n) {
        None
    } else {
        Some(nonfinite_fault("Gamma shape must be positive and finite, got "@ + message_text(n)))
    }
}

/// The first of two faults.
pub open spec fn or_fault(first: Option<Fault>, second: Option<Fault>) -> Option<Fault> {
    match first {
        Some(fault) => Some(fault),
        None => second,
    }
}

/// What is wrong with the parameters of a beta draw.
pub open spec fn beta_fault(alpha: NumberModel, beta: NumberModel, name: Seq<char>) -> Option<Fault> {
    if infinite_fault(alpha, name + " alpha"@) is Some {
        infinite_fault(alpha, name + " alpha"@)
    } else if gamma_fault(alpha) is Some {
        gamma_fault(alpha)
    } else if infinite_fault(beta, name + " beta"@) is Some {
        infinite_fault(beta, name + " beta"@)
    } else {
        gamma_fault(beta)
    }
}

/// What is wrong with the rate of a Poisson draw.
pub open spec fn poisson_fault(rate: NumberModel) -> Option<Fault> {
    if !finite(rate.bits) || !positive(rate) {
        Some(nonfinite_fault("Poisson rate must be positive and finite, got "@ + message_text(rate)))
    } else if less(THOUSAND_BITS, rate.bits) {
        Some(
            settings_fault(
                "prior-predictive Poisson simulation currently supports rates <= 1000; rescale the scenario or use a smaller prior draw"@,
            ),
        )
    } else {
        None
    }
}

/// A probability.
pub open spec fn in_unit(n: NumberModel) -> bool {
    !less(n.bits, 0) && !less(UNIT_BITS, n.bits)
}

/// What is wrong with the parameters of a binomial draw.
pub open spec fn binomial_fault(total_count: NumberModel, probs: NumberModel) -> Option<Fault> {
    if infinite_fault(total_count, "Binomial total_count"@) is Some {
        infinite_fault(total_count, "Binomial total_count"@)
    } else if infinite_fault(probs, "Binomial probs"@) is Some {
        infinite_fault(probs, "Binomial probs"@)
    } else if !integral(total_count.bits) || less(total_count.bits, 0) {
        Some(
            nonfinite_fault(
                "Binomial total_count must be a non-negative integer, got "@ + message_text(total_count),
            ),
        )
    } else if !in_unit(probs) {
        Some(nonfinite_fault("Binomial probs must be in [0, 1], got "@ + message_text(probs)))
    } else if less(MILLION_BITS, total_count.bits) {
        Some(
            settings_fault(
                "prior-predictive Binomial simulation currently supports total_count <= 1000000"@,
            ),
        )
    } else {
        None
    }
}

/// What is wrong with the limits of a uniform draw.
pub open spec fn uniform_fault(low: NumberModel, high: NumberModel) -> Option<Fault> {
    if infinite_fault(low, "Uniform low"@) is Some {
        infinite_fault(low, "Uniform low"@)
    } else if infinite_fault(high, "Uniform high"@) is Some {
        infinite_fault(high, "Uniform high"@)
    } else if !less(low.bits, high.bits) {
        Some(
            nonfinite_fault(
                "Uniform high must be greater than low, got low="@ + message_text(low) + ", high="@
                    + message_text(high),
            ),
        )
    } else {
        None
    }
}

/// How one cell is drawn: in one draw, or in two where the second depends on the first.
#[verifier::ext_equal]
pub enum PlanModel {
    One(DrawModel),
    /// A probability first, then a count out of `total_count`.
    ThenBinomial { probability: DrawModel, total_count: NumberModel },
    /// A rate first, then a count of that rate.
    ThenPoisson { rate: DrawModel },
}

/// A fault, or else a plan.
pub open spec fn unless(fault: Option<Fault>, plan: PlanModel) -> Result<PlanModel, Fault> {
    match fault {
        Some(found) => Err(found),
        None => Ok(plan),
    }
}

/// What sampled cells have in common.
#[verifier::ext_equal]
pub struct FamilyModel {
    /// The distribution, or the base of a truncated one.
    pub dist: DistModel,
    pub truncated: bool,
    /// Whether a row carries a lower, and an upper bound behind the parameters.
    pub lower: bool,
    pub upper: bool,
    pub cutpoints: Seq<NumberModel>,
}

/// The bounds that a row carries behind its first `k` numbers.
pub open spec fn row_lower(f: FamilyModel, row: Seq<NumberModel>, k: int) -> Option<NumberModel> {
    if f.lower {
        Some(row[k])
    } else {
        None
    }
}

pub open spec fn row_upper(f: FamilyModel, row: Seq<NumberModel>, k: int) -> Option<NumberModel> {
    if f.upper {
        Some(row[k + (if f.lower { 1int } else { 0int })])
    } else {
        None
    }
}

/// What is wrong with the bounds of a truncated draw.
pub open spec fn bounds_fault(
    lower: Option<NumberModel>,
    upper: Option<NumberModel>,
    name: Seq<char>,
) -> Option<Fault> {
    match infinite_bound(lower, "Truncated "@ + name + " lower bound"@) {
        Some(fault) => Some(fault),
        None => infinite_bound(upper, "Truncated "@ + name + " upper bound"@),
    }
}

/// The failure of a truncation that cannot be drawn.
pub open spec fn base_fault() -> Fault {
    malformed_fault(
        "Truncated base must be a distribution with a scalar CDF and inverse CDF (Normal, Uniform, or Exponential)"@,
    )
}

/// How a cell of a truncated distribution is drawn.
pub open spec fn truncated_plan(f: FamilyModel, row: Seq<NumberModel>) -> Result<PlanModel, Fault> {
    match f.dist {
        DistModel::Normal { .. } => {
            let lower = row_lower(f, row, 2);
            let upper = row_upper(f, row, 2);
            unless(
                or_fault(
                    infinite_fault(row[0], "Truncated Normal loc"@),
                    or_fault(
                        infinite_fault(row[1], "Truncated Normal scale"@),
                        or_fault(
                            sign_fault(row[1], "Normal scale"@),
                            bounds_fault(lower, upper, "Normal"@),
                        ),
                    ),
                ),
                PlanModel::One(
                    DrawModel::TruncatedNormal { loc: row[0], scale: row[1], lower, upper },
                ),
            )
        },
        DistModel::Exponential { .. } => {
            let lower = row_lower(f, row, 1);
            let upper = row_upper(f, row, 1);
            unless(
                or_fault(
                    infinite_fault(row[0], "Exponential rate"@),
                    or_fault(
                        sign_fault(row[0], "Exponential rate"@),
                        bounds_fault(lower, upper, "Exponential"@),
                    ),
                ),
                PlanModel::One(DrawModel::TruncatedExponential { rate: row[0], lower, upper }),
            )
        },
        DistModel::Uniform { .. } => {
            let lower = row_lower(f, row, 2);
            let upper = row_upper(f, row, 2);
            unless(
                or_fault(
                    uniform_fault(row[0], row[1]),
                    bounds_fault(lower, upper, "Uniform"@),
                ),
                PlanModel::One(
                    DrawModel::TruncatedUniform { low: row[0], high: row[1], lower, upper },
                ),
            )
        },
        _ => Err(base_fault()),
    }
}

/// How a cell of a location-scale or positive family is drawn.
pub open spec fn continuous_plan(f: FamilyModel, row: Seq<NumberModel>) -> Result<PlanModel, Fault> {
    match f.dist {
        DistModel::Normal { .. } => unless(
            or_fault(
                    infinite_fault(row[0], "Normal loc"@),
                    or_fault(
                        infinite_fault(row[1], "Normal scale"@),
                        sign_fault(row[1], "Normal scale"@),
                    ),
                ),
            PlanModel::One(DrawModel::Normal { loc: row[0], scale: row[1] }),
        ),
        DistModel::HalfNormal { .. } => unless(
            or_fault(
                    infinite_fault(row[0], "HalfNormal scale"@),
                    sign_fault(row[0], "HalfNormal scale"@),
                ),
            PlanModel::One(DrawModel::HalfNormal { scale: row[0] }),
        ),
        DistModel::StudentT { .. } => unless(
            or_fault(
                    infinite_fault(row[0], "StudentT df"@),
                    or_fault(
                        infinite_fault(row[1], "StudentT loc"@),
                        or_fault(
                            infinite_fault(row[2], "StudentT scale"@),
                            or_fault(
                                sign_fault(row[0], "StudentT df"@),
                                sign_fault(row[2], "StudentT scale"@),
                            ),
                        ),
                    ),
                ),
            PlanModel::One(DrawModel::StudentT { df: row[0], loc: row[1], scale: row[2] }),
        ),
        DistModel::Exponential { .. } => unless(
            or_fault(
                    infinite_fault(row[0], "Exponential rate"@),
                    sign_fault(row[0], "Exponential rate"@),
                ),
            PlanModel::One(DrawModel::Exponential { rate: row[0] }),
        ),
        DistModel::Uniform { .. } => unless(
            uniform_fault(row[0], row[1]),
            PlanModel::One(DrawModel::Uniform { low: row[0], high: row[1] }),
        ),
        DistModel::Beta { .. } => unless(
            beta_fault(row[0], row[1], "Beta"@),
            PlanModel::One(DrawModel::Beta { alpha: row[0], beta: row[1] }),
        ),
        _ => Err(base_fault()),
    }
}

/// How a cell of a counting family is drawn.
pub open spec fn discrete_plan(f: FamilyModel, row: Seq<NumberModel>) -> Result<PlanModel, Fault> {
    match f.dist {
        DistModel::Bernoulli { .. } => if infinite_fault(row[0], "Bernoulli probs"@) is Some {
            Err(infinite_fault(row[0], "Bernoulli probs"@)->0)
        } else if !in_unit(row[0]) {
            Err(nonfinite_fault("Bernoulli probs must be in [0, 1], got "@ + message_text(row[0])))
        } else {
            Ok(PlanModel::One(DrawModel::Bernoulli { probs: row[0] }))
        },
        DistModel::Poisson { .. } => unless(
            poisson_fault(row[0]),
            PlanModel::One(DrawModel::Poisson { rate: row[0] }),
        ),
        DistModel::Binomial { .. } => unless(
            binomial_fault(row[0], row[1]),
            PlanModel::One(DrawModel::Binomial { total_count: row[0], probs: row[1] }),
        ),
        DistModel::BetaBinomial { .. } => unless(
            beta_fault(row[1], row[2], "BetaBinomial"@),
            PlanModel::ThenBinomial {
                probability: DrawModel::Beta { alpha: row[1], beta: row[2] },
                total_count: row[0],
            },
        ),
        DistModel::NegativeBinomial { .. } => unless(
            or_fault(
                    infinite_fault(row[0], "NegativeBinomial mean"@),
                    or_fault(
                        infinite_fault(row[1], "NegativeBinomial overdispersion"@),
                        or_fault(
                            sign_fault(row[0], "NegativeBinomial mean"@),
                            sign_fault(row[1], "NegativeBinomial overdispersion"@),
                        ),
                    ),
                ),
            PlanModel::ThenPoisson {
                rate: DrawModel::MixedRate { mean: row[0], overdispersion: row[1] },
            },
        ),
        DistModel::OrderedLogistic { .. } => unless(
            infinite_fault(row[0], "OrderedLogistic eta"@),
            PlanModel::One(DrawModel::OrderedLogistic { eta: row[0], cutpoints: f.cutpoints }),
        ),
        _ => Err(base_fault()),
    }
}

/// Whether a family counts.
pub open spec fn counts(d: DistModel) -> bool {
    match d {
        DistModel::Bernoulli { .. } => true,
        DistModel::Poisson { .. } => true,
        DistModel::Binomial { .. } => true,
        DistModel::BetaBinomial { .. } => true,
        DistModel::NegativeBinomial { .. } => true,
        DistModel::OrderedLogistic { .. } => true,
        _ => false,
    }
}

/// How one cell is drawn, by its row of parameters; or what is wrong with them.
pub open spec fn cell_plan(f: FamilyModel, row: Seq<NumberModel>) -> Result<PlanModel, Fault> {
    if f.truncated {
        truncated_plan(f, row)
    } else if counts(f.dist) {
        discrete_plan(f, row)
    } else {
        continuous_plan(f, row)
    }
}

/// How many parameters a family takes per cell.
pub open spec fn row_width(d: DistModel) -> nat {
    match d {
        DistModel::StudentT { .. } => 3,
        DistModel::BetaBinomial { .. } => 3,
        DistModel::HalfNormal { .. } => 1,
        DistModel::Exponential { .. } => 1,
        DistModel::Bernoulli { .. } => 1,
        DistModel::Poisson { .. } => 1,
        DistModel::OrderedLogistic { .. } => 1,
        _ => 2,
    }
}

/// How many numbers a row has.
pub open spec fn full_width(f: FamilyModel) -> nat {
    row_width(f.dist) + (if f.lower {
        1nat
    } else {
        0nat
    }) + (if f.upper {
        1nat
    } else {
        0nat
    })
}

/// Whether carrying out a plan can come to that.
pub open spec fn plan_drawn<N: Randomness>(
    rand: &N,
    plan: PlanModel,
    source: N::Source,
    out: Result<(NumberModel, N::Source), Fault>,
) -> bool {
    match plan {
        PlanModel::One(kind) => rand.draw_gives(source, kind, out),
        PlanModel::ThenBinomial { probability, total_count } => exists|
            mid: Result<(NumberModel, N::Source), Fault>,
        | #[trigger]
            rand.draw_gives(source, probability, mid) && binomial_behind(rand, mid, total_count, out),
        PlanModel::ThenPoisson { rate } => exists|mid: Result<(NumberModel, N::Source), Fault>|
            #[trigger]
            rand.draw_gives(source, rate, mid) && poisson_behind(rand, mid, out),
    }
}

/// Whether a count behind a drawn probability can come to that.
pub open spec fn binomial_behind<N: Randomness>(
    rand: &N,
    mid: Result<(NumberModel, N::Source), Fault>,
    total_count: NumberModel,
    out: Result<(NumberModel, N::Source), Fault>,
) -> bool {
    match mid {
        Err(fault) => out == Err::<(NumberModel, N::Source), Fault>(fault),
        Ok(first) => match binomial_fault(total_count, first.0) {
            Some(fault) => out == Err::<(NumberModel, N::Source), Fault>(fault),
            None => rand.draw_gives(
                first.1,
                DrawModel::Binomial { total_count, probs: first.0 },
                out,
            ),
        },
    }
}

/// Whether a count behind a drawn rate can come to that.
pub open spec fn poisson_behind<N: Randomness>(
    rand: &N,
    mid: Result<(NumberModel, N::Source), Fault>,
    out: Result<(NumberModel, N::Source), Fault>,
) -> bool {
    match mid {
        Err(fault) => out == Err::<(NumberModel, N::Source), Fault>(fault),
        Ok(first) => match poisson_fault(first.0) {
            Some(fault) => out == Err::<(NumberModel, N::Source), Fault>(fault),
            None => rand.draw_gives(first.1, DrawModel::Poisson { rate: first.0 }, out),
        },
    }
}

/// Whether drawing one cell can come to that.
pub open spec fn cell_drawn<N: Randomness>(
    rand: &N,
    f: FamilyModel,
    row: Seq<NumberModel>,
    source: N::Source,
    out: Result<(NumberModel, N::Source), Fault>,
) -> bool {
    match cell_plan(f, row) {
        Err(fault) => out == Err::<(NumberModel, N::Source), Fault>(fault),
        Ok(plan) => plan_drawn(rand, plan, source, out),
    }
}

/// The view of a check that says nothing on success.
pub open spec fn fault_of(r: Result<(), Error>) -> Option<Fault> {
    match r {
        Ok(_) => None,
        Err(error) => Some(error@),
    }
}

pub fn check_finite(n: &Number, context: &str) -> (r: Result<(), Error>)
    ensures
        fault_of(r) == infinite_fault(n@, context@),
{
    if n.is_finite() {
        Ok(())
    } else {
        Err(nonfinite(text::cat3(context, " must be finite, got ", n.shown().as_str())))
    }
}

fn check_bound(n: Option<&Number>, context: &str) -> (r: Result<(), Error>)
    ensures
        fault_of(r) == infinite_bound(borrowed_number(n), context@),
{
    match n {
        Some(found) => check_finite(found, context),
        None => Ok(()),
    }
}

/// The view of an optional borrowed number.
pub open spec fn borrowed_number(n: Option<&Number>) -> Option<NumberModel> {
    match n {
        Some(found) => Some(found@),
        None => None,
    }
}

pub fn check_sign(n: &Number, context: &str) -> (r: Result<(), Error>)
    ensures
        fault_of(r) == sign_fault(n@, context@),
{
    if less_than(0, n.bits) {
        Ok(())
    } else {
        Err(nonfinite(text::cat3(context, " must be positive, got ", n.shown().as_str())))
    }
}

fn check_gamma(n: &Number) -> (r: Result<(), Error>)
    ensures
        fault_of(r) == gamma_fault(n@),
{
    if n.is_finite() && less_than(0, n.bits) {
        Ok(())
    } else {
        Err(
            nonfinite(
                text::cat2("Gamma shape must be positive and finite, got ", n.shown().as_str()),
            ),
        )
    }
}

fn check_beta(alpha: &Number, beta: &Number, name: &str) -> (r: Result<(), Error>)
    ensures
        fault_of(r) == beta_fault(alpha@, beta@, name@),
{
    check_finite(alpha, text::cat2(name, " alpha").as_str())?;
    check_gamma(alpha)?;
    check_finite(beta, text::cat2(name, " beta").as_str())?;
    check_gamma(beta)
}

fn check_poisson(rate: &Number) -> (r: Result<(), Error>)
    ensures
        fault_of(r) == poisson_fault(rate@),
{
    if !rate.is_finite() || !less_than(0, rate.bits) {
        return Err(
            nonfinite(
                text::cat2("Poisson rate must be positive and finite, got ", rate.shown().as_str()),
            ),
        );
    }
    if less_than(THOUSAND_BITS, rate.bits) {
        return Err(
            invalid_settings(
                "prior-predictive Poisson simulation currently supports rates <= 1000; rescale the scenario or use a smaller prior draw".to_owned(),
            ),
        );
    }
    Ok(())
}

fn check_binomial(total_count: &Number, probs: &Number) -> (r: Result<(), Error>)
    ensures
        fault_of(r) == binomial_fault(total_count@, probs@),
{
    check_finite(total_count, "Binomial total_count")?;
    check_finite(probs, "Binomial probs")?;
    if whole_number(total_count.bits).is_none() || less_than(total_count.bits, 0) {
        return Err(
            nonfinite(
                text::cat2(
                    "Binomial total_count must be a non-negative integer, got ",
                    total_count.shown().as_str(),
                ),
            ),
        );
    }
    if less_than(probs.bits, 0) || less_than(UNIT_BITS, probs.bits) {
        return Err(
            nonfinite(
                text::cat2("Binomial probs must be in [0, 1], got ", probs.shown().as_str()),
            ),
        );
    }
    if less_than(MILLION_BITS, total_count.bits) {
        return Err(
            invalid_settings(
                "prior-predictive Binomial simulation currently supports total_count <= 1000000".to_owned(),
            ),
        );
    }
    Ok(())
}

fn check_uniform(low: &Number, high: &Number) -> (r: Result<(), Error>)
    ensures
        fault_of(r) == uniform_fault(low@, high@),
{
    check_finite(low, "Uniform low")?;
    check_finite(high, "Uniform high")?;
    if !less_than(low.bits, high.bits) {
        return Err(
            nonfinite(
                text::cat4(
                    "Uniform high must be greater than low, got low=",
                    low.shown().as_str(),
                    ", high=",
                    high.shown().as_str(),
                ),
            ),
        );
    }
    Ok(())
}

/// What sampled cells have in common.
pub struct Family<'a> {
    pub dist: &'a Distribution,
    pub truncated: bool,
    pub lower: bool,
    pub upper: bool,
    pub cutpoints: Vec<Number>,
}

impl<'a> View for Family<'a> {
    type V = FamilyModel;

    open spec fn view(&self) -> FamilyModel {
        FamilyModel {
            dist: self.dist@,
            truncated: self.truncated,
            lower: self.lower,
            upper: self.upper,
            cutpoints: number_views(self.cutpoints@),
        }
    }
}

/// How one cell is drawn.
pub enum Plan {
    One(Draw),
    ThenBinomial { probability: Draw, total_count: Number },
    ThenPoisson { rate: Draw },
}

impl View for Plan {
    type V = PlanModel;

    open spec fn view(&self) -> PlanModel {
        match *self {
            Plan::One(kind) => PlanModel::One(kind@),
            Plan::ThenBinomial { probability, total_count } => PlanModel::ThenBinomial {
                probability: probability@,
                total_count: total_count@,
            },
            Plan::ThenPoisson { rate } => PlanModel::ThenPoisson { rate: rate@ },
        }
    }
}

fn copy_bound(n: Option<&Number>) -> (r: Option<Number>)
    ensures
        optional_number(r) == borrowed_number(n),
{
    match n {
        Some(found) => Some(found.copy()),
        None => None,
    }
}

impl<'a> Family<'a> {
    fn lower_of<'b>(&self, row: &'b Vec<Number>, k: usize) -> (r: Option<&'b Number>)
        requires
            self.lower ==> k < row.len(),
        ensures
            borrowed_number(r) == row_lower(self@, number_views(row@), k as int),
    {
        if self.lower {
            Some(&row[k])
        } else {
            None
        }
    }

    fn upper_of<'b>(&self, row: &'b Vec<Number>, k: usize) -> (r: Option<&'b Number>)
        requires
            k < 3,
            self.upper ==> k + (if self.lower { 1int } else { 0int }) < row.len(),
        ensures
            borrowed_number(r) == row_upper(self@, number_views(row@), k as int),
    {
        if self.upper {
            let at: usize = if self.lower {
                k + 1
            } else {
                k
            };
            Some(&row[at])
        } else {
            None
        }
    }

    fn check_bounds(&self, row: &Vec<Number>, k: usize, name: &str) -> (r: Result<(), Error>)
        requires
            k < 3,
            self.lower ==> k < row.len(),
            self.upper ==> k + (if self.lower { 1int } else { 0int }) < row.len(),
        ensures
            fault_of(r) == bounds_fault(
                row_lower(self@, number_views(row@), k as int),
                row_upper(self@, number_views(row@), k as int),
                name@,
            ),
    {
        check_bound(
            self.lower_of(row, k),
            text::cat3("Truncated ", name, " lower bound").as_str(),
        )?;
        check_bound(
            self.upper_of(row, k),
            text::cat3("Truncated ", name, " upper bound").as_str(),
        )
    }

    fn plan_truncated(&self, row: &Vec<Number>) -> (r: Result<Plan, Error>)
        requires
            row@.len() == full_width(self@),
            self.truncated,
        ensures
            outcome(r) == truncated_plan(self@, number_views(row@)),
    {
        let ghost numbers = number_views(row@);
        match self.dist {
            Distribution::Normal { .. } => {
                assert(numbers[0] == row@[0]@ && numbers[1] == row@[1]@);
                check_finite(&row[0], "Truncated Normal loc")?;
                check_finite(&row[1], "Truncated Normal scale")?;
                check_sign(&row[1], "Normal scale")?;
                self.check_bounds(row, 2, "Normal")?;
                Ok(
                    Plan::One(
                        Draw::TruncatedNormal {
                            loc: row[0].copy(),
                            scale: row[1].copy(),
                            lower: copy_bound(self.lower_of(row, 2)),
                            upper: copy_bound(self.upper_of(row, 2)),
                        },
                    ),
                )
            },
            Distribution::Exponential { .. } => {
                assert(numbers[0] == row@[0]@);
                check_finite(&row[0], "Exponential rate")?;
                check_sign(&row[0], "Exponential rate")?;
                self.check_bounds(row, 1, "Exponential")?;
                Ok(
                    Plan::One(
                        Draw::TruncatedExponential {
                            rate: row[0].copy(),
                            lower: copy_bound(self.lower_of(row, 1)),
                            upper: copy_bound(self.upper_of(row, 1)),
                        },
                    ),
                )
            },
            Distribution::Uniform { .. } => {
                assert(numbers[0] == row@[0]@ && numbers[1] == row@[1]@);
                check_uniform(&row[0], &row[1])?;
                self.check_bounds(row, 2, "Uniform")?;
                Ok(
                    Plan::One(
                        Draw::TruncatedUniform {
                            low: row[0].copy(),
                            high: row[1].copy(),
                            lower: copy_bound(self.lower_of(row, 2)),
                            upper: copy_bound(self.upper_of(row, 2)),
                        },
                    ),
                )
            },
            _ => Err(base_error()),
        }
    }

    fn plan_continuous(&self, row: &Vec<Number>) -> (r: Result<Plan, Error>)
        requires
            row@.len() == full_width(self@),
        ensures
            outcome(r) == continuous_plan(self@, number_views(row@)),
    {
        let ghost numbers = number_views(row@);
        assert forall|k: int| 0 <= k < row@.len() implies numbers[k] == (#[trigger] row@[k])@ by {}
        match self.dist {
            Distribution::Normal { .. } => {
                check_finite(&row[0], "Normal loc")?;
                check_finite(&row[1], "Normal scale")?;
                check_sign(&row[1], "Normal scale")?;
                Ok(Plan::One(Draw::Normal { loc: row[0].copy(), scale: row[1].copy() }))
            },
            Distribution::HalfNormal { .. } => {
                check_finite(&row[0], "HalfNormal scale")?;
                check_sign(&row[0], "HalfNormal scale")?;
                Ok(Plan::One(Draw::HalfNormal { scale: row[0].copy() }))
            },
            Distribution::StudentT { .. } => {
                check_finite(&row[0], "StudentT df")?;
                check_finite(&row[1], "StudentT loc")?;
                check_finite(&row[2], "StudentT scale")?;
                check_sign(&row[0], "StudentT df")?;
                check_sign(&row[2], "StudentT scale")?;
                Ok(
                    Plan::One(
                        Draw::StudentT {
                            df: row[0].copy(),
                            loc: row[1].copy(),
                            scale: row[2].copy(),
                        },
                    ),
                )
            },
            Distribution::Exponential { .. } => {
                check_finite(&row[0], "Exponential rate")?;
                check_sign(&row[0], "Exponential rate")?;
                Ok(Plan::One(Draw::Exponential { rate: row[0].copy() }))
            },
            Distribution::Uniform { .. } => {
                check_uniform(&row[0], &row[1])?;
                Ok(Plan::One(Draw::Uniform { low: row[0].copy(), high: row[1].copy() }))
            },
            Distribution::Beta { .. } => {
                check_beta(&row[0], &row[1], "Beta")?;
                Ok(Plan::One(Draw::Beta { alpha: row[0].copy(), beta: row[1].copy() }))
            },
            _ => Err(base_error()),
        }
    }

    fn plan_discrete(&self, row: &Vec<Number>) -> (r: Result<Plan, Error>)
        requires
            row@.len() == full_width(self@),
        ensures
            outcome(r) == discrete_plan(self@, number_views(row@)),
    {
        let ghost numbers = number_views(row@);
        assert forall|k: int| 0 <= k < row@.len() implies numbers[k] == (#[trigger] row@[k])@ by {}
        match self.dist {
            Distribution::Bernoulli { .. } => {
                check_finite(&row[0], "Bernoulli probs")?;
                if less_than(row[0].bits, 0) || less_than(UNIT_BITS, row[0].bits) {
                    return Err(
                        nonfinite(
                            text::cat2(
                                "Bernoulli probs must be in [0, 1], got ",
                                row[0].shown().as_str(),
                            ),
                        ),
                    );
                }
                Ok(Plan::One(Draw::Bernoulli { probs: row[0].copy() }))
            },
            Distribution::Poisson { .. } => {
                check_poisson(&row[0])?;
                Ok(Plan::One(Draw::Poisson { rate: row[0].copy() }))
            },
            Distribution::Binomial { .. } => {
                check_binomial(&row[0], &row[1])?;
                Ok(Plan::One(Draw::Binomial { total_count: row[0].copy(), probs: row[1].copy() }))
            },
            Distribution::BetaBinomial { .. } => {
                check_beta(&row[1], &row[2], "BetaBinomial")?;
                Ok(
                    Plan::ThenBinomial {
                        probability: Draw::Beta { alpha: row[1].copy(), beta: row[2].copy() },
                        total_count: row[0].copy(),
                    },
                )
            },
            Distribution::NegativeBinomial { .. } => {
                check_finite(&row[0], "NegativeBinomial mean")?;
                check_finite(&row[1], "NegativeBinomial overdispersion")?;
                check_sign(&row[0], "NegativeBinomial mean")?;
                check_sign(&row[1], "NegativeBinomial overdispersion")?;
                Ok(
                    Plan::ThenPoisson {
                        rate: Draw::MixedRate {
                            mean: row[0].copy(),
                            overdispersion: row[1].copy(),
                        },
                    },
                )
            },
            Distribution::OrderedLogistic { .. } => {
                check_finite(&row[0], "OrderedLogistic eta")?;
                Ok(
                    Plan::One(
                        Draw::OrderedLogistic {
                            eta: row[0].copy(),
                            cutpoints: copy_numbers(&self.cutpoints),
                        },
                    ),
                )
            },
            _ => Err(base_error()),
        }
    }

    /// How one cell is drawn.
    pub fn plan(&self, row: &Vec<Number>) -> (r: Result<Plan, Error>)
        requires
            row@.len() == full_width(self@),
        ensures
            outcome(r) == cell_plan(self@, number_views(row@)),
    {
        if self.truncated {
            return self.plan_truncated(row);
        }
        match self.dist {
            Distribution::Bernoulli { .. }
            | Distribution::Poisson { .. }
            | Distribution::Binomial { .. }
            | Distribution::BetaBinomial { .. }
            | Distribution::NegativeBinomial { .. }
            | Distribution::OrderedLogistic { .. } => self.plan_discrete(row),
            _ => self.plan_continuous(row),
        }
    }

    /// Draws one cell.
    pub fn draw_cell<N: Randomness>(&self, rand: &N, row: &Vec<Number>, source: N::Source) -> (r: Result<
        (Number, N::Source),
        Error,
    >)
        requires
            rand.ready(),
            row@.len() == full_width(self@),
        ensures
            cell_drawn(rand, self@, number_views(row@), source, drawn(r)),
    {
        let plan: Plan = self.plan(row)?;
        match plan {
            Plan::One(kind) => rand.draw(source, &kind),
            Plan::ThenBinomial { probability, total_count } => {
                let mid: Result<(Number, N::Source), Error> = rand.draw(source, &probability);
                assert(rand.draw_gives(source, probability@, drawn(mid)));
                match mid {
                    Err(error) => Err(error),
                    Ok(first) => {
                        check_binomial(&total_count, &first.0)?;
                        rand.draw(first.1, &Draw::Binomial { total_count, probs: first.0 })
                    },
                }
            },
            Plan::ThenPoisson { rate } => {
                let mid: Result<(Number, N::Source), Error> = rand.draw(source, &rate);
                assert(rand.draw_gives(source, rate@, drawn(mid)));
                match mid {
                    Err(error) => Err(error),
                    Ok(first) => {
                        check_poisson(&first.0)?;
                        rand.draw(first.1, &Draw::Poisson { rate: first.0 })
                    },
                }
            },
        }
    }
}

fn base_error() -> (r: Error)
    ensures
        r@ == base_fault(),
{
    malformed(
        "Truncated base must be a distribution with a scalar CDF and inverse CDF (Normal, Uniform, or Exponential)".to_owned(),
    )
}

} // verus!
