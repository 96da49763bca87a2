//! Log densities of distributions as symbolic expressions.
//!
//! Every expression names the operations of a density in the order in which they are carried out,
//! so that two evaluations of it round alike. Shapes that do not broadcast fail where the
//! expression is made, before any of it is evaluated.

use vstd::prelude::*;

use crate::error::{shape_mismatch, Error};
#[allow(unused_imports)]
use crate::error::{shape_fault, Fault};
#[allow(unused_imports)]
use crate::model::{checked, shape_outcome};
use crate::numerics::Arithmetic;
use crate::shapes::density_joint;
#[allow(unused_imports)]
use crate::shapes::{density_shapes, shapes_give, JointModel};
use crate::term::{BinaryOp, Term, UnaryOp};
use crate::text;
#[allow(unused_imports)]
use crate::text::{decimal_text, numbers_text};

verus! {

/// The bit pattern of zero.
pub const ZERO: u64 = 0;

/// The bit pattern of one half.
pub const HALF: u64 = 0x3FE0_0000_0000_0000;

/// The bit pattern of one.
pub const ONE: u64 = 0x3FF0_0000_0000_0000;

/// The bit pattern of pi.
pub const PI: u64 = 0x4009_21FB_5444_2D18;

/// The bit pattern of half the logarithm of 2 / pi.
pub const HALF_NORMAL_LEAD: u64 = 0xBFCC_E6BB_25AA_1315;

/// The bit pattern of the smallest positive normal double.
pub const MIN_POSITIVE: u64 = 0x0010_0000_0000_0000;

/// The bit pattern of one less the machine epsilon.
pub const BELOW_ONE: u64 = 0x3FEF_FFFF_FFFF_FFFE;

/// The bit pattern of negative infinity.
pub const NEGATIVE_INFINITY: u64 = 0xFFF0_0000_0000_0000;

/// An expression with the shape of its value.
#[derive(Debug)]
pub struct Var {
    pub term: Term,
    pub shape: Vec<usize>,
}

/// A distribution with its parameters as expressions.
#[derive(Debug)]
pub enum DistVars {
    Normal { loc: Var, scale: Var },
    HalfNormal { scale: Var },
    StudentT { df: Var, loc: Var, scale: Var },
    Exponential { rate: Var },
    Uniform { low: Var, high: Var },
    Beta { alpha: Var, beta: Var },
    Bernoulli { probs: Var },
    Poisson { rate: Var },
    Binomial { total_count: Var, probs: Var },
    BetaBinomial { total_count: Var, alpha: Var, beta: Var },
    NegativeBinomial { mean: Var, overdispersion: Var },
    MultivariateNormal { mean: Var, scale_tril: Var },
    OrderedLogistic { eta: Var, cutpoints: Var },
    Truncated { base: Box<DistVars>, lower: Option<Var>, upper: Option<Var> },
}

pub open spec fn double(bits: u64) -> Term {
    Term::Double(bits)
}

pub open spec fn square(x: Term) -> Term {
    x.times(x)
}

/// `x` moved into the interval from `lo` to `hi`.
pub open spec fn clipped(x: Term, lo: u64, hi: u64) -> Term {
    let raised = x.ge(double(lo)).select(x, double(lo));
    raised.le(double(hi)).select(raised, double(hi))
}

/// A log density inside a support, and negative infinity outside.
pub open spec fn masked(support: Term, log_density: Term) -> Term {
    support.select(log_density, double(NEGATIVE_INFINITY))
}

pub open spec fn half_normal(scale: Term, x: Term) -> Term {
    masked(
        x.ge(double(ZERO)),
        double(HALF_NORMAL_LEAD).minus(scale.ln()).minus(
            double(HALF).times(square(x.over(scale))),
        ),
    )
}

pub open spec fn student_t(df: Term, loc: Term, scale: Term, x: Term) -> Term {
    let half_df_plus_1 = double(HALF).times(df.plus(double(ONE)));
    half_df_plus_1.log_gamma().minus(double(HALF).times(df).log_gamma()).minus(
        double(HALF).times(df.times(double(PI)).ln()),
    ).minus(scale.ln()).minus(
        half_df_plus_1.times(square(x.minus(loc).over(scale)).over(df).ln_1p()),
    )
}

pub open spec fn exponential(rate: Term, x: Term) -> Term {
    masked(x.ge(double(ZERO)), rate.ln().minus(rate.times(x)))
}

pub open spec fn uniform(low: Term, high: Term, x: Term) -> Term {
    masked(x.ge(low).and(x.le(high)), high.minus(low).ln().neg())
}

pub open spec fn beta_support(alpha: Term, beta: Term, x: Term) -> Term {
    x.gt(double(ZERO)).and(x.lt(double(ONE))).and(
        alpha.gt(double(ZERO)).and(beta.gt(double(ZERO))),
    )
}

pub open spec fn log_beta(alpha: Term, beta: Term) -> Term {
    alpha.log_gamma().plus(beta.log_gamma()).minus(alpha.plus(beta).log_gamma())
}

pub open spec fn beta(alpha: Term, beta: Term, x: Term) -> Term {
    let safe = clipped(x, MIN_POSITIVE, BELOW_ONE);
    masked(
        beta_support(alpha, beta, x),
        alpha.minus(double(ONE)).times(safe.ln()).plus(
            beta.minus(double(ONE)).times(safe.neg().ln_1p()),
        ).minus(log_beta(alpha, beta)),
    )
}

/// Whether a term lies between zero and one.
pub open spec fn probability(p: Term) -> Term {
    p.ge(double(ZERO)).and(p.le(double(ONE)))
}

pub open spec fn bernoulli(p: Term, x: Term) -> Term {
    masked(
        x.is_integer().and(x.ge(double(ZERO))).and(x.le(double(ONE)).and(probability(p))),
        x.xlogy(p).plus(double(ONE).minus(x).xlogy(double(ONE).minus(p))),
    )
}

pub open spec fn poisson(rate: Term, x: Term) -> Term {
    masked(
        x.ge(double(ZERO)).and(x.is_integer()).and(rate.gt(double(ZERO))),
        x.times(rate.ln()).minus(rate).minus(x.plus(double(ONE)).log_gamma()),
    )
}

/// Whether a count and its total are integers that are not negative.
pub open spec fn counts(n: Term, x: Term) -> Term {
    x.is_integer().and(n.is_integer()).and(x.ge(double(ZERO)).and(n.ge(double(ZERO))))
}

/// The logarithm of the number of ways to choose.
pub open spec fn log_choose(n: Term, x: Term) -> Term {
    n.plus(double(ONE)).log_gamma().minus(x.plus(double(ONE)).log_gamma()).minus(
        n.minus(x).plus(double(ONE)).log_gamma(),
    )
}

pub open spec fn binomial(n: Term, p: Term, x: Term) -> Term {
    masked(
        counts(n, x).and(x.le(n).and(probability(p))),
        log_choose(n, x).plus(x.xlogy(p)).plus(n.minus(x).xlogy(double(ONE).minus(p))),
    )
}

pub open spec fn beta_binomial(n: Term, alpha: Term, beta: Term, x: Term) -> Term {
    masked(
        counts(n, x).and(x.le(n).and(alpha.gt(double(ZERO)).and(beta.gt(double(ZERO))))),
        log_choose(n, x).plus(
            x.plus(alpha).log_gamma().plus(n.minus(x).plus(beta).log_gamma()).minus(
                n.plus(alpha).plus(beta).log_gamma(),
            ),
        ).minus(log_beta(alpha, beta)),
    )
}

pub open spec fn negative_binomial(mean: Term, dispersion: Term, x: Term) -> Term {
    let total = mean.plus(dispersion);
    masked(
        x.is_integer().and(x.ge(double(ZERO))).and(
            mean.gt(double(ZERO)).and(dispersion.gt(double(ZERO))),
        ),
        x.plus(dispersion).log_gamma().minus(dispersion.log_gamma()).minus(
            x.plus(double(ONE)).log_gamma(),
        ).plus(dispersion.xlogy(dispersion.over(total))).plus(x.xlogy(mean.over(total))),
    )
}

/// The refusal of the shapes of a multivariate normal distribution and a value, if any.
pub open spec fn event_fault(tril: Seq<usize>, x: Seq<usize>) -> Option<Fault> {
    if tril.len() != 2 || tril[0] != tril[1] {
        Some(
            shape_fault(
                "MultivariateNormal scale_tril must be a square rank-2 matrix; got shape "@
                    + numbers_text(tril)
                    + " (batched scale factors are not supported by this backend)"@,
            ),
        )
    } else if x.len() == 0 && tril[0] != 1 {
        Some(shape_fault("MultivariateNormal values must have a trailing event dimension"@))
    } else if x.len() > 1 {
        Some(
            shape_fault(
                "batched MultivariateNormal values are not supported by this backend"@,
            ),
        )
    } else if x.len() == 1 && x[0] != tril[0] {
        Some(
            shape_fault(
                "MultivariateNormal values must have trailing dimension "@ + decimal_text(
                    tril[0] as nat,
                ) + ", got "@ + decimal_text(x[0] as nat),
            ),
        )
    } else {
        None
    }
}

pub open spec fn multivariate(mean: Term, scale_tril: Term, x: Term) -> Term {
    Term::MultivariateLogProb(
        Box::new(x.unary(UnaryOp::AsVector)),
        Box::new(mean),
        Box::new(scale_tril),
    )
}

/// The distribution functions of an ordered logistic distribution at its cutpoints.
pub open spec fn cumulative(eta: Term, cutpoints: Term) -> Term {
    cutpoints.minus(eta.unary(UnaryOp::AsColumn)).unary(UnaryOp::Sigmoid)
}

/// The probabilities of the categories that cutpoints part.
pub open spec fn categories(below: Term) -> Term {
    Term::Join(
        Box::new(below.unary(UnaryOp::First)),
        Box::new(below.unary(UnaryOp::Rest).minus(below.unary(UnaryOp::Lead))),
        Box::new(double(ONE).minus(below.unary(UnaryOp::Last))),
    )
}

pub open spec fn ordered_logistic(eta: Term, cutpoints: Term, x: Term) -> Term {
    let label = x.binary(BinaryOp::SpreadTo, eta);
    let selected = categories(cumulative(eta, cutpoints)).binary(BinaryOp::SpreadRows, x).binary(
        BinaryOp::TakeLast,
        label,
    );
    masked(
        label.is_integer().and(label.ge(double(ZERO))).and(
            label.le(cutpoints.unary(UnaryOp::Extent)).and(
                cutpoints.unary(UnaryOp::IsIncreasing).and(selected.gt(double(ZERO))),
            ),
        ),
        clipped(selected, MIN_POSITIVE, ONE).ln(),
    )
}

/// What is wrong, by what shapes broadcast to.
pub open spec fn joint_fault(joint: Result<Seq<usize>, Fault>) -> Option<Fault> {
    match joint {
        Err(fault) => Some(fault),
        Ok(_) => None,
    }
}

/// Whether broadcasting shapes can be refused like that, or pass.
pub open spec fn shapes_checked<A: Arithmetic>(
    ops: &A,
    shapes: JointModel,
    out: Option<Fault>,
) -> bool {
    exists|joint: Result<Seq<usize>, Fault>| #[trigger]
        shapes_give(ops, shapes, joint) && out == joint_fault(joint)
}

/// The refusal of the cutpoints of an ordered logistic distribution, if any.
pub open spec fn cutpoint_fault(cutpoints: Seq<usize>) -> Option<Fault> {
    if cutpoints.len() == 0 {
        Some(shape_fault("OrderedLogistic cutpoints must be a vector"@))
    } else if cutpoints.last() < 1 {
        Some(shape_fault("OrderedLogistic requires at least one cutpoint"@))
    } else if cutpoints.len() > 1 {
        Some(
            shape_fault("batched OrderedLogistic cutpoints are not supported by this backend"@),
        )
    } else {
        None
    }
}

/// The expression of an optional bound.
pub open spec fn bound_term(bound: Option<Var>) -> Option<Term> {
    match bound {
        Some(var) => Some(var.term),
        None => None,
    }
}

/// The logarithm of the mass that a normal distribution has between two standardized bounds.
pub open spec fn normal_mass(a: Term, b: Term) -> Term {
    let mirror = a.plus(b).gt(double(ZERO));
    let hi = mirror.select(a.neg().log_ndtr(), b.log_ndtr());
    let lo = mirror.select(b.neg().log_ndtr(), a.log_ndtr());
    hi.plus(lo.minus(hi).exp().neg().ln_1p())
}

pub open spec fn normal_normalizer(
    loc: Term,
    scale: Term,
    lower: Option<Term>,
    upper: Option<Term>,
) -> Term {
    match (lower, upper) {
        (Some(l), None) => l.minus(loc).over(scale).neg().log_ndtr(),
        (None, Some(u)) => u.minus(loc).over(scale).log_ndtr(),
        (Some(l), Some(u)) => normal_mass(l.minus(loc).over(scale), u.minus(loc).over(scale)),
        (None, None) => double(ZERO),
    }
}

pub open spec fn uniform_normalizer(
    low: Term,
    high: Term,
    lower: Option<Term>,
    upper: Option<Term>,
) -> Term {
    let from = match lower {
        Some(l) => l.ge(low).select(l, low),
        None => low,
    };
    let to = match upper {
        Some(u) => u.le(high).select(u, high),
        None => high,
    };
    to.minus(from).ln().minus(high.minus(low).ln())
}

pub open spec fn exponential_normalizer(rate: Term, lower: Option<Term>, upper: Option<Term>) -> Term {
    let from = match lower {
        Some(l) => l.ge(double(ZERO)).select(l, double(ZERO)),
        None => double(ZERO),
    };
    let head = rate.times(from).neg();
    match upper {
        None => head,
        Some(u) => head.plus(rate.times(u.minus(from)).neg().exp().neg().ln_1p()),
    }
}

/// The refusal of a base distribution as one to truncate, if any.
pub open spec fn base_fault(base: DistVars) -> Option<Fault> {
    if base is Normal || base is Uniform || base is Exponential {
        None
    } else {
        Some(
            shape_fault(
                "Truncated base must be a distribution with a scalar CDF and inverse CDF (Normal, Uniform, or Exponential)"@,
            ),
        )
    }
}

/// The logarithm of the mass that a base distribution has between bounds.
pub open spec fn normalizer(base: DistVars, lower: Option<Term>, upper: Option<Term>) -> Term
    recommends
        base_fault(base) is None,
{
    match base {
        DistVars::Normal { loc, scale } => normal_normalizer(loc.term, scale.term, lower, upper),
        DistVars::Uniform { low, high } => uniform_normalizer(low.term, high.term, lower, upper),
        DistVars::Exponential { rate } => exponential_normalizer(rate.term, lower, upper),
        _ => double(ZERO),
    }
}

/// A log density held to the interval between bounds.
pub open spec fn within(x: Term, lower: Option<Term>, upper: Option<Term>, lp: Term) -> Term {
    match (lower, upper) {
        (Some(l), Some(u)) => masked(x.ge(l).and(x.le(u)), lp),
        (Some(l), None) => masked(x.ge(l), lp),
        (None, Some(u)) => masked(x.le(u), lp),
        (None, None) => lp,
    }
}

/// The log density of a value as an expression. Shapes do not enter it.
pub open spec fn density_term(dist: DistVars, x: Term) -> Term
    decreases dist,
{
    match dist {
        DistVars::Normal { loc, scale } => Term::NormalLogProb(
            Box::new(x),
            Box::new(loc.term),
            Box::new(scale.term),
        ),
        DistVars::HalfNormal { scale } => half_normal(scale.term, x),
        DistVars::StudentT { df, loc, scale } => student_t(df.term, loc.term, scale.term, x),
        DistVars::Exponential { rate } => exponential(rate.term, x),
        DistVars::Uniform { low, high } => uniform(low.term, high.term, x),
        DistVars::Beta { alpha, beta } => self::beta(alpha.term, beta.term, x),
        DistVars::Bernoulli { probs } => bernoulli(probs.term, x),
        DistVars::Poisson { rate } => poisson(rate.term, x),
        DistVars::Binomial { total_count, probs } => binomial(total_count.term, probs.term, x),
        DistVars::BetaBinomial { total_count, alpha, beta } => beta_binomial(
            total_count.term,
            alpha.term,
            beta.term,
            x,
        ),
        DistVars::NegativeBinomial { mean, overdispersion } => negative_binomial(
            mean.term,
            overdispersion.term,
            x,
        ),
        DistVars::MultivariateNormal { mean, scale_tril } => multivariate(
            mean.term,
            scale_tril.term,
            x,
        ),
        DistVars::OrderedLogistic { eta, cutpoints } => ordered_logistic(
            eta.term,
            cutpoints.term,
            x,
        ),
        DistVars::Truncated { base, lower, upper } => {
            let (low, high) = (bound_term(lower), bound_term(upper));
            within(x, low, high, density_term(*base, x).minus(normalizer(*base, low, high)))
        },
    }
}

/// The refusal of the shapes of single parameters, if any.
pub open spec fn parameter_fault(dist: DistVars, x: Var) -> Option<Fault> {
    match dist {
        DistVars::MultivariateNormal { scale_tril, .. } => event_fault(
            scale_tril.shape@,
            x.shape@,
        ),
        DistVars::OrderedLogistic { cutpoints, .. } => cutpoint_fault(cutpoints.shape@),
        _ => None,
    }
}

/// Whether a truncated distribution can be refused like that, by what its base came to: a refusal
/// of the base comes first, then a base without an inverse, then shapes that do not broadcast.
pub open spec fn truncated_checked<A: Arithmetic>(
    ops: &A,
    dist: DistVars,
    x: Var,
    base: Option<Fault>,
    out: Option<Fault>,
) -> bool {
    match base {
        Some(fault) => out == Some(fault),
        None => match base_fault(*dist->base) {
            Some(fault) => out == Some(fault),
            None => shapes_checked(ops, density_shapes(dist, x), out),
        },
    }
}

/// Whether the shapes of a density can be refused like that, or pass: after the refusal of the
/// shapes of single parameters, shapes that do not broadcast are refused.
pub open spec fn density_checked<A: Arithmetic>(
    ops: &A,
    dist: DistVars,
    x: Var,
    out: Option<Fault>,
) -> bool
    decreases dist,
{
    match dist {
        DistVars::Truncated { base, .. } => exists|inner: Option<Fault>| #[trigger]
            truncated_checked(ops, dist, x, inner, out) && density_checked(ops, *base, x, inner),
        _ => match parameter_fault(dist, x) {
            Some(fault) => out == Some(fault),
            None => shapes_checked(ops, density_shapes(dist, x), out),
        },
    }
}

/// A refusal, or the expression.
pub open spec fn term_unless(refusal: Option<Fault>, term: Term) -> Result<Term, Fault> {
    match refusal {
        Some(fault) => Err(fault),
        None => Ok(term),
    }
}

/// Whether the log density of a value can come to that expression, or to that refusal of its
/// shapes.
pub open spec fn density_gives<A: Arithmetic>(
    ops: &A,
    dist: DistVars,
    x: Var,
    out: Result<Term, Fault>,
) -> bool {
    exists|refusal: Option<Fault>| #[trigger]
        density_checked(ops, dist, x, refusal) && out == term_unless(
            refusal,
            density_term(dist, x.term),
        )
}

/// The result of building an expression.
pub open spec fn term_outcome(r: Result<Term, Error>) -> Result<Term, Fault> {
    match r {
        Ok(term) => Ok(term),
        Err(error) => Err(error@),
    }
}

pub(crate) fn sum(a: &Term, b: &Term) -> (r: Term)
    ensures
        r == a.plus(*b),
{
    a.with(BinaryOp::Add, b)
}

pub(crate) fn difference(a: &Term, b: &Term) -> (r: Term)
    ensures
        r == a.minus(*b),
{
    a.with(BinaryOp::Sub, b)
}

pub(crate) fn product(a: &Term, b: &Term) -> (r: Term)
    ensures
        r == a.times(*b),
{
    a.with(BinaryOp::Mul, b)
}

fn quotient(a: &Term, b: &Term) -> (r: Term)
    ensures
        r == a.over(*b),
{
    a.with(BinaryOp::Div, b)
}

fn both_hold(a: &Term, b: &Term) -> (r: Term)
    ensures
        r == a.and(*b),
{
    a.with(BinaryOp::And, b)
}

fn at_least_zero(a: &Term) -> (r: Term)
    ensures
        r == a.ge(double(ZERO)),
{
    a.with(BinaryOp::Ge, &Term::Double(ZERO))
}

fn above_zero(a: &Term) -> (r: Term)
    ensures
        r == a.gt(double(ZERO)),
{
    a.with(BinaryOp::Gt, &Term::Double(ZERO))
}

fn log_gamma_after(a: &Term) -> (r: Term)
    ensures
        r == a.plus(double(ONE)).log_gamma(),
{
    sum(a, &Term::Double(ONE)).apply(UnaryOp::LogGamma)
}

fn log_gamma_of_sum(a: &Term, b: &Term) -> (r: Term)
    ensures
        r == a.plus(*b).log_gamma(),
{
    sum(a, b).apply(UnaryOp::LogGamma)
}

fn clip(x: &Term, lo: u64, hi: u64) -> (r: Term)
    ensures
        r == clipped(*x, lo, hi),
{
    let low: Term = Term::Double(lo);
    let high: Term = Term::Double(hi);
    let raised: Term = x.with(BinaryOp::Ge, &low).choose_between(x, &low);
    raised.with(BinaryOp::Le, &high).choose_between(&raised, &high)
}

fn mask_support(support: &Term, log_density: &Term) -> (r: Term)
    ensures
        r == masked(*support, *log_density),
{
    support.choose_between(log_density, &Term::Double(NEGATIVE_INFINITY))
}

fn half_normal_log_prob(scale: &Term, x: &Term) -> (r: Term)
    ensures
        r == half_normal(*scale, *x),
{
    let standardized: Term = quotient(x, scale);
    let squared: Term = product(&standardized, &standardized);
    let lead: Term = difference(&Term::Double(HALF_NORMAL_LEAD), &scale.apply(UnaryOp::Ln));
    let log_density: Term = difference(&lead, &product(&Term::Double(HALF), &squared));
    mask_support(&at_least_zero(x), &log_density)
}

fn student_t_log_prob(df: &Term, loc: &Term, scale: &Term, x: &Term) -> (r: Term)
    ensures
        r == student_t(*df, *loc, *scale, *x),
{
    let standardized: Term = quotient(&difference(x, loc), scale);
    let half: Term = Term::Double(HALF);
    let half_df_plus_1: Term = product(&half, &sum(df, &Term::Double(ONE)));
    let gammas: Term = difference(
        &half_df_plus_1.apply(UnaryOp::LogGamma),
        &product(&half, df).apply(UnaryOp::LogGamma),
    );
    let log_df_pi: Term = product(df, &Term::Double(PI)).apply(UnaryOp::Ln);
    let scaled: Term = difference(&gammas, &product(&half, &log_df_pi));
    let lead: Term = difference(&scaled, &scale.apply(UnaryOp::Ln));
    let squared: Term = product(&standardized, &standardized);
    let tail: Term = quotient(&squared, df).apply(UnaryOp::Ln1p);
    difference(&lead, &product(&half_df_plus_1, &tail))
}

fn exponential_log_prob(rate: &Term, x: &Term) -> (r: Term)
    ensures
        r == exponential(*rate, *x),
{
    let log_density: Term = difference(&rate.apply(UnaryOp::Ln), &product(rate, x));
    mask_support(&at_least_zero(x), &log_density)
}

fn uniform_log_prob(low: &Term, high: &Term, x: &Term) -> (r: Term)
    ensures
        r == uniform(*low, *high, *x),
{
    let log_density: Term = difference(high, low).apply(UnaryOp::Ln).apply(UnaryOp::Neg);
    let support: Term = both_hold(&x.with(BinaryOp::Ge, low), &x.with(BinaryOp::Le, high));
    mask_support(&support, &log_density)
}

fn log_beta_term(alpha: &Term, beta: &Term) -> (r: Term)
    ensures
        r == log_beta(*alpha, *beta),
{
    let gammas: Term = sum(&alpha.apply(UnaryOp::LogGamma), &beta.apply(UnaryOp::LogGamma));
    difference(&gammas, &log_gamma_of_sum(alpha, beta))
}

fn beta_log_prob(alpha: &Term, beta: &Term, x: &Term) -> (r: Term)
    ensures
        r == self::beta(*alpha, *beta, *x),
{
    let one: Term = Term::Double(ONE);
    let inside: Term = both_hold(&above_zero(x), &x.with(BinaryOp::Lt, &one));
    let positive: Term = both_hold(&above_zero(alpha), &above_zero(beta));
    let support: Term = both_hold(&inside, &positive);
    let safe: Term = clip(x, MIN_POSITIVE, BELOW_ONE);
    let first: Term = product(&difference(alpha, &one), &safe.apply(UnaryOp::Ln));
    let log_rest: Term = safe.apply(UnaryOp::Neg).apply(UnaryOp::Ln1p);
    let second: Term = product(&difference(beta, &one), &log_rest);
    let log_density: Term = difference(&sum(&first, &second), &log_beta_term(alpha, beta));
    mask_support(&support, &log_density)
}

fn is_probability(p: &Term) -> (r: Term)
    ensures
        r == probability(*p),
{
    both_hold(&at_least_zero(p), &p.with(BinaryOp::Le, &Term::Double(ONE)))
}

fn bernoulli_log_prob(p: &Term, x: &Term) -> (r: Term)
    ensures
        r == bernoulli(*p, *x),
{
    let one: Term = Term::Double(ONE);
    let whole: Term = both_hold(&x.apply(UnaryOp::IsInteger), &at_least_zero(x));
    let bounded: Term = both_hold(&x.with(BinaryOp::Le, &one), &is_probability(p));
    let first: Term = x.with(BinaryOp::XLogY, p);
    let second: Term = difference(&one, x).with(BinaryOp::XLogY, &difference(&one, p));
    mask_support(&both_hold(&whole, &bounded), &sum(&first, &second))
}

fn poisson_log_prob(rate: &Term, x: &Term) -> (r: Term)
    ensures
        r == poisson(*rate, *x),
{
    let whole: Term = both_hold(&at_least_zero(x), &x.apply(UnaryOp::IsInteger));
    let support: Term = both_hold(&whole, &above_zero(rate));
    let lead: Term = difference(&product(x, &rate.apply(UnaryOp::Ln)), rate);
    mask_support(&support, &difference(&lead, &log_gamma_after(x)))
}

fn count_support(n: &Term, x: &Term) -> (r: Term)
    ensures
        r == counts(*n, *x),
{
    let whole: Term = both_hold(&x.apply(UnaryOp::IsInteger), &n.apply(UnaryOp::IsInteger));
    both_hold(&whole, &both_hold(&at_least_zero(x), &at_least_zero(n)))
}

fn log_choose_term(n: &Term, x: &Term) -> (r: Term)
    ensures
        r == log_choose(*n, *x),
{
    let first: Term = difference(&log_gamma_after(n), &log_gamma_after(x));
    difference(&first, &log_gamma_after(&difference(n, x)))
}

fn binomial_log_prob(n: &Term, p: &Term, x: &Term) -> (r: Term)
    ensures
        r == binomial(*n, *p, *x),
{
    let bounded: Term = both_hold(&x.with(BinaryOp::Le, n), &is_probability(p));
    let support: Term = both_hold(&count_support(n, x), &bounded);
    let hits: Term = sum(&log_choose_term(n, x), &x.with(BinaryOp::XLogY, p));
    let misses: Term = difference(n, x).with(
        BinaryOp::XLogY,
        &difference(&Term::Double(ONE), p),
    );
    mask_support(&support, &sum(&hits, &misses))
}

fn beta_binomial_log_prob(n: &Term, alpha: &Term, beta: &Term, x: &Term) -> (r: Term)
    ensures
        r == beta_binomial(*n, *alpha, *beta, *x),
{
    let positive: Term = both_hold(&above_zero(alpha), &above_zero(beta));
    let bounded: Term = both_hold(&x.with(BinaryOp::Le, n), &positive);
    let support: Term = both_hold(&count_support(n, x), &bounded);
    let failures: Term = difference(n, x);
    let gammas: Term = sum(&log_gamma_of_sum(x, alpha), &log_gamma_of_sum(&failures, beta));
    let seen: Term = difference(&gammas, &log_gamma_of_sum(&sum(n, alpha), beta));
    let log_mass: Term = sum(&log_choose_term(n, x), &seen);
    mask_support(&support, &difference(&log_mass, &log_beta_term(alpha, beta)))
}

fn negative_binomial_log_prob(mean: &Term, dispersion: &Term, x: &Term) -> (r: Term)
    ensures
        r == negative_binomial(*mean, *dispersion, *x),
{
    let whole: Term = both_hold(&x.apply(UnaryOp::IsInteger), &at_least_zero(x));
    let positive: Term = both_hold(&above_zero(mean), &above_zero(dispersion));
    let support: Term = both_hold(&whole, &positive);
    let total: Term = sum(mean, dispersion);
    let gammas: Term = difference(
        &log_gamma_of_sum(x, dispersion),
        &dispersion.apply(UnaryOp::LogGamma),
    );
    let lead: Term = difference(&gammas, &log_gamma_after(x));
    let first: Term = dispersion.with(BinaryOp::XLogY, &quotient(dispersion, &total));
    let second: Term = x.with(BinaryOp::XLogY, &quotient(mean, &total));
    mask_support(&support, &sum(&sum(&lead, &first), &second))
}

fn check_event(scale_tril: &Var, x: &Var) -> (r: Result<(), Error>)
    ensures
        checked(r) == event_fault(scale_tril.shape@, x.shape@),
{
    if scale_tril.shape.len() != 2 || scale_tril.shape[0] != scale_tril.shape[1] {
        return Err(
            shape_mismatch(
                text::cat3(
                    "MultivariateNormal scale_tril must be a square rank-2 matrix; got shape ",
                    text::numbers(scale_tril.shape.as_slice()).as_str(),
                    " (batched scale factors are not supported by this backend)",
                ),
            ),
        );
    }
    let event_size: usize = scale_tril.shape[0];
    if x.shape.len() == 0 && event_size != 1 {
        return Err(
            shape_mismatch(
                "MultivariateNormal values must have a trailing event dimension".to_owned(),
            ),
        );
    }
    if x.shape.len() > 1 {
        return Err(
            shape_mismatch(
                "batched MultivariateNormal values are not supported by this backend".to_owned(),
            ),
        );
    }
    if x.shape.len() == 1 && x.shape[0] != event_size {
        return Err(
            shape_mismatch(
                text::cat4(
                    "MultivariateNormal values must have trailing dimension ",
                    text::decimal(event_size as u64).as_str(),
                    ", got ",
                    text::decimal(x.shape[0] as u64).as_str(),
                ),
            ),
        );
    }
    Ok(())
}

fn category_terms(below: &Term) -> (r: Term)
    ensures
        r == categories(*below),
{
    let first: Term = below.apply(UnaryOp::First);
    let middle: Term = difference(&below.apply(UnaryOp::Rest), &below.apply(UnaryOp::Lead));
    let last: Term = difference(&Term::Double(ONE), &below.apply(UnaryOp::Last));
    Term::Join(Box::new(first), Box::new(middle), Box::new(last))
}

fn ordered_logistic_log_prob(eta: &Term, cutpoints: &Term, x: &Term) -> (r: Term)
    ensures
        r == ordered_logistic(*eta, *cutpoints, *x),
{
    let shifted: Term = difference(cutpoints, &eta.apply(UnaryOp::AsColumn));
    let below: Term = shifted.apply(UnaryOp::Sigmoid);
    let label: Term = x.with(BinaryOp::SpreadTo, eta);
    let rows: Term = category_terms(&below).with(BinaryOp::SpreadRows, x);
    let selected: Term = rows.with(BinaryOp::TakeLast, &label);
    let last_label: Term = cutpoints.apply(UnaryOp::Extent);
    let whole: Term = both_hold(&label.apply(UnaryOp::IsInteger), &at_least_zero(&label));
    let sound: Term = both_hold(
        &cutpoints.apply(UnaryOp::IsIncreasing),
        &above_zero(&selected),
    );
    let known: Term = both_hold(&label.with(BinaryOp::Le, &last_label), &sound);
    let safe: Term = clip(&selected, MIN_POSITIVE, ONE);
    mask_support(&both_hold(&whole, &known), &safe.apply(UnaryOp::Ln))
}

fn check_cutpoints(cutpoints: &Var) -> (r: Result<(), Error>)
    ensures
        checked(r) == cutpoint_fault(cutpoints.shape@),
{
    if cutpoints.shape.len() == 0 {
        return Err(shape_mismatch("OrderedLogistic cutpoints must be a vector".to_owned()));
    }
    if cutpoints.shape[cutpoints.shape.len() - 1] < 1 {
        return Err(shape_mismatch("OrderedLogistic requires at least one cutpoint".to_owned()));
    }
    if cutpoints.shape.len() > 1 {
        return Err(
            shape_mismatch(
                "batched OrderedLogistic cutpoints are not supported by this backend".to_owned(),
            ),
        );
    }
    Ok(())
}

fn standardize(bound: &Term, loc: &Term, scale: &Term) -> (r: Term)
    ensures
        r == bound.minus(*loc).over(*scale),
{
    quotient(&difference(bound, loc), scale)
}

fn normal_mass_term(a: &Term, b: &Term) -> (r: Term)
    ensures
        r == normal_mass(*a, *b),
{
    let mirror: Term = above_zero(&sum(a, b));
    let hi: Term = mirror.choose_between(
        &a.apply(UnaryOp::Neg).apply(UnaryOp::LogNormalCdf),
        &b.apply(UnaryOp::LogNormalCdf),
    );
    let lo: Term = mirror.choose_between(
        &b.apply(UnaryOp::Neg).apply(UnaryOp::LogNormalCdf),
        &a.apply(UnaryOp::LogNormalCdf),
    );
    let ratio: Term = difference(&lo, &hi).apply(UnaryOp::Exp);
    sum(&hi, &ratio.apply(UnaryOp::Neg).apply(UnaryOp::Ln1p))
}

fn truncation_log_normalizer(base: &DistVars, lower: &Option<Var>, upper: &Option<Var>) -> (r: Term)
    ensures
        r == normalizer(*base, bound_term(*lower), bound_term(*upper)),
{
    match base {
        DistVars::Normal { loc, scale } => match (lower, upper) {
            (Some(l), None) => standardize(&l.term, &loc.term, &scale.term).apply(
                UnaryOp::Neg,
            ).apply(UnaryOp::LogNormalCdf),
            (None, Some(u)) => standardize(&u.term, &loc.term, &scale.term).apply(
                UnaryOp::LogNormalCdf,
            ),
            (Some(l), Some(u)) => normal_mass_term(
                &standardize(&l.term, &loc.term, &scale.term),
                &standardize(&u.term, &loc.term, &scale.term),
            ),
            (None, None) => Term::Double(ZERO),
        },
        DistVars::Uniform { low, high } => {
            let from: Term = match lower {
                Some(l) => l.term.with(BinaryOp::Ge, &low.term).choose_between(
                    &l.term,
                    &low.term,
                ),
                None => low.term.copy(),
            };
            let to: Term = match upper {
                Some(u) => u.term.with(BinaryOp::Le, &high.term).choose_between(
                    &u.term,
                    &high.term,
                ),
                None => high.term.copy(),
            };
            let log_width: Term = difference(&to, &from).apply(UnaryOp::Ln);
            let log_full: Term = difference(&high.term, &low.term).apply(UnaryOp::Ln);
            difference(&log_width, &log_full)
        },
        DistVars::Exponential { rate } => {
            let zero: Term = Term::Double(ZERO);
            let from: Term = match lower {
                Some(l) => at_least_zero(&l.term).choose_between(&l.term, &zero),
                None => zero,
            };
            let head: Term = product(&rate.term, &from).apply(UnaryOp::Neg);
            match upper {
                None => head,
                Some(u) => {
                    let reach: Term = product(&rate.term, &difference(&u.term, &from));
                    let survival: Term = reach.apply(UnaryOp::Neg).apply(UnaryOp::Exp);
                    sum(&head, &survival.apply(UnaryOp::Neg).apply(UnaryOp::Ln1p))
                },
            }
        },
        _ => Term::Double(ZERO),
    }
}

fn hold_within(x: &Term, lower: &Option<Var>, upper: &Option<Var>, lp: Term) -> (r: Term)
    ensures
        r == within(*x, bound_term(*lower), bound_term(*upper), lp),
{
    match (lower, upper) {
        (Some(l), Some(u)) => mask_support(
            &both_hold(&x.with(BinaryOp::Ge, &l.term), &x.with(BinaryOp::Le, &u.term)),
            &lp,
        ),
        (Some(l), None) => mask_support(&x.with(BinaryOp::Ge, &l.term), &lp),
        (None, Some(u)) => mask_support(&x.with(BinaryOp::Le, &u.term), &lp),
        (None, None) => lp,
    }
}

/// The log density of a value as an expression.
pub fn density_expression(dist: &DistVars, x: &Term) -> (r: Term)
    ensures
        r == density_term(*dist, *x),
    decreases dist,
{
    match dist {
        DistVars::Normal { loc, scale } => Term::NormalLogProb(
            Box::new(x.copy()),
            Box::new(loc.term.copy()),
            Box::new(scale.term.copy()),
        ),
        DistVars::HalfNormal { scale } => half_normal_log_prob(&scale.term, x),
        DistVars::StudentT { df, loc, scale } => student_t_log_prob(
            &df.term,
            &loc.term,
            &scale.term,
            x,
        ),
        DistVars::Exponential { rate } => exponential_log_prob(&rate.term, x),
        DistVars::Uniform { low, high } => uniform_log_prob(&low.term, &high.term, x),
        DistVars::Beta { alpha, beta } => beta_log_prob(&alpha.term, &beta.term, x),
        DistVars::Bernoulli { probs } => bernoulli_log_prob(&probs.term, x),
        DistVars::Poisson { rate } => poisson_log_prob(&rate.term, x),
        DistVars::Binomial { total_count, probs } => binomial_log_prob(
            &total_count.term,
            &probs.term,
            x,
        ),
        DistVars::BetaBinomial { total_count, alpha, beta } => beta_binomial_log_prob(
            &total_count.term,
            &alpha.term,
            &beta.term,
            x,
        ),
        DistVars::NegativeBinomial { mean, overdispersion } => negative_binomial_log_prob(
            &mean.term,
            &overdispersion.term,
            x,
        ),
        DistVars::MultivariateNormal { mean, scale_tril } => Term::MultivariateLogProb(
            Box::new(x.apply(UnaryOp::AsVector)),
            Box::new(mean.term.copy()),
            Box::new(scale_tril.term.copy()),
        ),
        DistVars::OrderedLogistic { eta, cutpoints } => ordered_logistic_log_prob(
            &eta.term,
            &cutpoints.term,
            x,
        ),
        DistVars::Truncated { base, lower, upper } => {
            let base_lp: Term = density_expression(base, x);
            let log_z: Term = truncation_log_normalizer(base, lower, upper);
            hold_within(x, lower, upper, difference(&base_lp, &log_z))
        },
    }
}

fn check_parameters(dist: &DistVars, value: &Var) -> (r: Result<(), Error>)
    ensures
        checked(r) == parameter_fault(*dist, *value),
{
    match dist {
        DistVars::MultivariateNormal { scale_tril, .. } => check_event(scale_tril, value),
        DistVars::OrderedLogistic { cutpoints, .. } => check_cutpoints(cutpoints),
        _ => Ok(()),
    }
}

fn check_base(base: &DistVars) -> (r: Result<(), Error>)
    ensures
        checked(r) == base_fault(*base),
{
    match base {
        DistVars::Normal { .. } => Ok(()),
        DistVars::Uniform { .. } => Ok(()),
        DistVars::Exponential { .. } => Ok(()),
        _ => Err(
            shape_mismatch(
                "Truncated base must be a distribution with a scalar CDF and inverse CDF (Normal, Uniform, or Exponential)".to_owned(),
            ),
        ),
    }
}

fn check_shapes<A: Arithmetic>(ops: &A, dist: &DistVars, value: &Var) -> (r: Result<(), Error>)
    requires
        ops.reliable(),
    ensures
        shapes_checked(ops, density_shapes(*dist, *value), checked(r)),
{
    let shape: Result<Vec<usize>, Error> = density_joint(dist, value).shape(ops);
    let ghost joint = shape_outcome(shape);
    assert(shapes_give(ops, density_shapes(*dist, *value), joint));
    match shape {
        Err(error) => Err(error),
        Ok(_) => Ok(()),
    }
}

/// Checks the shapes of a density, before any of it is evaluated.
pub fn check_density<A: Arithmetic>(ops: &A, dist: &DistVars, value: &Var) -> (r: Result<(), Error>)
    requires
        ops.reliable(),
    ensures
        density_checked(ops, *dist, *value, checked(r)),
    decreases dist,
{
    match dist {
        DistVars::Truncated { base, .. } => {
            let inner: Result<(), Error> = check_density(ops, base, value);
            let ghost kept = checked(inner);
            match inner {
                Err(error) => {
                    assert(truncated_checked(ops, *dist, *value, kept, Some(error@)));
                    Err(error)
                },
                Ok(()) => match check_base(base) {
                    Err(error) => {
                        assert(truncated_checked(ops, *dist, *value, kept, Some(error@)));
                        Err(error)
                    },
                    Ok(()) => {
                        let out: Result<(), Error> = check_shapes(ops, dist, value);
                        assert(truncated_checked(ops, *dist, *value, kept, checked(out)));
                        out
                    },
                },
            }
        },
        _ => match check_parameters(dist, value) {
            Err(error) => Err(error),
            Ok(()) => check_shapes(ops, dist, value),
        },
    }
}

/// The log density of a value, entry by entry or per event.
pub fn log_prob<A: Arithmetic>(ops: &A, dist: &DistVars, value: &Var) -> (r: Result<Term, Error>)
    requires
        ops.reliable(),
    ensures
        density_gives(ops, *dist, *value, term_outcome(r)),
{
    let refusal: Result<(), Error> = check_density(ops, dist, value);
    let ghost found = checked(refusal);
    assert(density_checked(ops, *dist, *value, found));
    match refusal {
        Err(error) => Err(error),
        Ok(()) => Ok(density_expression(dist, &value.term)),
    }
}

} // verus!
