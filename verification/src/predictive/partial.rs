//! Drawing a vector of which some entries are missing.

use vstd::prelude::*;

#[allow(unused_imports)]
use crate::artifact::cells;
use crate::bounds::ResolvedConstraint;
#[allow(unused_imports)]
use crate::bounds::{optional_numbers, ResolvedModel};
#[allow(unused_imports)]
use crate::data::{number_views, numbers_outcome};
use crate::error::{invalid_settings, shape_mismatch, Error};
#[allow(unused_imports)]
use crate::error::{outcome, settings_fault, shape_fault, Fault};
#[allow(unused_imports)]
use crate::investigation::manifest::list_outcome;
use crate::ir::{distribution_exprs, Distribution, Expr};
#[allow(unused_imports)]
use crate::ir::{dist_params, DistModel, ExprModel};
use crate::number::{size_of_number, whole_number, Number};
#[allow(unused_imports)]
use crate::number::{integer_value, integral, machine_size, NumberModel};
use crate::numerics::{Arithmetic, Randomness};
use crate::tensor::Tensor;
#[allow(unused_imports)]
use crate::tensor::{full, TensorModel};
use crate::text;
#[allow(unused_imports)]
use crate::text::{decimal_text, numbers_text};

use super::forward::{position_list, scatter_into, wrap_scatter_index, ForwardEnv};
#[allow(unused_imports)]
use super::forward::{env_full, evaluated, positions_of, scattered, wrapped_index, EnvModel};
use super::records::{record_of, PriorPredictiveRole, PriorPredictiveSite};
#[allow(unused_imports)]
use super::records::{value_record, RecordModel};
use super::restricted::{as_vector, sample_vector_bounds_restricted};
#[allow(unused_imports)]
use super::restricted::{bounded_vector_fault, lemma_vector_full, restricted_sampled, vector};
use super::sampling::{evaluate_all, sample_distribution};
#[allow(unused_imports)]
use super::sampling::{all_evaluated, sample_outcome, sampled};
use super::setup::FreeSpec;
#[allow(unused_imports)]
use super::setup::FreeSpecModel;

verus! {

/// What a drawn site gives: its record, its value, and a value for later sites.
#[derive(Debug)]
pub struct Step {
    pub record: PriorPredictiveSite,
    pub value: Tensor,
    pub name: String,
    pub given: Tensor,
}

/// The mathematical content of a [`Step`].
#[verifier::ext_equal]
pub struct StepModel {
    pub record: RecordModel,
    pub value: TensorModel,
    pub name: Seq<char>,
    pub given: TensorModel,
}

impl View for Step {
    type V = StepModel;

    open spec fn view(&self) -> StepModel {
        StepModel {
            record: self.record@,
            value: self.value@,
            name: self.name@,
            given: self.given@,
        }
    }
}

/// The view of a step, with the source behind it.
pub open spec fn step_outcome<S>(r: Result<(Step, S), Error>) -> Result<(StepModel, S), Fault> {
    match r {
        Ok(found) => Ok((found.0@, found.1)),
        Err(error) => Err(error@),
    }
}

/// The step of a vector with missing entries.
pub open spec fn partial_step(
    site: Seq<char>,
    free_name: Seq<char>,
    value: TensorModel,
    missing: TensorModel,
) -> StepModel {
    StepModel {
        record: value_record(site, site, PriorPredictiveRole::Observed, value),
        value,
        name: free_name,
        given: missing,
    }
}

/// The entries at some places.
pub open spec fn picked(values: Seq<NumberModel>, positions: Seq<i64>, len: usize) -> Result<
    Seq<NumberModel>,
    Fault,
>
    decreases positions.len(),
{
    if positions.len() == 0 {
        Ok(Seq::empty())
    } else {
        match picked(values, positions.drop_last(), len) {
            Err(fault) => Err(fault),
            Ok(before) => match wrapped_index(positions.last(), len) {
                Err(fault) => Err(fault),
                Ok(place) => Ok(before.push(values[place])),
            },
        }
    }
}

proof fn lemma_picked_fail(values: Seq<NumberModel>, positions: Seq<i64>, len: usize, n: int)
    requires
        0 <= n <= positions.len(),
        picked(values, positions.take(n), len) is Err,
    ensures
        picked(values, positions, len) == picked(values, positions.take(n), len),
    decreases positions.len(),
{
    if n < positions.len() {
        assert(positions.drop_last().take(n) =~= positions.take(n));
        lemma_picked_fail(values, positions.drop_last(), len, n);
    } else {
        assert(positions.take(n) =~= positions);
    }
}

fn pick(values: &Vec<Number>, positions: &Vec<i64>) -> (r: Result<Vec<Number>, Error>)
    ensures
        numbers_outcome(r) == picked(number_views(values@), positions@, values@.len() as usize),
        r is Ok ==> r->Ok_0@.len() == positions@.len(),
{
    let ghost all = number_views(values@);
    let ghost places = positions@;
    let mut out: Vec<Number> = Vec::new();
    assert(number_views(out@) =~= Seq::empty());
    assert(places.take(0) =~= Seq::empty());
    let mut i: usize = 0;
    while i < positions.len()
        invariant
            i <= positions.len(),
            out.len() == i,
            all == number_views(values@),
            places == positions@,
            picked(all, places.take(i as int), values@.len() as usize) == Ok::<
                Seq<NumberModel>,
                Fault,
            >(number_views(out@)),
        decreases positions.len() - i,
    {
        proof {
            let done = places.take(i + 1);
            assert(done.drop_last() =~= places.take(i as int));
            assert(done.last() == places[i as int]);
        }
        match wrap_scatter_index(positions[i], values.len()) {
            Err(error) => {
                proof {
                    lemma_picked_fail(all, places, values@.len() as usize, i + 1);
                }
                return Err(error);
            },
            Ok(place) => {
                let ghost before = out@;
                out.push(values[place].copy());
                proof {
                    assert(all[place as int] == values@[place as int]@);
                    assert(number_views(out@) =~= number_views(before).push(all[place as int]));
                }
            },
        }
        i += 1;
    }
    assert(places.take(i as int) =~= places);
    Ok(out)
}

/// The vector with its missing entries put in.
pub open spec fn overlaid<S>(
    site: Seq<char>,
    free_name: Seq<char>,
    value: TensorModel,
    positions: Seq<i64>,
    missing: Result<(TensorModel, S), Fault>,
) -> Result<(StepModel, S), Fault> {
    match missing {
        Err(fault) => Err(fault),
        Ok((entries, after)) => match scattered(value.values, positions, entries.values) {
            Err(fault) => Err(fault),
            Ok(values) => Ok(
                (
                    partial_step(
                        site,
                        free_name,
                        TensorModel { shape: value.shape, values },
                        entries,
                    ),
                    after,
                ),
            ),
        },
    }
}

/// The vector with its missing entries read off.
pub open spec fn read_off<S>(
    site: Seq<char>,
    free_name: Seq<char>,
    value: TensorModel,
    positions: Seq<i64>,
    length: usize,
    after: S,
) -> Result<(StepModel, S), Fault> {
    match picked(value.values, positions, length) {
        Err(fault) => Err(fault),
        Ok(entries) => Ok((partial_step(site, free_name, value, vector(entries)), after)),
    }
}

/// A site with missing entries: its name, its distribution, and the free value that holds them.
#[verifier::ext_equal]
pub struct PartialModel {
    pub site: Seq<char>,
    pub distribution: DistModel,
    pub free_name: Seq<char>,
    pub spec: FreeSpecModel,
}

/// Whether the missing entries of a drawn vector can come to that.
pub open spec fn missing_drawn<A: Arithmetic, N: Randomness>(
    ops: &A,
    rand: &N,
    env: EnvModel,
    p: PartialModel,
    length: usize,
    positions: Seq<i64>,
    base: Result<(TensorModel, N::Source), Fault>,
    out: Result<(StepModel, N::Source), Fault>,
) -> bool {
    match base {
        Err(fault) => out == Err::<(StepModel, N::Source), Fault>(fault),
        Ok((value, mid)) => match p.spec.constraint {
            Some(ResolvedModel::VectorBounds { lower, upper }) => exists|
                missing: Result<(TensorModel, N::Source), Fault>,
            | #[trigger]
                restricted_sampled(
                    ops,
                    rand,
                    env,
                    p.distribution,
                    lower,
                    upper,
                    positions.len() as usize,
                    mid,
                    missing,
                ) && out == overlaid(p.site, p.free_name, value, positions, missing),
            _ => out == read_off(p.site, p.free_name, value, positions, length, mid),
        },
    }
}

/// Whether the evaluation of the parameters of a bounded multivariate normal can come to that
/// failure.
pub open spec fn bounded_refused<A: Arithmetic>(
    ops: &A,
    env: EnvModel,
    d: DistModel,
    fault: Fault,
) -> bool {
    exists|params: Result<Seq<TensorModel>, Fault>| #[trigger]
        all_evaluated(ops, dist_params(d), env, params) && fault == (match params {
            Err(failure) => failure,
            Ok(_) => bounded_vector_fault(),
        })
}

/// The shape of a vector.
pub open spec fn one_axis(length: usize) -> Seq<usize> {
    seq![length]
}

/// Whether a vector with missing entries at those places can come to that.
pub open spec fn vector_drawn_at<A: Arithmetic, N: Randomness>(
    ops: &A,
    rand: &N,
    env: EnvModel,
    p: PartialModel,
    length: usize,
    positions: Result<Seq<i64>, Fault>,
    source: N::Source,
    out: Result<(StepModel, N::Source), Fault>,
) -> bool {
    match positions {
        Err(fault) => out == Err::<(StepModel, N::Source), Fault>(fault),
        Ok(places) => if p.spec.shape != seq![places.len() as usize] {
            out == Err::<(StepModel, N::Source), Fault>(
                shape_fault(
                    "PartiallyObserved site \""@ + p.site
                        + "\" missing_values free value has shape "@ + numbers_text(p.spec.shape)
                        + ", but missing_idx has "@ + decimal_text(places.len())
                        + " entries; scatter values must match their index vectors in length"@,
                ),
            )
        } else if p.spec.constraint is Some && !(p.spec.constraint->0 is VectorBounds) {
            out == Err::<(StepModel, N::Source), Fault>(
                settings_fault(
                    "prior-predictive PartiallyObserved site \""@ + p.site
                        + "\" has a constrained missing_values free value; only VectorBounds or unconstrained free values are supported"@,
                ),
            )
        } else if p.spec.constraint is Some && p.distribution is MultivariateNormal {
            out is Err && bounded_refused(
                ops,
                env,
                p.distribution,
                out->Err_0,
            )
        } else {
            exists|base: Result<(TensorModel, N::Source), Fault>| #[trigger]
                sampled(ops, rand, env, p.distribution, Some(one_axis(length)), source, base)
                    && missing_drawn(ops, rand, env, p, length, places, base, out)
        },
    }
}

/// Whether a tensor is a length.
pub open spec fn is_length(t: TensorModel) -> bool {
    t.shape.len() == 0 && integral(t.values[0].bits) && integer_value(t.values[0].bits) >= 0
}

/// Whether a vector with missing entries can come to that, by what its length came to.
pub open spec fn vector_drawn_of<A: Arithmetic, N: Randomness>(
    ops: &A,
    rand: &N,
    env: EnvModel,
    p: PartialModel,
    missing_idx: ExprModel,
    length: Result<TensorModel, Fault>,
    source: N::Source,
    out: Result<(StepModel, N::Source), Fault>,
) -> bool {
    match length {
        Err(fault) => out == Err::<(StepModel, N::Source), Fault>(fault),
        Ok(t) => if !is_length(t) {
            out == Err::<(StepModel, N::Source), Fault>(
                shape_fault(
                    "PartiallyObserved site \""@ + p.site
                        + "\" length must be a non-negative integer scalar"@,
                ),
            )
        } else {
            exists|index: Result<TensorModel, Fault>| #[trigger]
                evaluated(ops, missing_idx, env, index) && vector_drawn_at(
                    ops,
                    rand,
                    env,
                    p,
                    machine_size(integer_value(t.values[0].bits)),
                    positions_of(index),
                    source,
                    out,
                )
        },
    }
}

/// Whether drawing a vector with missing entries can come to that.
pub open spec fn partial_drawn<A: Arithmetic, N: Randomness>(
    ops: &A,
    rand: &N,
    env: EnvModel,
    p: PartialModel,
    length: ExprModel,
    missing_idx: ExprModel,
    source: N::Source,
    out: Result<(StepModel, N::Source), Fault>,
) -> bool {
    exists|size: Result<TensorModel, Fault>| #[trigger]
        evaluated(ops, length, env, size) && vector_drawn_of(
            ops,
            rand,
            env,
            p,
            missing_idx,
            size,
            source,
            out,
        )
}

fn make_step(site: &str, free_name: &str, value: Tensor, missing: Tensor) -> (r: Step)
    ensures
        r@ == partial_step(site@, free_name@, value@, missing@),
{
    Step {
        record: record_of(site, site, PriorPredictiveRole::Observed, &value),
        value,
        name: free_name.to_owned(),
        given: missing,
    }
}

proof fn lemma_vector_length(t: TensorModel, length: usize)
    requires
        full(t),
        t.shape == seq![length],
    ensures
        t.values.len() == length,
{
    let shape = seq![length];
    assert(shape.drop_last() =~= Seq::empty());
    reveal_with_fuel(cells, 2);
    assert(1 * (length as nat) == length as nat) by (nonlinear_arith);
}

proof fn lemma_scattered_length(base: Seq<NumberModel>, positions: Seq<i64>, values: Seq<NumberModel>)
    requires
        scattered(base, positions, values) is Ok,
    ensures
        scattered(base, positions, values)->Ok_0.len() == base.len(),
    decreases positions.len(),
{
    if positions.len() > 0 {
        lemma_scattered_length(base, positions.drop_last(), values);
    }
}

/// A site with missing entries, borrowed.
pub struct Partial<'a> {
    pub site: &'a str,
    pub distribution: &'a Distribution,
    pub free_name: &'a str,
    pub spec: &'a FreeSpec,
}

impl<'a> View for Partial<'a> {
    type V = PartialModel;

    open spec fn view(&self) -> PartialModel {
        PartialModel {
            site: self.site@,
            distribution: self.distribution@,
            free_name: self.free_name@,
            spec: self.spec@,
        }
    }
}

impl<'a> Partial<'a> {
    fn draw_missing<A: Arithmetic, N: Randomness>(
        &self,
        ops: &A,
        rand: &N,
        env: &ForwardEnv,
        length: usize,
        positions: &Vec<i64>,
        value: Tensor,
        mid: N::Source,
    ) -> (r: Result<(Step, N::Source), Error>)
        requires
            ops.reliable(),
            rand.ready(),
            env_full(env@),
            full(value@),
            value@.shape == seq![length],
            self@.spec.constraint is Some ==> self@.spec.constraint->0 is VectorBounds,
        ensures
            missing_drawn(
                ops,
                rand,
                env@,
                self@,
                length,
                positions@,
                Ok((value@, mid)),
                step_outcome(r),
            ),
            r is Ok ==> full(r->Ok_0.0@.value) && full(r->Ok_0.0@.given),
    {
        let ghost content = value@;
        let ghost begin = mid;
        let count: usize = positions.len();
        assert(count == positions@.len());
        proof {
            lemma_vector_length(content, length);
        }
        match &self.spec.constraint {
            Some(ResolvedConstraint::VectorBounds { lower, upper }) => {
                let missing: Result<(Tensor, N::Source), Error> = sample_vector_bounds_restricted(
                    ops,
                    rand,
                    env,
                    self.distribution,
                    lower.as_ref(),
                    upper.as_ref(),
                    count,
                    mid,
                );
                assert(restricted_sampled(
                    ops,
                    rand,
                    env@,
                    self@.distribution,
                    optional_numbers(*lower),
                    optional_numbers(*upper),
                    positions@.len() as usize,
                    begin,
                    sample_outcome(missing),
                ));
                match missing {
                    Err(error) => Err(error),
                    Ok((entries, after)) => {
                        proof {
                            lemma_vector_length(entries@, positions@.len() as usize);
                        }
                        let Tensor { shape, values } = value;
                        match scatter_into(values, positions, &entries.values) {
                            Err(error) => Err(error),
                            Ok(filled) => {
                                proof {
                                    lemma_scattered_length(
                                        content.values,
                                        positions@,
                                        entries@.values,
                                    );
                                }
                                let whole: Tensor = Tensor { shape, values: filled };
                                Ok((make_step(self.site, self.free_name, whole, entries), after))
                            },
                        }
                    },
                }
            },
            _ => {
                match pick(&value.values, positions) {
                    Err(error) => Err(error),
                    Ok(entries) => {
                        let missing: Tensor = as_vector(entries);
                        proof {
                            lemma_vector_full(missing@.values, positions@.len() as usize);
                        }
                        Ok((make_step(self.site, self.free_name, value, missing), mid))
                    },
                }
            },
        }
    }

    fn draw_at<A: Arithmetic, N: Randomness>(
        &self,
        ops: &A,
        rand: &N,
        env: &ForwardEnv,
        length: usize,
        positions: &Vec<i64>,
        source: N::Source,
    ) -> (r: Result<(Step, N::Source), Error>)
        requires
            ops.reliable(),
            rand.ready(),
            env_full(env@),
        ensures
            vector_drawn_at(
                ops,
                rand,
                env@,
                self@,
                length,
                Ok(positions@),
                source,
                step_outcome(r),
            ),
            r is Ok ==> full(r->Ok_0.0@.value) && full(r->Ok_0.0@.given),
    {
        let length_wanted: usize = positions.len();
        let ghost wanted = seq![positions@.len() as usize];
        let fits: bool = self.spec.shape.len() == 1 && self.spec.shape[0] == length_wanted;
        proof {
            if fits {
                assert(self.spec.shape@ =~= wanted);
            } else {
                assert(wanted.len() == 1 && wanted[0] == positions@.len());
            }
        }
        if !fits {
            let shown: String = text::numbers(self.spec.shape.as_slice());
            let count: String = text::decimal(positions.len() as u64);
            return Err(
                shape_mismatch(
                    text::cat7(
                        "PartiallyObserved site \"",
                        self.site,
                        "\" missing_values free value has shape ",
                        shown.as_str(),
                        ", but missing_idx has ",
                        count.as_str(),
                        " entries; scatter values must match their index vectors in length",
                    ),
                ),
            );
        }
        let bounded: bool = match &self.spec.constraint {
            None => false,
            Some(ResolvedConstraint::VectorBounds { .. }) => true,
            _ => {
                return Err(
                    invalid_settings(
                        text::cat3(
                            "prior-predictive PartiallyObserved site \"",
                            self.site,
                            "\" has a constrained missing_values free value; only VectorBounds or unconstrained free values are supported",
                        ),
                    ),
                );
            },
        };
        if bounded {
            if let Distribution::MultivariateNormal { .. } = self.distribution {
                return Err(refuse_bounded_vector(ops, env, self.distribution));
            }
        }
        let target: Vec<usize> = vec![length];
        assert(target@ =~= one_axis(length));
        let ghost begin = source;
        let base: Result<(Tensor, N::Source), Error> = sample_distribution(
            ops,
            rand,
            env,
            self.distribution,
            Some(&target),
            source,
        );
        assert(sampled(
            ops,
            rand,
            env@,
            self@.distribution,
            Some(one_axis(length)),
            begin,
            sample_outcome(base),
        ));
        match base {
            Err(error) => Err(error),
            Ok((value, mid)) => self.draw_missing(ops, rand, env, length, positions, value, mid),
        }
    }

    /// Draws the vector, and reads off or draws its missing entries.
    pub fn draw<A: Arithmetic, N: Randomness>(
        &self,
        ops: &A,
        rand: &N,
        env: &ForwardEnv,
        length: &Expr,
        missing_idx: &Expr,
        source: N::Source,
    ) -> (r: Result<(Step, N::Source), Error>)
        requires
            ops.reliable(),
            rand.ready(),
            env_full(env@),
        ensures
            partial_drawn(
                ops,
                rand,
                env@,
                self@,
                length@,
                missing_idx@,
                source,
                step_outcome(r),
            ),
            r is Ok ==> full(r->Ok_0.0@.value) && full(r->Ok_0.0@.given),
    {
        let size: Result<Tensor, Error> = env.evaluate(ops, length);
        assert(evaluated(ops, length@, env@, outcome(size)));
        let measured: Tensor = match size {
            Err(error) => {
                return Err(error);
            },
            Ok(measured) => measured,
        };
        let whole: Option<crate::number::Whole> = if measured.shape.len() == 0 {
            assert(measured@.values.len() == 1);
            assert(measured@.values[0] == measured.values@[0]@);
            whole_number(measured.values[0].bits)
        } else {
            None
        };
        let usable: bool = match whole {
            Some(found) => found.nearest >= 0,
            None => false,
        };
        if !usable {
            return Err(
                shape_mismatch(
                    text::cat3(
                        "PartiallyObserved site \"",
                        self.site,
                        "\" length must be a non-negative integer scalar",
                    ),
                ),
            );
        }
        let length_value: usize = size_of_number(measured.values[0].bits);
        let index: Result<Tensor, Error> = env.evaluate(ops, missing_idx);
        assert(evaluated(ops, missing_idx@, env@, outcome(index)));
        let positions: Vec<i64> = match index {
            Err(error) => {
                return Err(error);
            },
            Ok(t) => match position_list(&t) {
                Err(error) => {
                    return Err(error);
                },
                Ok(positions) => positions,
            },
        };
        self.draw_at(ops, rand, env, length_value, &positions, source)
    }
}

/// Why a bounded multivariate normal is refused, once its parameters are evaluated.
pub fn refuse_bounded_vector<A: Arithmetic>(ops: &A, env: &ForwardEnv, dist: &Distribution) -> (r:
    Error)
    requires
        ops.reliable(),
        env_full(env@),
    ensures
        bounded_refused(ops, env@, dist@, r@),
{
    let exprs: Vec<&Expr> = distribution_exprs(dist);
    let params: Result<Vec<Tensor>, Error> = evaluate_all(ops, &exprs, env);
    assert(all_evaluated(ops, dist_params(dist@), env@, list_outcome(params)));
    match params {
        Err(error) => error,
        Ok(_) => invalid_settings(
            "bounded MVN PartiallyObserved sites are not supported by prior-predictive simulation".to_owned(),
        ),
    }
}

} // verus!
