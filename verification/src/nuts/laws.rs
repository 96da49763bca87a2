//! What holds of every transition.

#[allow(unused_imports)]
use vstd::arithmetic::power2::{
    lemma2_to64, lemma_pow2_pos, lemma_pow2_strictly_increases, lemma_pow2_unfold, pow2,
};
use vstd::prelude::*;

#[allow(unused_imports)]
use crate::data::data_views;
#[allow(unused_imports)]
use crate::density::{HALF, NEGATIVE_INFINITY, ONE, ZERO};
#[allow(unused_imports)]
use crate::error::Fault;
#[allow(unused_imports)]
use crate::logp::compiled::{compiles, law_compiled_density_is_that_of_the_model, model_grades};
#[allow(unused_imports)]
use crate::logp::graph::CompiledLogp;
#[allow(unused_imports)]
use crate::logp::point::slots_tile;
#[allow(unused_imports)]
use crate::logp::steady::law_density_is_a_function_of_its_point;
#[allow(unused_imports)]
use crate::model::all_filled;
#[allow(unused_imports)]
use crate::number::{
    equal_value, finite, law_nearest_doubles_keep_the_order, less, magnitude, nan, order_key,
    NumberModel, INFINITY_BITS, ONE_BITS,
};
#[allow(unused_imports)]
use crate::posterior::Posterior;

#[allow(unused_imports)]
use super::hamiltonian::{
    energy_of, greater, joined_weight, leapt, negated, smaller, MetricModel, StateModel,
};
#[allow(unused_imports)]
use super::services::{
    decided, density, graded, graded_bits, spelled_out, Dynamics, Rounded,
};
#[allow(unused_imports)]
use super::transition::{
    beginning, count_bits, doubled, launched, stretched, transited, TrajectoryModel,
};
#[allow(unused_imports)]
use super::tree::{grown, log_weight, TreeStats};

verus! {

/// A complete subtree of depth `n` took two to the `n` leapfrog steps and met no divergence; one
/// that broke off took at least one step and at most that many.
pub proof fn law_subtree_takes_a_power_of_two_steps<D: Dynamics>(
    d: &D,
    metric: MetricModel,
    source: D::Source,
    depth: nat,
    z: StateModel,
    h0: u64,
    eps: u64,
    stats: TreeStats,
)
    requires
        stats.n_leapfrog + pow2(depth) <= usize::MAX,
    ensures
        match grown(d, metric, source, depth, z, h0, eps, stats) {
            Err(_) => true,
            Ok(growth) => match growth.tree {
                Some(_) => growth.stats.n_leapfrog == stats.n_leapfrog + pow2(depth)
                    && growth.stats.divergent == stats.divergent,
                None => stats.n_leapfrog < growth.stats.n_leapfrog <= stats.n_leapfrog + pow2(
                    depth,
                ),
            },
        },
    decreases depth,
{
    lemma_pow2_pos(depth);
    if depth == 0 {
        lemma2_to64();
    } else {
        let half = (depth - 1) as nat;
        lemma_pow2_unfold(depth);
        lemma_pow2_pos(half);
        law_subtree_takes_a_power_of_two_steps(d, metric, source, half, z, h0, eps, stats);
        match grown(d, metric, source, half, z, h0, eps, stats) {
            Err(_) => {},
            Ok(first) => {
                if first.tree is Some {
                    law_subtree_takes_a_power_of_two_steps(
                        d,
                        metric,
                        first.source,
                        half,
                        first.z,
                        h0,
                        eps,
                        first.stats,
                    );
                }
            },
        }
    }
}

/// A trajectory grows by at most as many doublings as it may, and takes fewer leapfrog steps than
/// two to the depth that it may reach.
pub proof fn law_trajectory_stays_within_its_depth<D: Dynamics>(
    d: &D,
    metric: MetricModel,
    h0: u64,
    step: u64,
    left: nat,
    t: TrajectoryModel<D::Source>,
)
    requires
        t.stats.n_leapfrog < pow2(t.depth as nat),
        t.depth + left <= usize::MAX,
        pow2((t.depth + left) as nat) <= usize::MAX,
    ensures
        match doubled(d, metric, h0, step, left, t) {
            Err(_) => true,
            Ok(end) => {
                &&& t.depth <= end.depth <= t.depth + left
                &&& end.stats.n_leapfrog < pow2((t.depth + left) as nat)
            },
        },
    decreases left,
{
    if left > 0 {
        let depth = t.depth as nat;
        let limit = (depth + left) as nat;
        if depth + 1 < limit {
            lemma_pow2_strictly_increases((depth + 1) as nat, limit);
        }
        lemma_pow2_unfold((depth + 1) as nat);
        let (uniform, source) = d.uniform(t.source);
        let forward = less(uniform, HALF);
        law_subtree_takes_a_power_of_two_steps(
            d,
            metric,
            source,
            depth,
            if forward {
                t.plus
            } else {
                t.minus
            },
            h0,
            if forward {
                step
            } else {
                negated(step)
            },
            t.stats,
        );
        match stretched(d, metric, h0, step, t) {
            Err(_) => {},
            Ok((next, more)) => {
                if more {
                    law_trajectory_stays_within_its_depth(
                        d,
                        metric,
                        h0,
                        step,
                        (left - 1) as nat,
                        next,
                    );
                }
            },
        }
    }
}

/// A transition reaches at most the depth that it may, in fewer leapfrog steps than two to that
/// depth.
pub proof fn law_transition_stays_within_its_depth<D: Dynamics>(
    d: &D,
    metric: MetricModel,
    source: D::Source,
    z: StateModel,
    step: u64,
    max_depth: nat,
)
    requires
        max_depth <= usize::MAX,
        pow2(max_depth) <= usize::MAX,
    ensures
        match transited(d, metric, source, z, step, max_depth) {
            Err(_) => true,
            Ok((found, _)) => found.depth <= max_depth && found.n_leapfrog < pow2(max_depth),
        },
{
    let (start, next) = launched(d, metric.inv_mass, source, z);
    lemma2_to64();
    law_trajectory_stays_within_its_depth(
        d,
        metric,
        energy_of(d, metric.inv_mass, start),
        step,
        max_depth,
        beginning(d, metric.inv_mass, start, next),
    );
}

/// A transition that may not grow keeps the point that it began with, and accepts nothing.
pub proof fn law_no_depth_keeps_the_point<D: Dynamics>(
    d: &D,
    metric: MetricModel,
    source: D::Source,
    z: StateModel,
    step: u64,
)
    ensures
        transited(d, metric, source, z, step, 0) matches Ok((found, _)) && found.q == z.q
            && found.logp == z.logp && found.grad == z.grad && found.n_leapfrog == 0
            && !found.divergent && found.accept_prob == ZERO,
{
}

/// Nothing weighs negative infinity: joined with it, any weight stays as it is.
pub proof fn law_no_weight_is_neutral<D: Dynamics>(d: &D, weight: u64)
    ensures
        joined_weight(d, NEGATIVE_INFINITY, weight) == weight,
        joined_weight(d, weight, NEGATIVE_INFINITY) == weight,
{
}

/// The energy of a point whose log density is not finite is infinite.
pub proof fn law_no_finite_density_means_infinite_energy<D: Dynamics>(
    d: &D,
    inv_mass: Seq<u64>,
    z: StateModel,
)
    requires
        !finite(z.logp),
    ensures
        energy_of(d, inv_mass, z) == INFINITY_BITS,
{
}

/// A number that is not negative.
pub open spec fn nonnegative(x: u64) -> bool {
    !nan(x) && order_key(x) >= 0
}

/// Arithmetic that rounds as IEEE-754 asks, with an exponential and a logarithm that keep to their
/// bounds: adding numbers that are not negative commutes, and addition of such a number does not
/// tell the zeros apart and does not lessen what it is added to; a finite number less itself is
/// zero; an exponential is not negative, and one at zero; a logarithm is not negative from one on.
pub open spec fn well_rounded<D: Dynamics>(d: &D) -> bool {
    &&& forall|x: u64, y: u64|
        nonnegative(x) && nonnegative(y) ==> #[trigger] d.value(Rounded::Add, x, y) == d.value(
            Rounded::Add,
            y,
            x,
        )
    &&& forall|x: u64, y: u64, r: u64|
        #![trigger d.value(Rounded::Add, x, r), d.value(Rounded::Add, y, r)]
        finite(x) && finite(y) && order_key(x) == order_key(y) && nonnegative(r) ==> equal_value(
            d.value(Rounded::Add, x, r),
            d.value(Rounded::Add, y, r),
        )
    &&& forall|x: u64, r: u64|
        finite(x) && nonnegative(r) ==> !less(#[trigger] d.value(Rounded::Add, x, r), x) && !nan(
            d.value(Rounded::Add, x, r),
        )
    &&& forall|x: u64, y: u64|
        finite(x) && finite(y) ==> !nan(#[trigger] d.value(Rounded::Sub, x, y)) && (order_key(x)
            == order_key(y) ==> magnitude(d.value(Rounded::Sub, x, y)) == 0)
    &&& forall|x: u64|
        !nan(x) ==> nonnegative(#[trigger] d.value(Rounded::Exp, x, ZERO)) && (magnitude(x) == 0
            ==> d.value(Rounded::Exp, x, ZERO) == ONE_BITS)
    &&& forall|x: u64|
        !nan(x) && !less(x, ONE_BITS) ==> nonnegative(#[trigger] d.value(Rounded::Ln, x, ZERO))
}

/// Over arithmetic that rounds as it should, the logarithm of a sum does not depend on the order
/// of its parts, and is not less than either of them.
pub proof fn law_joining_weights_is_symmetric_and_not_less<D: Dynamics>(d: &D, a: u64, b: u64)
    requires
        well_rounded(d),
        finite(a) || a == NEGATIVE_INFINITY,
        finite(b) || b == NEGATIVE_INFINITY,
    ensures
        equal_value(joined_weight(d, a, b), joined_weight(d, b, a)),
        !less(joined_weight(d, a, b), greater(a, b)),
        !nan(joined_weight(d, a, b)),
{
    if a != NEGATIVE_INFINITY && b != NEGATIVE_INFINITY {
        lemma_joined(d, a, b);
        lemma_joined(d, b, a);
        let m = greater(a, b);
        let n = greater(b, a);
        assert(order_key(m) == order_key(n));
        let left = d.value(Rounded::Exp, d.value(Rounded::Sub, a, m), ZERO);
        let right = d.value(Rounded::Exp, d.value(Rounded::Sub, b, m), ZERO);
        let left_too = d.value(Rounded::Exp, d.value(Rounded::Sub, a, n), ZERO);
        let right_too = d.value(Rounded::Exp, d.value(Rounded::Sub, b, n), ZERO);
        if order_key(a) == order_key(b) {
            assert(left == ONE_BITS && right == ONE_BITS);
            assert(left_too == ONE_BITS && right_too == ONE_BITS);
        } else {
            assert(m == n);
        }
        assert(d.value(Rounded::Add, left, right) == d.value(Rounded::Add, right_too, left_too));
        let rest = d.value(Rounded::Ln, d.value(Rounded::Add, left, right), ZERO);
        assert(nonnegative(rest));
        assert(equal_value(d.value(Rounded::Add, m, rest), d.value(Rounded::Add, n, rest)));
    }
}

/// The part that a joined weight adds to the greater one is not negative.
proof fn lemma_joined<D: Dynamics>(d: &D, a: u64, b: u64)
    requires
        well_rounded(d),
        finite(a),
        finite(b),
    ensures
        ({
            let m = greater(a, b);
            let left = d.value(Rounded::Exp, d.value(Rounded::Sub, a, m), ZERO);
            let right = d.value(Rounded::Exp, d.value(Rounded::Sub, b, m), ZERO);
            nonnegative(d.value(Rounded::Ln, d.value(Rounded::Add, left, right), ZERO))
        }),
{
    let m = greater(a, b);
    let below_a = d.value(Rounded::Sub, a, m);
    let below_b = d.value(Rounded::Sub, b, m);
    let left = d.value(Rounded::Exp, below_a, ZERO);
    let right = d.value(Rounded::Exp, below_b, ZERO);
    assert(!nan(below_a) && !nan(below_b));
    assert(finite(ONE_BITS));
    if m == a {
        assert(left == ONE_BITS);
        assert(!less(d.value(Rounded::Add, ONE_BITS, right), ONE_BITS));
    } else {
        assert(right == ONE_BITS);
        assert(!less(d.value(Rounded::Add, ONE_BITS, left), ONE_BITS));
        assert(d.value(Rounded::Add, left, ONE_BITS) == d.value(Rounded::Add, ONE_BITS, left));
    }
}

/// A number from zero to one.
pub open spec fn fraction(x: u64) -> bool {
    nonnegative(x) && !less(ONE_BITS, x)
}

/// A sum that is not negative and not more than the number of its parts.
pub open spec fn tallied(stats: TreeStats) -> bool {
    nonnegative(stats.sum_metro_prob) && !less(count_bits(stats.n_leapfrog), stats.sum_metro_prob)
}

/// Arithmetic that rounds as IEEE-754 asks, as far as means of fractions go: an exponential is not
/// negative, or no number where its argument is none; a fraction added to at most `n` makes at
/// most `n + 1`, and what is at most `n` is a fraction of it.
pub open spec fn averages_well<D: Dynamics>(d: &D) -> bool {
    &&& forall|x: u64|
        if nan(x) {
            nan(#[trigger] d.value(Rounded::Exp, x, ZERO))
        } else {
            nonnegative(d.value(Rounded::Exp, x, ZERO))
        }
    &&& forall|n: usize, x: u64, y: u64|
        #![trigger count_bits(n), d.value(Rounded::Add, x, y)]
        n < usize::MAX && nonnegative(x) && !less(count_bits(n), x) && fraction(y) ==> nonnegative(
            d.value(Rounded::Add, x, y),
        ) && !less(count_bits((n + 1) as usize), d.value(Rounded::Add, x, y))
    &&& forall|n: usize, x: u64|
        n > 0 && nonnegative(x) && !less(count_bits(n), x) ==> fraction(
            #[trigger] d.value(Rounded::Div, x, count_bits(n)),
        )
}

/// One more is not less, as a double too.
proof fn lemma_counts_keep_their_order(n: usize)
    requires
        n < usize::MAX,
    ensures
        !less(count_bits((n + 1) as usize), count_bits(n)),
        nonnegative(count_bits(n)),
        nonnegative(count_bits((n + 1) as usize)),
{
    let m = if n <= i64::MAX {
        n as nat
    } else {
        i64::MAX as nat
    };
    law_nearest_doubles_keep_the_order(m);
}

/// A subtree keeps the sum of acceptances not negative and not more than the number of steps.
pub proof fn law_subtree_keeps_its_tally<D: Dynamics>(
    d: &D,
    metric: MetricModel,
    source: D::Source,
    depth: nat,
    z: StateModel,
    h0: u64,
    eps: u64,
    stats: TreeStats,
)
    requires
        averages_well(d),
        tallied(stats),
        stats.n_leapfrog + pow2(depth) <= usize::MAX,
    ensures
        grown(d, metric, source, depth, z, h0, eps, stats) matches Ok(growth) ==> tallied(
            growth.stats,
        ),
    decreases depth,
{
    lemma_pow2_pos(depth);
    if depth == 0 {
        lemma2_to64();
        lemma_counts_keep_their_order(stats.n_leapfrog);
        match leapt(d, metric, z, eps) {
            Err(_) => {},
            Ok(next) => {
                let weight = log_weight(d, metric.inv_mass, next, h0);
                let odds = smaller(d.value(Rounded::Exp, weight, ZERO), ONE);
                assert(fraction(odds));
                let total = d.value(Rounded::Add, stats.sum_metro_prob, odds);
                assert(!less(count_bits((stats.n_leapfrog + 1) as usize), total));
            },
        }
    } else {
        let half = (depth - 1) as nat;
        lemma_pow2_unfold(depth);
        lemma_pow2_pos(half);
        law_subtree_takes_a_power_of_two_steps(d, metric, source, half, z, h0, eps, stats);
        law_subtree_keeps_its_tally(d, metric, source, half, z, h0, eps, stats);
        match grown(d, metric, source, half, z, h0, eps, stats) {
            Err(_) => {},
            Ok(first) => {
                if first.tree is Some {
                    law_subtree_keeps_its_tally(
                        d,
                        metric,
                        first.source,
                        half,
                        first.z,
                        h0,
                        eps,
                        first.stats,
                    );
                }
            },
        }
    }
}

/// A trajectory keeps the sum of acceptances not negative and not more than the number of steps.
pub proof fn law_trajectory_keeps_its_tally<D: Dynamics>(
    d: &D,
    metric: MetricModel,
    h0: u64,
    step: u64,
    left: nat,
    t: TrajectoryModel<D::Source>,
)
    requires
        averages_well(d),
        tallied(t.stats),
        t.stats.n_leapfrog < pow2(t.depth as nat),
        t.depth + left <= usize::MAX,
        pow2((t.depth + left) as nat) <= usize::MAX,
    ensures
        doubled(d, metric, h0, step, left, t) matches Ok(end) ==> tallied(end.stats),
    decreases left,
{
    if left > 0 {
        let depth = t.depth as nat;
        let limit = (depth + left) as nat;
        if depth + 1 < limit {
            lemma_pow2_strictly_increases((depth + 1) as nat, limit);
        }
        lemma_pow2_unfold((depth + 1) as nat);
        let (uniform, source) = d.uniform(t.source);
        let forward = less(uniform, HALF);
        let z = if forward {
            t.plus
        } else {
            t.minus
        };
        let eps = if forward {
            step
        } else {
            negated(step)
        };
        law_subtree_takes_a_power_of_two_steps(d, metric, source, depth, z, h0, eps, t.stats);
        law_subtree_keeps_its_tally(d, metric, source, depth, z, h0, eps, t.stats);
        match stretched(d, metric, h0, step, t) {
            Err(_) => {},
            Ok((next, more)) => {
                if more {
                    law_trajectory_keeps_its_tally(d, metric, h0, step, (left - 1) as nat, next);
                }
            },
        }
    }
}

/// Over arithmetic that rounds as it should, the mean acceptance of a transition lies between zero
/// and one.
pub proof fn law_acceptance_lies_between_zero_and_one<D: Dynamics>(
    d: &D,
    metric: MetricModel,
    source: D::Source,
    z: StateModel,
    step: u64,
    max_depth: nat,
)
    requires
        averages_well(d),
        max_depth <= usize::MAX,
        pow2(max_depth) <= usize::MAX,
    ensures
        transited(d, metric, source, z, step, max_depth) matches Ok((found, _)) ==> fraction(
            found.accept_prob,
        ),
{
    let (start, next) = launched(d, metric.inv_mass, source, z);
    lemma2_to64();
    lemma_counts_keep_their_order(0);
    law_trajectory_keeps_its_tally(
        d,
        metric,
        energy_of(d, metric.inv_mass, start),
        step,
        max_depth,
        beginning(d, metric.inv_mass, start, next),
    );
}

/// What a transition is told of the log density at a point, once it was compiled for a bound
/// model, is what the log density of that model comes to there, with a gradient of as many entries
/// as there are parameters.
pub proof fn law_transitions_follow_the_density_of_the_model<D: Dynamics>(
    d: &D,
    p: Posterior,
    compiled: CompiledLogp,
    q: Seq<u64>,
    out: Result<(NumberModel, Seq<NumberModel>), Fault>,
)
    requires
        decided(d),
        slots_tile(p),
        all_filled(data_views(p.data@)),
        compiles(&d.calculus(), p, Ok(compiled)),
        model_grades(&d.calculus(), p, spelled_out(d, q), out),
    ensures
        density(d, compiled@, q) == graded_bits(out),
        out is Ok ==> density(d, compiled@, q)->Ok_0.1.len() == p.n_params,
{
    let s = &d.calculus();
    let point = spelled_out(d, q);
    law_compiled_density_is_that_of_the_model(s, p, compiled, point, out);
    law_density_is_a_function_of_its_point(s, compiled@, point, graded(d, compiled@, q), out);
}

} // verus!
