//! When trajectories turn, what they tally, and what the shortest of them come to.

#[allow(unused_imports)]
use vstd::arithmetic::power2::{lemma2_to64, lemma_pow2_pos, lemma_pow2_unfold, pow2};
use vstd::prelude::*;

#[allow(unused_imports)]
use crate::density::{HALF, ZERO};
#[allow(unused_imports)]
use crate::error::Fault;
#[allow(unused_imports)]
use crate::meaning::{genuine, Reals};
#[allow(unused_imports)]
use crate::number::{less, nan};

#[allow(unused_imports)]
use super::hamiltonian::{
    added, dot_of, dot_upto, energy_of, leapt, negated, MetricModel, StateModel,
};
#[allow(unused_imports)]
use super::mechanics_laws::{exact, law_dot_is_the_sum_of_products, product_sum};
#[allow(unused_imports)]
use super::services::{Dynamics, Rounded};
#[allow(unused_imports)]
use super::trajectory_laws::{law_subtree_is_that_of_its_points, steps, trail};
#[allow(unused_imports)]
use super::transition::{
    beginning, count_bits, doubled, launched, stretched, transited, TrajectoryModel,
};
#[allow(unused_imports)]
use super::tree::{grown, GrowthModel, TreeStats};

verus! {

/// Whether momenta that add up to that point forward at both ends, whose velocities these are.
pub open spec fn points_forward<D: Dynamics>(
    d: &D,
    one_end: Seq<u64>,
    other_end: Seq<u64>,
    sum: Seq<u64>,
) -> bool {
    less(ZERO, dot_of(d, one_end, sum)) && less(ZERO, dot_of(d, other_end, sum))
}

/// Two halves make a subtree exactly where the whole turns nowhere: not from its first to its last
/// point, not from its first point to the first of the second half, and not from the last point of
/// the first half to its last.
pub proof fn law_subtree_is_complete_unless_it_turns<D: Dynamics>(
    d: &D,
    metric: MetricModel,
    source: D::Source,
    depth: nat,
    z: StateModel,
    h0: u64,
    eps: u64,
    stats: TreeStats,
    first: GrowthModel<D::Source>,
    second: GrowthModel<D::Source>,
)
    requires
        depth > 0,
        grown(d, metric, source, (depth - 1) as nat, z, h0, eps, stats) == Ok::<
            GrowthModel<D::Source>,
            Fault,
        >(first),
        first.tree is Some,
        grown(
            d,
            metric,
            first.source,
            (depth - 1) as nat,
            first.z,
            h0,
            eps,
            first.stats,
        ) == Ok::<GrowthModel<D::Source>, Fault>(second),
    ensures
        grown(d, metric, source, depth, z, h0, eps, stats) is Ok,
        grown(d, metric, source, depth, z, h0, eps, stats)->Ok_0.tree is Some <==> second.tree
            is Some && ({
            let (a, b) = (first.tree->0, second.tree->0);
            &&& points_forward(d, a.p_sharp_beg, b.p_sharp_end, added(d, a.rho, b.rho))
            &&& points_forward(d, a.p_sharp_beg, b.p_sharp_beg, added(d, a.rho, b.p_beg))
            &&& points_forward(d, a.p_sharp_end, b.p_sharp_end, added(d, b.rho, a.p_end))
        }),
{
}

/// A trajectory that was doubled goes on exactly where it turns nowhere: not from end to end, not
/// from its far end to the first new point, and not from its near end to the last. Its momenta are
/// those of the old and the new points together.
pub proof fn law_trajectory_goes_on_unless_it_turns<D: Dynamics>(
    d: &D,
    metric: MetricModel,
    h0: u64,
    step: u64,
    t: TrajectoryModel<D::Source>,
)
    requires
        stretched(d, metric, h0, step, t) is Ok,
    ensures
        ({
            let (uniform, source) = d.uniform(t.source);
            let forward = less(uniform, HALF);
            let (end, far) = if forward {
                (t.plus, t.minus)
            } else {
                (t.minus, t.plus)
            };
            let (end_sharp, far_sharp) = if forward {
                (t.sharp_plus, t.sharp_minus)
            } else {
                (t.sharp_minus, t.sharp_plus)
            };
            let eps = if forward {
                step
            } else {
                negated(step)
            };
            let growth = grown(d, metric, source, t.depth as nat, end, h0, eps, t.stats)->Ok_0;
            let (next, more) = stretched(d, metric, h0, step, t)->Ok_0;
            &&& growth.tree is None ==> !more && next.rho == t.rho && next.log_sum_weight
                == t.log_sum_weight
            &&& growth.tree matches Some(tree) ==> ({
                &&& next.rho == added(d, t.rho, tree.rho)
                &&& more <==> points_forward(
                    d,
                    far_sharp,
                    tree.p_sharp_end,
                    added(d, t.rho, tree.rho),
                ) && points_forward(
                    d,
                    far_sharp,
                    tree.p_sharp_beg,
                    added(d, t.rho, tree.p_beg),
                ) && points_forward(d, end_sharp, tree.p_sharp_end, added(d, tree.rho, end.p))
            })
            &&& next.stats == growth.stats
        }),
{
}

/// Momenta point forward at an end where the inner product of their sum with the velocity there is
/// above zero, wherever that product is exact and its sign is that of its pattern.
pub proof fn law_forward_means_a_positive_product<D: Dynamics>(
    d: &D,
    f: Reals,
    velocity: Seq<u64>,
    sum: Seq<u64>,
)
    requires
        genuine(f),
        velocity.len() == sum.len(),
        forall|i: int|
            0 <= i < velocity.len() ==> exact(
                d,
                f,
                Rounded::Mul,
                #[trigger] velocity[i],
                sum[i],
            ) && exact(
                d,
                f,
                Rounded::Add,
                dot_upto(d, velocity, sum, i as nat),
                d.value(Rounded::Mul, velocity[i], sum[i]),
            ),
        less(ZERO, dot_of(d, velocity, sum)) <==> (f.constant)(dot_of(d, velocity, sum)) > 0real,
    ensures
        points_forward(d, velocity, velocity, sum) <==> product_sum(
            f,
            velocity,
            sum,
            velocity.len(),
        ) > 0real,
{
    law_dot_is_the_sum_of_products(d, f, velocity, sum);
}

/// The odds of a point against a reference energy: the exponential of how far its energy lies below
/// it, and one where that is more.
pub open spec fn odds<D: Dynamics>(d: &D, inv_mass: Seq<u64>, h0: u64, z: StateModel) -> u64 {
    let e = d.value(
        Rounded::Exp,
        d.value(Rounded::Sub, h0, energy_of(d, inv_mass, z)),
        ZERO,
    );
    if nan(e) || less(0x3FF0_0000_0000_0000, e) {
        0x3FF0_0000_0000_0000
    } else {
        e
    }
}

/// A tally with the odds of points added to it one after the other.
pub open spec fn odds_added<D: Dynamics>(
    d: &D,
    inv_mass: Seq<u64>,
    h0: u64,
    begin: u64,
    points: Seq<StateModel>,
) -> u64
    decreases points.len(),
{
    if points.len() == 0 {
        begin
    } else {
        d.value(
            Rounded::Add,
            odds_added(d, inv_mass, h0, begin, points.drop_last()),
            odds(d, inv_mass, h0, points.last()),
        )
    }
}

proof fn lemma_odds_added<D: Dynamics>(
    d: &D,
    inv_mass: Seq<u64>,
    h0: u64,
    begin: u64,
    a: Seq<StateModel>,
    b: Seq<StateModel>,
)
    ensures
        odds_added(d, inv_mass, h0, begin, a + b) == odds_added(
            d,
            inv_mass,
            h0,
            odds_added(d, inv_mass, h0, begin, a),
            b,
        ),
    decreases b.len(),
{
    if b.len() == 0 {
        assert(a + b =~= a);
    } else {
        assert((a + b).drop_last() =~= a + b.drop_last());
        lemma_odds_added(d, inv_mass, h0, begin, a, b.drop_last());
    }
}

/// A complete subtree adds the odds of each of its points to the tally, in the order in which they
/// are reached, and says of none that it diverged.
pub proof fn law_subtree_tallies_the_odds_of_its_points<D: Dynamics>(
    d: &D,
    metric: MetricModel,
    source: D::Source,
    depth: nat,
    z: StateModel,
    h0: u64,
    eps: u64,
    stats: TreeStats,
)
    ensures
        grown(d, metric, source, depth, z, h0, eps, stats) matches Ok(growth) ==> (growth.tree
            is Some ==> growth.stats.sum_metro_prob == odds_added(
            d,
            metric.inv_mass,
            h0,
            stats.sum_metro_prob,
            trail(d, metric, z, eps, pow2(depth)),
        ) && growth.stats.divergent == stats.divergent),
    decreases depth,
{
    if depth == 0 {
        lemma2_to64();
        reveal_with_fuel(steps, 3);
        if let Ok(growth) = grown(d, metric, source, depth, z, h0, eps, stats) {
            if growth.tree is Some {
                let points = trail(d, metric, z, eps, 1);
                assert(points[0] == growth.z);
                assert(points.last() == growth.z);
                assert(points.drop_last() =~= Seq::empty());
                assert(odds_added(
                    d,
                    metric.inv_mass,
                    h0,
                    stats.sum_metro_prob,
                    points.drop_last(),
                ) == stats.sum_metro_prob);
            }
        }
    } else {
        let half = (depth - 1) as nat;
        let n = pow2(half);
        lemma_pow2_unfold(depth);
        lemma_pow2_pos(half);
        law_subtree_tallies_the_odds_of_its_points(d, metric, source, half, z, h0, eps, stats);
        law_subtree_is_that_of_its_points(d, metric, source, half, z, h0, eps, stats);
        if let Ok(first) = grown(d, metric, source, half, z, h0, eps, stats) {
            if first.tree is Some {
                law_subtree_tallies_the_odds_of_its_points(
                    d,
                    metric,
                    first.source,
                    half,
                    first.z,
                    h0,
                    eps,
                    first.stats,
                );
                let a = trail(d, metric, z, eps, n);
                let b = trail(d, metric, first.z, eps, n);
                super::trajectory_laws::lemma_trail_halves(d, metric, z, eps, n);
                let all = trail(d, metric, z, eps, 2 * n);
                assert(all =~= all.take(n as int) + all.skip(n as int));
                lemma_odds_added(d, metric.inv_mass, h0, stats.sum_metro_prob, a, b);
            }
        }
    }
}

/// A transition of one doubling at most takes a single step, forward or backward as a uniform
/// number says, from where it was with momenta drawn anew. It weighs the new point by how far the
/// energy fell from what it was at that start: where it rose by more than a thousand it stays and
/// says that it diverged, and else the step is taken if the energy fell, or if the logarithm of
/// another uniform number lies below the fall. Its acceptance is the odds of the new point.
pub proof fn law_shortest_transition_goes_by_the_fall_in_energy<D: Dynamics>(
    d: &D,
    metric: MetricModel,
    source: D::Source,
    z: StateModel,
    step: u64,
)
    requires
        ({
            let (start, after) = launched(d, metric.inv_mass, source, z);
            let eps = if less(d.uniform(after).0, HALF) {
                step
            } else {
                negated(step)
            };
            leapt(d, metric, start, eps) is Ok
        }),
    ensures
        transited(d, metric, source, z, step, 1) is Ok,
        ({
            let (start, after) = launched(d, metric.inv_mass, source, z);
            let (uniform, then_from) = d.uniform(after);
            let eps = if less(uniform, HALF) {
                step
            } else {
                negated(step)
            };
            let next = leapt(d, metric, start, eps)->Ok_0;
            let h0 = energy_of(d, metric.inv_mass, start);
            let fall = d.value(Rounded::Sub, h0, energy_of(d, metric.inv_mass, next));
            let found = transited(d, metric, source, z, step, 1)->Ok_0.0;
            let lost = less(0x408F_4000_0000_0000, negated(fall));
            let taken = less(ZERO, fall) || less(
                d.value(Rounded::Ln, d.uniform(then_from).0, ZERO),
                d.value(Rounded::Sub, fall, ZERO),
            );
            &&& start.q == z.q
            &&& found.n_leapfrog == 1
            &&& found.divergent == lost
            &&& lost ==> found.depth == 0 && found.q == z.q && found.accept_prob == d.value(
                Rounded::Div,
                ZERO,
                count_bits(1),
            )
            &&& !lost ==> found.depth == 1 && found.accept_prob == d.value(
                Rounded::Div,
                d.value(Rounded::Add, ZERO, odds(d, metric.inv_mass, h0, next)),
                count_bits(1),
            )
            &&& !lost && taken ==> found.q == next.q && found.logp == next.logp && found.grad
                == next.grad
            &&& !lost && !taken ==> found.q == z.q && found.logp == z.logp && found.grad == z.grad
        }),
{
    let (start, after) = launched(d, metric.inv_mass, source, z);
    let h0 = energy_of(d, metric.inv_mass, start);
    let t = beginning(d, metric.inv_mass, start, after);
    reveal_with_fuel(doubled, 3);
    reveal_with_fuel(grown, 2);
    let (uniform, then_from) = d.uniform(after);
    let eps = if less(uniform, HALF) {
        step
    } else {
        negated(step)
    };
    assert(t.plus == start && t.minus == start);
    let growth = grown(d, metric, then_from, 0, start, h0, eps, t.stats);
    assert(growth is Ok);
}

/// The mean acceptance of a transition times its number of steps is the tally of odds, wherever the
/// division is exact.
pub proof fn law_acceptance_is_the_mean_of_the_odds<D: Dynamics>(
    d: &D,
    f: Reals,
    t: TrajectoryModel<D::Source>,
    inv_mass: Seq<u64>,
)
    requires
        genuine(f),
        t.stats.n_leapfrog > 0,
        exact(
            d,
            f,
            Rounded::Div,
            t.stats.sum_metro_prob,
            count_bits(t.stats.n_leapfrog),
        ),
        (f.constant)(count_bits(t.stats.n_leapfrog)) == t.stats.n_leapfrog as real,
    ensures
        ({
            let found = super::transition::concluded(d, inv_mass, t);
            &&& (f.constant)(found.accept_prob) * (found.n_leapfrog as real) == (f.constant)(
                t.stats.sum_metro_prob,
            )
            &&& found.depth == t.depth && found.divergent == t.stats.divergent
        }),
{
    let n = t.stats.n_leapfrog as real;
    let s = (f.constant)(t.stats.sum_metro_prob);
    assert(s / n * n == s) by (nonlinear_arith)
        requires
            n > 0real,
    ;
}

} // verus!
