//! What trajectories are: points that leapfrog steps reach from one another, of which one is
//! retained by its weight.

#[allow(unused_imports)]
use vstd::arithmetic::power2::{lemma2_to64, lemma_pow2_pos, lemma_pow2_unfold, pow2};
use vstd::prelude::*;

#[allow(unused_imports)]
use crate::density::{HALF, ZERO};
#[allow(unused_imports)]
use crate::error::Fault;
#[allow(unused_imports)]
use crate::number::less;

#[allow(unused_imports)]
use super::hamiltonian::{
    added, dot_of, energy_of, joined_weight, leapt, negated, paired, MetricModel, StateModel,
};
#[allow(unused_imports)]
use super::services::{density, Dynamics, Rounded};
#[allow(unused_imports)]
use super::transition::{beginning, doubled, launched, stretched, transited, TrajectoryModel};
#[allow(unused_imports)]
use super::tree::{grown, SubtreeModel, TreeStats};

verus! {

/// The point that so many leapfrog steps reach.
pub open spec fn steps<D: Dynamics>(d: &D, metric: MetricModel, z: StateModel, eps: u64, n: nat) -> Result<
    StateModel,
    Fault,
>
    decreases n,
{
    if n == 0 {
        Ok(z)
    } else {
        match steps(d, metric, z, eps, (n - 1) as nat) {
            Err(fault) => Err(fault),
            Ok(before) => leapt(d, metric, before, eps),
        }
    }
}

/// Steps from where steps have led.
proof fn lemma_steps_add<D: Dynamics>(
    d: &D,
    metric: MetricModel,
    z: StateModel,
    eps: u64,
    a: nat,
    b: nat,
)
    requires
        steps(d, metric, z, eps, a) is Ok,
    ensures
        steps(d, metric, z, eps, a + b) == steps(
            d,
            metric,
            steps(d, metric, z, eps, a)->Ok_0,
            eps,
            b,
        ),
    decreases b,
{
    if b > 0 {
        lemma_steps_add(d, metric, z, eps, a, (b - 1) as nat);
        assert((a + b - 1) as nat == a + (b - 1) as nat);
    }
}

/// Where steps led on, they led everywhere before.
proof fn lemma_steps_before<D: Dynamics>(
    d: &D,
    metric: MetricModel,
    z: StateModel,
    eps: u64,
    n: nat,
    k: nat,
)
    requires
        steps(d, metric, z, eps, n) is Ok,
        k <= n,
    ensures
        steps(d, metric, z, eps, k) is Ok,
    decreases n,
{
    if k < n {
        lemma_steps_before(d, metric, z, eps, (n - 1) as nat, k);
    }
}

/// The points that the first steps reach, in order.
pub open spec fn trail<D: Dynamics>(d: &D, metric: MetricModel, z: StateModel, eps: u64, n: nat) -> Seq<
    StateModel,
> {
    Seq::new(n, |i: int| steps(d, metric, z, eps, (i + 1) as nat)->Ok_0)
}

/// The sum of the momenta of points, by halves.
pub open spec fn momentum_sum<D: Dynamics>(d: &D, points: Seq<StateModel>) -> Seq<u64>
    decreases points.len(),
{
    if points.len() <= 1 {
        points[0].p
    } else {
        let m = points.len() as int / 2;
        added(d, momentum_sum(d, points.take(m)), momentum_sum(d, points.skip(m)))
    }
}

/// The joined log weight of points, by halves: each weighs the exponential of how far its energy
/// lies below the reference.
pub open spec fn weight_sum<D: Dynamics>(
    d: &D,
    inv_mass: Seq<u64>,
    h0: u64,
    points: Seq<StateModel>,
) -> u64
    decreases points.len(),
{
    if points.len() <= 1 {
        d.value(Rounded::Sub, h0, energy_of(d, inv_mass, points[0]))
    } else {
        let m = points.len() as int / 2;
        joined_weight(
            d,
            weight_sum(d, inv_mass, h0, points.take(m)),
            weight_sum(d, inv_mass, h0, points.skip(m)),
        )
    }
}

/// A trail in two halves.
pub proof fn lemma_trail_halves<D: Dynamics>(
    d: &D,
    metric: MetricModel,
    z: StateModel,
    eps: u64,
    n: nat,
)
    requires
        steps(d, metric, z, eps, n) is Ok,
    ensures
        ({
            let all = trail(d, metric, z, eps, 2 * n);
            let middle = steps(d, metric, z, eps, n)->Ok_0;
            &&& all.take(n as int) == trail(d, metric, z, eps, n)
            &&& all.skip(n as int) == trail(d, metric, middle, eps, n)
        }),
{
    let all = trail(d, metric, z, eps, 2 * n);
    let middle = steps(d, metric, z, eps, n)->Ok_0;
    assert(all.take(n as int) =~= trail(d, metric, z, eps, n));
    assert forall|i: int| 0 <= i < n implies all.skip(n as int)[i] == trail(
        d,
        metric,
        middle,
        eps,
        n,
    )[i] by {
        lemma_steps_add(d, metric, z, eps, n, (i + 1) as nat);
        assert((n + i + 1) as nat == n + (i + 1) as nat);
    }
    assert(all.skip(n as int) =~= trail(d, metric, middle, eps, n));
}

/// Whether a subtree is that of these points: it begins and ends with theirs, sums up their momenta
/// and their weights, and proposes one of them.
pub open spec fn summarises<D: Dynamics>(
    d: &D,
    inv_mass: Seq<u64>,
    h0: u64,
    points: Seq<StateModel>,
    tree: SubtreeModel,
) -> bool {
    &&& tree.p_beg == points[0].p
    &&& tree.p_sharp_beg == paired(d, Rounded::Mul, points[0].p, inv_mass)
    &&& tree.p_end == points.last().p
    &&& tree.p_sharp_end == paired(d, Rounded::Mul, points.last().p, inv_mass)
    &&& tree.rho == momentum_sum(d, points)
    &&& tree.log_sum_weight == weight_sum(d, inv_mass, h0, points)
    &&& points.contains(tree.proposal)
}

/// A complete subtree of depth `n` is that of the two to the `n` points that leapfrog steps reach
/// one after the other from where it began, and it ends at the last of them.
pub proof fn law_subtree_is_that_of_its_points<D: Dynamics>(
    d: &D,
    metric: MetricModel,
    source: D::Source,
    depth: nat,
    z: StateModel,
    h0: u64,
    eps: u64,
    stats: TreeStats,
)
    ensures
        grown(d, metric, source, depth, z, h0, eps, stats) matches Ok(growth) ==> (growth.tree
            is Some ==> ({
            let points = trail(d, metric, z, eps, pow2(depth));
            &&& steps(d, metric, z, eps, pow2(depth)) == Ok::<StateModel, Fault>(growth.z)
            &&& summarises(d, metric.inv_mass, h0, points, growth.tree->0)
        })),
    decreases depth,
{
    lemma_pow2_pos(depth);
    if depth == 0 {
        lemma2_to64();
        reveal_with_fuel(steps, 3);
        if let Ok(growth) = grown(d, metric, source, depth, z, h0, eps, stats) {
            if growth.tree is Some {
                let points = trail(d, metric, z, eps, 1);
                assert(points[0] == growth.z);
                assert(points.contains(growth.z));
            }
        }
    } else {
        let half = (depth - 1) as nat;
        let n = pow2(half);
        lemma_pow2_unfold(depth);
        lemma_pow2_pos(half);
        law_subtree_is_that_of_its_points(d, metric, source, half, z, h0, eps, stats);
        if let Ok(first) = grown(d, metric, source, half, z, h0, eps, stats) {
            if first.tree is Some {
                law_subtree_is_that_of_its_points(
                    d,
                    metric,
                    first.source,
                    half,
                    first.z,
                    h0,
                    eps,
                    first.stats,
                );
                if let Ok(second) = grown(
                    d,
                    metric,
                    first.source,
                    half,
                    first.z,
                    h0,
                    eps,
                    first.stats,
                ) {
                    if second.tree is Some {
                        lemma_steps_add(d, metric, z, eps, n, n);
                        lemma_trail_halves(d, metric, z, eps, n);
                        let all = trail(d, metric, z, eps, 2 * n);
                        let (a, b) = (all.take(n as int), all.skip(n as int));
                        assert(all.len() as int / 2 == n as int);
                        assert(all[0] == a[0] && all.last() == b.last());
                        let (left, right) = (first.tree->0, second.tree->0);
                        let i = choose|i: int| 0 <= i < a.len() && a[i] == left.proposal;
                        let j = choose|j: int| 0 <= j < b.len() && b[j] == right.proposal;
                        assert(all[i] == left.proposal && all[n + j] == right.proposal);
                        assert(all.contains(left.proposal) && all.contains(right.proposal));
                    }
                }
            }
        }
    }
}

/// Of two halves of a subtree, the proposal of the second is taken exactly where the logarithm of
/// the uniform number drawn lies below its share of the joint weight; else that of the first
/// stays.
pub proof fn law_halves_compete_by_weight<D: Dynamics>(
    d: &D,
    metric: MetricModel,
    source: D::Source,
    depth: nat,
    z: StateModel,
    h0: u64,
    eps: u64,
    stats: TreeStats,
)
    requires
        depth > 0,
        grown(d, metric, source, depth, z, h0, eps, stats) matches Ok(growth) && growth.tree is Some,
    ensures
        ({
            let half = (depth - 1) as nat;
            let whole = grown(d, metric, source, depth, z, h0, eps, stats)->Ok_0;
            let first = grown(d, metric, source, half, z, h0, eps, stats)->Ok_0;
            let second = grown(
                d,
                metric,
                first.source,
                half,
                first.z,
                h0,
                eps,
                first.stats,
            )->Ok_0;
            let (uniform, next) = d.uniform(second.source);
            let (left, right) = (first.tree->0, second.tree->0);
            let share = d.value(
                Rounded::Sub,
                right.log_sum_weight,
                joined_weight(d, left.log_sum_weight, right.log_sum_weight),
            );
            &&& first.tree is Some && second.tree is Some
            &&& whole.source == next
            &&& less(d.value(Rounded::Ln, uniform, ZERO), share) ==> whole.tree->0.proposal
                == right.proposal
            &&& !less(d.value(Rounded::Ln, uniform, ZERO), share) ==> whole.tree->0.proposal
                == left.proposal
        }),
{
}

/// A subtree that was completed turned nowhere: as a whole, the sum of its momenta points forward
/// at both of its ends.
pub proof fn law_completed_subtree_does_not_turn<D: Dynamics>(
    d: &D,
    metric: MetricModel,
    source: D::Source,
    depth: nat,
    z: StateModel,
    h0: u64,
    eps: u64,
    stats: TreeStats,
)
    requires
        depth > 0,
        grown(d, metric, source, depth, z, h0, eps, stats) matches Ok(growth) && growth.tree is Some,
    ensures
        ({
            let tree = grown(d, metric, source, depth, z, h0, eps, stats)->Ok_0.tree->0;
            &&& less(ZERO, dot_of(d, tree.p_sharp_beg, tree.rho))
            &&& less(ZERO, dot_of(d, tree.p_sharp_end, tree.rho))
        }),
{
}

/// A single step diverges exactly where the energy grew by more than a thousand; then it is said
/// to, and no subtree comes of it.
pub proof fn law_a_step_diverges_beyond_a_thousand<D: Dynamics>(
    d: &D,
    metric: MetricModel,
    source: D::Source,
    z: StateModel,
    h0: u64,
    eps: u64,
    stats: TreeStats,
)
    requires
        leapt(d, metric, z, eps) is Ok,
    ensures
        ({
            let next = leapt(d, metric, z, eps)->Ok_0;
            let gain = negated(d.value(Rounded::Sub, h0, energy_of(d, metric.inv_mass, next)));
            let growth = grown(d, metric, source, 0, z, h0, eps, stats);
            &&& growth is Ok
            &&& growth->Ok_0.z == next
            &&& growth->Ok_0.tree is None <==> less(0x408F_4000_0000_0000, gain)
            &&& growth->Ok_0.stats.divergent <==> stats.divergent || less(
                0x408F_4000_0000_0000,
                gain,
            )
        }),
{
}

/// Where a doubling completed a subtree, the retained point is the proposal of that subtree if it
/// outweighs the trajectory, or if the logarithm of the uniform number then drawn lies below the
/// difference of the weights; else the point retained before stays. The subtree was grown from the
/// end that a uniform number below or above one half picked, and that end is now its last point.
pub proof fn law_retained_point_goes_by_weight<D: Dynamics>(
    d: &D,
    metric: MetricModel,
    h0: u64,
    step: u64,
    t: TrajectoryModel<D::Source>,
)
    requires
        stretched(d, metric, h0, step, t) is Ok,
    ensures
        ({
            let (uniform, source) = d.uniform(t.source);
            let forward = less(uniform, HALF);
            let end = if forward {
                t.plus
            } else {
                t.minus
            };
            let eps = if forward {
                step
            } else {
                negated(step)
            };
            let growth = grown(d, metric, source, t.depth as nat, end, h0, eps, t.stats);
            let (next, more) = stretched(d, metric, h0, step, t)->Ok_0;
            &&& growth is Ok
            &&& match growth->Ok_0.tree {
                None => next.sample == t.sample && !more && next.depth == t.depth && next.plus
                    == t.plus && next.minus == t.minus,
                Some(tree) => {
                    let drawn = d.uniform(growth->Ok_0.source);
                    let heavier = less(t.log_sum_weight, tree.log_sum_weight);
                    let lucky = less(
                        d.value(Rounded::Ln, drawn.0, ZERO),
                        d.value(Rounded::Sub, tree.log_sum_weight, t.log_sum_weight),
                    );
                    &&& heavier || lucky ==> next.sample == tree.proposal
                    &&& !heavier && !lucky ==> next.sample == t.sample
                    &&& next.source == (if heavier {
                        growth->Ok_0.source
                    } else {
                        drawn.1
                    })
                    &&& next.log_sum_weight == joined_weight(
                        d,
                        t.log_sum_weight,
                        tree.log_sum_weight,
                    )
                    &&& next.depth == (t.depth + 1) as usize
                    &&& forward ==> next.plus == growth->Ok_0.z && next.minus == t.minus
                    &&& !forward ==> next.minus == growth->Ok_0.z && next.plus == t.plus
                    &&& more ==> less(ZERO, dot_of(d, next.sharp_minus, next.rho)) && less(
                        ZERO,
                        dot_of(d, next.sharp_plus, next.rho),
                    )
                },
            }
        }),
{
}

/// Whether a point is one that steps reach from another, forward or backward.
pub open spec fn on_course<D: Dynamics>(
    d: &D,
    metric: MetricModel,
    start: StateModel,
    step: u64,
    point: StateModel,
) -> bool {
    exists|k: nat| #[trigger] reached(d, metric, start, step, k, point)
}

/// Whether so many steps reach a point from another, forward or backward.
pub open spec fn reached<D: Dynamics>(
    d: &D,
    metric: MetricModel,
    start: StateModel,
    step: u64,
    k: nat,
    point: StateModel,
) -> bool {
    steps(d, metric, start, step, k) == Ok::<StateModel, Fault>(point) || steps(
        d,
        metric,
        start,
        negated(step),
        k,
    ) == Ok::<StateModel, Fault>(point)
}

/// Whether a trajectory is that of its start: its ends are so many steps from it on either side,
/// which with the start are two to the depth points, and it retains one of them.
pub open spec fn keeps_course<D: Dynamics>(
    d: &D,
    metric: MetricModel,
    start: StateModel,
    step: u64,
    t: TrajectoryModel<D::Source>,
    ahead: nat,
    behind: nat,
) -> bool {
    &&& steps(d, metric, start, step, ahead) == Ok::<StateModel, Fault>(t.plus)
    &&& steps(d, metric, start, negated(step), behind) == Ok::<StateModel, Fault>(t.minus)
    &&& t.sharp_plus == paired(d, Rounded::Mul, t.plus.p, metric.inv_mass)
    &&& t.sharp_minus == paired(d, Rounded::Mul, t.minus.p, metric.inv_mass)
    &&& on_course(d, metric, start, step, t.sample)
    &&& ahead + behind + 1 == pow2(t.depth as nat)
}

/// A doubling keeps a trajectory on its course.
pub proof fn law_doubling_keeps_course<D: Dynamics>(
    d: &D,
    metric: MetricModel,
    h0: u64,
    start: StateModel,
    step: u64,
    t: TrajectoryModel<D::Source>,
    ahead: nat,
    behind: nat,
)
    requires
        keeps_course(d, metric, start, step, t, ahead, behind),
        t.depth < usize::MAX,
    ensures
        stretched(d, metric, h0, step, t) matches Ok((next, more)) ==> exists|a: nat, b: nat|
            keeps_course(d, metric, start, step, next, a, b),
{
    if let Ok((next, more)) = stretched(d, metric, h0, step, t) {
        let (uniform, source) = d.uniform(t.source);
        let forward = less(uniform, HALF);
        let end = if forward {
            t.plus
        } else {
            t.minus
        };
        let eps = if forward {
            step
        } else {
            negated(step)
        };
        let depth = t.depth as nat;
        law_subtree_is_that_of_its_points(d, metric, source, depth, end, h0, eps, t.stats);
        let growth = grown(d, metric, source, depth, end, h0, eps, t.stats)->Ok_0;
        if growth.tree is Some {
            let n = pow2(depth);
            lemma_pow2_pos(depth);
            lemma_pow2_unfold(depth + 1);
            let from = if forward {
                ahead
            } else {
                behind
            };
            lemma_steps_add(d, metric, start, eps, from, n);
            let points = trail(d, metric, end, eps, n);
            let tree = growth.tree->0;
            let i = choose|i: int| 0 <= i < points.len() && points[i] == tree.proposal;
            lemma_steps_before(d, metric, end, eps, n, (i + 1) as nat);
            lemma_steps_add(d, metric, start, eps, from, (i + 1) as nat);
            assert(reached(d, metric, start, step, from + (i + 1) as nat, tree.proposal));
            assert(points.last() == growth.z);
            if forward {
                assert(keeps_course(d, metric, start, step, next, ahead + n, behind));
            } else {
                assert(keeps_course(d, metric, start, step, next, ahead, behind + n));
            }
        } else {
            assert(keeps_course(d, metric, start, step, next, ahead, behind));
        }
    }
}

/// A trajectory that is doubled so often keeps on its course.
pub proof fn law_trajectory_keeps_course<D: Dynamics>(
    d: &D,
    metric: MetricModel,
    h0: u64,
    start: StateModel,
    step: u64,
    left: nat,
    t: TrajectoryModel<D::Source>,
    ahead: nat,
    behind: nat,
)
    requires
        keeps_course(d, metric, start, step, t, ahead, behind),
        t.depth + left <= usize::MAX,
    ensures
        doubled(d, metric, h0, step, left, t) matches Ok(end) ==> exists|a: nat, b: nat|
            keeps_course(d, metric, start, step, end, a, b),
    decreases left,
{
    let out = doubled(d, metric, h0, step, left, t);
    if left == 0 {
        assert(keeps_course(d, metric, start, step, out->Ok_0, ahead, behind));
    } else {
        law_doubling_keeps_course(d, metric, h0, start, step, t, ahead, behind);
        match stretched(d, metric, h0, step, t) {
            Err(_) => {
                assert(out is Err);
            },
            Ok((next, more)) => {
                let (a, b) = choose|a: nat, b: nat|
                    keeps_course(d, metric, start, step, next, a, b);
                if more {
                    law_trajectory_keeps_course(
                        d,
                        metric,
                        h0,
                        start,
                        step,
                        (left - 1) as nat,
                        next,
                        a,
                        b,
                    );
                } else {
                    assert(keeps_course(d, metric, start, step, out->Ok_0, a, b));
                }
            },
        }
    }
}

/// Whether the log density and the gradient of a point are those at its position.
pub open spec fn informed<D: Dynamics>(d: &D, metric: MetricModel, z: StateModel) -> bool {
    density(d, metric.logp, z.q) == Ok::<(u64, Seq<u64>), Fault>((z.logp, z.grad))
}

/// Steps lead to informed points.
proof fn lemma_steps_inform<D: Dynamics>(
    d: &D,
    metric: MetricModel,
    z: StateModel,
    eps: u64,
    n: nat,
)
    requires
        informed(d, metric, z),
        steps(d, metric, z, eps, n) is Ok,
    ensures
        informed(d, metric, steps(d, metric, z, eps, n)->Ok_0),
{
}

/// A transition returns a point that leapfrog steps reach from where it began, forward or
/// backward, with the log density, the gradient and the energy of that very point.
pub proof fn law_transition_returns_a_point_of_its_course<D: Dynamics>(
    d: &D,
    metric: MetricModel,
    source: D::Source,
    z: StateModel,
    step: u64,
    max_depth: nat,
)
    requires
        informed(d, metric, z),
        max_depth <= usize::MAX,
    ensures
        transited(d, metric, source, z, step, max_depth) matches Ok((found, _)) ==> ({
            let start = launched(d, metric.inv_mass, source, z).0;
            exists|point: StateModel| #[trigger]
                on_course(d, metric, start, step, point) && found.q == point.q && found.logp
                    == point.logp && found.grad == point.grad && informed(d, metric, point)
                    && found.energy == energy_of(d, metric.inv_mass, point)
        }),
{
    let (start, next) = launched(d, metric.inv_mass, source, z);
    let t = beginning(d, metric.inv_mass, start, next);
    lemma2_to64();
    reveal_with_fuel(steps, 1);
    assert(reached(d, metric, start, step, 0, start));
    assert(keeps_course(d, metric, start, step, t, 0, 0));
    let h0 = energy_of(d, metric.inv_mass, start);
    law_trajectory_keeps_course(d, metric, h0, start, step, max_depth, t, 0, 0);
    if let Ok(end) = doubled(d, metric, h0, step, max_depth, t) {
        let (a, b) = choose|a: nat, b: nat| keeps_course(d, metric, start, step, end, a, b);
        let k = choose|k: nat| #[trigger] reached(d, metric, start, step, k, end.sample);
        assert(informed(d, metric, start));
        if steps(d, metric, start, step, k) == Ok::<StateModel, Fault>(end.sample) {
            lemma_steps_inform(d, metric, start, step, k);
        } else {
            lemma_steps_inform(d, metric, start, negated(step), k);
        }
    }
}

} // verus!
