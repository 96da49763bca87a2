//! One transition: a trajectory that doubles until it turns, diverges or is deep enough.

use vstd::prelude::*;

use crate::density::{HALF, ZERO};
use crate::error::Error;
#[allow(unused_imports)]
use crate::error::Fault;
use crate::number::{less_than, Number};
#[allow(unused_imports)]
use crate::number::{less, number_of_integer};

use super::hamiltonian::{added_up, copied, criterion, log_sum_exp, negate, Hamiltonian, State};
#[allow(unused_imports)]
use super::hamiltonian::{
    added, drawn_momentum, energy_of, joined_weight, keeps_forward, negated, paired, MetricModel,
    StateModel,
};
#[allow(unused_imports)]
use super::services::decided;
use super::services::{Dynamics, Rounded};
use super::tree::{build_tree, Growth, Subtree, TreeStats};
#[allow(unused_imports)]
use super::tree::{growth_outcome, grown, GrowthModel, SubtreeModel};

verus! {

/// A trajectory: both ends with their velocities, the sum of the momenta, the point that is
/// retained so far, and what has been counted.
pub struct Trajectory<Z> {
    pub minus: State,
    pub plus: State,
    pub sharp_minus: Vec<u64>,
    pub sharp_plus: Vec<u64>,
    pub rho: Vec<u64>,
    pub sample: State,
    pub log_sum_weight: u64,
    pub depth: usize,
    pub stats: TreeStats,
    pub source: Z,
}

/// The mathematical content of a [`Trajectory`].
#[verifier::ext_equal]
pub struct TrajectoryModel<Z> {
    pub minus: StateModel,
    pub plus: StateModel,
    pub sharp_minus: Seq<u64>,
    pub sharp_plus: Seq<u64>,
    pub rho: Seq<u64>,
    pub sample: StateModel,
    pub log_sum_weight: u64,
    pub depth: usize,
    pub stats: TreeStats,
    pub source: Z,
}

impl<Z> View for Trajectory<Z> {
    type V = TrajectoryModel<Z>;

    open spec fn view(&self) -> TrajectoryModel<Z> {
        TrajectoryModel {
            minus: self.minus@,
            plus: self.plus@,
            sharp_minus: self.sharp_minus@,
            sharp_plus: self.sharp_plus@,
            rho: self.rho@,
            sample: self.sample@,
            log_sum_weight: self.log_sum_weight,
            depth: self.depth,
            stats: self.stats,
            source: self.source,
        }
    }
}

/// The content of a trajectory and whether it is to go on.
pub open spec fn stretch_outcome<Z>(r: Result<(Trajectory<Z>, bool), Error>) -> Result<
    (TrajectoryModel<Z>, bool),
    Fault,
> {
    match r {
        Ok(found) => Ok((found.0@, found.1)),
        Err(error) => Err(error@),
    }
}

/// The trajectory of one point.
pub open spec fn beginning<D: Dynamics>(
    d: &D,
    inv_mass: Seq<u64>,
    z: StateModel,
    source: D::Source,
) -> TrajectoryModel<D::Source> {
    let sharp = paired(d, Rounded::Mul, z.p, inv_mass);
    TrajectoryModel {
        minus: z,
        plus: z,
        sharp_minus: sharp,
        sharp_plus: sharp,
        rho: z.p,
        sample: z,
        log_sum_weight: ZERO,
        depth: 0,
        stats: TreeStats { n_leapfrog: 0, sum_metro_prob: ZERO, divergent: false },
        source,
    }
}

/// Whether a new subtree outweighs the trajectory, or else a random number takes it, and the
/// source behind that.
pub open spec fn retained<D: Dynamics>(d: &D, source: D::Source, tree: u64, weight: u64) -> (
    bool,
    D::Source,
) {
    if less(weight, tree) {
        (true, source)
    } else {
        let (uniform, next) = d.uniform(source);
        (
            less(d.value(Rounded::Ln, uniform, ZERO), d.value(Rounded::Sub, tree, weight)),
            next,
        )
    }
}

/// Whether a trajectory that a subtree extends turns nowhere: neither as a whole nor across the
/// join.
pub open spec fn goes_on<D: Dynamics>(
    d: &D,
    t: TrajectoryModel<D::Source>,
    tree: SubtreeModel,
    forward: bool,
) -> bool {
    let far_sharp = if forward {
        t.sharp_minus
    } else {
        t.sharp_plus
    };
    let old_sharp = if forward {
        t.sharp_plus
    } else {
        t.sharp_minus
    };
    let old_p = if forward {
        t.plus.p
    } else {
        t.minus.p
    };
    &&& keeps_forward(d, far_sharp, tree.p_sharp_end, added(d, t.rho, tree.rho))
    &&& keeps_forward(d, far_sharp, tree.p_sharp_beg, added(d, t.rho, tree.p_beg))
    &&& keeps_forward(d, old_sharp, tree.p_sharp_end, added(d, tree.rho, old_p))
}

/// A trajectory with a subtree at one end.
pub open spec fn extended<D: Dynamics>(
    d: &D,
    t: TrajectoryModel<D::Source>,
    growth: GrowthModel<D::Source>,
    forward: bool,
) -> TrajectoryModel<D::Source> {
    let tree = growth.tree->0;
    let (take, source) = retained(d, growth.source, tree.log_sum_weight, t.log_sum_weight);
    TrajectoryModel {
        minus: if forward {
            t.minus
        } else {
            growth.z
        },
        plus: if forward {
            growth.z
        } else {
            t.plus
        },
        sharp_minus: if forward {
            t.sharp_minus
        } else {
            tree.p_sharp_end
        },
        sharp_plus: if forward {
            tree.p_sharp_end
        } else {
            t.sharp_plus
        },
        rho: added(d, t.rho, tree.rho),
        sample: if take {
            tree.proposal
        } else {
            t.sample
        },
        log_sum_weight: joined_weight(d, t.log_sum_weight, tree.log_sum_weight),
        depth: (t.depth + 1) as usize,
        stats: growth.stats,
        source,
    }
}

/// What growing at an end that a random number picks comes to.
pub open spec fn attempted<D: Dynamics>(
    d: &D,
    metric: MetricModel,
    h0: u64,
    step: u64,
    t: TrajectoryModel<D::Source>,
) -> Result<GrowthModel<D::Source>, Fault> {
    let (uniform, source) = d.uniform(t.source);
    let forward = less(uniform, HALF);
    grown(
        d,
        metric,
        source,
        t.depth as nat,
        if forward {
            t.plus
        } else {
            t.minus
        },
        h0,
        if forward {
            step
        } else {
            negated(step)
        },
        t.stats,
    )
}

/// What one doubling comes to, and whether the trajectory is to go on.
pub open spec fn stretched<D: Dynamics>(
    d: &D,
    metric: MetricModel,
    h0: u64,
    step: u64,
    t: TrajectoryModel<D::Source>,
) -> Result<(TrajectoryModel<D::Source>, bool), Fault> {
    let forward = less(d.uniform(t.source).0, HALF);
    match attempted(d, metric, h0, step, t) {
        Err(fault) => Err(fault),
        Ok(growth) => match growth.tree {
            None => Ok(
                (TrajectoryModel { stats: growth.stats, source: growth.source, ..t }, false),
            ),
            Some(tree) => Ok((extended(d, t, growth, forward), goes_on(d, t, tree, forward))),
        },
    }
}

/// The trajectory behind at most that many doublings.
pub open spec fn doubled<D: Dynamics>(
    d: &D,
    metric: MetricModel,
    h0: u64,
    step: u64,
    left: nat,
    t: TrajectoryModel<D::Source>,
) -> Result<TrajectoryModel<D::Source>, Fault>
    decreases left,
{
    if left == 0 {
        Ok(t)
    } else {
        match stretched(d, metric, h0, step, t) {
            Err(fault) => Err(fault),
            Ok((next, more)) => if more {
                doubled(d, metric, h0, step, (left - 1) as nat, next)
            } else {
                Ok(next)
            },
        }
    }
}

/// What a transition came to: the retained point, and what adaptation and diagnostics need.
#[derive(Debug)]
pub struct Transition {
    pub q: Vec<u64>,
    pub logp: u64,
    pub grad: Vec<u64>,
    pub depth: usize,
    pub n_leapfrog: usize,
    pub divergent: bool,
    /// The mean acceptance over the trajectory.
    pub accept_prob: u64,
    /// The energy of the retained point.
    pub energy: u64,
}

/// The mathematical content of a [`Transition`].
#[verifier::ext_equal]
pub struct TransitionModel {
    pub q: Seq<u64>,
    pub logp: u64,
    pub grad: Seq<u64>,
    pub depth: usize,
    pub n_leapfrog: usize,
    pub divergent: bool,
    pub accept_prob: u64,
    pub energy: u64,
}

impl View for Transition {
    type V = TransitionModel;

    open spec fn view(&self) -> TransitionModel {
        TransitionModel {
            q: self.q@,
            logp: self.logp,
            grad: self.grad@,
            depth: self.depth,
            n_leapfrog: self.n_leapfrog,
            divergent: self.divergent,
            accept_prob: self.accept_prob,
            energy: self.energy,
        }
    }
}

/// The content of what a transition came to, with the source of random numbers behind it.
pub open spec fn transition_outcome<Z>(r: Result<(Transition, Z), Error>) -> Result<
    (TransitionModel, Z),
    Fault,
> {
    match r {
        Ok(found) => Ok((found.0@, found.1)),
        Err(error) => Err(error@),
    }
}

/// A count as a double; counts beyond the signed range count as its greatest.
pub open spec fn count_bits(n: usize) -> u64 {
    number_of_integer(
        if n <= i64::MAX {
            n as int
        } else {
            i64::MAX as int
        },
    ).bits
}

/// The mean acceptance over a trajectory.
pub open spec fn acceptance<D: Dynamics>(d: &D, stats: TreeStats) -> u64 {
    if stats.n_leapfrog > 0 {
        d.value(Rounded::Div, stats.sum_metro_prob, count_bits(stats.n_leapfrog))
    } else {
        ZERO
    }
}

/// What a finished trajectory comes to.
pub open spec fn concluded<D: Dynamics>(
    d: &D,
    inv_mass: Seq<u64>,
    t: TrajectoryModel<D::Source>,
) -> TransitionModel {
    TransitionModel {
        q: t.sample.q,
        logp: t.sample.logp,
        grad: t.sample.grad,
        depth: t.depth,
        n_leapfrog: t.stats.n_leapfrog,
        divergent: t.stats.divergent,
        accept_prob: acceptance(d, t.stats),
        energy: energy_of(d, inv_mass, t.sample),
    }
}

/// A point with momenta drawn anew, and the source behind them.
pub open spec fn launched<D: Dynamics>(
    d: &D,
    inv_mass: Seq<u64>,
    source: D::Source,
    z: StateModel,
) -> (StateModel, D::Source) {
    let (p, next) = drawn_momentum(d, source, z.p, inv_mass, 0);
    (StateModel { p, ..z }, next)
}

/// What a transition from a point comes to.
pub open spec fn transited<D: Dynamics>(
    d: &D,
    metric: MetricModel,
    source: D::Source,
    z: StateModel,
    step: u64,
    max_depth: nat,
) -> Result<(TransitionModel, D::Source), Fault> {
    let (start, next) = launched(d, metric.inv_mass, source, z);
    match doubled(
        d,
        metric,
        energy_of(d, metric.inv_mass, start),
        step,
        max_depth,
        beginning(d, metric.inv_mass, start, next),
    ) {
        Err(fault) => Err(fault),
        Ok(t) => Ok((concluded(d, metric.inv_mass, t), t.source)),
    }
}

fn grow_on<D: Dynamics>(
    d: &D,
    t: Trajectory<D::Source>,
    tree: Subtree,
    z: State,
    stats: TreeStats,
    forward: bool,
) -> (r: (Trajectory<D::Source>, bool))
    requires
        decided(d),
        t.depth < usize::MAX,
    ensures
        r.0@ == extended(
            d,
            t@,
            (GrowthModel { tree: Some(tree@), z: z@, source: t.source, stats }),
            forward,
        ),
        r.1 == goes_on(d, t@, tree@, forward),
{
    let rho: Vec<u64> = added_up(d, &t.rho, &tree.rho);
    let rho_old: Vec<u64> = added_up(d, &t.rho, &tree.p_beg);
    let rho_new: Vec<u64> = if forward {
        added_up(d, &tree.rho, &t.plus.p)
    } else {
        added_up(d, &tree.rho, &t.minus.p)
    };
    let (whole, near, far): (bool, bool, bool) = if forward {
        (
            criterion(d, &t.sharp_minus, &tree.p_sharp_end, &rho),
            criterion(d, &t.sharp_minus, &tree.p_sharp_beg, &rho_old),
            criterion(d, &t.sharp_plus, &tree.p_sharp_end, &rho_new),
        )
    } else {
        (
            criterion(d, &t.sharp_plus, &tree.p_sharp_end, &rho),
            criterion(d, &t.sharp_plus, &tree.p_sharp_beg, &rho_old),
            criterion(d, &t.sharp_minus, &tree.p_sharp_end, &rho_new),
        )
    };
    let weight: u64 = log_sum_exp(d, t.log_sum_weight, tree.log_sum_weight);
    let (take, source): (bool, D::Source) = if less_than(t.log_sum_weight, tree.log_sum_weight) {
        (true, t.source)
    } else {
        let (uniform, next) = d.draw_uniform(t.source);
        let logged: u64 = d.compute(Rounded::Ln, uniform, ZERO);
        let lead: u64 = d.compute(Rounded::Sub, tree.log_sum_weight, t.log_sum_weight);
        (less_than(logged, lead), next)
    };
    let sample: State = if take {
        tree.proposal
    } else {
        t.sample
    };
    let depth: usize = t.depth + 1;
    let next: Trajectory<D::Source> = if forward {
        Trajectory {
            minus: t.minus,
            plus: z,
            sharp_minus: t.sharp_minus,
            sharp_plus: tree.p_sharp_end,
            rho,
            sample,
            log_sum_weight: weight,
            depth,
            stats,
            source,
        }
    } else {
        Trajectory {
            minus: z,
            plus: t.plus,
            sharp_minus: tree.p_sharp_end,
            sharp_plus: t.sharp_plus,
            rho,
            sample,
            log_sum_weight: weight,
            depth,
            stats,
            source,
        }
    };
    (next, whole && near && far)
}

fn stretch<D: Dynamics>(
    ham: &Hamiltonian,
    d: &D,
    h0: u64,
    step: u64,
    t: Trajectory<D::Source>,
) -> (r: Result<(Trajectory<D::Source>, bool), Error>)
    requires
        decided(d),
        ham.ready(),
        t.depth < usize::MAX,
    ensures
        stretch_outcome(r) == stretched(d, ham@, h0, step, t@),
{
    let ghost before = t@;
    let (uniform, source) = d.draw_uniform(t.source);
    let forward: bool = less_than(uniform, HALF);
    let eps: u64 = if forward {
        step
    } else {
        negate(step)
    };
    let z: State = if forward {
        t.plus.copy()
    } else {
        t.minus.copy()
    };
    let attempt: Result<Growth<D::Source>, Error> = build_tree(
        ham,
        d,
        source,
        t.depth,
        z,
        h0,
        eps,
        t.stats,
    );
    assert(growth_outcome(attempt) == attempted(d, ham@, h0, step, before));
    let growth: Growth<D::Source> = match attempt {
        Err(error) => {
            return Err(error);
        },
        Ok(growth) => growth,
    };
    let rest: Trajectory<D::Source> = Trajectory {
        minus: t.minus,
        plus: t.plus,
        sharp_minus: t.sharp_minus,
        sharp_plus: t.sharp_plus,
        rho: t.rho,
        sample: t.sample,
        log_sum_weight: t.log_sum_weight,
        depth: t.depth,
        stats: growth.stats,
        source: growth.source,
    };
    match growth.tree {
        None => Ok((rest, false)),
        Some(tree) => Ok(grow_on(d, rest, tree, growth.z, growth.stats, forward)),
    }
}

fn count_as_double(n: usize) -> (r: u64)
    ensures
        r == count_bits(n),
{
    if n as u64 <= i64::MAX as u64 {
        Number::from_integer(n as i64).bits
    } else {
        Number::from_integer(i64::MAX).bits
    }
}

/// One transition from a point, whose momenta are drawn anew.
pub fn transition<D: Dynamics>(
    ham: &Hamiltonian,
    d: &D,
    source: D::Source,
    state: State,
    step_size: u64,
    max_depth: usize,
) -> (r: Result<(Transition, D::Source), Error>)
    requires
        decided(d),
        ham.ready(),
    ensures
        transition_outcome(r) == transited(
            d,
            ham@,
            source,
            state@,
            step_size,
            max_depth as nat,
        ),
{
    let ghost metric = ham@;
    let ghost begin = state@;
    let (p, onward): (Vec<u64>, D::Source) = ham.sample_momentum(d, source, state.p);
    let start: State = State { q: state.q, p, logp: state.logp, grad: state.grad };
    let h0: u64 = ham.energy(d, &start);
    let sharp: Vec<u64> = ham.p_sharp(d, &start.p);
    let mut t: Trajectory<D::Source> = Trajectory {
        minus: start.copy(),
        plus: start.copy(),
        sharp_minus: copied(&sharp),
        sharp_plus: sharp,
        rho: copied(&start.p),
        sample: start,
        log_sum_weight: ZERO,
        depth: 0,
        stats: TreeStats { n_leapfrog: 0, sum_metro_prob: ZERO, divergent: false },
        source: onward,
    };
    let ghost whole = doubled(d, metric, h0, step_size, max_depth as nat, t@);
    let mut open: bool = true;
    while open && t.depth < max_depth
        invariant
            decided(d),
            ham.ready(),
            metric == ham@,
            t.depth <= max_depth,
            begin == state@,
            transited(d, metric, source, begin, step_size, max_depth as nat) == (match whole {
                Err(fault) => Err::<(TransitionModel, D::Source), Fault>(fault),
                Ok(end) => Ok((concluded(d, metric.inv_mass, end), end.source)),
            }),
            open ==> whole == doubled(d, metric, h0, step_size, (max_depth - t.depth) as nat, t@),
            !open ==> whole == Ok::<TrajectoryModel<D::Source>, Fault>(t@),
        decreases max_depth - t.depth, if open { 1int } else { 0int },
    {
        match stretch(ham, d, h0, step_size, t) {
            Err(error) => {
                return Err(error);
            },
            Ok((next, more)) => {
                t = next;
                open = more;
            },
        }
    }
    let accept_prob: u64 = if t.stats.n_leapfrog > 0 {
        d.compute(Rounded::Div, t.stats.sum_metro_prob, count_as_double(t.stats.n_leapfrog))
    } else {
        ZERO
    };
    let energy: u64 = ham.energy(d, &t.sample);
    Ok(
        (
            Transition {
                q: t.sample.q,
                logp: t.sample.logp,
                grad: t.sample.grad,
                depth: t.depth,
                n_leapfrog: t.stats.n_leapfrog,
                divergent: t.stats.divergent,
                accept_prob,
                energy,
            },
            t.source,
        ),
    )
}

} // verus!
