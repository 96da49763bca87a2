//! Subtrees of a trajectory, built by doubling.

use vstd::prelude::*;

use crate::density::{ONE, ZERO};
use crate::error::Error;
#[allow(unused_imports)]
use crate::error::Fault;
use crate::number::less_than;
#[allow(unused_imports)]
use crate::number::less;

use super::hamiltonian::{added_up, copied, criterion, log_sum_exp, negate, smaller_of, Hamiltonian, State};
#[allow(unused_imports)]
use super::hamiltonian::{
    added, energy_of, joined_weight, keeps_forward, leapt, negated, paired, smaller, MetricModel, StateModel,
};
#[allow(unused_imports)]
use super::services::decided;
use super::services::{Dynamics, Rounded};

verus! {

/// The bit pattern of the energy error beyond which a trajectory diverges: one thousand.
pub const DIVERGENCE_THRESHOLD: u64 = 0x408F_4000_0000_0000;

/// What is counted while a trajectory grows.
#[derive(Debug, Clone, Copy, PartialEq, Eq, Structural)]
pub struct TreeStats {
    /// The leapfrog steps, up to the greatest count that can be held.
    pub n_leapfrog: usize,
    pub sum_metro_prob: u64,
    pub divergent: bool,
}

/// A subtree: its edges in stepping order, its proposal and what merging needs.
#[derive(Debug)]
pub struct Subtree {
    pub proposal: State,
    pub p_beg: Vec<u64>,
    pub p_sharp_beg: Vec<u64>,
    pub p_end: Vec<u64>,
    pub p_sharp_end: Vec<u64>,
    pub rho: Vec<u64>,
    pub log_sum_weight: u64,
}

/// The mathematical content of a [`Subtree`].
#[verifier::ext_equal]
pub struct SubtreeModel {
    pub proposal: StateModel,
    pub p_beg: Seq<u64>,
    pub p_sharp_beg: Seq<u64>,
    pub p_end: Seq<u64>,
    pub p_sharp_end: Seq<u64>,
    pub rho: Seq<u64>,
    pub log_sum_weight: u64,
}

impl View for Subtree {
    type V = SubtreeModel;

    open spec fn view(&self) -> SubtreeModel {
        SubtreeModel {
            proposal: self.proposal@,
            p_beg: self.p_beg@,
            p_sharp_beg: self.p_sharp_beg@,
            p_end: self.p_end@,
            p_sharp_end: self.p_sharp_end@,
            rho: self.rho@,
            log_sum_weight: self.log_sum_weight,
        }
    }
}

/// What growing a subtree came to: the subtree, unless it turned or diverged, the point reached,
/// the source of random numbers and the counts.
pub struct Growth<Z> {
    pub tree: Option<Subtree>,
    pub z: State,
    pub source: Z,
    pub stats: TreeStats,
}

/// The mathematical content of a [`Growth`].
#[verifier::ext_equal]
pub struct GrowthModel<Z> {
    pub tree: Option<SubtreeModel>,
    pub z: StateModel,
    pub source: Z,
    pub stats: TreeStats,
}

/// The content of an optional subtree.
pub open spec fn optional_tree(tree: Option<Subtree>) -> Option<SubtreeModel> {
    match tree {
        Some(found) => Some(found@),
        None => None,
    }
}

impl<Z> View for Growth<Z> {
    type V = GrowthModel<Z>;

    open spec fn view(&self) -> GrowthModel<Z> {
        GrowthModel {
            tree: optional_tree(self.tree),
            z: self.z@,
            source: self.source,
            stats: self.stats,
        }
    }
}

/// The content of what growing came to.
pub open spec fn growth_outcome<Z>(r: Result<Growth<Z>, Error>) -> Result<GrowthModel<Z>, Fault> {
    match r {
        Ok(found) => Ok(found@),
        Err(error) => Err(error@),
    }
}

/// A count behind one more.
pub open spec fn counted(n: usize) -> usize {
    if n < usize::MAX {
        (n + 1) as usize
    } else {
        n
    }
}

/// The log weight of a point.
pub open spec fn log_weight<D: Dynamics>(d: &D, inv_mass: Seq<u64>, z: StateModel, h0: u64) -> u64 {
    d.value(Rounded::Sub, h0, energy_of(d, inv_mass, z))
}

/// Whether the energy at a point of that log weight is too far off.
pub open spec fn diverges(weight: u64) -> bool {
    less(DIVERGENCE_THRESHOLD, negated(weight))
}

/// The subtree of one point.
pub open spec fn single<D: Dynamics>(d: &D, inv_mass: Seq<u64>, z: StateModel, weight: u64) -> SubtreeModel {
    let sharp = paired(d, Rounded::Mul, z.p, inv_mass);
    SubtreeModel {
        proposal: z,
        p_beg: z.p,
        p_sharp_beg: sharp,
        p_end: z.p,
        p_sharp_end: sharp,
        rho: z.p,
        log_sum_weight: weight,
    }
}

/// What one step comes to.
pub open spec fn one_step<D: Dynamics>(
    d: &D,
    metric: MetricModel,
    source: D::Source,
    z: StateModel,
    h0: u64,
    eps: u64,
    stats: TreeStats,
) -> Result<GrowthModel<D::Source>, Fault> {
    match leapt(d, metric, z, eps) {
        Err(fault) => Err(fault),
        Ok(next) => {
            let weight = log_weight(d, metric.inv_mass, next, h0);
            if diverges(weight) {
                Ok(
                    GrowthModel {
                        tree: None,
                        z: next,
                        source,
                        stats: TreeStats {
                            n_leapfrog: counted(stats.n_leapfrog),
                            sum_metro_prob: stats.sum_metro_prob,
                            divergent: true,
                        },
                    },
                )
            } else {
                Ok(
                    GrowthModel {
                        tree: Some(single(d, metric.inv_mass, next, weight)),
                        z: next,
                        source,
                        stats: TreeStats {
                            n_leapfrog: counted(stats.n_leapfrog),
                            sum_metro_prob: d.value(
                                Rounded::Add,
                                stats.sum_metro_prob,
                                smaller(d.value(Rounded::Exp, weight, ZERO), ONE),
                            ),
                            divergent: stats.divergent,
                        },
                    },
                )
            }
        },
    }
}

/// Whether a trajectory made of two subtrees, one behind the other, turns nowhere: neither as a
/// whole nor across the join.
pub open spec fn joins<D: Dynamics>(d: &D, left: SubtreeModel, right: SubtreeModel) -> bool {
    &&& keeps_forward(d, left.p_sharp_beg, right.p_sharp_end, added(d, left.rho, right.rho))
    &&& keeps_forward(d, left.p_sharp_beg, right.p_sharp_beg, added(d, left.rho, right.p_beg))
    &&& keeps_forward(d, left.p_sharp_end, right.p_sharp_end, added(d, right.rho, left.p_end))
}

/// Two subtrees as one, with the proposal of the right one if it is taken.
pub open spec fn merged<D: Dynamics>(
    d: &D,
    left: SubtreeModel,
    right: SubtreeModel,
    uniform: u64,
) -> SubtreeModel {
    let weight = joined_weight(d, left.log_sum_weight, right.log_sum_weight);
    let take_right = less(
        d.value(Rounded::Ln, uniform, ZERO),
        d.value(Rounded::Sub, right.log_sum_weight, weight),
    );
    SubtreeModel {
        proposal: if take_right {
            right.proposal
        } else {
            left.proposal
        },
        p_beg: left.p_beg,
        p_sharp_beg: left.p_sharp_beg,
        p_end: right.p_end,
        p_sharp_end: right.p_sharp_end,
        rho: added(d, left.rho, right.rho),
        log_sum_weight: weight,
    }
}

/// What putting two grown halves together comes to, with one random number.
pub open spec fn joined<D: Dynamics>(
    d: &D,
    left: SubtreeModel,
    second: GrowthModel<D::Source>,
) -> GrowthModel<D::Source> {
    match second.tree {
        None => second,
        Some(right) => {
            let (uniform, source) = d.uniform(second.source);
            GrowthModel {
                tree: if joins(d, left, right) {
                    Some(merged(d, left, right, uniform))
                } else {
                    None
                },
                z: second.z,
                source,
                stats: second.stats,
            }
        },
    }
}

/// What growing a subtree of that depth from a point comes to: one step at depth zero, and else
/// two subtrees of half the length, one behind the other.
pub open spec fn grown<D: Dynamics>(
    d: &D,
    metric: MetricModel,
    source: D::Source,
    depth: nat,
    z: StateModel,
    h0: u64,
    eps: u64,
    stats: TreeStats,
) -> Result<GrowthModel<D::Source>, Fault>
    decreases depth,
{
    if depth == 0 {
        one_step(d, metric, source, z, h0, eps, stats)
    } else {
        match grown(d, metric, source, (depth - 1) as nat, z, h0, eps, stats) {
            Err(fault) => Err(fault),
            Ok(first) => match first.tree {
                None => Ok(first),
                Some(left) => match grown(
                    d,
                    metric,
                    first.source,
                    (depth - 1) as nat,
                    first.z,
                    h0,
                    eps,
                    first.stats,
                ) {
                    Err(fault) => Err(fault),
                    Ok(second) => Ok(joined(d, left, second)),
                },
            },
        }
    }
}

fn count(n: usize) -> (r: usize)
    ensures
        r == counted(n),
{
    if n < usize::MAX {
        n + 1
    } else {
        n
    }
}

fn take_step<D: Dynamics>(
    ham: &Hamiltonian,
    d: &D,
    source: D::Source,
    z: State,
    h0: u64,
    eps: u64,
    stats: TreeStats,
) -> (r: Result<Growth<D::Source>, Error>)
    requires
        decided(d),
        ham.ready(),
    ensures
        growth_outcome(r) == one_step(d, ham@, source, z@, h0, eps, stats),
{
    let next: State = match ham.leapfrog(d, &z, eps) {
        Err(error) => {
            return Err(error);
        },
        Ok(next) => next,
    };
    let energy: u64 = ham.energy(d, &next);
    let weight: u64 = d.compute(Rounded::Sub, h0, energy);
    if less_than(DIVERGENCE_THRESHOLD, negate(weight)) {
        return Ok(
            Growth {
                tree: None,
                z: next,
                source,
                stats: TreeStats {
                    n_leapfrog: count(stats.n_leapfrog),
                    sum_metro_prob: stats.sum_metro_prob,
                    divergent: true,
                },
            },
        );
    }
    let odds: u64 = d.compute(Rounded::Exp, weight, ZERO);
    let total: u64 = d.compute(Rounded::Add, stats.sum_metro_prob, smaller_of(odds, ONE));
    let sharp: Vec<u64> = ham.p_sharp(d, &next.p);
    let tree: Subtree = Subtree {
        proposal: next.copy(),
        p_beg: copied(&next.p),
        p_sharp_beg: copied(&sharp),
        p_end: copied(&next.p),
        p_sharp_end: sharp,
        rho: copied(&next.p),
        log_sum_weight: weight,
    };
    Ok(
        Growth {
            tree: Some(tree),
            z: next,
            source,
            stats: TreeStats {
                n_leapfrog: count(stats.n_leapfrog),
                sum_metro_prob: total,
                divergent: stats.divergent,
            },
        },
    )
}

fn merge<D: Dynamics>(d: &D, left: Subtree, right: Subtree, uniform: u64) -> (r: Option<Subtree>)
    requires
        decided(d),
    ensures
        optional_tree(r) == (if joins(d, left@, right@) {
            Some(merged(d, left@, right@, uniform))
        } else {
            None
        }),
{
    let weight: u64 = log_sum_exp(d, left.log_sum_weight, right.log_sum_weight);
    let logged: u64 = d.compute(Rounded::Ln, uniform, ZERO);
    let share: u64 = d.compute(Rounded::Sub, right.log_sum_weight, weight);
    let take_right: bool = less_than(logged, share);
    let rho: Vec<u64> = added_up(d, &left.rho, &right.rho);
    let rho_left: Vec<u64> = added_up(d, &left.rho, &right.p_beg);
    let rho_right: Vec<u64> = added_up(d, &right.rho, &left.p_end);
    let whole: bool = criterion(d, &left.p_sharp_beg, &right.p_sharp_end, &rho);
    let near: bool = criterion(d, &left.p_sharp_beg, &right.p_sharp_beg, &rho_left);
    let far: bool = criterion(d, &left.p_sharp_end, &right.p_sharp_end, &rho_right);
    if !(whole && near && far) {
        return None;
    }
    let proposal: State = if take_right {
        right.proposal
    } else {
        left.proposal
    };
    Some(
        Subtree {
            proposal,
            p_beg: left.p_beg,
            p_sharp_beg: left.p_sharp_beg,
            p_end: right.p_end,
            p_sharp_end: right.p_sharp_end,
            rho,
            log_sum_weight: weight,
        },
    )
}

/// Grows a subtree of that depth from a point, with steps of signed size.
pub fn build_tree<D: Dynamics>(
    ham: &Hamiltonian,
    d: &D,
    source: D::Source,
    depth: usize,
    z: State,
    h0: u64,
    eps: u64,
    stats: TreeStats,
) -> (r: Result<Growth<D::Source>, Error>)
    requires
        decided(d),
        ham.ready(),
    ensures
        growth_outcome(r) == grown(
            d,
            ham@,
            source,
            depth as nat,
            z@,
            h0,
            eps,
            stats,
        ),
    decreases depth,
{
    if depth == 0 {
        return take_step(ham, d, source, z, h0, eps, stats);
    }
    let first: Growth<D::Source> = match build_tree(ham, d, source, depth - 1, z, h0, eps, stats) {
        Err(error) => {
            return Err(error);
        },
        Ok(first) => first,
    };
    let left: Subtree = match first.tree {
        None => {
            return Ok(
                Growth { tree: None, z: first.z, source: first.source, stats: first.stats },
            );
        },
        Some(left) => left,
    };
    let second: Growth<D::Source> = match build_tree(
        ham,
        d,
        first.source,
        depth - 1,
        first.z,
        h0,
        eps,
        first.stats,
    ) {
        Err(error) => {
            return Err(error);
        },
        Ok(second) => second,
    };
    match second.tree {
        None => Ok(
            Growth { tree: None, z: second.z, source: second.source, stats: second.stats },
        ),
        Some(right) => {
            let (uniform, source) = d.draw_uniform(second.source);
            let tree: Option<Subtree> = merge(d, left, right, uniform);
            Ok(Growth { tree, z: second.z, source, stats: second.stats })
        },
    }
}

} // verus!
