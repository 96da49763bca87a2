//! Points of phase space, their energy, and steps between them.

use vstd::prelude::*;

#[allow(unused_imports)]
use crate::data::data_views;
use crate::density::{HALF, NEGATIVE_INFINITY, ZERO};
use crate::error::Error;
#[allow(unused_imports)]
use crate::error::{outcome, Fault};
use crate::logp::calculus::Calculus;
#[allow(unused_imports)]
use crate::logp::calculus::usable;
#[allow(unused_imports)]
use crate::logp::compiled::compiles;
use crate::logp::graph::CompiledLogp;
#[allow(unused_imports)]
use crate::logp::graph::GraphModel;
#[allow(unused_imports)]
use crate::logp::point::{graph_fits, slots_tile};
#[allow(unused_imports)]
use crate::model::all_filled;
use crate::number::{less_than, INFINITY_BITS, SIGN_WEIGHT};
#[allow(unused_imports)]
use crate::number::{finite, less, nan};
use crate::posterior::Posterior;

use super::services::{log_density, Dynamics, Rounded};
#[allow(unused_imports)]
use super::services::{decided, density};

verus! {

/// The bit pattern of a number with its sign turned.
pub open spec fn negated(bits: u64) -> u64 {
    if bits < SIGN_WEIGHT {
        (bits + SIGN_WEIGHT) as u64
    } else {
        (bits - SIGN_WEIGHT) as u64
    }
}

pub(crate) fn negate(bits: u64) -> (r: u64)
    ensures
        r == negated(bits),
{
    if bits < SIGN_WEIGHT {
        bits + SIGN_WEIGHT
    } else {
        bits - SIGN_WEIGHT
    }
}

pub(crate) fn is_nan(bits: u64) -> (r: bool)
    ensures
        r == nan(bits),
{
    let size: u64 = if bits < SIGN_WEIGHT {
        bits
    } else {
        bits - SIGN_WEIGHT
    };
    size > INFINITY_BITS
}

pub(crate) fn is_finite(bits: u64) -> (r: bool)
    ensures
        r == finite(bits),
{
    let size: u64 = if bits < SIGN_WEIGHT {
        bits
    } else {
        bits - SIGN_WEIGHT
    };
    size < INFINITY_BITS
}

/// The greater of two numbers; the other one, where one is not a number.
pub open spec fn greater(a: u64, b: u64) -> u64 {
    if nan(a) || less(a, b) {
        b
    } else {
        a
    }
}

pub(crate) fn greater_of(a: u64, b: u64) -> (r: u64)
    ensures
        r == greater(a, b),
{
    if is_nan(a) || less_than(a, b) {
        b
    } else {
        a
    }
}

/// The smaller of two numbers; the other one, where one is not a number.
pub open spec fn smaller(a: u64, b: u64) -> u64 {
    if nan(a) || less(b, a) {
        b
    } else {
        a
    }
}

pub(crate) fn smaller_of(a: u64, b: u64) -> (r: u64)
    ensures
        r == smaller(a, b),
{
    if is_nan(a) || less_than(b, a) {
        b
    } else {
        a
    }
}

/// A number that came about by four operations: `a + b * c * d`, from the left.
pub open spec fn moved<D: Dynamics>(d: &D, a: u64, b: u64, c: u64, e: u64) -> u64 {
    d.value(Rounded::Add, a, d.value(Rounded::Mul, d.value(Rounded::Mul, b, c), e))
}

fn move_by<D: Dynamics>(d: &D, a: u64, b: u64, c: u64, e: u64) -> (r: u64)
    requires
        decided(d),
    ensures
        r == moved(d, a, b, c, e),
{
    let first: u64 = d.compute(Rounded::Mul, b, c);
    let second: u64 = d.compute(Rounded::Mul, first, e);
    d.compute(Rounded::Add, a, second)
}

/// The length that two sequences have in common.
pub open spec fn common<T>(a: Seq<T>, b: Seq<T>) -> nat {
    if a.len() < b.len() {
        a.len()
    } else {
        b.len()
    }
}

pub(crate) fn common_length(a: &Vec<u64>, b: &Vec<u64>) -> (r: usize)
    ensures
        r == common(a@, b@),
{
    if a.len() < b.len() {
        a.len()
    } else {
        b.len()
    }
}

/// A copy of a list of numbers.
pub(crate) fn copied(list: &Vec<u64>) -> (r: Vec<u64>)
    ensures
        r@ == list@,
{
    let mut out: Vec<u64> = Vec::new();
    let mut i: usize = 0;
    while i < list.len()
        invariant
            i <= list.len(),
            out@ == list@.take(i as int),
        decreases list.len() - i,
    {
        out.push(list[i]);
        assert(list@.take(i + 1) =~= list@.take(i as int).push(list@[i as int]));
        i += 1;
    }
    assert(list@.take(i as int) =~= list@);
    out
}

/// The products of paired entries, added up from the first.
pub open spec fn dot_upto<D: Dynamics>(d: &D, a: Seq<u64>, b: Seq<u64>, n: nat) -> u64
    decreases n,
{
    if n == 0 {
        ZERO
    } else {
        d.value(
            Rounded::Add,
            dot_upto(d, a, b, (n - 1) as nat),
            d.value(Rounded::Mul, a[n - 1], b[n - 1]),
        )
    }
}

/// The inner product of two vectors.
pub open spec fn dot_of<D: Dynamics>(d: &D, a: Seq<u64>, b: Seq<u64>) -> u64 {
    dot_upto(d, a, b, common(a, b))
}

/// The inner product of two vectors.
pub fn dot<D: Dynamics>(d: &D, a: &Vec<u64>, b: &Vec<u64>) -> (r: u64)
    requires
        decided(d),
    ensures
        r == dot_of(d, a@, b@),
{
    let n: usize = common_length(a, b);
    let mut total: u64 = ZERO;
    let mut i: usize = 0;
    while i < n
        invariant
            i <= n,
            n <= a.len(),
            n <= b.len(),
            decided(d),
            total == dot_upto(d, a@, b@, i as nat),
        decreases n - i,
    {
        let term: u64 = d.compute(Rounded::Mul, a[i], b[i]);
        total = d.compute(Rounded::Add, total, term);
        i += 1;
    }
    total
}

/// Two vectors put together entry by entry.
pub open spec fn paired<D: Dynamics>(d: &D, op: Rounded, a: Seq<u64>, b: Seq<u64>) -> Seq<u64> {
    Seq::new(common(a, b), |i: int| d.value(op, a[i], b[i]))
}

fn pair<D: Dynamics>(d: &D, op: Rounded, a: &Vec<u64>, b: &Vec<u64>) -> (r: Vec<u64>)
    requires
        decided(d),
    ensures
        r@ == paired(d, op, a@, b@),
{
    let n: usize = common_length(a, b);
    let mut out: Vec<u64> = Vec::new();
    let mut i: usize = 0;
    while i < n
        invariant
            i <= n,
            n <= a.len(),
            n <= b.len(),
            decided(d),
            out.len() == i,
            forall|k: int| 0 <= k < i ==> out@[k] == d.value(op, a@[k], b@[k]),
        decreases n - i,
    {
        out.push(d.compute(op, a[i], b[i]));
        i += 1;
    }
    assert(out@ =~= paired(d, op, a@, b@));
    out
}

/// The sum of two vectors.
pub open spec fn added<D: Dynamics>(d: &D, a: Seq<u64>, b: Seq<u64>) -> Seq<u64> {
    paired(d, Rounded::Add, a, b)
}

pub(crate) fn added_up<D: Dynamics>(d: &D, a: &Vec<u64>, b: &Vec<u64>) -> (r: Vec<u64>)
    requires
        decided(d),
    ensures
        r@ == added(d, a@, b@),
{
    pair(d, Rounded::Add, a, b)
}

/// Whether a trajectory increment points forward at both sharp endpoints.
pub open spec fn keeps_forward<D: Dynamics>(
    d: &D,
    sharp_a: Seq<u64>,
    sharp_b: Seq<u64>,
    rho: Seq<u64>,
) -> bool {
    less(ZERO, dot_of(d, sharp_a, rho)) && less(ZERO, dot_of(d, sharp_b, rho))
}

/// The generalized U-turn criterion: a trajectory goes on while its increment points forward at
/// both sharp endpoints.
pub fn criterion<D: Dynamics>(
    d: &D,
    sharp_a: &Vec<u64>,
    sharp_b: &Vec<u64>,
    rho: &Vec<u64>,
) -> (r: bool)
    requires
        decided(d),
    ensures
        r == keeps_forward(d, sharp_a@, sharp_b@, rho@),
{
    let first: u64 = dot(d, sharp_a, rho);
    let second: u64 = dot(d, sharp_b, rho);
    less_than(ZERO, first) && less_than(ZERO, second)
}

/// The logarithm of a sum, by the logarithms of its parts, with the greater part taken out first.
pub open spec fn joined_weight<D: Dynamics>(d: &D, a: u64, b: u64) -> u64 {
    if a == NEGATIVE_INFINITY {
        b
    } else if b == NEGATIVE_INFINITY {
        a
    } else {
        let m = greater(a, b);
        d.value(
            Rounded::Add,
            m,
            d.value(
                Rounded::Ln,
                d.value(
                    Rounded::Add,
                    d.value(Rounded::Exp, d.value(Rounded::Sub, a, m), ZERO),
                    d.value(Rounded::Exp, d.value(Rounded::Sub, b, m), ZERO),
                ),
                ZERO,
            ),
        )
    }
}

/// The logarithm of a sum, by the logarithms of its parts.
pub fn log_sum_exp<D: Dynamics>(d: &D, a: u64, b: u64) -> (r: u64)
    requires
        decided(d),
    ensures
        r == joined_weight(d, a, b),
{
    if a == NEGATIVE_INFINITY {
        return b;
    }
    if b == NEGATIVE_INFINITY {
        return a;
    }
    let m: u64 = greater_of(a, b);
    let below_a: u64 = d.compute(Rounded::Sub, a, m);
    let below_b: u64 = d.compute(Rounded::Sub, b, m);
    let part_a: u64 = d.compute(Rounded::Exp, below_a, ZERO);
    let part_b: u64 = d.compute(Rounded::Exp, below_b, ZERO);
    let whole: u64 = d.compute(Rounded::Add, part_a, part_b);
    let rest: u64 = d.compute(Rounded::Ln, whole, ZERO);
    d.compute(Rounded::Add, m, rest)
}

/// A point of phase space with its log density and gradient.
#[derive(Debug)]
pub struct State {
    pub q: Vec<u64>,
    pub p: Vec<u64>,
    pub logp: u64,
    pub grad: Vec<u64>,
}

/// The mathematical content of a [`State`].
#[verifier::ext_equal]
pub struct StateModel {
    pub q: Seq<u64>,
    pub p: Seq<u64>,
    pub logp: u64,
    pub grad: Seq<u64>,
}

impl View for State {
    type V = StateModel;

    open spec fn view(&self) -> StateModel {
        StateModel { q: self.q@, p: self.p@, logp: self.logp, grad: self.grad@ }
    }
}

impl State {
    /// A copy.
    pub fn copy(&self) -> (r: State)
        ensures
            r@ == self@,
    {
        State {
            q: copied(&self.q),
            p: copied(&self.p),
            logp: self.logp,
            grad: copied(&self.grad),
        }
    }
}

/// A point at rest, by what the density is there.
pub open spec fn rest_at(q: Seq<u64>, density: Result<(u64, Seq<u64>), Fault>) -> Result<
    StateModel,
    Fault,
> {
    match density {
        Err(fault) => Err(fault),
        Ok((logp, grad)) => Ok(
            StateModel { q, p: Seq::new(q.len(), |i: int| ZERO), logp, grad },
        ),
    }
}

/// The kinetic energy of momenta, added up from the first.
pub open spec fn kinetic_upto<D: Dynamics>(d: &D, p: Seq<u64>, inv_mass: Seq<u64>, n: nat) -> u64
    decreases n,
{
    if n == 0 {
        ZERO
    } else {
        d.value(
            Rounded::Add,
            kinetic_upto(d, p, inv_mass, (n - 1) as nat),
            d.value(
                Rounded::Mul,
                d.value(Rounded::Mul, d.value(Rounded::Mul, HALF, p[n - 1]), p[n - 1]),
                inv_mass[n - 1],
            ),
        )
    }
}

/// The total energy of a point; infinite, where the log density is not finite or where the sum is
/// not a number.
pub open spec fn energy_of<D: Dynamics>(d: &D, inv_mass: Seq<u64>, z: StateModel) -> u64 {
    let h = d.value(
        Rounded::Add,
        negated(z.logp),
        kinetic_upto(d, z.p, inv_mass, common(z.p, inv_mass)),
    );
    if !finite(z.logp) || nan(h) {
        INFINITY_BITS
    } else {
        h
    }
}

/// Momenta behind half a step.
pub open spec fn kicked<D: Dynamics>(d: &D, p: Seq<u64>, grad: Seq<u64>, eps: u64) -> Seq<u64> {
    Seq::new(common(p, grad), |i: int| moved(d, p[i], HALF, eps, grad[i]))
}

/// Positions behind a step with those momenta.
pub open spec fn drifted<D: Dynamics>(
    d: &D,
    q: Seq<u64>,
    p: Seq<u64>,
    inv_mass: Seq<u64>,
    eps: u64,
) -> Seq<u64> {
    Seq::new(
        if q.len() < common(p, inv_mass) {
            q.len()
        } else {
            common(p, inv_mass)
        },
        |i: int| moved(d, q[i], eps, inv_mass[i], p[i]),
    )
}

/// The mathematical content of a [`Hamiltonian`].
#[verifier::ext_equal]
pub struct MetricModel {
    pub logp: GraphModel,
    pub inv_mass: Seq<u64>,
}

/// A leapfrog step of signed size.
pub open spec fn leapt<D: Dynamics>(d: &D, metric: MetricModel, z: StateModel, eps: u64) -> Result<
    StateModel,
    Fault,
> {
    let half = kicked(d, z.p, z.grad, eps);
    let q = drifted(d, z.q, half, metric.inv_mass, eps);
    match density(d, metric.logp, q) {
        Err(fault) => Err(fault),
        Ok((logp, grad)) => Ok(StateModel { q, p: kicked(d, half, grad, eps), logp, grad }),
    }
}

/// The momenta from an entry on, drawn anew for the inverse masses.
pub open spec fn drawn_momentum<D: Dynamics>(
    d: &D,
    source: D::Source,
    p: Seq<u64>,
    inv_mass: Seq<u64>,
    i: int,
) -> (Seq<u64>, D::Source)
    decreases common(p, inv_mass) - i,
{
    if i < 0 || i >= common(p, inv_mass) {
        (p, source)
    } else {
        let (z, next) = d.normal(source);
        drawn_momentum(
            d,
            next,
            p.update(
                i,
                d.value(Rounded::Div, z, d.value(Rounded::Sqrt, inv_mass[i], ZERO)),
            ),
            inv_mass,
            i + 1,
        )
    }
}

fn kick<D: Dynamics>(d: &D, p: &Vec<u64>, grad: &Vec<u64>, eps: u64) -> (r: Vec<u64>)
    requires
        decided(d),
    ensures
        r@ == kicked(d, p@, grad@, eps),
{
    let n: usize = common_length(p, grad);
    let mut out: Vec<u64> = Vec::new();
    let mut i: usize = 0;
    while i < n
        invariant
            i <= n,
            n <= p.len(),
            n <= grad.len(),
            decided(d),
            out.len() == i,
            forall|k: int| 0 <= k < i ==> out@[k] == moved(d, p@[k], HALF, eps, grad@[k]),
        decreases n - i,
    {
        out.push(move_by(d, p[i], HALF, eps, grad[i]));
        i += 1;
    }
    assert(out@ =~= kicked(d, p@, grad@, eps));
    out
}

/// A kinetic metric, the diagonal of the inverse mass matrix, with the log density of a bound
/// model.
#[derive(Debug)]
pub struct Hamiltonian {
    pub logp: CompiledLogp,
    pub inv_mass: Vec<u64>,
}

impl View for Hamiltonian {
    type V = MetricModel;

    open spec fn view(&self) -> MetricModel {
        MetricModel { logp: self.logp@, inv_mass: self.inv_mass@ }
    }
}

impl Hamiltonian {
    /// Whether the log density can be asked for.
    pub open spec fn ready(&self) -> bool {
        graph_fits(self.logp@)
    }

    /// The metric for the free values of a posterior, whose log density must be such as to be
    /// compiled.
    pub fn new<S: Calculus>(posterior: &Posterior, inv_mass: Vec<u64>, s: &S) -> (r: Result<
        Hamiltonian,
        Error,
    >)
        requires
            inv_mass@.len() == posterior.n_params,
            usable(s),
            slots_tile(*posterior),
            all_filled(data_views(posterior.data@)),
        ensures
            match r {
                Err(error) => compiles(s, *posterior, Err(error)),
                Ok(ham) => compiles(s, *posterior, Ok(ham.logp)) && ham.inv_mass@ == inv_mass@
                    && ham.ready(),
            },
    {
        match posterior.compile(s) {
            Err(error) => Err(error),
            Ok(logp) => Ok(Hamiltonian { logp, inv_mass }),
        }
    }

    /// A point at rest.
    pub fn init_state<D: Dynamics>(&self, d: &D, q: Vec<u64>) -> (r: Result<State, Error>)
        requires
            decided(d),
            self.ready(),
        ensures
            outcome(r) == rest_at(q@, density(d, self.logp@, q@)),
    {
        let found: Result<(u64, Vec<u64>), Error> = log_density(d, &self.logp, &q);
        match found {
            Err(error) => Err(error),
            Ok((logp, grad)) => {
                let mut p: Vec<u64> = Vec::new();
                let mut i: usize = 0;
                while i < q.len()
                    invariant
                        i <= q.len(),
                        p.len() == i,
                        forall|k: int| 0 <= k < i ==> p@[k] == ZERO,
                    decreases q.len() - i,
                {
                    p.push(ZERO);
                    i += 1;
                }
                assert(p@ =~= Seq::new(q@.len(), |i: int| ZERO));
                Ok(State { q, p, logp, grad })
            },
        }
    }

    /// Draws the momenta of a point anew.
    pub fn sample_momentum<D: Dynamics>(&self, d: &D, source: D::Source, p: Vec<u64>) -> (r: (
        Vec<u64>,
        D::Source,
    ))
        requires
            decided(d),
        ensures
            (r.0@, r.1) == drawn_momentum(d, source, p@, self.inv_mass@, 0),
    {
        let n: usize = common_length(&p, &self.inv_mass);
        let ghost whole = drawn_momentum(d, source, p@, self.inv_mass@, 0);
        let mut p: Vec<u64> = p;
        let mut source: D::Source = source;
        let mut i: usize = 0;
        while i < n
            invariant
                i <= n,
                n == common(p@, self.inv_mass@),
                decided(d),
                whole == drawn_momentum(d, source, p@, self.inv_mass@, i as int),
            decreases n - i,
        {
            let (z, next) = d.draw_normal(source);
            let root: u64 = d.compute(Rounded::Sqrt, self.inv_mass[i], ZERO);
            let value: u64 = d.compute(Rounded::Div, z, root);
            p.set(i, value);
            source = next;
            i += 1;
        }
        (p, source)
    }

    /// The total energy of a point.
    pub fn energy<D: Dynamics>(&self, d: &D, state: &State) -> (r: u64)
        requires
            decided(d),
        ensures
            r == energy_of(d, self.inv_mass@, state@),
    {
        let n: usize = common_length(&state.p, &self.inv_mass);
        let mut kinetic: u64 = ZERO;
        let mut i: usize = 0;
        while i < n
            invariant
                i <= n,
                n == common(state.p@, self.inv_mass@),
                decided(d),
                kinetic == kinetic_upto(d, state.p@, self.inv_mass@, i as nat),
            decreases n - i,
        {
            let p: u64 = state.p[i];
            let half: u64 = d.compute(Rounded::Mul, HALF, p);
            let square: u64 = d.compute(Rounded::Mul, half, p);
            let term: u64 = d.compute(Rounded::Mul, square, self.inv_mass[i]);
            kinetic = d.compute(Rounded::Add, kinetic, term);
            i += 1;
        }
        let h: u64 = d.compute(Rounded::Add, negate(state.logp), kinetic);
        if !is_finite(state.logp) || is_nan(h) {
            INFINITY_BITS
        } else {
            h
        }
    }

    /// One leapfrog step of signed size.
    pub fn leapfrog<D: Dynamics>(&self, d: &D, state: &State, eps: u64) -> (r: Result<State, Error>)
        requires
            decided(d),
            self.ready(),
        ensures
            outcome(r) == leapt(d, self@, state@, eps),
    {
        let half: Vec<u64> = kick(d, &state.p, &state.grad, eps);
        let shared: usize = common_length(&half, &self.inv_mass);
        let n: usize = if state.q.len() < shared {
            state.q.len()
        } else {
            shared
        };
        let mut q: Vec<u64> = Vec::new();
        let mut i: usize = 0;
        while i < n
            invariant
                i <= n,
                n <= state.q.len(),
                n <= half.len(),
                n <= self.inv_mass.len(),
                decided(d),
                q.len() == i,
                forall|k: int|
                    0 <= k < i ==> q@[k] == moved(
                        d,
                        state.q@[k],
                        eps,
                        self.inv_mass@[k],
                        half@[k],
                    ),
            decreases n - i,
        {
            q.push(move_by(d, state.q[i], eps, self.inv_mass[i], half[i]));
            i += 1;
        }
        assert(q@ =~= drifted(d, state.q@, half@, self.inv_mass@, eps));
        match log_density(d, &self.logp, &q) {
            Err(error) => Err(error),
            Ok((logp, grad)) => {
                let p: Vec<u64> = kick(d, &half, &grad, eps);
                Ok(State { q, p, logp, grad })
            },
        }
    }

    /// The velocity that momenta stand for.
    pub fn p_sharp<D: Dynamics>(&self, d: &D, p: &Vec<u64>) -> (r: Vec<u64>)
        requires
            decided(d),
        ensures
            r@ == paired(d, Rounded::Mul, p@, self.inv_mass@),
    {
        pair(d, Rounded::Mul, p, &self.inv_mass)
    }
}

} // verus!
