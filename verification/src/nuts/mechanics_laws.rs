//! What energies, steps, momenta and weights are, where their arithmetic happens to be exact.

use vstd::prelude::*;

#[allow(unused_imports)]
use crate::density::{HALF, NEGATIVE_INFINITY, ZERO};
#[allow(unused_imports)]
use crate::error::Fault;
#[allow(unused_imports)]
use crate::meaning::{
    exp_adds, exp_undone, genuine, lemma_exp_difference, ln_undone, Reals,
};
#[allow(unused_imports)]
use crate::number::{finite, less, nan, order_key};

#[allow(unused_imports)]
use super::hamiltonian::{
    dot_of, dot_upto, drawn_momentum, energy_of, greater, joined_weight, kicked, kinetic_upto, leapt, moved, negated,
    paired, smaller, MetricModel, StateModel,
};
#[allow(unused_imports)]
use super::services::{density, Dynamics, Rounded};

verus! {

/// What an operation comes to over the reals.
pub open spec fn over_reals(f: Reals, op: Rounded, x: real, y: real) -> real {
    match op {
        Rounded::Add => x + y,
        Rounded::Sub => x - y,
        Rounded::Mul => x * y,
        Rounded::Div => x / y,
        Rounded::Exp => (f.exp)(x),
        Rounded::Ln => (f.ln)(x),
        Rounded::Sqrt => x,
    }
}

/// Whether an operation on these doubles needs no rounding. A square root does not where its square
/// is its argument.
pub open spec fn exact<D: Dynamics>(d: &D, f: Reals, op: Rounded, a: u64, b: u64) -> bool {
    let r = (f.constant)(d.value(op, a, b));
    if op is Sqrt {
        r > 0real && r * r == (f.constant)(a)
    } else {
        r == over_reals(f, op, (f.constant)(a), (f.constant)(b))
    }
}

/// Whether `a + b * c * e`, from the left, needs no rounding.
pub open spec fn move_exact<D: Dynamics>(d: &D, f: Reals, a: u64, b: u64, c: u64, e: u64) -> bool {
    let first = d.value(Rounded::Mul, b, c);
    let second = d.value(Rounded::Mul, first, e);
    exact(d, f, Rounded::Mul, b, c) && exact(d, f, Rounded::Mul, first, e) && exact(
        d,
        f,
        Rounded::Add,
        a,
        second,
    )
}

/// An entry as a real.
pub open spec fn num(f: Reals, a: Seq<u64>, i: int) -> real {
    (f.constant)(a[i])
}

/// The inner product of real vectors, over the first entries.
pub open spec fn product_sum(f: Reals, a: Seq<u64>, b: Seq<u64>, n: nat) -> real
    decreases n,
{
    if n == 0 {
        0real
    } else {
        product_sum(f, a, b, (n - 1) as nat) + num(f, a, n - 1) * num(f, b, n - 1)
    }
}

proof fn lemma_dot_upto<D: Dynamics>(d: &D, f: Reals, a: Seq<u64>, b: Seq<u64>, n: nat)
    requires
        genuine(f),
        forall|i: int|
            0 <= i < n ==> exact(d, f, Rounded::Mul, #[trigger] a[i], b[i]) && exact(
                d,
                f,
                Rounded::Add,
                dot_upto(d, a, b, i as nat),
                d.value(Rounded::Mul, a[i], b[i]),
            ),
    ensures
        (f.constant)(dot_upto(d, a, b, n)) == product_sum(f, a, b, n),
    decreases n,
{
    if n > 0 {
        lemma_dot_upto(d, f, a, b, (n - 1) as nat);
        assert(exact(d, f, Rounded::Mul, a[n - 1], b[n - 1]));
    }
}

/// An inner product is the sum of the products of all paired entries.
pub proof fn law_dot_is_the_sum_of_products<D: Dynamics>(d: &D, f: Reals, a: Seq<u64>, b: Seq<u64>)
    requires
        genuine(f),
        a.len() == b.len(),
        forall|i: int|
            0 <= i < a.len() ==> exact(d, f, Rounded::Mul, #[trigger] a[i], b[i]) && exact(
                d,
                f,
                Rounded::Add,
                dot_upto(d, a, b, i as nat),
                d.value(Rounded::Mul, a[i], b[i]),
            ),
    ensures
        (f.constant)(dot_of(d, a, b)) == product_sum(f, a, b, a.len()),
{
    lemma_dot_upto(d, f, a, b, a.len());
}

/// A negated number lies as far on the other side of zero, and negating it again gives it back.
pub proof fn law_negation_mirrors(a: u64)
    ensures
        negated(negated(a)) == a,
        order_key(negated(a)) == -order_key(a),
        nan(negated(a)) == nan(a),
{
}

/// Of two numbers the greater is one of them and not below either, and the smaller one of them and
/// not above either; where one is not a number, both are the other.
pub proof fn law_greater_and_smaller_bound_both(a: u64, b: u64)
    ensures
        greater(a, b) == a || greater(a, b) == b,
        smaller(a, b) == a || smaller(a, b) == b,
        !nan(a) && !nan(b) ==> !less(greater(a, b), a) && !less(greater(a, b), b) && !less(
            a,
            smaller(a, b),
        ) && !less(b, smaller(a, b)),
        nan(a) && !nan(b) ==> greater(a, b) == b && smaller(a, b) == b,
        nan(b) && !nan(a) ==> greater(a, b) == a && smaller(a, b) == a,
{
}

/// The kinetic energy of momenta: half of every momentum squared, times its inverse mass.
pub open spec fn kinetic_sum(f: Reals, p: Seq<u64>, inv_mass: Seq<u64>, n: nat) -> real
    decreases n,
{
    if n == 0 {
        0real
    } else {
        kinetic_sum(f, p, inv_mass, (n - 1) as nat) + num(f, p, n - 1) * num(f, p, n - 1) * num(
            f,
            inv_mass,
            n - 1,
        ) / 2real
    }
}

/// Whether adding up the kinetic energy needs no rounding at an entry.
pub open spec fn kinetic_exact<D: Dynamics>(
    d: &D,
    f: Reals,
    p: Seq<u64>,
    inv_mass: Seq<u64>,
    i: int,
) -> bool {
    let half = d.value(Rounded::Mul, HALF, p[i]);
    let square = d.value(Rounded::Mul, half, p[i]);
    let term = d.value(Rounded::Mul, square, inv_mass[i]);
    &&& exact(d, f, Rounded::Mul, HALF, p[i])
    &&& exact(d, f, Rounded::Mul, half, p[i])
    &&& exact(d, f, Rounded::Mul, square, inv_mass[i])
    &&& exact(d, f, Rounded::Add, kinetic_upto(d, p, inv_mass, i as nat), term)
}

proof fn lemma_kinetic<D: Dynamics>(d: &D, f: Reals, p: Seq<u64>, inv_mass: Seq<u64>, n: nat)
    requires
        genuine(f),
        forall|i: int| 0 <= i < n ==> #[trigger] kinetic_exact(d, f, p, inv_mass, i),
    ensures
        (f.constant)(kinetic_upto(d, p, inv_mass, n)) == kinetic_sum(f, p, inv_mass, n),
    decreases n,
{
    if n > 0 {
        lemma_kinetic(d, f, p, inv_mass, (n - 1) as nat);
        assert(kinetic_exact(d, f, p, inv_mass, n - 1));
        let (x, m) = (num(f, p, n - 1), num(f, inv_mass, n - 1));
        assert(1real / 2real * x * x * m == x * x * m / 2real) by (nonlinear_arith);
    }
}

/// The energy of a point is its kinetic energy less its log density.
pub proof fn law_energy_is_kinetic_less_log_density<D: Dynamics>(
    d: &D,
    f: Reals,
    inv_mass: Seq<u64>,
    z: StateModel,
)
    requires
        genuine(f),
        z.p.len() == inv_mass.len(),
        finite(z.logp),
        (f.constant)(negated(z.logp)) == -(f.constant)(z.logp),
        forall|i: int| 0 <= i < z.p.len() ==> #[trigger] kinetic_exact(d, f, z.p, inv_mass, i),
        exact(
            d,
            f,
            Rounded::Add,
            negated(z.logp),
            kinetic_upto(d, z.p, inv_mass, z.p.len()),
        ),
        !nan(
            d.value(
                Rounded::Add,
                negated(z.logp),
                kinetic_upto(d, z.p, inv_mass, z.p.len()),
            ),
        ),
    ensures
        (f.constant)(energy_of(d, inv_mass, z)) == kinetic_sum(f, z.p, inv_mass, z.p.len())
            - (f.constant)(z.logp),
{
    lemma_kinetic(d, f, z.p, inv_mass, z.p.len());
}

/// A leapfrog step moves the momenta by half of the step along the gradient, the position by the
/// whole step along the velocity that those momenta stand for, and the momenta by the other half
/// along the gradient there.
pub proof fn law_leapfrog_follows_the_gradient<D: Dynamics>(
    d: &D,
    f: Reals,
    metric: MetricModel,
    z: StateModel,
    eps: u64,
)
    requires
        genuine(f),
        z.p.len() == z.q.len(),
        z.grad.len() == z.q.len(),
        metric.inv_mass.len() == z.q.len(),
        leapt(d, metric, z, eps) is Ok,
        leapt(d, metric, z, eps)->Ok_0.grad.len() == z.q.len(),
        forall|i: int|
            0 <= i < z.q.len() ==> {
                let half = moved(d, z.p[i], HALF, eps, z.grad[i]);
                &&& move_exact(d, f, #[trigger] z.p[i], HALF, eps, z.grad[i])
                &&& move_exact(d, f, z.q[i], eps, metric.inv_mass[i], half)
                &&& move_exact(d, f, half, HALF, eps, leapt(d, metric, z, eps)->Ok_0.grad[i])
            },
    ensures
        ({
            let next = leapt(d, metric, z, eps)->Ok_0;
            let e = (f.constant)(eps);
            &&& next.q.len() == z.q.len() && next.p.len() == z.q.len()
            &&& density(d, metric.logp, next.q) == Ok::<(u64, Seq<u64>), Fault>(
                (next.logp, next.grad),
            )
            &&& forall|i: int|
                0 <= i < z.q.len() ==> ({
                    let half = num(f, z.p, i) + e / 2real * num(f, z.grad, i);
                    &&& (f.constant)(#[trigger] next.q[i]) == num(f, z.q, i) + e * (num(
                        f,
                        metric.inv_mass,
                        i,
                    ) * half)
                    &&& num(f, next.p, i) == half + e / 2real * num(f, next.grad, i)
                })
        }),
{
    let next = leapt(d, metric, z, eps)->Ok_0;
    let e = (f.constant)(eps);
    let halves = kicked(d, z.p, z.grad, eps);
    assert forall|i: int| 0 <= i < z.q.len() implies ({
        let half = num(f, z.p, i) + e / 2real * num(f, z.grad, i);
        &&& (f.constant)(#[trigger] next.q[i]) == num(f, z.q, i) + e * (num(f, metric.inv_mass, i)
            * half)
        &&& num(f, next.p, i) == half + e / 2real * num(f, next.grad, i)
    }) by {
        let h = moved(d, z.p[i], HALF, eps, z.grad[i]);
        assert(halves[i] == h);
        assert(move_exact(d, f, z.p[i], HALF, eps, z.grad[i]));
        let (g, m, k) = (num(f, z.grad, i), num(f, metric.inv_mass, i), num(f, next.grad, i));
        assert(1real / 2real * e * g == e / 2real * g) by (nonlinear_arith);
        assert(1real / 2real * e * k == e / 2real * k) by (nonlinear_arith);
        let w = (f.constant)(h);
        assert(e * m * w == e * (m * w)) by (nonlinear_arith);
        assert(next.q[i] == moved(d, z.q[i], eps, metric.inv_mass[i], h));
        assert(next.p[i] == moved(d, h, HALF, eps, next.grad[i]));
    }
}

/// Momenta drawn anew are standard normal numbers over the roots of the inverse masses: scaled back
/// they are the numbers drawn, one for each entry in order.
pub proof fn law_drawn_momenta_scale_with_the_masses<D: Dynamics>(
    d: &D,
    f: Reals,
    source: D::Source,
    p: Seq<u64>,
    inv_mass: Seq<u64>,
    i: int,
)
    requires
        genuine(f),
        0 <= i < p.len(),
        p.len() == inv_mass.len(),
    ensures
        ({
            let (z, next) = d.normal(source);
            let (out, rest) = drawn_momentum(d, source, p, inv_mass, i);
            let root = d.value(Rounded::Sqrt, inv_mass[i], ZERO);
            &&& out.len() == p.len()
            &&& forall|k: int| 0 <= k < i ==> out[k] == p[k]
            &&& exact(d, f, Rounded::Sqrt, inv_mass[i], ZERO) && exact(d, f, Rounded::Div, z, root)
                ==> num(f, out, i) * num(f, out, i) * num(f, inv_mass, i) == (f.constant)(z)
                * (f.constant)(z) && num(f, out, i) * (f.constant)(root) == (f.constant)(z)
            &&& rest == drawn_momentum(d, next, out, inv_mass, i + 1).1
            &&& forall|k: int| i < k < p.len() ==> out[k] == drawn_momentum(
                d,
                next,
                p,
                inv_mass,
                i + 1,
            ).0[k]
        }),
{
    let (z, next) = d.normal(source);
    let root = d.value(Rounded::Sqrt, inv_mass[i], ZERO);
    let mine = d.value(Rounded::Div, z, root);
    let changed = p.update(i, mine);
    lemma_momenta_before(d, next, changed, inv_mass, i + 1);
    let (out, rest) = drawn_momentum(d, source, p, inv_mass, i);
    assert(out == drawn_momentum(d, next, changed, inv_mass, i + 1).0);
    lemma_momenta_independent(d, next, changed, out, inv_mass, i + 1);
    lemma_momenta_independent(d, next, changed, p, inv_mass, i + 1);
    assert(out[i] == changed[i]);
    assert forall|k: int| 0 <= k < i implies out[k] == p[k] by {
        assert(out[k] == changed[k]);
    }
    let (x, y, w, m) = ((f.constant)(z), (f.constant)(root), num(f, out, i), num(f, inv_mass, i));
    if exact(d, f, Rounded::Sqrt, inv_mass[i], ZERO) && exact(d, f, Rounded::Div, z, root) {
        assert(w * w * m == x * x && w * y == x) by (nonlinear_arith)
            requires
                w == x / y,
                y > 0real,
                y * y == m,
        ;
    }
}

/// Drawing from an entry on leaves the entries before it.
proof fn lemma_momenta_before<D: Dynamics>(
    d: &D,
    source: D::Source,
    p: Seq<u64>,
    inv_mass: Seq<u64>,
    i: int,
)
    requires
        i >= 0,
        p.len() == inv_mass.len(),
    ensures
        drawn_momentum(d, source, p, inv_mass, i).0.len() == p.len(),
        forall|k: int|
            0 <= k < i && k < p.len() ==> drawn_momentum(d, source, p, inv_mass, i).0[k] == p[k],
    decreases p.len() - i,
{
    if i < p.len() {
        let (z, next) = d.normal(source);
        let changed = p.update(
            i,
            d.value(Rounded::Div, z, d.value(Rounded::Sqrt, inv_mass[i], ZERO)),
        );
        lemma_momenta_before(d, next, changed, inv_mass, i + 1);
        let out = drawn_momentum(d, next, changed, inv_mass, i + 1).0;
        assert(drawn_momentum(d, source, p, inv_mass, i).0 == out);
        assert forall|k: int| 0 <= k < i && k < p.len() implies out[k] == p[k] by {
            assert(out[k] == changed[k]);
        }
    }
}

/// What is drawn does not depend on the momenta before.
proof fn lemma_momenta_independent<D: Dynamics>(
    d: &D,
    source: D::Source,
    p: Seq<u64>,
    r: Seq<u64>,
    inv_mass: Seq<u64>,
    i: int,
)
    requires
        i >= 0,
        p.len() == inv_mass.len(),
        r.len() == inv_mass.len(),
    ensures
        drawn_momentum(d, source, p, inv_mass, i).1 == drawn_momentum(
            d,
            source,
            r,
            inv_mass,
            i,
        ).1,
        forall|k: int|
            i <= k < p.len() ==> drawn_momentum(d, source, p, inv_mass, i).0[k]
                == drawn_momentum(d, source, r, inv_mass, i).0[k],
    decreases p.len() - i,
{
    if i < p.len() {
        let (z, next) = d.normal(source);
        let mine = d.value(Rounded::Div, z, d.value(Rounded::Sqrt, inv_mass[i], ZERO));
        lemma_momenta_independent(d, next, p.update(i, mine), r.update(i, mine), inv_mass, i + 1);
        lemma_momenta_before(d, next, p.update(i, mine), inv_mass, i + 1);
        lemma_momenta_before(d, next, r.update(i, mine), inv_mass, i + 1);
        let a = drawn_momentum(d, next, p.update(i, mine), inv_mass, i + 1).0;
        let b = drawn_momentum(d, next, r.update(i, mine), inv_mass, i + 1).0;
        assert(drawn_momentum(d, source, p, inv_mass, i).0 == a);
        assert(drawn_momentum(d, source, r, inv_mass, i).0 == b);
        assert forall|k: int| i <= k < p.len() implies a[k] == b[k] by {
            if k == i {
                assert(a[k] == p.update(i, mine)[k]);
                assert(b[k] == r.update(i, mine)[k]);
            }
        }
    }
}

/// Joined log weights are the logarithm of the sum of the weights.
pub proof fn law_joined_weight_is_the_logarithm_of_the_sum<D: Dynamics>(
    d: &D,
    f: Reals,
    a: u64,
    b: u64,
)
    requires
        genuine(f),
        a != NEGATIVE_INFINITY,
        b != NEGATIVE_INFINITY,
        ({
            let m = greater(a, b);
            let (x, y) = (d.value(Rounded::Sub, a, m), d.value(Rounded::Sub, b, m));
            let (p, q) = (d.value(Rounded::Exp, x, ZERO), d.value(Rounded::Exp, y, ZERO));
            let sum = d.value(Rounded::Add, p, q);
            let log = d.value(Rounded::Ln, sum, ZERO);
            &&& exact(d, f, Rounded::Sub, a, m)
            &&& exact(d, f, Rounded::Sub, b, m)
            &&& exact(d, f, Rounded::Exp, x, ZERO)
            &&& exact(d, f, Rounded::Exp, y, ZERO)
            &&& exact(d, f, Rounded::Add, p, q)
            &&& exact(d, f, Rounded::Ln, sum, ZERO)
            &&& exact(d, f, Rounded::Add, m, log)
        }),
    ensures
        (f.exp)((f.constant)(joined_weight(d, a, b))) == (f.exp)((f.constant)(a)) + (f.exp)(
            (f.constant)(b),
        ),
{
    let m = greater(a, b);
    let (x, y, w) = ((f.constant)(a), (f.constant)(b), (f.constant)(m));
    lemma_exp_difference(f, x, w);
    lemma_exp_difference(f, y, w);
    let (p, q) = ((f.exp)(x - w), (f.exp)(y - w));
    assert(exp_undone(f, x - w) && exp_undone(f, y - w));
    assert(ln_undone(f, p + q));
    assert(exp_adds(f, w, (f.ln)(p + q)));
    let e = (f.exp)(w);
    assert(e * (p + q) == p * e + q * e) by (nonlinear_arith);
}

} // verus!
