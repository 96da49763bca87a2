//! What the densities are: every family over real numbers.

use vstd::prelude::*;

#[allow(unused_imports)]
use crate::density::{
    counts, density_term, double, log_beta, log_choose, masked, probability, square, DistVars, Var, HALF,
    HALF_NORMAL_LEAD, NEGATIVE_INFINITY, ONE, ZERO,
};
#[allow(unused_imports)]
use crate::meaning::{
    genuine, holds, lemma_and, lemma_binary, lemma_gamma_is_factorial, lemma_ln_one, lemma_ln_quotient, lemma_select,
    lemma_unary, log_factorial, meaning, normal_real, reads, whole, whole_at, Entry, Reals, Scalars,
};
#[allow(unused_imports)]
use crate::term::{BinaryOp, Term, UnaryOp};

verus! {

/// What the log density of a value under a distribution comes to.
pub open spec fn scores(f: Reals, at: Scalars, dist: DistVars, x: Term, out: Entry) -> bool {
    meaning(f, at, density_term(dist, x)) == out
}

/// An expression held to a support that is known.
pub proof fn lemma_masked(f: Reals, at: Scalars, support: Term, lp: Term, p: bool)
    requires
        holds(f, at, support, p),
    ensures
        meaning(f, at, masked(support, lp)) == (if p {
            meaning(f, at, lp)
        } else {
            Entry::Below
        }),
{
    lemma_select(f, at, support, lp, double(NEGATIVE_INFINITY), p);
}

/// How an expression compares with zero and one.
pub proof fn lemma_range(f: Reals, at: Scalars, t: Term, x: real)
    requires
        genuine(f),
        reads(f, at, t, x),
    ensures
        holds(f, at, t.ge(double(ZERO)), x >= 0real),
        holds(f, at, t.gt(double(ZERO)), x > 0real),
        holds(f, at, t.le(double(ONE)), x <= 1real),
        holds(f, at, t.lt(double(ONE)), x < 1real),
        holds(f, at, t.is_integer(), whole(x)),
        reads(f, at, double(ONE), 1real),
        reads(f, at, double(ZERO), 0real),
{
    assert(reads(f, at, double(ONE), 1real));
    assert(reads(f, at, double(ZERO), 0real));
    lemma_binary(f, at, BinaryOp::Ge, t, double(ZERO), x, 0real);
    lemma_binary(f, at, BinaryOp::Gt, t, double(ZERO), x, 0real);
    lemma_binary(f, at, BinaryOp::Le, t, double(ONE), x, 1real);
    lemma_binary(f, at, BinaryOp::Lt, t, double(ONE), x, 1real);
    lemma_unary(f, at, UnaryOp::IsInteger, t, x);
}

/// The support of counts up to a total, with one condition more.
proof fn lemma_count_support(
    f: Reals,
    at: Scalars,
    n: Term,
    x: Term,
    rest: Term,
    t: real,
    v: real,
    p: bool,
)
    requires
        genuine(f),
        reads(f, at, n, t),
        reads(f, at, x, v),
        holds(f, at, rest, p),
    ensures
        holds(
            f,
            at,
            counts(n, x).and(x.le(n).and(rest)),
            whole(t) && whole(v) && 0real <= v <= t && p,
        ),
{
    lemma_range(f, at, n, t);
    lemma_range(f, at, x, v);
    lemma_and(f, at, x.is_integer(), n.is_integer(), whole(v), whole(t));
    lemma_and(f, at, x.ge(double(ZERO)), n.ge(double(ZERO)), v >= 0real, t >= 0real);
    lemma_and(
        f,
        at,
        x.is_integer().and(n.is_integer()),
        x.ge(double(ZERO)).and(n.ge(double(ZERO))),
        whole(v) && whole(t),
        v >= 0real && t >= 0real,
    );
    lemma_binary(f, at, BinaryOp::Le, x, n, v, t);
    lemma_and(f, at, x.le(n), rest, v <= t, p);
    lemma_and(
        f,
        at,
        counts(n, x),
        x.le(n).and(rest),
        whole(v) && whole(t) && v >= 0real && t >= 0real,
        v <= t && p,
    );
}

/// The number of ways to choose, as an expression.
proof fn lemma_log_choose(f: Reals, at: Scalars, n: Term, x: Term, t: real, v: real)
    requires
        genuine(f),
        reads(f, at, n, t),
        reads(f, at, x, v),
    ensures
        reads(
            f,
            at,
            log_choose(n, x),
            (f.log_gamma)(t + 1real) - (f.log_gamma)(v + 1real) - (f.log_gamma)(t - v + 1real),
        ),
{
    lemma_range(f, at, n, t);
    let one = double(ONE);
    lemma_binary(f, at, BinaryOp::Add, n, one, t, 1real);
    lemma_unary(f, at, UnaryOp::LogGamma, n.plus(one), t + 1real);
    lemma_binary(f, at, BinaryOp::Add, x, one, v, 1real);
    lemma_unary(f, at, UnaryOp::LogGamma, x.plus(one), v + 1real);
    lemma_binary(f, at, BinaryOp::Sub, n, x, t, v);
    lemma_binary(f, at, BinaryOp::Add, n.minus(x), one, t - v, 1real);
    lemma_unary(f, at, UnaryOp::LogGamma, n.minus(x).plus(one), t - v + 1real);
    lemma_binary(
        f,
        at,
        BinaryOp::Sub,
        n.plus(one).log_gamma(),
        x.plus(one).log_gamma(),
        (f.log_gamma)(t + 1real),
        (f.log_gamma)(v + 1real),
    );
    lemma_binary(
        f,
        at,
        BinaryOp::Sub,
        n.plus(one).log_gamma().minus(x.plus(one).log_gamma()),
        n.minus(x).plus(one).log_gamma(),
        (f.log_gamma)(t + 1real) - (f.log_gamma)(v + 1real),
        (f.log_gamma)(t - v + 1real),
    );
}

/// Successes and failures, each with its probability, as an expression.
proof fn lemma_trials(f: Reals, at: Scalars, x: Term, y: Term, p: Term, v: real, w: real, r: real)
    requires
        genuine(f),
        reads(f, at, x, v),
        reads(f, at, y, w),
        reads(f, at, p, r),
    ensures
        reads(f, at, x.xlogy(p), v * (f.ln)(r)),
        reads(f, at, y.xlogy(double(ONE).minus(p)), w * (f.ln)(1real - r)),
{
    lemma_range(f, at, p, r);
    lemma_binary(f, at, BinaryOp::Sub, double(ONE), p, 1real, r);
    lemma_binary(f, at, BinaryOp::XLogY, x, p, v, r);
    lemma_binary(f, at, BinaryOp::XLogY, y, double(ONE).minus(p), w, 1real - r);
    let l = (f.ln)(r);
    let m = (f.ln)(1real - r);
    assert(v == 0real ==> v * l == 0real) by (nonlinear_arith);
    assert(w == 0real ==> w * m == 0real) by (nonlinear_arith);
}

/// A normal log density falls with half the square of the standardized distance.
pub proof fn law_normal_density(f: Reals, at: Scalars, loc: Var, scale: Var, x: Term, m: real, s: real, v: real)
    requires
        genuine(f),
        reads(f, at, loc.term, m),
        reads(f, at, scale.term, s),
        reads(f, at, x, v),
        s > 0real,
    ensures
        scores(f, at, DistVars::Normal { loc, scale }, x, Entry::At(normal_real(f, v, m, s))),
{
    reveal_with_fuel(meaning, 2);
}

/// A half-normal density is twice the normal density about zero where the value is not negative,
/// and nothing where it is.
pub proof fn law_half_normal_density(f: Reals, at: Scalars, scale: Var, x: Term, s: real, v: real)
    requires
        genuine(f),
        reads(f, at, scale.term, s),
        reads(f, at, x, v),
        s > 0real,
    ensures
        scores(
            f,
            at,
            DistVars::HalfNormal { scale },
            x,
            if v >= 0real {
                Entry::At((f.ln)(2real) + normal_real(f, v, 0real, s))
            } else {
                Entry::Below
            },
        ),
{
    let z = v / s;
    let sc = scale.term;
    lemma_range(f, at, x, v);
    assert(reads(f, at, double(HALF), 1real / 2real));
    assert(reads(
        f,
        at,
        double(HALF_NORMAL_LEAD),
        (f.ln)(2real) - (f.ln)(2real * f.pi) / 2real,
    ));
    lemma_unary(f, at, UnaryOp::Ln, sc, s);
    lemma_binary(f, at, BinaryOp::Div, x, sc, v, s);
    lemma_binary(f, at, BinaryOp::Mul, x.over(sc), x.over(sc), z, z);
    lemma_binary(f, at, BinaryOp::Mul, double(HALF), square(x.over(sc)), 1real / 2real, z * z);
    let lead = (f.ln)(2real) - (f.ln)(2real * f.pi) / 2real;
    lemma_binary(f, at, BinaryOp::Sub, double(HALF_NORMAL_LEAD), sc.ln(), lead, (f.ln)(s));
    lemma_binary(
        f,
        at,
        BinaryOp::Sub,
        double(HALF_NORMAL_LEAD).minus(sc.ln()),
        double(HALF).times(square(x.over(sc))),
        lead - (f.ln)(s),
        1real / 2real * (z * z),
    );
    let lp = double(HALF_NORMAL_LEAD).minus(sc.ln()).minus(
        double(HALF).times(square(x.over(sc))),
    );
    lemma_masked(f, at, x.ge(double(ZERO)), lp, v >= 0real);
    assert(v - 0real == v);
}

/// A Student log density, in its standardized distance.
pub proof fn law_student_density(
    f: Reals,
    at: Scalars,
    df: Var,
    loc: Var,
    scale: Var,
    x: Term,
    n: real,
    m: real,
    s: real,
    v: real,
)
    requires
        genuine(f),
        reads(f, at, df.term, n),
        reads(f, at, loc.term, m),
        reads(f, at, scale.term, s),
        reads(f, at, x, v),
        n > 0real,
        s > 0real,
    ensures
        ({
            let z = (v - m) / s;
            scores(
                f,
                at,
                DistVars::StudentT { df, loc, scale },
                x,
                Entry::At(
                    (f.log_gamma)((n + 1real) / 2real) - (f.log_gamma)(n / 2real) - (f.ln)(
                        n * f.pi,
                    ) / 2real - (f.ln)(s) - (n + 1real) / 2real * (f.ln)(1real + z * z / n),
                ),
            )
        }),
{
    reveal_with_fuel(meaning, 10);
    assert((1real / 2real) * (n + 1real) == (n + 1real) / 2real);
    assert((1real / 2real) * n == n / 2real);
    let l = (f.ln)(n * f.pi);
    assert((1real / 2real) * l == l / 2real);
}

/// An exponential density falls by the rate: nothing below zero, the rate at zero, and a factor of
/// `exp(-rate * step)` for every step on.
pub proof fn law_exponential_density(f: Reals, at: Scalars, rate: Var, x: Term, r: real, v: real)
    requires
        genuine(f),
        reads(f, at, rate.term, r),
        reads(f, at, x, v),
        r > 0real,
    ensures
        scores(
            f,
            at,
            DistVars::Exponential { rate },
            x,
            if v >= 0real {
                Entry::At((f.ln)(r) - r * v)
            } else {
                Entry::Below
            },
        ),
{
    reveal_with_fuel(meaning, 6);
}

/// A uniform density is one over the width between its bounds, and nothing outside.
pub proof fn law_uniform_density(
    f: Reals,
    at: Scalars,
    low: Var,
    high: Var,
    x: Term,
    a: real,
    b: real,
    v: real,
)
    requires
        genuine(f),
        reads(f, at, low.term, a),
        reads(f, at, high.term, b),
        reads(f, at, x, v),
        a < b,
    ensures
        scores(
            f,
            at,
            DistVars::Uniform { low, high },
            x,
            if a <= v <= b {
                Entry::At((f.ln)(1real / (b - a)))
            } else {
                Entry::Below
            },
        ),
{
    reveal_with_fuel(meaning, 6);
    lemma_ln_quotient(f, 1real, b - a);
    lemma_ln_one(f);
}

/// The logarithm of the beta function.
pub open spec fn log_beta_real(f: Reals, a: real, b: real) -> real {
    (f.log_gamma)(a) + (f.log_gamma)(b) - (f.log_gamma)(a + b)
}

/// A beta density inside the unit interval, and nothing outside or for parameters that are not
/// positive. Next to the ends of the interval, where the logarithms grow beyond bounds, it is read
/// at the nearest value within the doubles.
pub proof fn law_beta_density(
    f: Reals,
    at: Scalars,
    alpha: Var,
    beta: Var,
    x: Term,
    a: real,
    b: real,
    v: real,
)
    requires
        genuine(f),
        reads(f, at, alpha.term, a),
        reads(f, at, beta.term, b),
        reads(f, at, x, v),
    ensures
        ({
            let low = (f.constant)(0x0010_0000_0000_0000);
            let high = (f.constant)(0x3FEF_FFFF_FFFF_FFFE);
            let w = if v < low {
                low
            } else if v > high {
                high
            } else {
                v
            };
            scores(
                f,
                at,
                DistVars::Beta { alpha, beta },
                x,
                if 0real < v < 1real && a > 0real && b > 0real {
                    Entry::At(
                        (a - 1real) * (f.ln)(w) + (b - 1real) * (f.ln)(1real - w) - log_beta_real(
                            f,
                            a,
                            b,
                        ),
                    )
                } else {
                    Entry::Below
                },
            )
        }),
{
    reveal_with_fuel(meaning, 10);
    let low = (f.constant)(0x0010_0000_0000_0000);
    let high = (f.constant)(0x3FEF_FFFF_FFFF_FFFE);
    assert(1real + -low == 1real - low && 1real + -high == 1real - high && 1real + -v == 1real
        - v);
}

/// A Bernoulli mass at one is the probability, at zero its complement, and nothing elsewhere.
pub proof fn law_bernoulli_mass(f: Reals, at: Scalars, probs: Var, x: Term, p: real, v: real)
    requires
        genuine(f),
        reads(f, at, probs.term, p),
        reads(f, at, x, v),
        0real < p < 1real,
    ensures
        scores(
            f,
            at,
            DistVars::Bernoulli { probs },
            x,
            if v == 1real {
                Entry::At((f.ln)(p))
            } else if v == 0real {
                Entry::At((f.ln)(1real - p))
            } else {
                Entry::Below
            },
        ),
{
    let pt = probs.term;
    let one = double(ONE);
    lemma_range(f, at, x, v);
    lemma_range(f, at, pt, p);
    lemma_and(f, at, x.is_integer(), x.ge(double(ZERO)), whole(v), v >= 0real);
    lemma_and(f, at, pt.ge(double(ZERO)), pt.le(one), p >= 0real, p <= 1real);
    lemma_and(f, at, x.le(one), probability(pt), v <= 1real, true);
    let support = x.is_integer().and(x.ge(double(ZERO))).and(x.le(one).and(probability(pt)));
    lemma_and(
        f,
        at,
        x.is_integer().and(x.ge(double(ZERO))),
        x.le(one).and(probability(pt)),
        whole(v) && v >= 0real,
        v <= 1real,
    );
    lemma_binary(f, at, BinaryOp::Sub, one, x, 1real, v);
    lemma_trials(f, at, x, one.minus(x), pt, v, 1real - v, p);
    let (l, m) = ((f.ln)(p), (f.ln)(1real - p));
    lemma_binary(
        f,
        at,
        BinaryOp::Add,
        x.xlogy(pt),
        one.minus(x).xlogy(one.minus(pt)),
        v * l,
        (1real - v) * m,
    );
    let lp = x.xlogy(pt).plus(one.minus(x).xlogy(one.minus(pt)));
    lemma_masked(f, at, support, lp, whole(v) && 0real <= v <= 1real);
    assert(v == 1real ==> v * l + (1real - v) * m == l) by (nonlinear_arith);
    assert(v == 0real ==> v * l + (1real - v) * m == m) by (nonlinear_arith);
    assert(whole_at(0real, 0) && whole_at(1real, 1));
    if whole(v) {
        let n = choose|n: int| #[trigger] whole_at(v, n);
        if 0real <= v <= 1real {
            assert(n == 0 || n == 1);
        }
    }
}

/// A Bernoulli probability outside the unit interval has no mass anywhere.
pub proof fn law_no_bernoulli_mass_without_a_probability(
    f: Reals,
    at: Scalars,
    probs: Var,
    x: Term,
    p: real,
    v: real,
)
    requires
        genuine(f),
        reads(f, at, probs.term, p),
        reads(f, at, x, v),
        !(0real <= p <= 1real),
    ensures
        scores(f, at, DistVars::Bernoulli { probs }, x, Entry::Below),
{
    reveal_with_fuel(meaning, 8);
}

/// A Poisson mass at a count is the power of the rate over the factorial, times `exp(-rate)`:
/// its logarithm is `-rate` at zero, and from a count to the next it gains the logarithm of the
/// rate and loses that of the count. There is no mass elsewhere, nor without a positive rate.
pub proof fn law_poisson_mass(f: Reals, at: Scalars, rate: Var, x: Term, r: real, v: real)
    requires
        genuine(f),
        reads(f, at, rate.term, r),
        reads(f, at, x, v),
    ensures
        forall|n: nat| #[trigger]
            whole_at(v, n as int) && r > 0real ==> scores(
                f,
                at,
                DistVars::Poisson { rate },
                x,
                Entry::At(v * (f.ln)(r) - r - log_factorial(f, n)),
            ),
        !(whole(v) && v >= 0real && r > 0real) ==> scores(
            f,
            at,
            DistVars::Poisson { rate },
            x,
            Entry::Below,
        ),
{
    reveal_with_fuel(meaning, 8);
    assert forall|n: nat| #[trigger] whole_at(v, n as int) && r > 0real implies scores(
        f,
        at,
        DistVars::Poisson { rate },
        x,
        Entry::At(v * (f.ln)(r) - r - log_factorial(f, n)),
    ) by {
        assert(whole(v));
        lemma_gamma_is_factorial(f, n);
    }
}

/// Poisson masses at neighbouring counts differ by the logarithm of the rate over the next count,
/// and the one at zero is `exp(-rate)`.
pub proof fn law_poisson_masses_step(
    f: Reals,
    at: Scalars,
    rate: Var,
    x: Term,
    y: Term,
    r: real,
    n: nat,
)
    requires
        genuine(f),
        reads(f, at, rate.term, r),
        reads(f, at, x, n as real),
        reads(f, at, y, n as real + 1real),
        r > 0real,
    ensures
        ({
            let here = meaning(f, at, density_term(DistVars::Poisson { rate }, x));
            let next = meaning(f, at, density_term(DistVars::Poisson { rate }, y));
            &&& n == 0 ==> here == Entry::At(-r)
            &&& here is At && next is At
            &&& next->0 - here->0 == (f.ln)(r) - (f.ln)(n as real + 1real)
        }),
{
    law_poisson_mass(f, at, rate, x, r, n as real);
    law_poisson_mass(f, at, rate, y, r, n as real + 1real);
    assert(whole_at(n as real, n as int));
    assert((n + 1) as real == n as real + 1real);
    assert(whole_at(n as real + 1real, (n + 1) as nat as int));
    let l = (f.ln)(r);
    assert((n as real + 1real) * l == n as real * l + l) by (nonlinear_arith);
    if n == 0 {
        assert(0real * l == 0real) by (nonlinear_arith);
    }
}

/// The logarithm of the number of ways to choose.
pub open spec fn log_ways(f: Reals, n: nat, k: nat) -> real
    recommends
        k <= n,
{
    log_factorial(f, n) - log_factorial(f, k) - log_factorial(f, (n - k) as nat)
}

proof fn lemma_ways(f: Reals, n: nat, k: nat)
    requires
        genuine(f),
        k <= n,
    ensures
        (f.log_gamma)(n as real + 1real) - (f.log_gamma)(k as real + 1real) - (f.log_gamma)(
            n as real - k as real + 1real,
        ) == log_ways(f, n, k),
{
    lemma_gamma_is_factorial(f, n);
    lemma_gamma_is_factorial(f, k);
    lemma_gamma_is_factorial(f, (n - k) as nat);
    assert((n - k) as nat as real == n as real - k as real);
}

/// A binomial mass at a count up to the total is the number of ways to choose, times the
/// probabilities of the successes and of the failures; elsewhere there is none.
pub proof fn law_binomial_mass(
    f: Reals,
    at: Scalars,
    total_count: Var,
    probs: Var,
    x: Term,
    t: real,
    p: real,
    v: real,
)
    requires
        genuine(f),
        reads(f, at, total_count.term, t),
        reads(f, at, probs.term, p),
        reads(f, at, x, v),
        0real < p < 1real,
    ensures
        forall|n: nat, k: nat| #[trigger]
            whole_at(t, n as int) && #[trigger] whole_at(v, k as int) && k <= n ==> scores(
                f,
                at,
                DistVars::Binomial { total_count, probs },
                x,
                Entry::At(
                    log_ways(f, n, k) + v * (f.ln)(p) + (t - v) * (f.ln)(1real - p),
                ),
            ),
        !(whole(t) && whole(v) && 0real <= v <= t) ==> scores(
            f,
            at,
            DistVars::Binomial { total_count, probs },
            x,
            Entry::Below,
        ),
{
    let (n, pt) = (total_count.term, probs.term);
    lemma_range(f, at, pt, p);
    lemma_and(f, at, pt.ge(double(ZERO)), pt.le(double(ONE)), p >= 0real, p <= 1real);
    lemma_count_support(f, at, n, x, probability(pt), t, v, true);
    lemma_log_choose(f, at, n, x, t, v);
    lemma_binary(f, at, BinaryOp::Sub, n, x, t, v);
    lemma_trials(f, at, x, n.minus(x), pt, v, t - v, p);
    let c = (f.log_gamma)(t + 1real) - (f.log_gamma)(v + 1real) - (f.log_gamma)(t - v + 1real);
    let (l, m) = (v * (f.ln)(p), (t - v) * (f.ln)(1real - p));
    lemma_binary(f, at, BinaryOp::Add, log_choose(n, x), x.xlogy(pt), c, l);
    let last = n.minus(x).xlogy(double(ONE).minus(pt));
    lemma_binary(f, at, BinaryOp::Add, log_choose(n, x).plus(x.xlogy(pt)), last, c + l, m);
    lemma_masked(
        f,
        at,
        counts(n, x).and(x.le(n).and(probability(pt))),
        log_choose(n, x).plus(x.xlogy(pt)).plus(last),
        whole(t) && whole(v) && 0real <= v <= t,
    );
    assert forall|n: nat, k: nat| #[trigger]
        whole_at(t, n as int) && #[trigger] whole_at(v, k as int) && k <= n implies scores(
        f,
        at,
        DistVars::Binomial { total_count, probs },
        x,
        Entry::At(log_ways(f, n, k) + v * (f.ln)(p) + (t - v) * (f.ln)(1real - p)),
    ) by {
        assert(whole(t) && whole(v));
        lemma_ways(f, n, k);
    }
}

/// Two shifted gamma functions, as an expression.
proof fn lemma_log_beta(
    f: Reals,
    at: Scalars,
    x: Term,
    a: Term,
    y: Term,
    b: Term,
    v: real,
    p: real,
    w: real,
    q: real,
)
    requires
        reads(f, at, x, v),
        reads(f, at, a, p),
        reads(f, at, y, w),
        reads(f, at, b, q),
    ensures
        reads(
            f,
            at,
            x.plus(a).log_gamma().plus(y.plus(b).log_gamma()),
            (f.log_gamma)(v + p) + (f.log_gamma)(w + q),
        ),
{
    lemma_binary(f, at, BinaryOp::Add, x, a, v, p);
    lemma_binary(f, at, BinaryOp::Add, y, b, w, q);
    lemma_unary(f, at, UnaryOp::LogGamma, x.plus(a), v + p);
    lemma_unary(f, at, UnaryOp::LogGamma, y.plus(b), w + q);
    lemma_binary(
        f,
        at,
        BinaryOp::Add,
        x.plus(a).log_gamma(),
        y.plus(b).log_gamma(),
        (f.log_gamma)(v + p),
        (f.log_gamma)(w + q),
    );
}

/// The logarithm of the beta function, as an expression.
proof fn lemma_log_beta_itself(f: Reals, at: Scalars, a: Term, b: Term, p: real, q: real)
    requires
        reads(f, at, a, p),
        reads(f, at, b, q),
    ensures
        reads(f, at, log_beta(a, b), log_beta_real(f, p, q)),
{
    lemma_unary(f, at, UnaryOp::LogGamma, a, p);
    lemma_unary(f, at, UnaryOp::LogGamma, b, q);
    lemma_binary(f, at, BinaryOp::Add, a, b, p, q);
    lemma_unary(f, at, UnaryOp::LogGamma, a.plus(b), p + q);
    lemma_binary(
        f,
        at,
        BinaryOp::Add,
        a.log_gamma(),
        b.log_gamma(),
        (f.log_gamma)(p),
        (f.log_gamma)(q),
    );
    lemma_binary(
        f,
        at,
        BinaryOp::Sub,
        a.log_gamma().plus(b.log_gamma()),
        a.plus(b).log_gamma(),
        (f.log_gamma)(p) + (f.log_gamma)(q),
        (f.log_gamma)(p + q),
    );
}

/// A beta-binomial mass at a count up to the total is the number of ways to choose, times the
/// ratio of two beta functions; elsewhere there is none, nor for parameters that are not positive.
pub proof fn law_beta_binomial_mass(
    f: Reals,
    at: Scalars,
    total_count: Var,
    alpha: Var,
    beta: Var,
    x: Term,
    t: real,
    a: real,
    b: real,
    v: real,
)
    requires
        genuine(f),
        reads(f, at, total_count.term, t),
        reads(f, at, alpha.term, a),
        reads(f, at, beta.term, b),
        reads(f, at, x, v),
    ensures
        forall|n: nat, k: nat| #[trigger]
            whole_at(t, n as int) && #[trigger] whole_at(v, k as int) && k <= n && a > 0real && b
                > 0real ==> scores(
                f,
                at,
                DistVars::BetaBinomial { total_count, alpha, beta },
                x,
                Entry::At(
                    log_ways(f, n, k) + log_beta_real(f, v + a, t - v + b) - log_beta_real(f, a, b),
                ),
            ),
        !(whole(t) && whole(v) && 0real <= v <= t && a > 0real && b > 0real) ==> scores(
            f,
            at,
            DistVars::BetaBinomial { total_count, alpha, beta },
            x,
            Entry::Below,
        ),
{
    let (n, at_, bt) = (total_count.term, alpha.term, beta.term);
    lemma_range(f, at, at_, a);
    lemma_range(f, at, bt, b);
    lemma_and(f, at, at_.gt(double(ZERO)), bt.gt(double(ZERO)), a > 0real, b > 0real);
    let rest = at_.gt(double(ZERO)).and(bt.gt(double(ZERO)));
    lemma_count_support(f, at, n, x, rest, t, v, a > 0real && b > 0real);
    lemma_log_choose(f, at, n, x, t, v);
    lemma_binary(f, at, BinaryOp::Sub, n, x, t, v);
    let c = (f.log_gamma)(t + 1real) - (f.log_gamma)(v + 1real) - (f.log_gamma)(t - v + 1real);
    lemma_log_beta(f, at, x, at_, n.minus(x), bt, v, a, t - v, b);
    lemma_binary(f, at, BinaryOp::Add, n, at_, t, a);
    lemma_binary(f, at, BinaryOp::Add, n.plus(at_), bt, t + a, b);
    lemma_unary(f, at, UnaryOp::LogGamma, n.plus(at_).plus(bt), t + a + b);
    assert((v + a) + (t - v + b) == t + a + b);
    let top = x.plus(at_).log_gamma().plus(n.minus(x).plus(bt).log_gamma());
    let g = (f.log_gamma)(v + a) + (f.log_gamma)(t - v + b);
    let h = (f.log_gamma)(t + a + b);
    lemma_binary(f, at, BinaryOp::Sub, top, n.plus(at_).plus(bt).log_gamma(), g, h);
    let ratio = top.minus(n.plus(at_).plus(bt).log_gamma());
    lemma_binary(f, at, BinaryOp::Add, log_choose(n, x), ratio, c, g - h);
    lemma_log_beta_itself(f, at, at_, bt, a, b);
    let all = log_choose(n, x).plus(ratio);
    lemma_binary(f, at, BinaryOp::Sub, all, log_beta(at_, bt), c + (g - h), log_beta_real(f, a, b));
    lemma_masked(
        f,
        at,
        counts(n, x).and(x.le(n).and(rest)),
        all.minus(log_beta(at_, bt)),
        whole(t) && whole(v) && 0real <= v <= t && a > 0real && b > 0real,
    );
    assert forall|n: nat, k: nat| #[trigger]
        whole_at(t, n as int) && #[trigger] whole_at(v, k as int) && k <= n && a > 0real && b
            > 0real implies scores(
        f,
        at,
        DistVars::BetaBinomial { total_count, alpha, beta },
        x,
        Entry::At(
            log_ways(f, n, k) + log_beta_real(f, v + a, t - v + b) - log_beta_real(f, a, b),
        ),
    ) by {
        assert(whole(t) && whole(v));
        lemma_ways(f, n, k);
    }
}

/// A negative binomial mass at a count, by its mean and its dispersion: that of the failures
/// before so many successes of probability `dispersion / (mean + dispersion)`; elsewhere there is
/// none, nor for parameters that are not positive.
pub proof fn law_negative_binomial_mass(
    f: Reals,
    at: Scalars,
    mean: Var,
    overdispersion: Var,
    x: Term,
    m: real,
    d: real,
    v: real,
)
    requires
        genuine(f),
        reads(f, at, mean.term, m),
        reads(f, at, overdispersion.term, d),
        reads(f, at, x, v),
    ensures
        forall|n: nat| #[trigger]
            whole_at(v, n as int) && m > 0real && d > 0real ==> ({
                let p = d / (m + d);
                scores(
                    f,
                    at,
                    DistVars::NegativeBinomial { mean, overdispersion },
                    x,
                    Entry::At(
                        (f.log_gamma)(v + d) - (f.log_gamma)(d) - log_factorial(f, n) + d * (f.ln)(
                            p,
                        ) + v * (f.ln)(1real - p),
                    ),
                )
            }),
        !(whole(v) && v >= 0real && m > 0real && d > 0real) ==> scores(
            f,
            at,
            DistVars::NegativeBinomial { mean, overdispersion },
            x,
            Entry::Below,
        ),
{
    reveal_with_fuel(meaning, 10);
    assert forall|n: nat| #[trigger] whole_at(v, n as int) && m > 0real && d > 0real implies ({
        let p = d / (m + d);
        scores(
            f,
            at,
            DistVars::NegativeBinomial { mean, overdispersion },
            x,
            Entry::At(
                (f.log_gamma)(v + d) - (f.log_gamma)(d) - log_factorial(f, n) + d * (f.ln)(p) + v
                    * (f.ln)(1real - p),
            ),
        )
    }) by {
        assert(whole(v));
        lemma_gamma_is_factorial(f, n);
        assert(1real - d / (m + d) == m / (m + d)) by (nonlinear_arith)
            requires
                m + d > 0real,
        ;
        let l = (f.ln)(m / (m + d));
        assert(v == 0real ==> v * l == 0real) by (nonlinear_arith);
    }
}

/// In one coordinate a multivariate normal density is a normal one, with the triangular scale as
/// its scale.
pub proof fn law_multivariate_density_in_one_coordinate(
    f: Reals,
    at: Scalars,
    mean: Var,
    scale_tril: Var,
    x: Term,
    m: real,
    s: real,
    v: real,
)
    requires
        genuine(f),
        reads(f, at, mean.term, m),
        reads(f, at, scale_tril.term, s),
        reads(f, at, x, v),
        s > 0real,
    ensures
        scores(
            f,
            at,
            DistVars::MultivariateNormal { mean, scale_tril },
            x,
            Entry::At(normal_real(f, v, m, s)),
        ),
{
    reveal_with_fuel(meaning, 4);
}

} // verus!
