//! What truncated densities are: those of their base, over the mass that the base has between the
//! bounds.

use vstd::prelude::*;

#[allow(unused_imports)]
use crate::density::{
    bound_term, density_term, double, exponential_normalizer, normal_mass, normal_normalizer, normalizer,
    uniform_normalizer, within, DistVars, Var, ZERO,
};
#[allow(unused_imports)]
use crate::density_laws::{
    law_exponential_density, law_normal_density, law_uniform_density, lemma_masked, lemma_range,
    scores,
};
#[allow(unused_imports)]
use crate::meaning::{
    exp_increases, exp_undone, genuine, lemma_and, lemma_binary, lemma_exp_difference, lemma_ln_one, lemma_ln_product,
    lemma_ln_quotient, lemma_select, lemma_unary, meaning, ndtr_increases, ndtr_mirrors, normal_real, reads, Entry,
    Reals, Scalars,
};
#[allow(unused_imports)]
use crate::term::{BinaryOp, Term, UnaryOp};

verus! {

/// Whether a bound reads as that, or is missing.
pub open spec fn bound_reads(f: Reals, at: Scalars, bound: Option<Var>, y: Option<real>) -> bool {
    match bound {
        Some(var) => y is Some && reads(f, at, var.term, y->0),
        None => y is None,
    }
}

/// Whether a value lies between bounds, as far as there are any.
pub open spec fn inside(v: real, lower: Option<real>, upper: Option<real>) -> bool {
    (lower is Some ==> lower->0 <= v) && (upper is Some ==> v <= upper->0)
}

/// The standard normal distribution function.
pub open spec fn ndtr(f: Reals, x: real) -> real {
    (f.exp)((f.log_ndtr)(x))
}

/// A difference of exponentials, by their logarithms.
proof fn lemma_log_difference(f: Reals, hi: real, lo: real)
    requires
        genuine(f),
        lo < hi,
    ensures
        (f.exp)(lo) < (f.exp)(hi),
        1real - (f.exp)(lo - hi) > 0real,
        hi + (f.ln)(1real - (f.exp)(lo - hi)) == (f.ln)((f.exp)(hi) - (f.exp)(lo)),
{
    assert(exp_increases(f, lo, hi));
    assert(exp_undone(f, hi));
    lemma_exp_difference(f, lo, hi);
    let (a, b, c) = ((f.exp)(hi), (f.exp)(lo), (f.exp)(lo - hi));
    assert(1real - c > 0real) by (nonlinear_arith)
        requires
            c * a == b,
            b < a,
            a > 0real,
    ;
    assert(a * (1real - c) == a - b) by (nonlinear_arith)
        requires
            c * a == b,
    ;
    lemma_ln_product(f, a, 1real - c);
}

/// A log density over the mass between bounds, where the value lies between them.
proof fn lemma_within(
    f: Reals,
    at: Scalars,
    x: Term,
    lower: Option<Var>,
    upper: Option<Var>,
    lp: Term,
    v: real,
    l: Option<real>,
    u: Option<real>,
)
    requires
        genuine(f),
        reads(f, at, x, v),
        bound_reads(f, at, lower, l),
        bound_reads(f, at, upper, u),
    ensures
        meaning(f, at, within(x, bound_term(lower), bound_term(upper), lp)) == (if inside(
            v,
            l,
            u,
        ) {
            meaning(f, at, lp)
        } else {
            Entry::Below
        }),
{
    if lower is Some {
        lemma_binary(f, at, BinaryOp::Ge, x, lower->0.term, v, l->0);
    }
    if upper is Some {
        lemma_binary(f, at, BinaryOp::Le, x, upper->0.term, v, u->0);
    }
    match (lower, upper) {
        (Some(a), Some(b)) => {
            lemma_and(f, at, x.ge(a.term), x.le(b.term), v >= l->0, v <= u->0);
            lemma_masked(
                f,
                at,
                x.ge(a.term).and(x.le(b.term)),
                lp,
                v >= l->0 && v <= u->0,
            );
        },
        (Some(a), None) => lemma_masked(f, at, x.ge(a.term), lp, v >= l->0),
        (None, Some(b)) => lemma_masked(f, at, x.le(b.term), lp, v <= u->0),
        (None, None) => {},
    }
}

/// A log density less the logarithm of a mass.
proof fn lemma_renormalized(f: Reals, at: Scalars, lp: Term, log_z: Term, p: Entry, z: real)
    requires
        meaning(f, at, lp) == p,
        reads(f, at, log_z, z),
    ensures
        meaning(f, at, lp.minus(log_z)) == (match p {
            Entry::At(d) => Entry::At(d - z),
            Entry::Below => Entry::Below,
        }),
{
}

/// The mass that a normal distribution has between bounds.
pub open spec fn normal_share(
    f: Reals,
    m: real,
    s: real,
    lower: Option<real>,
    upper: Option<real>,
) -> real {
    let above = match upper {
        Some(u) => ndtr(f, (u - m) / s),
        None => 1real,
    };
    let below = match lower {
        Some(l) => ndtr(f, (l - m) / s),
        None => 0real,
    };
    above - below
}

proof fn lemma_standardized(f: Reals, at: Scalars, b: Term, loc: Term, scale: Term, y: real, m: real, s: real)
    requires
        reads(f, at, b, y),
        reads(f, at, loc, m),
        reads(f, at, scale, s),
    ensures
        reads(f, at, b.minus(loc).over(scale), (y - m) / s),
{
    lemma_binary(f, at, BinaryOp::Sub, b, loc, y, m);
    lemma_binary(f, at, BinaryOp::Div, b.minus(loc), scale, y - m, s);
}

/// The mass between two standardized bounds, on either side of the mean.
proof fn lemma_normal_mass(f: Reals, at: Scalars, a: Term, b: Term, x: real, y: real)
    requires
        genuine(f),
        reads(f, at, a, x),
        reads(f, at, b, y),
        x < y,
    ensures
        reads(f, at, normal_mass(a, b), (f.ln)(ndtr(f, y) - ndtr(f, x))),
{
    lemma_binary(f, at, BinaryOp::Add, a, b, x, y);
    lemma_range(f, at, a.plus(b), x + y);
    let mirror = a.plus(b).gt(double(ZERO));
    let flip = x + y > 0real;
    lemma_unary(f, at, UnaryOp::Neg, a, x);
    lemma_unary(f, at, UnaryOp::Neg, b, y);
    lemma_unary(f, at, UnaryOp::LogNormalCdf, a, x);
    lemma_unary(f, at, UnaryOp::LogNormalCdf, b, y);
    lemma_unary(f, at, UnaryOp::LogNormalCdf, a.neg(), -x);
    lemma_unary(f, at, UnaryOp::LogNormalCdf, b.neg(), -y);
    lemma_select(f, at, mirror, a.neg().log_ndtr(), b.log_ndtr(), flip);
    lemma_select(f, at, mirror, b.neg().log_ndtr(), a.log_ndtr(), flip);
    let hi = mirror.select(a.neg().log_ndtr(), b.log_ndtr());
    let lo = mirror.select(b.neg().log_ndtr(), a.log_ndtr());
    let h = if flip {
        (f.log_ndtr)(-x)
    } else {
        (f.log_ndtr)(y)
    };
    let g = if flip {
        (f.log_ndtr)(-y)
    } else {
        (f.log_ndtr)(x)
    };
    assert(ndtr_increases(f, x, y) && ndtr_increases(f, -y, -x));
    assert(g < h);
    lemma_binary(f, at, BinaryOp::Sub, lo, hi, g, h);
    lemma_unary(f, at, UnaryOp::Exp, lo.minus(hi), g - h);
    lemma_unary(f, at, UnaryOp::Neg, lo.minus(hi).exp(), (f.exp)(g - h));
    lemma_unary(f, at, UnaryOp::Ln1p, lo.minus(hi).exp().neg(), -(f.exp)(g - h));
    lemma_binary(
        f,
        at,
        BinaryOp::Add,
        hi,
        lo.minus(hi).exp().neg().ln_1p(),
        h,
        (f.ln)(1real + -(f.exp)(g - h)),
    );
    assert(1real + -(f.exp)(g - h) == 1real - (f.exp)(g - h));
    lemma_log_difference(f, h, g);
    assert(ndtr_mirrors(f, x) && ndtr_mirrors(f, y));
    assert((f.exp)(h) - (f.exp)(g) == ndtr(f, y) - ndtr(f, x));
}

/// A truncated normal density is the normal one over the mass between the bounds, and nothing
/// outside them.
pub proof fn law_truncated_normal_density(
    f: Reals,
    at: Scalars,
    loc: Var,
    scale: Var,
    lower: Option<Var>,
    upper: Option<Var>,
    x: Term,
    m: real,
    s: real,
    l: Option<real>,
    u: Option<real>,
    v: real,
)
    requires
        genuine(f),
        reads(f, at, loc.term, m),
        reads(f, at, scale.term, s),
        bound_reads(f, at, lower, l),
        bound_reads(f, at, upper, u),
        reads(f, at, x, v),
        s > 0real,
        l is Some && u is Some ==> l->0 < u->0,
    ensures
        scores(
            f,
            at,
            DistVars::Truncated { base: Box::new(DistVars::Normal { loc, scale }), lower, upper },
            x,
            if inside(v, l, u) {
                Entry::At(normal_real(f, v, m, s) - (f.ln)(normal_share(f, m, s, l, u)))
            } else {
                Entry::Below
            },
        ),
{
    let base = DistVars::Normal { loc, scale };
    let (low, high) = (bound_term(lower), bound_term(upper));
    law_normal_density(f, at, loc, scale, x, m, s, v);
    let log_z = normal_normalizer(loc.term, scale.term, low, high);
    if lower is Some {
        lemma_standardized(f, at, lower->0.term, loc.term, scale.term, l->0, m, s);
    }
    if upper is Some {
        lemma_standardized(f, at, upper->0.term, loc.term, scale.term, u->0, m, s);
    }
    match (lower, upper) {
        (Some(a), None) => {
            let z = (l->0 - m) / s;
            let t = a.term.minus(loc.term).over(scale.term);
            lemma_unary(f, at, UnaryOp::Neg, t, z);
            lemma_unary(f, at, UnaryOp::LogNormalCdf, t.neg(), -z);
            assert(ndtr_mirrors(f, z));
            assert(exp_undone(f, (f.log_ndtr)(-z)));
            assert(1real - ndtr(f, z) == (f.exp)((f.log_ndtr)(-z)));
        },
        (None, Some(b)) => {
            let z = (u->0 - m) / s;
            let t = b.term.minus(loc.term).over(scale.term);
            lemma_unary(f, at, UnaryOp::LogNormalCdf, t, z);
            assert(exp_undone(f, (f.log_ndtr)(z)));
            assert(ndtr(f, z) - 0real == ndtr(f, z));
        },
        (Some(a), Some(b)) => {
            let y = (l->0 - m) / s;
            let z = (u->0 - m) / s;
            assert(y < z) by (nonlinear_arith)
                requires
                    y == (l->0 - m) / s,
                    z == (u->0 - m) / s,
                    s > 0real,
                    l->0 < u->0,
            ;
            lemma_normal_mass(
                f,
                at,
                a.term.minus(loc.term).over(scale.term),
                b.term.minus(loc.term).over(scale.term),
                y,
                z,
            );
        },
        (None, None) => {
            lemma_ln_one(f);
            assert(1real - 0real == 1real);
        },
    }
    let share = (f.ln)(normal_share(f, m, s, l, u));
    assert(reads(f, at, log_z, share));
    assert(normalizer(base, low, high) == log_z);
    let lp = density_term(base, x);
    lemma_renormalized(f, at, lp, log_z, Entry::At(normal_real(f, v, m, s)), share);
    lemma_within(f, at, x, lower, upper, lp.minus(log_z), v, l, u);
    reveal_with_fuel(density_term, 2);
}

/// The greater of a bound and an end, or the end without one.
pub open spec fn raised(lower: Option<real>, end: real) -> real {
    match lower {
        Some(l) => if l >= end {
            l
        } else {
            end
        },
        None => end,
    }
}

/// The smaller of a bound and an end, or the end without one.
pub open spec fn cut(upper: Option<real>, end: real) -> real {
    match upper {
        Some(u) => if u <= end {
            u
        } else {
            end
        },
        None => end,
    }
}

/// A truncated uniform density is one over the width that the bounds leave, and nothing outside
/// them.
pub proof fn law_truncated_uniform_density(
    f: Reals,
    at: Scalars,
    low: Var,
    high: Var,
    lower: Option<Var>,
    upper: Option<Var>,
    x: Term,
    a: real,
    b: real,
    l: Option<real>,
    u: Option<real>,
    v: real,
)
    requires
        genuine(f),
        reads(f, at, low.term, a),
        reads(f, at, high.term, b),
        bound_reads(f, at, lower, l),
        bound_reads(f, at, upper, u),
        reads(f, at, x, v),
        a < b,
        raised(l, a) < cut(u, b),
    ensures
        scores(
            f,
            at,
            DistVars::Truncated { base: Box::new(DistVars::Uniform { low, high }), lower, upper },
            x,
            if raised(l, a) <= v <= cut(u, b) {
                Entry::At((f.ln)(1real / (cut(u, b) - raised(l, a))))
            } else {
                Entry::Below
            },
        ),
{
    let base = DistVars::Uniform { low, high };
    let (lo, hi) = (bound_term(lower), bound_term(upper));
    law_uniform_density(f, at, low, high, x, a, b, v);
    let from = match lo {
        Some(t) => t.ge(low.term).select(t, low.term),
        None => low.term,
    };
    let to = match hi {
        Some(t) => t.le(high.term).select(t, high.term),
        None => high.term,
    };
    if lower is Some {
        lemma_binary(f, at, BinaryOp::Ge, lower->0.term, low.term, l->0, a);
        lemma_select(f, at, lower->0.term.ge(low.term), lower->0.term, low.term, l->0 >= a);
    }
    if upper is Some {
        lemma_binary(f, at, BinaryOp::Le, upper->0.term, high.term, u->0, b);
        lemma_select(f, at, upper->0.term.le(high.term), upper->0.term, high.term, u->0 <= b);
    }
    let (p, q) = (raised(l, a), cut(u, b));
    assert(reads(f, at, from, p) && reads(f, at, to, q));
    lemma_binary(f, at, BinaryOp::Sub, to, from, q, p);
    lemma_unary(f, at, UnaryOp::Ln, to.minus(from), q - p);
    lemma_binary(f, at, BinaryOp::Sub, high.term, low.term, b, a);
    lemma_unary(f, at, UnaryOp::Ln, high.term.minus(low.term), b - a);
    lemma_binary(
        f,
        at,
        BinaryOp::Sub,
        to.minus(from).ln(),
        high.term.minus(low.term).ln(),
        (f.ln)(q - p),
        (f.ln)(b - a),
    );
    let log_z = uniform_normalizer(low.term, high.term, lo, hi);
    let share = (f.ln)(q - p) - (f.ln)(b - a);
    assert(reads(f, at, log_z, share));
    assert(normalizer(base, lo, hi) == log_z);
    let lp = density_term(base, x);
    let plain = if a <= v <= b {
        Entry::At((f.ln)(1real / (b - a)))
    } else {
        Entry::Below
    };
    lemma_renormalized(f, at, lp, log_z, plain, share);
    lemma_within(f, at, x, lower, upper, lp.minus(log_z), v, l, u);
    lemma_ln_quotient(f, 1real, b - a);
    lemma_ln_quotient(f, 1real, q - p);
    reveal_with_fuel(density_term, 2);
}

/// The share of an exponential distribution between bounds, of which the lower is at least zero.
pub open spec fn exponential_share(f: Reals, r: real, from: real, upper: Option<real>) -> real {
    match upper {
        Some(u) => (f.exp)(-(r * from)) - (f.exp)(-(r * u)),
        None => (f.exp)(-(r * from)),
    }
}

/// A truncated exponential density is the exponential one over the mass between the bounds, and
/// nothing outside them.
pub proof fn law_truncated_exponential_density(
    f: Reals,
    at: Scalars,
    rate: Var,
    lower: Option<Var>,
    upper: Option<Var>,
    x: Term,
    r: real,
    l: Option<real>,
    u: Option<real>,
    v: real,
)
    requires
        genuine(f),
        reads(f, at, rate.term, r),
        bound_reads(f, at, lower, l),
        bound_reads(f, at, upper, u),
        reads(f, at, x, v),
        r > 0real,
        u is Some ==> raised(l, 0real) < u->0,
    ensures
        scores(
            f,
            at,
            DistVars::Truncated { base: Box::new(DistVars::Exponential { rate }), lower, upper },
            x,
            if v >= 0real && inside(v, l, u) {
                Entry::At(
                    (f.ln)(r) - r * v - (f.ln)(exponential_share(f, r, raised(l, 0real), u)),
                )
            } else {
                Entry::Below
            },
        ),
{
    let base = DistVars::Exponential { rate };
    let (lo, hi) = (bound_term(lower), bound_term(upper));
    law_exponential_density(f, at, rate, x, r, v);
    let zero = double(ZERO);
    let from = match lo {
        Some(t) => t.ge(zero).select(t, zero),
        None => zero,
    };
    assert(reads(f, at, zero, 0real));
    if lower is Some {
        lemma_range(f, at, lower->0.term, l->0);
        lemma_select(f, at, lower->0.term.ge(zero), lower->0.term, zero, l->0 >= 0real);
    }
    let p = raised(l, 0real);
    assert(reads(f, at, from, p));
    lemma_binary(f, at, BinaryOp::Mul, rate.term, from, r, p);
    lemma_unary(f, at, UnaryOp::Neg, rate.term.times(from), r * p);
    let head = rate.term.times(from).neg();
    let h = -(r * p);
    assert(exp_undone(f, h));
    let log_z = exponential_normalizer(rate.term, lo, hi);
    if upper is Some {
        let ut = upper->0.term;
        let w = u->0;
        lemma_binary(f, at, BinaryOp::Sub, ut, from, w, p);
        lemma_binary(f, at, BinaryOp::Mul, rate.term, ut.minus(from), r, w - p);
        let reach = rate.term.times(ut.minus(from));
        let c = r * (w - p);
        lemma_unary(f, at, UnaryOp::Neg, reach, c);
        lemma_unary(f, at, UnaryOp::Exp, reach.neg(), -c);
        lemma_unary(f, at, UnaryOp::Neg, reach.neg().exp(), (f.exp)(-c));
        lemma_unary(f, at, UnaryOp::Ln1p, reach.neg().exp().neg(), -(f.exp)(-c));
        lemma_binary(
            f,
            at,
            BinaryOp::Add,
            head,
            reach.neg().exp().neg().ln_1p(),
            h,
            (f.ln)(1real + -(f.exp)(-c)),
        );
        let g = -(r * w);
        assert(g - h == -c && g < h) by (nonlinear_arith)
            requires
                g == -(r * w),
                h == -(r * p),
                c == r * (w - p),
                r > 0real,
                p < w,
        ;
        lemma_log_difference(f, h, g);
        assert(1real + -(f.exp)(-c) == 1real - (f.exp)(g - h));
    }
    let share = (f.ln)(exponential_share(f, r, p, u));
    assert(reads(f, at, log_z, share));
    assert(normalizer(base, lo, hi) == log_z);
    let lp = density_term(base, x);
    let plain = if v >= 0real {
        Entry::At((f.ln)(r) - r * v)
    } else {
        Entry::Below
    };
    lemma_renormalized(f, at, lp, log_z, plain, share);
    lemma_within(f, at, x, lower, upper, lp.minus(log_z), v, l, u);
    reveal_with_fuel(density_term, 2);
}

} // verus!
