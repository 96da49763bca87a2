//! Expressions over vectors: what ordered values and ordered categories are.

use vstd::prelude::*;

#[allow(unused_imports)]
use crate::bounds::ResolvedModel;
#[allow(unused_imports)]
use crate::density::{
    categories, clipped, cumulative, density_term, double, masked, DistVars, Var, MIN_POSITIVE, NEGATIVE_INFINITY,
    ONE, ZERO,
};
#[allow(unused_imports)]
use crate::meaning::{
    binary_entry, exp_increases, exp_undone, genuine, logistic, truth, unary_entry, whole,
    whole_at, Entry, Reals,
};
#[allow(unused_imports)]
use crate::term::{BinaryOp, Term, UnaryOp};
#[allow(unused_imports)]
use crate::transform::constrained;

verus! {

/// An entry of a vector, or the only one of a single number.
pub open spec fn entry(a: Seq<Entry>, i: int) -> Entry {
    if a.len() == 1 {
        a[0]
    } else {
        a[i]
    }
}

/// How many entries two vectors broadcast to.
pub open spec fn extent(a: Seq<Entry>, b: Seq<Entry>) -> nat {
    if a.len() == 1 {
        b.len()
    } else {
        a.len()
    }
}

/// Whether the entries of a vector strictly increase.
pub open spec fn increasing(a: Seq<Entry>) -> bool {
    forall|i: int, j: int|
        0 <= i < j < a.len() ==> (#[trigger] a[i]) is At && (#[trigger] a[j]) is At && a[i]->0
            < a[j]->0
}

/// A vector that begins with the first entry and gains the exponential of each further one.
pub open spec fn climbed(f: Reals, a: Seq<Entry>) -> Seq<Entry>
    decreases a.len(),
{
    if a.len() <= 1 {
        a
    } else {
        let before = climbed(f, a.drop_last());
        before.push(
            match (before.last(), a.last()) {
                (Entry::At(x), Entry::At(y)) => Entry::At(x + (f.exp)(y)),
                _ => Entry::Below,
            },
        )
    }
}

/// The integer that a number is.
pub open spec fn integer_at(x: real) -> int {
    choose|n: int| #[trigger] whole_at(x, n)
}

/// The entry that a number names, held to the vector.
pub open spec fn picked(a: Seq<Entry>, y: Entry) -> Entry {
    match y {
        Entry::At(x) => {
            let n = integer_at(x);
            if n < 0 {
                a[0]
            } else if n >= a.len() {
                a.last()
            } else {
                a[n]
            }
        },
        Entry::Below => a[0],
    }
}

pub open spec fn unary_row(f: Reals, op: UnaryOp, a: Seq<Entry>) -> Seq<Entry> {
    match op {
        UnaryOp::First => seq![a[0]],
        UnaryOp::Last => seq![a.last()],
        UnaryOp::Rest => a.drop_first(),
        UnaryOp::Lead => a.drop_last(),
        UnaryOp::Extent => seq![Entry::At(a.len() as real)],
        UnaryOp::IsIncreasing => seq![Entry::At(truth(increasing(a)))],
        UnaryOp::OrderedInverse => climbed(f, a),
        UnaryOp::AsVector => a,
        UnaryOp::AsColumn => a,
        _ => Seq::new(a.len(), |i: int| unary_entry(f, op, a[i])),
    }
}

pub open spec fn binary_row(f: Reals, op: BinaryOp, a: Seq<Entry>, b: Seq<Entry>) -> Seq<Entry> {
    match op {
        BinaryOp::SpreadTo => a,
        BinaryOp::SpreadRows => a,
        BinaryOp::TakeLast => seq![picked(a, b[0])],
        _ => Seq::new(extent(a, b), |i: int| binary_entry(f, op, entry(a, i), entry(b, i))),
    }
}

/// What an expression comes to over vectors, of which a single number is one of a single entry.
/// Choices go by a single condition.
pub open spec fn row(f: Reals, leaves: Seq<Seq<Entry>>, t: Term) -> Seq<Entry>
    decreases t,
{
    match t {
        Term::Leaf(i) => leaves[i as int],
        Term::Double(bits) => if bits == 0xFFF0_0000_0000_0000 {
            seq![Entry::Below]
        } else {
            seq![Entry::At((f.constant)(bits))]
        },
        Term::Unary(op, a) => unary_row(f, op, row(f, leaves, *a)),
        Term::Binary(op, a, b) => binary_row(f, op, row(f, leaves, *a), row(f, leaves, *b)),
        Term::Select(c, a, b) => if row(f, leaves, *c)[0] == Entry::At(0real) {
            row(f, leaves, *b)
        } else {
            row(f, leaves, *a)
        },
        Term::Join(a, b, c) => row(f, leaves, *a) + row(f, leaves, *b) + row(f, leaves, *c),
        Term::Slice(a, from, to) => row(f, leaves, *a).subrange(from as int, to as int),
        _ => Seq::empty(),
    }
}

/// A single number.
pub open spec fn single(x: real) -> Seq<Entry> {
    seq![Entry::At(x)]
}

/// Real numbers as entries.
pub open spec fn reals(c: Seq<real>) -> Seq<Entry> {
    Seq::new(c.len(), |i: int| Entry::At(c[i]))
}

proof fn lemma_row_unary(f: Reals, leaves: Seq<Seq<Entry>>, op: UnaryOp, a: Term)
    ensures
        row(f, leaves, a.unary(op)) == unary_row(f, op, row(f, leaves, a)),
{
}

proof fn lemma_row_binary(f: Reals, leaves: Seq<Seq<Entry>>, op: BinaryOp, a: Term, b: Term)
    ensures
        row(f, leaves, a.binary(op, b)) == binary_row(
            f,
            op,
            row(f, leaves, a),
            row(f, leaves, b),
        ),
{
}

/// An operation on single numbers.
proof fn lemma_single_binary(
    f: Reals,
    leaves: Seq<Seq<Entry>>,
    op: BinaryOp,
    a: Term,
    b: Term,
    x: real,
    y: real,
)
    requires
        row(f, leaves, a) == single(x),
        row(f, leaves, b) == single(y),
        !(op is SpreadTo) && !(op is SpreadRows) && !(op is TakeLast),
    ensures
        row(f, leaves, a.binary(op, b)) == single(crate::meaning::binary_real(f, op, x, y)),
{
    assert(row(f, leaves, a.binary(op, b)) =~= single(
        crate::meaning::binary_real(f, op, x, y),
    ));
}

proof fn lemma_single_and(
    f: Reals,
    leaves: Seq<Seq<Entry>>,
    a: Term,
    b: Term,
    p: bool,
    q: bool,
)
    requires
        row(f, leaves, a) == single(truth(p)),
        row(f, leaves, b) == single(truth(q)),
    ensures
        row(f, leaves, a.and(b)) == single(truth(p && q)),
{
    lemma_single_binary(f, leaves, BinaryOp::And, a, b, truth(p), truth(q));
}

/// The logistic function strictly increases, within zero and one.
proof fn lemma_logistic_increases(f: Reals, x: real, y: real)
    requires
        genuine(f),
    ensures
        0real < logistic(f, x) < 1real,
        x < y ==> logistic(f, x) < logistic(f, y),
{
    assert(exp_undone(f, -x) && exp_undone(f, -y));
    assert(exp_increases(f, -y, -x));
    let (a, b) = ((f.exp)(-x), (f.exp)(-y));
    assert(0real < 1real / (1real + a) < 1real) by (nonlinear_arith)
        requires
            a > 0real,
    ;
    if x < y {
        assert(1real / (1real + a) < 1real / (1real + b)) by (nonlinear_arith)
            requires
                b < a,
                b > 0real,
        ;
    }
}

/// The probability of a category that cutpoints part: the logistic function climbs by it from the
/// cutpoint below to the one above, from zero to one in all.
pub open spec fn category_share(f: Reals, eta: real, c: Seq<real>, k: int) -> real {
    let above = if k < c.len() {
        logistic(f, c[k] - eta)
    } else {
        1real
    };
    let below = if k > 0 {
        logistic(f, c[k - 1] - eta)
    } else {
        0real
    };
    above - below
}

/// Whether reals strictly increase.
pub open spec fn ascending(c: Seq<real>) -> bool {
    forall|i: int, j: int| 0 <= i < j < c.len() ==> #[trigger] c[i] < #[trigger] c[j]
}

/// The categories of an ordered logistic distribution, as an expression.
proof fn lemma_categories(
    f: Reals,
    leaves: Seq<Seq<Entry>>,
    eta: Term,
    cutpoints: Term,
    e: real,
    c: Seq<real>,
)
    requires
        genuine(f),
        row(f, leaves, eta) == single(e),
        row(f, leaves, cutpoints) == reals(c),
        c.len() >= 1,
    ensures
        row(f, leaves, categories(cumulative(eta, cutpoints))) == Seq::new(
            c.len() + 1,
            |k: int| Entry::At(category_share(f, e, c, k)),
        ),
{
    let shifted = cutpoints.minus(eta.unary(UnaryOp::AsColumn));
    lemma_row_unary(f, leaves, UnaryOp::AsColumn, eta);
    lemma_row_binary(f, leaves, BinaryOp::Sub, cutpoints, eta.unary(UnaryOp::AsColumn));
    assert(row(f, leaves, shifted) =~= Seq::new(c.len(), |i: int| Entry::At(c[i] - e)));
    let below = cumulative(eta, cutpoints);
    lemma_row_unary(f, leaves, UnaryOp::Sigmoid, shifted);
    let b = Seq::new(c.len(), |i: int| Entry::At(logistic(f, c[i] - e)));
    assert(row(f, leaves, below) =~= b);
    let (first, last) = (below.unary(UnaryOp::First), below.unary(UnaryOp::Last));
    let (rest, lead) = (below.unary(UnaryOp::Rest), below.unary(UnaryOp::Lead));
    lemma_row_unary(f, leaves, UnaryOp::First, below);
    lemma_row_unary(f, leaves, UnaryOp::Last, below);
    lemma_row_unary(f, leaves, UnaryOp::Rest, below);
    lemma_row_unary(f, leaves, UnaryOp::Lead, below);
    lemma_row_binary(f, leaves, BinaryOp::Sub, rest, lead);
    let middle = row(f, leaves, rest.minus(lead));
    let n = (c.len() - 1) as nat;
    assert(middle =~= Seq::new(
        n,
        |i: int| Entry::At(logistic(f, c[i + 1] - e) - logistic(f, c[i] - e)),
    )) by {
        assert(b.drop_first().len() == n && b.drop_last().len() == n);
    }
    assert(row(f, leaves, double(ONE)) == single(1real));
    let l = logistic(f, c[c.len() - 1] - e);
    assert(row(f, leaves, last) =~= single(l));
    lemma_single_binary(f, leaves, BinaryOp::Sub, double(ONE), last, 1real, l);
    let z = logistic(f, c[0] - e);
    assert(row(f, leaves, first) =~= single(z));
    assert(z - 0real == z);
    assert(row(f, leaves, categories(below)) =~= Seq::new(
        c.len() + 1,
        |k: int| Entry::At(category_share(f, e, c, k)),
    ));
}

/// An ordered logistic mass at a category is the climb of the logistic function from the cutpoint
/// below to the one above; there is none at other values, nor for cutpoints that do not increase.
/// A share below the smallest normal double is read as that.
pub proof fn law_ordered_logistic_mass(
    f: Reals,
    leaves: Seq<Seq<Entry>>,
    eta: Var,
    cutpoints: Var,
    x: Term,
    e: real,
    c: Seq<real>,
    v: real,
)
    requires
        genuine(f),
        row(f, leaves, eta.term) == single(e),
        row(f, leaves, cutpoints.term) == reals(c),
        row(f, leaves, x) == single(v),
        c.len() >= 1,
    ensures
        ({
            let tiny = (f.constant)(0x0010_0000_0000_0000);
            let out = row(f, leaves, density_term(DistVars::OrderedLogistic { eta, cutpoints }, x));
            &&& forall|k: nat| #[trigger]
                whole_at(v, k as int) && k <= c.len() && ascending(c) ==> ({
                    let share = category_share(f, e, c, k as int);
                    out == single(
                        (f.ln)(
                            if share < tiny {
                                tiny
                            } else {
                                share
                            },
                        ),
                    )
                })
            &&& !(whole(v) && 0real <= v <= c.len() as real && ascending(c)) ==> out == seq![
                Entry::Below,
            ]
        }),
{
    let (et, ct) = (eta.term, cutpoints.term);
    let cats = categories(cumulative(et, ct));
    lemma_categories(f, leaves, et, ct, e, c);
    let label = x.binary(BinaryOp::SpreadTo, et);
    lemma_row_binary(f, leaves, BinaryOp::SpreadTo, x, et);
    let spread = cats.binary(BinaryOp::SpreadRows, x);
    lemma_row_binary(f, leaves, BinaryOp::SpreadRows, cats, x);
    let selected = spread.binary(BinaryOp::TakeLast, label);
    lemma_row_binary(f, leaves, BinaryOp::TakeLast, spread, label);
    let shares = Seq::new(c.len() + 1, |k: int| Entry::At(category_share(f, e, c, k)));
    let got = picked(shares, Entry::At(v));
    let m = integer_at(v);
    let k = if m < 0 {
        0int
    } else if m >= shares.len() {
        c.len() as int
    } else {
        m
    };
    let share = category_share(f, e, c, k);
    assert(got == Entry::At(share));
    assert(row(f, leaves, selected) =~= single(share));
    assert(row(f, leaves, double(ZERO)) == single(0real));
    assert(row(f, leaves, double(ONE)) == single(1real));
    lemma_row_unary(f, leaves, UnaryOp::IsInteger, label);
    assert(row(f, leaves, label.is_integer()) =~= single(truth(whole(v))));
    lemma_single_binary(f, leaves, BinaryOp::Ge, label, double(ZERO), v, 0real);
    lemma_single_and(f, leaves, label.is_integer(), label.ge(double(ZERO)), whole(v), v >= 0real);
    lemma_row_unary(f, leaves, UnaryOp::Extent, ct);
    lemma_single_binary(
        f,
        leaves,
        BinaryOp::Le,
        label,
        ct.unary(UnaryOp::Extent),
        v,
        c.len() as real,
    );
    lemma_row_unary(f, leaves, UnaryOp::IsIncreasing, ct);
    assert(increasing(reals(c)) == ascending(c)) by {
        if increasing(reals(c)) {
            assert forall|i: int, j: int| 0 <= i < j < c.len() implies #[trigger] c[i]
                < #[trigger] c[j] by {
                assert(reals(c)[i]->0 < reals(c)[j]->0);
            }
        }
    }
    lemma_single_binary(f, leaves, BinaryOp::Gt, selected, double(ZERO), share, 0real);
    lemma_single_and(
        f,
        leaves,
        ct.unary(UnaryOp::IsIncreasing),
        selected.gt(double(ZERO)),
        ascending(c),
        share > 0real,
    );
    let sound = ct.unary(UnaryOp::IsIncreasing).and(selected.gt(double(ZERO)));
    lemma_single_and(
        f,
        leaves,
        label.le(ct.unary(UnaryOp::Extent)),
        sound,
        v <= c.len() as real,
        ascending(c) && share > 0real,
    );
    let support = label.is_integer().and(label.ge(double(ZERO))).and(
        label.le(ct.unary(UnaryOp::Extent)).and(sound),
    );
    let holds = whole(v) && v >= 0real && v <= c.len() as real && ascending(c) && share > 0real;
    lemma_single_and(
        f,
        leaves,
        label.is_integer().and(label.ge(double(ZERO))),
        label.le(ct.unary(UnaryOp::Extent)).and(sound),
        whole(v) && v >= 0real,
        v <= c.len() as real && ascending(c) && share > 0real,
    );
    let tiny = (f.constant)(0x0010_0000_0000_0000);
    let low = double(MIN_POSITIVE);
    assert(row(f, leaves, low) == single(tiny));
    lemma_single_binary(f, leaves, BinaryOp::Ge, selected, low, share, tiny);
    let lifted = selected.ge(low).select(selected, low);
    let w = if share < tiny {
        tiny
    } else {
        share
    };
    assert(row(f, leaves, lifted) == single(w));
    lemma_single_binary(f, leaves, BinaryOp::Le, lifted, double(ONE), w, 1real);
    let safe = clipped(selected, MIN_POSITIVE, ONE);
    if whole(v) && v >= 0real && v <= c.len() as real && ascending(c) {
        let n = choose|n: int| #[trigger] whole_at(v, n);
        assert(m == n && k == m);
        if k < c.len() {
            lemma_logistic_increases(f, c[k] - e, c[k] - e);
        }
        if k > 0 {
            lemma_logistic_increases(f, c[k - 1] - e, c[k - 1] - e);
        }
        if 0 < k < c.len() {
            assert(c[k - 1] < c[k]);
            lemma_logistic_increases(f, c[k - 1] - e, c[k] - e);
        }
        assert(0real < share <= 1real);
        assert(row(f, leaves, safe) == single(w));
        lemma_row_unary(f, leaves, UnaryOp::Ln, safe);
        assert(row(f, leaves, safe.ln()) =~= single((f.ln)(w)));
    }
    let out = row(f, leaves, density_term(DistVars::OrderedLogistic { eta, cutpoints }, x));
    assert(row(f, leaves, support) == single(truth(holds)));
    assert(row(f, leaves, double(NEGATIVE_INFINITY)) == seq![Entry::Below]);
    assert(density_term(DistVars::OrderedLogistic { eta, cutpoints }, x) == masked(
        support,
        safe.ln(),
    ));
    assert(out == (if holds {
        row(f, leaves, safe.ln())
    } else {
        seq![Entry::Below]
    }));
    assert forall|j: nat| #[trigger] whole_at(v, j as int) && j <= c.len() && ascending(c) implies row(
        f,
        leaves,
        density_term(DistVars::OrderedLogistic { eta, cutpoints }, x),
    ) == single(
        (f.ln)(
            if category_share(f, e, c, j as int) < tiny {
                tiny
            } else {
                category_share(f, e, c, j as int)
            },
        ),
    ) by {
        assert(whole(v));
        assert(whole_at(v, m));
        assert(m == j);
    }
}

/// Vectors that climb strictly increase, from the first entry on.
proof fn lemma_climbed(f: Reals, c: Seq<real>)
    requires
        genuine(f),
        c.len() >= 1,
    ensures
        climbed(f, reals(c)).len() == c.len(),
        climbed(f, reals(c))[0] == Entry::At(c[0]),
        forall|i: int| 0 <= i < c.len() ==> (#[trigger] climbed(f, reals(c))[i]) is At,
        forall|i: int|
            0 < i < c.len() ==> (#[trigger] climbed(f, reals(c))[i])->0 == climbed(f, reals(c))[i
                - 1]->0 + (f.exp)(c[i]),
    decreases c.len(),
{
    if c.len() > 1 {
        let d = c.drop_last();
        lemma_climbed(f, d);
        assert(reals(c).drop_last() =~= reals(d));
        let before = climbed(f, reals(d));
        let all = climbed(f, reals(c));
        assert forall|i: int| 0 < i < c.len() implies (#[trigger] all[i])->0 == all[i - 1]->0
            + (f.exp)(c[i]) by {
            if i < d.len() {
                assert(before[i]->0 == before[i - 1]->0 + (f.exp)(d[i]));
            }
        }
    }
}

/// An ordered vector begins with its first input and climbs by the exponential of each further
/// one, so that its entries strictly increase. The logarithms of its slopes, each entry's by its
/// own input, are the inputs behind the first, and those make its Jacobian.
pub proof fn law_ordered_value_increases(
    f: Reals,
    leaves: Seq<Seq<Entry>>,
    name: Seq<char>,
    shape: Seq<usize>,
    index: usize,
    c: Seq<real>,
)
    requires
        genuine(f),
        leaves[index as int] == reals(c),
        shape.len() == 1,
        shape[0] == c.len(),
        c.len() >= 1,
    ensures
        ({
            let made = constrained(Some(ResolvedModel::Ordered), name, shape, index);
            let y = row(f, leaves, made->Ok_0.value);
            &&& made is Ok
            &&& y.len() == c.len()
            &&& y[0] == Entry::At(c[0])
            &&& forall|i: int| 0 < i < c.len() ==> (#[trigger] y[i])->0 - y[i - 1]->0 == (f.exp)(
                c[i],
            ) && y[i]->0 > y[i - 1]->0
            &&& made->Ok_0.jacobian is Some
            &&& row(f, leaves, made->Ok_0.jacobian->0) == reals(c.drop_first())
            &&& forall|i: int| 0 < i < c.len() ==> c.drop_first()[i - 1] == (f.ln)(
                (#[trigger] y[i])->0 - y[i - 1]->0,
            )
        }),
{
    let made = constrained(Some(ResolvedModel::Ordered), name, shape, index);
    let y = row(f, leaves, made->Ok_0.value);
    lemma_row_unary(f, leaves, UnaryOp::OrderedInverse, Term::Leaf(index));
    lemma_climbed(f, c);
    assert(row(f, leaves, made->Ok_0.jacobian->0) =~= reals(c.drop_first()));
    assert forall|i: int| 0 < i < c.len() implies (#[trigger] y[i])->0 - y[i - 1]->0 == (f.exp)(
        c[i],
    ) && y[i]->0 > y[i - 1]->0 && c.drop_first()[i - 1] == (f.ln)(y[i]->0 - y[i - 1]->0) by {
        assert(exp_undone(f, c[i]));
    }
}

} // verus!
