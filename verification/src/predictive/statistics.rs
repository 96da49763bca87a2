//! Statistics of observed and replicated values.

use vstd::prelude::*;

#[allow(unused_imports)]
use crate::data::number_views;
use crate::json::Value;
#[allow(unused_imports)]
use crate::json::Json;
use crate::number::{equals, less_than, Number, INFINITY_BITS, SIGN_WEIGHT};
#[allow(unused_imports)]
use crate::number::{equal_value, finite, less, number_of_integer, NumberModel};
#[allow(unused_imports)]
use crate::numerics::optional_number;
use crate::render::Fields;

verus! {

/// The statistics that checks report.
#[derive(Debug, Clone, Copy, PartialEq, Eq, Structural)]
pub enum Statistic {
    Mean,
    Sd,
    Min,
    Max,
    ZeroCount,
}

/// The name of a statistic.
pub open spec fn statistic_name(kind: Statistic) -> Seq<char> {
    match kind {
        Statistic::Mean => "mean"@,
        Statistic::Sd => "sd"@,
        Statistic::Min => "min"@,
        Statistic::Max => "max"@,
        Statistic::ZeroCount => "zero_count"@,
    }
}

impl Statistic {
    pub fn as_str(self) -> (r: &'static str)
        ensures
            r@ == statistic_name(self),
    {
        match self {
            Statistic::Mean => "mean",
            Statistic::Sd => "sd",
            Statistic::Min => "min",
            Statistic::Max => "max",
            Statistic::ZeroCount => "zero_count",
        }
    }
}

/// The mean and the standard deviation of values, as relations.
pub struct Moments {
    pub mean: spec_fn(Seq<NumberModel>, NumberModel) -> bool,
    pub sd: spec_fn(Seq<NumberModel>, NumberModel) -> bool,
}

/// Whether a function can give that of values.
pub open spec fn summarizes<F: Fn(&Vec<Number>) -> Number>(
    f: F,
    values: Seq<NumberModel>,
    out: NumberModel,
) -> bool {
    exists|given: &Vec<Number>, r: Number|
        number_views(given@) == values && #[trigger] call_ensures(f, (given,), r) && r@ == out
}

/// The moments that two functions give.
pub open spec fn moments_of<M: Fn(&Vec<Number>) -> Number, D: Fn(&Vec<Number>) -> Number>(
    mean: M,
    sd: D,
) -> Moments {
    Moments {
        mean: |values: Seq<NumberModel>, out: NumberModel| summarizes(mean, values, out),
        sd: |values: Seq<NumberModel>, out: NumberModel| summarizes(sd, values, out),
    }
}

/// Positive infinity.
pub open spec fn infinity() -> NumberModel {
    NumberModel { bits: INFINITY_BITS, text: "inf"@ }
}

/// Negative infinity.
pub open spec fn negative_infinity() -> NumberModel {
    NumberModel { bits: (SIGN_WEIGHT + INFINITY_BITS) as u64, text: "-inf"@ }
}

/// The smallest of values and infinity, passing over NaN; the first of equal ones.
pub open spec fn smallest(values: Seq<NumberModel>) -> NumberModel
    decreases values.len(),
{
    if values.len() == 0 {
        infinity()
    } else if less(values.last().bits, smallest(values.drop_last()).bits) {
        values.last()
    } else {
        smallest(values.drop_last())
    }
}

/// The greatest of values and negative infinity, passing over NaN; the first of equal ones.
pub open spec fn greatest(values: Seq<NumberModel>) -> NumberModel
    decreases values.len(),
{
    if values.len() == 0 {
        negative_infinity()
    } else if less(greatest(values.drop_last()).bits, values.last().bits) {
        values.last()
    } else {
        greatest(values.drop_last())
    }
}

/// How many values are zero.
pub open spec fn zeros(values: Seq<NumberModel>) -> nat {
    values.filter(|n: NumberModel| equal_value(n.bits, 0)).len()
}

/// Whether a statistic of values can come to that.
pub open spec fn statistic_gives(
    moments: Moments,
    kind: Statistic,
    values: Seq<NumberModel>,
    out: Option<NumberModel>,
) -> bool {
    match kind {
        Statistic::Mean => if values.len() == 0 {
            out is None
        } else {
            out is Some && (moments.mean)(values, out->0)
        },
        Statistic::Sd => if values.len() == 0 {
            out is None
        } else {
            out is Some && (moments.sd)(values, out->0)
        },
        Statistic::Min => out == if values.len() == 0 {
            None::<NumberModel>
        } else {
            Some(smallest(values))
        },
        Statistic::Max => out == if values.len() == 0 {
            None::<NumberModel>
        } else {
            Some(greatest(values))
        },
        Statistic::ZeroCount => out == Some(number_of_integer((zeros(values) as i64) as int)),
    }
}

fn smallest_value(values: &Vec<Number>) -> (r: Number)
    ensures
        r@ == smallest(number_views(values@)),
{
    let ghost all = number_views(values@);
    let mut out: Number = Number { bits: INFINITY_BITS, text: "inf".to_owned() };
    assert(all.take(0) =~= Seq::empty());
    let mut i: usize = 0;
    while i < values.len()
        invariant
            i <= values.len(),
            all == number_views(values@),
            out@ == smallest(all.take(i as int)),
        decreases values.len() - i,
    {
        proof {
            let done = all.take(i + 1);
            assert(done.drop_last() =~= all.take(i as int));
            assert(done.last() == values@[i as int]@);
        }
        if less_than(values[i].bits, out.bits) {
            out = values[i].copy();
        }
        i += 1;
    }
    assert(all.take(i as int) =~= all);
    out
}

fn greatest_value(values: &Vec<Number>) -> (r: Number)
    ensures
        r@ == greatest(number_views(values@)),
{
    let ghost all = number_views(values@);
    let mut out: Number = Number { bits: SIGN_WEIGHT + INFINITY_BITS, text: "-inf".to_owned() };
    assert(all.take(0) =~= Seq::empty());
    let mut i: usize = 0;
    while i < values.len()
        invariant
            i <= values.len(),
            all == number_views(values@),
            out@ == greatest(all.take(i as int)),
        decreases values.len() - i,
    {
        proof {
            let done = all.take(i + 1);
            assert(done.drop_last() =~= all.take(i as int));
            assert(done.last() == values@[i as int]@);
        }
        if less_than(out.bits, values[i].bits) {
            out = values[i].copy();
        }
        i += 1;
    }
    assert(all.take(i as int) =~= all);
    out
}

/// How many of the values pass.
pub open spec fn passing(values: Seq<NumberModel>, pass: spec_fn(NumberModel) -> bool) -> nat {
    values.filter(pass).len()
}

proof fn lemma_passing_step(values: Seq<NumberModel>, i: int, pass: spec_fn(NumberModel) -> bool)
    requires
        0 <= i < values.len(),
    ensures
        passing(values.take(i + 1), pass) == passing(values.take(i), pass) + (if pass(values[i]) {
            1nat
        } else {
            0nat
        }),
        passing(values.take(i), pass) <= i,
{
    reveal(Seq::filter);
    let done = values.take(i + 1);
    assert(done.drop_last() =~= values.take(i));
    assert(done.last() == values[i]);
    values.take(i).lemma_filter_len(pass);
}

fn zero_count(values: &Vec<Number>) -> (r: usize)
    ensures
        r == zeros(number_views(values@)),
{
    let ghost all = number_views(values@);
    let ghost pass = |n: NumberModel| equal_value(n.bits, 0);
    let mut out: usize = 0;
    assert(all.take(0) =~= Seq::empty());
    assert(passing(all.take(0), pass) == 0) by {
        reveal(Seq::filter);
    }
    let mut i: usize = 0;
    while i < values.len()
        invariant
            i <= values.len(),
            all == number_views(values@),
            pass == (|n: NumberModel| equal_value(n.bits, 0)),
            out == passing(all.take(i as int), pass),
            out <= i,
        decreases values.len() - i,
    {
        proof {
            lemma_passing_step(all, i as int, pass);
            assert(all[i as int] == values@[i as int]@);
        }
        if equals(values[i].bits, 0) {
            out += 1;
        }
        i += 1;
    }
    assert(all.take(i as int) =~= all);
    out
}

/// A statistic of values; the mean and the standard deviation are computed by functions.
pub fn statistic_value<M: Fn(&Vec<Number>) -> Number, D: Fn(&Vec<Number>) -> Number>(
    kind: Statistic,
    values: &Vec<Number>,
    mean: &M,
    sd: &D,
) -> (r: Option<Number>)
    requires
        forall|v: &Vec<Number>| #[trigger] call_requires(*mean, (v,)),
        forall|v: &Vec<Number>| #[trigger] call_requires(*sd, (v,)),
    ensures
        statistic_gives(
            moments_of(*mean, *sd),
            kind,
            number_views(values@),
            optional_number(r),
        ),
{
    assert(number_views(values@).len() == values@.len());
    match kind {
        Statistic::ZeroCount => Some(Number::from_integer(zero_count(values) as i64)),
        _ => {
            if values.len() == 0 {
                return None;
            }
            match kind {
                Statistic::Mean => Some(mean(values)),
                Statistic::Sd => Some(sd(values)),
                Statistic::Min => Some(smallest_value(values)),
                _ => Some(greatest_value(values)),
            }
        },
    }
}

/// The values that there are.
pub open spec fn present(values: Seq<Option<NumberModel>>) -> Seq<NumberModel>
    decreases values.len(),
{
    if values.len() == 0 {
        Seq::empty()
    } else {
        match values.last() {
            None => present(values.drop_last()),
            Some(value) => present(values.drop_last()).push(value),
        }
    }
}

/// The content of values that may be missing.
pub open spec fn optional_views(values: Seq<Option<Number>>) -> Seq<Option<NumberModel>> {
    values.map_values(|value: Option<Number>| optional_number(value))
}

fn keep_present(values: &Vec<Option<Number>>) -> (r: Vec<Number>)
    ensures
        number_views(r@) == present(optional_views(values@)),
{
    let ghost all = optional_views(values@);
    let mut out: Vec<Number> = Vec::new();
    assert(number_views(out@) =~= Seq::empty());
    assert(all.take(0) =~= Seq::empty());
    let mut i: usize = 0;
    while i < values.len()
        invariant
            i <= values.len(),
            all == optional_views(values@),
            number_views(out@) == present(all.take(i as int)),
        decreases values.len() - i,
    {
        proof {
            let done = all.take(i + 1);
            assert(done.drop_last() =~= all.take(i as int));
            assert(done.last() == optional_number(values@[i as int]));
        }
        match &values[i] {
            None => {},
            Some(value) => {
                let ghost before = out@;
                out.push(value.copy());
                assert(number_views(out@) =~= number_views(before).push(value@));
            },
        }
        i += 1;
    }
    assert(all.take(i as int) =~= all);
    out
}

/// A key that orders all patterns, NaN with its sign and the two zeros apart.
pub open spec fn total_key(bits: u64) -> int {
    if bits >= SIGN_WEIGHT {
        SIGN_WEIGHT - 1 - bits
    } else {
        bits as int
    }
}

/// The first of the values with the least key.
pub open spec fn least(values: Seq<NumberModel>) -> Option<NumberModel>
    decreases values.len(),
{
    if values.len() == 0 {
        None
    } else {
        match least(values.drop_last()) {
            None => Some(values.last()),
            Some(before) => if total_key(values.last().bits) < total_key(before.bits) {
                Some(values.last())
            } else {
                Some(before)
            },
        }
    }
}

/// The last of the values with the greatest key.
pub open spec fn most(values: Seq<NumberModel>) -> Option<NumberModel>
    decreases values.len(),
{
    if values.len() == 0 {
        None
    } else {
        match most(values.drop_last()) {
            None => Some(values.last()),
            Some(before) => if total_key(values.last().bits) < total_key(before.bits) {
                Some(before)
            } else {
                Some(values.last())
            },
        }
    }
}

fn key_less(a: u64, b: u64) -> (r: bool)
    ensures
        r == (total_key(a) < total_key(b)),
{
    if a >= SIGN_WEIGHT {
        b < SIGN_WEIGHT || b < a
    } else {
        b < SIGN_WEIGHT && a < b
    }
}

/// The least and the greatest value by key.
fn extremes(values: &Vec<Number>) -> (r: (Option<Number>, Option<Number>))
    ensures
        optional_number(r.0) == least(number_views(values@)),
        optional_number(r.1) == most(number_views(values@)),
{
    let ghost all = number_views(values@);
    if values.len() == 0 {
        assert(all.len() == 0);
        return (None, None);
    }
    let mut low: usize = 0;
    let mut high: usize = 0;
    proof {
        reveal_with_fuel(least, 2);
        reveal_with_fuel(most, 2);
        let one = all.take(1);
        assert(one.drop_last() =~= Seq::empty());
        assert(one.last() == all[0]);
    }
    let mut i: usize = 1;
    while i < values.len()
        invariant
            1 <= i <= values.len(),
            low < i,
            high < i,
            all == number_views(values@),
            least(all.take(i as int)) == Some(all[low as int]),
            most(all.take(i as int)) == Some(all[high as int]),
        decreases values.len() - i,
    {
        proof {
            let done = all.take(i + 1);
            assert(done.drop_last() =~= all.take(i as int));
            assert(done.last() == all[i as int]);
        }
        if key_less(values[i].bits, values[low].bits) {
            low = i;
        }
        if !key_less(values[i].bits, values[high].bits) {
            high = i;
        }
        i += 1;
    }
    assert(all.take(i as int) =~= all);
    (Some(values[low].copy()), Some(values[high].copy()))
}

/// A finite number as JSON, else null.
pub open spec fn optional_json(value: Option<NumberModel>) -> Json {
    match value {
        Some(n) => if finite(n.bits) {
            Json::Float(n)
        } else {
            Json::Null
        },
        None => Json::Null,
    }
}

fn optional_float_value(value: &Option<Number>) -> (r: Value)
    ensures
        r@ == optional_json(optional_number(*value)),
{
    match value {
        Some(n) => if n.is_finite() {
            Value::Float(n.copy())
        } else {
            Value::Null
        },
        None => Value::Null,
    }
}

/// Whether a value is at most a bound.
pub open spec fn at_most(bound: NumberModel) -> spec_fn(NumberModel) -> bool {
    |n: NumberModel| less(n.bits, bound.bits) || equal_value(n.bits, bound.bits)
}

/// Whether a value is at least a bound.
pub open spec fn at_least(bound: NumberModel) -> spec_fn(NumberModel) -> bool {
    |n: NumberModel| less(bound.bits, n.bits) || equal_value(n.bits, bound.bits)
}

/// How many values pass by an observed one, as JSON.
pub open spec fn count_json(
    observed: Option<NumberModel>,
    values: Seq<NumberModel>,
    pass: spec_fn(NumberModel) -> spec_fn(NumberModel) -> bool,
) -> Json {
    match observed {
        Some(n) => Json::Int(passing(values, pass(n)) as i64),
        None => Json::Null,
    }
}

fn count_at_most(values: &Vec<Number>, bound: &Number) -> (r: usize)
    ensures
        r == passing(number_views(values@), at_most(bound@)),
{
    let ghost all = number_views(values@);
    let ghost pass = at_most(bound@);
    let mut out: usize = 0;
    assert(all.take(0) =~= Seq::empty());
    assert(passing(all.take(0), pass) == 0) by {
        reveal(Seq::filter);
    }
    let mut i: usize = 0;
    while i < values.len()
        invariant
            i <= values.len(),
            all == number_views(values@),
            pass == at_most(bound@),
            out == passing(all.take(i as int), pass),
            out <= i,
        decreases values.len() - i,
    {
        proof {
            lemma_passing_step(all, i as int, pass);
            assert(all[i as int] == values@[i as int]@);
        }
        if less_than(values[i].bits, bound.bits) || equals(values[i].bits, bound.bits) {
            out += 1;
        }
        i += 1;
    }
    assert(all.take(i as int) =~= all);
    out
}

fn count_at_least(values: &Vec<Number>, bound: &Number) -> (r: usize)
    ensures
        r == passing(number_views(values@), at_least(bound@)),
{
    let ghost all = number_views(values@);
    let ghost pass = at_least(bound@);
    let mut out: usize = 0;
    assert(all.take(0) =~= Seq::empty());
    assert(passing(all.take(0), pass) == 0) by {
        reveal(Seq::filter);
    }
    let mut i: usize = 0;
    while i < values.len()
        invariant
            i <= values.len(),
            all == number_views(values@),
            pass == at_least(bound@),
            out == passing(all.take(i as int), pass),
            out <= i,
        decreases values.len() - i,
    {
        proof {
            lemma_passing_step(all, i as int, pass);
            assert(all[i as int] == values@[i as int]@);
        }
        if less_than(bound.bits, values[i].bits) || equals(values[i].bits, bound.bits) {
            out += 1;
        }
        i += 1;
    }
    assert(all.take(i as int) =~= all);
    out
}

/// What a check found: the statistic of the observed values and of every replica, and the mean
/// over the replicas.
#[verifier::ext_equal]
pub struct Findings {
    pub observed: Option<NumberModel>,
    pub replicated: Seq<Option<NumberModel>>,
    pub mean: Option<NumberModel>,
}

/// The fields of a summary.
pub open spec fn summary_entries(f: Findings) -> Seq<(Seq<char>, Json)> {
    seq![
        ("observed"@, optional_json(f.observed)),
        ("replicated_mean"@, optional_json(f.mean)),
        ("replicated_min"@, optional_json(least(present(f.replicated)))),
        ("replicated_max"@, optional_json(most(present(f.replicated)))),
        (
            "count_replicated_less_equal_observed"@,
            count_json(f.observed, present(f.replicated), |n: NumberModel| at_most(n)),
        ),
        (
            "count_replicated_greater_equal_observed"@,
            count_json(f.observed, present(f.replicated), |n: NumberModel| at_least(n)),
        ),
        ("replicated_draw_count"@, Json::Int(f.replicated.len() as i64)),
        ("replicated_finite_stat_count"@, Json::Int(present(f.replicated).len() as i64)),
    ]
}

/// Whether findings can be those of a statistic over observed values and replicas.
pub open spec fn finds(
    moments: Moments,
    kind: Statistic,
    observed: Seq<NumberModel>,
    replicas: Seq<Seq<NumberModel>>,
    f: Findings,
) -> bool {
    &&& statistic_gives(moments, kind, observed, f.observed)
    &&& f.replicated.len() == replicas.len()
    &&& forall|i: int|
        0 <= i < replicas.len() ==> statistic_gives(
            moments,
            kind,
            replicas[i],
            #[trigger] f.replicated[i],
        )
    &&& statistic_gives(moments, Statistic::Mean, present(f.replicated), f.mean)
}

/// A summary of a statistic, with the mean over the replicas where there are any.
pub fn stat_summary_value<M: Fn(&Vec<Number>) -> Number, D: Fn(&Vec<Number>) -> Number>(
    observed: &Option<Number>,
    replicated: &Vec<Option<Number>>,
    mean: &M,
    sd: &D,
) -> (r: Value)
    requires
        forall|v: &Vec<Number>| #[trigger] call_requires(*mean, (v,)),
        forall|v: &Vec<Number>| #[trigger] call_requires(*sd, (v,)),
    ensures
        exists|over: Option<NumberModel>| #[trigger]
            statistic_gives(
                moments_of(*mean, *sd),
                Statistic::Mean,
                present(optional_views(replicated@)),
                over,
            ) && r@ == Json::Object(
                summary_entries(
                    Findings {
                        observed: optional_number(*observed),
                        replicated: optional_views(replicated@),
                        mean: over,
                    },
                ),
            ),
{
    let values: Vec<Number> = keep_present(replicated);
    let ghost kept = present(optional_views(replicated@));
    assert(kept.len() == values@.len());
    assert(optional_views(replicated@).len() == replicated@.len());
    let over: Option<Number> = statistic_value(Statistic::Mean, &values, mean, sd);
    let ghost f = Findings {
        observed: optional_number(*observed),
        replicated: optional_views(replicated@),
        mean: optional_number(over),
    };
    let ends: (Option<Number>, Option<Number>) = extremes(&values);
    let mut out: Fields = Fields::new();
    out.put("observed", optional_float_value(observed));
    out.put("replicated_mean", optional_float_value(&over));
    out.put("replicated_min", optional_float_value(&ends.0));
    out.put("replicated_max", optional_float_value(&ends.1));
    match observed {
        Some(bound) => {
            out.put_int(
                "count_replicated_less_equal_observed",
                count_at_most(&values, bound) as i64,
            );
            out.put_int(
                "count_replicated_greater_equal_observed",
                count_at_least(&values, bound) as i64,
            );
        },
        None => {
            out.put("count_replicated_less_equal_observed", Value::Null);
            out.put("count_replicated_greater_equal_observed", Value::Null);
        },
    }
    out.put_int("replicated_draw_count", replicated.len() as i64);
    out.put_int("replicated_finite_stat_count", values.len() as i64);
    assert(out@ =~= summary_entries(f));
    out.done()
}

} // verus!
