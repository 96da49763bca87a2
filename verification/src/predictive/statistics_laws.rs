//! What the statistics of checks say of the values they are taken from.

use vstd::prelude::*;

#[allow(unused_imports)]
use crate::number::{
    equal_value, finite, less, nan, number_of_integer, order_key, NumberModel,
    INFINITY_BITS,
};

#[allow(unused_imports)]
use super::statistics::{
    at_least, at_most, greatest, least, most, passing, present, smallest, statistic_gives, total_key, Moments,
    Statistic,
};

verus! {

/// Whether a number lies below infinity and above its negative.
pub open spec fn ordinary(values: Seq<NumberModel>) -> bool {
    forall|i: int| 0 <= i < values.len() ==> finite(#[trigger] values[i].bits)
}

proof fn lemma_smallest(values: Seq<NumberModel>)
    ensures
        !nan(smallest(values).bits),
        forall|i: int|
            0 <= i < values.len() ==> !less(#[trigger] values[i].bits, smallest(values).bits),
        values.contains(smallest(values)) || smallest(values).bits == INFINITY_BITS,
    decreases values.len(),
{
    if values.len() > 0 {
        let before = values.drop_last();
        lemma_smallest(before);
        assert forall|i: int| 0 <= i < values.len() implies !less(
            #[trigger] values[i].bits,
            smallest(values).bits,
        ) by {
            if i < before.len() {
                assert(before[i] == values[i]);
            }
        }
        if before.contains(smallest(before)) {
            let k = choose|k: int| 0 <= k < before.len() && before[k] == smallest(before);
            assert(values[k] == smallest(before));
        }
        assert(values[values.len() - 1] == values.last());
    }
}

proof fn lemma_greatest(values: Seq<NumberModel>)
    ensures
        !nan(greatest(values).bits),
        forall|i: int|
            0 <= i < values.len() ==> !less(greatest(values).bits, #[trigger] values[i].bits),
        values.contains(greatest(values)) || order_key(greatest(values).bits) == -(
        INFINITY_BITS as int),
    decreases values.len(),
{
    if values.len() > 0 {
        let before = values.drop_last();
        lemma_greatest(before);
        assert forall|i: int| 0 <= i < values.len() implies !less(
            greatest(values).bits,
            #[trigger] values[i].bits,
        ) by {
            if i < before.len() {
                assert(before[i] == values[i]);
            }
        }
        if before.contains(greatest(before)) {
            let k = choose|k: int| 0 <= k < before.len() && before[k] == greatest(before);
            assert(values[k] == greatest(before));
        }
        assert(values[values.len() - 1] == values.last());
    }
}

/// The minimum and the maximum of finite values are among them, and none of them lies below the
/// one or above the other.
pub proof fn law_extremes_bound_the_values(
    moments: Moments,
    values: Seq<NumberModel>,
    low: Option<NumberModel>,
    high: Option<NumberModel>,
)
    requires
        values.len() > 0,
        ordinary(values),
        statistic_gives(moments, Statistic::Min, values, low),
        statistic_gives(moments, Statistic::Max, values, high),
    ensures
        low is Some && values.contains(low->0),
        high is Some && values.contains(high->0),
        forall|i: int|
            0 <= i < values.len() ==> order_key(low->0.bits) <= order_key(
                #[trigger] values[i].bits,
            ) <= order_key(high->0.bits),
{
    lemma_smallest(values);
    lemma_greatest(values);
    assert(finite(values[0].bits));
    assert(!less(values[0].bits, smallest(values).bits));
    assert(!less(greatest(values).bits, values[0].bits));
    assert forall|i: int| 0 <= i < values.len() implies order_key(low->0.bits) <= order_key(
        #[trigger] values[i].bits,
    ) <= order_key(high->0.bits) by {
        assert(finite(values[i].bits));
        assert(!less(values[i].bits, smallest(values).bits));
    }
}

/// The number of indices at which values pass.
pub open spec fn tally(values: Seq<NumberModel>, pass: spec_fn(NumberModel) -> bool) -> Set<int> {
    Set::new(|i: int| 0 <= i < values.len() && pass(values[i]))
}

proof fn lemma_tally(values: Seq<NumberModel>, pass: spec_fn(NumberModel) -> bool)
    ensures
        tally(values, pass).finite(),
        tally(values, pass).len() == values.filter(pass).len(),
    decreases values.len(),
{
    reveal(Seq::filter);
    if values.len() == 0 {
        assert(tally(values, pass) =~= Set::empty());
    } else {
        let before = values.drop_last();
        lemma_tally(before, pass);
        let last = values.len() - 1;
        if pass(values.last()) {
            assert(tally(values, pass) =~= tally(before, pass).insert(last));
        } else {
            assert(tally(values, pass) =~= tally(before, pass));
        }
    }
}

/// The zero count is the number of places at which a value is zero, of either sign.
pub proof fn law_zero_count_counts_zeros(
    moments: Moments,
    values: Seq<NumberModel>,
    out: Option<NumberModel>,
)
    requires
        statistic_gives(moments, Statistic::ZeroCount, values, out),
        values.len() <= i64::MAX,
    ensures
        ({
            let places = Set::new(|i: int| 0 <= i < values.len() && order_key(values[i].bits) == 0);
            &&& places.finite()
            &&& out == Some(number_of_integer(places.len() as int))
        }),
{
    let pass = |n: NumberModel| equal_value(n.bits, 0);
    lemma_tally(values, pass);
    values.lemma_filter_len(pass);
    let places = Set::new(|i: int| 0 <= i < values.len() && order_key(values[i].bits) == 0);
    assert(places =~= tally(values, pass));
}

/// Of finite values, those at most as great as a bound and those at least as great are all of them,
/// those equal to it counted twice; and each count grows with the side it counts.
pub proof fn law_tail_counts_share_the_ties(values: Seq<NumberModel>, bound: NumberModel)
    requires
        ordinary(values),
        finite(bound.bits),
    ensures
        passing(values, at_most(bound)) + passing(values, at_least(bound)) == values.len()
            + passing(values, |n: NumberModel| order_key(n.bits) == order_key(bound.bits)),
        forall|other: NumberModel|
            finite(other.bits) && order_key(bound.bits) <= order_key(#[trigger] other.bits)
                ==> passing(values, at_most(bound)) <= passing(values, at_most(other))
                && passing(values, at_least(other)) <= passing(values, at_least(bound)),
        (forall|i: int| 0 <= i < values.len() ==> order_key(#[trigger] values[i].bits) < order_key(
            bound.bits,
        )) ==> passing(values, at_most(bound)) == values.len() && passing(values, at_least(bound))
            == 0,
    decreases values.len(),
{
    reveal(Seq::filter);
    let ties = |n: NumberModel| order_key(n.bits) == order_key(bound.bits);
    if values.len() > 0 {
        let before = values.drop_last();
        assert(finite(values[values.len() - 1].bits));
        assert(ordinary(before)) by {
            assert forall|i: int| 0 <= i < before.len() implies finite(
                #[trigger] before[i].bits,
            ) by {
                assert(before[i] == values[i]);
            }
        }
        law_tail_counts_share_the_ties(before, bound);
        assert forall|other: NumberModel|
            finite(other.bits) && order_key(bound.bits) <= order_key(
                #[trigger] other.bits,
            ) implies passing(values, at_most(bound)) <= passing(values, at_most(other)) && passing(
            values,
            at_least(other),
        ) <= passing(values, at_least(bound)) by {
            assert(passing(before, at_most(bound)) <= passing(before, at_most(other)));
        }
        if forall|i: int|
            0 <= i < values.len() ==> order_key(#[trigger] values[i].bits) < order_key(bound.bits) {
            assert forall|i: int| 0 <= i < before.len() implies order_key(
                #[trigger] before[i].bits,
            ) < order_key(bound.bits) by {
                assert(before[i] == values[i]);
            }
        }
    }
}

proof fn lemma_least(values: Seq<NumberModel>)
    ensures
        values.len() == 0 <==> least(values) is None,
        values.len() == 0 <==> most(values) is None,
        values.len() > 0 ==> values.contains(least(values)->0) && values.contains(most(values)->0),
        forall|i: int|
            0 <= i < values.len() ==> total_key(least(values)->0.bits) <= total_key(
                #[trigger] values[i].bits,
            ) <= total_key(most(values)->0.bits),
    decreases values.len(),
{
    if values.len() > 0 {
        let before = values.drop_last();
        lemma_least(before);
        assert forall|i: int| 0 <= i < values.len() implies total_key(least(values)->0.bits)
            <= total_key(#[trigger] values[i].bits) <= total_key(most(values)->0.bits) by {
            if i < before.len() {
                assert(before[i] == values[i]);
            }
        }
        if before.len() > 0 {
            let a = choose|k: int| 0 <= k < before.len() && before[k] == least(before)->0;
            let b = choose|k: int| 0 <= k < before.len() && before[k] == most(before)->0;
            assert(values[a] == least(before)->0 && values[b] == most(before)->0);
        }
        assert(values[values.len() - 1] == values.last());
    }
}

/// The key that orders all patterns orders finite ones as their numbers are ordered.
proof fn lemma_keys_agree(a: u64, b: u64)
    requires
        finite(a),
        finite(b),
        total_key(a) <= total_key(b),
    ensures
        order_key(a) <= order_key(b),
{
}

/// The extremes of finite replicated statistics are among them and bound them.
pub proof fn law_replicated_extremes_bound_the_replicas(replicated: Seq<Option<NumberModel>>)
    requires
        ordinary(present(replicated)),
        present(replicated).len() > 0,
    ensures
        ({
            let there = present(replicated);
            &&& there.contains(least(there)->0) && there.contains(most(there)->0)
            &&& forall|i: int|
                0 <= i < there.len() ==> order_key(least(there)->0.bits) <= order_key(
                    #[trigger] there[i].bits,
                ) <= order_key(most(there)->0.bits)
        }),
{
    let there = present(replicated);
    lemma_least(there);
    assert forall|i: int| 0 <= i < there.len() implies order_key(least(there)->0.bits) <= order_key(
        #[trigger] there[i].bits,
    ) <= order_key(most(there)->0.bits) by {
        let a = choose|k: int| 0 <= k < there.len() && there[k] == least(there)->0;
        let b = choose|k: int| 0 <= k < there.len() && there[k] == most(there)->0;
        assert(finite(there[a].bits) && finite(there[b].bits) && finite(there[i].bits));
        assert(total_key(least(there)->0.bits) <= total_key(there[i].bits));
        lemma_keys_agree(least(there)->0.bits, there[i].bits);
        lemma_keys_agree(there[i].bits, most(there)->0.bits);
    }
}

/// Nothing is missing among what is present, and its order is kept: where every statistic is there,
/// all of them are present in order, and where none is, nothing is.
pub proof fn law_present_keeps_what_there_is(values: Seq<Option<NumberModel>>)
    ensures
        present(values).len() == values.filter(|v: Option<NumberModel>| v is Some).len(),
        forall|n: NumberModel| #[trigger]
            present(values).contains(n) <==> values.contains(Some(n)),
        (forall|i: int| 0 <= i < values.len() ==> (#[trigger] values[i]) is Some) ==> present(
            values,
        ) == values.map_values(|v: Option<NumberModel>| v->0),
    decreases values.len(),
{
    reveal(Seq::filter);
    if values.len() > 0 {
        let before = values.drop_last();
        law_present_keeps_what_there_is(before);
        assert forall|n: NumberModel| #[trigger]
            present(values).contains(n) <==> values.contains(Some(n)) by {
            if present(values).contains(n) {
                let k = choose|k: int| 0 <= k < present(values).len() && present(values)[k] == n;
                if k < present(before).len() {
                    assert(present(before)[k] == n);
                    assert(present(before).contains(n));
                    let j = choose|j: int| 0 <= j < before.len() && before[j] == Some(n);
                    assert(values[j] == Some(n));
                } else {
                    assert(values[values.len() - 1] == Some(n));
                }
            }
            if values.contains(Some(n)) {
                let j = choose|j: int| 0 <= j < values.len() && values[j] == Some(n);
                if j < before.len() {
                    assert(before[j] == Some(n));
                    assert(present(before).contains(n));
                    let k = choose|k: int|
                        0 <= k < present(before).len() && present(before)[k] == n;
                    assert(present(values)[k] == n);
                } else {
                    assert(present(values)[present(before).len() as int] == n);
                }
            }
        }
        if forall|i: int| 0 <= i < values.len() ==> (#[trigger] values[i]) is Some {
            assert forall|i: int| 0 <= i < before.len() implies (#[trigger] before[i]) is Some by {
                assert(values[i] is Some);
            }
            assert(values[values.len() - 1] is Some);
            assert(present(values) =~= values.map_values(|v: Option<NumberModel>| v->0));
        }
    } else {
        assert(present(values) =~= values.map_values(|v: Option<NumberModel>| v->0));
    }
}

} // verus!
