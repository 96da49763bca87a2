//! How entries are picked: draws evenly, and missing entries by their places.

use vstd::prelude::*;

#[allow(unused_imports)]
use crate::error::Fault;
#[allow(unused_imports)]
use crate::number::NumberModel;
#[allow(unused_imports)]
use crate::numerics::Randomness;
#[allow(unused_imports)]
use crate::tensor::TensorModel;

#[allow(unused_imports)]
use super::forward_laws::{lemma_scattered, place_of};
#[allow(unused_imports)]
use super::generate::{even_zone, index_drawn};
#[allow(unused_imports)]
use super::partial::{overlaid, picked, read_off, StepModel};

verus! {

/// The numbers that pick a place are as many for every place: what is added to turn one that picks
/// a place into one that picks another gives a number that is accepted just as well. Fewer
/// numbers than there are places are turned away.
pub proof fn law_every_place_is_picked_evenly(count: u64, value: u64, place: int)
    requires
        count > 0,
        value < even_zone(count),
        0 <= place < count,
    ensures
        ({
            let other = value - value % count + place;
            &&& 0 <= other < even_zone(count)
            &&& other % (count as int) == place
        }),
        u64::MAX - even_zone(count) < count,
{
    let zone = even_zone(count) as int;
    let c = count as int;
    let m = u64::MAX as int;
    let v = value as int;
    vstd::arithmetic::div_mod::lemma_fundamental_div_mod(m, c);
    vstd::arithmetic::div_mod::lemma_fundamental_div_mod(v, c);
    vstd::arithmetic::div_mod::lemma_mod_bound(m, c);
    vstd::arithmetic::div_mod::lemma_mod_bound(v, c);
    let (q, k) = (m / c, v / c);
    assert(zone == c * q);
    assert(k < q) by (nonlinear_arith)
        requires
            c * k <= v,
            v < c * q,
            c > 0,
    ;
    let other = c * k + place;
    assert(other < c * q) by (nonlinear_arith)
        requires
            k + 1 <= q,
            place < c,
            other == c * k + place,
            c > 0,
    ;
    assert(c * k == k * c) by (nonlinear_arith);
    vstd::arithmetic::div_mod::lemma_fundamental_div_mod_converse(other, c, k, place);
    assert(c * k >= 0) by (nonlinear_arith)
        requires
            c * k == v - v % c,
            v % c <= v,
    ;
}

/// A place that is picked is one of those there are, and an accepted number picked it.
pub proof fn law_picked_place_is_that_of_its_number<N: Randomness>(
    rand: &N,
    count: u64,
    tries: nat,
    source: N::Source,
    out: (usize, N::Source),
)
    requires
        0 < count <= usize::MAX,
        index_drawn(rand, count, tries, source, Ok(out)),
    ensures
        out.0 < count,
        exists|before: N::Source, value: u64| #[trigger]
            rand.integer_gives(before, value, out.1) && value < even_zone(count) && value % count
                == out.0,
    decreases tries,
{
    let done = Ok::<(usize, N::Source), Fault>(out);
    let (value, next) = choose|value: u64, next: N::Source| #[trigger]
        rand.integer_gives(source, value, next) && if value < even_zone(count) {
            done == Ok::<(usize, N::Source), Fault>(((value % count) as usize, next))
        } else {
            index_drawn(rand, count, (tries - 1) as nat, next, done)
        };
    assert(value % count < count);
    if value < even_zone(count) {
        assert(rand.integer_gives(source, value, out.1) && value % count == out.0);
    } else {
        law_picked_place_is_that_of_its_number(rand, count, (tries - 1) as nat, next, out);
    }
}

/// The entries read off a vector are those at their places, one for each in order.
pub proof fn law_entries_are_read_off_at_their_places(
    values: Seq<NumberModel>,
    positions: Seq<i64>,
    out: Seq<NumberModel>,
)
    requires
        values.len() <= usize::MAX,
        picked(values, positions, values.len() as usize) == Ok::<Seq<NumberModel>, Fault>(out),
    ensures
        out.len() == positions.len(),
        forall|i: int|
            0 <= i < positions.len() ==> 0 <= place_of(#[trigger] positions[i], values.len())
                < values.len() && out[i] == values[place_of(positions[i], values.len())],
    decreases positions.len(),
{
    if positions.len() > 0 {
        let prior = positions.drop_last();
        let before = picked(values, prior, values.len() as usize)->Ok_0;
        law_entries_are_read_off_at_their_places(values, prior, before);
        assert forall|i: int| 0 <= i < positions.len() implies 0 <= place_of(
            #[trigger] positions[i],
            values.len(),
        ) < values.len() && out[i] == values[place_of(positions[i], values.len())] by {
            if i < prior.len() {
                assert(prior[i] == positions[i]);
            }
        }
    }
}

/// What is drawn for the missing entries of a vector is what the vector then has at their places,
/// and every other entry stays: so it is where they are put in, if their places differ, and where
/// they are read off.
pub proof fn law_missing_entries_agree_with_the_vector<S>(
    site: Seq<char>,
    free_name: Seq<char>,
    value: TensorModel,
    positions: Seq<i64>,
    entries: TensorModel,
    after: S,
    out: (StepModel, S),
)
    requires
        value.values.len() <= usize::MAX,
        positions.len() == entries.values.len(),
        overlaid(site, free_name, value, positions, Ok((entries, after))) == Ok::<
            (StepModel, S),
            Fault,
        >(out) && (forall|i: int, j: int|
            #![trigger positions[i], positions[j]]
            0 <= i < j < positions.len() ==> place_of(positions[i], value.values.len()) != place_of(
                positions[j],
                value.values.len(),
            )) || read_off(
            site,
            free_name,
            value,
            positions,
            value.values.len() as usize,
            after,
        ) == Ok::<(StepModel, S), Fault>(out),
    ensures
        out.0.name == free_name,
        out.1 == after,
        out.0.value.shape == value.shape,
        out.0.value.values.len() == value.values.len(),
        out.0.given.values.len() == positions.len(),
        forall|i: int|
            0 <= i < positions.len() ==> out.0.given.values[i] == out.0.value.values[place_of(
                #[trigger] positions[i],
                value.values.len(),
            )],
        forall|k: int|
            0 <= k < value.values.len() && (forall|j: int|
                0 <= j < positions.len() ==> #[trigger] place_of(
                    positions[j],
                    value.values.len(),
                ) != k) ==> #[trigger] out.0.value.values[k] == value.values[k],
{
    let n = value.values.len();
    if read_off(site, free_name, value, positions, n as usize, after) == Ok::<
        (StepModel, S),
        Fault,
    >(out) {
        let there = picked(value.values, positions, n as usize)->Ok_0;
        law_entries_are_read_off_at_their_places(value.values, positions, there);
    } else {
        lemma_scattered(value.values, positions, entries.values);
        assert forall|i: int| 0 <= i < positions.len() implies out.0.given.values[i]
            == out.0.value.values[place_of(#[trigger] positions[i], n)] by {
            assert forall|j: int| i < j < positions.len() implies #[trigger] place_of(
                positions[j],
                n,
            ) != place_of(positions[i], n) by {
                assert(positions[j] == positions[j]);
            }
        }
    }
}

} // verus!
