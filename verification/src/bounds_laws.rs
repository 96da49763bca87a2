//! What resolved bounds are: those of the data or else of the support, and within the support.

use vstd::prelude::*;

#[allow(unused_imports)]
use crate::bounds::{
    aligned, any_at_least, any_below, at_least, bounds_fault, distribution_edges, outside_support, resolved,
    uniform_edge, EdgesModel, ResolvedModel,
};
#[allow(unused_imports)]
use crate::data::DataModel;
#[allow(unused_imports)]
use crate::error::Fault;
#[allow(unused_imports)]
use crate::ir::{ConstraintModel, DistModel};
#[allow(unused_imports)]
use crate::model::data_named;
#[allow(unused_imports)]
use crate::number::{finite, less, nan, number_of_integer, order_key, NumberModel};
#[allow(unused_imports)]
use crate::tensor::TensorModel;

verus! {

/// Whether a side of vector bounds is what was asked for: the data of its name, finite and one
/// number for every entry, or else the edge of the support.
pub open spec fn side_from(
    name: Option<Seq<char>>,
    data: Seq<(Seq<char>, DataModel)>,
    length: usize,
    edge: Option<Seq<NumberModel>>,
    side: Option<Seq<NumberModel>>,
) -> bool {
    match name {
        None => side == edge,
        Some(found) => exists|value: DataModel|
            data_named(data, found) == Some(value) && value.shape == seq![length] && side == Some(
                #[trigger] value.values,
            ) && forall|i: int|
                0 <= i < value.values.len() ==> finite(#[trigger] value.values[i].bits),
    }
}

/// Vector bounds are resolved side by side: each from the data that it names, or from the edge of
/// the support on that side where it names none. Other constraints stay what they are.
pub proof fn law_bounds_come_from_data_or_support(
    free_name: Seq<char>,
    constraint: ConstraintModel,
    shape: Seq<usize>,
    edges: EdgesModel,
    data: Seq<(Seq<char>, DataModel)>,
    out: Option<ResolvedModel>,
)
    requires
        resolved(free_name, Some(constraint), shape, Ok(edges), data) == Ok::<
            Option<ResolvedModel>,
            Fault,
        >(out),
    ensures
        match constraint {
            ConstraintModel::Positive => out == Some(ResolvedModel::Positive),
            ConstraintModel::Interval { lower, upper } => out == Some(
                ResolvedModel::Interval { lower, upper },
            ),
            ConstraintModel::UnitInterval => out == Some(ResolvedModel::UnitInterval),
            ConstraintModel::Ordered => out == Some(ResolvedModel::Ordered),
            ConstraintModel::VectorBounds { lower, upper } => shape.len() == 1 && (out matches Some(
                ResolvedModel::VectorBounds { lower: low, upper: high },
            ) && side_from(lower, data, shape[0], edges.lower, low) && side_from(
                upper,
                data,
                shape[0],
                edges.upper,
                high,
            )),
        },
{
    if let ConstraintModel::VectorBounds { lower, upper } = constraint {
        if let Some(name) = lower {
            let value = data_named(data, name)->0;
            assert(value.shape =~= seq![shape[0]]);
            assert(out->0->VectorBounds_lower == Some(value.values));
        }
        if let Some(name) = upper {
            let value = data_named(data, name)->0;
            assert(value.shape =~= seq![shape[0]]);
            assert(out->0->VectorBounds_upper == Some(value.values));
        }
    }
}

/// Whether every entry lies no lower than another at its place, where the two compare.
pub open spec fn nowhere_below(a: Seq<NumberModel>, b: Seq<NumberModel>) -> bool {
    forall|i: int|
        0 <= i < a.len() && i < b.len() && !nan(a[i].bits) && !nan(b[i].bits) ==> order_key(
            b[i].bits,
        ) <= order_key(#[trigger] a[i].bits)
}

/// Resolved vector bounds lie within the support: neither side leaves it at any entry.
pub proof fn law_resolved_bounds_lie_within_the_support(
    free_name: Seq<char>,
    constraint: Option<ConstraintModel>,
    shape: Seq<usize>,
    edges: EdgesModel,
    data: Seq<(Seq<char>, DataModel)>,
    lower: Option<Seq<NumberModel>>,
    upper: Option<Seq<NumberModel>>,
)
    requires
        resolved(free_name, constraint, shape, Ok(edges), data) == Ok::<
            Option<ResolvedModel>,
            Fault,
        >(Some(ResolvedModel::VectorBounds { lower, upper })),
    ensures
        edges.lower is Some && lower is Some ==> nowhere_below(lower->0, edges.lower->0),
        edges.lower is Some && upper is Some ==> nowhere_below(upper->0, edges.lower->0),
        edges.upper is Some && lower is Some ==> nowhere_below(edges.upper->0, lower->0),
        edges.upper is Some && upper is Some ==> nowhere_below(edges.upper->0, upper->0),
{
    assert(!outside_support(lower, upper, edges));
    lemma_nowhere_below(lower, edges.lower);
    lemma_nowhere_below(upper, edges.lower);
    lemma_nowhere_below(edges.upper, lower);
    lemma_nowhere_below(edges.upper, upper);
}

proof fn lemma_nowhere_below(a: Option<Seq<NumberModel>>, b: Option<Seq<NumberModel>>)
    ensures
        a is Some && b is Some && !any_below(a->0, b->0) ==> nowhere_below(a->0, b->0),
{
    if a is Some && b is Some && !any_below(a->0, b->0) {
        let (x, y) = (a->0, b->0);
        assert forall|i: int|
            0 <= i < x.len() && i < y.len() && !nan(x[i].bits) && !nan(y[i].bits) implies order_key(
            y[i].bits,
        ) <= order_key(#[trigger] x[i].bits) by {
            assert(!less(x[i].bits, y[i].bits));
        }
    }
}

/// Bounds within the support that do not cross are resolved: nothing else is wrong with them.
pub proof fn law_sound_bounds_are_resolved(
    free_name: Seq<char>,
    lower: Option<Seq<NumberModel>>,
    upper: Option<Seq<NumberModel>>,
    edges: EdgesModel,
)
    requires
        lower is Some && upper is Some ==> forall|i: int|
            0 <= i < lower->0.len() && i < upper->0.len() ==> less(
                #[trigger] lower->0[i].bits,
                upper->0[i].bits,
            ),
        edges.lower is Some && lower is Some ==> nowhere_below(lower->0, edges.lower->0),
        edges.lower is Some && upper is Some ==> nowhere_below(upper->0, edges.lower->0),
        edges.upper is Some && lower is Some ==> nowhere_below(edges.upper->0, lower->0),
        edges.upper is Some && upper is Some ==> nowhere_below(edges.upper->0, upper->0),
        edges.lower is Some && edges.upper is Some && lower is Some ==> forall|i: int|
            0 <= i < lower->0.len() && i < edges.upper->0.len() ==> less(
                #[trigger] lower->0[i].bits,
                edges.upper->0[i].bits,
            ),
        edges.lower is Some && edges.upper is Some && upper is Some ==> forall|i: int|
            0 <= i < upper->0.len() && i < edges.lower->0.len() ==> less(
                edges.lower->0[i].bits,
                #[trigger] upper->0[i].bits,
            ),
    ensures
        bounds_fault(free_name, lower, upper, edges) is None,
{
    if lower is Some && upper is Some && any_at_least(lower->0, upper->0) {
        let i = choose|i: int|
            0 <= i < lower->0.len() && i < upper->0.len() && at_least(
                (#[trigger] lower->0[i]).bits,
                upper->0[i].bits,
            );
        assert(less(lower->0[i].bits, upper->0[i].bits));
    }
    if edges.lower is Some && edges.upper is Some {
        if lower is Some && any_at_least(lower->0, edges.upper->0) {
            let i = choose|i: int|
                0 <= i < lower->0.len() && i < edges.upper->0.len() && at_least(
                    (#[trigger] lower->0[i]).bits,
                    edges.upper->0[i].bits,
                );
            assert(less(lower->0[i].bits, edges.upper->0[i].bits));
        }
        if upper is Some && any_at_least(edges.lower->0, upper->0) {
            let i = choose|i: int|
                0 <= i < edges.lower->0.len() && i < upper->0.len() && at_least(
                    (#[trigger] edges.lower->0[i]).bits,
                    upper->0[i].bits,
                );
            assert(upper->0[i] == upper->0[i]);
            assert(less(edges.lower->0[i].bits, upper->0[i].bits));
        }
    }
}

/// Whether an edge is that number at every entry.
pub open spec fn everywhere(edge: Option<Seq<NumberModel>>, bits: u64, length: usize) -> bool {
    edge is Some && edge->0.len() == length && forall|i: int|
        0 <= i < length ==> (#[trigger] edge->0[i]).bits == bits
}

/// The support of an exponential or a half-normal distribution begins at zero, that of a beta
/// distribution also ends at one, and that of a uniform distribution is between its limits; no
/// other has an edge.
pub proof fn law_support_has_the_edges_of_its_distribution(
    d: DistModel,
    positions: Option<Seq<i64>>,
    low: TensorModel,
    high: TensorModel,
    length: usize,
    out: EdgesModel,
)
    requires
        distribution_edges(d, positions, Ok(Some(low)), Ok(Some(high)), length) == Ok::<
            EdgesModel,
            Fault,
        >(out),
    ensures
        match d {
            DistModel::Exponential { .. } => everywhere(out.lower, 0, length) && out.upper is None,
            DistModel::HalfNormal { .. } => everywhere(out.lower, 0, length) && out.upper is None,
            DistModel::Beta { .. } => everywhere(out.lower, 0, length) && everywhere(
                out.upper,
                0x3FF0_0000_0000_0000,
                length,
            ),
            DistModel::Uniform { .. } => edge_from(low, positions, length, out.lower) && edge_from(
                high,
                positions,
                length,
                out.upper,
            ),
            _ => out.lower is None && out.upper is None,
        },
{
    lemma_zero_and_one();
    if d is Uniform {
        lemma_edge_from(low, positions, length);
        lemma_edge_from(high, positions, length);
    }
}

proof fn lemma_zero_and_one()
    ensures
        number_of_integer(0).bits == 0,
        number_of_integer(1).bits == 0x3FF0_0000_0000_0000,
{
    reveal_with_fuel(crate::number::top_bit, 2);
    assert(number_of_integer(0).bits == 0);
    vstd::arithmetic::power2::lemma2_to64_rest();
    assert(crate::number::natural_bits(1) == 0x3FF0_0000_0000_0000);
    assert(number_of_integer(1).bits == 0x3FF0_0000_0000_0000);
}

/// Whether an edge is that of a limit: the one number at every entry, or entry by entry, at the
/// positions where there are some.
pub open spec fn edge_from(
    limit: TensorModel,
    positions: Option<Seq<i64>>,
    length: usize,
    edge: Option<Seq<NumberModel>>,
) -> bool {
    &&& edge is Some && edge->0.len() == length || limit.shape.len() == 1 && positions is None
    &&& if limit.shape.len() == 0 {
        forall|i: int| 0 <= i < length ==> #[trigger] edge->0[i] == limit.values[0]
    } else {
        match positions {
            Some(places) => places.len() == length && forall|i: int|
                0 <= i < length ==> 0 <= #[trigger] places[i] && (places[i] <= usize::MAX
                    ==> places[i] < limit.values.len() && edge->0[i]
                    == limit.values[places[i] as int]),
            None => edge == Some(limit.values),
        }
    }
}

proof fn lemma_edge_from(limit: TensorModel, positions: Option<Seq<i64>>, length: usize)
    ensures
        uniform_edge(Some(limit), positions, length) matches Ok(edge) ==> edge_from(
            limit,
            positions,
            length,
            edge,
        ),
{
    if let Some(places) = positions {
        if limit.shape.len() != 0 && aligned(limit.values, places) is Ok {
            law_aligned_entries_are_those_of_their_positions(
                limit.values,
                places,
                aligned(limit.values, places)->Ok_0,
            );
        }
    }
}

/// Aligned entries are those at their positions, one for each in order.
pub proof fn law_aligned_entries_are_those_of_their_positions(
    values: Seq<NumberModel>,
    positions: Seq<i64>,
    out: Seq<NumberModel>,
)
    requires
        aligned(values, positions) == Ok::<Seq<NumberModel>, Fault>(out),
    ensures
        out.len() == positions.len(),
        forall|i: int|
            0 <= i < positions.len() ==> 0 <= #[trigger] positions[i] && (positions[i]
                <= usize::MAX ==> positions[i] < values.len() && out[i]
                == values[positions[i] as int]),
    decreases positions.len(),
{
    if positions.len() > 0 {
        let prior = positions.drop_last();
        law_aligned_entries_are_those_of_their_positions(
            values,
            prior,
            aligned(values, prior)->Ok_0,
        );
        assert forall|i: int| 0 <= i < positions.len() implies 0 <= #[trigger] positions[i] && (
        positions[i] <= usize::MAX ==> positions[i] < values.len() && out[i]
            == values[positions[i] as int]) by {
            if i < prior.len() {
                assert(prior[i] == positions[i]);
            }
        }
    }
}

} // verus!
