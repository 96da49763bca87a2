//! Shared helpers for provisional workflow artifact metadata.

use vstd::prelude::*;

use crate::error::{invalid_settings, Error};
#[allow(unused_imports)]
use crate::error::{outcome, settings_fault, Fault};
use crate::json::Value;
#[allow(unused_imports)]
use crate::json::{entries_view, group_json_views, items_view, Json};
use crate::text;

verus! {

pub const V0_PROVISIONAL: &'static str = "v0-provisional";

pub const CHAIN_INDEX_BASE: &'static str = "zero_based_chain_id";

pub const WORKFLOW_FORMAT: &'static str = V0_PROVISIONAL;

pub const PARAMETER_SUMMARY_SCALE: &'static str = "constrained_parameter_value";

pub const POSTERIOR_DRAW_INDEX_BASE: &'static str = "zero_based_retained_draw_order";

pub const PRIOR_PREDICTIVE_DRAW_INDEX_BASE: &'static str = "zero_based_prior_predictive_draw_order";

pub const REPLICATE_INDEX_BASE: &'static str = "zero_based_replicate_order";

pub const SIMULATION_INDEX_BASE: &'static str = "zero_based_simulation_order";

pub const RHAT_STATISTIC: &'static str = "split_rhat";

pub const ESS_STATISTIC: &'static str = "effective_sample_size_geyer_initial_monotone_sequence";

/// What an artifact holds, and what it is conditioned on.
#[derive(Clone, Copy, Debug, Eq, PartialEq)]
pub struct ArtifactIdentity {
    pub kind: &'static str,
    pub scope: &'static str,
}

impl ArtifactIdentity {
    pub fn posterior_draws() -> (r: ArtifactIdentity)
        ensures
            r.kind@ == "posterior_draws"@,
            r.scope@ == "observed_data_conditioned_parameter_draws"@,
    {
        ArtifactIdentity {
            kind: "posterior_draws",
            scope: "observed_data_conditioned_parameter_draws",
        }
    }

    pub fn prior_predictive_draws() -> (r: ArtifactIdentity)
        ensures
            r.kind@ == "prior_predictive_draws"@,
            r.scope@ == "declared_data_conditioned_site_draws"@,
    {
        ArtifactIdentity {
            kind: "prior_predictive_draws",
            scope: "declared_data_conditioned_site_draws",
        }
    }

    pub fn posterior_predictive_draws() -> (r: ArtifactIdentity)
        ensures
            r.kind@ == "posterior_predictive_draws"@,
            r.scope@ == "observed_data_conditioned_replicated_observed_data_draws"@,
    {
        ArtifactIdentity {
            kind: "posterior_predictive_draws",
            scope: "observed_data_conditioned_replicated_observed_data_draws",
        }
    }
}

/// A field that marks the format of an artifact.
pub fn format_marker_field(name: &str) -> (r: (String, Value))
    ensures
        r.0@ == name@,
        r.1@ == Json::Str(V0_PROVISIONAL@),
{
    (name.to_owned(), Value::Str(V0_PROVISIONAL.to_owned()))
}

/// The fields that name an identity.
pub open spec fn identity_entries(identity: ArtifactIdentity) -> Seq<(Seq<char>, Json)> {
    seq![
        ("artifact_kind"@, Json::Str(identity.kind@)),
        ("artifact_scope"@, Json::Str(identity.scope@)),
    ]
}

pub fn artifact_identity_entries(identity: ArtifactIdentity) -> (r: Vec<(String, Value)>)
    ensures
        entries_view(r@) == identity_entries(identity),
{
    broadcast use group_json_views;

    let entries: Vec<(String, Value)> = vec![
        ("artifact_kind".to_owned(), Value::Str(identity.kind.to_owned())),
        ("artifact_scope".to_owned(), Value::Str(identity.scope.to_owned())),
    ];
    assert(entries_view(entries@) =~= identity_entries(identity));
    entries
}

/// A shape as a list of integers.
pub open spec fn shape_json(shape: Seq<usize>) -> Json {
    Json::Array(shape.map_values(|dim: usize| Json::Int(dim as i64)))
}

pub fn shape_value(shape: &[usize]) -> (r: Value)
    ensures
        r@ == shape_json(shape@),
{
    broadcast use group_json_views;

    let mut out: Vec<Value> = Vec::new();
    let mut i: usize = 0;
    while i < shape.len()
        invariant
            i <= shape.len(),
            out.len() == i,
            forall|j: int| 0 <= j < i ==> (#[trigger] out@[j])@ == Json::Int(shape@[j] as i64),
        decreases shape.len() - i,
    {
        out.push(Value::Int(shape[i] as i64));
        i += 1;
    }
    assert(items_view(out@) =~= shape_json(shape@)->Array_0);
    Value::Array(out)
}

/// The number of cells of a shape; one for a scalar.
pub open spec fn cells(shape: Seq<usize>) -> nat
    decreases shape.len(),
{
    if shape.len() == 0 {
        1
    } else {
        cells(shape.drop_last()) * shape.last() as nat
    }
}

/// The row-major coordinate of the cell with that number.
pub open spec fn coordinate(shape: Seq<usize>, flat: nat) -> Seq<usize>
    decreases shape.len(),
{
    if shape.len() == 0 {
        Seq::empty()
    } else {
        coordinate(shape.drop_last(), flat / shape.last() as nat).push(
            (flat % shape.last() as nat) as usize,
        )
    }
}

/// The coordinates of all cells, in row-major order.
pub open spec fn coordinate_order(shape: Seq<usize>) -> Json {
    if shape.contains(0) {
        Json::Array(Seq::empty())
    } else {
        Json::Array(Seq::new(cells(shape), |k: int| shape_json(coordinate(shape, k as nat))))
    }
}

pub proof fn lemma_cells_positive(shape: Seq<usize>)
    requires
        !shape.contains(0),
    ensures
        cells(shape) > 0,
    decreases shape.len(),
{
    if shape.len() > 0 {
        assert(!shape.drop_last().contains(0)) by {
            if shape.drop_last().contains(0) {
                let i = choose|i: int| 0 <= i < shape.drop_last().len() && shape.drop_last()[i] == 0;
                assert(shape[i] == 0);
            }
        }
        lemma_cells_positive(shape.drop_last());
        assert(shape.last() != 0) by {
            assert(shape[shape.len() - 1] == shape.last());
        }
        let a = cells(shape.drop_last());
        let b = shape.last() as nat;
        assert(a * b > 0) by (nonlinear_arith)
            requires
                a > 0,
                b > 0,
        ;
    }
}

/// The number of cells of every leading part of a shape stays below that of the whole.
pub proof fn lemma_cells_prefix(shape: Seq<usize>, n: int)
    requires
        !shape.contains(0),
        0 <= n <= shape.len(),
    ensures
        0 < cells(shape.take(n)) <= cells(shape),
    decreases shape.len() - n,
{
    if n == shape.len() {
        assert(shape.take(n) =~= shape);
        lemma_cells_positive(shape);
    } else {
        lemma_cells_prefix(shape, n + 1);
        let longer = shape.take(n + 1);
        assert(longer.drop_last() =~= shape.take(n));
        let a = cells(shape.take(n));
        assert(!shape.take(n).contains(0)) by {
            if shape.take(n).contains(0) {
                let i = choose|i: int| 0 <= i < n && shape.take(n)[i] == 0;
                assert(shape[i] == 0);
            }
        }
        lemma_cells_positive(shape.take(n));
        let b = shape[n] as nat;
        assert(b != 0) by {
            if b == 0 {
                assert(shape[n] == 0);
            }
        }
        assert(a <= a * b) by (nonlinear_arith)
            requires
                a > 0,
                b > 0,
        ;
    }
}

/// Multiplies the extents of a shape.
pub fn cell_count(shape: &[usize]) -> (r: usize)
    requires
        !shape@.contains(0),
        cells(shape@) <= usize::MAX,
    ensures
        r == cells(shape@),
        r > 0,
{
    let mut count: usize = 1;
    let mut i: usize = 0;
    while i < shape.len()
        invariant
            i <= shape.len(),
            !shape@.contains(0),
            cells(shape@) <= usize::MAX,
            count == cells(shape@.take(i as int)),
        decreases shape.len() - i,
    {
        proof {
            lemma_cells_prefix(shape@, i + 1);
            assert(shape@.take(i + 1).drop_last() =~= shape@.take(i as int));
        }
        count = count * shape[i];
        i += 1;
    }
    proof {
        assert(shape@.take(i as int) =~= shape@);
        lemma_cells_positive(shape@);
    }
    count
}

fn has_empty_axis(shape: &[usize]) -> (r: bool)
    ensures
        r == shape@.contains(0),
{
    let mut i: usize = 0;
    while i < shape.len()
        invariant
            i <= shape.len(),
            forall|j: int| 0 <= j < i ==> shape@[j] != 0,
        decreases shape.len() - i,
    {
        if shape[i] == 0 {
            assert(shape@[i as int] == 0);
            return true;
        }
        i += 1;
    }
    false
}

fn coordinate_of(shape: &[usize], flat: usize) -> (r: Vec<usize>)
    requires
        !shape@.contains(0),
    ensures
        r@ == coordinate(shape@, flat as nat),
{
    let mut out: Vec<usize> = Vec::new();
    let mut k: usize = 0;
    while k < shape.len()
        invariant
            k <= shape.len(),
            out.len() == k,
        decreases shape.len() - k,
    {
        out.push(0);
        k += 1;
    }
    let mut rest: usize = flat;
    let mut axis: usize = shape.len();
    proof {
        assert(shape@.take(axis as int) =~= shape@);
        assert(out@.skip(axis as int) =~= Seq::empty());
        assert(coordinate(shape@, flat as nat) =~= coordinate(shape@.take(axis as int), rest as nat)
            + out@.skip(axis as int));
    }
    while axis > 0
        invariant
            axis <= shape.len(),
            out.len() == shape.len(),
            !shape@.contains(0),
            coordinate(shape@, flat as nat) == coordinate(shape@.take(axis as int), rest as nat)
                + out@.skip(axis as int),
        decreases axis,
    {
        let ghost before = out@;
        let ghost longer = shape@.take(axis as int);
        let dim: usize = shape[axis - 1];
        proof {
            assert(shape@[axis - 1] != 0);
            assert(longer.last() == dim);
            assert(longer.drop_last() =~= shape@.take(axis - 1));
        }
        let ghost full_rest = rest as nat;
        out.set(axis - 1, rest % dim);
        rest = rest / dim;
        axis = axis - 1;
        proof {
            assert(out@.skip(axis as int) =~= seq![(full_rest % dim as nat) as usize] + before.skip(
                axis + 1,
            ));
            assert(coordinate(longer, full_rest) =~= coordinate(
                shape@.take(axis as int),
                rest as nat,
            ).push((full_rest % dim as nat) as usize));
            assert(coordinate(shape@, flat as nat) =~= coordinate(
                shape@.take(axis as int),
                rest as nat,
            ) + out@.skip(axis as int));
        }
    }
    assert(out@.skip(0) =~= out@);
    assert(coordinate(shape@.take(0), rest as nat) =~= Seq::empty());
    assert(out@ =~= coordinate(shape@, flat as nat));
    out
}

/// The coordinates of all cells of a shape, zero-based and row-major.
pub fn coordinate_order_value(shape: &[usize]) -> (r: Value)
    requires
        shape@.contains(0) || cells(shape@) <= usize::MAX,
    ensures
        r@ == coordinate_order(shape@),
{
    broadcast use group_json_views;

    if has_empty_axis(shape) {
        let none: Vec<Value> = Vec::new();
        assert(items_view(none@) =~= Seq::empty());
        return Value::Array(none);
    }
    let size: usize = cell_count(shape);
    let mut out: Vec<Value> = Vec::new();
    let mut flat: usize = 0;
    while flat < size
        invariant
            flat <= size,
            !shape@.contains(0),
            out.len() == flat,
            forall|k: int|
                0 <= k < flat ==> (#[trigger] out@[k])@ == shape_json(coordinate(shape@, k as nat)),
        decreases size - flat,
    {
        let place: Vec<usize> = coordinate_of(shape, flat);
        out.push(shape_value(place.as_slice()));
        flat += 1;
    }
    assert(items_view(out@) =~= coordinate_order(shape@)->Array_0);
    Value::Array(out)
}

/// The names of entries, in their order.
pub open spec fn entry_order<T>(entries: Seq<(String, T)>) -> Json {
    Json::Array(entries.map_values(|entry: (String, T)| Json::Str(entry.0@)))
}

pub fn entry_order_value<T>(entries: &[(String, T)]) -> (r: Value)
    ensures
        r@ == entry_order(entries@),
{
    broadcast use group_json_views;

    let mut out: Vec<Value> = Vec::new();
    let mut i: usize = 0;
    while i < entries.len()
        invariant
            i <= entries.len(),
            out.len() == i,
            forall|j: int| 0 <= j < i ==> (#[trigger] out@[j])@ == Json::Str(entries@[j].0@),
        decreases entries.len() - i,
    {
        out.push(Value::Str(entries[i].0.clone()));
        i += 1;
    }
    assert(items_view(out@) =~= entry_order(entries@)->Array_0);
    Value::Array(out)
}

/// Unsigned numbers as JSON integers.
pub open spec fn u64_order(values: Seq<u64>) -> Json {
    Json::Array(values.map_values(|n: u64| Json::Int(n as i64)))
}

pub fn u64_order_value(values: &[u64]) -> (r: Value)
    ensures
        r@ == u64_order(values@),
{
    broadcast use group_json_views;

    let mut out: Vec<Value> = Vec::new();
    let mut i: usize = 0;
    while i < values.len()
        invariant
            i <= values.len(),
            out.len() == i,
            forall|j: int| 0 <= j < i ==> (#[trigger] out@[j])@ == Json::Int(values@[j] as i64),
        decreases values.len() - i,
    {
        out.push(Value::Int(values[i] as i64));
        i += 1;
    }
    assert(items_view(out@) =~= u64_order(values@)->Array_0);
    Value::Array(out)
}

/// Signed numbers as JSON integers.
pub open spec fn i64_order(values: Seq<i64>) -> Json {
    Json::Array(values.map_values(|n: i64| Json::Int(n)))
}

pub fn i64_order_value(values: &[i64]) -> (r: Value)
    ensures
        r@ == i64_order(values@),
{
    broadcast use group_json_views;

    let mut out: Vec<Value> = Vec::new();
    let mut i: usize = 0;
    while i < values.len()
        invariant
            i <= values.len(),
            out.len() == i,
            forall|j: int| 0 <= j < i ==> (#[trigger] out@[j])@ == Json::Int(values@[j]),
        decreases values.len() - i,
    {
        out.push(Value::Int(values[i]));
        i += 1;
    }
    assert(items_view(out@) =~= i64_order(values@)->Array_0);
    Value::Array(out)
}

/// What reporting a count gives.
pub open spec fn reported_count(count: usize, context: Seq<char>) -> Result<Json, Fault> {
    if count > i64::MAX {
        Err(
            settings_fault(
                context
                    + " must be in 0..=9223372036854775807 because artifacts report counts as JSON integers"@,
            ),
        )
    } else {
        Ok(Json::Int(count as i64))
    }
}

pub fn report_count_value(count: usize, context: &str) -> (r: Result<Value, Error>)
    ensures
        outcome(r) == reported_count(count, context@),
{
    if count as u64 > 9_223_372_036_854_775_807u64 {
        Err(
            invalid_settings(
                text::cat2(
                    context,
                    " must be in 0..=9223372036854775807 because artifacts report counts as JSON integers",
                ),
            ),
        )
    } else {
        Ok(Value::Int(count as i64))
    }
}

} // verus!
