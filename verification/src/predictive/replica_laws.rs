//! What holds of every posterior-predictive run.

use vstd::prelude::*;

#[allow(unused_imports)]
use crate::error::Fault;
#[allow(unused_imports)]
use crate::identity::identity_hash;
#[allow(unused_imports)]
use crate::json::Json;
#[allow(unused_imports)]
use crate::numerics::{Arithmetic, Randomness};
#[allow(unused_imports)]
use crate::investigation::host::packs;
#[allow(unused_imports)]
use crate::tensor::TensorModel;

#[allow(unused_imports)]
use super::fit::{stream_read, FitModel};
#[allow(unused_imports)]
use super::forward::EnvModel;
#[allow(unused_imports)]
use super::partial::StepModel;
#[allow(unused_imports)]
use super::prior::{all_described, row_extended, RowModel};
#[allow(unused_imports)]
use super::records::RunModel;
#[allow(unused_imports)]
use super::replicate::{
    drawn_values, fit_replicated, packing_replicated, posterior_replicated, replica_extended, replica_of, replica_plan,
    row_replicated, rows_replicated, site_replicated, source_draws, source_replicated, ReplicaInputs, ReplicaModel, ReplicaPlan,
};

verus! {

proof fn lemma_row_described<A: Arithmetic, N: Randomness>(
    ops: &A,
    rand: &N,
    plan: ReplicaPlan,
    posterior: Seq<(Seq<char>, TensorModel)>,
    n: nat,
    source: N::Source,
    out: Result<(RowModel, N::Source), Fault>,
)
    requires
        row_replicated(ops, rand, plan, posterior, n, source, out),
        out is Ok,
    ensures
        all_described(out->Ok_0.0.values, out->Ok_0.0.records),
        out->Ok_0.0.records.len() == n,
    decreases n,
{
    if n > 0 {
        let (before, item) = choose|
            before: (RowModel, N::Source),
            item: Result<(StepModel, N::Source), Fault>,
        | #[trigger]
            row_extended(before, item, out) && row_replicated(
                ops,
                rand,
                plan,
                posterior,
                (n - 1) as nat,
                source,
                Ok(before),
            ) && site_replicated(
                ops,
                rand,
                plan.data,
                EnvModel { values: before.0.seen, data: plan.declared },
                plan.found[n - 1].0,
                plan.sites[plan.found[n - 1].1],
                before.1,
                item,
            );
        lemma_row_described(ops, rand, plan, posterior, (n - 1) as nat, source, Ok(before));
    }
}

proof fn lemma_rows_described<A: Arithmetic, N: Randomness>(
    ops: &A,
    rand: &N,
    plan: ReplicaPlan,
    fit: FitModel,
    n: nat,
    source: N::Source,
    out: Result<(RunModel, N::Source), Fault>,
)
    requires
        rows_replicated(ops, rand, plan, fit, n, source, out),
        out is Ok,
    ensures
        out->Ok_0.0.draws.len() == n,
        n > 0 ==> out->Ok_0.0.sites.len() == plan.found.len(),
        forall|i: int|
            0 <= i < n ==> all_described(#[trigger] out->Ok_0.0.draws[i], out->Ok_0.0.sites),
    decreases n,
{
    if n > 0 {
        let (before, row) = choose|
            before: (RunModel, N::Source),
            row: Result<(RowModel, N::Source), Fault>,
        | #[trigger]
            replica_extended(before, row, out) && rows_replicated(
                ops,
                rand,
                plan,
                fit,
                (n - 1) as nat,
                source,
                Ok(before),
            ) && row_replicated(
                ops,
                rand,
                plan,
                drawn_values(fit.params, fit.draws[n - 1]),
                plan.found.len(),
                before.1,
                row,
            );
        lemma_rows_described(ops, rand, plan, fit, (n - 1) as nat, source, Ok(before));
        lemma_row_described(
            ops,
            rand,
            plan,
            drawn_values(fit.params, fit.draws[n - 1]),
            plan.found.len(),
            before.1,
            row,
        );
    }
}

/// A posterior-predictive run replicates every retained draw once, says of each replica which
/// draw it came from, and every replica holds, in the order of the records, a value of the
/// recorded name and shape.
pub proof fn law_every_replica_has_the_recorded_sites<A: Arithmetic, N: Randomness>(
    ops: &A,
    rand: &N,
    reading: spec_fn(Seq<char>, Result<Json, Fault>) -> bool,
    inputs: ReplicaInputs,
    seed: u64,
    m: ReplicaModel,
)
    requires
        posterior_replicated(ops, rand, reading, inputs, seed, Ok(m)),
    ensures
        m.run.draws.len() == m.source_draws.len(),
        forall|i: int|
            0 <= i < m.run.draws.len() ==> all_described(#[trigger] m.run.draws[i], m.run.sites),
{
    let out = Ok::<ReplicaModel, Fault>(m);
    let packing = choose|packing: Result<Seq<(Seq<char>, Seq<usize>)>, Fault>| #[trigger]
        packs(ops, inputs.meta, inputs.data, packing) && packing_replicated(
            ops,
            rand,
            reading,
            inputs,
            seed,
            packing,
            out,
        );
    let layout = packing->Ok_0;
    let fit = choose|fit: Result<FitModel, Fault>| #[trigger]
        stream_read(
            reading,
            inputs.fit,
            layout,
            identity_hash(inputs.model_text, inputs.data),
            inputs.fingerprint,
            fit,
        ) && fit_replicated(ops, rand, inputs.meta, inputs.data, seed, fit, out);
    let stream = fit->Ok_0;
    let plan = replica_plan(inputs.meta, inputs.data)->Ok_0;
    let source = choose|source: N::Source| #[trigger]
        rand.start_gives(seed, source) && source_replicated(ops, rand, plan, stream, source, out);
    let end = choose|end: Result<(RunModel, N::Source), Fault>| #[trigger]
        rows_replicated(ops, rand, plan, stream, stream.draws.len(), source, end) && out
            == replica_of(stream, end);
    lemma_rows_described(ops, rand, plan, stream, stream.draws.len(), source, end);
    assert(source_draws(stream.draws).len() == stream.draws.len());
}

} // verus!
