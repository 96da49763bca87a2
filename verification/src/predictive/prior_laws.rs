//! What holds of prior-predictive runs of different lengths.

use vstd::prelude::*;

#[allow(unused_imports)]
use crate::data::DataModel;
#[allow(unused_imports)]
use crate::error::Fault;
#[allow(unused_imports)]
use crate::ir::{resolved_sites, MetaModel, SiteModel};
#[allow(unused_imports)]
use crate::numerics::{Arithmetic, Randomness};

#[allow(unused_imports)]
use super::prior::{
    laid_simulated, prior_extended, prior_simulated, row_drawn, rows_drawn, run_of, source_simulated, RowModel,
};
#[allow(unused_imports)]
use super::records::RunModel;
#[allow(unused_imports)]
use super::setup::{specs_laid, FreeSpecModel};
#[allow(unused_imports)]
use super::steady::{law_prior_simulation_is_a_function_of_its_seed, steady_ops, steady_rand};

verus! {

/// The first draws of a run.
pub open spec fn first_draws(run: RunModel, n: nat) -> RunModel {
    RunModel { sites: run.sites, draws: run.draws.take(n as int) }
}

proof fn lemma_fewer_rows<A: Arithmetic, N: Randomness>(
    ops: &A,
    rand: &N,
    specs: Seq<(Seq<char>, FreeSpecModel)>,
    data: Seq<(Seq<char>, DataModel)>,
    sites: Seq<SiteModel>,
    n: nat,
    m: nat,
    source: N::Source,
    end: (RunModel, N::Source),
) -> (after: N::Source)
    requires
        1 <= n <= m,
        rows_drawn(ops, rand, specs, data, sites, m, source, Ok(end)),
    ensures
        end.0.draws.len() == m,
        rows_drawn(
            ops,
            rand,
            specs,
            data,
            sites,
            n,
            source,
            Ok((first_draws(end.0, n), after)),
        ),
    decreases m,
{
    let out = Ok::<(RunModel, N::Source), Fault>(end);
    let (before, row) = choose|
        before: (RunModel, N::Source),
        row: Result<(RowModel, N::Source), Fault>,
    | #[trigger]
        prior_extended(before, row, out) && rows_drawn(
            ops,
            rand,
            specs,
            data,
            sites,
            (m - 1) as nat,
            source,
            Ok(before),
        ) && row_drawn(ops, rand, specs, data, sites, before.1, row);
    if m > 1 {
        let shorter = if n < m { n } else { (m - 1) as nat };
        let after = lemma_fewer_rows(
            ops,
            rand,
            specs,
            data,
            sites,
            shorter,
            (m - 1) as nat,
            source,
            before,
        );
        if n < m {
            assert(end.0.draws.take(n as int) =~= before.0.draws.take(n as int));
            assert(end.0.sites == before.0.sites);
            return after;
        }
    }
    assert(end.0.draws.take(n as int) =~= end.0.draws);
    assert(first_draws(end.0, n) == end.0);
    end.1
}

/// Whenever a run can come about, its first draws are a run that so many draws from the same seed
/// can come to.
pub proof fn law_first_draws_are_a_shorter_run<A: Arithmetic, N: Randomness>(
    ops: &A,
    rand: &N,
    meta: MetaModel,
    data: Seq<(Seq<char>, DataModel)>,
    n: nat,
    m: nat,
    seed: u64,
    run: RunModel,
)
    requires
        1 <= n <= m,
        prior_simulated(ops, rand, meta, data, m, seed, Ok(run)),
    ensures
        prior_simulated(ops, rand, meta, data, n, seed, Ok(first_draws(run, n))),
{
    let out = Ok::<RunModel, Fault>(run);
    let specs = choose|specs: Result<Seq<(Seq<char>, FreeSpecModel)>, Fault>| #[trigger]
        specs_laid(ops, meta, data, specs) && laid_simulated(
            ops,
            rand,
            meta,
            data,
            m,
            seed,
            specs,
            out,
        );
    let laid = specs->Ok_0;
    let sites = resolved_sites(meta);
    let source = choose|source: N::Source| #[trigger]
        rand.start_gives(seed, source) && source_simulated(
            ops,
            rand,
            laid,
            data,
            sites,
            m,
            source,
            out,
        );
    let end = choose|end: Result<(RunModel, N::Source), Fault>| #[trigger]
        rows_drawn(ops, rand, laid, data, sites, m, source, end) && out == run_of(end);
    let after = lemma_fewer_rows(ops, rand, laid, data, sites, n, m, source, end->Ok_0);
    let short = Ok::<(RunModel, N::Source), Fault>((first_draws(run, n), after));
    assert(rows_drawn(ops, rand, laid, data, sites, n, source, short));
    assert(run_of(short) == Ok::<RunModel, Fault>(first_draws(run, n)));
    assert(source_simulated(
        ops,
        rand,
        laid,
        data,
        sites,
        n,
        source,
        Ok(first_draws(run, n)),
    ));
    assert(laid_simulated(
        ops,
        rand,
        meta,
        data,
        n,
        seed,
        specs,
        Ok(first_draws(run, n)),
    ));
}

/// Over services that give one answer to one question, a run is the beginning of every longer run
/// from the same model, data and seed: it has the same sites, and its draws are the first ones.
pub proof fn law_shorter_run_is_a_prefix<A: Arithmetic, N: Randomness>(
    ops: &A,
    rand: &N,
    meta: MetaModel,
    data: Seq<(Seq<char>, DataModel)>,
    n: nat,
    m: nat,
    seed: u64,
    long: RunModel,
    short: Result<RunModel, Fault>,
)
    requires
        steady_ops(ops),
        steady_rand(rand),
        1 <= n <= m,
        prior_simulated(ops, rand, meta, data, m, seed, Ok(long)),
        prior_simulated(ops, rand, meta, data, n, seed, short),
    ensures
        short == Ok::<RunModel, Fault>(first_draws(long, n)),
{
    law_first_draws_are_a_shorter_run(ops, rand, meta, data, n, m, seed, long);
    law_prior_simulation_is_a_function_of_its_seed(
        ops,
        rand,
        meta,
        data,
        n,
        seed,
        short,
        Ok(first_draws(long, n)),
    );
}

} // verus!
