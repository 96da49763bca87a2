//! What a posterior check covers: every site with every statistic, observed against replicated.

use vstd::prelude::*;

#[allow(unused_imports)]
use crate::data::DataModel;
#[allow(unused_imports)]
use crate::error::Fault;
#[allow(unused_imports)]
use crate::json::Json;
#[allow(unused_imports)]
use crate::model::data_named;
#[allow(unused_imports)]
use crate::numerics::Arithmetic;
#[allow(unused_imports)]
use crate::tensor::TensorModel;

#[allow(unused_imports)]
use super::check::{
    check_entries, checks_extended, kinds_of, replicas, run_checked, site_checked, site_checks, site_findings,
    spread_checked,
};
#[allow(unused_imports)]
use super::records::RunModel;
#[allow(unused_imports)]
use super::statistics::{finds, Findings, Moments, Statistic};

verus! {

/// Whether one of the checks is that of a site by a statistic: with findings over the observed
/// values of its name, spread over its shape, and the values that it has in every draw.
pub open spec fn reported<A: Arithmetic>(
    ops: &A,
    moments: Moments,
    data: Seq<(Seq<char>, DataModel)>,
    m: RunModel,
    k: int,
    kind: Statistic,
    checks: Seq<Json>,
) -> bool {
    exists|f: Findings, t: TensorModel| #[trigger]
        finds(moments, kind, t.values, replicas(m, k), f) && (data_named(data, m.sites[k].name)
            matches Some(observed) && ops.spread_gives(
            TensorModel { shape: observed.shape, values: observed.values },
            m.sites[k].shape,
            Ok(t),
        )) && checks.contains(Json::Object(check_entries(m.sites[k], kind, f)))
}

proof fn lemma_site_reported<A: Arithmetic>(
    ops: &A,
    moments: Moments,
    data: Seq<(Seq<char>, DataModel)>,
    m: RunModel,
    k: int,
    checks: Seq<Json>,
)
    requires
        site_checked(ops, moments, data, m, k, Ok(checks)),
    ensures
        forall|j: int|
            0 <= j < kinds_of(m.sites[k].integer).len() ==> reported(
                ops,
                moments,
                data,
                m,
                k,
                #[trigger] kinds_of(m.sites[k].integer)[j],
                checks,
            ),
{
    let observed = data_named(data, m.sites[k].name)->0;
    let spread = choose|spread: Result<TensorModel, Fault>| #[trigger]
        ops.spread_gives(
            TensorModel { shape: observed.shape, values: observed.values },
            m.sites[k].shape,
            spread,
        ) && spread_checked(moments, m, k, observed, spread, Ok(checks));
    let t = spread->Ok_0;
    assert(spread == Ok::<TensorModel, Fault>(t));
    let found = choose|found: Seq<Findings>| #[trigger]
        site_findings(moments, m.sites[k], t.values, replicas(m, k), found) && checks
            == site_checks(m.sites[k], found);
    assert forall|j: int| 0 <= j < kinds_of(m.sites[k].integer).len() implies reported(
        ops,
        moments,
        data,
        m,
        k,
        #[trigger] kinds_of(m.sites[k].integer)[j],
        checks,
    ) by {
        let f = found[j];
        assert(finds(moments, kinds_of(m.sites[k].integer)[j], t.values, replicas(m, k), f));
        assert(checks[j] == Json::Object(
            check_entries(m.sites[k], kinds_of(m.sites[k].integer)[j], f),
        ));
    }
}

proof fn lemma_reported_stays<A: Arithmetic>(
    ops: &A,
    moments: Moments,
    data: Seq<(Seq<char>, DataModel)>,
    m: RunModel,
    k: int,
    kind: Statistic,
    some: Seq<Json>,
    before: Seq<Json>,
    behind: Seq<Json>,
)
    requires
        reported(ops, moments, data, m, k, kind, some),
    ensures
        reported(ops, moments, data, m, k, kind, before + some + behind),
{
    let (f, t) = choose|f: Findings, t: TensorModel| #[trigger]
        finds(moments, kind, t.values, replicas(m, k), f) && (data_named(data, m.sites[k].name)
            matches Some(observed) && ops.spread_gives(
            TensorModel { shape: observed.shape, values: observed.values },
            m.sites[k].shape,
            Ok(t),
        )) && some.contains(Json::Object(check_entries(m.sites[k], kind, f)));
    let check = Json::Object(check_entries(m.sites[k], kind, f));
    let p = choose|p: int| 0 <= p < some.len() && some[p] == check;
    assert((before + some + behind)[before.len() + p] == check);
    assert(finds(moments, kind, t.values, replicas(m, k), f));
}

/// Whether the checks of a site stand among others.
pub open spec fn fully_reported<A: Arithmetic>(
    ops: &A,
    moments: Moments,
    data: Seq<(Seq<char>, DataModel)>,
    m: RunModel,
    k: int,
    checks: Seq<Json>,
) -> bool {
    &&& reported(ops, moments, data, m, k, Statistic::Mean, checks)
    &&& reported(ops, moments, data, m, k, Statistic::Sd, checks)
    &&& reported(ops, moments, data, m, k, Statistic::Min, checks)
    &&& reported(ops, moments, data, m, k, Statistic::Max, checks)
    &&& m.sites[k].integer ==> reported(ops, moments, data, m, k, Statistic::ZeroCount, checks)
}

proof fn lemma_fully_reported_stays<A: Arithmetic>(
    ops: &A,
    moments: Moments,
    data: Seq<(Seq<char>, DataModel)>,
    m: RunModel,
    k: int,
    some: Seq<Json>,
    before: Seq<Json>,
    behind: Seq<Json>,
)
    requires
        fully_reported(ops, moments, data, m, k, some),
    ensures
        fully_reported(ops, moments, data, m, k, before + some + behind),
{
    lemma_reported_stays(ops, moments, data, m, k, Statistic::Mean, some, before, behind);
    lemma_reported_stays(ops, moments, data, m, k, Statistic::Sd, some, before, behind);
    lemma_reported_stays(ops, moments, data, m, k, Statistic::Min, some, before, behind);
    lemma_reported_stays(ops, moments, data, m, k, Statistic::Max, some, before, behind);
    if m.sites[k].integer {
        lemma_reported_stays(ops, moments, data, m, k, Statistic::ZeroCount, some, before, behind);
    }
}

/// Every site of a run is checked: its mean, standard deviation, least and greatest value, and of
/// integers how many are zero, each over what was observed under its name and over what it came to
/// in every draw.
pub proof fn law_every_site_is_checked<A: Arithmetic>(
    ops: &A,
    moments: Moments,
    data: Seq<(Seq<char>, DataModel)>,
    m: RunModel,
    n: nat,
    checks: Seq<Json>,
)
    requires
        n <= m.sites.len(),
        run_checked(ops, moments, data, m, n, Ok(checks)),
    ensures
        forall|k: int|
            0 <= k < n ==> #[trigger] fully_reported(ops, moments, data, m, k, checks),
        forall|k: int, i: int|
            0 <= i < m.draws.len() ==> (#[trigger] replicas(m, k)[i]) == m.draws[i][k].1.values,
    decreases n,
{
    if n > 0 {
        let out = Ok::<Seq<Json>, Fault>(checks);
        let (before, item) = choose|before: Seq<Json>, item: Result<Seq<Json>, Fault>| #[trigger]
            checks_extended(before, item, out) && run_checked(
                ops,
                moments,
                data,
                m,
                (n - 1) as nat,
                Ok(before),
            ) && site_checked(ops, moments, data, m, n - 1, item);
        let more = item->Ok_0;
        assert(item == Ok::<Seq<Json>, Fault>(more));
        law_every_site_is_checked(ops, moments, data, m, (n - 1) as nat, before);
        lemma_site_reported(ops, moments, data, m, n - 1, more);
        let kinds = kinds_of(m.sites[n - 1].integer);
        assert(kinds[0] == Statistic::Mean && kinds[1] == Statistic::Sd && kinds[2]
            == Statistic::Min && kinds[3] == Statistic::Max);
        if m.sites[n - 1].integer {
            assert(kinds[4] == Statistic::ZeroCount);
        }
        assert(fully_reported(ops, moments, data, m, n - 1, more));
        assert forall|k: int| 0 <= k < n implies #[trigger] fully_reported(
            ops,
            moments,
            data,
            m,
            k,
            checks,
        ) by {
            if k < n - 1 {
                lemma_fully_reported_stays(ops, moments, data, m, k, before, Seq::empty(), more);
                assert(Seq::<Json>::empty() + before + more =~= checks);
            } else {
                lemma_fully_reported_stays(ops, moments, data, m, k, more, before, Seq::empty());
                assert(before + more + Seq::<Json>::empty() =~= checks);
            }
        }
    }
}

} // verus!
