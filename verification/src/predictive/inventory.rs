//! The inventory of sites: every declaration owns exactly one site, and no site is left over.

use vstd::prelude::*;

use crate::error::{invalid_settings, Error};
#[allow(unused_imports)]
use crate::error::{settings_fault, Fault};
use crate::ir::{Distribution, Expr, ModelMeta, ResolvedFreeValue, ResolvedStochasticSite};
#[allow(unused_imports)]
use crate::ir::{
    list_views, named_views, resolved_free, DistModel, ExprModel, MetaModel, ObservedModel, ParamModel, SiteModel,
};
#[allow(unused_imports)]
use crate::model::checked;
use crate::sameness::equal_distributions;
#[allow(unused_imports)]
use crate::sameness::same_dist;
use crate::text;
#[allow(unused_imports)]
use crate::text::{debug_text, decimal_text, joined, text_views};

verus! {

/// A declaration that owns a site.
#[verifier::ext_equal]
pub enum WantedModel {
    Param(Seq<char>, DistModel),
    Observed(Seq<char>, DistModel),
    Free(Seq<char>),
}

/// Whether a site belongs to a declaration.
pub open spec fn fits(wanted: WantedModel, site: SiteModel) -> bool {
    match wanted {
        WantedModel::Param(name, distribution) => site.value == ExprModel::Param(name) && same_dist(
            site.distribution,
            distribution,
        ),
        WantedModel::Observed(name, distribution) => site.value == ExprModel::Data(name)
            && same_dist(site.distribution, distribution),
        WantedModel::Free(name) => site.name == name && match site.value {
            ExprModel::Param(target) => target == name,
            ExprModel::VectorScatter { missing_values, .. } => *missing_values == ExprModel::Param(name),
            _ => false,
        },
    }
}

/// A declaration in words.
pub open spec fn declaration_text(wanted: WantedModel) -> Seq<char> {
    match wanted {
        WantedModel::Param(name, _) => "Param "@ + debug_text(name),
        WantedModel::Observed(name, _) => "Observed "@ + debug_text(name),
        WantedModel::Free(name) => "non-Param free value "@ + debug_text(name),
    }
}

/// The unclaimed sites among the first `n` that belong to a declaration.
pub open spec fn fitting(
    sites: Seq<SiteModel>,
    claimed: Seq<bool>,
    wanted: WantedModel,
    n: nat,
) -> Seq<int>
    decreases n,
{
    if n == 0 {
        Seq::empty()
    } else {
        let before = fitting(sites, claimed, wanted, (n - 1) as nat);
        if !claimed[n - 1] && fits(wanted, sites[n - 1]) {
            before.push(n - 1)
        } else {
            before
        }
    }
}

/// What is claimed once a declaration has claimed its only site.
pub open spec fn claim(sites: Seq<SiteModel>, claimed: Seq<bool>, wanted: WantedModel) -> Result<
    Seq<bool>,
    Fault,
> {
    let found = fitting(sites, claimed, wanted, sites.len());
    if found.len() != 1 {
        Err(
            settings_fault(
                "prior-predictive "@ + declaration_text(wanted)
                    + " requires exactly one matching generative stochastic site, found "@
                    + decimal_text(found.len())
                    + "; keep one declaration-backed site and remove additional density factors from the ancestrally simulated model"@,
            ),
        )
    } else {
        Ok(claimed.update(found[0], true))
    }
}

/// What is claimed once all declarations have claimed their sites.
pub open spec fn claims(sites: Seq<SiteModel>, wanted: Seq<WantedModel>) -> Result<Seq<bool>, Fault>
    decreases wanted.len(),
{
    if wanted.len() == 0 {
        Ok(Seq::new(sites.len(), |i: int| false))
    } else {
        match claims(sites, wanted.drop_last()) {
            Err(fault) => Err(fault),
            Ok(claimed) => claim(sites, claimed, wanted.last()),
        }
    }
}

/// Whether a parameter of that name is declared.
pub open spec fn declares_param(m: MetaModel, name: Seq<char>) -> bool {
    exists|i: int| 0 <= i < m.params.len() && (#[trigger] m.params[i]).0 == name
}

/// The free values among the first `n` that are no parameters.
pub open spec fn wanted_free(m: MetaModel, n: nat) -> Seq<WantedModel>
    decreases n,
{
    if n == 0 {
        Seq::empty()
    } else {
        let before = wanted_free(m, (n - 1) as nat);
        let name = resolved_free(m)[n - 1].0;
        if declares_param(m, name) {
            before
        } else {
            before.push(WantedModel::Free(name))
        }
    }
}

/// The declarations of a model, in the order in which they claim.
pub open spec fn declarations(m: MetaModel) -> Seq<WantedModel> {
    m.params.map_values(|p: (Seq<char>, ParamModel)| WantedModel::Param(p.0, p.1.distribution))
        + m.observed_nodes.map_values(
        |o: ObservedModel| WantedModel::Observed(o.name, o.distribution),
    ) + wanted_free(m, resolved_free(m).len())
}

/// The unclaimed sites among the first `n`, in words.
pub open spec fn leftover(sites: Seq<SiteModel>, claimed: Seq<bool>, n: nat) -> Seq<Seq<char>>
    decreases n,
{
    if n == 0 {
        Seq::empty()
    } else {
        let before = leftover(sites, claimed, (n - 1) as nat);
        if claimed[n - 1] {
            before
        } else {
            before.push(
                debug_text(sites[n - 1].name) + " at stochastic_sites["@ + decimal_text(
                    (n - 1) as nat,
                ) + "]"@,
            )
        }
    }
}

/// What is wrong with the sites of a model for ancestral simulation.
pub open spec fn inventory_fault(m: MetaModel, sites: Seq<SiteModel>) -> Option<Fault> {
    match claims(sites, declarations(m)) {
        Err(fault) => Some(fault),
        Ok(claimed) => {
            let factors = leftover(sites, claimed, sites.len());
            if factors.len() > 0 {
                Some(
                    settings_fault(
                        "prior-predictive cannot simulate additional stochastic factor sites ["@
                            + joined(factors, ", "@)
                            + "]; Factors affect density but have no ancestral draw, so use a model containing only declaration-backed generative sites"@,
                    ),
                )
            } else {
                None
            }
        },
    }
}

proof fn lemma_claims_fail(sites: Seq<SiteModel>, wanted: Seq<WantedModel>, n: int)
    requires
        0 <= n <= wanted.len(),
        claims(sites, wanted.take(n)) is Err,
    ensures
        claims(sites, wanted) == claims(sites, wanted.take(n)),
    decreases wanted.len(),
{
    if n < wanted.len() {
        assert(wanted.drop_last().take(n) =~= wanted.take(n));
        lemma_claims_fail(sites, wanted.drop_last(), n);
    } else {
        assert(wanted.take(n) =~= wanted);
    }
}

/// A declaration that owns a site, borrowed.
enum Wanted<'a> {
    Param(&'a str, &'a Distribution),
    Observed(&'a str, &'a Distribution),
    Free(&'a str),
}

impl<'a> View for Wanted<'a> {
    type V = WantedModel;

    closed spec fn view(&self) -> WantedModel {
        match *self {
            Wanted::Param(name, distribution) => WantedModel::Param(name@, distribution@),
            Wanted::Observed(name, distribution) => WantedModel::Observed(name@, distribution@),
            Wanted::Free(name) => WantedModel::Free(name@),
        }
    }
}

/// Whether an expression is a reference to a parameter.
pub fn is_param(expr: &Expr, name: &str) -> (r: bool)
    ensures
        r == (expr@ == ExprModel::Param(name@)),
{
    match expr {
        Expr::Param(target) => text::same(target.as_str(), name),
        _ => false,
    }
}

/// Whether an expression is a reference to data.
pub fn is_data(expr: &Expr, name: &str) -> (r: bool)
    ensures
        r == (expr@ == ExprModel::Data(name@)),
{
    match expr {
        Expr::Data(target) => text::same(target.as_str(), name),
        _ => false,
    }
}

fn site_owns_non_param_free_value(site: &ResolvedStochasticSite, name: &str) -> (r: bool)
    ensures
        r == fits(WantedModel::Free(name@), site@),
{
    if !text::same(site.name.as_str(), name) {
        return false;
    }
    match &site.value {
        Expr::Param(target) => text::same(target.as_str(), name),
        Expr::VectorScatter { missing_values, .. } => is_param(missing_values, name),
        _ => false,
    }
}

impl<'a> Wanted<'a> {
    fn fits(&self, site: &ResolvedStochasticSite) -> (r: bool)
        ensures
            r == fits(self@, site@),
    {
        match self {
            Wanted::Param(name, distribution) => is_param(&site.value, name) && equal_distributions(
                &site.distribution,
                distribution,
            ),
            Wanted::Observed(name, distribution) => is_data(&site.value, name)
                && equal_distributions(&site.distribution, distribution),
            Wanted::Free(name) => site_owns_non_param_free_value(site, name),
        }
    }

    fn declaration(&self) -> (r: String)
        ensures
            r@ == declaration_text(self@),
    {
        match self {
            Wanted::Param(name, _) => {
                let shown: String = text::quoted(name);
                text::cat2("Param ", shown.as_str())
            },
            Wanted::Observed(name, _) => {
                let shown: String = text::quoted(name);
                text::cat2("Observed ", shown.as_str())
            },
            Wanted::Free(name) => {
                let shown: String = text::quoted(name);
                text::cat2("non-Param free value ", shown.as_str())
            },
        }
    }
}

/// The view of flags or a failure.
pub open spec fn flags_outcome(r: Result<Vec<bool>, Error>) -> Result<Seq<bool>, Fault> {
    match r {
        Ok(flags) => Ok(flags@),
        Err(error) => Err(error@),
    }
}

fn claim_unique_generative_site<'a>(
    sites: &Vec<ResolvedStochasticSite>,
    claimed: Vec<bool>,
    wanted: &Wanted<'a>,
) -> (r: Result<Vec<bool>, Error>)
    requires
        claimed.len() == sites.len(),
    ensures
        flags_outcome(r) == claim(list_views(sites@), claimed@, wanted@),
        r is Ok ==> r->Ok_0@.len() == sites@.len(),
{
    let ghost all = list_views(sites@);
    let ghost flags = claimed@;
    let mut found: Vec<usize> = Vec::new();
    let mut i: usize = 0;
    while i < sites.len()
        invariant
            i <= sites.len(),
            claimed.len() == sites.len(),
            all == list_views(sites@),
            flags == claimed@,
            found.len() == fitting(all, flags, wanted@, i as nat).len(),
            found.len() <= i,
            forall|k: int|
                0 <= k < found@.len() ==> #[trigger] found@[k] == fitting(
                    all,
                    flags,
                    wanted@,
                    i as nat,
                )[k] && found@[k] < sites.len(),
        decreases sites.len() - i,
    {
        assert(all[i as int] == sites@[i as int]@);
        if !claimed[i] && wanted.fits(&sites[i]) {
            found.push(i);
        }
        i += 1;
    }
    assert(all.len() == sites.len());
    if found.len() != 1 {
        let declaration: String = wanted.declaration();
        let count: String = text::decimal(found.len() as u64);
        return Err(
            invalid_settings(
                text::cat5(
                    "prior-predictive ",
                    declaration.as_str(),
                    " requires exactly one matching generative stochastic site, found ",
                    count.as_str(),
                    "; keep one declaration-backed site and remove additional density factors from the ancestrally simulated model",
                ),
            ),
        );
    }
    let mut out: Vec<bool> = claimed;
    let place: usize = found[0];
    out.set(place, true);
    Ok(out)
}

fn has_param(meta: &ModelMeta, name: &str) -> (r: bool)
    ensures
        r == declares_param(meta@, name@),
{
    let mut i: usize = 0;
    while i < meta.params.len()
        invariant
            i <= meta.params.len(),
            forall|k: int| 0 <= k < i ==> (#[trigger] meta@.params[k]).0 != name@,
        decreases meta.params.len() - i,
    {
        assert(meta@.params[i as int].0 == meta.params@[i as int].0@);
        if text::same(meta.params[i].0.as_str(), name) {
            return true;
        }
        i += 1;
    }
    assert(meta@.params.len() == meta.params.len());
    false
}

fn wanted_sites<'a>(meta: &'a ModelMeta, free: &'a Vec<(String, ResolvedFreeValue)>) -> (r: Vec<
    Wanted<'a>,
>)
    requires
        named_views(free@) == resolved_free(meta@),
    ensures
        list_views(r@) == declarations(meta@),
{
    let ghost m = meta@;
    let ghost params = m.params.map_values(
        |p: (Seq<char>, ParamModel)| WantedModel::Param(p.0, p.1.distribution),
    );
    let ghost observed = m.observed_nodes.map_values(
        |o: ObservedModel| WantedModel::Observed(o.name, o.distribution),
    );
    let mut out: Vec<Wanted<'a>> = Vec::new();
    assert(list_views(out@) =~= params.take(0));
    let mut i: usize = 0;
    while i < meta.params.len()
        invariant
            i <= meta.params.len(),
            m == meta@,
            params == m.params.map_values(
                |p: (Seq<char>, ParamModel)| WantedModel::Param(p.0, p.1.distribution),
            ),
            list_views(out@) == params.take(i as int),
        decreases meta.params.len() - i,
    {
        let ghost before = out@;
        out.push(Wanted::Param(meta.params[i].0.as_str(), &meta.params[i].1.distribution));
        proof {
            assert(m.params[i as int] == (meta.params@[i as int].0@, meta.params@[i as int].1@));
            assert(list_views(out@) =~= list_views(before).push(out@.last()@));
            assert(params.take(i + 1) =~= params.take(i as int).push(params[i as int]));
        }
        i += 1;
    }
    assert(params.take(i as int) =~= params);
    assert(list_views(out@) =~= params + observed.take(0));
    i = 0;
    while i < meta.observed_nodes.len()
        invariant
            i <= meta.observed_nodes.len(),
            m == meta@,
            observed == m.observed_nodes.map_values(
                |o: ObservedModel| WantedModel::Observed(o.name, o.distribution),
            ),
            list_views(out@) == params + observed.take(i as int),
        decreases meta.observed_nodes.len() - i,
    {
        let ghost before = out@;
        let node: &crate::ir::ResolvedObserved = &meta.observed_nodes[i];
        out.push(Wanted::Observed(node.name.as_str(), &node.distribution));
        proof {
            assert(m.observed_nodes[i as int] == meta.observed_nodes@[i as int]@);
            assert(list_views(out@) =~= list_views(before).push(out@.last()@));
            assert(params + observed.take(i + 1) =~= (params + observed.take(i as int)).push(
                observed[i as int],
            ));
        }
        i += 1;
    }
    assert(observed.take(i as int) =~= observed);
    assert(params + observed + wanted_free(m, 0) =~= params + observed);
    let ghost rest = resolved_free(m);
    assert(rest.len() == free.len());
    i = 0;
    while i < free.len()
        invariant
            i <= free.len(),
            m == meta@,
            rest == resolved_free(m),
            rest == named_views(free@),
            list_views(out@) == params + observed + wanted_free(m, i as nat),
        decreases free.len() - i,
    {
        assert(rest[i as int] == (free@[i as int].0@, free@[i as int].1@));
        if !has_param(meta, free[i].0.as_str()) {
            let ghost before = out@;
            out.push(Wanted::Free(free[i].0.as_str()));
            proof {
                assert(list_views(out@) =~= list_views(before).push(out@.last()@));
                assert(params + observed + wanted_free(m, (i + 1) as nat) =~= (params + observed
                    + wanted_free(m, i as nat)).push(WantedModel::Free(rest[i as int].0)));
            }
        }
        i += 1;
    }
    out
}

fn unclaimed(sites: &Vec<ResolvedStochasticSite>, claimed: &Vec<bool>) -> (r: Vec<String>)
    requires
        claimed.len() == sites.len(),
    ensures
        text_views(r@) == leftover(list_views(sites@), claimed@, sites@.len()),
{
    let ghost all = list_views(sites@);
    let mut out: Vec<String> = Vec::new();
    assert(text_views(out@) =~= Seq::empty());
    let mut i: usize = 0;
    while i < sites.len()
        invariant
            i <= sites.len(),
            claimed.len() == sites.len(),
            all == list_views(sites@),
            text_views(out@) == leftover(all, claimed@, i as nat),
        decreases sites.len() - i,
    {
        assert(all[i as int] == sites@[i as int]@);
        if !claimed[i] {
            let ghost before = out@;
            let name: String = text::quoted(sites[i].name.as_str());
            let place: String = text::decimal(i as u64);
            let line: String = text::cat4(
                name.as_str(),
                " at stochastic_sites[",
                place.as_str(),
                "]",
            );
            out.push(line);
            assert(text_views(out@) =~= text_views(before).push(line@));
        }
        i += 1;
    }
    out
}

/// Checks that every declaration owns exactly one site and that every site is owned.
pub fn validate_prior_predictive_site_inventory(
    meta: &ModelMeta,
    sites: &Vec<ResolvedStochasticSite>,
) -> (r: Result<(), Error>)
    ensures
        checked(r) == inventory_fault(meta@, list_views(sites@)),
{
    let ghost all = list_views(sites@);
    let free: Vec<(String, ResolvedFreeValue)> = meta.resolved_free_values();
    let list: Vec<Wanted> = wanted_sites(meta, &free);
    let ghost wanted = list_views(list@);
    let mut claimed: Vec<bool> = Vec::new();
    let mut i: usize = 0;
    while i < sites.len()
        invariant
            i <= sites.len(),
            claimed.len() == i,
            forall|k: int| 0 <= k < i ==> !claimed@[k],
        decreases sites.len() - i,
    {
        claimed.push(false);
        i += 1;
    }
    assert(all.len() == sites.len());
    assert(claimed@ =~= Seq::new(all.len(), |i: int| false));
    assert(wanted.take(0) =~= Seq::empty());
    i = 0;
    while i < list.len()
        invariant
            i <= list.len(),
            all == list_views(sites@),
            wanted == list_views(list@),
            wanted == declarations(meta@),
            claimed.len() == sites.len(),
            claims(all, wanted.take(i as int)) == Ok::<Seq<bool>, Fault>(claimed@),
        decreases list.len() - i,
    {
        proof {
            let done = wanted.take(i + 1);
            assert(done.drop_last() =~= wanted.take(i as int));
            assert(done.last() == list@[i as int]@);
        }
        match claim_unique_generative_site(sites, claimed, &list[i]) {
            Err(error) => {
                proof {
                    lemma_claims_fail(all, wanted, i + 1);
                }
                return Err(error);
            },
            Ok(more) => {
                claimed = more;
            },
        }
        i += 1;
    }
    assert(wanted.take(i as int) =~= wanted);
    let factors: Vec<String> = unclaimed(sites, &claimed);
    assert(text_views(factors@).len() == factors.len());
    if factors.len() > 0 {
        let shown: String = text::join(&factors, ", ");
        return Err(
            invalid_settings(
                text::cat3(
                    "prior-predictive cannot simulate additional stochastic factor sites [",
                    shown.as_str(),
                    "]; Factors affect density but have no ancestral draw, so use a model containing only declaration-backed generative sites",
                ),
            ),
        );
    }
    Ok(())
}

/// Whether position `k` was counted among the fitting ones.
proof fn lemma_fitting_within(
    sites: Seq<SiteModel>,
    claimed: Seq<bool>,
    wanted: WantedModel,
    n: nat,
    k: int,
)
    requires
        0 <= k < fitting(sites, claimed, wanted, n).len(),
    ensures
        0 <= fitting(sites, claimed, wanted, n)[k] < n,
        !claimed[fitting(sites, claimed, wanted, n)[k]],
        fits(wanted, sites[fitting(sites, claimed, wanted, n)[k]]),
    decreases n,
{
    let before = fitting(sites, claimed, wanted, (n - 1) as nat);
    if k < before.len() {
        lemma_fitting_within(sites, claimed, wanted, (n - 1) as nat, k);
    }
}

proof fn lemma_claimed_owned(sites: Seq<SiteModel>, wanted: Seq<WantedModel>, i: int)
    requires
        claims(sites, wanted) is Ok,
        0 <= i < sites.len(),
    ensures
        claims(sites, wanted)->Ok_0.len() == sites.len(),
        claims(sites, wanted)->Ok_0[i] ==> exists|k: int|
            0 <= k < wanted.len() && fits(#[trigger] wanted[k], sites[i]),
    decreases wanted.len(),
{
    if wanted.len() > 0 {
        lemma_claimed_owned(sites, wanted.drop_last(), i);
        let before = claims(sites, wanted.drop_last())->Ok_0;
        let found = fitting(sites, before, wanted.last(), sites.len());
        lemma_fitting_within(sites, before, wanted.last(), sites.len(), 0);
        if claims(sites, wanted)->Ok_0[i] {
            if before[i] {
                let k = choose|k: int|
                    0 <= k < wanted.drop_last().len() && fits(
                        #[trigger] wanted.drop_last()[k],
                        sites[i],
                    );
                assert(fits(wanted[k], sites[i]));
            } else {
                assert(found[0] == i);
                assert(fits(wanted[wanted.len() - 1], sites[i]));
            }
        }
    }
}

proof fn lemma_leftover_empty(sites: Seq<SiteModel>, claimed: Seq<bool>, n: nat, i: int)
    requires
        leftover(sites, claimed, n).len() == 0,
        0 <= i < n,
    ensures
        claimed[i],
    decreases n,
{
    if i < n - 1 {
        lemma_leftover_empty(sites, claimed, (n - 1) as nat, i);
    }
}

/// In a model that passes the inventory, every site belongs to a declaration: no factor is left
/// that has a density but no draw.
pub proof fn law_every_site_is_declared(m: MetaModel, sites: Seq<SiteModel>, i: int)
    requires
        inventory_fault(m, sites) is None,
        0 <= i < sites.len(),
    ensures
        exists|k: int|
            0 <= k < declarations(m).len() && fits(#[trigger] declarations(m)[k], sites[i]),
{
    let claimed = claims(sites, declarations(m))->Ok_0;
    lemma_leftover_empty(sites, claimed, sites.len(), i);
    lemma_claimed_owned(sites, declarations(m), i);
}

} // verus!
