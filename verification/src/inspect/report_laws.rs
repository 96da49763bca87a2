//! What reports on models say: every parameter under its name, and every disagreement.

use vstd::prelude::*;

#[allow(unused_imports)]
use crate::ir::{resolved_sites, DistModel, ExprModel, MetaModel, ObservedModel, ParamModel, SiteModel};
#[allow(unused_imports)]
use crate::json::Json;
#[allow(unused_imports)]
use crate::sameness::same_dist;

#[allow(unused_imports)]
use super::report::{
    disagreement, discrepancies, is_declared, observed_disagreements, param_disagreements,
    site_from, undeclared_factors,
};
#[allow(unused_imports)]
use super::wire::{dist_json, expr_json};

verus! {

/// Whether a document says that of a name.
pub open spec fn says(document: Json, name: Seq<char>, value: Json) -> bool {
    document matches Json::Object(entries) && entries.contains((name, value))
}

/// Whether a document says that expression, or nothing, of a name.
pub open spec fn says_optional(document: Json, name: Seq<char>, e: Option<ExprModel>) -> bool {
    says(
        document,
        name,
        match e {
            Some(found) => expr_json(found),
            None => Json::Null,
        },
    )
}

/// The document of a distribution names its family and gives every parameter under its own name.
pub proof fn law_distribution_document_names_its_parameters(d: DistModel)
    ensures
        match d {
            DistModel::Normal { loc, scale } => says(
                dist_json(d),
                "node"@,
                Json::Str("Normal"@),
            ) && says(dist_json(d), "loc"@, expr_json(loc)) && says(
                dist_json(d),
                "scale"@,
                expr_json(scale),
            ),
            DistModel::HalfNormal { scale } => says(
                dist_json(d),
                "node"@,
                Json::Str("HalfNormal"@),
            ) && says(dist_json(d), "scale"@, expr_json(scale)),
            DistModel::StudentT { df, loc, scale } => says(
                dist_json(d),
                "node"@,
                Json::Str("StudentT"@),
            ) && says(dist_json(d), "df"@, expr_json(df)) && says(
                dist_json(d),
                "loc"@,
                expr_json(loc),
            ) && says(dist_json(d), "scale"@, expr_json(scale)),
            DistModel::Exponential { rate } => says(
                dist_json(d),
                "node"@,
                Json::Str("Exponential"@),
            ) && says(dist_json(d), "rate"@, expr_json(rate)),
            DistModel::Uniform { low, high } => says(
                dist_json(d),
                "node"@,
                Json::Str("Uniform"@),
            ) && says(dist_json(d), "low"@, expr_json(low)) && says(
                dist_json(d),
                "high"@,
                expr_json(high),
            ),
            DistModel::Beta { alpha, beta } => says(
                dist_json(d),
                "node"@,
                Json::Str("Beta"@),
            ) && says(dist_json(d), "alpha"@, expr_json(alpha)) && says(
                dist_json(d),
                "beta"@,
                expr_json(beta),
            ),
            DistModel::Bernoulli { probs } => says(
                dist_json(d),
                "node"@,
                Json::Str("Bernoulli"@),
            ) && says(dist_json(d), "probs"@, expr_json(probs)),
            DistModel::Poisson { rate } => says(
                dist_json(d),
                "node"@,
                Json::Str("Poisson"@),
            ) && says(dist_json(d), "rate"@, expr_json(rate)),
            DistModel::Binomial { total_count, probs } => says(
                dist_json(d),
                "node"@,
                Json::Str("Binomial"@),
            ) && says(dist_json(d), "total_count"@, expr_json(total_count)) && says(
                dist_json(d),
                "probs"@,
                expr_json(probs),
            ),
            DistModel::BetaBinomial { total_count, alpha, beta } => says(
                dist_json(d),
                "node"@,
                Json::Str("BetaBinomial"@),
            ) && says(dist_json(d), "total_count"@, expr_json(total_count)) && says(
                dist_json(d),
                "alpha"@,
                expr_json(alpha),
            ) && says(dist_json(d), "beta"@, expr_json(beta)),
            DistModel::NegativeBinomial { mean, overdispersion } => says(
                dist_json(d),
                "node"@,
                Json::Str("NegativeBinomial"@),
            ) && says(dist_json(d), "mean"@, expr_json(mean)) && says(
                dist_json(d),
                "overdispersion"@,
                expr_json(overdispersion),
            ),
            DistModel::MultivariateNormal { mean, scale_tril } => says(
                dist_json(d),
                "node"@,
                Json::Str("MultivariateNormal"@),
            ) && says(dist_json(d), "mean"@, expr_json(mean)) && says(
                dist_json(d),
                "scale_tril"@,
                expr_json(scale_tril),
            ),
            DistModel::OrderedLogistic { eta, cutpoints } => says(
                dist_json(d),
                "node"@,
                Json::Str("OrderedLogistic"@),
            ) && says(dist_json(d), "eta"@, expr_json(eta)) && says(
                dist_json(d),
                "cutpoints"@,
                expr_json(cutpoints),
            ),
            DistModel::Truncated { base, lower, upper } => says(
                dist_json(d),
                "node"@,
                Json::Str("Truncated"@),
            ) && says(dist_json(d), "base"@, dist_json(*base)) && says_optional(
                dist_json(d),
                "lower"@,
                lower,
            ) && says_optional(dist_json(d), "upper"@, upper),
        },
{
    if let Json::Object(entries) = dist_json(d) {
        assert(entries[0] == entries[0]);
        assert(entries[1] == entries[1]);
        if entries.len() > 2 {
            assert(entries[2] == entries[2]);
        }
        if entries.len() > 3 {
            assert(entries[3] == entries[3]);
        }
    }
}

/// Whether the first factor of a name has a distribution.
pub open spec fn executes(sites: Seq<SiteModel>, name: Seq<char>, declared: DistModel) -> bool {
    exists|i: int|
        0 <= i < sites.len() && (#[trigger] sites[i]).name == name && (forall|j: int|
            0 <= j < i ==> (#[trigger] sites[j]).name != name) && same_dist(
            sites[i].distribution,
            declared,
        )
}

proof fn lemma_site_from(sites: Seq<SiteModel>, name: Seq<char>, from: int)
    requires
        0 <= from <= sites.len(),
        forall|j: int| 0 <= j < from ==> (#[trigger] sites[j]).name != name,
    ensures
        match site_from(sites, name, from) {
            Some(site) => exists|i: int|
                0 <= i < sites.len() && #[trigger] sites[i] == site && site.name == name && forall|
                    j: int,
                |
                    0 <= j < i ==> (#[trigger] sites[j]).name != name,
            None => forall|j: int| 0 <= j < sites.len() ==> (#[trigger] sites[j]).name != name,
        },
    decreases sites.len() - from,
{
    if from < sites.len() {
        if sites[from].name != name {
            lemma_site_from(sites, name, from + 1);
        } else {
            assert(sites[from] == site_from(sites, name, from)->0);
        }
    }
}

proof fn lemma_disagreement(sites: Seq<SiteModel>, name: Seq<char>, declared: DistModel)
    ensures
        disagreement(sites, name, declared).len() == 0 <==> executes(sites, name, declared),
{
    lemma_site_from(sites, name, 0);
    match site_from(sites, name, 0) {
        None => {},
        Some(site) => {
            let i = choose|i: int|
                0 <= i < sites.len() && #[trigger] sites[i] == site && site.name == name && forall|
                    j: int,
                |
                    0 <= j < i ==> (#[trigger] sites[j]).name != name;
            if executes(sites, name, declared) {
                let k = choose|k: int|
                    0 <= k < sites.len() && (#[trigger] sites[k]).name == name && (forall|j: int|
                        0 <= j < k ==> (#[trigger] sites[j]).name != name) && same_dist(
                        sites[k].distribution,
                        declared,
                    );
                if i < k {
                    assert(sites[i].name != name);
                }
                if k < i {
                    assert(sites[k].name != name);
                }
            }
        },
    }
}

proof fn lemma_param_disagreements(sites: Seq<SiteModel>, params: Seq<(Seq<char>, ParamModel)>)
    ensures
        param_disagreements(sites, params).len() == 0 <==> forall|i: int|
            0 <= i < params.len() ==> executes(
                sites,
                (#[trigger] params[i]).0,
                params[i].1.distribution,
            ),
    decreases params.len(),
{
    if params.len() > 0 {
        let before = params.drop_last();
        let n = params.len() - 1;
        lemma_param_disagreements(sites, before);
        lemma_disagreement(sites, params.last().0, params.last().1.distribution);
        assert(params[n] == params.last());
        if forall|i: int|
            0 <= i < params.len() ==> executes(
                sites,
                (#[trigger] params[i]).0,
                params[i].1.distribution,
            ) {
            assert forall|i: int| 0 <= i < before.len() implies executes(
                sites,
                (#[trigger] before[i]).0,
                before[i].1.distribution,
            ) by {
                assert(before[i] == params[i]);
            }
        }
        if param_disagreements(sites, params).len() == 0 {
            assert forall|i: int| 0 <= i < params.len() implies executes(
                sites,
                (#[trigger] params[i]).0,
                params[i].1.distribution,
            ) by {
                if i < n {
                    assert(before[i] == params[i]);
                }
            }
        }
    }
}

proof fn lemma_observed_disagreements(sites: Seq<SiteModel>, nodes: Seq<ObservedModel>)
    ensures
        observed_disagreements(sites, nodes).len() == 0 <==> forall|i: int|
            0 <= i < nodes.len() ==> executes(
                sites,
                (#[trigger] nodes[i]).name,
                nodes[i].distribution,
            ),
    decreases nodes.len(),
{
    if nodes.len() > 0 {
        let before = nodes.drop_last();
        let n = nodes.len() - 1;
        lemma_observed_disagreements(sites, before);
        lemma_disagreement(sites, nodes.last().name, nodes.last().distribution);
        assert(nodes[n] == nodes.last());
        if forall|i: int|
            0 <= i < nodes.len() ==> executes(
                sites,
                (#[trigger] nodes[i]).name,
                nodes[i].distribution,
            ) {
            assert forall|i: int| 0 <= i < before.len() implies executes(
                sites,
                (#[trigger] before[i]).name,
                before[i].distribution,
            ) by {
                assert(before[i] == nodes[i]);
            }
        }
        if observed_disagreements(sites, nodes).len() == 0 {
            assert forall|i: int| 0 <= i < nodes.len() implies executes(
                sites,
                (#[trigger] nodes[i]).name,
                nodes[i].distribution,
            ) by {
                if i < n {
                    assert(before[i] == nodes[i]);
                }
            }
        }
    }
}

proof fn lemma_undeclared(m: MetaModel, sites: Seq<SiteModel>)
    ensures
        undeclared_factors(m, sites).len() == 0 <==> forall|i: int|
            0 <= i < sites.len() ==> is_declared(m, (#[trigger] sites[i]).name),
    decreases sites.len(),
{
    if sites.len() > 0 {
        let before = sites.drop_last();
        let n = sites.len() - 1;
        lemma_undeclared(m, before);
        assert(sites[n] == sites.last());
        if forall|i: int| 0 <= i < sites.len() ==> is_declared(m, (#[trigger] sites[i]).name) {
            assert forall|i: int| 0 <= i < before.len() implies is_declared(
                m,
                (#[trigger] before[i]).name,
            ) by {
                assert(before[i] == sites[i]);
            }
        }
        if undeclared_factors(m, sites).len() == 0 {
            assert forall|i: int| 0 <= i < sites.len() implies is_declared(
                m,
                (#[trigger] sites[i]).name,
            ) by {
                if i < n {
                    assert(before[i] == sites[i]);
                }
            }
        }
    }
}

/// A report has no discrepancy exactly where every declaration has a factor of its name with the
/// declared distribution, and every factor is declared.
pub proof fn law_no_discrepancy_means_agreement(m: MetaModel)
    ensures
        discrepancies(m).len() == 0 <==> ({
            let sites = resolved_sites(m);
            &&& forall|i: int|
                0 <= i < m.params.len() ==> executes(
                    sites,
                    (#[trigger] m.params[i]).0,
                    m.params[i].1.distribution,
                )
            &&& forall|i: int|
                0 <= i < m.observed_nodes.len() ==> executes(
                    sites,
                    (#[trigger] m.observed_nodes[i]).name,
                    m.observed_nodes[i].distribution,
                )
            &&& forall|i: int|
                0 <= i < sites.len() ==> is_declared(m, (#[trigger] sites[i]).name)
        }),
{
    let sites = resolved_sites(m);
    lemma_param_disagreements(sites, m.params);
    lemma_observed_disagreements(sites, m.observed_nodes);
    lemma_undeclared(m, sites);
}

} // verus!
