//! What the documents of runs say: every part of a request, a draw or a finding under its own name.

use vstd::prelude::*;

#[allow(unused_imports)]
use crate::data::DATA_DOCUMENT_FORMAT;
#[allow(unused_imports)]
use crate::generation::{
    canonical_document, canonical_entries, draw_entries, header_entries, lineage_entries, lineage_json,
    posterior_entries, trailer_entries, PairDocuments, RequestModel,
};
#[allow(unused_imports)]
use crate::inspect::report_laws::says;
#[allow(unused_imports)]
use crate::json::Json;
#[allow(unused_imports)]
use crate::predictive::check::check_entries;
#[allow(unused_imports)]
use crate::predictive::generate::GenerationLineage;
#[allow(unused_imports)]
use crate::predictive::records::RecordModel;
#[allow(unused_imports)]
use crate::predictive::statistics::{
    least, most, optional_json, present, summary_entries, Findings, Statistic,
};

verus! {

proof fn lemma_says(entries: Seq<(Seq<char>, Json)>, k: int)
    requires
        0 <= k < entries.len(),
    ensures
        says(Json::Object(entries), entries[k].0, entries[k].1),
{
    assert(entries.contains(entries[k]));
}

/// Header and trailer of generated data say what was asked: the digests of model and design, the
/// source of the parameters, the seed and the count; and the trailer counts as many draws.
pub proof fn law_generation_says_what_was_asked(
    request: RequestModel,
    source: Json,
    parameters: Json,
    dataset: Json,
)
    ensures
        ({
            let header = Json::Object(header_entries(request, source, parameters, dataset));
            &&& says(header, "generation_model_hash"@, Json::Str(request.generation_model_hash))
            &&& says(header, "design_hash"@, Json::Str(request.design_hash))
            &&& says(header, "parameter_source"@, source)
            &&& says(header, "count"@, Json::Int(request.count as i64))
            &&& says(header, "seed"@, Json::Int(request.seed as i64))
            &&& says(header, "parameter_schema"@, parameters)
            &&& says(header, "dataset_schema"@, dataset)
        }),
        ({
            let trailer = Json::Object(trailer_entries(request, source));
            &&& says(trailer, "generation_model_hash"@, Json::Str(request.generation_model_hash))
            &&& says(trailer, "design_hash"@, Json::Str(request.design_hash))
            &&& says(trailer, "parameter_source"@, source)
            &&& says(trailer, "count"@, Json::Int(request.count as i64))
            &&& says(trailer, "seed"@, Json::Int(request.seed as i64))
            &&& says(trailer, "draw_count"@, Json::Int(request.count as i64))
            &&& says(trailer, "complete"@, Json::Bool(true))
        }),
{
    let header = header_entries(request, source, parameters, dataset);
    let trailer = trailer_entries(request, source);
    assert forall|k: int| 0 <= k < header.len() implies says(
        Json::Object(header),
        (#[trigger] header[k]).0,
        header[k].1,
    ) by {
        lemma_says(header, k);
    }
    assert forall|k: int| 0 <= k < trailer.len() implies says(
        Json::Object(trailer),
        (#[trigger] trailer[k]).0,
        trailer[k].1,
    ) by {
        lemma_says(trailer, k);
    }
    assert(header[4] == ("generation_model_hash"@, Json::Str(request.generation_model_hash)));
    assert(header[5] == ("design_hash"@, Json::Str(request.design_hash)));
    assert(header[6] == ("parameter_source"@, source));
    assert(header[7] == ("count"@, Json::Int(request.count as i64)));
    assert(header[8] == ("seed"@, Json::Int(request.seed as i64)));
    assert(header[10] == ("parameter_schema"@, parameters));
    assert(header[11] == ("dataset_schema"@, dataset));
    assert(trailer[4] == ("generation_model_hash"@, Json::Str(request.generation_model_hash)));
    assert(trailer[5] == ("design_hash"@, Json::Str(request.design_hash)));
    assert(trailer[6] == ("parameter_source"@, source));
    assert(trailer[7] == ("count"@, Json::Int(request.count as i64)));
    assert(trailer[8] == ("seed"@, Json::Int(request.seed as i64)));
    assert(trailer[9] == ("draw_count"@, Json::Int(request.count as i64)));
    assert(trailer[10] == ("complete"@, Json::Bool(true)));
}

/// Whether a document is a data document of those variables.
pub open spec fn holds_variables(document: Json, variables: Seq<(Seq<char>, Json)>) -> bool {
    &&& says(document, "format"@, Json::Str(DATA_DOCUMENT_FORMAT@))
    &&& says(document, "variables"@, Json::Object(variables))
}

/// A generated draw says its place and how many there are, holds its parameters and its dataset,
/// and says which draw the parameters came from.
pub proof fn law_generated_draw_holds_its_pair(
    index: int,
    count: usize,
    documents: PairDocuments,
    lineage: GenerationLineage,
)
    ensures
        ({
            let line = Json::Object(draw_entries(index, count, documents, lineage));
            &&& says(line, "draw_index"@, Json::Int(index as i64))
            &&& says(line, "draw_count"@, Json::Int(count as i64))
            &&& exists|held: Json| #[trigger]
                says(line, "parameters"@, held) && holds_variables(held, documents.0)
            &&& exists|held: Json| #[trigger]
                says(line, "dataset"@, held) && holds_variables(held, documents.1)
            &&& says(line, "source_lineage"@, lineage_json(lineage))
        }),
        match lineage {
            GenerationLineage::Fixed => says(lineage_json(lineage), "kind"@, Json::Str("fixed"@)),
            GenerationLineage::ModelPrior { source_draw_index } => says(
                lineage_json(lineage),
                "kind"@,
                Json::Str("model-prior"@),
            ) && says(
                lineage_json(lineage),
                "source_draw_index"@,
                Json::Int(source_draw_index as i64),
            ),
            GenerationLineage::Posterior { source_draw_index, chain, draw } => says(
                lineage_json(lineage),
                "kind"@,
                Json::Str("posterior"@),
            ) && says(
                lineage_json(lineage),
                "source_draw_index"@,
                Json::Int(source_draw_index as i64),
            ) && says(lineage_json(lineage), "chain"@, Json::Int(chain)) && says(
                lineage_json(lineage),
                "draw"@,
                Json::Int(draw),
            ),
        },
{
    let line = draw_entries(index, count, documents, lineage);
    lemma_says(line, 3);
    lemma_says(line, 4);
    lemma_says(line, 5);
    lemma_says(line, 6);
    lemma_says(line, 7);
    assert(line[3] == ("draw_index"@, Json::Int(index as i64)));
    assert(line[4] == ("draw_count"@, Json::Int(count as i64)));
    assert(line[5] == ("parameters"@, canonical_document(documents.0)));
    assert(line[6] == ("dataset"@, canonical_document(documents.1)));
    assert(line[7] == ("source_lineage"@, lineage_json(lineage)));
    let first = canonical_entries(documents.0);
    let second = canonical_entries(documents.1);
    lemma_says(first, 0);
    lemma_says(first, 1);
    lemma_says(second, 0);
    lemma_says(second, 1);
    assert(holds_variables(canonical_document(documents.0), documents.0));
    assert(holds_variables(canonical_document(documents.1), documents.1));
    let origin = lineage_entries(lineage);
    lemma_says(origin, 0);
    if origin.len() > 1 {
        lemma_says(origin, 1);
    }
    if origin.len() > 3 {
        lemma_says(origin, 2);
        lemma_says(origin, 3);
    }
}

/// A check names its site, its factor and its statistic, and its summary says under their own names
/// what was observed, the mean and the extremes of the replicas, and how many there are.
pub proof fn law_check_says_what_was_found(site: RecordModel, kind: Statistic, f: Findings)
    ensures
        ({
            let check = Json::Object(check_entries(site, kind, f));
            &&& says(check, "site"@, Json::Str(site.name))
            &&& says(check, "stochastic_site"@, Json::Str(site.stochastic_site))
            &&& says(
                check,
                "statistic"@,
                Json::Str(
                    match kind {
                        Statistic::Mean => "mean"@,
                        Statistic::Sd => "sd"@,
                        Statistic::Min => "min"@,
                        Statistic::Max => "max"@,
                        Statistic::ZeroCount => "zero_count"@,
                    },
                ),
            )
            &&& says(check, "summary"@, Json::Object(summary_entries(f)))
        }),
        ({
            let summary = Json::Object(summary_entries(f));
            &&& says(summary, "observed"@, optional_json(f.observed))
            &&& says(summary, "replicated_mean"@, optional_json(f.mean))
            &&& says(summary, "replicated_min"@, optional_json(least(present(f.replicated))))
            &&& says(summary, "replicated_max"@, optional_json(most(present(f.replicated))))
            &&& says(summary, "replicated_draw_count"@, Json::Int(f.replicated.len() as i64))
            &&& says(
                summary,
                "replicated_finite_stat_count"@,
                Json::Int(present(f.replicated).len() as i64),
            )
        }),
{
    let check = check_entries(site, kind, f);
    lemma_says(check, 0);
    lemma_says(check, 1);
    lemma_says(check, 2);
    lemma_says(check, 5);
    let summary = summary_entries(f);
    lemma_says(summary, 0);
    lemma_says(summary, 1);
    lemma_says(summary, 2);
    lemma_says(summary, 3);
    lemma_says(summary, 6);
    lemma_says(summary, 7);
}

/// The source of parameters from a fit says the digests of the fit, of its model and of its data.
pub proof fn law_posterior_source_says_its_digests(
    fit: Seq<char>,
    model: Seq<char>,
    data: Seq<char>,
)
    ensures
        ({
            let source = Json::Object(posterior_entries(fit, model, data));
            &&& says(source, "kind"@, Json::Str("posterior"@))
            &&& says(source, "fit_hash"@, Json::Str(fit))
            &&& says(source, "fit_model_hash"@, Json::Str(model))
            &&& says(source, "fit_data_hash"@, Json::Str(data))
        }),
{
    let source = posterior_entries(fit, model, data);
    lemma_says(source, 0);
    lemma_says(source, 1);
    lemma_says(source, 2);
    lemma_says(source, 3);
}

} // verus!
