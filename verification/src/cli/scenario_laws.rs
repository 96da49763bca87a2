//! What scenario documents ask for: every field under its own name, within its range.

use vstd::prelude::*;

#[allow(unused_imports)]
use crate::data::{read_data, DataModel};
#[allow(unused_imports)]
use crate::error::Fault;
#[allow(unused_imports)]
use crate::json::{field, number_of, string_of, Json};
#[allow(unused_imports)]
use crate::number::{less, NumberModel};

#[allow(unused_imports)]
use super::scenario::{
    recover_read, sample_applied, sbc_read, RecoverScenarioModel, SampleScenarioModel, SbcScenarioModel,
};

verus! {

/// Whether a document gives a size under a name, or leaves a default where it gives none.
pub open spec fn gives_size(doc: Json, name: Seq<char>, default: usize, size: usize) -> bool {
    match field(doc, name) {
        None => size == default,
        Some(Json::Int(n)) => n >= 0 && size == n as usize,
        Some(_) => false,
    }
}

/// Whether a document gives a number under a name, or leaves a default where it gives none.
pub open spec fn gives_number(
    doc: Json,
    name: Seq<char>,
    default: NumberModel,
    number: NumberModel,
) -> bool {
    match field(doc, name) {
        None => number == default,
        Some(value) => number_of(Some(value)) == Some(number),
    }
}

/// Whether a rate is below one and not below zero.
pub open spec fn below_one(n: NumberModel) -> bool {
    !less(n.bits, 0) && less(n.bits, 0x3FF0_0000_0000_0000)
}

/// Sampling is asked for by the fields of a document under their own names, and a field that is
/// missing leaves what was there: at least one chain and four draws, a tree depth between one and
/// twenty, and thinning that divides the draws.
pub proof fn law_sample_document_sets_what_it_names(
    doc: Json,
    base: SampleScenarioModel,
    context: Seq<char>,
    out: SampleScenarioModel,
)
    requires
        sample_applied(doc, base, context) == Ok::<SampleScenarioModel, Fault>(out),
        base.chains <= i64::MAX,
        base.sampler.num_warmup <= i64::MAX,
        base.sampler.num_draws <= i64::MAX,
        base.sampler.max_treedepth <= i64::MAX,
        base.thin is Some ==> base.thin->0 <= i64::MAX,
    ensures
        match field(doc, "chains"@) {
            None => out.chains == base.chains,
            Some(Json::Int(n)) => out.chains == n,
            Some(_) => false,
        },
        gives_size(doc, "warmup"@, base.sampler.num_warmup, out.sampler.num_warmup),
        gives_size(doc, "draws"@, base.sampler.num_draws, out.sampler.num_draws),
        gives_size(doc, "max_treedepth"@, base.sampler.max_treedepth, out.sampler.max_treedepth),
        gives_number(doc, "target_accept"@, base.sampler.target_accept, out.sampler.target_accept),
        base.thin is None <==> out.thin is None,
        base.thin is Some ==> gives_size(doc, "thin"@, base.thin->0, out.thin->0),
        out.chains >= 1,
        out.sampler.num_draws >= 4,
        1 <= out.sampler.max_treedepth <= 20,
        below_one(out.sampler.target_accept),
        out.thin is Some && out.thin->0 > 0 ==> out.sampler.num_draws % out.thin->0 == 0,
{
}

/// A recovery is asked for by the fields of a document under their own names: its data, its seed,
/// the share of its interval, which is four fifths where none is given, and its sampling.
pub proof fn law_recover_document_sets_what_it_names(
    doc: Json,
    base: SampleScenarioModel,
    out: RecoverScenarioModel,
)
    requires
        recover_read(doc, base) == Ok::<RecoverScenarioModel, Fault>(out),
    ensures
        string_of(field(doc, "recover"@ + "_scenario"@)) == Some("v0-provisional"@),
        field(doc, "data"@) matches Some(data) && read_data(data) == Ok::<
            Seq<(Seq<char>, DataModel)>,
            Fault,
        >(out.data),
        field(doc, "seed"@) matches Some(Json::Int(n)) && n >= 0 && out.seed == n,
        field(doc, "interval"@) is Some ==> number_of(field(doc, "interval"@)) == Some(
            out.interval,
        ),
        field(doc, "interval"@) is None ==> out.interval.bits == 0x3FE9_9999_9999_999A,
        below_one(out.interval),
        match field(doc, "sample"@) {
            None => out.sample == base,
            Some(sample) => sample_applied(sample, base, "recover"@) == Ok::<
                SampleScenarioModel,
                Fault,
            >(out.sample),
        },
{
}

/// A calibration is asked for by the fields of a document under their own names: its data, its seed,
/// how often it is repeated, and its sampling.
pub proof fn law_calibration_document_sets_what_it_names(
    doc: Json,
    replicates: usize,
    base: SampleScenarioModel,
    out: SbcScenarioModel,
)
    requires
        sbc_read(doc, replicates, base) == Ok::<SbcScenarioModel, Fault>(out),
        replicates <= i64::MAX,
    ensures
        string_of(field(doc, "sbc"@ + "_scenario"@)) == Some("v0-provisional"@),
        field(doc, "data"@) matches Some(data) && read_data(data) == Ok::<
            Seq<(Seq<char>, DataModel)>,
            Fault,
        >(out.data),
        field(doc, "seed"@) matches Some(Json::Int(n)) && n >= 0 && out.seed == n,
        gives_size(doc, "replicates"@, replicates, out.replicates),
        out.replicates >= 1,
        match field(doc, "sample"@) {
            None => out.sample == base,
            Some(sample) => sample_applied(sample, base, "sbc"@) == Ok::<
                SampleScenarioModel,
                Fault,
            >(out.sample),
        },
{
}

} // verus!
