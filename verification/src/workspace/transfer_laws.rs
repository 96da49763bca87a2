//! What is carried over: objects that are found again by their references, engines that are the
//! pinned ones, and settings under their own names.

use vstd::prelude::*;

#[allow(unused_imports)]
use crate::error::Fault;
#[allow(unused_imports)]
use crate::investigation::identity::digest_text;
#[allow(unused_imports)]
use crate::investigation::records::{ArtifactKind, EngineModel, RefModel};
#[allow(unused_imports)]
use crate::json::{field, integer_of, number_of, Json};

#[allow(unused_imports)]
use super::metadata::{cited_decision, cited_item, index_from};
#[allow(unused_imports)]
use super::transfer::{content_fault, engine_fault, length_fault, planned, stored_ref, PlanModel};

verus! {

/// Bytes that were stored are found again by their reference, which keeps the kind and format they
/// were stored with; and whatever else is found by it has the same digest and length. No object
/// has more than sixty-four mebibytes.
pub proof fn law_stored_bytes_are_found_by_their_reference(
    bytes: Seq<u8>,
    kind: ArtifactKind,
    format: Seq<char>,
    m: RefModel,
    other: Seq<u8>,
)
    requires
        stored_ref(bytes, kind, format) == Ok::<RefModel, Fault>(m),
    ensures
        bytes.len() <= 64 * 1024 * 1024,
        m.kind == kind && m.format == format,
        content_fault(bytes, m.sha256) is None,
        length_fault(bytes.len(), m) is None,
        content_fault(other, m.sha256) is None && length_fault(other.len(), m) is None
            ==> digest_text(other) == digest_text(bytes) && other.len() == bytes.len(),
{
}

/// A running engine is taken for the pinned one exactly where its binary has the pinned digest and
/// length, it was built for the pinned target and profile, and it says the pinned capabilities.
pub proof fn law_only_the_pinned_engine_runs(
    pinned: EngineModel,
    binary: Seq<u8>,
    capabilities: Seq<u8>,
    target: Seq<char>,
    profile: Seq<char>,
)
    ensures
        engine_fault(pinned, binary, capabilities, target, profile) is None <==> digest_text(binary)
            == pinned.binary.sha256 && binary.len() == pinned.binary.bytes && target
            == pinned.target && profile == pinned.profile && digest_text(capabilities)
            == pinned.capabilities.sha256,
{
}

/// A plan samples as its settings say, each under its own name: no more than eight chains, and no
/// more than ten thousand draws in each part.
pub proof fn law_plan_samples_as_its_settings_say(settings: Json, plan: PlanModel)
    requires
        planned(settings) == Ok::<PlanModel, Fault>(plan),
    ensures
        integer_of(field(settings, "chains"@)) matches Some(n) && plan.chains == n as u64,
        integer_of(field(settings, "warmup"@)) matches Some(n) && plan.num_warmup == n as usize,
        integer_of(field(settings, "draws"@)) matches Some(n) && plan.num_draws == n as usize,
        integer_of(field(settings, "max_treedepth"@)) matches Some(n) && plan.max_treedepth
            == n as usize,
        integer_of(field(settings, "seed"@)) matches Some(n) && plan.seed == n as u64,
        number_of(field(settings, "target_accept"@)) == Some(plan.target_accept),
        number_of(field(settings, "initial_step_size"@)) == Some(plan.initial_step_size),
        plan.chains <= 8 && plan.num_warmup <= 10_000 && plan.num_draws <= 10_000,
{
}

proof fn lemma_index_from(entries: Seq<(Seq<char>, Json)>, name: Seq<char>, i: int)
    requires
        0 <= i <= entries.len(),
    ensures
        index_from(entries, name, i) matches Some(k) ==> i <= k < entries.len() && entries[k].0
            == name,
    decreases entries.len() - i,
{
    if i < entries.len() && entries[i].0 != name {
        lemma_index_from(entries, name, i + 1);
    }
}

/// The citations of a decision become digests, those of the model where it cites the model and those
/// of the data where it cites the data; every other citation stays, and so does every other field.
pub proof fn law_citations_become_digests(
    entries: Seq<(Seq<char>, Json)>,
    k: int,
    items: Seq<Json>,
    model: Seq<char>,
    data: Seq<char>,
)
    requires
        index_from(entries, "cites"@, 0) == Some(k),
        entries[k].1 == Json::Array(items),
    ensures
        cited_decision(Json::Object(entries), model, data) matches Json::Object(out) && out.len()
            == entries.len() && out[k].0 == "cites"@ && (forall|j: int|
            0 <= j < entries.len() && j != k ==> #[trigger] out[j] == entries[j]) && (
        out[k].1 matches Json::Array(cites) && cites.len() == items.len() && forall|i: int|
            0 <= i < items.len() ==> #[trigger] cites[i] == (if items[i] == Json::Str("model"@) {
                Json::Str(model)
            } else if items[i] == Json::Str("data"@) {
                Json::Str(data)
            } else {
                items[i]
            })),
{
    lemma_index_from(entries, "cites"@, 0);
    assert forall|i: int| 0 <= i < items.len() implies cited_item(#[trigger] items[i], model, data)
        == (if items[i] == Json::Str("model"@) {
        Json::Str(model)
    } else if items[i] == Json::Str("data"@) {
        Json::Str(data)
    } else {
        items[i]
    }) by {}
}

} // verus!
