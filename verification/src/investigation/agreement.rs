//! A host whose services give one answer to one question verifies a bundle in one way only.

use vstd::prelude::*;

#[allow(unused_imports)]
use crate::data::DataModel;
#[allow(unused_imports)]
use crate::error::{Error, Fault};
#[allow(unused_imports)]
use crate::ir::MetaModel;
#[allow(unused_imports)]
use crate::json::Json;
#[allow(unused_imports)]
use crate::lines::lines_of;

#[allow(unused_imports)]
use super::artifacts::{
    artifact_accepted, bytes_read, data_accepted, draws_accepted, inspection_accepted, lines_accepted,
    marker_accepted, model_accepted, recipe_packing, sample_accepted,
};
#[allow(unused_imports)]
use super::host::World;
#[allow(unused_imports)]
use super::ledger::{views, DecisionModel, ExecutionModel};
#[allow(unused_imports)]
use super::manifest::{manifest_read, references, Manifest, ManifestModel, MAX_ANCESTRY};
#[allow(unused_imports)]
use super::recipe::RecipeModel;
#[allow(unused_imports)]
use super::records::{ArtifactKind, RefModel};
#[allow(unused_imports)]
use super::report::{snapshot_identity, FailureModel, Verification, VerificationFailure};
#[allow(unused_imports)]
use super::verify::{
    bundle_verified, citation_followed, citations_followed, cited, continued, decisions_followed, entered,
    execution_accepted, fresh, local_accepted, local_followed, plainly_verified, reference_followed,
    references_followed, reports, rest_followed, samples_accepted, snapshot_followed, source_ref, Followed,
    StateModel, Verified,
};

#[allow(unused_imports)]
use vstd::utf8::decode_utf8;

verus! {

/// Every service comes to one answer only.
pub open spec fn deterministic(w: World) -> bool {
    &&& forall|d: Seq<char>, x: Result<Seq<u8>, Fault>, y: Result<Seq<u8>, Fault>|
        #![trigger (w.loads)(d, x), (w.loads)(d, y)]
        (w.loads)(d, x) && (w.loads)(d, y) ==> x == y
    &&& forall|s: Seq<char>, x: Result<Json, Fault>, y: Result<Json, Fault>|
        #![trigger (w.reads)(s, x), (w.reads)(s, y)]
        (w.reads)(s, x) && (w.reads)(s, y) ==> x == y
    &&& forall|v: Json, x: Result<MetaModel, Fault>, y: Result<MetaModel, Fault>|
        #![trigger (w.decodes)(v, x), (w.decodes)(v, y)]
        (w.decodes)(v, x) && (w.decodes)(v, y) ==> x == y
    &&& forall|s: Seq<char>, x: Result<(), Fault>, y: Result<(), Fault>|
        #![trigger (w.diagnoses)(s, x), (w.diagnoses)(s, y)]
        (w.diagnoses)(s, x) && (w.diagnoses)(s, y) ==> x == y
    &&& forall|
        m: MetaModel,
        d: Seq<(Seq<char>, DataModel)>,
        x: Result<Seq<(Seq<char>, Seq<usize>)>, Fault>,
        y: Result<Seq<(Seq<char>, Seq<usize>)>, Fault>,
    |
        #![trigger (w.packs)(m, d, x), (w.packs)(m, d, y)]
        (w.packs)(m, d, x) && (w.packs)(m, d, y) ==> x == y
}

proof fn lemma_one_reading(
    w: World,
    bytes: Seq<u8>,
    context: Seq<char>,
    x: Result<Json, Fault>,
    y: Result<Json, Fault>,
)
    requires
        deterministic(w),
        bytes_read(w, bytes, context, x),
        bytes_read(w, bytes, context, y),
    ensures
        x == y,
{
}

proof fn lemma_one_model(w: World, bytes: Seq<u8>, x: Result<(), Fault>, y: Result<(), Fault>)
    requires
        deterministic(w),
        model_accepted(w, bytes, x),
        model_accepted(w, bytes, y),
    ensures
        x == y,
{
}

proof fn lemma_one_data(w: World, bytes: Seq<u8>, x: Result<(), Fault>, y: Result<(), Fault>)
    requires
        deterministic(w),
        data_accepted(w, bytes, x),
        data_accepted(w, bytes, y),
    ensures
        x == y,
{
}

proof fn lemma_one_inspection(w: World, bytes: Seq<u8>, x: Result<(), Fault>, y: Result<(), Fault>)
    requires
        deterministic(w),
        inspection_accepted(w, bytes, x),
        inspection_accepted(w, bytes, y),
    ensures
        x == y,
{
}

proof fn lemma_one_marker(
    w: World,
    bytes: Seq<u8>,
    name: Seq<char>,
    x: Result<(), Fault>,
    y: Result<(), Fault>,
)
    requires
        deterministic(w),
        marker_accepted(w, bytes, name, x),
        marker_accepted(w, bytes, name, y),
    ensures
        x == y,
{
}

proof fn lemma_one_stream(w: World, all: Seq<Seq<char>>, x: Result<(), Fault>, y: Result<(), Fault>)
    requires
        deterministic(w),
        lines_accepted(w, all, x),
        lines_accepted(w, all, y),
    ensures
        x == y,
    decreases all.len(),
{
    if all.len() > 0 {
        let rest = all.drop_last();
        if lines_accepted(w, rest, Ok(())) {
            if x is Err && lines_accepted(w, rest, x) {
                lemma_one_stream(w, rest, x, Ok(()));
            }
            if y is Err && lines_accepted(w, rest, y) {
                lemma_one_stream(w, rest, y, Ok(()));
            }
        } else {
            lemma_one_stream(w, rest, x, y);
        }
    }
}

proof fn lemma_one_draws(w: World, bytes: Seq<u8>, x: Result<(), Fault>, y: Result<(), Fault>)
    requires
        deterministic(w),
        draws_accepted(w, bytes, x),
        draws_accepted(w, bytes, y),
    ensures
        x == y,
{
    if vstd::utf8::valid_utf8(bytes) {
        let all = lines_of(decode_utf8(bytes));
        let seen = choose|seen: Result<(), Fault>| #[trigger]
            lines_accepted(w, all, seen) && match seen {
                Err(fault) => x == Err::<(), Fault>(fault),
                Ok(_) => (w.diagnoses)(decode_utf8(bytes), x),
            };
        let other = choose|seen: Result<(), Fault>| #[trigger]
            lines_accepted(w, all, seen) && match seen {
                Err(fault) => y == Err::<(), Fault>(fault),
                Ok(_) => (w.diagnoses)(decode_utf8(bytes), y),
            };
        lemma_one_stream(w, all, seen, other);
    }
}

proof fn lemma_one_artifact(
    w: World,
    kind: ArtifactKind,
    bytes: Seq<u8>,
    x: Result<(), Fault>,
    y: Result<(), Fault>,
)
    requires
        deterministic(w),
        artifact_accepted(w, kind, bytes, x),
        artifact_accepted(w, kind, bytes, y),
    ensures
        x == y,
{
    match kind {
        ArtifactKind::ModelIr => lemma_one_model(w, bytes, x, y),
        ArtifactKind::Data => lemma_one_data(w, bytes, x, y),
        ArtifactKind::Inspection => lemma_one_inspection(w, bytes, x, y),
        ArtifactKind::PosteriorDraws => lemma_one_draws(w, bytes, x, y),
        ArtifactKind::Diagnostics => lemma_one_marker(w, bytes, "diagnostics_format"@, x, y),
        ArtifactKind::PosteriorCheck => lemma_one_marker(w, bytes, "posterior_check_format"@, x, y),
        ArtifactKind::EngineCapabilities => lemma_one_marker(w, bytes, "capabilities_format"@, x, y),
        ArtifactKind::ReplayReport => lemma_one_marker(w, bytes, "replay_format"@, x, y),
        ArtifactKind::EngineBinary | ArtifactKind::InvestigationManifest => {},
    }
}

proof fn lemma_one_packing(
    w: World,
    model: Seq<char>,
    data: Seq<char>,
    x: Result<Seq<(Seq<char>, Seq<usize>)>, Fault>,
    y: Result<Seq<(Seq<char>, Seq<usize>)>, Fault>,
)
    requires
        deterministic(w),
        recipe_packing(w, model, data, x),
        recipe_packing(w, model, data, y),
    ensures
        x == y,
{
}

proof fn lemma_one_sample(
    w: World,
    model: Seq<u8>,
    data: Seq<u8>,
    fit: Seq<u8>,
    settings: Json,
    execution: Seq<char>,
    x: Result<(), Fault>,
    y: Result<(), Fault>,
)
    requires
        deterministic(w),
        sample_accepted(w, model, data, fit, settings, execution, x),
        sample_accepted(w, model, data, fit, settings, execution, y),
    ensures
        x == y,
{
    assert forall|
        p: Result<Seq<(Seq<char>, Seq<usize>)>, Fault>,
        q: Result<Seq<(Seq<char>, Seq<usize>)>, Fault>,
    |
        #![trigger recipe_packing(w, decode_utf8(model), decode_utf8(data), p), recipe_packing(w, decode_utf8(model), decode_utf8(data), q)]
        recipe_packing(w, decode_utf8(model), decode_utf8(data), p) && recipe_packing(
            w,
            decode_utf8(model),
            decode_utf8(data),
            q,
        ) implies p == q by {
        lemma_one_packing(w, decode_utf8(model), decode_utf8(data), p, q);
    }
}

proof fn lemma_one_samples(
    w: World,
    recipes: Seq<RecipeModel>,
    executions: Seq<ExecutionModel>,
    objects: Seq<(Seq<char>, Seq<u8>)>,
    x: Result<(), Fault>,
    y: Result<(), Fault>,
)
    requires
        deterministic(w),
        samples_accepted(w, recipes, executions, objects, x),
        samples_accepted(w, recipes, executions, objects, y),
    ensures
        x == y,
    decreases executions.len(),
{
    if executions.len() > 0 {
        let rest = executions.drop_last();
        if samples_accepted(w, recipes, rest, objects, Ok(())) {
            if x is Err && samples_accepted(w, recipes, rest, objects, x) {
                lemma_one_samples(w, recipes, rest, objects, x, Ok(()));
            }
            if y is Err && samples_accepted(w, recipes, rest, objects, y) {
                lemma_one_samples(w, recipes, rest, objects, y, Ok(()));
            }
            lemma_one_execution(w, recipes, objects, executions.last(), x, y);
        } else {
            lemma_one_samples(w, recipes, rest, objects, x, y);
        }
    }
}

proof fn lemma_one_execution(
    w: World,
    recipes: Seq<RecipeModel>,
    objects: Seq<(Seq<char>, Seq<u8>)>,
    execution: ExecutionModel,
    x: Result<(), Fault>,
    y: Result<(), Fault>,
)
    requires
        deterministic(w),
        execution_accepted(w, recipes, objects, execution, x),
        execution_accepted(w, recipes, objects, execution, y),
    ensures
        x == y,
{
    let recipe = super::manifest::recipe_named(recipes, execution.recipe)->0;
    if execution.outcome == super::ledger::Outcome::Completed && recipe.operation
        == super::recipe::Operation::Sample {
        lemma_one_sample(
            w,
            super::verify::object_named(objects, recipe.model.sha256)->0,
            super::verify::object_named(objects, recipe.data.sha256)->0,
            super::verify::object_named(objects, execution.output->0.sha256)->0,
            recipe.settings,
            execution.id,
            x,
            y,
        );
    }
}

proof fn lemma_one_reference(
    w: World,
    reference: RefModel,
    source: Option<RefModel>,
    before: Followed,
    x: Result<Followed, FailureModel>,
    y: Result<Followed, FailureModel>,
)
    requires
        deterministic(w),
        reference_followed(w, reference, source, before, x),
        reference_followed(w, reference, source, before, y),
    ensures
        x == y,
{
    assert forall|bytes: Seq<u8>, p: Result<(), Fault>, q: Result<(), Fault>|
        #![trigger artifact_accepted(w, reference.kind, bytes, p), artifact_accepted(w, reference.kind, bytes, q)]
        artifact_accepted(w, reference.kind, bytes, p) && artifact_accepted(
            w,
            reference.kind,
            bytes,
            q,
        ) implies p == q by {
        lemma_one_artifact(w, reference.kind, bytes, p, q);
    }
}

proof fn lemma_one_following(
    w: World,
    refs: Seq<RefModel>,
    source: Option<RefModel>,
    s: StateModel,
    x: Result<Followed, FailureModel>,
    y: Result<Followed, FailureModel>,
)
    requires
        deterministic(w),
        references_followed(w, refs, source, s, x),
        references_followed(w, refs, source, s, y),
    ensures
        x == y,
    decreases refs.len(),
{
    if refs.len() > 0 {
        let rest = refs.drop_last();
        let last = refs.last();
        if x is Err && references_followed(w, rest, source, s, x) {
            if y is Err && references_followed(w, rest, source, s, y) {
                lemma_one_following(w, rest, source, s, x, y);
            } else {
                let b = choose|b: Followed| #[trigger]
                    reference_followed(w, last, source, b, y) && references_followed(
                        w,
                        rest,
                        source,
                        s,
                        Ok(b),
                    );
                lemma_one_following(w, rest, source, s, x, Ok(b));
            }
        } else {
            let a = choose|a: Followed| #[trigger]
                reference_followed(w, last, source, a, x) && references_followed(
                    w,
                    rest,
                    source,
                    s,
                    Ok(a),
                );
            if y is Err && references_followed(w, rest, source, s, y) {
                lemma_one_following(w, rest, source, s, Ok(a), y);
            } else {
                let b = choose|b: Followed| #[trigger]
                    reference_followed(w, last, source, b, y) && references_followed(
                        w,
                        rest,
                        source,
                        s,
                        Ok(b),
                    );
                lemma_one_following(w, rest, source, s, Ok(a), Ok(b));
                lemma_one_reference(w, last, source, a, x, y);
            }
        }
    }
}

proof fn lemma_one_citing(
    w: World,
    decision: Seq<char>,
    cites: Seq<Seq<char>>,
    s: StateModel,
    x: Result<StateModel, FailureModel>,
    y: Result<StateModel, FailureModel>,
)
    requires
        deterministic(w),
        citations_followed(w, decision, cites, s, x),
        citations_followed(w, decision, cites, s, y),
    ensures
        x == y,
    decreases cites.len(),
{
    if cites.len() > 0 {
        let rest = cites.drop_last();
        let last = cites.last();
        if x is Err && citations_followed(w, decision, rest, s, x) {
            if y is Err && citations_followed(w, decision, rest, s, y) {
                lemma_one_citing(w, decision, rest, s, x, y);
            } else {
                let b = choose|b: StateModel| #[trigger]
                    citation_followed(w, decision, last, b, y) && citations_followed(
                        w,
                        decision,
                        rest,
                        s,
                        Ok(b),
                    );
                lemma_one_citing(w, decision, rest, s, x, Ok(b));
            }
        } else {
            let a = choose|a: StateModel| #[trigger]
                citation_followed(w, decision, last, a, x) && citations_followed(
                    w,
                    decision,
                    rest,
                    s,
                    Ok(a),
                );
            if y is Err && citations_followed(w, decision, rest, s, y) {
                lemma_one_citing(w, decision, rest, s, Ok(a), y);
            } else {
                let b = choose|b: StateModel| #[trigger]
                    citation_followed(w, decision, last, b, y) && citations_followed(
                        w,
                        decision,
                        rest,
                        s,
                        Ok(b),
                    );
                lemma_one_citing(w, decision, rest, s, Ok(a), Ok(b));
            }
        }
    }
}

proof fn lemma_one_deciding(
    w: World,
    decisions: Seq<DecisionModel>,
    s: StateModel,
    x: Result<StateModel, FailureModel>,
    y: Result<StateModel, FailureModel>,
)
    requires
        deterministic(w),
        decisions_followed(w, decisions, s, x),
        decisions_followed(w, decisions, s, y),
    ensures
        x == y,
    decreases decisions.len(),
{
    if decisions.len() > 0 {
        let rest = decisions.drop_last();
        let id = decisions.last().id;
        let cites = decisions.last().cites;
        if x is Err && decisions_followed(w, rest, s, x) {
            if y is Err && decisions_followed(w, rest, s, y) {
                lemma_one_deciding(w, rest, s, x, y);
            } else {
                let b = choose|b: StateModel| #[trigger]
                    citations_followed(w, id, cites, b, y) && decisions_followed(w, rest, s, Ok(b));
                lemma_one_deciding(w, rest, s, x, Ok(b));
            }
        } else {
            let a = choose|a: StateModel| #[trigger]
                citations_followed(w, id, cites, a, x) && decisions_followed(w, rest, s, Ok(a));
            if y is Err && decisions_followed(w, rest, s, y) {
                lemma_one_deciding(w, rest, s, Ok(a), y);
            } else {
                let b = choose|b: StateModel| #[trigger]
                    citations_followed(w, id, cites, b, y) && decisions_followed(w, rest, s, Ok(b));
                lemma_one_deciding(w, rest, s, Ok(a), Ok(b));
                lemma_one_citing(w, id, cites, a, x, y);
            }
        }
    }
}

proof fn lemma_one_locally(
    w: World,
    m: ManifestModel,
    s: StateModel,
    x: Result<Followed, FailureModel>,
    y: Result<Followed, FailureModel>,
)
    requires
        deterministic(w),
        local_followed(w, m, s, x),
        local_followed(w, m, s, y),
    ensures
        x == y,
{
    let a = choose|a: Result<Followed, FailureModel>| #[trigger]
        references_followed(w, references(m), source_ref(m), s, a) && match a {
            Err(f) => x == Err::<Followed, FailureModel>(f),
            Ok(followed) => local_accepted(w, m, followed, x),
        };
    let b = choose|b: Result<Followed, FailureModel>| #[trigger]
        references_followed(w, references(m), source_ref(m), s, b) && match b {
            Err(f) => y == Err::<Followed, FailureModel>(f),
            Ok(followed) => local_accepted(w, m, followed, y),
        };
    lemma_one_following(w, references(m), source_ref(m), s, a, b);
    if let Ok(followed) = a {
        assert forall|p: Result<(), Fault>, q: Result<(), Fault>|
            #![trigger samples_accepted(w, m.recipes, m.executions, followed.0.objects, p), samples_accepted(w, m.recipes, m.executions, followed.0.objects, q)]
            samples_accepted(w, m.recipes, m.executions, followed.0.objects, p)
                && samples_accepted(
                w,
                m.recipes,
                m.executions,
                followed.0.objects,
                q,
            ) implies p == q by {
            lemma_one_samples(w, m.recipes, m.executions, followed.0.objects, p, q);
        }
    }
}

proof fn lemma_one_ending(
    w: World,
    m: ManifestModel,
    s: StateModel,
    x: Result<Verified, FailureModel>,
    y: Result<Verified, FailureModel>,
)
    requires
        deterministic(w),
        cited(w, m, s, x),
        cited(w, m, s, y),
    ensures
        x == y,
{
    assert forall|p: Result<StateModel, FailureModel>, q: Result<StateModel, FailureModel>|
        #![trigger decisions_followed(w, m.decisions, s, p), decisions_followed(w, m.decisions, s, q)]
        decisions_followed(w, m.decisions, s, p) && decisions_followed(
            w,
            m.decisions,
            s,
            q,
        ) implies p == q by {
        lemma_one_deciding(w, m.decisions, s, p, q);
    }
}

proof fn lemma_one_snapshot(
    w: World,
    bytes: Seq<u8>,
    depth: nat,
    s: StateModel,
    x: Result<Verified, FailureModel>,
    y: Result<Verified, FailureModel>,
)
    requires
        deterministic(w),
        snapshot_followed(w, bytes, depth, s, x),
        snapshot_followed(w, bytes, depth, s, y),
    ensures
        x == y,
    decreases MAX_ANCESTRY - depth, 1int,
{
    let snapshot = snapshot_identity(bytes);
    if depth < MAX_ANCESTRY && !s.snapshots.contains(snapshot) {
        let begun = entered(s, snapshot, depth);
        let (a, m, p) = lemma_local_of(w, bytes, depth, s, x);
        let (b, n, q) = lemma_local_of(w, bytes, depth, s, y);
        assert(a == b);
        if a is Ok {
            lemma_one_locally(w, m, begun, p, q);
            if let Ok(followed) = p {
                lemma_one_rest(w, m, depth, followed, x, y);
            }
        }
    }
}

/// What a snapshot was read as, and what its own references came to.
proof fn lemma_local_of(
    w: World,
    bytes: Seq<u8>,
    depth: nat,
    s: StateModel,
    x: Result<Verified, FailureModel>,
) -> (r: (Result<ManifestModel, Fault>, ManifestModel, Result<Followed, FailureModel>))
    requires
        snapshot_followed(w, bytes, depth, s, x),
        depth < MAX_ANCESTRY,
        !s.snapshots.contains(snapshot_identity(bytes)),
    ensures
        manifest_read(w.reads, bytes, r.0),
        match r.0 {
            Err(fault) => x == Err::<Verified, FailureModel>(
                FailureModel {
                    dimension: super::report::VerificationDimension::FormatSchema,
                    fault,
                },
            ),
            Ok(m) => r.1 == m && local_followed(
                w,
                m,
                entered(s, snapshot_identity(bytes), depth),
                r.2,
            ) && match r.2 {
                Err(f) => x == Err::<Verified, FailureModel>(f),
                Ok(followed) => rest_followed(w, m, depth, followed, x),
            },
        },
{
    let begun = entered(s, snapshot_identity(bytes), depth);
    let read = choose|read: Result<ManifestModel, Fault>| #[trigger]
        manifest_read(w.reads, bytes, read) && match read {
            Err(fault) => x == Err::<Verified, FailureModel>(
                FailureModel {
                    dimension: super::report::VerificationDimension::FormatSchema,
                    fault,
                },
            ),
            Ok(m) => exists|local: Result<Followed, FailureModel>| #[trigger]
                local_followed(w, m, begun, local) && match local {
                    Err(f) => x == Err::<Verified, FailureModel>(f),
                    Ok(followed) => rest_followed(w, m, depth, followed, x),
                },
        };
    match read {
        Err(_) => (read, arbitrary(), arbitrary()),
        Ok(m) => {
            let local = choose|local: Result<Followed, FailureModel>| #[trigger]
                local_followed(w, m, begun, local) && match local {
                    Err(f) => x == Err::<Verified, FailureModel>(f),
                    Ok(followed) => rest_followed(w, m, depth, followed, x),
                };
            (read, m, local)
        },
    }
}

proof fn lemma_one_rest(
    w: World,
    m: ManifestModel,
    depth: nat,
    followed: Followed,
    x: Result<Verified, FailureModel>,
    y: Result<Verified, FailureModel>,
)
    requires
        deterministic(w),
        rest_followed(w, m, depth, followed, x),
        rest_followed(w, m, depth, followed, y),
    ensures
        x == y,
    decreases MAX_ANCESTRY - depth, 0int,
{
    if m.source is None {
        lemma_one_ending(w, m, followed.0, x, y);
    } else if super::verify::source_failure(m.source->0, followed.1) is None {
        let p = choose|p: Result<Verified, FailureModel>| #[trigger]
            continued(w, m, p, x) && snapshot_followed(
                w,
                followed.1->0,
                depth + 1,
                followed.0,
                p,
            );
        let q = choose|q: Result<Verified, FailureModel>| #[trigger]
            continued(w, m, q, y) && snapshot_followed(
                w,
                followed.1->0,
                depth + 1,
                followed.0,
                q,
            );
        lemma_one_snapshot(w, followed.1->0, depth + 1, followed.0, p, q);
        if let Ok(verified) = p {
            if super::manifest::decision_from(verified.0.decisions, m.source->0.decision, 0)
                is Some {
                lemma_one_ending(w, m, verified.1, x, y);
            }
        }
    }
}

/// Reports that say the same.
pub open spec fn same_report(a: Verification, b: Verification) -> bool {
    &&& a.snapshot_id@ == b.snapshot_id@
    &&& a.schema_valid == b.schema_valid
    &&& a.reference_closure_valid == b.reference_closure_valid
    &&& a.object_integrity_valid == b.object_integrity_valid
    &&& a.current_results_valid == b.current_results_valid
    &&& a.engine_artifacts_available == b.engine_artifacts_available
    &&& a.replay_recorded == b.replay_recorded
    &&& a.object_count == b.object_count
    &&& a.ancestry_depth == b.ancestry_depth
    &&& views(a.object_digests@) == views(b.object_digests@)
}

/// The two forms of verification agree over services that give one answer to one question: they
/// come to the same manifest and report, or to the same failure, which one of them gives without
/// its dimension.
pub proof fn law_both_forms_of_verification_agree(
    w: World,
    bytes: Seq<u8>,
    plain: Result<(Manifest, Verification), Error>,
    detailed: Result<(Manifest, Verification), VerificationFailure>,
)
    requires
        deterministic(w),
        plainly_verified(w, bytes, plain),
        bundle_verified(w, bytes, detailed),
    ensures
        match (plain, detailed) {
            (Ok(a), Ok(b)) => a.0@ == b.0@ && same_report(a.1, b.1),
            (Err(error), Err(failure)) => error@ == failure.error@,
            _ => false,
        },
{
    let (x, first) = match plain {
        Ok(a) => {
            let s = choose|s: StateModel| #[trigger]
                reports(a.1, bytes, s) && snapshot_followed(w, bytes, 0, fresh(), Ok((a.0@, s)));
            (Ok::<Verified, FailureModel>((a.0@, s)), s)
        },
        Err(error) => {
            let dimension = choose|dimension: super::report::VerificationDimension| #[trigger]
                bundle_verified(w, bytes, Err(VerificationFailure { dimension, error }));
            (
                Err::<Verified, FailureModel>(FailureModel { dimension, fault: error@ }),
                fresh(),
            )
        },
    };
    let (y, second) = match detailed {
        Ok(b) => {
            let s = choose|s: StateModel| #[trigger]
                reports(b.1, bytes, s) && snapshot_followed(w, bytes, 0, fresh(), Ok((b.0@, s)));
            (Ok::<Verified, FailureModel>((b.0@, s)), s)
        },
        Err(failure) => (Err::<Verified, FailureModel>(failure@), fresh()),
    };
    assert(snapshot_followed(w, bytes, 0, fresh(), x));
    assert(snapshot_followed(w, bytes, 0, fresh(), y));
    lemma_one_snapshot(w, bytes, 0, fresh(), x, y);
}

} // verus!
