//! Verification of a bundle: a manifest, everything it names, and its ancestry, without running
//! any recipe.

use vstd::prelude::*;

use crate::error::{malformed, Error};
#[allow(unused_imports)]
use crate::error::{malformed_fault, outcome, Fault};
use crate::ir::ModelMeta;
use crate::json::Value;
use crate::numerics::Arithmetic;
#[allow(unused_imports)]
use crate::json::Json;
use crate::order::sort_texts;
#[allow(unused_imports)]
use crate::order::sorted_texts;
use crate::text;
#[allow(unused_imports)]
use crate::text::{debug_text, decimal_text, text_views};

#[allow(unused_imports)]
use super::artifacts::{artifact_accepted, sample_accepted};
#[allow(unused_imports)]
use super::fields::verdict;
use super::host::Host;
#[allow(unused_imports)]
use super::host::World;
#[allow(unused_imports)]
use super::identity::digest_text;
use super::identity::{artifact_digest, snapshot_digest, Digest};
use super::ledger::{Decision, Execution, Outcome, Source};
#[allow(unused_imports)]
use super::ledger::{valid_execution, views, DecisionModel, ExecutionModel, SourceModel};
use super::manifest::{find_recipe, Manifest, MAX_ANCESTRY, MAX_OBJECTS};
#[allow(unused_imports)]
use super::manifest::{
    decision_from, decision_refs, execution_refs, gathered, manifest_read, read_manifest, reads, recipe_from,
    recipe_named, recipe_refs, ref_views, references, ManifestModel,
};
use super::recipe::{Operation, Recipe};
#[allow(unused_imports)]
use super::recipe::RecipeModel;
use super::records::{ArtifactKind, ArtifactRef, MAX_OBJECT_BYTES};
#[allow(unused_imports)]
use super::records::RefModel;
use super::report::{Verification, VerificationDimension, VerificationFailure};
#[allow(unused_imports)]
use super::report::{snapshot_identity, FailureModel};
#[allow(unused_imports)]
use super::snapshot_laws::{follows_recipe, law_read_manifest_is_valid, valid_manifest};

verus! {

/// What has been verified so far.
struct VerifyState {
    objects: Vec<(String, Vec<u8>)>,
    snapshots: Vec<String>,
    replay_recorded: bool,
    engine_available: bool,
    max_depth: usize,
}

/// The mathematical content of what has been verified so far: the objects by their digests, the
/// identities of the snapshots entered, what was met among the kinds, and how deep it went.
#[verifier::ext_equal]
pub struct StateModel {
    pub objects: Seq<(Seq<char>, Seq<u8>)>,
    pub snapshots: Seq<Seq<char>>,
    pub replay_recorded: bool,
    pub engine_available: bool,
    pub max_depth: nat,
}

/// The views of stored objects.
pub open spec fn object_views(objects: Seq<(String, Vec<u8>)>) -> Seq<(Seq<char>, Seq<u8>)> {
    objects.map_values(|o: (String, Vec<u8>)| (o.0@, o.1@))
}

impl View for VerifyState {
    type V = StateModel;

    closed spec fn view(&self) -> StateModel {
        StateModel {
            objects: object_views(self.objects@),
            snapshots: text_views(self.snapshots@),
            replay_recorded: self.replay_recorded,
            engine_available: self.engine_available,
            max_depth: self.max_depth as nat,
        }
    }
}

/// The first object of that digest at or behind position `i`.
pub open spec fn object_from(objects: Seq<(Seq<char>, Seq<u8>)>, digest: Seq<char>, i: int) -> Option<Seq<u8>>
    decreases objects.len() - i,
{
    if i < 0 || i >= objects.len() {
        None
    } else if objects[i].0 == digest {
        Some(objects[i].1)
    } else {
        object_from(objects, digest, i + 1)
    }
}

/// The object of that digest.
pub open spec fn object_named(objects: Seq<(Seq<char>, Seq<u8>)>, digest: Seq<char>) -> Option<Seq<u8>> {
    object_from(objects, digest, 0)
}

/// A failure of a dimension.
pub open spec fn failure(dimension: VerificationDimension, message: Seq<char>) -> FailureModel {
    FailureModel { dimension, fault: malformed_fault(message) }
}

fn fail(dimension: VerificationDimension, message: String) -> (r: VerificationFailure)
    ensures
        r@ == failure(dimension, message@),
{
    VerificationFailure::new(dimension, malformed(message))
}

/// What is wrong with the bytes that were loaded for a reference.
pub open spec fn object_failure(reference: RefModel, bytes: Seq<u8>) -> Option<FailureModel> {
    if bytes.len() != reference.bytes {
        Some(
            failure(
                VerificationDimension::ObjectIntegrity,
                "object "@ + ("sha256:"@ + reference.sha256) + " has "@ + decimal_text(bytes.len())
                    + " bytes but its reference requires "@ + decimal_text(reference.bytes as nat),
            ),
        )
    } else if digest_text(bytes) != reference.sha256 {
        Some(
            failure(
                VerificationDimension::ObjectIntegrity,
                "object integrity failure for "@ + ("sha256:"@ + reference.sha256)
                    + "; exact bytes hash to "@ + ("sha256:"@ + digest_text(bytes)),
            ),
        )
    } else {
        None
    }
}

fn check_object(reference: &ArtifactRef, bytes: &Vec<u8>) -> (r: Result<(), VerificationFailure>)
    ensures
        match r {
            Ok(_) => object_failure(reference@, bytes@) is None,
            Err(f) => object_failure(reference@, bytes@) == Some(f@),
        },
{
    let name: String = reference.sha256.prefixed();
    if bytes.len() != reference.bytes {
        let have: String = text::decimal(bytes.len() as u64);
        let wanted: String = text::decimal(reference.bytes as u64);
        return Err(
            fail(
                VerificationDimension::ObjectIntegrity,
                text::cat6(
                    "object ",
                    name.as_str(),
                    " has ",
                    have.as_str(),
                    " bytes but its reference requires ",
                    wanted.as_str(),
                ),
            ),
        );
    }
    let actual: Digest = artifact_digest(bytes.as_slice());
    if !text::same(actual.as_str(), reference.sha256.as_str()) {
        let found: String = actual.prefixed();
        return Err(
            fail(
                VerificationDimension::ObjectIntegrity,
                text::cat4(
                    "object integrity failure for ",
                    name.as_str(),
                    "; exact bytes hash to ",
                    found.as_str(),
                ),
            ),
        );
    }
    Ok(())
}

/// A state with one more object, unless it is known already. There is room for so many only.
pub open spec fn stored(s: StateModel, digest: Seq<char>, bytes: Seq<u8>) -> Result<
    StateModel,
    FailureModel,
> {
    if object_named(s.objects, digest) is Some {
        Ok(s)
    } else if s.objects.len() + 1 > MAX_OBJECTS {
        Err(
            failure(
                VerificationDimension::ReferenceClosure,
                "bundle exceeds the 256-object limit"@,
            ),
        )
    } else {
        Ok(StateModel { objects: s.objects.push((digest, bytes)), ..s })
    }
}

impl VerifyState {
    fn find(&self, digest: &str) -> (r: Option<&Vec<u8>>)
        ensures
            match r {
                Some(bytes) => object_named(self@.objects, digest@) == Some(bytes@),
                None => object_named(self@.objects, digest@) is None,
            },
    {
        let ghost all = self@.objects;
        let mut i: usize = 0;
        while i < self.objects.len()
            invariant
                i <= self.objects.len(),
                all == self@.objects,
                object_named(all, digest@) == object_from(all, digest@, i as int),
            decreases self.objects.len() - i,
        {
            assert(all[i as int] == (self.objects@[i as int].0@, self.objects@[i as int].1@));
            if text::same(self.objects[i].0.as_str(), digest) {
                return Some(&self.objects[i].1);
            }
            i += 1;
        }
        None
    }

    fn store(&mut self, digest: &str, bytes: Vec<u8>) -> (r: Result<(), VerificationFailure>)
        ensures
            match r {
                Ok(_) => stored(old(self)@, digest@, bytes@) == Ok::<StateModel, FailureModel>(
                    final(self)@,
                ),
                Err(f) => stored(old(self)@, digest@, bytes@) == Err::<StateModel, FailureModel>(
                    f@,
                ),
            },
    {
        if self.find(digest).is_some() {
            return Ok(());
        }
        if self.objects.len() >= MAX_OBJECTS {
            return Err(
                fail(
                    VerificationDimension::ReferenceClosure,
                    "bundle exceeds the 256-object limit".to_owned(),
                ),
            );
        }
        let ghost before = self@;
        let ghost content = bytes@;
        self.objects.push((digest.to_owned(), bytes));
        assert(self@.objects =~= before.objects.push((digest@, content)));
        Ok(())
    }

    fn entered_before(&self, snapshot: &str) -> (r: bool)
        ensures
            r == self@.snapshots.contains(snapshot@),
    {
        let ghost all = self@.snapshots;
        let mut i: usize = 0;
        while i < self.snapshots.len()
            invariant
                i <= self.snapshots.len(),
                all == self@.snapshots,
                forall|j: int| 0 <= j < i ==> #[trigger] all[j] != snapshot@,
            decreases self.snapshots.len() - i,
        {
            assert(all[i as int] == self.snapshots@[i as int]@);
            if text::same(self.snapshots[i].as_str(), snapshot) {
                return true;
            }
            i += 1;
        }
        false
    }
}

/// A state that remembers which kind of artifact was met.
pub open spec fn met(s: StateModel, kind: ArtifactKind) -> StateModel {
    StateModel {
        replay_recorded: s.replay_recorded || kind == ArtifactKind::ReplayReport,
        engine_available: s.engine_available || kind == ArtifactKind::EngineBinary,
        ..s
    }
}

/// What following references has come to: the state, and the bytes of the source manifest once
/// they were loaded.
pub type Followed = (StateModel, Option<Seq<u8>>);

/// What a reference whose bytes came, and were accepted or not, makes of what was followed before.
pub open spec fn reference_kept(
    reference: RefModel,
    source: Option<RefModel>,
    before: Followed,
    next: StateModel,
    bytes: Seq<u8>,
    accepted: Result<(), Fault>,
) -> Result<Followed, FailureModel> {
    match accepted {
        Err(fault) => Err(
            FailureModel { dimension: VerificationDimension::CurrentResults, fault },
        ),
        Ok(_) => Ok(
            (
                met(next, reference.kind),
                if source == Some(reference) {
                    Some(bytes)
                } else {
                    before.1
                },
            ),
        ),
    }
}

/// Whether following one reference can come to that.
pub open spec fn reference_followed(
    world: World,
    reference: RefModel,
    source: Option<RefModel>,
    before: Followed,
    out: Result<Followed, FailureModel>,
) -> bool {
    exists|reply: Result<Seq<u8>, Fault>| #[trigger]
        (world.loads)(reference.sha256, reply) && match reply {
            Err(fault) => out == Err::<Followed, FailureModel>(
                FailureModel { dimension: VerificationDimension::ReferenceClosure, fault },
            ),
            Ok(bytes) => match object_failure(reference, bytes) {
                Some(f) => out == Err::<Followed, FailureModel>(f),
                None => match stored(before.0, reference.sha256, bytes) {
                    Err(f) => out == Err::<Followed, FailureModel>(f),
                    Ok(next) => exists|accepted: Result<(), Fault>| #[trigger]
                        artifact_accepted(world, reference.kind, bytes, accepted) && out
                            == reference_kept(reference, source, before, next, bytes, accepted),
                },
            },
        }
}

/// Whether following references in order can come to that.
pub open spec fn references_followed(
    world: World,
    refs: Seq<RefModel>,
    source: Option<RefModel>,
    s: StateModel,
    out: Result<Followed, FailureModel>,
) -> bool
    decreases refs.len(),
{
    if refs.len() == 0 {
        out == Ok::<Followed, FailureModel>((s, None))
    } else {
        ||| out is Err && references_followed(world, refs.drop_last(), source, s, out)
        ||| exists|before: Followed| #[trigger]
            reference_followed(world, refs.last(), source, before, out) && references_followed(
                world,
                refs.drop_last(),
                source,
                s,
                Ok(before),
            )
    }
}

proof fn lemma_references_failed(
    world: World,
    refs: Seq<RefModel>,
    source: Option<RefModel>,
    s: StateModel,
    n: int,
    f: FailureModel,
)
    requires
        0 <= n <= refs.len(),
        references_followed(world, refs.take(n), source, s, Err(f)),
    ensures
        references_followed(world, refs, source, s, Err(f)),
    decreases refs.len(),
{
    if n < refs.len() {
        assert(refs.drop_last().take(n) =~= refs.take(n));
        lemma_references_failed(world, refs.drop_last(), source, s, n, f);
    } else {
        assert(refs.take(n) =~= refs);
    }
}

proof fn lemma_object_kept(objects: Seq<(Seq<char>, Seq<u8>)>, item: (Seq<char>, Seq<u8>), digest: Seq<char>, i: int)
    requires
        0 <= i <= objects.len(),
    ensures
        object_from(objects, digest, i) is Some ==> object_from(objects.push(item), digest, i)
            == object_from(objects, digest, i),
        object_from(objects, digest, i) is None && item.0 == digest ==> object_from(
            objects.push(item),
            digest,
            i,
        ) == Some(item.1),
        object_from(objects, digest, i) is None && item.0 != digest ==> object_from(
            objects.push(item),
            digest,
            i,
        ) is None,
    decreases objects.len() - i,
{
    let more = objects.push(item);
    if i < objects.len() {
        assert(more[i] == objects[i]);
        lemma_object_kept(objects, item, digest, i + 1);
    } else {
        assert(more[i] == item);
        assert(object_from(more, digest, i + 1) is None);
    }
}

/// Storing keeps every object, and the stored one is there.
proof fn lemma_stored(s: StateModel, digest: Seq<char>, bytes: Seq<u8>, other: Seq<char>)
    requires
        stored(s, digest, bytes) is Ok,
    ensures
        object_named(stored(s, digest, bytes)->Ok_0.objects, digest) is Some,
        object_named(s.objects, other) is Some ==> object_named(
            stored(s, digest, bytes)->Ok_0.objects,
            other,
        ) == object_named(s.objects, other),
{
    lemma_object_kept(s.objects, (digest, bytes), digest, 0);
    lemma_object_kept(s.objects, (digest, bytes), other, 0);
}

/// Whether one execution can come to that, held against its recipe.
pub open spec fn execution_accepted(
    world: World,
    recipes: Seq<RecipeModel>,
    objects: Seq<(Seq<char>, Seq<u8>)>,
    execution: ExecutionModel,
    out: Result<(), Fault>,
) -> bool {
    let recipe = recipe_named(recipes, execution.recipe)->0;
    if execution.outcome != Outcome::Completed || recipe.operation != Operation::Sample {
        out == Ok::<(), Fault>(())
    } else {
        sample_accepted(
            world,
            object_named(objects, recipe.model.sha256)->0,
            object_named(objects, recipe.data.sha256)->0,
            object_named(objects, execution.output->0.sha256)->0,
            recipe.settings,
            execution.id,
            out,
        )
    }
}

/// Whether the completed sample runs of a manifest can come to that.
pub open spec fn samples_accepted(
    world: World,
    recipes: Seq<RecipeModel>,
    executions: Seq<ExecutionModel>,
    objects: Seq<(Seq<char>, Seq<u8>)>,
    out: Result<(), Fault>,
) -> bool
    decreases executions.len(),
{
    if executions.len() == 0 {
        out == Ok::<(), Fault>(())
    } else {
        ||| out is Err && samples_accepted(world, recipes, executions.drop_last(), objects, out)
        ||| samples_accepted(world, recipes, executions.drop_last(), objects, Ok(()))
            && execution_accepted(world, recipes, objects, executions.last(), out)
    }
}

proof fn lemma_samples_failed(
    world: World,
    recipes: Seq<RecipeModel>,
    executions: Seq<ExecutionModel>,
    objects: Seq<(Seq<char>, Seq<u8>)>,
    n: int,
    fault: Fault,
)
    requires
        0 <= n <= executions.len(),
        samples_accepted(world, recipes, executions.take(n), objects, Err(fault)),
    ensures
        samples_accepted(world, recipes, executions, objects, Err(fault)),
    decreases executions.len(),
{
    if n < executions.len() {
        assert(executions.drop_last().take(n) =~= executions.take(n));
        lemma_samples_failed(world, recipes, executions.drop_last(), objects, n, fault);
    } else {
        assert(executions.take(n) =~= executions);
    }
}

/// What a citation whose bytes came makes of a state.
pub open spec fn citation_kept(s: StateModel, decision: Seq<char>, citation: Seq<char>, bytes: Seq<u8>) -> Result<
    StateModel,
    FailureModel,
> {
    if bytes.len() > MAX_OBJECT_BYTES {
        Err(
            failure(
                VerificationDimension::ObjectIntegrity,
                "cited object "@ + ("sha256:"@ + citation) + " exceeds the 67108864-byte limit"@,
            ),
        )
    } else if digest_text(bytes) != citation {
        Err(
            failure(
                VerificationDimension::ObjectIntegrity,
                "decision "@ + debug_text(decision) + " citation integrity failure: expected "@ + (
                "sha256:"@ + citation) + ", exact bytes hash to "@ + ("sha256:"@ + digest_text(bytes)),
            ),
        )
    } else {
        stored(s, citation, bytes)
    }
}

/// Whether following one citation can come to that.
pub open spec fn citation_followed(
    world: World,
    decision: Seq<char>,
    citation: Seq<char>,
    s: StateModel,
    out: Result<StateModel, FailureModel>,
) -> bool {
    if object_named(s.objects, citation) is Some {
        out == Ok::<StateModel, FailureModel>(s)
    } else {
        exists|reply: Result<Seq<u8>, Fault>| #[trigger]
            (world.loads)(citation, reply) && match reply {
                Err(_) => out == Err::<StateModel, FailureModel>(
                    failure(
                        VerificationDimension::ReferenceClosure,
                        "decision "@ + debug_text(decision) + " cites missing artifact "@ + (
                        "sha256:"@ + citation) + "; restore its exact bytes"@,
                    ),
                ),
                Ok(bytes) => out == citation_kept(s, decision, citation, bytes),
            }
    }
}

/// Whether following the citations of one decision can come to that.
pub open spec fn citations_followed(
    world: World,
    decision: Seq<char>,
    cites: Seq<Seq<char>>,
    s: StateModel,
    out: Result<StateModel, FailureModel>,
) -> bool
    decreases cites.len(),
{
    if cites.len() == 0 {
        out == Ok::<StateModel, FailureModel>(s)
    } else {
        ||| out is Err && citations_followed(world, decision, cites.drop_last(), s, out)
        ||| exists|before: StateModel| #[trigger]
            citation_followed(world, decision, cites.last(), before, out) && citations_followed(
                world,
                decision,
                cites.drop_last(),
                s,
                Ok(before),
            )
    }
}

proof fn lemma_citations_failed(
    world: World,
    decision: Seq<char>,
    cites: Seq<Seq<char>>,
    s: StateModel,
    n: int,
    f: FailureModel,
)
    requires
        0 <= n <= cites.len(),
        citations_followed(world, decision, cites.take(n), s, Err(f)),
    ensures
        citations_followed(world, decision, cites, s, Err(f)),
    decreases cites.len(),
{
    if n < cites.len() {
        assert(cites.drop_last().take(n) =~= cites.take(n));
        lemma_citations_failed(world, decision, cites.drop_last(), s, n, f);
    } else {
        assert(cites.take(n) =~= cites);
    }
}

/// Whether following the citations of decisions in order can come to that.
pub open spec fn decisions_followed(
    world: World,
    decisions: Seq<DecisionModel>,
    s: StateModel,
    out: Result<StateModel, FailureModel>,
) -> bool
    decreases decisions.len(),
{
    if decisions.len() == 0 {
        out == Ok::<StateModel, FailureModel>(s)
    } else {
        ||| out is Err && decisions_followed(world, decisions.drop_last(), s, out)
        ||| exists|before: StateModel| #[trigger]
            citations_followed(
                world,
                decisions.last().id,
                decisions.last().cites,
                before,
                out,
            ) && decisions_followed(world, decisions.drop_last(), s, Ok(before))
    }
}

proof fn lemma_decisions_failed(
    world: World,
    decisions: Seq<DecisionModel>,
    s: StateModel,
    n: int,
    f: FailureModel,
)
    requires
        0 <= n <= decisions.len(),
        decisions_followed(world, decisions.take(n), s, Err(f)),
    ensures
        decisions_followed(world, decisions, s, Err(f)),
    decreases decisions.len(),
{
    if n < decisions.len() {
        assert(decisions.drop_last().take(n) =~= decisions.take(n));
        lemma_decisions_failed(world, decisions.drop_last(), s, n, f);
    } else {
        assert(decisions.take(n) =~= decisions);
    }
}

/// The reference to the manifest that a snapshot continues.
pub open spec fn source_ref(m: ManifestModel) -> Option<RefModel> {
    match m.source {
        Some(source) => Some(source.manifest),
        None => None,
    }
}

/// Whether what a manifest names itself can come to that: its references, then its sample runs.
pub open spec fn local_followed(
    world: World,
    m: ManifestModel,
    s: StateModel,
    out: Result<Followed, FailureModel>,
) -> bool {
    exists|refs: Result<Followed, FailureModel>| #[trigger]
        references_followed(world, references(m), source_ref(m), s, refs) && match refs {
            Err(f) => out == Err::<Followed, FailureModel>(f),
            Ok(followed) => local_accepted(world, m, followed, out),
        }
}

/// Whether the sample runs of a manifest can come to that once its references were followed.
pub open spec fn local_accepted(
    world: World,
    m: ManifestModel,
    followed: Followed,
    out: Result<Followed, FailureModel>,
) -> bool {
    exists|accepted: Result<(), Fault>| #[trigger]
        samples_accepted(world, m.recipes, m.executions, followed.0.objects, accepted) && out == (
        match accepted {
            Err(fault) => Err::<Followed, FailureModel>(
                FailureModel { dimension: VerificationDimension::CurrentResults, fault },
            ),
            Ok(_) => Ok(followed),
        })
}

proof fn lemma_local(
    world: World,
    m: ManifestModel,
    s: StateModel,
    followed: Followed,
    accepted: Result<(), Fault>,
)
    requires
        references_followed(world, references(m), source_ref(m), s, Ok(followed)),
        samples_accepted(world, m.recipes, m.executions, followed.0.objects, accepted),
    ensures
        accepted is Ok ==> local_followed(world, m, s, Ok(followed)),
        accepted is Err ==> local_followed(
            world,
            m,
            s,
            Err(
                FailureModel {
                    dimension: VerificationDimension::CurrentResults,
                    fault: accepted->Err_0,
                },
            ),
        ),
{
    match accepted {
        Ok(_) => {
            assert(local_accepted(world, m, followed, Ok(followed)));
        },
        Err(fault) => {
            assert(local_accepted(
                world,
                m,
                followed,
                Err(FailureModel { dimension: VerificationDimension::CurrentResults, fault }),
            ));
        },
    }
}

/// What is wrong with the manifest that a snapshot continues.
pub open spec fn source_failure(source: SourceModel, parent: Option<Seq<u8>>) -> Option<FailureModel> {
    match parent {
        None => Some(
            failure(
                VerificationDimension::ReferenceClosure,
                "source manifest was not available in the verified object closure"@,
            ),
        ),
        Some(bytes) => if snapshot_identity(bytes) != source.snapshot_id {
            Some(
                failure(
                    VerificationDimension::ReferenceClosure,
                    "source snapshot identity mismatch: manifest computes to "@ + ("sha256:"@
                        + snapshot_identity(bytes)) + ", expected "@ + ("sha256:"@
                        + source.snapshot_id),
                ),
            )
        } else {
            None
        },
    }
}

/// What a verified snapshot comes to: its manifest and the state behind it.
pub type Verified = (ManifestModel, StateModel);

/// Whether the rest of a snapshot, its citations, can come to that.
pub open spec fn cited(
    world: World,
    m: ManifestModel,
    s: StateModel,
    out: Result<Verified, FailureModel>,
) -> bool {
    exists|end: Result<StateModel, FailureModel>| #[trigger]
        decisions_followed(world, m.decisions, s, end) && out == (match end {
            Err(f) => Err::<Verified, FailureModel>(f),
            Ok(last) => Ok((m, last)),
        })
}

/// Whether a snapshot can come to that once its parent came to `parent`.
pub open spec fn continued(
    world: World,
    m: ManifestModel,
    parent: Result<Verified, FailureModel>,
    out: Result<Verified, FailureModel>,
) -> bool {
    match parent {
        Err(f) => out == Err::<Verified, FailureModel>(f),
        Ok(verified) => if decision_from(verified.0.decisions, m.source->0.decision, 0) is None {
            out == Err::<Verified, FailureModel>(
                failure(
                    VerificationDimension::ReferenceClosure,
                    "source decision "@ + debug_text(m.source->0.decision)
                        + " does not exist in parent snapshot "@ + ("sha256:"@
                        + m.source->0.snapshot_id),
                ),
            )
        } else {
            cited(world, m, verified.1, out)
        },
    }
}

/// A state that has entered one more snapshot.
pub open spec fn entered(s: StateModel, snapshot: Seq<char>, depth: nat) -> StateModel {
    StateModel {
        snapshots: s.snapshots.push(snapshot),
        max_depth: if s.max_depth < depth {
            depth
        } else {
            s.max_depth
        },
        ..s
    }
}

/// Whether the exact bytes of a manifest, at that depth of the ancestry, can come to that: the
/// manifest is read, everything it names itself is followed, then its parent snapshot, then what
/// its decisions cite.
pub open spec fn snapshot_followed(
    world: World,
    bytes: Seq<u8>,
    depth: nat,
    s: StateModel,
    out: Result<Verified, FailureModel>,
) -> bool
    decreases MAX_ANCESTRY - depth, 1int,
{
    let snapshot = snapshot_identity(bytes);
    if depth >= MAX_ANCESTRY {
        out == Err::<Verified, FailureModel>(
            failure(
                VerificationDimension::ReferenceClosure,
                "snapshot ancestry exceeds the 16-manifest limit"@,
            ),
        )
    } else if s.snapshots.contains(snapshot) {
        out == Err::<Verified, FailureModel>(
            failure(
                VerificationDimension::ReferenceClosure,
                "snapshot ancestry cycle detected at "@ + ("sha256:"@ + snapshot),
            ),
        )
    } else {
        exists|read: Result<ManifestModel, Fault>| #[trigger]
            manifest_read(world.reads, bytes, read) && match read {
                Err(fault) => out == Err::<Verified, FailureModel>(
                    FailureModel { dimension: VerificationDimension::FormatSchema, fault },
                ),
                Ok(m) => exists|local: Result<Followed, FailureModel>| #[trigger]
                    local_followed(world, m, entered(s, snapshot, depth), local) && match local {
                        Err(f) => out == Err::<Verified, FailureModel>(f),
                        Ok(followed) => rest_followed(world, m, depth, followed, out),
                    },
            }
    }
}

/// Whether a snapshot can come to that once what its manifest names itself was followed.
pub open spec fn rest_followed(
    world: World,
    m: ManifestModel,
    depth: nat,
    followed: Followed,
    out: Result<Verified, FailureModel>,
) -> bool
    decreases MAX_ANCESTRY - depth, 0int,
{
    if m.source is None {
        cited(world, m, followed.0, out)
    } else {
        match source_failure(m.source->0, followed.1) {
            Some(f) => out == Err::<Verified, FailureModel>(f),
            None => depth < MAX_ANCESTRY && exists|parent: Result<Verified, FailureModel>| #[trigger]
                continued(world, m, parent, out) && snapshot_followed(
                    world,
                    followed.1->0,
                    depth + 1,
                    followed.0,
                    parent,
                ),
        }
    }
}

/// The view of the bytes of a source manifest.
spec fn parent_view(parent: Option<Vec<u8>>) -> Option<Seq<u8>> {
    match parent {
        Some(bytes) => Some(bytes@),
        None => None,
    }
}

/// What came of following references.
spec fn followed_outcome(
    r: Result<(), VerificationFailure>,
    state: VerifyState,
    parent: Option<Vec<u8>>,
) -> Result<Followed, FailureModel> {
    match r {
        Ok(_) => Ok((state@, parent_view(parent))),
        Err(f) => Err(f@),
    }
}

/// What came of a step that leaves a state.
spec fn state_outcome(r: Result<(), VerificationFailure>, state: VerifyState) -> Result<
    StateModel,
    FailureModel,
> {
    match r {
        Ok(_) => Ok(state@),
        Err(f) => Err(f@),
    }
}

fn copy_bytes(bytes: &Vec<u8>) -> (r: Vec<u8>)
    ensures
        r@ == bytes@,
{
    let mut out: Vec<u8> = Vec::new();
    text::push_bytes(&mut out, bytes.as_slice());
    assert(out@ =~= bytes@);
    out
}

spec fn optional_source_ref(source: Option<&Source>) -> Option<RefModel> {
    match source {
        Some(found) => Some(found.manifest@),
        None => None,
    }
}

impl<
    L: Fn(&Digest) -> Result<Vec<u8>, Error>,
    R: Fn(&str) -> Result<Value, Error>,
    D: Fn(&Value) -> Result<ModelMeta, Error>,
    G: Fn(&str) -> Result<(), Error>,
    A: Arithmetic,
> Host<L, R, D, G, A> {
    fn follow_reference(
        &self,
        reference: &ArtifactRef,
        source: Option<&Source>,
        state: &mut VerifyState,
        parent: &mut Option<Vec<u8>>,
    ) -> (r: Result<(), VerificationFailure>)
        requires
            self.usable(),
        ensures
            reference_followed(
                self.world(),
                reference@,
                optional_source_ref(source),
                (old(state)@, parent_view(*old(parent))),
                followed_outcome(r, *final(state), *final(parent)),
            ),
            r is Ok ==> object_named(final(state)@.objects, reference@.sha256) is Some,
            r is Ok ==> forall|d: Seq<char>|
                object_named(old(state)@.objects, d) is Some ==> object_named(
                    final(state)@.objects,
                    d,
                ) is Some,
    {
        let ghost world = self.world();
        let ghost before: Followed = (state@, parent_view(*parent));
        let reply: Result<Vec<u8>, Error> = self.load_object(&reference.sha256);
        assert((world.loads)(reference@.sha256, outcome(reply)));
        let bytes: Vec<u8> = match reply {
            Err(error) => {
                return Err(
                    VerificationFailure::new(VerificationDimension::ReferenceClosure, error),
                );
            },
            Ok(bytes) => bytes,
        };
        check_object(reference, &bytes)?;
        let kept: Vec<u8> = copy_bytes(&bytes);
        state.store(reference.sha256.as_str(), kept)?;
        let ghost next = state@;
        proof {
            assert forall|d: Seq<char>| object_named(before.0.objects, d) is Some implies object_named(
                next.objects,
                d,
            ) is Some by {
                lemma_stored(before.0, reference@.sha256, bytes@, d);
            }
            lemma_stored(before.0, reference@.sha256, bytes@, reference@.sha256);
        }
        let accepted: Result<(), Error> = self.validate_artifact(reference, bytes.as_slice());
        assert(artifact_accepted(world, reference@.kind, bytes@, verdict(accepted)));
        if let Err(error) = accepted {
            return Err(VerificationFailure::new(VerificationDimension::CurrentResults, error));
        }
        if reference.kind == ArtifactKind::ReplayReport {
            state.replay_recorded = true;
        }
        if reference.kind == ArtifactKind::EngineBinary {
            state.engine_available = true;
        }
        assert(state@ =~= met(next, reference@.kind));
        let ghost content = bytes@;
        if let Some(found) = source {
            if found.manifest.same(reference) {
                *parent = Some(bytes);
            }
        }
        assert(followed_outcome(Ok(()), *state, *parent) == reference_kept(
            reference@,
            optional_source_ref(source),
            before,
            next,
            content,
            Ok(()),
        ));
        Ok(())
    }

    fn follow_references(
        &self,
        manifest: &Manifest,
        state: &mut VerifyState,
        parent: &mut Option<Vec<u8>>,
    ) -> (r: Result<(), VerificationFailure>)
        requires
            self.usable(),
            *old(parent) is None,
        ensures
            references_followed(
                self.world(),
                references(manifest@),
                source_ref(manifest@),
                old(state)@,
                followed_outcome(r, *final(state), *final(parent)),
            ),
            r is Ok ==> forall|i: int|
                0 <= i < references(manifest@).len() ==> object_named(
                    final(state)@.objects,
                    (#[trigger] references(manifest@)[i]).sha256,
                ) is Some,
    {
        let ghost world = self.world();
        let ghost start = state@;
        let list: Vec<&ArtifactRef> = manifest.direct_references();
        let ghost refs = references(manifest@);
        let source: Option<&Source> = match &manifest.source {
            Some(found) => Some(found),
            None => None,
        };
        let ghost wanted = source_ref(manifest@);
        assert(wanted == optional_source_ref(source));
        let mut i: usize = 0;
        while i < list.len()
            invariant
                i <= list.len(),
                self.usable(),
                world == self.world(),
                refs == ref_views(list@),
                refs == references(manifest@),
                wanted == optional_source_ref(source),
                wanted == source_ref(manifest@),
                start == old(state)@,
                references_followed(
                    world,
                    refs.take(i as int),
                    wanted,
                    start,
                    Ok((state@, parent_view(*parent))),
                ),
                forall|j: int|
                    0 <= j < i ==> object_named(state@.objects, (#[trigger] refs[j]).sha256) is Some,
            decreases list.len() - i,
        {
            let ghost done = refs.take(i + 1);
            let ghost before: Followed = (state@, parent_view(*parent));
            proof {
                assert(done.drop_last() =~= refs.take(i as int));
                assert(refs[i as int] == list@[i as int]@);
                assert(done.last() == list@[i as int]@);
            }
            let seen: Result<(), VerificationFailure> = self.follow_reference(
                list[i],
                source,
                state,
                parent,
            );
            proof {
                assert(reference_followed(
                    world,
                    done.last(),
                    wanted,
                    before,
                    followed_outcome(seen, *state, *parent),
                ));
                assert(references_followed(
                    world,
                    done,
                    wanted,
                    start,
                    followed_outcome(seen, *state, *parent),
                ));
            }
            if let Err(f) = seen {
                proof {
                    lemma_references_failed(world, refs, wanted, start, i + 1, f@);
                }
                return Err(f);
            }
            i += 1;
        }
        assert(refs.take(i as int) =~= refs);
        Ok(())
    }

    /// Holds every completed sample run of a manifest against its recipe.
    fn validate_sample_execution_inputs(&self, manifest: &Manifest, state: &VerifyState) -> (r: Result<
        (),
        Error,
    >)
        requires
            self.usable(),
            legible(manifest@),
            forall|i: int|
                0 <= i < references(manifest@).len() ==> object_named(
                    state@.objects,
                    (#[trigger] references(manifest@)[i]).sha256,
                ) is Some,
        ensures
            samples_accepted(
                self.world(),
                manifest@.recipes,
                manifest@.executions,
                state@.objects,
                verdict(r),
            ),
    {
        let ghost world = self.world();
        let ghost m = manifest@;
        let ghost objects = state@.objects;
        reveal(legible);
        let mut i: usize = 0;
        while i < manifest.executions.len()
            invariant
                i <= manifest.executions.len(),
                self.usable(),
                world == self.world(),
                m == manifest@,
                objects == state@.objects,
                valid_manifest(m),
                forall|j: int|
                    0 <= j < references(m).len() ==> object_named(
                        objects,
                        (#[trigger] references(m)[j]).sha256,
                    ) is Some,
                samples_accepted(world, m.recipes, m.executions.take(i as int), objects, Ok(())),
            decreases manifest.executions.len() - i,
        {
            let execution: &Execution = &manifest.executions[i];
            let ghost done = m.executions.take(i + 1);
            proof {
                assert(done.drop_last() =~= m.executions.take(i as int));
                assert(m.executions[i as int] == execution@);
                assert(done.last() == execution@);
                assert(valid_execution(m.executions[i as int]));
                assert(follows_recipe(m.recipes, m.executions[i as int]));
            }
            let seen: Result<(), Error> = if execution.outcome == Outcome::Completed {
                let recipe: &Recipe = find_recipe(
                    &manifest.recipes,
                    execution.recipe.as_str(),
                ).unwrap();
                if recipe.operation == Operation::Sample {
                    let output: &ArtifactRef = execution.output.as_ref().unwrap();
                    proof {
                        lemma_recipe_is_listed(m.recipes, execution@.recipe, 0);
                        lemma_recipe_references(m, recipe@);
                        lemma_output_reference(m, i as int);
                    }
                    let model: &Vec<u8> = state.find(recipe.model.sha256.as_str()).unwrap();
                    let data: &Vec<u8> = state.find(recipe.data.sha256.as_str()).unwrap();
                    let fit: &Vec<u8> = state.find(output.sha256.as_str()).unwrap();
                    self.validate_sample(
                        model.as_slice(),
                        data.as_slice(),
                        fit.as_slice(),
                        &recipe.settings,
                        execution.id.as_str(),
                    )
                } else {
                    Ok(())
                }
            } else {
                Ok(())
            };
            proof {
                assert(execution_accepted(world, m.recipes, objects, done.last(), verdict(seen)));
                assert(samples_accepted(world, m.recipes, done, objects, verdict(seen)));
            }
            if let Err(error) = seen {
                proof {
                    lemma_samples_failed(world, m.recipes, m.executions, objects, i + 1, error@);
                }
                return Err(error);
            }
            i += 1;
        }
        assert(m.executions.take(i as int) =~= m.executions);
        Ok(())
    }
}

proof fn lemma_gathered<M>(records: Seq<M>, refs: spec_fn(M) -> Seq<RefModel>, i: int, wanted: RefModel)
    requires
        0 <= i < records.len(),
        refs(records[i]).contains(wanted),
    ensures
        gathered(records, refs).contains(wanted),
    decreases records.len(),
{
    let before = gathered(records.drop_last(), refs);
    let last = refs(records.last());
    if i == records.len() - 1 {
        let k = choose|k: int| 0 <= k < last.len() && last[k] == wanted;
        assert((before + last)[before.len() + k] == wanted);
    } else {
        assert(records.drop_last()[i] == records[i]);
        lemma_gathered(records.drop_last(), refs, i, wanted);
        let k = choose|k: int| 0 <= k < before.len() && before[k] == wanted;
        assert((before + last)[k] == wanted);
    }
}

proof fn lemma_recipe_is_listed(recipes: Seq<RecipeModel>, id: Seq<char>, i: int)
    requires
        0 <= i,
        recipe_from(recipes, id, i) is Some,
    ensures
        recipes.contains(recipe_from(recipes, id, i)->0),
    decreases recipes.len() - i,
{
    if recipes[i].id != id {
        lemma_recipe_is_listed(recipes, id, i + 1);
    }
}

/// The model and the data of a recipe are among the references.
proof fn lemma_recipe_references(m: ManifestModel, recipe: RecipeModel)
    requires
        m.recipes.contains(recipe),
    ensures
        references(m).contains(recipe.model),
        references(m).contains(recipe.data),
{
    let of_recipe = |r: RecipeModel| recipe_refs(r);
    let i = choose|i: int| 0 <= i < m.recipes.len() && m.recipes[i] == recipe;
    assert(recipe_refs(recipe)[0] == recipe.model);
    assert(recipe_refs(recipe)[1] == recipe.data);
    lemma_gathered(m.recipes, of_recipe, i, recipe.model);
    lemma_gathered(m.recipes, of_recipe, i, recipe.data);
    let middle = gathered(m.recipes, of_recipe);
    let head = seq![m.model, m.data] + (match m.source {
        Some(source) => seq![source.manifest],
        None => Seq::empty(),
    }) + gathered(m.decisions, |d: DecisionModel| decision_refs(d));
    let tail = gathered(m.executions, |e: ExecutionModel| execution_refs(e));
    assert(references(m) =~= head + middle + tail);
    let a = choose|k: int| 0 <= k < middle.len() && middle[k] == recipe.model;
    let b = choose|k: int| 0 <= k < middle.len() && middle[k] == recipe.data;
    assert(references(m)[head.len() + a] == recipe.model);
    assert(references(m)[head.len() + b] == recipe.data);
}

/// The output of an execution is among the references.
proof fn lemma_output_reference(m: ManifestModel, i: int)
    requires
        0 <= i < m.executions.len(),
        m.executions[i].output is Some,
    ensures
        references(m).contains(m.executions[i].output->0),
{
    let of_execution = |e: ExecutionModel| execution_refs(e);
    let wanted = m.executions[i].output->0;
    assert(execution_refs(m.executions[i])[0] == wanted);
    lemma_gathered(m.executions, of_execution, i, wanted);
    let tail = gathered(m.executions, of_execution);
    let head = seq![m.model, m.data] + (match m.source {
        Some(source) => seq![source.manifest],
        None => Seq::empty(),
    }) + gathered(m.decisions, |d: DecisionModel| decision_refs(d)) + gathered(
        m.recipes,
        |r: RecipeModel| recipe_refs(r),
    );
    assert(references(m) =~= head + tail);
    let a = choose|k: int| 0 <= k < tail.len() && tail[k] == wanted;
    assert(references(m)[head.len() + a] == wanted);
}

/// A manifest that was read.
#[verifier::opaque]
spec fn legible(m: ManifestModel) -> bool {
    valid_manifest(m)
}

/// What came of a snapshot.
spec fn verified_outcome(r: Result<Manifest, VerificationFailure>, state: VerifyState) -> Result<
    Verified,
    FailureModel,
> {
    match r {
        Ok(manifest) => Ok((manifest@, state@)),
        Err(f) => Err(f@),
    }
}

/// A state in which nothing has been verified yet.
pub open spec fn fresh() -> StateModel {
    StateModel {
        objects: Seq::empty(),
        snapshots: Seq::empty(),
        replay_recorded: false,
        engine_available: false,
        max_depth: 0,
    }
}

/// The digests of stored objects.
pub open spec fn object_keys(objects: Seq<(Seq<char>, Seq<u8>)>) -> Seq<Seq<char>> {
    objects.map_values(|o: (Seq<char>, Seq<u8>)| o.0)
}

/// What is reported of a bundle that verified and left that state.
pub open spec fn reports(v: Verification, bytes: Seq<u8>, s: StateModel) -> bool {
    &&& v.snapshot_id@ == snapshot_identity(bytes)
    &&& v.schema_valid && v.reference_closure_valid && v.object_integrity_valid
        && v.current_results_valid
    &&& v.engine_artifacts_available == s.engine_available
    &&& v.replay_recorded == s.replay_recorded
    &&& v.object_count == s.objects.len()
    &&& v.ancestry_depth == s.max_depth
    &&& views(v.object_digests@) == sorted_texts(object_keys(s.objects))
}

/// Whether verifying a bundle can come to that.
pub open spec fn bundle_verified(
    world: World,
    bytes: Seq<u8>,
    r: Result<(Manifest, Verification), VerificationFailure>,
) -> bool {
    match r {
        Err(f) => snapshot_followed(world, bytes, 0, fresh(), Err(f@)),
        Ok(found) => bundle_reported(world, bytes, found.0@, found.1),
    }
}

/// Whether verifying a bundle, with a failure reported without its dimension, can come to that.
pub open spec fn plainly_verified(
    world: World,
    bytes: Seq<u8>,
    r: Result<(Manifest, Verification), Error>,
) -> bool {
    match r {
        Ok(found) => bundle_verified(world, bytes, Ok(found)),
        Err(error) => exists|dimension: VerificationDimension| #[trigger]
            bundle_verified(world, bytes, Err(VerificationFailure { dimension, error })),
    }
}

/// Whether verifying a bundle can come to that manifest and that report.
pub open spec fn bundle_reported(world: World, bytes: Seq<u8>, m: ManifestModel, v: Verification) -> bool {
    exists|s: StateModel| #[trigger]
        reports(v, bytes, s) && snapshot_followed(world, bytes, 0, fresh(), Ok((m, s)))
}

impl<
    L: Fn(&Digest) -> Result<Vec<u8>, Error>,
    R: Fn(&str) -> Result<Value, Error>,
    D: Fn(&Value) -> Result<ModelMeta, Error>,
    G: Fn(&str) -> Result<(), Error>,
    A: Arithmetic,
> Host<L, R, D, G, A> {
    fn follow_citation(&self, decision: &str, citation: &Digest, state: &mut VerifyState) -> (r: Result<
        (),
        VerificationFailure,
    >)
        requires
            self.usable(),
        ensures
            citation_followed(
                self.world(),
                decision@,
                citation@,
                old(state)@,
                state_outcome(r, *final(state)),
            ),
    {
        let ghost world = self.world();
        if state.find(citation.as_str()).is_some() {
            return Ok(());
        }
        let name: String = citation.prefixed();
        let reply: Result<Vec<u8>, Error> = self.load_object(citation);
        assert((world.loads)(citation@, outcome(reply)));
        let bytes: Vec<u8> = match reply {
            Err(_) => {
                let shown: String = text::quoted(decision);
                return Err(
                    fail(
                        VerificationDimension::ReferenceClosure,
                        text::cat5(
                            "decision ",
                            shown.as_str(),
                            " cites missing artifact ",
                            name.as_str(),
                            "; restore its exact bytes",
                        ),
                    ),
                );
            },
            Ok(bytes) => bytes,
        };
        if bytes.len() > MAX_OBJECT_BYTES {
            return Err(
                fail(
                    VerificationDimension::ObjectIntegrity,
                    text::cat3("cited object ", name.as_str(), " exceeds the 67108864-byte limit"),
                ),
            );
        }
        let actual: Digest = artifact_digest(bytes.as_slice());
        if !text::same(actual.as_str(), citation.as_str()) {
            let shown: String = text::quoted(decision);
            let found: String = actual.prefixed();
            return Err(
                fail(
                    VerificationDimension::ObjectIntegrity,
                    text::cat6(
                        "decision ",
                        shown.as_str(),
                        " citation integrity failure: expected ",
                        name.as_str(),
                        ", exact bytes hash to ",
                        found.as_str(),
                    ),
                ),
            );
        }
        state.store(citation.as_str(), bytes)
    }

    fn follow_citations(&self, decision: &Decision, state: &mut VerifyState) -> (r: Result<
        (),
        VerificationFailure,
    >)
        requires
            self.usable(),
        ensures
            citations_followed(
                self.world(),
                decision@.id,
                decision@.cites,
                old(state)@,
                state_outcome(r, *final(state)),
            ),
    {
        let ghost world = self.world();
        let ghost start = state@;
        let ghost cites = decision@.cites;
        let mut i: usize = 0;
        while i < decision.cites.len()
            invariant
                i <= decision.cites.len(),
                self.usable(),
                world == self.world(),
                start == old(state)@,
                cites == decision@.cites,
                citations_followed(world, decision@.id, cites.take(i as int), start, Ok(state@)),
            decreases decision.cites.len() - i,
        {
            let ghost done = cites.take(i + 1);
            let ghost before = state@;
            proof {
                assert(done.drop_last() =~= cites.take(i as int));
                assert(cites[i as int] == decision.cites@[i as int]@);
                assert(done.last() == decision.cites@[i as int]@);
            }
            let seen: Result<(), VerificationFailure> = self.follow_citation(
                decision.id.as_str(),
                &decision.cites[i],
                state,
            );
            proof {
                assert(citation_followed(
                    world,
                    decision@.id,
                    done.last(),
                    before,
                    state_outcome(seen, *state),
                ));
                assert(citations_followed(
                    world,
                    decision@.id,
                    done,
                    start,
                    state_outcome(seen, *state),
                ));
            }
            if let Err(f) = seen {
                proof {
                    lemma_citations_failed(world, decision@.id, cites, start, i + 1, f@);
                }
                return Err(f);
            }
            i += 1;
        }
        assert(cites.take(i as int) =~= cites);
        Ok(())
    }

    fn follow_decisions(&self, manifest: &Manifest, state: &mut VerifyState) -> (r: Result<
        (),
        VerificationFailure,
    >)
        requires
            self.usable(),
        ensures
            decisions_followed(
                self.world(),
                manifest@.decisions,
                old(state)@,
                state_outcome(r, *final(state)),
            ),
    {
        let ghost world = self.world();
        let ghost start = state@;
        let ghost decisions = manifest@.decisions;
        let mut i: usize = 0;
        while i < manifest.decisions.len()
            invariant
                i <= manifest.decisions.len(),
                self.usable(),
                world == self.world(),
                start == old(state)@,
                decisions == manifest@.decisions,
                decisions_followed(world, decisions.take(i as int), start, Ok(state@)),
            decreases manifest.decisions.len() - i,
        {
            let ghost done = decisions.take(i + 1);
            let ghost before = state@;
            proof {
                assert(done.drop_last() =~= decisions.take(i as int));
                assert(decisions[i as int] == manifest.decisions@[i as int]@);
                assert(done.last() == manifest.decisions@[i as int]@);
            }
            let seen: Result<(), VerificationFailure> = self.follow_citations(
                &manifest.decisions[i],
                state,
            );
            proof {
                assert(citations_followed(
                    world,
                    done.last().id,
                    done.last().cites,
                    before,
                    state_outcome(seen, *state),
                ));
                assert(decisions_followed(world, done, start, state_outcome(seen, *state)));
            }
            if let Err(f) = seen {
                proof {
                    lemma_decisions_failed(world, decisions, start, i + 1, f@);
                }
                return Err(f);
            }
            i += 1;
        }
        assert(decisions.take(i as int) =~= decisions);
        Ok(())
    }

    fn read_manifest_bytes(&self, bytes: &[u8]) -> (r: Result<Manifest, Error>)
        requires
            self.usable(),
        ensures
            manifest_read(self.world().reads, bytes@, outcome(r)),
            r is Ok ==> legible(r->Ok_0@),
    {
        let r: Result<Manifest, Error> = Manifest::parse_bytes(bytes, &self.read_json);
        proof {
            let reading = |s: Seq<char>, v: Result<Json, Fault>| reads(self.read_json, s, v);
            assert(reading =~= self.world().reads);
            if r is Ok {
                let document = choose|document: Result<Json, Fault>| #[trigger]
                    reading(vstd::utf8::decode_utf8(bytes@), document) && outcome(r)
                        == read_manifest(document);
                law_read_manifest_is_valid(document->Ok_0);
                reveal(legible);
            }
        }
        r
    }

    /// Follows what a manifest names itself.
    fn follow_local(
        &self,
        manifest: &Manifest,
        state: &mut VerifyState,
        parent: &mut Option<Vec<u8>>,
    ) -> (r: Result<(), VerificationFailure>)
        requires
            self.usable(),
            legible(manifest@),
            *old(parent) is None,
        ensures
            local_followed(
                self.world(),
                manifest@,
                old(state)@,
                followed_outcome(r, *final(state), *final(parent)),
            ),
    {
        let ghost world = self.world();
        let seen: Result<(), VerificationFailure> = self.follow_references(manifest, state, parent);
        assert(references_followed(
            world,
            references(manifest@),
            source_ref(manifest@),
            old(state)@,
            followed_outcome(seen, *state, *parent),
        ));
        if let Err(f) = seen {
            return Err(f);
        }
        let accepted: Result<(), Error> = self.validate_sample_execution_inputs(manifest, &*state);
        assert(samples_accepted(
            world,
            manifest@.recipes,
            manifest@.executions,
            state@.objects,
            verdict(accepted),
        ));
        proof {
            let followed: Followed = (state@, parent_view(*parent));
            assert(references_followed(
                world,
                references(manifest@),
                source_ref(manifest@),
                old(state)@,
                Ok(followed),
            ));
            lemma_local(world, manifest@, old(state)@, followed, verdict(accepted));
        }
        if let Err(error) = accepted {
            return Err(VerificationFailure::new(VerificationDimension::CurrentResults, error));
        }
        Ok(())
    }

    fn verify_recursive(&self, manifest_bytes: &[u8], depth: usize, state: &mut VerifyState) -> (r: Result<
        Manifest,
        VerificationFailure,
    >)
        requires
            self.usable(),
            depth <= MAX_ANCESTRY,
        ensures
            snapshot_followed(
                self.world(),
                manifest_bytes@,
                depth as nat,
                old(state)@,
                verified_outcome(r, *final(state)),
            ),
        decreases MAX_ANCESTRY - depth,
    {
        let ghost world = self.world();
        let ghost start = state@;
        if depth >= MAX_ANCESTRY {
            return Err(
                fail(
                    VerificationDimension::ReferenceClosure,
                    "snapshot ancestry exceeds the 16-manifest limit".to_owned(),
                ),
            );
        }
        let snapshot: Digest = snapshot_digest(manifest_bytes);
        if state.entered_before(snapshot.as_str()) {
            let name: String = snapshot.prefixed();
            return Err(
                fail(
                    VerificationDimension::ReferenceClosure,
                    text::cat2("snapshot ancestry cycle detected at ", name.as_str()),
                ),
            );
        }
        if state.max_depth < depth {
            state.max_depth = depth;
        }
        state.snapshots.push(snapshot.0.clone());
        assert(state@ =~= entered(start, snapshot@, depth as nat));
        let read: Result<Manifest, Error> = self.read_manifest_bytes(manifest_bytes);
        assert(manifest_read(world.reads, manifest_bytes@, outcome(read)));
        let manifest: Manifest = match read {
            Err(error) => {
                return Err(VerificationFailure::new(VerificationDimension::FormatSchema, error));
            },
            Ok(manifest) => manifest,
        };
        let mut loaded_parent: Option<Vec<u8>> = None;
        let local: Result<(), VerificationFailure> = self.follow_local(
            &manifest,
            state,
            &mut loaded_parent,
        );
        let ghost followed = followed_outcome(local, *state, loaded_parent);
        assert(local_followed(
            world,
            manifest@,
            entered(start, snapshot@, depth as nat),
            followed,
        ));
        if let Err(f) = local {
            return Err(f);
        }
        if let Some(source) = &manifest.source {
            let parent_bytes: Vec<u8> = match loaded_parent {
                None => {
                    return Err(
                        fail(
                            VerificationDimension::ReferenceClosure,
                            "source manifest was not available in the verified object closure".to_owned(),
                        ),
                    );
                },
                Some(bytes) => bytes,
            };
            let parent_snapshot: Digest = snapshot_digest(parent_bytes.as_slice());
            if !text::same(parent_snapshot.as_str(), source.snapshot_id.as_str()) {
                let found: String = parent_snapshot.prefixed();
                let wanted: String = source.snapshot_id.prefixed();
                return Err(
                    fail(
                        VerificationDimension::ReferenceClosure,
                        text::cat4(
                            "source snapshot identity mismatch: manifest computes to ",
                            found.as_str(),
                            ", expected ",
                            wanted.as_str(),
                        ),
                    ),
                );
            }
            let up: Result<Manifest, VerificationFailure> = self.verify_recursive(
                parent_bytes.as_slice(),
                depth + 1,
                state,
            );
            let ghost parent = verified_outcome(up, *state);
            match up {
                Err(f) => {
                    assert(continued(world, manifest@, parent, Err(f@)));
                    return Err(f);
                },
                Ok(above) => {
                    if above.decision(source.decision.as_str()).is_none() {
                        let shown: String = text::quoted(source.decision.as_str());
                        let name: String = source.snapshot_id.prefixed();
                        let f: VerificationFailure = fail(
                            VerificationDimension::ReferenceClosure,
                            text::cat4(
                                "source decision ",
                                shown.as_str(),
                                " does not exist in parent snapshot ",
                                name.as_str(),
                            ),
                        );
                        assert(continued(world, manifest@, parent, Err(f@)));
                        return Err(f);
                    }
                },
            }
            let ghost above_state = state@;
            let end: Result<(), VerificationFailure> = self.follow_decisions(&manifest, state);
            assert(decisions_followed(
                world,
                manifest@.decisions,
                above_state,
                state_outcome(end, *state),
            ));
            let r: Result<Manifest, VerificationFailure> = match end {
                Err(f) => Err(f),
                Ok(_) => Ok(manifest),
            };
            assert(continued(world, manifest@, parent, verified_outcome(r, *state)));
            return r;
        }
        let ghost local_state = state@;
        let end: Result<(), VerificationFailure> = self.follow_decisions(&manifest, state);
        assert(decisions_followed(
            world,
            manifest@.decisions,
            local_state,
            state_outcome(end, *state),
        ));
        match end {
            Err(f) => Err(f),
            Ok(_) => Ok(manifest),
        }
    }
}

/// Verify exact manifest bytes and all local and ancestral objects without running any recipe
/// or following a network link, retaining the failed dimension for machine-readable reports.
pub fn verify_bundle_detailed<
    L: Fn(&Digest) -> Result<Vec<u8>, Error>,
    R: Fn(&str) -> Result<Value, Error>,
    D: Fn(&Value) -> Result<ModelMeta, Error>,
    G: Fn(&str) -> Result<(), Error>,
    A: Arithmetic,
>(manifest_bytes: &[u8], host: &Host<L, R, D, G, A>) -> (r: Result<
    (Manifest, Verification),
    VerificationFailure,
>)
    requires
        host.usable(),
    ensures
        bundle_verified(host.world(), manifest_bytes@, r),
{
    let mut state: VerifyState = VerifyState {
        objects: Vec::new(),
        snapshots: Vec::new(),
        replay_recorded: false,
        engine_available: false,
        max_depth: 0,
    };
    assert(state@ =~= fresh());
    let manifest: Manifest = host.verify_recursive(manifest_bytes, 0, &mut state)?;
    let ghost world = host.world();
    assert(snapshot_followed(world, manifest_bytes@, 0, fresh(), Ok((manifest@, state@))));
    let mut keys: Vec<String> = Vec::new();
    let mut i: usize = 0;
    while i < state.objects.len()
        invariant
            i <= state.objects.len(),
            text_views(keys@) == object_keys(state@.objects).take(i as int),
        decreases state.objects.len() - i,
    {
        let ghost before = keys@;
        keys.push(state.objects[i].0.clone());
        proof {
            let all = object_keys(state@.objects);
            assert(text_views(keys@) =~= text_views(before).push(all[i as int]));
            assert(all.take(i + 1) =~= all.take(i as int).push(all[i as int]));
        }
        i += 1;
    }
    assert(object_keys(state@.objects).take(i as int) =~= object_keys(state@.objects));
    let sorted: Vec<String> = sort_texts(&keys);
    let object_digests: Vec<Digest> = as_digests(sorted);
    let verification: Verification = Verification {
        snapshot_id: snapshot_digest(manifest_bytes),
        schema_valid: true,
        reference_closure_valid: true,
        object_integrity_valid: true,
        current_results_valid: true,
        engine_artifacts_available: state.engine_available,
        replay_recorded: state.replay_recorded,
        object_count: state.objects.len(),
        ancestry_depth: state.max_depth,
        object_digests,
    };
    assert(snapshot_followed(world, manifest_bytes@, 0, fresh(), Ok((manifest@, state@))));
    assert(reports(verification, manifest_bytes@, state@));
    Ok((manifest, verification))
}

/// Verifies a bundle; a failure is reported without its dimension.
pub fn verify_bundle<
    L: Fn(&Digest) -> Result<Vec<u8>, Error>,
    R: Fn(&str) -> Result<Value, Error>,
    D: Fn(&Value) -> Result<ModelMeta, Error>,
    G: Fn(&str) -> Result<(), Error>,
    A: Arithmetic,
>(manifest_bytes: &[u8], host: &Host<L, R, D, G, A>) -> (r: Result<(Manifest, Verification), Error>)
    requires
        host.usable(),
    ensures
        plainly_verified(host.world(), manifest_bytes@, r),
{
    match verify_bundle_detailed(manifest_bytes, host) {
        Ok(found) => Ok(found),
        Err(f) => {
            assert(f == (VerificationFailure { dimension: f.dimension, error: f.error }));
            Err(f.error)
        },
    }
}

fn as_digests(texts: Vec<String>) -> (r: Vec<Digest>)
    ensures
        views(r@) == text_views(texts@),
{
    let mut out: Vec<Digest> = Vec::new();
    let mut i: usize = 0;
    while i < texts.len()
        invariant
            i <= texts.len(),
            views(out@) == text_views(texts@).take(i as int),
        decreases texts.len() - i,
    {
        let ghost before = out@;
        out.push(Digest(texts[i].clone()));
        proof {
            let all = text_views(texts@);
            assert(views(out@) =~= views(before).push(all[i as int]));
            assert(all.take(i + 1) =~= all.take(i as int).push(all[i as int]));
        }
        i += 1;
    }
    assert(text_views(texts@).take(i as int) =~= text_views(texts@));
    out
}

} // verus!
