//! What holds of every bundle that verified.

use vstd::prelude::*;

#[allow(unused_imports)]
use crate::error::Fault;

#[allow(unused_imports)]
use super::host::World;
#[allow(unused_imports)]
use super::identity::digest_text;
#[allow(unused_imports)]
use super::ledger::DecisionModel;
#[allow(unused_imports)]
use super::manifest::{
    decision_from, manifest_read, references, ManifestModel, MAX_ANCESTRY, MAX_OBJECTS,
};
#[allow(unused_imports)]
use super::records::RefModel;
#[allow(unused_imports)]
use super::report::{snapshot_identity, FailureModel};
#[allow(unused_imports)]
use super::verify::{
    citation_followed, citation_kept, citations_followed, cited, continued, decisions_followed, entered,
    local_accepted, local_followed, met, object_failure, object_from, object_named, reference_followed,
    references_followed, snapshot_followed, rest_followed, source_ref, stored, Followed, StateModel, Verified,
};

verus! {

/// Every object hashes to its digest, no digest occurs twice, and there are not too many.
pub open spec fn sound(s: StateModel) -> bool {
    &&& s.objects.len() <= MAX_OBJECTS
    &&& forall|i: int|
        0 <= i < s.objects.len() ==> digest_text((#[trigger] s.objects[i]).1) == s.objects[i].0
    &&& forall|i: int, j: int|
        0 <= i < j < s.objects.len() ==> (#[trigger] s.objects[i]).0 != (#[trigger] s.objects[j]).0
}

/// The later state holds every object of the earlier one and is as sound.
pub open spec fn extends(before: StateModel, after: StateModel) -> bool {
    &&& before.objects.len() <= after.objects.len()
    &&& after.objects.take(before.objects.len() as int) == before.objects
    &&& sound(before) ==> sound(after)
}

/// Whether a state holds an object of that digest.
pub open spec fn holds(s: StateModel, digest: Seq<char>) -> bool {
    exists|i: int| 0 <= i < s.objects.len() && (#[trigger] s.objects[i]).0 == digest
}

proof fn lemma_named(objects: Seq<(Seq<char>, Seq<u8>)>, digest: Seq<char>, i: int)
    requires
        0 <= i <= objects.len(),
    ensures
        object_from(objects, digest, i) is Some <==> exists|j: int|
            i <= j < objects.len() && (#[trigger] objects[j]).0 == digest,
    decreases objects.len() - i,
{
    if i < objects.len() {
        lemma_named(objects, digest, i + 1);
    }
}

proof fn lemma_extends(a: StateModel, b: StateModel, c: StateModel)
    requires
        extends(a, b),
        extends(b, c),
    ensures
        extends(a, c),
{
    let n = a.objects.len() as int;
    assert(c.objects.take(n) =~= c.objects.take(b.objects.len() as int).take(n));
}

proof fn lemma_holds(a: StateModel, b: StateModel, digest: Seq<char>)
    requires
        extends(a, b),
        holds(a, digest),
    ensures
        holds(b, digest),
{
    let i = choose|i: int| 0 <= i < a.objects.len() && (#[trigger] a.objects[i]).0 == digest;
    assert(b.objects[i] == b.objects.take(a.objects.len() as int)[i]);
}

proof fn lemma_stored_extends(s: StateModel, digest: Seq<char>, bytes: Seq<u8>)
    requires
        stored(s, digest, bytes) is Ok,
        digest_text(bytes) == digest,
    ensures
        extends(s, stored(s, digest, bytes)->Ok_0),
        holds(stored(s, digest, bytes)->Ok_0, digest),
        stored(s, digest, bytes)->Ok_0.snapshots == s.snapshots,
        stored(s, digest, bytes)->Ok_0.max_depth == s.max_depth,
{
    let t = stored(s, digest, bytes)->Ok_0;
    lemma_named(s.objects, digest, 0);
    if object_named(s.objects, digest) is Some {
        assert(s.objects.take(s.objects.len() as int) =~= s.objects);
    } else {
        assert(t.objects.take(s.objects.len() as int) =~= s.objects);
        assert(t.objects[s.objects.len() as int].0 == digest);
        if sound(s) {
            assert forall|i: int, j: int| 0 <= i < j < t.objects.len() implies (
            #[trigger] t.objects[i]).0 != (#[trigger] t.objects[j]).0 by {
                assert(t.objects[i] == s.objects[i]);
                if j < s.objects.len() {
                    assert(t.objects[j] == s.objects[j]);
                }
            }
            assert forall|i: int| 0 <= i < t.objects.len() implies digest_text(
                (#[trigger] t.objects[i]).1,
            ) == t.objects[i].0 by {
                if i < s.objects.len() {
                    assert(t.objects[i] == s.objects[i]);
                }
            }
        }
    }
}

/// The later state extends the earlier one, in the same snapshots and as deep.
spec fn carried(before: StateModel, after: StateModel) -> bool {
    &&& extends(before, after)
    &&& after.snapshots == before.snapshots
    &&& after.max_depth == before.max_depth
}

proof fn lemma_reference(
    world: World,
    reference: RefModel,
    source: Option<RefModel>,
    before: Followed,
    after: Followed,
)
    requires
        reference_followed(world, reference, source, before, Ok(after)),
    ensures
        carried(before.0, after.0),
        holds(after.0, reference.sha256),
{
    let reply = choose|reply: Result<Seq<u8>, Fault>| #[trigger]
        (world.loads)(reference.sha256, reply) && match reply {
            Err(fault) => false,
            Ok(bytes) => match object_failure(reference, bytes) {
                Some(f) => false,
                None => match stored(before.0, reference.sha256, bytes) {
                    Err(f) => false,
                    Ok(next) => after.0 == met(next, reference.kind),
                },
            },
        };
    let bytes = reply->Ok_0;
    lemma_stored_extends(before.0, reference.sha256, bytes);
    let next = stored(before.0, reference.sha256, bytes)->Ok_0;
    assert(after.0.objects == next.objects);
    let i = choose|i: int| 0 <= i < next.objects.len() && (#[trigger] next.objects[i]).0
        == reference.sha256;
    assert(after.0.objects[i].0 == reference.sha256);
}

proof fn lemma_references(
    world: World,
    refs: Seq<RefModel>,
    source: Option<RefModel>,
    s: StateModel,
    after: Followed,
)
    requires
        references_followed(world, refs, source, s, Ok(after)),
    ensures
        carried(s, after.0),
        forall|i: int| 0 <= i < refs.len() ==> holds(after.0, (#[trigger] refs[i]).sha256),
    decreases refs.len(),
{
    if refs.len() == 0 {
        assert(s.objects.take(s.objects.len() as int) =~= s.objects);
    } else {
        let before = choose|before: Followed| #[trigger]
            reference_followed(world, refs.last(), source, before, Ok(after))
                && references_followed(world, refs.drop_last(), source, s, Ok(before));
        lemma_references(world, refs.drop_last(), source, s, before);
        lemma_reference(world, refs.last(), source, before, after);
        lemma_extends(s, before.0, after.0);
        assert forall|i: int| 0 <= i < refs.len() implies holds(
            after.0,
            (#[trigger] refs[i]).sha256,
        ) by {
            if i < refs.len() - 1 {
                assert(refs.drop_last()[i] == refs[i]);
                lemma_holds(before.0, after.0, refs[i].sha256);
            }
        }
    }
}

proof fn lemma_citation(
    world: World,
    decision: Seq<char>,
    citation: Seq<char>,
    before: StateModel,
    after: StateModel,
)
    requires
        citation_followed(world, decision, citation, before, Ok(after)),
    ensures
        carried(before, after),
        holds(after, citation),
{
    lemma_named(before.objects, citation, 0);
    if object_named(before.objects, citation) is Some {
        assert(before.objects.take(before.objects.len() as int) =~= before.objects);
    } else {
        let reply = choose|reply: Result<Seq<u8>, Fault>| #[trigger]
            (world.loads)(citation, reply) && match reply {
                Err(_) => false,
                Ok(bytes) => Ok::<StateModel, FailureModel>(after) == citation_kept(
                    before,
                    decision,
                    citation,
                    bytes,
                ),
            };
        lemma_stored_extends(before, citation, reply->Ok_0);
    }
}

proof fn lemma_citations(
    world: World,
    decision: Seq<char>,
    cites: Seq<Seq<char>>,
    s: StateModel,
    after: StateModel,
)
    requires
        citations_followed(world, decision, cites, s, Ok(after)),
    ensures
        carried(s, after),
        forall|i: int| 0 <= i < cites.len() ==> holds(after, #[trigger] cites[i]),
    decreases cites.len(),
{
    if cites.len() == 0 {
        assert(s.objects.take(s.objects.len() as int) =~= s.objects);
    } else {
        let before = choose|before: StateModel| #[trigger]
            citation_followed(world, decision, cites.last(), before, Ok(after))
                && citations_followed(world, decision, cites.drop_last(), s, Ok(before));
        lemma_citations(world, decision, cites.drop_last(), s, before);
        lemma_citation(world, decision, cites.last(), before, after);
        lemma_extends(s, before, after);
        assert forall|i: int| 0 <= i < cites.len() implies holds(after, #[trigger] cites[i]) by {
            if i < cites.len() - 1 {
                assert(cites.drop_last()[i] == cites[i]);
                lemma_holds(before, after, cites[i]);
            }
        }
    }
}

/// Every citation of the decisions is held.
pub open spec fn citations_held(decisions: Seq<DecisionModel>, s: StateModel) -> bool {
    forall|i: int, k: int|
        0 <= i < decisions.len() && 0 <= k < decisions[i].cites.len() ==> holds(
            s,
            #[trigger] decisions[i].cites[k],
        )
}

proof fn lemma_decisions(
    world: World,
    decisions: Seq<DecisionModel>,
    s: StateModel,
    after: StateModel,
)
    requires
        decisions_followed(world, decisions, s, Ok(after)),
    ensures
        carried(s, after),
        citations_held(decisions, after),
    decreases decisions.len(),
{
    if decisions.len() == 0 {
        assert(s.objects.take(s.objects.len() as int) =~= s.objects);
    } else {
        let last = decisions.last();
        let before = choose|before: StateModel| #[trigger]
            citations_followed(world, last.id, last.cites, before, Ok(after))
                && decisions_followed(world, decisions.drop_last(), s, Ok(before));
        lemma_decisions(world, decisions.drop_last(), s, before);
        lemma_citations(world, last.id, last.cites, before, after);
        lemma_extends(s, before, after);
        assert forall|i: int, k: int|
            0 <= i < decisions.len() && 0 <= k < decisions[i].cites.len() implies holds(
            after,
            #[trigger] decisions[i].cites[k],
        ) by {
            if i < decisions.len() - 1 {
                assert(decisions.drop_last()[i] == decisions[i]);
                assert(holds(before, decisions.drop_last()[i].cites[k]));
                lemma_holds(before, after, decisions[i].cites[k]);
            }
        }
    }
}

/// What a manifest names itself is held: its references and what its decisions cite.
pub open spec fn closed_over(m: ManifestModel, s: StateModel) -> bool {
    &&& forall|i: int|
        0 <= i < references(m).len() ==> holds(s, (#[trigger] references(m)[i]).sha256)
    &&& citations_held(m.decisions, s)
}

proof fn lemma_cited(
    world: World,
    m: ManifestModel,
    start: StateModel,
    local: Followed,
    reached: StateModel,
    verified: Verified,
)
    requires
        carried(start, local.0),
        extends(local.0, reached),
        forall|i: int|
            0 <= i < references(m).len() ==> holds(local.0, (#[trigger] references(m)[i]).sha256),
        cited(world, m, reached, Ok(verified)),
    ensures
        verified.0 == m,
        extends(start, verified.1),
        closed_over(m, verified.1),
        carried(reached, verified.1),
{
    let end = choose|end: Result<StateModel, FailureModel>| #[trigger]
        decisions_followed(world, m.decisions, reached, end) && Ok::<Verified, FailureModel>(
            verified,
        ) == (match end {
            Err(f) => Err::<Verified, FailureModel>(f),
            Ok(last) => Ok((m, last)),
        });
    lemma_decisions(world, m.decisions, reached, verified.1);
    lemma_extends(local.0, reached, verified.1);
    lemma_extends(start, local.0, verified.1);
    assert forall|i: int| 0 <= i < references(m).len() implies holds(
        verified.1,
        (#[trigger] references(m)[i]).sha256,
    ) by {
        lemma_holds(local.0, verified.1, references(m)[i].sha256);
    }
}

/// A snapshot that verified names only objects that were loaded and hash to their digests: its
/// references and its citations are held, every object held before is still held, and so many
/// objects at most are held at all. The ancestry is no deeper than allowed.
pub proof fn law_verified_snapshot_is_closed(
    world: World,
    bytes: Seq<u8>,
    depth: nat,
    s: StateModel,
    verified: Verified,
)
    requires
        snapshot_followed(world, bytes, depth, s, Ok(verified)),
    ensures
        depth < MAX_ANCESTRY,
        !s.snapshots.contains(snapshot_identity(bytes)),
        extends(s, verified.1),
        closed_over(verified.0, verified.1),
        s.max_depth < MAX_ANCESTRY ==> verified.1.max_depth < MAX_ANCESTRY,
        verified.1.max_depth >= depth,
    decreases MAX_ANCESTRY - depth,
{
    let start = entered(s, snapshot_identity(bytes), depth);
    let read = choose|read: Result<ManifestModel, Fault>| #[trigger]
        manifest_read(world.reads, bytes, read) && read is Ok && exists|
            local: Result<Followed, FailureModel>,
        | #[trigger]
            local_followed(world, read->Ok_0, start, local) && local is Ok && rest_followed(
                world,
                read->Ok_0,
                depth,
                local->Ok_0,
                Ok(verified),
            );
    let m = read->Ok_0;
    let local = (choose|local: Result<Followed, FailureModel>| #[trigger]
        local_followed(world, m, start, local) && local is Ok && rest_followed(
            world,
            m,
            depth,
            local->Ok_0,
            Ok(verified),
        ))->Ok_0;
    lemma_local_references(world, m, start, local);
    lemma_references(world, references(m), source_ref(m), start, local);
    assert(extends(s, start)) by {
        assert(s.objects.take(s.objects.len() as int) =~= s.objects);
    }
    if m.source is None {
        assert(local.0.objects.take(local.0.objects.len() as int) =~= local.0.objects);
        lemma_cited(world, m, start, local, local.0, verified);
    } else {
        let parent = choose|parent: Result<Verified, FailureModel>| #[trigger]
            continued(world, m, parent, Ok(verified)) && snapshot_followed(
                world,
                local.1->0,
                depth + 1,
                local.0,
                parent,
            );
        law_verified_snapshot_is_closed(world, local.1->0, depth + 1, local.0, parent->Ok_0);
        lemma_cited(world, m, start, local, parent->Ok_0.1, verified);
    }
    lemma_extends(s, start, verified.1);
}

proof fn lemma_local_references(world: World, m: ManifestModel, start: StateModel, local: Followed)
    requires
        local_followed(world, m, start, Ok(local)),
    ensures
        references_followed(world, references(m), source_ref(m), start, Ok(local)),
{
    let refs = choose|refs: Result<Followed, FailureModel>| #[trigger]
        references_followed(world, references(m), source_ref(m), start, refs) && match refs {
            Err(f) => false,
            Ok(followed) => local_accepted(world, m, followed, Ok(local)),
        };
    assert(refs == Ok::<Followed, FailureModel>(local));
}

/// A snapshot that verified and continues another one continues a snapshot that verified too, of
/// exactly the identity it names, and that has the decision it continues from.
pub proof fn law_verified_source_is_verified(
    world: World,
    bytes: Seq<u8>,
    depth: nat,
    s: StateModel,
    verified: Verified,
)
    requires
        snapshot_followed(world, bytes, depth, s, Ok(verified)),
        verified.0.source is Some,
    ensures
        exists|parent_bytes: Seq<u8>, before: StateModel, parent: Verified| #[trigger]
            snapshot_followed(world, parent_bytes, depth + 1, before, Ok(parent))
                && snapshot_identity(parent_bytes) == verified.0.source->0.snapshot_id
                && decision_from(parent.0.decisions, verified.0.source->0.decision, 0) is Some,
{
    let start = entered(s, snapshot_identity(bytes), depth);
    let read = choose|read: Result<ManifestModel, Fault>| #[trigger]
        manifest_read(world.reads, bytes, read) && read is Ok && exists|
            local: Result<Followed, FailureModel>,
        | #[trigger]
            local_followed(world, read->Ok_0, start, local) && local is Ok && rest_followed(
                world,
                read->Ok_0,
                depth,
                local->Ok_0,
                Ok(verified),
            );
    let m = read->Ok_0;
    let local = (choose|local: Result<Followed, FailureModel>| #[trigger]
        local_followed(world, m, start, local) && local is Ok && rest_followed(
            world,
            m,
            depth,
            local->Ok_0,
            Ok(verified),
        ))->Ok_0;
    if m.source is None {
        assert(cited(world, m, local.0, Ok(verified)));
        assert(verified.0 == m);
    } else {
        let parent = choose|parent: Result<Verified, FailureModel>| #[trigger]
            continued(world, m, parent, Ok(verified)) && snapshot_followed(
                world,
                local.1->0,
                depth + 1,
                local.0,
                parent,
            );
        assert(cited(world, m, parent->Ok_0.1, Ok(verified)));
        assert(verified.0 == m);
        assert(snapshot_followed(world, local.1->0, depth + 1, local.0, Ok(parent->Ok_0)));
    }
}

} // verus!
