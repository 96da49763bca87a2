//! The objects that go along with a snapshot.

use vstd::prelude::*;

use crate::investigation::identity::Digest;
use crate::investigation::ledger::Decision;
#[allow(unused_imports)]
use crate::investigation::ledger::{views, DecisionModel};
use crate::investigation::manifest::Manifest;
#[allow(unused_imports)]
use crate::investigation::manifest::{ref_views, references, ManifestModel};
use crate::investigation::records::ArtifactRef;
#[allow(unused_imports)]
use crate::investigation::records::RefModel;
use crate::model::has_text;
#[allow(unused_imports)]
use crate::text::text_views;

verus! {

/// The names that were seen once some more were met: each new one is added at the end.
pub open spec fn noted(names: Seq<Seq<char>>, seen: Seq<Seq<char>>) -> Seq<Seq<char>>
    decreases names.len(),
{
    if names.len() == 0 {
        seen
    } else {
        let before = noted(names.drop_last(), seen);
        if before.contains(names.last()) {
            before
        } else {
            before.push(names.last())
        }
    }
}

/// The digests of references.
pub open spec fn digests(refs: Seq<RefModel>) -> Seq<Seq<char>> {
    refs.map_values(|r: RefModel| r.sha256)
}

/// The references to objects that were not seen before, each object once.
pub open spec fn fresh_references(refs: Seq<RefModel>, seen: Seq<Seq<char>>) -> Seq<RefModel>
    decreases refs.len(),
{
    if refs.len() == 0 {
        Seq::empty()
    } else {
        let before = fresh_references(refs.drop_last(), seen);
        if noted(digests(refs.drop_last()), seen).contains(refs.last().sha256) {
            before
        } else {
            before.push(refs.last())
        }
    }
}

/// The names that were not seen before, each once.
pub open spec fn fresh_names(names: Seq<Seq<char>>, seen: Seq<Seq<char>>) -> Seq<Seq<char>> {
    noted(names, seen).skip(seen.len() as int)
}

/// Everything that decisions cite, in their order.
pub open spec fn citations(decisions: Seq<DecisionModel>) -> Seq<Seq<char>>
    decreases decisions.len(),
{
    if decisions.len() == 0 {
        Seq::empty()
    } else {
        citations(decisions.drop_last()) + decisions.last().cites
    }
}

pub open spec fn digest_views(s: Seq<&Digest>) -> Seq<Seq<char>> {
    s.map_values(|d: &Digest| d@)
}

/// Notes a name; tells whether it is new.
fn note(seen: &mut Vec<String>, name: &Digest) -> (r: bool)
    ensures
        r == !text_views(old(seen)@).contains(name@),
        text_views(final(seen)@) == (if r {
            text_views(old(seen)@).push(name@)
        } else {
            text_views(old(seen)@)
        }),
{
    let end: usize = seen.len();
    assert(text_views(seen@).take(end as int) =~= text_views(seen@));
    if has_text(seen, name.0.as_str(), end) {
        return false;
    }
    seen.push(name.0.clone());
    assert(text_views(seen@) =~= text_views(old(seen)@).push(name@));
    true
}

/// The references of a snapshot to objects that were not seen yet, which are seen from then on.
pub fn unseen_references<'a>(manifest: &'a Manifest, seen: &mut Vec<String>) -> (r: Vec<
    &'a ArtifactRef,
>)
    ensures
        ref_views(r@) == fresh_references(references(manifest@), text_views(old(seen)@)),
        text_views(final(seen)@) == noted(
            digests(references(manifest@)),
            text_views(old(seen)@),
        ),
{
    let refs: Vec<&'a ArtifactRef> = manifest.direct_references();
    let ghost all = ref_views(refs@);
    let ghost first = text_views(seen@);
    let mut out: Vec<&'a ArtifactRef> = Vec::new();
    let mut i: usize = 0;
    assert(digests(all.take(0)) =~= Seq::empty());
    assert(ref_views(out@) =~= Seq::empty());
    while i < refs.len()
        invariant
            i <= refs.len(),
            all == ref_views(refs@),
            ref_views(out@) == fresh_references(all.take(i as int), first),
            text_views(seen@) == noted(digests(all.take(i as int)), first),
        decreases refs.len() - i,
    {
        let ghost done = all.take(i + 1);
        proof {
            assert(done.drop_last() =~= all.take(i as int));
            assert(done.last() == refs@[i as int]@);
            assert(digests(done).drop_last() =~= digests(all.take(i as int)));
            assert(digests(done).last() == refs@[i as int]@.sha256);
        }
        if note(seen, &refs[i].sha256) {
            let ghost before = ref_views(out@);
            out.push(refs[i]);
            assert(ref_views(out@) =~= before.push(refs@[i as int]@));
        }
        i += 1;
    }
    assert(all.take(i as int) =~= all);
    out
}

proof fn lemma_noted_push(names: Seq<Seq<char>>, name: Seq<char>, seen: Seq<Seq<char>>)
    ensures
        noted(names.push(name), seen) == (if noted(names, seen).contains(name) {
            noted(names, seen)
        } else {
            noted(names, seen).push(name)
        }),
{
    assert(names.push(name).drop_last() =~= names);
}

/// The citations of a snapshot that were not seen yet, which are seen from then on.
pub fn unseen_citations<'a>(manifest: &'a Manifest, seen: &mut Vec<String>) -> (r: Vec<&'a Digest>)
    ensures
        digest_views(r@) == fresh_names(citations(manifest@.decisions), text_views(old(seen)@)),
        text_views(final(seen)@) == noted(
            citations(manifest@.decisions),
            text_views(old(seen)@),
        ),
{
    let ghost decisions = manifest@.decisions;
    let ghost first = text_views(seen@);
    let mut out: Vec<&'a Digest> = Vec::new();
    let mut i: usize = 0;
    assert(citations(decisions.take(0)) =~= Seq::empty());
    assert(first + digest_views(out@) =~= first);
    while i < manifest.decisions.len()
        invariant
            i <= manifest.decisions.len(),
            decisions == manifest@.decisions,
            text_views(seen@) == noted(citations(decisions.take(i as int)), first),
            text_views(seen@) == first + digest_views(out@),
        decreases manifest.decisions.len() - i,
    {
        let decision: &'a Decision = &manifest.decisions[i];
        let ghost before = citations(decisions.take(i as int));
        let ghost cites = decision@.cites;
        let mut k: usize = 0;
        assert(before + cites.take(0) =~= before);
        while k < decision.cites.len()
            invariant
                k <= decision.cites.len(),
                cites == views(decision.cites@),
                text_views(seen@) == noted(before + cites.take(k as int), first),
                text_views(seen@) == first + digest_views(out@),
            decreases decision.cites.len() - k,
        {
            proof {
                lemma_noted_push(before + cites.take(k as int), cites[k as int], first);
                assert((before + cites.take(k as int)).push(cites[k as int]) =~= before
                    + cites.take(k + 1));
            }
            if note(seen, &decision.cites[k]) {
                let ghost found = digest_views(out@);
                out.push(&decision.cites[k]);
                assert(digest_views(out@) =~= found.push(cites[k as int]));
                assert(text_views(seen@) =~= first + digest_views(out@));
            }
            k += 1;
        }
        proof {
            let done = decisions.take(i + 1);
            assert(done.drop_last() =~= decisions.take(i as int));
            assert(done.last() == decision@);
            assert(cites.take(k as int) =~= cites);
            assert(citations(done) =~= before + cites);
        }
        i += 1;
    }
    proof {
        assert(decisions.take(i as int) =~= decisions);
        assert(digest_views(out@) =~= fresh_names(citations(decisions), first));
    }
    out
}

/// Every object that a snapshot refers to or cites is seen in the end, together with what was seen
/// before and with nothing else, and each of them once.
pub proof fn law_every_object_is_seen_once(m: ManifestModel, seen: Seq<Seq<char>>)
    requires
        seen.no_duplicates(),
    ensures
        ({
            let end = noted(citations(m.decisions), noted(digests(references(m)), seen));
            &&& end.no_duplicates()
            &&& forall|name: Seq<char>| #[trigger]
                end.contains(name) <==> seen.contains(name) || digests(references(m)).contains(name)
                    || citations(m.decisions).contains(name)
        }),
{
    lemma_noted(digests(references(m)), seen);
    lemma_noted(citations(m.decisions), noted(digests(references(m)), seen));
}

proof fn lemma_noted(names: Seq<Seq<char>>, seen: Seq<Seq<char>>)
    requires
        seen.no_duplicates(),
    ensures
        noted(names, seen).no_duplicates(),
        forall|name: Seq<char>| #[trigger]
            noted(names, seen).contains(name) <==> seen.contains(name) || names.contains(name),
    decreases names.len(),
{
    if names.len() > 0 {
        let rest = names.drop_last();
        let last = names.last();
        let before = noted(rest, seen);
        let end = noted(names, seen);
        lemma_noted(rest, seen);
        assert(names[names.len() - 1] == last);
        assert forall|name: Seq<char>| names.contains(name) <==> rest.contains(name) || name
            == last by {
            if names.contains(name) && name != last {
                let i = choose|i: int| 0 <= i < names.len() && names[i] == name;
                assert(rest[i] == name);
            }
            if rest.contains(name) {
                let i = choose|i: int| 0 <= i < rest.len() && rest[i] == name;
                assert(names[i] == name);
            }
        }
        if !before.contains(last) {
            assert forall|name: Seq<char>| #[trigger] end.contains(name) <==> before.contains(name)
                || name == last by {
                assert(end[before.len() as int] == last);
                if before.contains(name) {
                    let i = choose|i: int| 0 <= i < before.len() && before[i] == name;
                    assert(end[i] == name);
                }
            }
            assert(end.no_duplicates());
        }
    }
}

} // verus!
