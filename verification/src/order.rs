//! The order of texts, and sorting by it.

use vstd::prelude::*;
use vstd::relations::{antisymmetric, reflexive, sorted_by, strongly_connected, total_ordering, transitive};

#[allow(unused_imports)]
use crate::text::text_views;

verus! {

/// Lexicographic order of texts by code points, which is the order of their UTF-8 bytes.
pub open spec fn text_le(a: Seq<char>, b: Seq<char>) -> bool
    decreases a.len(),
{
    a.len() == 0 || (b.len() > 0 && (a[0] < b[0] || (a[0] == b[0] && text_le(
        a.drop_first(),
        b.drop_first(),
    ))))
}

pub open spec fn text_order() -> spec_fn(Seq<char>, Seq<char>) -> bool {
    |a: Seq<char>, b: Seq<char>| text_le(a, b)
}

pub proof fn lemma_text_le_reflexive(a: Seq<char>)
    ensures
        text_le(a, a),
    decreases a.len(),
{
    if a.len() > 0 {
        lemma_text_le_reflexive(a.drop_first());
    }
}

pub proof fn lemma_text_le_antisymmetric(a: Seq<char>, b: Seq<char>)
    requires
        text_le(a, b),
        text_le(b, a),
    ensures
        a == b,
    decreases a.len(),
{
    if a.len() == 0 || b.len() == 0 {
        assert(a =~= b);
    } else {
        lemma_text_le_antisymmetric(a.drop_first(), b.drop_first());
        assert(a =~= seq![a[0]] + a.drop_first());
        assert(b =~= seq![b[0]] + b.drop_first());
    }
}

pub proof fn lemma_text_le_transitive(a: Seq<char>, b: Seq<char>, c: Seq<char>)
    requires
        text_le(a, b),
        text_le(b, c),
    ensures
        text_le(a, c),
    decreases a.len(),
{
    if a.len() > 0 && a[0] == b[0] && b[0] == c[0] {
        lemma_text_le_transitive(a.drop_first(), b.drop_first(), c.drop_first());
    }
}

pub proof fn lemma_text_le_total(a: Seq<char>, b: Seq<char>)
    ensures
        text_le(a, b) || text_le(b, a),
    decreases a.len(),
{
    if a.len() > 0 && b.len() > 0 && a[0] == b[0] {
        lemma_text_le_total(a.drop_first(), b.drop_first());
    }
}

/// The order of texts is a total order.
pub proof fn law_text_order_is_total()
    ensures
        total_ordering(text_order()),
{
    assert(reflexive(text_order())) by {
        assert forall|a: Seq<char>| #[trigger] text_order()(a, a) by {
            lemma_text_le_reflexive(a);
        }
    }
    assert(antisymmetric(text_order())) by {
        assert forall|a: Seq<char>, b: Seq<char>|
            #[trigger] text_order()(a, b) && #[trigger] text_order()(b, a) implies a == b by {
            lemma_text_le_antisymmetric(a, b);
        }
    }
    assert(transitive(text_order())) by {
        assert forall|a: Seq<char>, b: Seq<char>, c: Seq<char>|
            #[trigger] text_order()(a, b) && #[trigger] text_order()(b, c) implies text_order()(
            a,
            c,
        ) by {
            lemma_text_le_transitive(a, b, c);
        }
    }
    assert(strongly_connected(text_order())) by {
        assert forall|a: Seq<char>, b: Seq<char>|
            #[trigger] text_order()(a, b) || #[trigger] text_order()(b, a) by {
            lemma_text_le_total(a, b);
        }
    }
}

/// The characters of a text.
pub fn chars_of(s: &str) -> (r: Vec<char>)
    ensures
        r@ == s@,
{
    let mut out: Vec<char> = Vec::new();
    for c in it: s.chars()
        invariant
            it.seq() == s@,
            out@ == s@.take(it.index()),
    {
        out.push(c);
        assert(s@.take(it.index() + 1) =~= s@.take(it.index()).push(c));
    }
    assert(s@.take(s@.len() as int) =~= s@);
    out
}

/// Whether a text comes before another or equals it.
pub fn precedes(a: &str, b: &str) -> (r: bool)
    ensures
        r == text_le(a@, b@),
{
    let left: Vec<char> = chars_of(a);
    let right: Vec<char> = chars_of(b);
    let mut i: usize = 0;
    assert(a@.skip(0) =~= a@);
    assert(b@.skip(0) =~= b@);
    while i < left.len() && i < right.len()
        invariant
            i <= left.len(),
            i <= right.len(),
            left@ == a@,
            right@ == b@,
            text_le(a@, b@) == text_le(a@.skip(i as int), b@.skip(i as int)),
        decreases left.len() - i,
    {
        proof {
            let x = a@.skip(i as int);
            let y = b@.skip(i as int);
            assert(x[0] == left@[i as int] && y[0] == right@[i as int]);
            assert(x.drop_first() =~= a@.skip(i + 1));
            assert(y.drop_first() =~= b@.skip(i + 1));
        }
        if left[i] != right[i] {
            return left[i] < right[i];
        }
        i += 1;
    }
    i == left.len()
}

/// A sequence with one more item, put behind the last item that comes before it or equals it.
pub open spec fn placed<T>(s: Seq<T>, x: T, le: spec_fn(T, T) -> bool) -> Seq<T>
    decreases s.len(),
{
    if s.len() == 0 || le(s.last(), x) {
        s.push(x)
    } else {
        placed(s.drop_last(), x, le).push(s.last())
    }
}

/// A sequence in order; items that are equal in the order keep theirs.
pub open spec fn arranged<T>(s: Seq<T>, le: spec_fn(T, T) -> bool) -> Seq<T>
    decreases s.len(),
{
    if s.len() == 0 {
        Seq::empty()
    } else {
        placed(arranged(s.drop_last(), le), s.last(), le)
    }
}

proof fn lemma_placed<T>(s: Seq<T>, x: T, le: spec_fn(T, T) -> bool)
    requires
        total_ordering(le),
        sorted_by(s, le),
    ensures
        sorted_by(placed(s, x, le), le),
        placed(s, x, le).to_multiset() == s.to_multiset().insert(x),
        placed(s, x, le).len() == s.len() + 1,
        forall|i: int|
            0 <= i < placed(s, x, le).len() ==> (#[trigger] placed(s, x, le)[i]) == x || s.contains(
                placed(s, x, le)[i],
            ),
    decreases s.len(),
{
    broadcast use vstd::seq_lib::group_to_multiset_ensures;

    let out = placed(s, x, le);
    if s.len() == 0 || le(s.last(), x) {
        assert forall|i: int, j: int| 0 <= i < j < out.len() implies #[trigger] le(out[i], out[j]) by {
            if j == s.len() {
                if i < s.len() - 1 {
                    assert(le(s[i], s[s.len() - 1]));
                }
            }
        }
        assert forall|i: int| 0 <= i < out.len() implies (#[trigger] out[i]) == x || s.contains(
            out[i],
        ) by {
            if i < s.len() {
                assert(s[i] == out[i]);
            }
        }
    } else {
        let rest = s.drop_last();
        assert(sorted_by(rest, le)) by {
            assert forall|i: int, j: int| 0 <= i < j < rest.len() implies #[trigger] le(
                rest[i],
                rest[j],
            ) by {
                assert(le(s[i], s[j]));
            }
        }
        lemma_placed(rest, x, le);
        let inner = placed(rest, x, le);
        assert(le(x, s.last())) by {
            assert(strongly_connected(le));
            assert(le(s.last(), x) || le(x, s.last()));
        }
        assert forall|i: int, j: int| 0 <= i < j < out.len() implies #[trigger] le(out[i], out[j]) by {
            if j == inner.len() {
                assert(inner[i] == x || rest.contains(inner[i]));
                if inner[i] != x {
                    let k = choose|k: int| 0 <= k < rest.len() && rest[k] == inner[i];
                    assert(le(s[k], s[s.len() - 1]));
                }
            } else {
                assert(le(inner[i], inner[j]));
            }
        }
        assert(s =~= rest.push(s.last()));
        assert(out.to_multiset() =~= inner.to_multiset().insert(s.last()));
        assert(s.to_multiset() =~= rest.to_multiset().insert(s.last()));
        assert(out.to_multiset() =~= s.to_multiset().insert(x));
        assert forall|i: int| 0 <= i < out.len() implies (#[trigger] out[i]) == x || s.contains(
            out[i],
        ) by {
            if i < inner.len() {
                assert(out[i] == inner[i]);
                if inner[i] != x {
                    let k = choose|k: int| 0 <= k < rest.len() && rest[k] == inner[i];
                    assert(s[k] == out[i]);
                }
            } else {
                assert(s[s.len() - 1] == out[i]);
            }
        }
    }
}

/// Arranging keeps every item and puts them in order.
pub proof fn law_arranging_sorts<T>(s: Seq<T>, le: spec_fn(T, T) -> bool)
    requires
        total_ordering(le),
    ensures
        sorted_by(arranged(s, le), le),
        arranged(s, le).to_multiset() == s.to_multiset(),
        arranged(s, le).len() == s.len(),
    decreases s.len(),
{
    broadcast use vstd::seq_lib::group_to_multiset_ensures;

    if s.len() == 0 {
        assert(s =~= Seq::empty());
    } else {
        law_arranging_sorts(s.drop_last(), le);
        lemma_placed(arranged(s.drop_last(), le), s.last(), le);
        assert(s =~= s.drop_last().push(s.last()));
    }
}

/// Texts in order.
pub open spec fn sorted_texts(s: Seq<Seq<char>>) -> Seq<Seq<char>> {
    arranged(s, text_order())
}

fn place_text(list: &mut Vec<String>, item: String)
    ensures
        text_views(final(list)@) == placed(text_views(old(list)@), item@, text_order()),
{
    let ghost all = text_views(list@);
    let mut i: usize = list.len();
    proof {
        assert(all.take(i as int) =~= all);
        assert(placed(all, item@, text_order()) =~= placed(
            all.take(i as int),
            item@,
            text_order(),
        ) + all.skip(i as int));
    }
    while i > 0 && !precedes(list[i - 1].as_str(), item.as_str())
        invariant
            i <= list.len(),
            all == text_views(list@),
            placed(all, item@, text_order()) == placed(all.take(i as int), item@, text_order())
                + all.skip(i as int),
        decreases i,
    {
        proof {
            let head = all.take(i as int);
            assert(head.last() == list@[i - 1]@);
            assert(head.drop_last() =~= all.take(i - 1));
            assert(placed(all, item@, text_order()) =~= placed(
                all.take(i - 1),
                item@,
                text_order(),
            ) + all.skip(i - 1));
        }
        i = i - 1;
    }
    proof {
        let head = all.take(i as int);
        if i > 0 {
            assert(head.last() == list@[i - 1]@);
        }
        assert(placed(head, item@, text_order()) == head.push(item@));
    }
    list.insert(i, item);
    assert(text_views(list@) =~= all.take(i as int).push(item@) + all.skip(i as int));
}

/// Sorts texts.
pub fn sort_texts(list: &Vec<String>) -> (r: Vec<String>)
    ensures
        text_views(r@) == sorted_texts(text_views(list@)),
{
    let ghost all = text_views(list@);
    let mut out: Vec<String> = Vec::new();
    let mut i: usize = 0;
    assert(text_views(out@) =~= arranged(all.take(0), text_order()));
    while i < list.len()
        invariant
            i <= list.len(),
            all == text_views(list@),
            text_views(out@) == arranged(all.take(i as int), text_order()),
        decreases list.len() - i,
    {
        proof {
            let done = all.take(i + 1);
            assert(done.drop_last() =~= all.take(i as int));
            assert(done.last() == list@[i as int]@);
        }
        place_text(&mut out, list[i].clone());
        i += 1;
    }
    assert(all.take(i as int) =~= all);
    out
}

/// Named texts compared by their names.
pub open spec fn name_order() -> spec_fn((Seq<char>, Seq<char>), (Seq<char>, Seq<char>)) -> bool {
    |a: (Seq<char>, Seq<char>), b: (Seq<char>, Seq<char>)| text_le(a.0, b.0)
}

/// The views of named texts.
pub open spec fn pair_views(s: Seq<(String, String)>) -> Seq<(Seq<char>, Seq<char>)> {
    s.map_values(|p: (String, String)| (p.0@, p.1@))
}

fn place_pair(list: &mut Vec<(String, String)>, item: (String, String))
    ensures
        pair_views(final(list)@) == placed(
            pair_views(old(list)@),
            (item.0@, item.1@),
            name_order(),
        ),
{
    let ghost all = pair_views(list@);
    let ghost x = (item.0@, item.1@);
    let mut i: usize = list.len();
    proof {
        assert(all.take(i as int) =~= all);
        assert(placed(all, x, name_order()) =~= placed(all.take(i as int), x, name_order())
            + all.skip(i as int));
    }
    while i > 0 && !precedes(list[i - 1].0.as_str(), item.0.as_str())
        invariant
            i <= list.len(),
            all == pair_views(list@),
            x == (item.0@, item.1@),
            placed(all, x, name_order()) == placed(all.take(i as int), x, name_order())
                + all.skip(i as int),
        decreases i,
    {
        proof {
            let head = all.take(i as int);
            assert(head.last() == (list@[i - 1].0@, list@[i - 1].1@));
            assert(head.drop_last() =~= all.take(i - 1));
            assert(placed(all, x, name_order()) =~= placed(all.take(i - 1), x, name_order())
                + all.skip(i - 1));
        }
        i = i - 1;
    }
    proof {
        let head = all.take(i as int);
        if i > 0 {
            assert(head.last() == (list@[i - 1].0@, list@[i - 1].1@));
        }
        assert(placed(head, x, name_order()) == head.push(x));
    }
    list.insert(i, item);
    assert(pair_views(list@) =~= all.take(i as int).push(x) + all.skip(i as int));
}

/// Sorts named texts by their names; texts of one name keep their order.
pub fn sort_pairs(list: Vec<(String, String)>) -> (r: Vec<(String, String)>)
    ensures
        pair_views(r@) == arranged(pair_views(list@), name_order()),
{
    let ghost all = pair_views(list@);
    let mut out: Vec<(String, String)> = Vec::new();
    let mut i: usize = 0;
    assert(pair_views(out@) =~= arranged(all.take(0), name_order()));
    while i < list.len()
        invariant
            i <= list.len(),
            all == pair_views(list@),
            pair_views(out@) == arranged(all.take(i as int), name_order()),
        decreases list.len() - i,
    {
        proof {
            let done = all.take(i + 1);
            assert(done.drop_last() =~= all.take(i as int));
            assert(done.last() == (list@[i as int].0@, list@[i as int].1@));
        }
        place_pair(&mut out, (list[i].0.clone(), list[i].1.clone()));
        i += 1;
    }
    assert(all.take(i as int) =~= all);
    out
}

} // verus!
