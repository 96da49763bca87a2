//! The identity hash of a model with the data that it is bound to.

use vstd::prelude::*;
use vstd::relations::{antisymmetric, reflexive, strongly_connected, total_ordering, transitive};
use vstd::seq_lib::lemma_sorted_unique;

use crate::data::DataValue;
#[allow(unused_imports)]
use crate::data::{data_views, number_views, DataModel};
use crate::model::fnv1a64;
#[allow(unused_imports)]
use crate::model::fnv1a64_of;
use crate::number::Number;
#[allow(unused_imports)]
use crate::number::NumberModel;
use crate::order::sort_pairs;
#[allow(unused_imports)]
use crate::order::{
    arranged, law_arranging_sorts, lemma_text_le_antisymmetric, lemma_text_le_reflexive,
    lemma_text_le_total, lemma_text_le_transitive, name_order, pair_views, placed, text_le,
};
use crate::text;
#[allow(unused_imports)]
use crate::text::{be_bytes, bytes_of, hex_text, joined, numbers_text, text_views};

verus! {

/// Sixteen hexadecimal digits of a 64-bit number.
pub open spec fn word_text(n: u64) -> Seq<char> {
    hex_text(be_bytes(n))
}

fn show_word(n: u64) -> (r: String)
    ensures
        r@ == word_text(n),
{
    let mut bytes: Vec<u8> = Vec::new();
    text::push_be_bytes(&mut bytes, n);
    assert(bytes@ =~= be_bytes(n));
    text::hex(bytes.as_slice())
}

/// Numbers by their bit patterns.
pub open spec fn patterns_text(values: Seq<NumberModel>) -> Seq<char>
    decreases values.len(),
{
    if values.len() == 0 {
        Seq::empty()
    } else {
        patterns_text(values.drop_last()) + word_text(values.last().bits) + ","@
    }
}

fn show_patterns(values: &Vec<Number>) -> (r: String)
    ensures
        r@ == patterns_text(number_views(values@)),
{
    let ghost all = number_views(values@);
    let mut out: String = String::new();
    assert(out@ =~= patterns_text(all.take(0)));
    let mut i: usize = 0;
    while i < values.len()
        invariant
            i <= values.len(),
            all == number_views(values@),
            out@ == patterns_text(all.take(i as int)),
        decreases values.len() - i,
    {
        proof {
            let done = all.take(i + 1);
            assert(done.drop_last() =~= all.take(i as int));
            assert(done.last() == values@[i as int]@);
        }
        let word: String = show_word(values[i].bits);
        out = text::cat3(out.as_str(), word.as_str(), ",");
        i += 1;
    }
    assert(all.take(i as int) =~= all);
    out
}

/// What of a data value goes into the hash.
pub open spec fn entry_text(entry: (Seq<char>, DataModel)) -> Seq<char> {
    entry.0 + ":shape="@ + numbers_text(entry.1.shape) + ":integer="@ + (if entry.1.integer {
        "true"@
    } else {
        "false"@
    }) + ":values="@ + patterns_text(entry.1.values) + ";"@
}

fn show_entry(name: &str, value: &DataValue) -> (r: String)
    ensures
        r@ == entry_text((name@, value@)),
{
    let shape: String = text::numbers(value.shape.as_slice());
    let integer: &str = if value.integer {
        "true"
    } else {
        "false"
    };
    let values: String = show_patterns(&value.values);
    let head: String = text::cat6(
        name,
        ":shape=",
        shape.as_str(),
        ":integer=",
        integer,
        ":values=",
    );
    text::cat3(head.as_str(), values.as_str(), ";")
}

/// The data of a model by name.
pub open spec fn data_lines(data: Seq<(Seq<char>, DataModel)>) -> Seq<(Seq<char>, Seq<char>)> {
    arranged(
        data.map_values(|entry: (Seq<char>, DataModel)| (entry.0, entry_text(entry))),
        name_order(),
    )
}

/// What the identity of a bound model is computed from; `model` spells the model out.
pub open spec fn identity_source(model: Seq<char>, data: Seq<(Seq<char>, DataModel)>) -> Seq<char> {
    "model="@ + model + ";data=["@ + joined(
        data_lines(data).map_values(|line: (Seq<char>, Seq<char>)| line.1),
        ""@,
    ) + "]"@
}

/// The identity hash of a model with its data.
pub open spec fn identity_hash(model: Seq<char>, data: Seq<(Seq<char>, DataModel)>) -> Seq<char> {
    "fnv1a64:"@ + word_text(fnv1a64_of(bytes_of(identity_source(model, data))))
}

/// The identity hash of a model, spelled out in `model`, with its data.
pub fn posterior_identity_hash(model: &str, data: &Vec<(String, DataValue)>) -> (r: String)
    ensures
        r@ == identity_hash(model@, data_views(data@)),
{
    let mut entries: Vec<(String, String)> = Vec::new();
    let mut i: usize = 0;
    while i < data.len()
        invariant
            i <= data.len(),
            entries.len() == i,
            forall|k: int|
                0 <= k < i ==> (#[trigger] entries@[k]).0@ == data@[k].0@ && entries@[k].1@
                    == entry_text((data@[k].0@, data@[k].1@)),
        decreases data.len() - i,
    {
        let line: String = show_entry(data[i].0.as_str(), &data[i].1);
        entries.push((data[i].0.clone(), line));
        i += 1;
    }
    assert(pair_views(entries@) =~= data_views(data@).map_values(
        |entry: (Seq<char>, DataModel)| (entry.0, entry_text(entry)),
    ));
    let sorted: Vec<(String, String)> = sort_pairs(entries);
    let ghost all = pair_views(sorted@);
    let mut lines: Vec<String> = Vec::new();
    i = 0;
    while i < sorted.len()
        invariant
            i <= sorted.len(),
            lines.len() == i,
            forall|k: int| 0 <= k < i ==> (#[trigger] lines@[k])@ == sorted@[k].1@,
        decreases sorted.len() - i,
    {
        lines.push(sorted[i].1.clone());
        i += 1;
    }
    assert(text_views(lines@) =~= all.map_values(|line: (Seq<char>, Seq<char>)| line.1));
    let list: String = text::join(&lines, "");
    let source: String = text::cat5("model=", model, ";data=[", list.as_str(), "]");
    let word: String = show_word(fnv1a64(source.as_str().as_bytes()));
    text::cat2("fnv1a64:", word.as_str())
}

/// The order of names, and of texts where the names are the same.
pub open spec fn full_order() -> spec_fn((Seq<char>, Seq<char>), (Seq<char>, Seq<char>)) -> bool {
    |a: (Seq<char>, Seq<char>), b: (Seq<char>, Seq<char>)|
        text_le(a.0, b.0) && (a.0 == b.0 ==> text_le(a.1, b.1))
}

proof fn lemma_full_order_is_total()
    ensures
        total_ordering(full_order()),
{
    let le = full_order();
    assert(reflexive(le)) by {
        assert forall|a: (Seq<char>, Seq<char>)| #[trigger] le(a, a) by {
            lemma_text_le_reflexive(a.0);
            lemma_text_le_reflexive(a.1);
        }
    }
    assert(antisymmetric(le)) by {
        assert forall|a: (Seq<char>, Seq<char>), b: (Seq<char>, Seq<char>)|
            #[trigger] le(a, b) && #[trigger] le(b, a) implies a == b by {
            lemma_text_le_antisymmetric(a.0, b.0);
            lemma_text_le_antisymmetric(a.1, b.1);
        }
    }
    assert(transitive(le)) by {
        assert forall|
            a: (Seq<char>, Seq<char>),
            b: (Seq<char>, Seq<char>),
            c: (Seq<char>, Seq<char>),
        | #[trigger] le(a, b) && #[trigger] le(b, c) implies le(a, c) by {
            lemma_text_le_transitive(a.0, b.0, c.0);
            if a.0 == c.0 {
                lemma_text_le_antisymmetric(a.0, b.0);
                lemma_text_le_transitive(a.1, b.1, c.1);
            }
        }
    }
    assert(strongly_connected(le)) by {
        assert forall|a: (Seq<char>, Seq<char>), b: (Seq<char>, Seq<char>)|
            #[trigger] le(a, b) || #[trigger] le(b, a) by {
            lemma_text_le_total(a.0, b.0);
            lemma_text_le_total(a.1, b.1);
            if text_le(a.0, b.0) && text_le(b.0, a.0) {
                lemma_text_le_antisymmetric(a.0, b.0);
            }
        }
    }
}

/// No two items have the same name.
pub open spec fn names_differ<T>(s: Seq<(Seq<char>, T)>) -> bool {
    forall|i: int, j: int| 0 <= i < j < s.len() ==> (#[trigger] s[i]).0 != (#[trigger] s[j]).0
}

proof fn lemma_placed_alike(s: Seq<(Seq<char>, Seq<char>)>, x: (Seq<char>, Seq<char>))
    requires
        forall|i: int| 0 <= i < s.len() ==> (#[trigger] s[i]).0 != x.0,
    ensures
        placed(s, x, name_order()) == placed(s, x, full_order()),
    decreases s.len(),
{
    if s.len() > 0 {
        assert(s[s.len() - 1].0 != x.0);
        lemma_placed_alike(s.drop_last(), x);
    }
}

/// Among different names the texts do not matter for the order.
proof fn lemma_arranged_alike(s: Seq<(Seq<char>, Seq<char>)>)
    requires
        names_differ(s),
    ensures
        arranged(s, name_order()) == arranged(s, full_order()),
    decreases s.len(),
{
    if s.len() > 0 {
        let rest = s.drop_last();
        assert forall|i: int, j: int| 0 <= i < j < rest.len() implies (#[trigger] rest[i]).0 != (
        #[trigger] rest[j]).0 by {
            assert(s[i].0 != s[j].0);
        }
        lemma_arranged_alike(rest);
        lemma_full_order_is_total();
        law_arranging_sorts(rest, full_order());
        let sorted = arranged(rest, full_order());
        assert forall|i: int| 0 <= i < sorted.len() implies (#[trigger] sorted[i]).0
            != s.last().0 by {
            broadcast use vstd::seq_lib::group_to_multiset_ensures;

            assert(sorted.contains(sorted[i]));
            assert(sorted.to_multiset().count(sorted[i]) > 0);
            assert(rest.contains(sorted[i]));
            let k = choose|k: int| 0 <= k < rest.len() && rest[k] == sorted[i];
            assert(s[k].0 != s[s.len() - 1].0);
        }
        lemma_placed_alike(sorted, s.last());
    }
}

proof fn lemma_mapped_alike<T, U>(a: Seq<T>, b: Seq<T>, f: spec_fn(T) -> U)
    requires
        a.to_multiset() == b.to_multiset(),
    ensures
        a.map_values(f).to_multiset() == b.map_values(f).to_multiset(),
    decreases a.len(),
{
    broadcast use vstd::seq_lib::group_to_multiset_ensures;

    assert(a.len() == a.to_multiset().len() && b.len() == b.to_multiset().len());
    if a.len() == 0 {
        assert(a.map_values(f) =~= b.map_values(f));
    } else {
        let x = a.last();
        assert(a.contains(a[a.len() - 1]));
        assert(b.to_multiset().count(x) > 0);
        assert(b.contains(x));
        let j = choose|j: int| 0 <= j < b.len() && b[j] == x;
        let rest = a.drop_last();
        assert(a =~= rest.push(x));
        assert(rest.to_multiset() =~= b.remove(j).to_multiset()) by {
            assert(a.to_multiset() =~= rest.to_multiset().insert(x));
            assert(b.remove(j).to_multiset() =~= b.to_multiset().remove(x));
        }
        lemma_mapped_alike(rest, b.remove(j), f);
        assert(a.map_values(f) =~= rest.map_values(f).push(f(x)));
        assert(b.remove(j).map_values(f) =~= b.map_values(f).remove(j));
        let mapped = b.map_values(f);
        assert(mapped[j] == f(x));
        assert(mapped.contains(f(x)));
        assert(mapped.to_multiset() =~= mapped.to_multiset().remove(f(x)).insert(f(x)));
    }
}

pub proof fn lemma_names_still_differ<T>(a: Seq<(Seq<char>, T)>, b: Seq<(Seq<char>, T)>)
    requires
        a.to_multiset() == b.to_multiset(),
        names_differ(a),
    ensures
        names_differ(b),
{
    broadcast use vstd::seq_lib::group_to_multiset_ensures;

    assert(a.no_duplicates()) by {
        assert forall|i: int, j: int| 0 <= i < a.len() && 0 <= j < a.len() && i != j implies a[i]
            != a[j] by {
            if i < j {
                assert(a[i].0 != a[j].0);
            } else {
                assert(a[j].0 != a[i].0);
            }
        }
    }
    a.lemma_multiset_has_no_duplicates();
    b.lemma_multiset_has_no_duplicates_conv();
    assert forall|i: int, j: int| 0 <= i < j < b.len() implies (#[trigger] b[i]).0 != (
    #[trigger] b[j]).0 by {
        assert(b.contains(b[i]) && b.contains(b[j]));
        assert(a.to_multiset().count(b[i]) > 0 && a.to_multiset().count(b[j]) > 0);
        assert(a.contains(b[i]) && a.contains(b[j]));
        let k = choose|k: int| 0 <= k < a.len() && a[k] == b[i];
        let l = choose|l: int| 0 <= l < a.len() && a[l] == b[j];
        assert(k != l);
        if k < l {
            assert(a[k].0 != a[l].0);
        } else {
            assert(a[l].0 != a[k].0);
        }
    }
}

/// The identity of a model with its data does not depend on the order of the data, as long as no
/// two data have the same name.
pub proof fn law_identity_ignores_the_order_of_data(
    model: Seq<char>,
    a: Seq<(Seq<char>, DataModel)>,
    b: Seq<(Seq<char>, DataModel)>,
)
    requires
        a.to_multiset() == b.to_multiset(),
        names_differ(a),
    ensures
        identity_hash(model, a) == identity_hash(model, b),
{
    let f = |entry: (Seq<char>, DataModel)| (entry.0, entry_text(entry));
    let left = a.map_values(f);
    let right = b.map_values(f);
    lemma_mapped_alike(a, b, f);
    lemma_names_still_differ(a, b);
    assert forall|i: int, j: int| 0 <= i < j < left.len() implies (#[trigger] left[i]).0 != (
    #[trigger] left[j]).0 by {
        assert(a[i].0 != a[j].0);
    }
    assert forall|i: int, j: int| 0 <= i < j < right.len() implies (#[trigger] right[i]).0 != (
    #[trigger] right[j]).0 by {
        assert(b[i].0 != b[j].0);
    }
    lemma_arranged_alike(left);
    lemma_arranged_alike(right);
    lemma_full_order_is_total();
    law_arranging_sorts(left, full_order());
    law_arranging_sorts(right, full_order());
    lemma_sorted_unique(arranged(left, full_order()), arranged(right, full_order()), full_order());
}

} // verus!
