//! Building JSON objects and rendering them as lines of text.

use vstd::prelude::*;

use crate::error::{nonfinite, Error};
#[allow(unused_imports)]
use crate::error::{nonfinite_fault, Fault};
use crate::json::Value;
#[allow(unused_imports)]
use crate::json::{entries_view, group_json_views, items_view, json_text, Json};
use crate::number::Number;
#[allow(unused_imports)]
use crate::number::finite;
#[allow(unused_imports)]
use crate::text::text_views;

verus! {

/// An object under construction.
#[derive(Debug)]
pub struct Fields {
    pub entries: Vec<(String, Value)>,
}

impl View for Fields {
    type V = Seq<(Seq<char>, Json)>;

    open spec fn view(&self) -> Seq<(Seq<char>, Json)> {
        entries_view(self.entries@)
    }
}

impl Fields {
    pub fn new() -> (r: Fields)
        ensures
            r@ == Seq::<(Seq<char>, Json)>::empty(),
    {
        broadcast use group_json_views;

        let r: Fields = Fields { entries: Vec::new() };
        assert(r@ =~= Seq::empty());
        r
    }

    /// Adds a field.
    pub fn put(&mut self, name: &str, value: Value)
        ensures
            final(self)@ == old(self)@.push((name@, value@)),
    {
        broadcast use group_json_views;

        let ghost before = self.entries@;
        let ghost content = value@;
        self.entries.push((name.to_owned(), value));
        assert(entries_view(self.entries@) =~= entries_view(before).push((name@, content)));
    }

    /// Adds a field with a text.
    pub fn put_text(&mut self, name: &str, value: &str)
        ensures
            final(self)@ == old(self)@.push((name@, Json::Str(value@))),
    {
        self.put(name, Value::Str(value.to_owned()));
    }

    /// Adds a field with an integer.
    pub fn put_int(&mut self, name: &str, value: i64)
        ensures
            final(self)@ == old(self)@.push((name@, Json::Int(value))),
    {
        self.put(name, Value::Int(value));
    }

    /// Adds a field with a truth value.
    pub fn put_bool(&mut self, name: &str, value: bool)
        ensures
            final(self)@ == old(self)@.push((name@, Json::Bool(value))),
    {
        self.put(name, Value::Bool(value));
    }

    /// Adds the fields of another object.
    pub fn put_all(&mut self, more: Vec<(String, Value)>)
        ensures
            final(self)@ == old(self)@ + entries_view(more@),
    {
        broadcast use group_json_views;

        let ghost before = self.entries@;
        let ghost added = more@;
        let mut rest: Vec<(String, Value)> = more;
        self.entries.append(&mut rest);
        assert(entries_view(self.entries@) =~= entries_view(before) + entries_view(added));
    }

    /// The object.
    pub fn done(self) -> (r: Value)
        ensures
            r@ == Json::Object(self@),
    {
        Value::Object(self.entries)
    }
}

/// Texts as JSON.
pub open spec fn texts_json(texts: Seq<Seq<char>>) -> Json {
    Json::Array(texts.map_values(|s: Seq<char>| Json::Str(s)))
}

/// An array of texts.
pub fn texts_value(texts: &Vec<&str>) -> (r: Value)
    ensures
        r@ == texts_json(crate::investigation::fields::names_view(texts@)),
{
    broadcast use group_json_views;

    let mut items: Vec<Value> = Vec::new();
    let mut i: usize = 0;
    while i < texts.len()
        invariant
            i <= texts.len(),
            items.len() == i,
            forall|k: int| 0 <= k < i ==> (#[trigger] items@[k])@ == Json::Str(texts@[k]@),
        decreases texts.len() - i,
    {
        items.push(Value::Str(texts[i].to_owned()));
        i += 1;
    }
    assert(items_view(items@) =~= crate::investigation::fields::names_view(texts@).map_values(
        |s: Seq<char>| Json::Str(s),
    ));
    Value::Array(items)
}

/// Whether every number of a value is finite.
pub open spec fn all_finite(v: Json) -> bool
    decreases v,
{
    match v {
        Json::Float(n) => finite(n.bits),
        Json::Array(items) => items_finite(items),
        Json::Object(entries) => entries_finite(entries),
        _ => true,
    }
}

/// Whether every number of some values is finite.
pub open spec fn items_finite(s: Seq<Json>) -> bool
    decreases s,
{
    s.len() == 0 || (items_finite(s.drop_last()) && all_finite(s.last()))
}

/// Whether every number of some fields is finite.
pub open spec fn entries_finite(s: Seq<(Seq<char>, Json)>) -> bool
    decreases s,
{
    s.len() == 0 || (entries_finite(s.drop_last()) && all_finite(s.last().1))
}

proof fn lemma_items_infinite(s: Seq<Json>, n: int)
    requires
        0 <= n <= s.len(),
        !items_finite(s.take(n)),
    ensures
        !items_finite(s),
    decreases s.len(),
{
    if n < s.len() {
        assert(s.drop_last().take(n) =~= s.take(n));
        lemma_items_infinite(s.drop_last(), n);
    } else {
        assert(s.take(n) =~= s);
    }
}

proof fn lemma_entries_infinite(s: Seq<(Seq<char>, Json)>, n: int)
    requires
        0 <= n <= s.len(),
        !entries_finite(s.take(n)),
    ensures
        !entries_finite(s),
    decreases s.len(),
{
    if n < s.len() {
        assert(s.drop_last().take(n) =~= s.take(n));
        lemma_entries_infinite(s.drop_last(), n);
    } else {
        assert(s.take(n) =~= s);
    }
}

/// Whether every number of a value is finite.
pub fn is_finite(v: &Value) -> (r: bool)
    ensures
        r == all_finite(v@),
    decreases v,
{
    broadcast use group_json_views;

    match v {
        Value::Float(n) => n.is_finite(),
        Value::Array(items) => {
            let ghost all = items_view(items@);
            assert(all.take(0) =~= Seq::empty());
            let mut i: usize = 0;
            while i < items.len()
                invariant
                    i <= items.len(),
                    *v == Value::Array(*items),
                    all == items_view(items@),
                    v@ == Json::Array(all),
                    items_finite(all.take(i as int)),
                decreases items.len() - i,
            {
                broadcast use group_json_views;

                proof {
                    assert(decreases_to!(*v => v->Array_0));
                    assert(decreases_to!(v->Array_0 => v->Array_0@));
                    assert(decreases_to!(items@ => items@[i as int]));
                    let done = all.take(i + 1);
                    assert(done.drop_last() =~= all.take(i as int));
                    assert(done.last() == items@[i as int]@);
                }
                if !is_finite(&items[i]) {
                    proof {
                        lemma_items_infinite(all, i + 1);
                    }
                    return false;
                }
                i += 1;
            }
            assert(all.take(i as int) =~= all);
            true
        },
        Value::Object(entries) => {
            let ghost all = entries_view(entries@);
            assert(all.take(0) =~= Seq::empty());
            let mut i: usize = 0;
            while i < entries.len()
                invariant
                    i <= entries.len(),
                    *v == Value::Object(*entries),
                    all == entries_view(entries@),
                    v@ == Json::Object(all),
                    entries_finite(all.take(i as int)),
                decreases entries.len() - i,
            {
                broadcast use group_json_views;

                proof {
                    assert(decreases_to!(*v => v->Object_0));
                    assert(decreases_to!(v->Object_0 => v->Object_0@));
                    assert(decreases_to!(entries@ => entries@[i as int]));
                    assert(decreases_to!(entries@[i as int] => entries@[i as int].1));
                    let done = all.take(i + 1);
                    assert(done.drop_last() =~= all.take(i as int));
                    assert(done.last().1 == entries@[i as int].1@);
                }
                if !is_finite(&entries[i].1) {
                    proof {
                        lemma_entries_infinite(all, i + 1);
                    }
                    return false;
                }
                i += 1;
            }
            assert(all.take(i as int) =~= all);
            true
        },
        _ => true,
    }
}

fn same_number(a: &Number, b: &Number) -> (r: bool)
    ensures
        r == (a@ == b@),
{
    let same: bool = a.bits == b.bits && crate::text::same(a.text.as_str(), b.text.as_str());
    assert(same ==> a@ =~= b@);
    same
}

/// Whether two values are the same.
pub fn same_value(a: &Value, b: &Value) -> (r: bool)
    ensures
        r == (a@ == b@),
    decreases a,
{
    broadcast use group_json_views;

    match (a, b) {
        (Value::Null, Value::Null) => true,
        (Value::Bool(x), Value::Bool(y)) => *x == *y,
        (Value::Int(x), Value::Int(y)) => *x == *y,
        (Value::Float(x), Value::Float(y)) => same_number(x, y),
        (Value::Str(x), Value::Str(y)) => crate::text::same(x.as_str(), y.as_str()),
        (Value::Array(x), Value::Array(y)) => {
            let ghost left = items_view(x@);
            let ghost right = items_view(y@);
            if x.len() != y.len() {
                assert(left.len() != right.len());
                return false;
            }
            let mut i: usize = 0;
            while i < x.len()
                invariant
                    i <= x.len(),
                    x.len() == y.len(),
                    *a == Value::Array(*x),
                    left == items_view(x@),
                    right == items_view(y@),
                    a@ == Json::Array(left),
                    b@ == Json::Array(right),
                    forall|k: int| 0 <= k < i ==> left[k] == right[k],
                decreases x.len() - i,
            {
                broadcast use group_json_views;

                proof {
                    assert(decreases_to!(*a => a->Array_0));
                    assert(decreases_to!(a->Array_0 => a->Array_0@));
                    assert(decreases_to!(x@ => x@[i as int]));
                    assert(left[i as int] == x@[i as int]@);
                    assert(right[i as int] == y@[i as int]@);
                }
                if !same_value(&x[i], &y[i]) {
                    return false;
                }
                i += 1;
            }
            assert(left =~= right);
            true
        },
        (Value::Object(x), Value::Object(y)) => {
            let ghost left = entries_view(x@);
            let ghost right = entries_view(y@);
            if x.len() != y.len() {
                assert(left.len() != right.len());
                return false;
            }
            let mut i: usize = 0;
            while i < x.len()
                invariant
                    i <= x.len(),
                    x.len() == y.len(),
                    *a == Value::Object(*x),
                    left == entries_view(x@),
                    right == entries_view(y@),
                    a@ == Json::Object(left),
                    b@ == Json::Object(right),
                    forall|k: int| 0 <= k < i ==> left[k] == right[k],
                decreases x.len() - i,
            {
                broadcast use group_json_views;

                proof {
                    assert(decreases_to!(*a => a->Object_0));
                    assert(decreases_to!(a->Object_0 => a->Object_0@));
                    assert(decreases_to!(x@ => x@[i as int]));
                    assert(decreases_to!(x@[i as int] => x@[i as int].1));
                    assert(left[i as int] == (x@[i as int].0@, x@[i as int].1@));
                    assert(right[i as int] == (y@[i as int].0@, y@[i as int].1@));
                }
                if !crate::text::same(x[i].0.as_str(), y[i].0.as_str()) || !same_value(
                    &x[i].1,
                    &y[i].1,
                ) {
                    return false;
                }
                i += 1;
            }
            assert(left =~= right);
            true
        },
        _ => false,
    }
}

/// A value as a line of text: JSON has no spelling for numbers that are not finite.
pub open spec fn rendered(v: Json) -> Result<Seq<char>, Fault> {
    if all_finite(v) {
        Ok(json_text(v))
    } else {
        Err(nonfinite_fault("JSON cannot represent a non-finite number"@))
    }
}

/// The view of a line.
pub open spec fn line_outcome(r: Result<String, Error>) -> Result<Seq<char>, Fault> {
    match r {
        Ok(line) => Ok(line@),
        Err(error) => Err(error@),
    }
}

/// Renders a value as a line of text.
pub fn render(v: &Value) -> (r: Result<String, Error>)
    ensures
        line_outcome(r) == rendered(v@),
{
    if !is_finite(v) {
        return Err(nonfinite("JSON cannot represent a non-finite number".to_owned()));
    }
    Ok(crate::json::write(v))
}

/// The view of lines.
pub open spec fn lines_outcome(r: Result<Vec<String>, Error>) -> Result<Seq<Seq<char>>, Fault> {
    match r {
        Ok(lines) => Ok(text_views(lines@)),
        Err(error) => Err(error@),
    }
}

} // verus!
