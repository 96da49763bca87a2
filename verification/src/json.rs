//! JSON documents: values, field access, and the compact text of a value.

use vstd::prelude::*;

use crate::number::{Number, NumberModel};
use crate::text;
#[allow(unused_imports)]
use crate::text::integer_text;

verus! {

/// A JSON document. An object keeps its fields in the order in which they were written.
#[derive(Debug, PartialEq)]
pub enum Value {
    Null,
    Bool(bool),
    Int(i64),
    Float(Number),
    Str(String),
    Array(Vec<Value>),
    Object(Vec<(String, Value)>),
}

/// The mathematical content of a [`Value`].
#[verifier::ext_equal]
pub enum Json {
    Null,
    Bool(bool),
    Int(i64),
    Float(NumberModel),
    Str(Seq<char>),
    Array(Seq<Json>),
    Object(Seq<(Seq<char>, Json)>),
}

impl View for Value {
    type V = Json;

    open spec fn view(&self) -> Json {
        value_view(*self)
    }
}

pub open spec fn value_view(v: Value) -> Json
    decreases v,
{
    match v {
        Value::Null => Json::Null,
        Value::Bool(b) => Json::Bool(b),
        Value::Int(i) => Json::Int(i),
        Value::Float(n) => Json::Float(n@),
        Value::Str(s) => Json::Str(s@),
        Value::Array(items) => Json::Array(items_view(items@)),
        Value::Object(entries) => Json::Object(entries_view(entries@)),
    }
}

/// The items of an array, each by its content.
pub open spec fn items_view(s: Seq<Value>) -> Seq<Json>
    decreases s,
{
    if s.len() == 0 {
        Seq::empty()
    } else {
        items_view(s.drop_last()).push(value_view(s.last()))
    }
}

/// The fields of an object, each by its name and content.
pub open spec fn entries_view(s: Seq<(String, Value)>) -> Seq<(Seq<char>, Json)>
    decreases s,
{
    if s.len() == 0 {
        Seq::empty()
    } else {
        entries_view(s.drop_last()).push((s.last().0@, value_view(s.last().1)))
    }
}

pub broadcast proof fn lemma_items_view_len(s: Seq<Value>)
    ensures
        #[trigger] items_view(s).len() == s.len(),
    decreases s.len(),
{
    if s.len() > 0 {
        lemma_items_view_len(s.drop_last());
    }
}

pub broadcast proof fn lemma_items_view_index(s: Seq<Value>, i: int)
    requires
        0 <= i < s.len(),
    ensures
        #[trigger] items_view(s)[i] == s[i]@,
    decreases s.len(),
{
    lemma_items_view_len(s.drop_last());
    if i < s.len() - 1 {
        lemma_items_view_index(s.drop_last(), i);
    }
}

pub broadcast proof fn lemma_entries_view_len(s: Seq<(String, Value)>)
    ensures
        #[trigger] entries_view(s).len() == s.len(),
    decreases s.len(),
{
    if s.len() > 0 {
        lemma_entries_view_len(s.drop_last());
    }
}

pub broadcast proof fn lemma_entries_view_index(s: Seq<(String, Value)>, i: int)
    requires
        0 <= i < s.len(),
    ensures
        #[trigger] entries_view(s)[i] == (s[i].0@, s[i].1@),
    decreases s.len(),
{
    lemma_entries_view_len(s.drop_last());
    if i < s.len() - 1 {
        lemma_entries_view_index(s.drop_last(), i);
    }
}

pub broadcast group group_json_views {
    lemma_items_view_len,
    lemma_items_view_index,
    lemma_entries_view_len,
    lemma_entries_view_index,
}

/// The content of the first field of that name.
pub open spec fn field_from(entries: Seq<(Seq<char>, Json)>, name: Seq<char>, from: int) -> Option<Json>
    decreases entries.len() - from,
{
    if from < 0 || from >= entries.len() {
        None
    } else if entries[from].0 == name {
        Some(entries[from].1)
    } else {
        field_from(entries, name, from + 1)
    }
}

/// The content of a field of an object; nothing for another kind of value.
pub open spec fn field(v: Json, name: Seq<char>) -> Option<Json> {
    match v {
        Json::Object(entries) => field_from(entries, name, 0),
        _ => None,
    }
}

/// The text of a string, nothing for another kind of value.
pub open spec fn string_of(v: Option<Json>) -> Option<Seq<char>> {
    match v {
        Some(Json::Str(s)) => Some(s),
        _ => None,
    }
}

pub open spec fn integer_of(v: Option<Json>) -> Option<i64> {
    match v {
        Some(Json::Int(i)) => Some(i),
        _ => None,
    }
}

pub open spec fn array_of(v: Option<Json>) -> Option<Seq<Json>> {
    match v {
        Some(Json::Array(items)) => Some(items),
        _ => None,
    }
}

/// A number of either kind, as a double.
pub open spec fn number_of(v: Option<Json>) -> Option<NumberModel> {
    match v {
        Some(Json::Float(n)) => Some(n),
        Some(Json::Int(i)) => Some(crate::number::number_of_integer(i as int)),
        _ => None,
    }
}

/// The view of an optional borrowed value.
pub open spec fn optional_view(v: Option<&Value>) -> Option<Json> {
    match v {
        Some(value) => Some(value@),
        None => None,
    }
}

impl Value {
    /// The first field of that name.
    pub fn get(&self, name: &str) -> (r: Option<&Value>)
        ensures
            optional_view(r) == field(self@, name@),
    {
        broadcast use group_json_views;

        match self {
            Value::Object(entries) => {
                let mut i: usize = 0;
                while i < entries.len()
                    invariant
                        i <= entries.len(),
                        *self == Value::Object(*entries),
                        field_from(entries_view(entries@), name@, 0) == field_from(
                            entries_view(entries@),
                            name@,
                            i as int,
                        ),
                    decreases entries.len() - i,
                {
                    broadcast use group_json_views;

                    if text::same(entries[i].0.as_str(), name) {
                        return Some(&entries[i].1);
                    }
                    i += 1;
                }
                None
            },
            _ => None,
        }
    }

    pub fn as_str(&self) -> (r: Option<&str>)
        ensures
            match r {
                Some(s) => string_of(Some(self@)) == Some(s@),
                None => string_of(Some(self@)) is None,
            },
    {
        match self {
            Value::Str(s) => Some(s.as_str()),
            _ => None,
        }
    }

    pub fn as_i64(&self) -> (r: Option<i64>)
        ensures
            r == integer_of(Some(self@)),
    {
        match self {
            Value::Int(i) => Some(*i),
            _ => None,
        }
    }

    pub fn as_array(&self) -> (r: Option<&Vec<Value>>)
        ensures
            match r {
                Some(items) => array_of(Some(self@)) == Some(items_view(items@)),
                None => array_of(Some(self@)) is None,
            },
    {
        match self {
            Value::Array(items) => Some(items),
            _ => None,
        }
    }

    /// A number of either kind, as a double.
    pub fn as_f64(&self) -> (r: Option<Number>)
        ensures
            match r {
                Some(n) => number_of(Some(self@)) == Some(n@),
                None => number_of(Some(self@)) is None,
            },
    {
        match self {
            Value::Float(n) => Some(n.copy()),
            Value::Int(i) => Some(Number::from_integer(*i)),
            _ => None,
        }
    }

    /// A value with the same content.
    pub fn copy(&self) -> (r: Value)
        ensures
            r@ == self@,
        decreases self,
    {
        broadcast use group_json_views;

        match self {
            Value::Null => Value::Null,
            Value::Bool(b) => Value::Bool(*b),
            Value::Int(i) => Value::Int(*i),
            Value::Float(n) => Value::Float(n.copy()),
            Value::Str(s) => Value::Str(s.clone()),
            Value::Array(items) => {
                let mut out: Vec<Value> = Vec::new();
                let mut i: usize = 0;
                while i < items.len()
                    invariant
                        i <= items.len(),
                        out.len() == i,
                        *self == Value::Array(*items),
                        forall|j: int| 0 <= j < i ==> (#[trigger] out@[j])@ == items@[j]@,
                    decreases items.len() - i,
                {
                    assert(decreases_to!(*self => self->Array_0));
                    assert(decreases_to!(self->Array_0 => self->Array_0@));
                    assert(decreases_to!(items@ => items@[i as int]));
                    out.push(items[i].copy());
                    i += 1;
                }
                assert(items_view(out@) =~= items_view(items@));
                Value::Array(out)
            },
            Value::Object(entries) => {
                let mut out: Vec<(String, Value)> = Vec::new();
                let mut i: usize = 0;
                while i < entries.len()
                    invariant
                        i <= entries.len(),
                        out.len() == i,
                        *self == Value::Object(*entries),
                        forall|j: int|
                            0 <= j < i ==> (#[trigger] out@[j]).0@ == entries@[j].0@ && out@[j].1@
                                == entries@[j].1@,
                    decreases entries.len() - i,
                {
                    assert(decreases_to!(*self => self->Object_0));
                    assert(decreases_to!(self->Object_0 => self->Object_0@));
                    assert(decreases_to!(entries@ => entries@[i as int]));
                    assert(decreases_to!(entries@[i as int] => entries@[i as int].1));
                    out.push((entries[i].0.clone(), entries[i].1.copy()));
                    i += 1;
                }
                assert(entries_view(out@) =~= entries_view(entries@));
                Value::Object(out)
            },
        }
    }
}

/// How one character stands inside a JSON string.
pub open spec fn escaped_char(c: char) -> Seq<char> {
    if c == '"' {
        seq!['\\', '"']
    } else if c == '\\' {
        seq!['\\', '\\']
    } else if c == '\n' {
        seq!['\\', 'n']
    } else if c == '\r' {
        seq!['\\', 'r']
    } else if c == '\t' {
        seq!['\\', 't']
    } else if (c as int) < 32 {
        seq!['\\', 'u', '0', '0'] + text::hex_text(seq![c as u8])
    } else {
        seq![c]
    }
}

pub open spec fn escaped(s: Seq<char>) -> Seq<char>
    decreases s.len(),
{
    if s.len() == 0 {
        Seq::empty()
    } else {
        escaped(s.drop_last()) + escaped_char(s.last())
    }
}

/// A string between double quotes.
pub open spec fn string_text(s: Seq<char>) -> Seq<char> {
    seq!['"'] + escaped(s) + seq!['"']
}

/// The compact JSON text of a value: no blanks, fields in their order.
pub open spec fn json_text(v: Json) -> Seq<char>
    decreases v,
{
    match v {
        Json::Null => "null"@,
        Json::Bool(b) => if b {
            "true"@
        } else {
            "false"@
        },
        Json::Int(i) => integer_text(i as int),
        Json::Float(n) => n.text,
        Json::Str(s) => string_text(s),
        Json::Array(items) => seq!['['] + items_text(items) + seq![']'],
        Json::Object(entries) => seq!['{'] + entries_text(entries) + seq!['}'],
    }
}

/// The items of an array, with commas between them.
pub open spec fn items_text(s: Seq<Json>) -> Seq<char>
    decreases s,
{
    if s.len() == 0 {
        Seq::empty()
    } else if s.len() == 1 {
        json_text(s.last())
    } else {
        items_text(s.drop_last()) + seq![','] + json_text(s.last())
    }
}

/// The fields of an object, with commas between them.
pub open spec fn entries_text(s: Seq<(Seq<char>, Json)>) -> Seq<char>
    decreases s,
{
    if s.len() == 0 {
        Seq::empty()
    } else if s.len() == 1 {
        string_text(s.last().0) + seq![':'] + json_text(s.last().1)
    } else {
        entries_text(s.drop_last()) + seq![','] + string_text(s.last().0) + seq![':'] + json_text(
            s.last().1,
        )
    }
}

fn write_char(out: &mut String, c: char)
    ensures
        final(out)@ == old(out)@ + escaped_char(c),
{
    if c == '"' {
        out.push('\\');
        out.push('"');
    } else if c == '\\' {
        out.push('\\');
        out.push('\\');
    } else if c == '\n' {
        out.push('\\');
        out.push('n');
    } else if c == '\r' {
        out.push('\\');
        out.push('r');
    } else if c == '\t' {
        out.push('\\');
        out.push('t');
    } else if (c as u32) < 32 {
        out.push('\\');
        out.push('u');
        out.push('0');
        out.push('0');
        let byte: [u8; 1] = [c as u8];
        let digits: String = text::hex(&byte);
        assert(byte@ =~= seq![c as u8]);
        out.append(digits.as_str());
    } else {
        out.push(c);
    }
    assert(out@ =~= old(out)@ + escaped_char(c));
}

fn write_string(out: &mut String, s: &str)
    ensures
        final(out)@ == old(out)@ + string_text(s@),
{
    out.push('"');
    for c in it: s.chars()
        invariant
            it.seq() == s@,
            out@ == old(out)@ + seq!['"'] + escaped(s@.take(it.index())),
    {
        write_char(out, c);
        proof {
            let done = s@.take(it.index() + 1);
            assert(done.drop_last() =~= s@.take(it.index()));
            assert(done.last() == c);
            assert(out@ =~= old(out)@ + seq!['"'] + escaped(done));
        }
    }
    assert(s@.take(s@.len() as int) =~= s@);
    out.push('"');
    assert(out@ =~= old(out)@ + string_text(s@));
}

fn write_value(out: &mut String, v: &Value)
    ensures
        final(out)@ == old(out)@ + json_text(v@),
    decreases v,
{
    broadcast use group_json_views;

    match v {
        Value::Null => {
            out.append("null");
        },
        Value::Bool(b) => {
            if *b {
                out.append("true");
            } else {
                out.append("false");
            }
        },
        Value::Int(i) => {
            out.append(text::integer(*i).as_str());
        },
        Value::Float(n) => {
            out.append(n.text.as_str());
        },
        Value::Str(s) => {
            write_string(out, s.as_str());
        },
        Value::Array(items) => {
            out.push('[');
            let ghost all = items_view(items@);
            let mut i: usize = 0;
            while i < items.len()
                invariant
                    i <= items.len(),
                    *v == Value::Array(*items),
                    all == items_view(items@),
                    out@ == old(out)@ + seq!['['] + items_text(all.take(i as int)),
                decreases items.len() - i,
            {
                broadcast use group_json_views;

                if i > 0 {
                    out.push(',');
                }
                proof {
                    assert(decreases_to!(*v => v->Array_0));
                    assert(decreases_to!(v->Array_0 => v->Array_0@));
                    assert(decreases_to!(items@ => items@[i as int]));
                }
                write_value(out, &items[i]);
                proof {
                    let done = all.take(i + 1);
                    assert(done.drop_last() =~= all.take(i as int));
                    assert(done.last() == items@[i as int]@);
                    assert(out@ =~= old(out)@ + seq!['['] + items_text(done));
                }
                i += 1;
            }
            assert(all.take(i as int) =~= all);
            out.push(']');
            assert(out@ =~= old(out)@ + json_text(v@));
        },
        Value::Object(entries) => {
            out.push('{');
            let ghost all = entries_view(entries@);
            let mut i: usize = 0;
            while i < entries.len()
                invariant
                    i <= entries.len(),
                    *v == Value::Object(*entries),
                    all == entries_view(entries@),
                    out@ == old(out)@ + seq!['{'] + entries_text(all.take(i as int)),
                decreases entries.len() - i,
            {
                broadcast use group_json_views;

                if i > 0 {
                    out.push(',');
                }
                write_string(out, entries[i].0.as_str());
                out.push(':');
                proof {
                    assert(decreases_to!(*v => v->Object_0));
                    assert(decreases_to!(v->Object_0 => v->Object_0@));
                    assert(decreases_to!(entries@ => entries@[i as int]));
                    assert(decreases_to!(entries@[i as int] => entries@[i as int].1));
                }
                write_value(out, &entries[i].1);
                proof {
                    let done = all.take(i + 1);
                    assert(done.drop_last() =~= all.take(i as int));
                    assert(done.last() == (entries@[i as int].0@, entries@[i as int].1@));
                    assert(out@ =~= old(out)@ + seq!['{'] + entries_text(done));
                }
                i += 1;
            }
            assert(all.take(i as int) =~= all);
            out.push('}');
            assert(out@ =~= old(out)@ + json_text(v@));
        },
    }
}

/// The compact JSON text of a value.
pub fn write(v: &Value) -> (r: String)
    ensures
        r@ == json_text(v@),
{
    let mut out: String = String::new();
    write_value(&mut out, v);
    assert(out@ =~= json_text(v@));
    out
}

} // verus!
