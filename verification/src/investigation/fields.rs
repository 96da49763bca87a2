//! Strict reading of JSON objects: known fields only, each at most once, none missing.

use vstd::prelude::*;

use crate::error::{malformed, Error};
#[allow(unused_imports)]
use crate::error::{malformed_fault, outcome, Fault};
use crate::json::Value;
#[allow(unused_imports)]
use crate::json::{
    array_of, entries_view, field, field_from, group_json_views, items_view, string_of, Json,
};
use crate::text;
#[allow(unused_imports)]
use crate::text::{bytes_of, debug_text};

verus! {

/// Names as the mathematical content of borrowed strings.
pub open spec fn names_view(names: Seq<&str>) -> Seq<Seq<char>> {
    names.map_values(|name: &str| name@)
}

/// Whether a field of that name stands before position `end`.
pub open spec fn named_before(entries: Seq<(Seq<char>, Json)>, name: Seq<char>, end: int) -> bool {
    exists|j: int| 0 <= j < end && (#[trigger] entries[j]).0 == name
}

/// The first complaint about a field at or behind position `i`: written twice, or unknown.
pub open spec fn field_complaint(
    entries: Seq<(Seq<char>, Json)>,
    context: Seq<char>,
    allowed: Seq<Seq<char>>,
    i: int,
) -> Option<Seq<char>>
    decreases entries.len() - i,
{
    if i < 0 || i >= entries.len() {
        None
    } else if named_before(entries, entries[i].0, i) {
        Some(context + " has duplicate field "@ + debug_text(entries[i].0) + "; remove one"@)
    } else if !allowed.contains(entries[i].0) {
        Some(context + " has unknown field "@ + debug_text(entries[i].0) + "; remove it"@)
    } else {
        field_complaint(entries, context, allowed, i + 1)
    }
}

/// The first complaint about a missing field, from the `i`-th required name on.
pub open spec fn missing_complaint(
    entries: Seq<(Seq<char>, Json)>,
    context: Seq<char>,
    required: Seq<Seq<char>>,
    i: int,
) -> Option<Seq<char>>
    decreases required.len() - i,
{
    if i < 0 || i >= required.len() {
        None
    } else if !named_before(entries, required[i], entries.len() as int) {
        Some(context + " needs field "@ + debug_text(required[i]))
    } else {
        missing_complaint(entries, context, required, i + 1)
    }
}

/// The complaint about an object, if there is one.
pub open spec fn object_complaint(
    v: Json,
    context: Seq<char>,
    allowed: Seq<Seq<char>>,
    required: Seq<Seq<char>>,
) -> Option<Seq<char>> {
    match v {
        Json::Object(entries) => match field_complaint(entries, context, allowed, 0) {
            Some(message) => Some(message),
            None => missing_complaint(entries, context, required, 0),
        },
        _ => Some(context + " must be an object"@),
    }
}

/// Success or a malformed-document failure, by a complaint.
pub open spec fn judged(complaint: Option<Seq<char>>) -> Result<(), Fault> {
    match complaint {
        Some(message) => Err(malformed_fault(message)),
        None => Ok(()),
    }
}

/// The view of a result that carries nothing on success.
pub open spec fn verdict(r: Result<(), Error>) -> Result<(), Fault> {
    match r {
        Ok(_) => Ok(()),
        Err(error) => Err(error@),
    }
}

fn has_name(entries: &Vec<(String, Value)>, name: &str, end: usize) -> (r: bool)
    requires
        end <= entries.len(),
    ensures
        r == named_before(entries_view(entries@), name@, end as int),
{
    broadcast use group_json_views;

    let mut i: usize = 0;
    while i < end
        invariant
            i <= end <= entries.len(),
            !named_before(entries_view(entries@), name@, i as int),
        decreases end - i,
    {
        broadcast use group_json_views;

        if text::same(entries[i].0.as_str(), name) {
            assert(entries_view(entries@)[i as int].0 == name@);
            return true;
        }
        i += 1;
    }
    false
}

/// Whether a list of names holds a name.
pub fn lists(names: &[&str], name: &str) -> (r: bool)
    ensures
        r == names_view(names@).contains(name@),
{
    let mut i: usize = 0;
    while i < names.len()
        invariant
            i <= names.len(),
            forall|j: int| 0 <= j < i ==> names_view(names@)[j] != name@,
        decreases names.len() - i,
    {
        if text::same(names[i], name) {
            assert(names_view(names@)[i as int] == name@);
            return true;
        }
        i += 1;
    }
    false
}

/// Accepts an object with no field twice, no field outside `allowed`, and every field of
/// `required`.
pub fn checked_object(value: &Value, context: &str, allowed: &[&str], required: &[&str]) -> (r: Result<
    (),
    Error,
>)
    ensures
        verdict(r) == judged(
            object_complaint(value@, context@, names_view(allowed@), names_view(required@)),
        ),
{
    broadcast use group_json_views;

    let entries = match value {
        Value::Object(entries) => entries,
        _ => {
            return Err(malformed(text::cat2(context, " must be an object")));
        },
    };
    let ghost all = entries_view(entries@);
    let mut i: usize = 0;
    while i < entries.len()
        invariant
            i <= entries.len(),
            *value == Value::Object(*entries),
            all == entries_view(entries@),
            field_complaint(all, context@, names_view(allowed@), 0) == field_complaint(
                all,
                context@,
                names_view(allowed@),
                i as int,
            ),
        decreases entries.len() - i,
    {
        broadcast use group_json_views;

        let name: &str = entries[i].0.as_str();
        if has_name(entries, name, i) {
            let shown: String = text::quoted(name);
            return Err(
                malformed(
                    text::cat4(context, " has duplicate field ", shown.as_str(), "; remove one"),
                ),
            );
        }
        if !lists(allowed, name) {
            let shown: String = text::quoted(name);
            return Err(
                malformed(
                    text::cat4(context, " has unknown field ", shown.as_str(), "; remove it"),
                ),
            );
        }
        i += 1;
    }
    let mut k: usize = 0;
    while k < required.len()
        invariant
            k <= required.len(),
            *value == Value::Object(*entries),
            all == entries_view(entries@),
            all.len() == entries.len(),
            field_complaint(all, context@, names_view(allowed@), 0) is None,
            missing_complaint(all, context@, names_view(required@), 0) == missing_complaint(
                all,
                context@,
                names_view(required@),
                k as int,
            ),
        decreases required.len() - k,
    {
        if !has_name(entries, required[k], entries.len()) {
            let shown: String = text::quoted(required[k]);
            return Err(malformed(text::cat3(context, " needs field ", shown.as_str())));
        }
        k += 1;
    }
    Ok(())
}

/// What reading a text field gives.
pub open spec fn text_field(v: Json, name: Seq<char>, context: Seq<char>) -> Result<Seq<char>, Fault> {
    match string_of(field(v, name)) {
        Some(s) => Ok(s),
        None => Err(
            malformed_fault(context + " field "@ + debug_text(name) + " must be a string"@),
        ),
    }
}

pub fn required_str<'a>(value: &'a Value, name: &str, context: &str) -> (r: Result<&'a str, Error>)
    ensures
        outcome(r) == text_field(value@, name@, context@),
{
    if let Some(found) = value.get(name) {
        if let Some(s) = found.as_str() {
            return Ok(s);
        }
    }
    let shown: String = text::quoted(name);
    Err(malformed(text::cat4(context, " field ", shown.as_str(), " must be a string")))
}

/// What reading an array field gives.
pub open spec fn array_field(v: Json, name: Seq<char>, context: Seq<char>) -> Result<Seq<Json>, Fault> {
    match array_of(field(v, name)) {
        Some(items) => Ok(items),
        None => Err(
            malformed_fault(context + " field "@ + debug_text(name) + " must be an array"@),
        ),
    }
}

/// The view of a result that borrows the items of an array.
pub open spec fn items_outcome(r: Result<&Vec<Value>, Error>) -> Result<Seq<Json>, Fault> {
    match r {
        Ok(items) => Ok(items_view(items@)),
        Err(error) => Err(error@),
    }
}

pub fn required_array<'a>(value: &'a Value, name: &str, context: &str) -> (r: Result<
    &'a Vec<Value>,
    Error,
>)
    ensures
        items_outcome(r) == array_field(value@, name@, context@),
{
    if let Some(found) = value.get(name) {
        if let Some(items) = found.as_array() {
            return Ok(items);
        }
    }
    let shown: String = text::quoted(name);
    Err(malformed(text::cat4(context, " field ", shown.as_str(), " must be an array")))
}

/// A text of at most 16384 UTF-8 bytes.
pub open spec fn fits_text(s: Seq<char>) -> bool {
    bytes_of(s).len() <= 16_384
}

pub open spec fn bounded(value: Seq<char>, context: Seq<char>) -> Result<Seq<char>, Fault> {
    if fits_text(value) {
        Ok(value)
    } else {
        Err(
            malformed_fault(
                context + " is too long; keep it at or below 16384 UTF-8 bytes"@,
            ),
        )
    }
}

pub fn bounded_text(value: &str, context: &str) -> (r: Result<String, Error>)
    ensures
        outcome(r) == bounded(value@, context@),
{
    if value.as_bytes().len() > 16_384 {
        return Err(
            malformed(
                text::cat2(context, " is too long; keep it at or below 16384 UTF-8 bytes"),
            ),
        );
    }
    Ok(value.to_owned())
}

pub open spec fn identifier_char(c: char) -> bool {
    'a' <= c <= 'z' || 'A' <= c <= 'Z' || '0' <= c <= '9' || c == '-' || c == '_' || c == '.'
}

/// One to 128 ASCII letters, digits, dots, underscores or hyphens.
pub open spec fn valid_identifier(s: Seq<char>) -> bool {
    1 <= s.len() <= 128 && forall|i: int| 0 <= i < s.len() ==> identifier_char(#[trigger] s[i])
}

pub open spec fn identified(value: Seq<char>, context: Seq<char>) -> Result<Seq<char>, Fault> {
    if valid_identifier(value) {
        Ok(value)
    } else {
        Err(
            malformed_fault(
                context + " must be 1..=128 ASCII letters, digits, '.', '_' or '-'"@,
            ),
        )
    }
}

pub fn validate_identifier(value: &str, context: &str) -> (r: Result<String, Error>)
    ensures
        outcome(r) == identified(value@, context@),
{
    let count: usize = value.unicode_len();
    let mut valid: bool = 1 <= count && count <= 128;
    for c in it: value.chars()
        invariant
            it.seq() == value@,
            valid == (1 <= value@.len() <= 128 && forall|i: int|
                0 <= i < it.index() ==> identifier_char(#[trigger] value@[i])),
    {
        let accepted: bool = ('a' <= c && c <= 'z') || ('A' <= c && c <= 'Z') || ('0' <= c && c
            <= '9') || c == '-' || c == '_' || c == '.';
        if !accepted {
            valid = false;
        }
    }
    if valid {
        Ok(value.to_owned())
    } else {
        Err(
            malformed(
                text::cat2(context, " must be 1..=128 ASCII letters, digits, '.', '_' or '-'"),
            ),
        )
    }
}

/// Reading a text field and then checking it as an identifier.
pub open spec fn identifier_field(v: Json, name: Seq<char>, context: Seq<char>) -> Result<
    Seq<char>,
    Fault,
> {
    match text_field(v, name, context) {
        Ok(s) => identified(s, context),
        Err(fault) => Err(fault),
    }
}

pub fn required_identifier(value: &Value, name: &str, context: &str) -> (r: Result<String, Error>)
    ensures
        outcome(r) == identifier_field(value@, name@, context@),
{
    let found: &str = required_str(value, name, context)?;
    validate_identifier(found, context)
}

/// A required field is there once the object was accepted.
pub proof fn lemma_required_field(
    v: Json,
    context: Seq<char>,
    allowed: Seq<Seq<char>>,
    required: Seq<Seq<char>>,
    name: Seq<char>,
)
    requires
        object_complaint(v, context, allowed, required) is None,
        required.contains(name),
    ensures
        field(v, name) is Some,
{
    let entries = v->Object_0;
    let k = choose|k: int| 0 <= k < required.len() && required[k] == name;
    lemma_missing_from(entries, context, required, 0, k);
    let j = choose|j: int| 0 <= j < entries.len() && (#[trigger] entries[j]).0 == name;
    lemma_field_found(entries, name, 0, j);
}

proof fn lemma_missing_from(
    entries: Seq<(Seq<char>, Json)>,
    context: Seq<char>,
    required: Seq<Seq<char>>,
    i: int,
    k: int,
)
    requires
        0 <= i <= k < required.len(),
        missing_complaint(entries, context, required, i) is None,
    ensures
        named_before(entries, required[k], entries.len() as int),
    decreases k - i,
{
    if i < k {
        lemma_missing_from(entries, context, required, i + 1, k);
    }
}

proof fn lemma_field_found(entries: Seq<(Seq<char>, Json)>, name: Seq<char>, i: int, j: int)
    requires
        0 <= i <= j < entries.len(),
        entries[j].0 == name,
    ensures
        field_from(entries, name, i) is Some,
    decreases j - i,
{
    if entries[i].0 != name {
        lemma_field_found(entries, name, i + 1, j);
    }
}

} // verus!
