//! Checks of the documents that a bundle carries.

use vstd::prelude::*;

use crate::error::{malformed, Error};
#[allow(unused_imports)]
use crate::error::Fault;
use crate::json::Value;
#[allow(unused_imports)]
use crate::json::{
    array_of, entries_view, field, group_json_views, integer_of, items_view, string_of, Json,
};
use crate::text;
#[allow(unused_imports)]
use crate::text::{debug_text, decimal_text};

#[allow(unused_imports)]
use super::fields::{judged, named_before, verdict};

verus! {

/// The first field name that a walk through a document meets a second time in one object.
pub open spec fn repeated_field(v: Json) -> Option<Seq<char>>
    decreases v,
{
    match v {
        Json::Object(entries) => repeated_in_entries(entries),
        Json::Array(items) => repeated_in_items(items),
        _ => None,
    }
}

pub open spec fn repeated_in_entries(entries: Seq<(Seq<char>, Json)>) -> Option<Seq<char>>
    decreases entries,
{
    if entries.len() == 0 {
        None
    } else {
        match repeated_in_entries(entries.drop_last()) {
            Some(name) => Some(name),
            None => if named_before(entries, entries.last().0, entries.len() - 1) {
                Some(entries.last().0)
            } else {
                repeated_field(entries.last().1)
            },
        }
    }
}

pub open spec fn repeated_in_items(items: Seq<Json>) -> Option<Seq<char>>
    decreases items,
{
    if items.len() == 0 {
        None
    } else {
        match repeated_in_items(items.drop_last()) {
            Some(name) => Some(name),
            None => repeated_field(items.last()),
        }
    }
}

/// The complaint about a repeated field.
pub open spec fn repetition_complaint(v: Json, context: Seq<char>) -> Option<Seq<char>> {
    match repeated_field(v) {
        Some(name) => Some(
            context + " has duplicate field "@ + debug_text(name) + "; remove one"@,
        ),
        None => None,
    }
}

proof fn lemma_entries_repeat(entries: Seq<(Seq<char>, Json)>, n: int)
    requires
        0 <= n <= entries.len(),
        repeated_in_entries(entries.take(n)) is Some,
    ensures
        repeated_in_entries(entries) == repeated_in_entries(entries.take(n)),
    decreases entries.len(),
{
    if n < entries.len() {
        assert(entries.drop_last().take(n) =~= entries.take(n));
        lemma_entries_repeat(entries.drop_last(), n);
    } else {
        assert(entries.take(n) =~= entries);
    }
}

proof fn lemma_items_repeat(items: Seq<Json>, n: int)
    requires
        0 <= n <= items.len(),
        repeated_in_items(items.take(n)) is Some,
    ensures
        repeated_in_items(items) == repeated_in_items(items.take(n)),
    decreases items.len(),
{
    if n < items.len() {
        assert(items.drop_last().take(n) =~= items.take(n));
        lemma_items_repeat(items.drop_last(), n);
    } else {
        assert(items.take(n) =~= items);
    }
}

fn named_earlier(entries: &Vec<(String, Value)>, end: usize) -> (r: bool)
    requires
        end < entries.len(),
    ensures
        r == named_before(
            entries_view(entries@).take(end + 1),
            entries_view(entries@)[end as int].0,
            end as int,
        ),
{
    broadcast use group_json_views;

    let ghost all = entries_view(entries@);
    let ghost seen = all.take(end + 1);
    let mut i: usize = 0;
    while i < end
        invariant
            i <= end < entries.len(),
            all == entries_view(entries@),
            seen == all.take(end + 1),
            forall|j: int| 0 <= j < i ==> (#[trigger] seen[j]).0 != all[end as int].0,
        decreases end - i,
    {
        broadcast use group_json_views;

        assert(seen[i as int] == all[i as int]);
        assert(all[i as int].0 == entries@[i as int].0@);
        assert(all[end as int].0 == entries@[end as int].0@);
        if text::same(entries[i].0.as_str(), entries[end].0.as_str()) {
            return true;
        }
        i += 1;
    }
    false
}

/// The complaint that came back with a refusal.
pub open spec fn refusal(r: Result<(), Error>) -> Option<Fault> {
    match r {
        Ok(_) => None,
        Err(error) => Some(error@),
    }
}

pub fn reject_duplicate_json_fields(value: &Value, context: &str) -> (r: Result<(), Error>)
    ensures
        verdict(r) == judged(repetition_complaint(value@, context@)),
    decreases value,
{
    broadcast use group_json_views;

    match value {
        Value::Object(entries) => {
            let ghost all = entries_view(entries@);
            let mut i: usize = 0;
            while i < entries.len()
                invariant
                    i <= entries.len(),
                    *value == Value::Object(*entries),
                    all == entries_view(entries@),
                    repeated_in_entries(all.take(i as int)) is None,
                decreases entries.len() - i,
            {
                broadcast use group_json_views;

                proof {
                    let done = all.take(i + 1);
                    assert(done.drop_last() =~= all.take(i as int));
                    assert(done.last() == (entries@[i as int].0@, entries@[i as int].1@));
                    assert(done.last() == all[i as int]);
                    assert(decreases_to!(*value => value->Object_0));
                    assert(decreases_to!(value->Object_0 => value->Object_0@));
                    assert(decreases_to!(entries@ => entries@[i as int]));
                    assert(decreases_to!(entries@[i as int] => entries@[i as int].1));
                }
                if named_earlier(entries, i) {
                    proof {
                        lemma_entries_repeat(all, i + 1);
                    }
                    let shown: String = text::quoted(entries[i].0.as_str());
                    return Err(
                        malformed(
                            text::cat4(
                                context,
                                " has duplicate field ",
                                shown.as_str(),
                                "; remove one",
                            ),
                        ),
                    );
                }
                match reject_duplicate_json_fields(&entries[i].1, context) {
                    Err(error) => {
                        proof {
                            lemma_entries_repeat(all, i + 1);
                        }
                        return Err(error);
                    },
                    Ok(_) => {},
                }
                i += 1;
            }
            assert(all.take(i as int) =~= all);
        },
        Value::Array(items) => {
            let ghost all = items_view(items@);
            let mut i: usize = 0;
            while i < items.len()
                invariant
                    i <= items.len(),
                    *value == Value::Array(*items),
                    all == items_view(items@),
                    repeated_in_items(all.take(i as int)) is None,
                decreases items.len() - i,
            {
                broadcast use group_json_views;

                proof {
                    let done = all.take(i + 1);
                    assert(done.drop_last() =~= all.take(i as int));
                    assert(done.last() == items@[i as int]@);
                    assert(decreases_to!(*value => value->Array_0));
                    assert(decreases_to!(value->Array_0 => value->Array_0@));
                    assert(decreases_to!(items@ => items@[i as int]));
                }
                match reject_duplicate_json_fields(&items[i], context) {
                    Err(error) => {
                        proof {
                            lemma_items_repeat(all, i + 1);
                        }
                        return Err(error);
                    },
                    Ok(_) => {},
                }
                i += 1;
            }
            assert(all.take(i as int) =~= all);
        },
        _ => {},
    }
    Ok(())
}

/// The complaint about a document that must be an object without repeated fields.
pub open spec fn document_complaint(v: Json, context: Seq<char>) -> Option<Seq<char>> {
    match repetition_complaint(v, context) {
        Some(message) => Some(message),
        None => if v is Object {
            None
        } else {
            Some(context + " must be a JSON object"@)
        },
    }
}

/// Accepts a JSON object without repeated fields.
pub fn check_document(value: &Value, context: &str) -> (r: Result<(), Error>)
    ensures
        verdict(r) == judged(document_complaint(value@, context@)),
{
    reject_duplicate_json_fields(value, context)?;
    match value {
        Value::Object(_) => Ok(()),
        _ => Err(malformed(text::cat2(context, " must be a JSON object"))),
    }
}

/// The names of the array fields of an inspection.
pub open spec fn inspection_arrays() -> Seq<Seq<char>> {
    seq!["free_slots"@, "density_factors"@, "data"@, "structural_discrepancies"@]
}

/// The first array field of that list that is missing, from position `i` on.
pub open spec fn missing_array(v: Json, names: Seq<Seq<char>>, i: int) -> Option<Seq<char>>
    decreases names.len() - i,
{
    if i < 0 || i >= names.len() {
        None
    } else if array_of(field(v, names[i])) is None {
        Some(names[i])
    } else {
        missing_array(v, names, i + 1)
    }
}

pub open spec fn object_field(v: Json, name: Seq<char>) -> bool {
    field(v, name) is Some && field(v, name)->0 is Object
}

fn has_object(value: &Value, name: &str) -> (r: bool)
    ensures
        r == object_field(value@, name@),
{
    match value.get(name) {
        Some(Value::Object(_)) => true,
        _ => false,
    }
}

fn has_string(value: &Value, name: &str) -> (r: bool)
    ensures
        r == (string_of(field(value@, name@)) is Some),
{
    match value.get(name) {
        Some(Value::Str(_)) => true,
        _ => false,
    }
}

fn has_integer(value: &Value, name: &str) -> (r: bool)
    ensures
        r == (integer_of(field(value@, name@)) is Some),
{
    match value.get(name) {
        Some(Value::Int(_)) => true,
        _ => false,
    }
}

fn has_array(value: &Value, name: &str) -> (r: bool)
    ensures
        r == (array_of(field(value@, name@)) is Some),
{
    match value.get(name) {
        Some(Value::Array(_)) => true,
        _ => false,
    }
}

/// A free slot of an inspection with its typed layout fields.
pub open spec fn typed_slot(v: Json) -> bool {
    &&& string_of(field(v, "name"@)) is Some
    &&& array_of(field(v, "shape"@)) is Some
    &&& integer_of(field(v, "offset"@)) is Some
    &&& integer_of(field(v, "length"@)) is Some
    &&& object_field(v, "resolved_constraint"@)
}

/// A density factor of an inspection with its typed fields.
pub open spec fn typed_factor(v: Json) -> bool {
    &&& string_of(field(v, "name"@)) is Some
    &&& object_field(v, "distribution"@)
    &&& object_field(v, "value_expression"@)
}

/// The first item at or behind position `i` that is not as it should be.
pub open spec fn first_untyped(items: Seq<Json>, typed: spec_fn(Json) -> bool, i: int) -> Option<int>
    decreases items.len() - i,
{
    if i < 0 || i >= items.len() {
        None
    } else if !typed(items[i]) {
        Some(i)
    } else {
        first_untyped(items, typed, i + 1)
    }
}

/// The complaint about an inspection.
pub open spec fn inspection_complaint(v: Json) -> Option<Seq<char>> {
    if missing_array(v, inspection_arrays(), 0) is Some {
        Some(
            "inspection artifact needs an array field "@ + debug_text(
                missing_array(v, inspection_arrays(), 0)->0,
            ),
        )
    } else if integer_of(field(v, "unconstrained_parameter_count"@)) is None || !object_field(
        v,
        "execution_metadata"@,
    ) || !object_field(v, "declarations"@) || !object_field(v, "density_accounting"@) {
        Some(
            "inspection artifact needs execution_metadata, unconstrained_parameter_count, declarations, and density_accounting"@,
        )
    } else {
        let slots = array_of(field(v, "free_slots"@))->0;
        let factors = array_of(field(v, "density_factors"@))->0;
        match first_untyped(slots, |s: Json| typed_slot(s), 0) {
            Some(k) => Some(
                "inspection artifact free_slots["@ + decimal_text(k as nat)
                    + "] is missing typed layout fields"@,
            ),
            None => match first_untyped(factors, |f: Json| typed_factor(f), 0) {
                Some(k) => Some(
                    "inspection artifact density_factors["@ + decimal_text(k as nat)
                        + "] is missing name/distribution/value_expression"@,
                ),
                None => None,
            },
        }
    }
}

fn check_slots(items: &Vec<Value>) -> (r: Option<usize>)
    ensures
        match r {
            Some(k) => first_untyped(items_view(items@), |s: Json| typed_slot(s), 0) == Some(k as int),
            None => first_untyped(items_view(items@), |s: Json| typed_slot(s), 0) is None,
        },
{
    broadcast use group_json_views;

    let ghost typed = |s: Json| typed_slot(s);
    let ghost all = items_view(items@);
    let mut i: usize = 0;
    while i < items.len()
        invariant
            i <= items.len(),
            all == items_view(items@),
            typed == (|s: Json| typed_slot(s)),
            first_untyped(all, typed, 0) == first_untyped(all, typed, i as int),
        decreases items.len() - i,
    {
        broadcast use group_json_views;

        let slot: &Value = &items[i];
        assert(all[i as int] == slot@);
        assert(typed(slot@) == typed_slot(slot@));
        if !has_string(slot, "name") || !has_array(slot, "shape") || !has_integer(slot, "offset")
            || !has_integer(slot, "length") || !has_object(slot, "resolved_constraint") {
            return Some(i);
        }
        i += 1;
    }
    None
}

fn check_factors(items: &Vec<Value>) -> (r: Option<usize>)
    ensures
        match r {
            Some(k) => first_untyped(items_view(items@), |f: Json| typed_factor(f), 0) == Some(
                k as int,
            ),
            None => first_untyped(items_view(items@), |f: Json| typed_factor(f), 0) is None,
        },
{
    broadcast use group_json_views;

    let ghost typed = |f: Json| typed_factor(f);
    let ghost all = items_view(items@);
    let mut i: usize = 0;
    while i < items.len()
        invariant
            i <= items.len(),
            all == items_view(items@),
            typed == (|f: Json| typed_factor(f)),
            first_untyped(all, typed, 0) == first_untyped(all, typed, i as int),
        decreases items.len() - i,
    {
        broadcast use group_json_views;

        let factor: &Value = &items[i];
        assert(all[i as int] == factor@);
        assert(typed(factor@) == typed_factor(factor@));
        if !has_string(factor, "name") || !has_object(factor, "distribution") || !has_object(
            factor,
            "value_expression",
        ) {
            return Some(i);
        }
        i += 1;
    }
    None
}

pub fn validate_inspection(value: &Value) -> (r: Result<(), Error>)
    ensures
        verdict(r) == judged(inspection_complaint(value@)),
{
    let names: [&str; 4] = ["free_slots", "density_factors", "data", "structural_discrepancies"];
    let ghost wanted = inspection_arrays();
    assert(names@.len() == 4);
    assert forall|k: int| 0 <= k < 4 implies (#[trigger] names@[k])@ == wanted[k] by {}
    let mut i: usize = 0;
    while i < 4
        invariant
            i <= 4,
            wanted == inspection_arrays(),
            names@.len() == 4,
            forall|k: int| 0 <= k < 4 ==> (#[trigger] names@[k])@ == wanted[k],
            missing_array(value@, wanted, 0) == missing_array(value@, wanted, i as int),
        decreases 4 - i,
    {
        assert(names@[i as int]@ == wanted[i as int]);
        if !has_array(value, names[i]) {
            let shown: String = text::quoted(names[i]);
            return Err(
                malformed(text::cat2("inspection artifact needs an array field ", shown.as_str())),
            );
        }
        i += 1;
    }
    if !has_integer(value, "unconstrained_parameter_count") || !has_object(
        value,
        "execution_metadata",
    ) || !has_object(value, "declarations") || !has_object(value, "density_accounting") {
        return Err(
            malformed(
                "inspection artifact needs execution_metadata, unconstrained_parameter_count, declarations, and density_accounting".to_owned(),
            ),
        );
    }
    proof {
        lemma_arrays_there(value@, 0, 0);
        lemma_arrays_there(value@, 0, 1);
    }
    let slots: &Vec<Value> = value.get("free_slots").unwrap().as_array().unwrap();
    if let Some(k) = check_slots(slots) {
        let place: String = text::decimal(k as u64);
        return Err(
            malformed(
                text::cat3(
                    "inspection artifact free_slots[",
                    place.as_str(),
                    "] is missing typed layout fields",
                ),
            ),
        );
    }
    let factors: &Vec<Value> = value.get("density_factors").unwrap().as_array().unwrap();
    if let Some(k) = check_factors(factors) {
        let place: String = text::decimal(k as u64);
        return Err(
            malformed(
                text::cat3(
                    "inspection artifact density_factors[",
                    place.as_str(),
                    "] is missing name/distribution/value_expression",
                ),
            ),
        );
    }
    Ok(())
}

proof fn lemma_arrays_there(v: Json, i: int, k: int)
    requires
        0 <= i <= k < 4,
        missing_array(v, inspection_arrays(), i) is None,
    ensures
        array_of(field(v, inspection_arrays()[k])) is Some,
    decreases k - i,
{
    if i < k {
        lemma_arrays_there(v, i + 1, k);
    }
}

/// Whether a document carries the provisional format marker in a field.
pub open spec fn marked(v: Json, name: Seq<char>) -> bool {
    string_of(field(v, name)) == Some("v0-provisional"@)
}

pub fn has_marker(value: &Value, name: &str) -> (r: bool)
    ensures
        r == marked(value@, name@),
{
    if let Some(found) = value.get(name) {
        if let Some(s) = found.as_str() {
            return text::same(s, "v0-provisional");
        }
    }
    false
}

/// The complaint about a document that must carry a format marker.
pub open spec fn marker_complaint(v: Json, name: Seq<char>) -> Option<Seq<char>> {
    match document_complaint(v, "artifact carrying "@ + name) {
        Some(message) => Some(message),
        None => if marked(v, name) {
            None
        } else {
            Some("artifact needs "@ + name + " \"v0-provisional\""@)
        },
    }
}

/// Accepts an object that carries a format marker.
pub fn check_marker(value: &Value, name: &str) -> (r: Result<(), Error>)
    ensures
        verdict(r) == judged(marker_complaint(value@, name@)),
{
    check_document(value, text::cat2("artifact carrying ", name).as_str())?;
    if !has_marker(value, name) {
        return Err(malformed(text::cat3("artifact needs ", name, " \"v0-provisional\"")));
    }
    Ok(())
}

/// The complaint about an inspection document.
pub open spec fn inspection_document_complaint(v: Json) -> Option<Seq<char>> {
    match document_complaint(v, "inspection artifact"@) {
        Some(message) => Some(message),
        None => if !marked(v, "inspection_format"@) {
            Some("inspection artifact needs inspection_format \"v0-provisional\""@)
        } else {
            inspection_complaint(v)
        },
    }
}

/// Accepts an inspection document.
pub fn check_inspection(value: &Value) -> (r: Result<(), Error>)
    ensures
        verdict(r) == judged(inspection_document_complaint(value@)),
{
    check_document(value, "inspection artifact")?;
    if !has_marker(value, "inspection_format") {
        return Err(
            malformed(
                "inspection artifact needs inspection_format \"v0-provisional\"".to_owned(),
            ),
        );
    }
    validate_inspection(value)
}

} // verus!
