//! Whether the output of a sample run belongs to the recipe that it is recorded for.

use vstd::prelude::*;

use crate::error::{malformed, Error};
use crate::json::Value;
#[allow(unused_imports)]
use crate::json::{array_of, field, group_json_views, integer_of, items_view, number_of, optional_view, string_of, Json};
use crate::number::equals;
#[allow(unused_imports)]
use crate::number::{equal_value, NumberModel};
use crate::text;
#[allow(unused_imports)]
use crate::text::debug_text;

#[allow(unused_imports)]
use super::fields::{judged, verdict};

verus! {

/// A field of an optional document.
pub open spec fn field_of(v: Option<Json>, name: Seq<char>) -> Option<Json> {
    match v {
        Some(found) => field(found, name),
        None => None,
    }
}

/// Whether two optional numbers are the same, as doubles.
pub open spec fn same_number(a: Option<NumberModel>, b: Option<NumberModel>) -> bool {
    match (a, b) {
        (Some(x), Some(y)) => equal_value(x.bits, y.bits),
        (None, None) => true,
        _ => false,
    }
}

/// The first setting, in the order in which settings are compared, that a header contradicts.
pub open spec fn contradicted(settings: Json, header: Json) -> Option<Seq<char>> {
    let recorded = field(header, "settings"@);
    if integer_of(field(settings, "seed"@)) != integer_of(field(header, "seed"@)) {
        Some("seed"@)
    } else if integer_of(field(settings, "chains"@)) != integer_of(field(header, "chain_count"@)) {
        Some("chains"@)
    } else if integer_of(field(settings, "warmup"@)) != integer_of(
        field_of(recorded, "num_warmup"@),
    ) {
        Some("warmup"@)
    } else if integer_of(field(settings, "draws"@)) != integer_of(
        field_of(recorded, "num_draws"@),
    ) {
        Some("draws"@)
    } else if integer_of(field(settings, "max_treedepth"@)) != integer_of(
        field_of(recorded, "max_treedepth"@),
    ) {
        Some("max_treedepth"@)
    } else if !same_number(
        number_of(field(settings, "target_accept"@)),
        number_of(field_of(recorded, "target_accept"@)),
    ) {
        Some("target_accept"@)
    } else if !same_number(
        number_of(field(settings, "initial_step_size"@)),
        number_of(field_of(recorded, "initial_step_size"@)),
    ) {
        Some("initial_step_size"@)
    } else {
        None
    }
}

/// The complaint about the header of a sample output: it must carry the fingerprint of the exact
/// inputs of the recipe and must not contradict its settings.
pub open spec fn header_complaint(
    header: Json,
    settings: Json,
    fingerprint: Seq<char>,
    execution: Seq<char>,
) -> Option<Seq<char>> {
    match string_of(field(header, "model_data_fingerprint"@)) {
        None => Some(
            "investigation sample output must carry a model/data fingerprint from exact recipe inputs"@,
        ),
        Some(recorded) => if recorded != fingerprint {
            Some(
                "sample execution "@ + debug_text(execution)
                    + " model/data fingerprint does not match its exact recipe model/data; mark the fit historical and rerun"@,
            )
        } else if field(header, "settings"@) is None {
            Some("sample output header needs settings"@)
        } else {
            match contradicted(settings, header) {
                Some(name) => Some(
                    "sample execution "@ + debug_text(execution)
                        + " output contradicts recipe setting "@ + debug_text(name)
                        + "; mark the fit historical and rerun the exact recipe"@,
                ),
                None => None,
            }
        },
    }
}

fn integers_agree(a: Option<&Value>, b: Option<&Value>) -> (r: bool)
    ensures
        r == (integer_of(optional_view(a)) == integer_of(optional_view(b))),
{
    let left: Option<i64> = match a {
        Some(value) => value.as_i64(),
        None => None,
    };
    let right: Option<i64> = match b {
        Some(value) => value.as_i64(),
        None => None,
    };
    match (left, right) {
        (Some(x), Some(y)) => x == y,
        (None, None) => true,
        _ => false,
    }
}

fn numbers_agree(a: Option<&Value>, b: Option<&Value>) -> (r: bool)
    ensures
        r == same_number(number_of(optional_view(a)), number_of(optional_view(b))),
{
    let left = match a {
        Some(value) => value.as_f64(),
        None => None,
    };
    let right = match b {
        Some(value) => value.as_f64(),
        None => None,
    };
    match (left, right) {
        (Some(x), Some(y)) => equals(x.bits, y.bits),
        (None, None) => true,
        _ => false,
    }
}

fn find_contradiction(settings: &Value, header: &Value, recorded: &Value) -> (r: Option<&'static str>)
    requires
        field(header@, "settings"@) == Some(recorded@),
    ensures
        match r {
            Some(name) => contradicted(settings@, header@) == Some(name@),
            None => contradicted(settings@, header@) is None,
        },
{
    if !integers_agree(settings.get("seed"), header.get("seed")) {
        Some("seed")
    } else if !integers_agree(settings.get("chains"), header.get("chain_count")) {
        Some("chains")
    } else if !integers_agree(settings.get("warmup"), recorded.get("num_warmup")) {
        Some("warmup")
    } else if !integers_agree(settings.get("draws"), recorded.get("num_draws")) {
        Some("draws")
    } else if !integers_agree(settings.get("max_treedepth"), recorded.get("max_treedepth")) {
        Some("max_treedepth")
    } else if !numbers_agree(settings.get("target_accept"), recorded.get("target_accept")) {
        Some("target_accept")
    } else if !numbers_agree(settings.get("initial_step_size"), recorded.get("initial_step_size")) {
        Some("initial_step_size")
    } else {
        None
    }
}

/// Holds the header of a sample output against the recipe that it is recorded for.
pub fn check_sample_header(header: &Value, settings: &Value, fingerprint: &str, execution: &str) -> (r: Result<
    (),
    Error,
>)
    ensures
        verdict(r) == judged(
            header_complaint(header@, settings@, fingerprint@, execution@),
        ),
{
    let recorded: Option<&str> = match header.get("model_data_fingerprint") {
        Some(value) => value.as_str(),
        None => None,
    };
    match recorded {
        None => {
            return Err(
                malformed(
                    "investigation sample output must carry a model/data fingerprint from exact recipe inputs".to_owned(),
                ),
            );
        },
        Some(found) => {
            if !text::same(found, fingerprint) {
                let shown: String = text::quoted(execution);
                return Err(
                    malformed(
                        text::cat3(
                            "sample execution ",
                            shown.as_str(),
                            " model/data fingerprint does not match its exact recipe model/data; mark the fit historical and rerun",
                        ),
                    ),
                );
            }
        },
    }
    match header.get("settings") {
        None => Err(malformed("sample output header needs settings".to_owned())),
        Some(recorded_settings) => {
            match find_contradiction(settings, header, recorded_settings) {
                Some(name) => {
                    let shown: String = text::quoted(execution);
                    let setting: String = text::quoted(name);
                    Err(
                        malformed(
                            text::cat5(
                                "sample execution ",
                                shown.as_str(),
                                " output contradicts recipe setting ",
                                setting.as_str(),
                                "; mark the fit historical and rerun the exact recipe",
                            ),
                        ),
                    )
                },
                None => Ok(()),
            }
        },
    }
}

/// The names and shapes of packed values.
pub open spec fn packing_views(packing: Seq<(String, Vec<usize>)>) -> Seq<(Seq<char>, Seq<usize>)> {
    packing.map_values(|p: (String, Vec<usize>)| (p.0@, p.1@))
}

/// Whether a shape in a document says the same as a shape.
pub open spec fn shape_agrees(items: Seq<Json>, shape: Seq<usize>) -> bool {
    &&& items.len() == shape.len()
    &&& forall|i: int|
        0 <= i < items.len() ==> match integer_of(Some(#[trigger] items[i])) {
            Some(n) => n == shape[i],
            None => false,
        }
}

/// Whether a parameter in a header is the packed value.
pub open spec fn parameter_agrees(param: Json, name: Seq<char>, shape: Seq<usize>) -> bool {
    &&& string_of(field(param, "name"@)) == Some(name)
    &&& array_of(field(param, "shape"@)) is Some
    &&& shape_agrees(array_of(field(param, "shape"@))->0, shape)
}

/// Whether the parameters of a header are laid out as the packed values are.
pub open spec fn layout_agrees(params: Seq<Json>, packing: Seq<(Seq<char>, Seq<usize>)>) -> bool {
    &&& params.len() == packing.len()
    &&& forall|i: int|
        0 <= i < params.len() ==> parameter_agrees(
            #[trigger] params[i],
            packing[i].0,
            packing[i].1,
        )
}

/// The complaint about the parameter layout of a sample output.
pub open spec fn layout_complaint(
    header: Json,
    packing: Seq<(Seq<char>, Seq<usize>)>,
    execution: Seq<char>,
) -> Option<Seq<char>> {
    match array_of(field(header, "params"@)) {
        None => Some("sample output header needs params for compatibility"@),
        Some(params) => if layout_agrees(params, packing) {
            None
        } else {
            Some(
                "sample execution "@ + debug_text(execution)
                    + " parameter layout does not match its recipe model/data"@,
            )
        },
    }
}

fn same_shape(items: &Vec<Value>, shape: &Vec<usize>) -> (r: bool)
    ensures
        r == shape_agrees(items_view(items@), shape@),
{
    broadcast use group_json_views;

    if items.len() != shape.len() {
        return false;
    }
    let ghost all = items_view(items@);
    let mut i: usize = 0;
    while i < items.len()
        invariant
            i <= items.len(),
            items.len() == shape.len(),
            all == items_view(items@),
            forall|j: int|
                0 <= j < i ==> match integer_of(Some(#[trigger] all[j])) {
                    Some(n) => n == shape@[j],
                    None => false,
                },
        decreases items.len() - i,
    {
        broadcast use group_json_views;

        assert(all[i as int] == items@[i as int]@);
        match items[i].as_i64() {
            None => {
                return false;
            },
            Some(n) => {
                if n < 0 || n as u64 != shape[i] as u64 {
                    return false;
                }
            },
        }
        i += 1;
    }
    true
}

fn same_parameter(param: &Value, name: &str, shape: &Vec<usize>) -> (r: bool)
    ensures
        r == parameter_agrees(param@, name@, shape@),
{
    let named: bool = match param.get("name") {
        Some(value) => match value.as_str() {
            Some(found) => text::same(found, name),
            None => false,
        },
        None => false,
    };
    if !named {
        return false;
    }
    match param.get("shape") {
        Some(value) => match value.as_array() {
            Some(items) => same_shape(items, shape),
            None => false,
        },
        None => false,
    }
}

fn same_layout(params: &Vec<Value>, packing: &Vec<(String, Vec<usize>)>) -> (r: bool)
    ensures
        r == layout_agrees(items_view(params@), packing_views(packing@)),
{
    broadcast use group_json_views;

    if params.len() != packing.len() {
        return false;
    }
    let ghost all = items_view(params@);
    let ghost wanted = packing_views(packing@);
    let mut i: usize = 0;
    while i < params.len()
        invariant
            i <= params.len(),
            params.len() == packing.len(),
            all == items_view(params@),
            wanted == packing_views(packing@),
            forall|j: int|
                0 <= j < i ==> parameter_agrees(#[trigger] all[j], wanted[j].0, wanted[j].1),
        decreases params.len() - i,
    {
        broadcast use group_json_views;

        assert(all[i as int] == params@[i as int]@);
        assert(wanted[i as int] == (packing@[i as int].0@, packing@[i as int].1@));
        if !same_parameter(&params[i], packing[i].0.as_str(), &packing[i].1) {
            return false;
        }
        i += 1;
    }
    true
}

/// Holds the parameter layout of a sample output against the packed values of its recipe.
pub fn check_sample_layout(header: &Value, packing: &Vec<(String, Vec<usize>)>, execution: &str) -> (r: Result<
    (),
    Error,
>)
    ensures
        verdict(r) == judged(layout_complaint(header@, packing_views(packing@), execution@)),
{
    let params: Option<&Vec<Value>> = match header.get("params") {
        Some(value) => value.as_array(),
        None => None,
    };
    match params {
        None => Err(malformed("sample output header needs params for compatibility".to_owned())),
        Some(items) => {
            if same_layout(items, packing) {
                Ok(())
            } else {
                let shown: String = text::quoted(execution);
                Err(
                    malformed(
                        text::cat3(
                            "sample execution ",
                            shown.as_str(),
                            " parameter layout does not match its recipe model/data",
                        ),
                    ),
                )
            }
        },
    }
}

} // verus!
