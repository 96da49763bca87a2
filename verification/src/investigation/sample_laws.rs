//! What sampling settings are: those that were given, within their limits, and those that an output
//! repeats.

use vstd::prelude::*;

#[allow(unused_imports)]
use crate::error::Fault;
#[allow(unused_imports)]
use crate::inspect::report_laws::says;
#[allow(unused_imports)]
use crate::json::{field, integer_of, number_of, string_of, Json};

#[allow(unused_imports)]
use super::recipe::normal_sample;
#[allow(unused_imports)]
use super::samples::{header_complaint, same_number};

verus! {

/// Whether settings in normal form hold an integer that was given under a name, from `low` on.
pub open spec fn keeps_integer(given: Json, out: Json, name: Seq<char>, low: int) -> bool {
    integer_of(field(given, name)) matches Some(n) && low <= n && says(out, name, Json::Int(n))
}

/// Whether settings in normal form hold a number that was given under a name.
pub open spec fn keeps_number(given: Json, out: Json, name: Seq<char>) -> bool {
    number_of(field(given, name)) matches Some(n) && says(out, name, Json::Float(n))
}

/// Normal form keeps every sampling setting under its name: at least one chain, four draws, and a
/// tree depth from one to twenty.
pub proof fn law_normal_form_keeps_sampling_settings(given: Json, context: Seq<char>, out: Json)
    requires
        normal_sample(given, context) == Ok::<Json, Fault>(out),
    ensures
        keeps_integer(given, out, "chains"@, 1),
        keeps_integer(given, out, "warmup"@, 0),
        keeps_integer(given, out, "draws"@, 4),
        keeps_integer(given, out, "max_treedepth"@, 1),
        integer_of(field(given, "max_treedepth"@))->0 <= 20,
        keeps_number(given, out, "target_accept"@),
        keeps_number(given, out, "initial_step_size"@),
        keeps_integer(given, out, "seed"@, 0),
{
    let entries = out->Object_0;
    assert(entries[0] == ("chains"@, Json::Int(integer_of(field(given, "chains"@))->0)));
    assert(entries[1] == ("warmup"@, Json::Int(integer_of(field(given, "warmup"@))->0)));
    assert(entries[2] == ("draws"@, Json::Int(integer_of(field(given, "draws"@))->0)));
    assert(entries[3] == (
        "max_treedepth"@,
        Json::Int(integer_of(field(given, "max_treedepth"@))->0),
    ));
    assert(entries[4] == (
        "target_accept"@,
        Json::Float(number_of(field(given, "target_accept"@))->0),
    ));
    assert(entries[5] == (
        "initial_step_size"@,
        Json::Float(number_of(field(given, "initial_step_size"@))->0),
    ));
    assert(entries[6] == ("seed"@, Json::Int(integer_of(field(given, "seed"@))->0)));
}

/// The output of a sample run is taken for that of a recipe exactly where it carries the fingerprint
/// of the inputs and repeats every setting.
pub proof fn law_accepted_output_repeats_its_settings(
    header: Json,
    settings: Json,
    fingerprint: Seq<char>,
    execution: Seq<char>,
)
    ensures
        header_complaint(header, settings, fingerprint, execution) is None <==> (string_of(
            field(header, "model_data_fingerprint"@),
        ) == Some(fingerprint) && integer_of(field(settings, "seed"@)) == integer_of(
            field(header, "seed"@),
        ) && integer_of(field(settings, "chains"@)) == integer_of(field(header, "chain_count"@)) && (
        field(header, "settings"@) matches Some(recorded) && integer_of(
            field(settings, "warmup"@),
        ) == integer_of(field(recorded, "num_warmup"@)) && integer_of(field(settings, "draws"@))
            == integer_of(field(recorded, "num_draws"@)) && integer_of(
            field(settings, "max_treedepth"@),
        ) == integer_of(field(recorded, "max_treedepth"@)) && same_number(
            number_of(field(settings, "target_accept"@)),
            number_of(field(recorded, "target_accept"@)),
        ) && same_number(
            number_of(field(settings, "initial_step_size"@)),
            number_of(field(recorded, "initial_step_size"@)),
        ))),
{
}

} // verus!
