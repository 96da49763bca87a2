//! The scenarios of recovery and of simulation-based calibration.

use vstd::prelude::*;

use crate::data::{data_from_json, DataValue};
#[allow(unused_imports)]
use crate::data::{data_outcome, data_views, read_data, DataModel};
use crate::error::{invalid_settings, Error};
#[allow(unused_imports)]
use crate::error::{outcome, settings_fault, Fault};
#[allow(unused_imports)]
use crate::investigation::fields::names_view;
use crate::json::Value;
#[allow(unused_imports)]
use crate::json::{entries_view, field, group_json_views, number_of, string_of, Json};
#[allow(unused_imports)]
use crate::model::checked;
use crate::number::{less_than, Number, INFINITY_BITS, SIGN_WEIGHT};
#[allow(unused_imports)]
use crate::number::{less, nan, NumberModel};
use crate::text;

use super::args::Settings;
#[allow(unused_imports)]
use super::args::SettingsModel;
use super::documents::default_interval;
#[allow(unused_imports)]
use super::documents::four_fifths;
use super::flags::{validate_diagnostic_draws, validate_max_treedepth, validate_target_accept};
#[allow(unused_imports)]
use super::flags::{diagnostic_fault, rate_fault, treedepth_fault};

verus! {

/// The bit pattern of two to the power of 63.
pub const INTEGER_LIMIT: u64 = 0x43E0_0000_0000_0000;

/// Whether a double is at least two to the power of 63.
pub open spec fn past_integers(bits: u64) -> bool {
    !nan(bits) && !less(bits, INTEGER_LIMIT)
}

fn is_past_integers(bits: u64) -> (r: bool)
    ensures
        r == past_integers(bits),
{
    let size: u64 = if bits >= SIGN_WEIGHT { bits - SIGN_WEIGHT } else { bits };
    size <= INFINITY_BITS && !less_than(bits, INTEGER_LIMIT)
}

/// An integer field of a scenario, or else a default.
pub open spec fn scenario_int(
    doc: Json,
    name: Seq<char>,
    default: i64,
    label: Seq<char>,
    range: Seq<char>,
) -> Result<i64, Fault> {
    match field(doc, name) {
        None => Ok(default),
        Some(Json::Int(n)) => Ok(n),
        Some(Json::Float(n)) => if past_integers(n.bits) {
            Err(settings_fault(range))
        } else {
            Err(settings_fault(label + " must be an integer"@))
        },
        Some(_) => Err(settings_fault(label + " must be an integer"@)),
    }
}

/// The result of reading an integer.
pub open spec fn int_outcome(r: Result<i64, Error>) -> Result<i64, Fault> {
    match r {
        Ok(n) => Ok(n),
        Err(error) => Err(error@),
    }
}

fn scenario_reportable_int(doc: &Value, name: &str, default: i64, label: &str, range_message: &str) -> (r:
    Result<i64, Error>)
    ensures
        int_outcome(r) == scenario_int(doc@, name@, default, label@, range_message@),
{
    match doc.get(name) {
        None => Ok(default),
        Some(value) => match value {
            Value::Int(n) => Ok(*n),
            Value::Float(n) => if is_past_integers(n.bits) {
                Err(invalid_settings(range_message.to_owned()))
            } else {
                Err(invalid_settings(text::cat2(label, " must be an integer")))
            },
            _ => Err(invalid_settings(text::cat2(label, " must be an integer"))),
        },
    }
}

/// A number field of a scenario, or else a default.
pub open spec fn scenario_number(
    doc: Json,
    name: Seq<char>,
    default: NumberModel,
    label: Seq<char>,
) -> Result<NumberModel, Fault> {
    match field(doc, name) {
        None => Ok(default),
        Some(value) => match number_of(Some(value)) {
            Some(n) => Ok(n),
            None => Err(settings_fault(label + " must be a number"@)),
        },
    }
}

fn scenario_float(doc: &Value, name: &str, default: &Number, label: &str) -> (r: Result<Number, Error>)
    ensures
        outcome(r) == scenario_number(doc@, name@, default@, label@),
{
    match doc.get(name) {
        None => Ok(default.copy()),
        Some(value) => match value.as_f64() {
            Some(n) => Ok(n),
            None => Err(invalid_settings(text::cat2(label, " must be a number"))),
        },
    }
}

/// The seed of a scenario.
pub open spec fn seed_read(doc: Json, context: Seq<char>) -> Result<u64, Fault> {
    match field(doc, "seed"@) {
        Some(Json::Int(n)) => if n >= 0 {
            Ok(n as u64)
        } else {
            Err(settings_fault(context + " scenario seed must be non-negative"@))
        },
        Some(Json::Float(n)) => if past_integers(n.bits) {
            Err(
                settings_fault(
                    context
                        + " scenario seed must be in 0..=9223372036854775807 because workflow reports seeds as JSON integers"@,
                ),
            )
        } else {
            Err(settings_fault(context + " scenario needs an integer seed"@))
        },
        _ => Err(settings_fault(context + " scenario needs an integer seed"@)),
    }
}

/// The result of reading a seed.
pub open spec fn seed_outcome(r: Result<u64, Error>) -> Result<u64, Fault> {
    match r {
        Ok(n) => Ok(n),
        Err(error) => Err(error@),
    }
}

fn scenario_seed(doc: &Value, context: &str) -> (r: Result<u64, Error>)
    ensures
        seed_outcome(r) == seed_read(doc@, context@),
{
    match doc.get("seed") {
        None => Err(invalid_settings(text::cat2(context, " scenario needs an integer seed"))),
        Some(value) => match value {
            Value::Int(n) => if *n >= 0 {
                Ok(*n as u64)
            } else {
                Err(
                    invalid_settings(
                        text::cat2(context, " scenario seed must be non-negative"),
                    ),
                )
            },
            Value::Float(n) => if is_past_integers(n.bits) {
                Err(
                    invalid_settings(
                        text::cat2(
                            context,
                            " scenario seed must be in 0..=9223372036854775807 because workflow reports seeds as JSON integers",
                        ),
                    ),
                )
            } else {
                Err(invalid_settings(text::cat2(context, " scenario needs an integer seed")))
            },
            _ => Err(invalid_settings(text::cat2(context, " scenario needs an integer seed"))),
        },
    }
}

/// Whether a field of that name stands before a position.
pub open spec fn stands_before(entries: Seq<(Seq<char>, Json)>, i: int) -> bool {
    exists|k: int| 0 <= k < i && (#[trigger] entries[k]).0 == entries[i].0
}

/// What is wrong with the fields of an object, from one on.
pub open spec fn fields_fault(
    entries: Seq<(Seq<char>, Json)>,
    context: Seq<char>,
    allowed: Seq<Seq<char>>,
    i: int,
) -> Option<Fault>
    decreases entries.len() - i,
{
    if i < 0 || i >= entries.len() {
        None
    } else if stands_before(entries, i) {
        Some(
            settings_fault(
                context + " has duplicate field \""@ + entries[i].0 + "\"; remove one"@,
            ),
        )
    } else if !allowed.contains(entries[i].0) {
        Some(settings_fault(context + " has unknown field \""@ + entries[i].0 + "\""@))
    } else {
        fields_fault(entries, context, allowed, i + 1)
    }
}

/// What is wrong with a document that may have certain fields only.
pub open spec fn unknown_fault(doc: Json, context: Seq<char>, allowed: Seq<Seq<char>>) -> Option<Fault> {
    match doc {
        Json::Object(entries) => fields_fault(entries, context, allowed, 0),
        _ => Some(settings_fault(context + " must be an object"@)),
    }
}

fn is_repeated(entries: &Vec<(String, Value)>, i: usize) -> (r: bool)
    requires
        i < entries@.len(),
    ensures
        r == stands_before(entries_view(entries@), i as int),
{
    broadcast use group_json_views;

    let ghost all = entries_view(entries@);
    let mut k: usize = 0;
    while k < i
        invariant
            k <= i,
            i < entries@.len(),
            all == entries_view(entries@),
            forall|j: int| 0 <= j < k ==> (#[trigger] all[j]).0 != all[i as int].0,
        decreases i - k,
    {
        broadcast use group_json_views;

        assert(all[k as int].0 == entries@[k as int].0@);
        assert(all[i as int].0 == entries@[i as int].0@);
        if text::same(entries[k].0.as_str(), entries[i].0.as_str()) {
            return true;
        }
        k += 1;
    }
    false
}

fn is_allowed(allowed: &Vec<&str>, name: &str) -> (r: bool)
    ensures
        r == names_view(allowed@).contains(name@),
{
    let ghost all = names_view(allowed@);
    let mut i: usize = 0;
    while i < allowed.len()
        invariant
            i <= allowed.len(),
            all == names_view(allowed@),
            forall|k: int| 0 <= k < i ==> all[k] != name@,
        decreases allowed.len() - i,
    {
        assert(all[i as int] == allowed@[i as int]@);
        if text::same(allowed[i], name) {
            return true;
        }
        i += 1;
    }
    false
}

/// Refuses repeated and unknown fields.
pub fn reject_unknown_fields(doc: &Value, context: &str, allowed: &Vec<&str>) -> (r: Result<
    (),
    Error,
>)
    ensures
        checked(r) == unknown_fault(doc@, context@, names_view(allowed@)),
{
    broadcast use group_json_views;

    match doc {
        Value::Object(entries) => {
            let ghost all = entries_view(entries@);
            let ghost names = names_view(allowed@);
            let mut i: usize = 0;
            while i < entries.len()
                invariant
                    i <= entries.len(),
                    all == entries_view(entries@),
                    names == names_view(allowed@),
                    *doc == Value::Object(*entries),
                    fields_fault(all, context@, names, 0) == fields_fault(
                        all,
                        context@,
                        names,
                        i as int,
                    ),
                decreases entries.len() - i,
            {
                broadcast use group_json_views;

                assert(all[i as int].0 == entries@[i as int].0@);
                let name: &str = entries[i].0.as_str();
                if is_repeated(entries, i) {
                    return Err(
                        invalid_settings(
                            text::cat4(context, " has duplicate field \"", name, "\"; remove one"),
                        ),
                    );
                }
                if !is_allowed(allowed, name) {
                    return Err(
                        invalid_settings(
                            text::cat4(context, " has unknown field \"", name, "\""),
                        ),
                    );
                }
                i += 1;
            }
            Ok(())
        },
        _ => Err(invalid_settings(text::cat2(context, " must be an object"))),
    }
}

/// A value of at least one.
pub open spec fn positive(value: i64, name: Seq<char>) -> Result<usize, Fault> {
    if value < 1 {
        Err(settings_fault(name + " must be at least 1"@))
    } else {
        Ok(value as usize)
    }
}

/// The result of reading a size.
pub open spec fn size_outcome(r: Result<usize, Error>) -> Result<usize, Fault> {
    match r {
        Ok(n) => Ok(n),
        Err(error) => Err(error@),
    }
}

fn positive_usize(value: i64, name: &str) -> (r: Result<usize, Error>)
    ensures
        size_outcome(r) == positive(value, name@),
{
    if value < 1 {
        Err(invalid_settings(text::cat2(name, " must be at least 1")))
    } else {
        Ok(value as usize)
    }
}

/// A positive integer field of a scenario.
pub open spec fn positive_field(
    doc: Json,
    name: Seq<char>,
    default: usize,
    label: Seq<char>,
    range: Seq<char>,
) -> Result<usize, Fault> {
    match scenario_int(doc, name, default as i64, label, range) {
        Err(fault) => Err(fault),
        Ok(n) => positive(n, label),
    }
}

fn read_positive(doc: &Value, name: &str, default: usize, label: &str, range: &str) -> (r: Result<
    usize,
    Error,
>)
    ensures
        size_outcome(r) == positive_field(doc@, name@, default, label@, range@),
{
    let n: i64 = scenario_reportable_int(doc, name, default as i64, label, range)?;
    positive_usize(n, label)
}

/// How a scenario samples; some thin the draws.
#[derive(Debug)]
pub struct SampleScenario {
    pub sampler: Settings,
    pub chains: u64,
    pub thin: Option<usize>,
}

/// The mathematical content of a [`SampleScenario`].
#[verifier::ext_equal]
pub struct SampleScenarioModel {
    pub sampler: SettingsModel,
    pub chains: u64,
    pub thin: Option<usize>,
}

impl View for SampleScenario {
    type V = SampleScenarioModel;

    open spec fn view(&self) -> SampleScenarioModel {
        SampleScenarioModel { sampler: self.sampler@, chains: self.chains, thin: self.thin }
    }
}

/// The fields that a sample document may have.
pub open spec fn sample_names(thin: Option<usize>) -> Seq<Seq<char>> {
    if thin is Some {
        seq![
            "chains"@,
            "warmup"@,
            "draws"@,
            "thin"@,
            "max_treedepth"@,
            "target_accept"@,
        ]
    } else {
        seq!["chains"@, "warmup"@, "draws"@, "max_treedepth"@, "target_accept"@]
    }
}

pub open spec fn chains_read(doc: Json, default: u64, sample: Seq<char>) -> Result<u64, Fault> {
    match scenario_int(
        doc,
        "chains"@,
        default as i64,
        sample + ".chains"@,
        sample + ".chains"@
            + " must be in 1..=9223372036854775807 because workflow reports chains as JSON integers"@,
    ) {
        Err(fault) => Err(fault),
        Ok(n) => if n < 1 {
            Err(settings_fault(sample + ".chains"@ + " must be at least 1"@))
        } else {
            Ok(n as u64)
        },
    }
}

pub open spec fn warmup_read(doc: Json, default: usize, sample: Seq<char>) -> Result<usize, Fault> {
    match scenario_int(
        doc,
        "warmup"@,
        default as i64,
        sample + ".warmup"@,
        sample + ".warmup"@
            + " must be in 0..=9223372036854775807 because workflow reports sample.warmup as a JSON integer"@,
    ) {
        Err(fault) => Err(fault),
        Ok(n) => if n < 0 {
            Err(settings_fault(sample + ".warmup"@ + " must be non-negative"@))
        } else {
            Ok(n as usize)
        },
    }
}

pub open spec fn draws_read(doc: Json, default: usize, sample: Seq<char>) -> Result<usize, Fault> {
    match positive_field(
        doc,
        "draws"@,
        default,
        sample + ".draws"@,
        sample + ".draws"@
            + " must be in 1..=9223372036854775807 because workflow reports sample.draws as a JSON integer"@,
    ) {
        Err(fault) => Err(fault),
        Ok(n) => match diagnostic_fault(n, sample + ".draws"@, "workflow reports"@) {
            Some(fault) => Err(fault),
            None => Ok(n),
        },
    }
}

pub open spec fn thin_read(doc: Json, default: Option<usize>, draws: usize, sample: Seq<char>) -> Result<
    Option<usize>,
    Fault,
> {
    match default {
        None => Ok(None),
        Some(known) => match positive_field(
            doc,
            "thin"@,
            known,
            sample + ".thin"@,
            sample + ".thin"@
                + " must be in 1..=9223372036854775807 because workflow reports sample.thin as a JSON integer"@,
        ) {
            Err(fault) => Err(fault),
            Ok(n) => if !divides(n, draws) {
                Err(
                    settings_fault(
                        sample + ".thin"@
                            + " must divide sample.draws exactly; pick a thin that divides sample.draws"@,
                    ),
                )
            } else {
                Ok(Some(n))
            },
        },
    }
}

/// Whether a number is a multiple of another; of zero only zero is.
pub open spec fn divides(divisor: usize, n: usize) -> bool {
    if divisor == 0 {
        n == 0
    } else {
        n % divisor == 0
    }
}

pub open spec fn treedepth_read(doc: Json, default: usize, sample: Seq<char>) -> Result<usize, Fault> {
    match positive_field(
        doc,
        "max_treedepth"@,
        default,
        sample + ".max_treedepth"@,
        sample + ".max_treedepth"@ + " must be in 1..=20"@,
    ) {
        Err(fault) => Err(fault),
        Ok(n) => match treedepth_fault(n, sample + ".max_treedepth"@) {
            Some(fault) => Err(fault),
            None => Ok(n),
        },
    }
}

pub open spec fn rate_read(doc: Json, default: NumberModel, sample: Seq<char>) -> Result<
    NumberModel,
    Fault,
> {
    match scenario_number(doc, "target_accept"@, default, sample + ".target_accept"@) {
        Err(fault) => Err(fault),
        Ok(n) => match rate_fault(n.bits, sample + ".target_accept"@) {
            Some(fault) => Err(fault),
            None => Ok(n),
        },
    }
}

/// The fields of a sample document over what a scenario has by default.
pub open spec fn sample_fields(doc: Json, base: SampleScenarioModel, sample: Seq<char>) -> Result<
    SampleScenarioModel,
    Fault,
> {
    match chains_read(doc, base.chains, sample) {
        Err(fault) => Err(fault),
        Ok(chains) => match warmup_read(doc, base.sampler.num_warmup, sample) {
            Err(fault) => Err(fault),
            Ok(num_warmup) => match draws_read(doc, base.sampler.num_draws, sample) {
                Err(fault) => Err(fault),
                Ok(num_draws) => match thin_read(doc, base.thin, num_draws, sample) {
                    Err(fault) => Err(fault),
                    Ok(thin) => match treedepth_read(doc, base.sampler.max_treedepth, sample) {
                        Err(fault) => Err(fault),
                        Ok(max_treedepth) => match rate_read(
                            doc,
                            base.sampler.target_accept,
                            sample,
                        ) {
                            Err(fault) => Err(fault),
                            Ok(target_accept) => Ok(
                                SampleScenarioModel {
                                    sampler: SettingsModel {
                                        num_warmup,
                                        num_draws,
                                        max_treedepth,
                                        target_accept,
                                    },
                                    chains,
                                    thin,
                                },
                            ),
                        },
                    },
                },
            },
        },
    }
}

/// A sample document over what a scenario has by default.
pub open spec fn sample_applied(doc: Json, base: SampleScenarioModel, context: Seq<char>) -> Result<
    SampleScenarioModel,
    Fault,
> {
    let sample = context + " scenario sample"@;
    match unknown_fault(doc, sample, sample_names(base.thin)) {
        Some(fault) => Err(fault),
        None => sample_fields(doc, base, sample),
    }
}

fn read_chains(doc: &Value, default: u64, sample: &str) -> (r: Result<u64, Error>)
    ensures
        seed_outcome(r) == chains_read(doc@, default, sample@),
{
    let label: String = text::cat2(sample, ".chains");
    let range: String = text::cat2(
        label.as_str(),
        " must be in 1..=9223372036854775807 because workflow reports chains as JSON integers",
    );
    let n: i64 = scenario_reportable_int(
        doc,
        "chains",
        default as i64,
        label.as_str(),
        range.as_str(),
    )?;
    if n < 1 {
        return Err(invalid_settings(text::cat2(label.as_str(), " must be at least 1")));
    }
    Ok(n as u64)
}

fn read_warmup(doc: &Value, default: usize, sample: &str) -> (r: Result<usize, Error>)
    ensures
        size_outcome(r) == warmup_read(doc@, default, sample@),
{
    let label: String = text::cat2(sample, ".warmup");
    let range: String = text::cat2(
        label.as_str(),
        " must be in 0..=9223372036854775807 because workflow reports sample.warmup as a JSON integer",
    );
    let n: i64 = scenario_reportable_int(
        doc,
        "warmup",
        default as i64,
        label.as_str(),
        range.as_str(),
    )?;
    if n < 0 {
        return Err(invalid_settings(text::cat2(label.as_str(), " must be non-negative")));
    }
    Ok(n as usize)
}

fn read_draws(doc: &Value, default: usize, sample: &str) -> (r: Result<usize, Error>)
    ensures
        size_outcome(r) == draws_read(doc@, default, sample@),
{
    let label: String = text::cat2(sample, ".draws");
    let range: String = text::cat2(
        label.as_str(),
        " must be in 1..=9223372036854775807 because workflow reports sample.draws as a JSON integer",
    );
    let n: usize = read_positive(doc, "draws", default, label.as_str(), range.as_str())?;
    validate_diagnostic_draws(n, label.as_str(), "workflow reports")?;
    Ok(n)
}

/// The result of reading an optional size.
pub open spec fn optional_size_outcome(r: Result<Option<usize>, Error>) -> Result<
    Option<usize>,
    Fault,
> {
    match r {
        Ok(n) => Ok(n),
        Err(error) => Err(error@),
    }
}

fn read_thin(doc: &Value, default: Option<usize>, draws: usize, sample: &str) -> (r: Result<
    Option<usize>,
    Error,
>)
    ensures
        optional_size_outcome(r) == thin_read(doc@, default, draws, sample@),
{
    match default {
        None => Ok(None),
        Some(known) => {
            let label: String = text::cat2(sample, ".thin");
            let range: String = text::cat2(
                label.as_str(),
                " must be in 1..=9223372036854775807 because workflow reports sample.thin as a JSON integer",
            );
            let n: usize = read_positive(doc, "thin", known, label.as_str(), range.as_str())?;
            let even: bool = if n == 0 {
                draws == 0
            } else {
                draws % n == 0
            };
            if !even {
                return Err(
                    invalid_settings(
                        text::cat2(
                            label.as_str(),
                            " must divide sample.draws exactly; pick a thin that divides sample.draws",
                        ),
                    ),
                );
            }
            Ok(Some(n))
        },
    }
}

fn read_treedepth(doc: &Value, default: usize, sample: &str) -> (r: Result<usize, Error>)
    ensures
        size_outcome(r) == treedepth_read(doc@, default, sample@),
{
    let label: String = text::cat2(sample, ".max_treedepth");
    let range: String = text::cat2(label.as_str(), " must be in 1..=20");
    let n: usize = read_positive(doc, "max_treedepth", default, label.as_str(), range.as_str())?;
    validate_max_treedepth(n, label.as_str())?;
    Ok(n)
}

fn read_rate(doc: &Value, default: &Number, sample: &str) -> (r: Result<Number, Error>)
    ensures
        outcome(r) == rate_read(doc@, default@, sample@),
{
    let label: String = text::cat2(sample, ".target_accept");
    let n: Number = scenario_float(doc, "target_accept", default, label.as_str())?;
    validate_target_accept(&n, label.as_str())?;
    Ok(n)
}

/// Lays a sample document over what a scenario has by default.
pub fn apply_sample_settings(sample_doc: &Value, base: &SampleScenario, context: &str) -> (r: Result<
    SampleScenario,
    Error,
>)
    ensures
        outcome(r) == sample_applied(sample_doc@, base@, context@),
{
    let sample: String = text::cat2(context, " scenario sample");
    let allowed: Vec<&str> = if base.thin.is_some() {
        vec!["chains", "warmup", "draws", "thin", "max_treedepth", "target_accept"]
    } else {
        vec!["chains", "warmup", "draws", "max_treedepth", "target_accept"]
    };
    assert(names_view(allowed@) =~= sample_names(base.thin));
    reject_unknown_fields(sample_doc, sample.as_str(), &allowed)?;
    let chains: u64 = read_chains(sample_doc, base.chains, sample.as_str())?;
    let num_warmup: usize = read_warmup(sample_doc, base.sampler.num_warmup, sample.as_str())?;
    let num_draws: usize = read_draws(sample_doc, base.sampler.num_draws, sample.as_str())?;
    let thin: Option<usize> = read_thin(sample_doc, base.thin, num_draws, sample.as_str())?;
    let max_treedepth: usize = read_treedepth(
        sample_doc,
        base.sampler.max_treedepth,
        sample.as_str(),
    )?;
    let target_accept: Number = read_rate(
        sample_doc,
        &base.sampler.target_accept,
        sample.as_str(),
    )?;
    Ok(
        SampleScenario {
            sampler: Settings { num_warmup, num_draws, max_treedepth, target_accept },
            chains,
            thin,
        },
    )
}

/// A scenario of recovery.
#[derive(Debug)]
pub struct RecoverScenario {
    pub data: Vec<(String, DataValue)>,
    pub interval: Number,
    pub sample: SampleScenario,
    pub seed: u64,
}

/// The mathematical content of a [`RecoverScenario`].
#[verifier::ext_equal]
pub struct RecoverScenarioModel {
    pub data: Seq<(Seq<char>, DataModel)>,
    pub interval: NumberModel,
    pub sample: SampleScenarioModel,
    pub seed: u64,
}

impl View for RecoverScenario {
    type V = RecoverScenarioModel;

    open spec fn view(&self) -> RecoverScenarioModel {
        RecoverScenarioModel {
            data: data_views(self.data@),
            interval: self.interval@,
            sample: self.sample@,
            seed: self.seed,
        }
    }
}

/// A scenario of simulation-based calibration.
#[derive(Debug)]
pub struct SbcScenario {
    pub data: Vec<(String, DataValue)>,
    pub replicates: usize,
    pub sample: SampleScenario,
    pub seed: u64,
}

/// The mathematical content of a [`SbcScenario`].
#[verifier::ext_equal]
pub struct SbcScenarioModel {
    pub data: Seq<(Seq<char>, DataModel)>,
    pub replicates: usize,
    pub sample: SampleScenarioModel,
    pub seed: u64,
}

impl View for SbcScenario {
    type V = SbcScenarioModel;

    open spec fn view(&self) -> SbcScenarioModel {
        SbcScenarioModel {
            data: data_views(self.data@),
            replicates: self.replicates,
            sample: self.sample@,
            seed: self.seed,
        }
    }
}

/// The version that scenarios carry.
pub const SCENARIO_VERSION: &'static str = "v0-provisional";

/// The data of a scenario.
pub open spec fn scenario_data(doc: Json, kind: Seq<char>) -> Result<
    Seq<(Seq<char>, DataModel)>,
    Fault,
> {
    match field(doc, "data"@) {
        None => Err(settings_fault(kind + " scenario needs a data object"@)),
        Some(data) => if !(data is Object) {
            Err(settings_fault(kind + " scenario data must be an object"@))
        } else {
            read_data(data)
        },
    }
}

/// The sampling of a scenario.
pub open spec fn scenario_sample(doc: Json, base: SampleScenarioModel, kind: Seq<char>) -> Result<
    SampleScenarioModel,
    Fault,
> {
    match field(doc, "sample"@) {
        None => Ok(base),
        Some(sample) => sample_applied(sample, base, kind),
    }
}

/// What is wrong with the outline of a scenario.
pub open spec fn outline_fault(doc: Json, kind: Seq<char>, own: Seq<char>) -> Option<Fault> {
    match unknown_fault(
        doc,
        kind + " scenario"@,
        seq![kind + "_scenario"@, "data"@, "seed"@, own, "sample"@],
    ) {
        Some(fault) => Some(fault),
        None => if string_of(field(doc, kind + "_scenario"@)) != Some(SCENARIO_VERSION@) {
            Some(
                settings_fault(
                    kind + " scenario needs "@ + kind + "_scenario \"v0-provisional\""@,
                ),
            )
        } else {
            None
        },
    }
}

/// A scenario of recovery, as a document gives it.
pub open spec fn recover_read(doc: Json, base: SampleScenarioModel) -> Result<
    RecoverScenarioModel,
    Fault,
> {
    match outline_fault(doc, "recover"@, "interval"@) {
        Some(fault) => Err(fault),
        None => match scenario_data(doc, "recover"@) {
            Err(fault) => Err(fault),
            Ok(data) => match seed_read(doc, "recover"@) {
                Err(fault) => Err(fault),
                Ok(seed) => match scenario_number(
                    doc,
                    "interval"@,
                    four_fifths(),
                    "recover scenario interval"@,
                ) {
                    Err(fault) => Err(fault),
                    Ok(interval) => match rate_fault(
                        interval.bits,
                        "recover scenario interval"@,
                    ) {
                        Some(fault) => Err(fault),
                        None => match scenario_sample(doc, base, "recover"@) {
                            Err(fault) => Err(fault),
                            Ok(sample) => Ok(
                                RecoverScenarioModel { data, interval, sample, seed },
                            ),
                        },
                    },
                },
            },
        },
    }
}

/// A scenario of simulation-based calibration, as a document gives it.
pub open spec fn sbc_read(doc: Json, replicates: usize, base: SampleScenarioModel) -> Result<
    SbcScenarioModel,
    Fault,
> {
    match outline_fault(doc, "sbc"@, "replicates"@) {
        Some(fault) => Err(fault),
        None => match scenario_data(doc, "sbc"@) {
            Err(fault) => Err(fault),
            Ok(data) => match seed_read(doc, "sbc"@) {
                Err(fault) => Err(fault),
                Ok(seed) => match positive_field(
                    doc,
                    "replicates"@,
                    replicates,
                    "sbc scenario replicates"@,
                    "sbc scenario replicates must be in 1..=9223372036854775807 because workflow reports replicates as JSON integers"@,
                ) {
                    Err(fault) => Err(fault),
                    Ok(count) => match replicates_fault(count) {
                        Some(fault) => Err(fault),
                        None => match scenario_sample(doc, base, "sbc"@) {
                            Err(fault) => Err(fault),
                            Ok(sample) => Ok(
                                SbcScenarioModel { data, replicates: count, sample, seed },
                            ),
                        },
                    },
                },
            },
        },
    }
}

/// What is wrong with a number of replicates.
pub open spec fn replicates_fault(count: usize) -> Option<Fault> {
    if count == 0 {
        Some(settings_fault("sbc scenario replicates must be at least 1"@))
    } else if count > i64::MAX {
        Some(
            settings_fault(
                "sbc scenario replicates must be in 1..=9223372036854775807 because sbc reports replicates as a JSON integer"@,
            ),
        )
    } else {
        None
    }
}

fn check_outline(doc: &Value, kind: &str, own: &str) -> (r: Result<(), Error>)
    ensures
        checked(r) == outline_fault(doc@, kind@, own@),
{
    let version_name: String = text::cat2(kind, "_scenario");
    let context: String = text::cat2(kind, " scenario");
    let allowed: Vec<&str> = vec![version_name.as_str(), "data", "seed", own, "sample"];
    assert(names_view(allowed@) =~= seq![
        kind@ + "_scenario"@,
        "data"@,
        "seed"@,
        own@,
        "sample"@,
    ]);
    reject_unknown_fields(doc, context.as_str(), &allowed)?;
    let right: bool = match doc.get(version_name.as_str()) {
        Some(value) => match value.as_str() {
            Some(version) => text::same(version, SCENARIO_VERSION),
            None => false,
        },
        None => false,
    };
    if right {
        Ok(())
    } else {
        Err(
            invalid_settings(
                text::cat4(kind, " scenario needs ", kind, "_scenario \"v0-provisional\""),
            ),
        )
    }
}

fn read_scenario_data(doc: &Value, kind: &str) -> (r: Result<Vec<(String, DataValue)>, Error>)
    ensures
        data_outcome(r) == scenario_data(doc@, kind@),
{
    broadcast use group_json_views;

    match doc.get("data") {
        None => Err(invalid_settings(text::cat2(kind, " scenario needs a data object"))),
        Some(data) => match data {
            Value::Object(_) => data_from_json(data),
            _ => Err(invalid_settings(text::cat2(kind, " scenario data must be an object"))),
        },
    }
}

fn read_scenario_sample(doc: &Value, base: &SampleScenario, kind: &str) -> (r: Result<
    SampleScenario,
    Error,
>)
    ensures
        outcome(r) == scenario_sample(doc@, base@, kind@),
{
    match doc.get("sample") {
        None => Ok(
            SampleScenario { sampler: base.sampler.copy(), chains: base.chains, thin: base.thin },
        ),
        Some(sample) => apply_sample_settings(sample, base, kind),
    }
}

/// Reads a scenario of recovery; what it does not say is as the workflow has it.
pub fn parse_recover_scenario(document: &Value, base: &SampleScenario) -> (r: Result<
    RecoverScenario,
    Error,
>)
    ensures
        outcome(r) == recover_read(document@, base@),
{
    check_outline(document, "recover", "interval")?;
    let data: Vec<(String, DataValue)> = read_scenario_data(document, "recover")?;
    let seed: u64 = scenario_seed(document, "recover")?;
    let interval: Number = scenario_float(
        document,
        "interval",
        &default_interval(),
        "recover scenario interval",
    )?;
    validate_target_accept(&interval, "recover scenario interval")?;
    let sample: SampleScenario = read_scenario_sample(document, base, "recover")?;
    Ok(RecoverScenario { data, interval, sample, seed })
}

/// Reads a scenario of simulation-based calibration; what it does not say is as the workflow has
/// it.
pub fn parse_sbc_scenario(document: &Value, replicates: usize, base: &SampleScenario) -> (r: Result<
    SbcScenario,
    Error,
>)
    ensures
        outcome(r) == sbc_read(document@, replicates, base@),
{
    check_outline(document, "sbc", "replicates")?;
    let data: Vec<(String, DataValue)> = read_scenario_data(document, "sbc")?;
    let seed: u64 = scenario_seed(document, "sbc")?;
    let count: usize = read_positive(
        document,
        "replicates",
        replicates,
        "sbc scenario replicates",
        "sbc scenario replicates must be in 1..=9223372036854775807 because workflow reports replicates as JSON integers",
    )?;
    if count == 0 {
        return Err(
            invalid_settings("sbc scenario replicates must be at least 1".to_owned()),
        );
    }
    if count as u64 > i64::MAX as u64 {
        return Err(
            invalid_settings(
                "sbc scenario replicates must be in 1..=9223372036854775807 because sbc reports replicates as a JSON integer".to_owned(),
            ),
        );
    }
    let sample: SampleScenario = read_scenario_sample(document, base, "sbc")?;
    Ok(SbcScenario { data, replicates: count, sample, seed })
}

} // verus!
