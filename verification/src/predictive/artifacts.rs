//! The lines that predictive runs are written as.

use vstd::prelude::*;

use crate::artifact::{
    artifact_identity_entries, coordinate_order_value, entry_order_value, shape_value, ArtifactIdentity,
    PRIOR_PREDICTIVE_DRAW_INDEX_BASE, V0_PROVISIONAL,
};
#[allow(unused_imports)]
use crate::artifact::{cells, coordinate_order, entry_order, shape_json};
use crate::data::{copy_data, DataValue};
#[allow(unused_imports)]
use crate::data::{data_views, filled, json_items, number_views, DataModel};
use crate::error::{invalid_settings, nonfinite, Error};
#[allow(unused_imports)]
use crate::error::{nonfinite_fault, outcome, settings_fault, Fault};
#[allow(unused_imports)]
use crate::investigation::fields::names_view;
use crate::ir::ModelMeta;
#[allow(unused_imports)]
use crate::ir::{list_views, named_views, MetaModel};
use crate::json::Value;
#[allow(unused_imports)]
use crate::json::{group_json_views, items_view, Json};
#[allow(unused_imports)]
use crate::model::{all_filled, bound_names};
use crate::number::{whole_number, Number};
#[allow(unused_imports)]
use crate::number::{beyond_integers, clamped, integer_value, integral, message_text, NumberModel};
use crate::numerics::{Arithmetic, Randomness};
use crate::render::{render, texts_value, Fields};
#[allow(unused_imports)]
use crate::render::{lines_outcome, rendered, texts_json};
use crate::tensor::Tensor;
#[allow(unused_imports)]
use crate::tensor::TensorModel;
use crate::text;
#[allow(unused_imports)]
use crate::text::text_views;

use super::prior::simulate_prior_predictive;
#[allow(unused_imports)]
use super::prior::prior_simulated;
use super::records::{
    validate_reportable_draw_count, validate_reportable_seed, PriorPredictiveRun, PriorPredictiveSettings,
    PriorPredictiveSite,
};
#[allow(unused_imports)]
use super::records::{count_fault, role_name, seed_fault, sound_record, sound_records, RecordModel, RunModel};

verus! {

/// A generated number as JSON.
pub open spec fn generated_json(n: NumberModel, integer: bool, context: Seq<char>) -> Result<Json, Fault> {
    if !integer {
        Ok(Json::Float(n))
    } else if !integral(n.bits) {
        Err(
            nonfinite_fault(
                context + " expected an integer finite generated value, got "@ + message_text(n),
            ),
        )
    } else if beyond_integers(integer_value(n.bits)) {
        Err(
            settings_fault(
                context + " integer generated value must fit JSON integer range, got "@ + message_text(n),
            ),
        )
    } else {
        Ok(Json::Int(clamped(integer_value(n.bits))))
    }
}

fn scalar_to_value(value: &Number, integer: bool, context: &str) -> (r: Result<Value, Error>)
    ensures
        outcome(r) == generated_json(value@, integer, context@),
{
    if !integer {
        return Ok(Value::Float(value.copy()));
    }
    match whole_number(value.bits) {
        None => Err(
            nonfinite(
                text::cat3(
                    context,
                    " expected an integer finite generated value, got ",
                    value.shown().as_str(),
                ),
            ),
        ),
        Some(whole) => if whole.beyond {
            Err(
                invalid_settings(
                    text::cat3(
                        context,
                        " integer generated value must fit JSON integer range, got ",
                        value.shown().as_str(),
                    ),
                ),
            )
        } else {
            Ok(Value::Int(whole.nearest))
        },
    }
}

/// Generated numbers as JSON, each with its flag.
pub open spec fn flagged_json(values: Seq<NumberModel>, flags: Seq<bool>, context: Seq<char>) -> Result<
    Seq<Json>,
    Fault,
>
    decreases values.len(),
{
    if values.len() == 0 {
        Ok(Seq::empty())
    } else {
        match flagged_json(values.drop_last(), flags, context) {
            Err(fault) => Err(fault),
            Ok(before) => match generated_json(values.last(), flags[values.len() - 1], context) {
                Err(fault) => Err(fault),
                Ok(item) => Ok(before.push(item)),
            },
        }
    }
}

proof fn lemma_flagged_fail(values: Seq<NumberModel>, flags: Seq<bool>, context: Seq<char>, n: int)
    requires
        0 <= n <= values.len(),
        flagged_json(values.take(n), flags, context) is Err,
    ensures
        flagged_json(values, flags, context) == flagged_json(values.take(n), flags, context),
    decreases values.len(),
{
    if n < values.len() {
        assert(values.drop_last().take(n) =~= values.take(n));
        lemma_flagged_fail(values.drop_last(), flags, context, n);
    } else {
        assert(values.take(n) =~= values);
    }
}

fn flag_values(values: &Vec<Number>, flags: &Vec<bool>, context: &str) -> (r: Result<Vec<Value>, Error>)
    requires
        flags@.len() == values@.len(),
    ensures
        json_items(r) == flagged_json(number_views(values@), flags@, context@),
        r is Ok ==> r->Ok_0@.len() == values@.len(),
{
    broadcast use group_json_views;

    let ghost all = number_views(values@);
    let mut out: Vec<Value> = Vec::new();
    assert(items_view(out@) =~= Seq::empty());
    assert(all.take(0) =~= Seq::empty());
    let mut i: usize = 0;
    while i < values.len()
        invariant
            i <= values.len(),
            flags.len() == values.len(),
            out.len() == i,
            all == number_views(values@),
            flagged_json(all.take(i as int), flags@, context@) == Ok::<Seq<Json>, Fault>(
                items_view(out@),
            ),
        decreases values.len() - i,
    {
        broadcast use group_json_views;

        proof {
            let done = all.take(i + 1);
            assert(done.drop_last() =~= all.take(i as int));
            assert(done.last() == values@[i as int]@);
        }
        match scalar_to_value(&values[i], flags[i], context) {
            Err(error) => {
                proof {
                    lemma_flagged_fail(all, flags@, context@, i + 1);
                }
                return Err(error);
            },
            Ok(item) => {
                let ghost before = out@;
                let ghost content = item@;
                out.push(item);
                assert(items_view(out@) =~= items_view(before).push(content));
            },
        }
        i += 1;
    }
    assert(all.take(i as int) =~= all);
    Ok(out)
}

/// A generated value as JSON: a number for a scalar, else an array in row-major order.
pub open spec fn tensor_json(t: TensorModel, flags: Seq<bool>, context: Seq<char>) -> Result<Json, Fault> {
    if flags.len() != t.values.len() {
        Err(
            settings_fault(
                context + " integer metadata length must match generated value length"@,
            ),
        )
    } else {
        match flagged_json(t.values, flags, context) {
            Err(fault) => Err(fault),
            Ok(items) => Ok(
                if t.shape.len() == 0 && items.len() == 1 {
                    items[0]
                } else {
                    Json::Array(items)
                },
            ),
        }
    }
}

fn as_scalar_or_array(items: Vec<Value>, scalar: bool) -> (r: Value)
    ensures
        r@ == (if scalar && items@.len() == 1 {
            items_view(items@)[0]
        } else {
            Json::Array(items_view(items@))
        }),
{
    broadcast use group_json_views;

    if scalar && items.len() == 1 {
        items[0].copy()
    } else {
        Value::Array(items)
    }
}

fn tensor_to_value(tensor: &Tensor, flags: &Vec<bool>, context: &str) -> (r: Result<Value, Error>)
    ensures
        outcome(r) == tensor_json(tensor@, flags@, context@),
{
    broadcast use group_json_views;

    if flags.len() != tensor.values.len() {
        return Err(
            invalid_settings(
                text::cat2(
                    context,
                    " integer metadata length must match generated value length",
                ),
            ),
        );
    }
    let items: Vec<Value> = flag_values(&tensor.values, flags, context)?;
    Ok(as_scalar_or_array(items, tensor.shape.len() == 0))
}

/// The integer flag of declared data, once for every value.
pub open spec fn data_flags(m: DataModel) -> Seq<bool> {
    Seq::new(m.values.len(), |i: int| m.integer)
}

/// Declared data as JSON.
pub open spec fn declared_json(m: DataModel) -> Result<Json, Fault> {
    tensor_json(
        TensorModel { shape: m.shape, values: m.values },
        data_flags(m),
        "prior-predictive artifact declared data"@,
    )
}

fn repeat_flag(flag: bool, count: usize) -> (r: Vec<bool>)
    ensures
        r@ == Seq::new(count as nat, |i: int| flag),
{
    let mut out: Vec<bool> = Vec::new();
    let mut i: usize = 0;
    while i < count
        invariant
            i <= count,
            out.len() == i,
            forall|k: int| 0 <= k < i ==> out@[k] == flag,
        decreases count - i,
    {
        out.push(flag);
        i += 1;
    }
    assert(out@ =~= Seq::new(count as nat, |i: int| flag));
    out
}

fn data_value_to_value(value: &DataValue) -> (r: Result<Value, Error>)
    ensures
        outcome(r) == declared_json(value@),
{
    broadcast use group_json_views;

    let flags: Vec<bool> = repeat_flag(value.integer, value.values.len());
    let context: &str = "prior-predictive artifact declared data";
    assert(number_views(value.values@).len() == value.values@.len());
    assert(flags@ =~= data_flags(value@));
    let items: Vec<Value> = flag_values(&value.values, &flags, context)?;
    Ok(as_scalar_or_array(items, value.shape.len() == 0))
}

/// The fields of declared data.
pub open spec fn declared_fields(data: Seq<(Seq<char>, DataModel)>) -> Result<
    Seq<(Seq<char>, Json)>,
    Fault,
>
    decreases data.len(),
{
    if data.len() == 0 {
        Ok(Seq::empty())
    } else {
        match declared_fields(data.drop_last()) {
            Err(fault) => Err(fault),
            Ok(before) => match declared_json(data.last().1) {
                Err(fault) => Err(fault),
                Ok(value) => Ok(before.push((data.last().0, value))),
            },
        }
    }
}

proof fn lemma_declared_fields_fail(data: Seq<(Seq<char>, DataModel)>, n: int)
    requires
        0 <= n <= data.len(),
        declared_fields(data.take(n)) is Err,
    ensures
        declared_fields(data) == declared_fields(data.take(n)),
    decreases data.len(),
{
    if n < data.len() {
        assert(data.drop_last().take(n) =~= data.take(n));
        lemma_declared_fields_fail(data.drop_last(), n);
    } else {
        assert(data.take(n) =~= data);
    }
}

/// The view of fields under construction.
pub open spec fn object_outcome(r: Result<Fields, Error>) -> Result<Seq<(Seq<char>, Json)>, Fault> {
    match r {
        Ok(fields) => Ok(fields@),
        Err(error) => Err(error@),
    }
}

pub(crate) fn data_values_to_value(data: &Vec<(String, DataValue)>) -> (r: Result<Fields, Error>)
    ensures
        object_outcome(r) == declared_fields(data_views(data@)),
{
    let ghost all = data_views(data@);
    let mut out: Fields = Fields::new();
    assert(all.take(0) =~= Seq::empty());
    let mut i: usize = 0;
    while i < data.len()
        invariant
            i <= data.len(),
            all == data_views(data@),
            declared_fields(all.take(i as int)) == Ok::<Seq<(Seq<char>, Json)>, Fault>(out@),
        decreases data.len() - i,
    {
        proof {
            let done = all.take(i + 1);
            assert(done.drop_last() =~= all.take(i as int));
            assert(done.last() == (data@[i as int].0@, data@[i as int].1@));
        }
        match data_value_to_value(&data[i].1) {
            Err(error) => {
                proof {
                    lemma_declared_fields_fail(all, i + 1);
                }
                return Err(error);
            },
            Ok(value) => {
                out.put(data[i].0.as_str(), value);
            },
        }
        i += 1;
    }
    assert(all.take(i as int) =~= all);
    Ok(out)
}

/// The names of declared data as JSON.
pub open spec fn data_order(data: Seq<(Seq<char>, DataModel)>) -> Json {
    texts_json(bound_names(data))
}

pub(crate) fn data_order_value(data: &Vec<(String, DataValue)>) -> (r: Value)
    ensures
        r@ == data_order(data_views(data@)),
{
    let out: Value = entry_order_value(data.as_slice());
    assert(entry_order(data@)->Array_0 =~= data_order(data_views(data@))->Array_0);
    out
}

/// Fields of declared data by what is said of each.
pub open spec fn mapped_fields(
    data: Seq<(Seq<char>, DataModel)>,
    say: spec_fn(DataModel) -> Json,
) -> Seq<(Seq<char>, Json)> {
    data.map_values(|entry: (Seq<char>, DataModel)| (entry.0, say(entry.1)))
}

/// The integer flags of declared data by coordinate.
pub open spec fn data_flags_json(m: DataModel) -> Json {
    flags_json(m.shape, data_flags(m))
}

/// Integer flags as JSON: one for a scalar, else an array.
pub open spec fn flags_json(shape: Seq<usize>, flags: Seq<bool>) -> Json {
    if shape.len() == 0 {
        Json::Bool(flags.len() > 0 && flags[0])
    } else {
        Json::Array(flags.map_values(|flag: bool| Json::Bool(flag)))
    }
}

fn integer_flags_to_value(shape: &Vec<usize>, flags: &Vec<bool>) -> (r: Value)
    ensures
        r@ == flags_json(shape@, flags@),
{
    broadcast use group_json_views;

    if shape.len() == 0 {
        return Value::Bool(flags.len() > 0 && flags[0]);
    }
    let mut items: Vec<Value> = Vec::new();
    let mut i: usize = 0;
    while i < flags.len()
        invariant
            i <= flags.len(),
            items.len() == i,
            forall|k: int| 0 <= k < i ==> (#[trigger] items@[k])@ == Json::Bool(flags@[k]),
        decreases flags.len() - i,
    {
        items.push(Value::Bool(flags[i]));
        i += 1;
    }
    assert(items_view(items@) =~= flags@.map_values(|flag: bool| Json::Bool(flag)));
    Value::Array(items)
}

/// What headers say of each declared value.
enum Said {
    Shape,
    Coordinates,
    Integer,
    Flags,
}

spec fn said(kind: Said) -> spec_fn(DataModel) -> Json {
    match kind {
        Said::Shape => |m: DataModel| shape_json(m.shape),
        Said::Coordinates => |m: DataModel| coordinate_order(m.shape),
        Said::Integer => |m: DataModel| Json::Bool(m.integer),
        Said::Flags => |m: DataModel| data_flags_json(m),
    }
}

fn say(kind: &Said, value: &DataValue) -> (r: Value)
    requires
        filled(value@),
    ensures
        r@ == said(*kind)(value@),
{
    assert(number_views(value.values@).len() == value.values@.len());
    match kind {
        Said::Shape => shape_value(value.shape.as_slice()),
        Said::Coordinates => {
            let count: usize = value.values.len();
            assert(cells(value.shape@) == count);
            coordinate_order_value(value.shape.as_slice())
        },
        Said::Integer => Value::Bool(value.integer),
        Said::Flags => {
            let flags: Vec<bool> = repeat_flag(value.integer, value.values.len());
            assert(flags@ =~= data_flags(value@));
            integer_flags_to_value(&value.shape, &flags)
        },
    }
}

fn say_all(kind: Said, data: &Vec<(String, DataValue)>) -> (r: Value)
    requires
        all_filled(data_views(data@)),
    ensures
        r@ == Json::Object(mapped_fields(data_views(data@), said(kind))),
{
    let ghost all = data_views(data@);
    let ghost wanted = mapped_fields(all, said(kind));
    let mut out: Fields = Fields::new();
    assert(out@ =~= wanted.take(0));
    let mut i: usize = 0;
    while i < data.len()
        invariant
            i <= data.len(),
            all == data_views(data@),
            all_filled(all),
            wanted == mapped_fields(all, said(kind)),
            out@ == wanted.take(i as int),
        decreases data.len() - i,
    {
        assert(all[i as int] == (data@[i as int].0@, data@[i as int].1@));
        out.put(data[i].0.as_str(), say(&kind, &data[i].1));
        assert(wanted.take(i + 1) =~= wanted.take(i as int).push(wanted[i as int]));
        i += 1;
    }
    assert(wanted.take(i as int) =~= wanted);
    out.done()
}

/// The names of sites as JSON.
pub open spec fn site_order(sites: Seq<RecordModel>) -> Json {
    texts_json(sites.map_values(|site: RecordModel| site.name))
}

pub(crate) fn site_order_to_value(sites: &Vec<PriorPredictiveSite>) -> (r: Value)
    ensures
        r@ == site_order(list_views(sites@)),
{
    let mut names: Vec<&str> = Vec::new();
    let mut i: usize = 0;
    while i < sites.len()
        invariant
            i <= sites.len(),
            names.len() == i,
            forall|k: int| 0 <= k < i ==> (#[trigger] names@[k])@ == sites@[k].name@,
        decreases sites.len() - i,
    {
        names.push(sites[i].name.as_str());
        i += 1;
    }
    assert(names_view(names@) =~= list_views(sites@).map_values(|site: RecordModel| site.name));
    texts_value(&names)
}

/// The fields of a site.
pub open spec fn site_entries(site: RecordModel) -> Seq<(Seq<char>, Json)> {
    seq![
        ("name"@, Json::Str(site.name)),
        ("stochastic_site"@, Json::Str(site.stochastic_site)),
        ("role"@, Json::Str(role_name(site.role))),
        ("shape"@, shape_json(site.shape)),
        ("integer"@, Json::Bool(site.integer)),
        ("integer_by_coordinate"@, flags_json(site.shape, site.flags)),
        ("coordinate_order"@, coordinate_order(site.shape)),
    ]
}

/// Sites as JSON.
pub open spec fn sites_json(sites: Seq<RecordModel>) -> Json {
    Json::Array(sites.map_values(|site: RecordModel| Json::Object(site_entries(site))))
}

fn site_value(site: &PriorPredictiveSite) -> (r: Value)
    requires
        sound_record(site@),
    ensures
        r@ == Json::Object(site_entries(site@)),
{
    let count: usize = site.integer_by_coordinate.len();
    assert(cells(site.shape@) == count);
    let mut out: Fields = Fields::new();
    out.put_text("name", site.name.as_str());
    out.put_text("stochastic_site", site.stochastic_site.as_str());
    out.put_text("role", site.role.as_str());
    out.put("shape", shape_value(site.shape.as_slice()));
    out.put_bool("integer", site.integer);
    out.put(
        "integer_by_coordinate",
        integer_flags_to_value(&site.shape, &site.integer_by_coordinate),
    );
    out.put("coordinate_order", coordinate_order_value(site.shape.as_slice()));
    assert(out@ == site_entries(site@));
    out.done()
}

pub(crate) fn sites_value(sites: &Vec<PriorPredictiveSite>) -> (r: Value)
    requires
        sound_records(list_views(sites@)),
    ensures
        r@ == sites_json(list_views(sites@)),
{
    broadcast use group_json_views;

    let ghost all = list_views(sites@);
    let mut items: Vec<Value> = Vec::new();
    let mut i: usize = 0;
    while i < sites.len()
        invariant
            i <= sites.len(),
            items.len() == i,
            all == list_views(sites@),
            sound_records(all),
            forall|k: int|
                0 <= k < i ==> (#[trigger] items@[k])@ == Json::Object(site_entries(all[k])),
        decreases sites.len() - i,
    {
        assert(all[i as int] == sites@[i as int]@);
        items.push(site_value(&sites[i]));
        i += 1;
    }
    assert(items_view(items@) =~= all.map_values(
        |site: RecordModel| Json::Object(site_entries(site)),
    ));
    Value::Array(items)
}

/// The fields that every prior-predictive line begins with.
pub open spec fn prior_marks() -> Seq<(Seq<char>, Json)> {
    seq![
        ("prior_predictive_format"@, Json::Str(V0_PROVISIONAL@)),
        ("artifact_kind"@, Json::Str("prior_predictive_draws"@)),
        ("artifact_scope"@, Json::Str("declared_data_conditioned_site_draws"@)),
    ]
}

fn prior_predictive_artifact_fields() -> (r: Fields)
    ensures
        r@ == prior_marks(),
{
    let mut out: Fields = Fields::new();
    out.put_text("prior_predictive_format", V0_PROVISIONAL);
    out.put_all(artifact_identity_entries(ArtifactIdentity::prior_predictive_draws()));
    assert(out@ =~= prior_marks());
    out
}

/// The phases of a prior-predictive run.
pub open spec fn prior_phases() -> Json {
    texts_json(
        seq![
            "parse_json"@,
            "decode_ir"@,
            "bind_declared_data"@,
            "simulate_prior_predictive"@,
            "emit_artifact"@,
        ],
    )
}

fn workflow_phases_value() -> (r: Value)
    ensures
        r@ == prior_phases(),
{
    let phases: Vec<&str> = vec![
        "parse_json",
        "decode_ir",
        "bind_declared_data",
        "simulate_prior_predictive",
        "emit_artifact",
    ];
    assert(names_view(phases@) =~= seq![
        "parse_json"@,
        "decode_ir"@,
        "bind_declared_data"@,
        "simulate_prior_predictive"@,
        "emit_artifact"@,
    ]);
    texts_value(&phases)
}

/// Settings as JSON.
pub open spec fn settings_json(draws: usize) -> Json {
    Json::Object(seq![("num_draws"@, Json::Int(draws as i64))])
}

fn settings_value(settings: &PriorPredictiveSettings) -> (r: Value)
    ensures
        r@ == settings_json(settings.num_draws),
{
    let mut out: Fields = Fields::new();
    out.put_int("num_draws", settings.num_draws as i64);
    assert(out@ == seq![("num_draws"@, Json::Int(settings.num_draws as i64))]);
    out.done()
}

/// What the lines of a prior-predictive run share.
#[verifier::ext_equal]
pub struct PriorShared {
    pub draws: usize,
    pub seed: u64,
    pub data: Seq<(Seq<char>, DataModel)>,
}

/// The fields of the header of a prior-predictive run.
pub open spec fn prior_header(
    sites: Seq<RecordModel>,
    shared: PriorShared,
    declared: Seq<(Seq<char>, Json)>,
) -> Seq<(Seq<char>, Json)> {
    prior_marks() + seq![
        ("workflow_phases"@, prior_phases()),
        ("draws"@, Json::Int(shared.draws as i64)),
        ("draw_count"@, Json::Int(shared.draws as i64)),
        ("draw_index_base"@, Json::Str(PRIOR_PREDICTIVE_DRAW_INDEX_BASE@)),
        ("seed"@, Json::Int(shared.seed as i64)),
        ("settings"@, settings_json(shared.draws)),
        ("site_count"@, Json::Int(sites.len() as i64)),
        ("site_order"@, site_order(sites)),
        ("declared_data_count"@, Json::Int(shared.data.len() as i64)),
        ("declared_data_order"@, data_order(shared.data)),
        ("declared_data"@, Json::Object(declared)),
        (
            "declared_data_shapes"@,
            Json::Object(mapped_fields(shared.data, |m: DataModel| shape_json(m.shape))),
        ),
        (
            "declared_data_coordinate_order"@,
            Json::Object(mapped_fields(shared.data, |m: DataModel| coordinate_order(m.shape))),
        ),
        (
            "declared_data_integer"@,
            Json::Object(mapped_fields(shared.data, |m: DataModel| Json::Bool(m.integer))),
        ),
        (
            "declared_data_integer_by_coordinate"@,
            Json::Object(mapped_fields(shared.data, |m: DataModel| data_flags_json(m))),
        ),
        ("sites"@, sites_json(sites)),
    ]
}

/// The header of a prior-predictive run.
pub open spec fn prior_header_json(sites: Seq<RecordModel>, shared: PriorShared) -> Result<Json, Fault> {
    match declared_fields(shared.data) {
        Err(fault) => Err(fault),
        Ok(declared) => Ok(Json::Object(prior_header(sites, shared, declared))),
    }
}

fn header_value(
    sites: &Vec<PriorPredictiveSite>,
    settings: &PriorPredictiveSettings,
    seed: u64,
    declared_data: &Vec<(String, DataValue)>,
) -> (r: Result<Value, Error>)
    requires
        sound_records(list_views(sites@)),
        all_filled(data_views(declared_data@)),
    ensures
        outcome(r) == prior_header_json(
            list_views(sites@),
            PriorShared { draws: settings.num_draws, seed, data: data_views(declared_data@) },
        ),
{
    let ghost shared = PriorShared {
        draws: settings.num_draws,
        seed,
        data: data_views(declared_data@),
    };
    let ghost all = list_views(sites@);
    assert(all.len() == sites@.len() && shared.data.len() == declared_data@.len());
    let declared: Fields = data_values_to_value(declared_data)?;
    let ghost listed = declared@;
    let mut out: Fields = prior_predictive_artifact_fields();
    out.put("workflow_phases", workflow_phases_value());
    out.put_int("draws", settings.num_draws as i64);
    out.put_int("draw_count", settings.num_draws as i64);
    out.put_text("draw_index_base", PRIOR_PREDICTIVE_DRAW_INDEX_BASE);
    out.put_int("seed", seed as i64);
    out.put("settings", settings_value(settings));
    out.put_int("site_count", sites.len() as i64);
    out.put("site_order", site_order_to_value(sites));
    out.put_int("declared_data_count", declared_data.len() as i64);
    out.put("declared_data_order", data_order_value(declared_data));
    out.put("declared_data", declared.done());
    out.put("declared_data_shapes", say_all(Said::Shape, declared_data));
    out.put("declared_data_coordinate_order", say_all(Said::Coordinates, declared_data));
    out.put("declared_data_integer", say_all(Said::Integer, declared_data));
    out.put("declared_data_integer_by_coordinate", say_all(Said::Flags, declared_data));
    out.put("sites", sites_value(sites));
    proof {
        assert(said(Said::Shape) =~= |m: DataModel| shape_json(m.shape));
        assert(said(Said::Coordinates) =~= |m: DataModel| coordinate_order(m.shape));
        assert(said(Said::Integer) =~= |m: DataModel| Json::Bool(m.integer));
        assert(said(Said::Flags) =~= |m: DataModel| data_flags_json(m));
        assert(out@ == prior_header(all, shared, listed));
    }
    Ok(out.done())
}

/// The values of a draw as JSON, each under the name of its site.
pub open spec fn values_fields(
    sites: Seq<RecordModel>,
    values: Seq<(Seq<char>, TensorModel)>,
    kind: Seq<char>,
    n: nat,
) -> Result<Seq<(Seq<char>, Json)>, Fault>
    decreases n,
{
    if n == 0 {
        Ok(Seq::empty())
    } else {
        match values_fields(sites, values, kind, (n - 1) as nat) {
            Err(fault) => Err(fault),
            Ok(before) => if sites[n - 1].name != values[n - 1].0 {
                Err(
                    settings_fault(kind + " site metadata does not match generated values"@),
                )
            } else {
                match tensor_json(values[n - 1].1, sites[n - 1].flags, kind + " artifact"@) {
                    Err(fault) => Err(fault),
                    Ok(value) => Ok(before.push((values[n - 1].0, value))),
                }
            },
        }
    }
}

/// How many sites have values.
pub open spec fn both(
    sites: Seq<RecordModel>,
    values: Seq<(Seq<char>, TensorModel)>,
) -> nat {
    if sites.len() < values.len() {
        sites.len()
    } else {
        values.len()
    }
}

proof fn lemma_values_fail(
    sites: Seq<RecordModel>,
    values: Seq<(Seq<char>, TensorModel)>,
    kind: Seq<char>,
    m: nat,
    n: nat,
)
    requires
        m <= n,
        values_fields(sites, values, kind, m) is Err,
    ensures
        values_fields(sites, values, kind, n) == values_fields(sites, values, kind, m),
    decreases n - m,
{
    if m < n {
        lemma_values_fail(sites, values, kind, m, (n - 1) as nat);
    }
}

pub(crate) fn draw_fields(
    sites: &Vec<PriorPredictiveSite>,
    values: &Vec<(String, Tensor)>,
    kind: &str,
) -> (r: Result<Fields, Error>)
    ensures
        object_outcome(r) == values_fields(
            list_views(sites@),
            named_views(values@),
            kind@,
            both(list_views(sites@), named_views(values@)),
        ),
{
    let ghost all = list_views(sites@);
    let ghost given = named_views(values@);
    assert(all.len() == sites@.len() && given.len() == values@.len());
    let ghost count = both(all, given);
    let context: String = text::cat2(kind, " artifact");
    let mut out: Fields = Fields::new();
    let mut i: usize = 0;
    while i < sites.len() && i < values.len()
        invariant
            i <= sites.len(),
            i <= values.len(),
            all == list_views(sites@),
            given == named_views(values@),
            all.len() == sites@.len() && given.len() == values@.len(),
            count == both(all, given),
            context@ == kind@ + " artifact"@,
            values_fields(all, given, kind@, i as nat) == Ok::<Seq<(Seq<char>, Json)>, Fault>(
                out@,
            ),
        decreases sites.len() - i,
    {
        let ghost n = (i + 1) as nat;
        proof {
            assert(all[n - 1] == sites@[i as int]@);
            assert(given[n - 1] == (values@[i as int].0@, values@[i as int].1@));
            if values_fields(all, given, kind@, n) is Err {
                lemma_values_fail(all, given, kind@, n, count);
            }
        }
        if !text::same(sites[i].name.as_str(), values[i].0.as_str()) {
            return Err(
                invalid_settings(
                    text::cat2(kind, " site metadata does not match generated values"),
                ),
            );
        }
        let value: Value = tensor_to_value(
            &values[i].1,
            &sites[i].integer_by_coordinate,
            context.as_str(),
        )?;
        out.put(values[i].0.as_str(), value);
        i += 1;
    }
    Ok(out)
}

/// The fields of a draw of a prior-predictive run.
pub open spec fn prior_draw(
    index: int,
    sites: Seq<RecordModel>,
    shared: PriorShared,
    values: Seq<(Seq<char>, Json)>,
) -> Seq<(Seq<char>, Json)> {
    prior_marks() + seq![
        ("draw_index"@, Json::Int(index as i64)),
        ("draw_index_base"@, Json::Str(PRIOR_PREDICTIVE_DRAW_INDEX_BASE@)),
        ("seed"@, Json::Int(shared.seed as i64)),
        ("draw"@, Json::Int(index as i64)),
        ("draw_count"@, Json::Int(shared.draws as i64)),
        ("declared_data_count"@, Json::Int(shared.data.len() as i64)),
        ("declared_data_order"@, data_order(shared.data)),
        ("site_count"@, Json::Int(sites.len() as i64)),
        ("site_order"@, site_order(sites)),
        ("values"@, Json::Object(values)),
    ]
}

fn prior_draw_value(
    index: usize,
    sites: &Vec<PriorPredictiveSite>,
    values: Fields,
    settings: &PriorPredictiveSettings,
    seed: u64,
    declared_data: &Vec<(String, DataValue)>,
) -> (r: Value)
    ensures
        r@ == Json::Object(
            prior_draw(
                index as int,
                list_views(sites@),
                PriorShared { draws: settings.num_draws, seed, data: data_views(declared_data@) },
                values@,
            ),
        ),
{
    let ghost shared = PriorShared {
        draws: settings.num_draws,
        seed,
        data: data_views(declared_data@),
    };
    let ghost all = list_views(sites@);
    let ghost listed = values@;
    assert(all.len() == sites@.len() && shared.data.len() == declared_data@.len());
    let mut out: Fields = prior_predictive_artifact_fields();
    out.put_int("draw_index", index as i64);
    out.put_text("draw_index_base", PRIOR_PREDICTIVE_DRAW_INDEX_BASE);
    out.put_int("seed", seed as i64);
    out.put_int("draw", index as i64);
    out.put_int("draw_count", settings.num_draws as i64);
    out.put_int("declared_data_count", declared_data.len() as i64);
    out.put("declared_data_order", data_order_value(declared_data));
    out.put_int("site_count", sites.len() as i64);
    out.put("site_order", site_order_to_value(sites));
    out.put("values", values.done());
    assert(out@ == prior_draw(index as int, all, shared, listed));
    out.done()
}

/// The fields of the trailer of a prior-predictive run.
pub open spec fn prior_trailer(sites: Seq<RecordModel>, shared: PriorShared) -> Seq<
    (Seq<char>, Json),
> {
    prior_marks() + seq![
        ("workflow_phases"@, prior_phases()),
        ("draws"@, Json::Int(shared.draws as i64)),
        ("draw_count"@, Json::Int(shared.draws as i64)),
        ("draw_index_base"@, Json::Str(PRIOR_PREDICTIVE_DRAW_INDEX_BASE@)),
        ("seed"@, Json::Int(shared.seed as i64)),
        ("settings"@, settings_json(shared.draws)),
        ("site_count"@, Json::Int(sites.len() as i64)),
        ("site_order"@, site_order(sites)),
        ("declared_data_count"@, Json::Int(shared.data.len() as i64)),
        ("declared_data_order"@, data_order(shared.data)),
        ("sites"@, Json::Int(sites.len() as i64)),
    ]
}

/// A trailer under its name.
pub open spec fn trailer_json(entries: Seq<(Seq<char>, Json)>) -> Json {
    Json::Object(seq![("trailer"@, Json::Object(entries))])
}

pub(crate) fn trailer_value(entries: Fields) -> (r: Value)
    ensures
        r@ == trailer_json(entries@),
{
    let ghost listed = entries@;
    let mut out: Fields = Fields::new();
    out.put("trailer", entries.done());
    assert(out@ == seq![("trailer"@, Json::Object(listed))]);
    out.done()
}

fn prior_trailer_fields(
    sites: &Vec<PriorPredictiveSite>,
    settings: &PriorPredictiveSettings,
    seed: u64,
    declared_data: &Vec<(String, DataValue)>,
) -> (r: Fields)
    ensures
        r@ == prior_trailer(
            list_views(sites@),
            PriorShared { draws: settings.num_draws, seed, data: data_views(declared_data@) },
        ),
{
    let ghost shared = PriorShared {
        draws: settings.num_draws,
        seed,
        data: data_views(declared_data@),
    };
    let ghost all = list_views(sites@);
    assert(all.len() == sites@.len() && shared.data.len() == declared_data@.len());
    let mut out: Fields = prior_predictive_artifact_fields();
    out.put("workflow_phases", workflow_phases_value());
    out.put_int("draws", settings.num_draws as i64);
    out.put_int("draw_count", settings.num_draws as i64);
    out.put_text("draw_index_base", PRIOR_PREDICTIVE_DRAW_INDEX_BASE);
    out.put_int("seed", seed as i64);
    out.put("settings", settings_value(settings));
    out.put_int("site_count", sites.len() as i64);
    out.put("site_order", site_order_to_value(sites));
    out.put_int("declared_data_count", declared_data.len() as i64);
    out.put("declared_data_order", data_order_value(declared_data));
    out.put_int("sites", sites.len() as i64);
    assert(out@ =~= prior_trailer(all, shared));
    out
}

/// A line with a value, where there is one.
pub open spec fn line_of(value: Result<Json, Fault>) -> Result<Seq<char>, Fault> {
    match value {
        Err(fault) => Err(fault),
        Ok(found) => rendered(found),
    }
}

/// The lines of the first `n` draws.
pub open spec fn drawn_lines(item: spec_fn(int) -> Result<Json, Fault>, n: nat) -> Result<
    Seq<Seq<char>>,
    Fault,
>
    decreases n,
{
    if n == 0 {
        Ok(Seq::empty())
    } else {
        match drawn_lines(item, (n - 1) as nat) {
            Err(fault) => Err(fault),
            Ok(before) => match line_of(item(n - 1)) {
                Err(fault) => Err(fault),
                Ok(line) => Ok(before.push(line)),
            },
        }
    }
}

/// The lines of an artifact: a header, a line per draw, and a trailer.
pub open spec fn artifact_lines(
    header: Result<Json, Fault>,
    item: spec_fn(int) -> Result<Json, Fault>,
    n: nat,
    trailer: Json,
) -> Result<Seq<Seq<char>>, Fault> {
    match line_of(header) {
        Err(fault) => Err(fault),
        Ok(first) => match drawn_lines(item, n) {
            Err(fault) => Err(fault),
            Ok(draws) => match rendered(trailer) {
                Err(fault) => Err(fault),
                Ok(last) => Ok(seq![first] + draws + seq![last]),
            },
        },
    }
}

/// One failing draw fails the lines.
pub proof fn lemma_drawn_fail(item: spec_fn(int) -> Result<Json, Fault>, m: nat, n: nat)
    requires
        m <= n,
        drawn_lines(item, m) is Err,
    ensures
        drawn_lines(item, n) == drawn_lines(item, m),
    decreases n - m,
{
    if m < n {
        lemma_drawn_fail(item, m, (n - 1) as nat);
    }
}

/// A draw of a prior-predictive run as JSON.
pub open spec fn prior_draw_json(run: RunModel, shared: PriorShared, index: int) -> Result<Json, Fault> {
    match values_fields(
        run.sites,
        run.draws[index],
        "prior-predictive"@,
        both(run.sites, run.draws[index]),
    ) {
        Err(fault) => Err(fault),
        Ok(values) => Ok(Json::Object(prior_draw(index, run.sites, shared, values))),
    }
}

/// The lines of a prior-predictive run.
pub open spec fn prior_lines(run: RunModel, shared: PriorShared) -> Result<Seq<Seq<char>>, Fault> {
    artifact_lines(
        prior_header_json(run.sites, shared),
        |i: int| prior_draw_json(run, shared, i),
        run.draws.len(),
        trailer_json(prior_trailer(run.sites, shared)),
    )
}

/// Renders a prior-predictive run as lines.
pub fn prior_run_lines(
    run: &PriorPredictiveRun,
    settings: &PriorPredictiveSettings,
    seed: u64,
    declared_data: &Vec<(String, DataValue)>,
) -> (r: Result<Vec<String>, Error>)
    requires
        sound_records(run@.sites),
        all_filled(data_views(declared_data@)),
    ensures
        lines_outcome(r) == prior_lines(
            run@,
            PriorShared { draws: settings.num_draws, seed, data: data_views(declared_data@) },
        ),
{
    let ghost shared = PriorShared {
        draws: settings.num_draws,
        seed,
        data: data_views(declared_data@),
    };
    let ghost content = run@;
    let ghost count = run@.draws.len();
    let ghost item = |i: int| prior_draw_json(content, shared, i);
    assert(count == run.draws@.len());
    let header: Value = header_value(&run.sites, settings, seed, declared_data)?;
    let first: String = render(&header)?;
    let ghost begun = first@;
    let mut lines: Vec<String> = Vec::new();
    lines.push(first);
    let ghost mut made: Seq<Seq<char>> = Seq::empty();
    assert(text_views(lines@) =~= seq![begun] + made);
    let mut i: usize = 0;
    while i < run.draws.len()
        invariant
            i <= run.draws.len(),
            content == run@,
            count == run.draws@.len(),
            content.draws.len() == count,
            shared == (PriorShared {
                draws: settings.num_draws,
                seed,
                data: data_views(declared_data@),
            }),
            item == (|i: int| prior_draw_json(content, shared, i)),
            line_of(prior_header_json(content.sites, shared)) == Ok::<Seq<char>, Fault>(begun),
            drawn_lines(item, i as nat) == Ok::<Seq<Seq<char>>, Fault>(made),
            text_views(lines@) == seq![begun] + made,
        decreases run.draws.len() - i,
    {
        let ghost n = (i + 1) as nat;
        proof {
            assert(content.draws[n - 1] == run.draws@[i as int]@);
            assert(item(n - 1) == prior_draw_json(content, shared, n - 1));
            if drawn_lines(item, n) is Err {
                lemma_drawn_fail(item, n, count);
            }
        }
        let fields: Fields = draw_fields(&run.sites, &run.draws[i].values, "prior-predictive")?;
        let value: Value = prior_draw_value(
            i,
            &run.sites,
            fields,
            settings,
            seed,
            declared_data,
        );
        let line: String = render(&value)?;
        let ghost text = line@;
        let ghost before = lines@;
        lines.push(line);
        proof {
            assert(text_views(lines@) =~= text_views(before).push(text));
            assert(seq![begun] + made.push(text) =~= (seq![begun] + made).push(text));
            made = made.push(text);
        }
        i += 1;
    }
    let trailer: Value = trailer_value(
        prior_trailer_fields(&run.sites, settings, seed, declared_data),
    );
    let last: String = render(&trailer)?;
    let ghost tail = last@;
    lines.push(last);
    assert(text_views(lines@) =~= seq![begun] + made + seq![tail]);
    Ok(lines)
}

/// The lines that a simulation comes to.
pub open spec fn prior_output(run: Result<RunModel, Fault>, shared: PriorShared) -> Result<
    Seq<Seq<char>>,
    Fault,
> {
    match run {
        Err(fault) => Err(fault),
        Ok(found) => prior_lines(found, shared),
    }
}

/// Whether a prior-predictive artifact can come to those lines.
pub open spec fn prior_written<A: Arithmetic, N: Randomness>(
    ops: &A,
    rand: &N,
    m: MetaModel,
    shared: PriorShared,
    out: Result<Seq<Seq<char>>, Fault>,
) -> bool {
    if seed_fault(shared.seed, "prior-predictive artifact"@) is Some {
        out == Err::<Seq<Seq<char>>, Fault>(
            seed_fault(shared.seed, "prior-predictive artifact"@)->0,
        )
    } else if count_fault(shared.draws, "prior-predictive artifact"@) is Some {
        out == Err::<Seq<Seq<char>>, Fault>(
            count_fault(shared.draws, "prior-predictive artifact"@)->0,
        )
    } else {
        exists|run: Result<RunModel, Fault>| #[trigger]
            prior_simulated(ops, rand, m, shared.data, shared.draws as nat, shared.seed, run) && out
                == prior_output(run, shared)
    }
}

/// Simulates a prior-predictive run and renders it as lines.
pub fn prior_predictive_ndjson_lines<A: Arithmetic, N: Randomness>(
    meta: &ModelMeta,
    data: Vec<(String, DataValue)>,
    settings: &PriorPredictiveSettings,
    seed: u64,
    ops: &A,
    rand: &N,
) -> (r: Result<Vec<String>, Error>)
    requires
        ops.reliable(),
        rand.ready(),
        all_filled(data_views(data@)),
    ensures
        prior_written(
            ops,
            rand,
            meta@,
            PriorShared { draws: settings.num_draws, seed, data: data_views(data@) },
            lines_outcome(r),
        ),
{
    let ghost shared = PriorShared { draws: settings.num_draws, seed, data: data_views(data@) };
    validate_reportable_seed(seed, "prior-predictive artifact")?;
    validate_reportable_draw_count(settings.num_draws, "prior-predictive artifact")?;
    let declared: Vec<(String, DataValue)> = copy_data(&data);
    let run: Result<PriorPredictiveRun, Error> = simulate_prior_predictive(
        meta,
        data,
        settings,
        seed,
        ops,
        rand,
    );
    let ghost kept = outcome(run);
    assert(prior_simulated(
        ops,
        rand,
        meta@,
        shared.data,
        shared.draws as nat,
        shared.seed,
        kept,
    ));
    match run {
        Err(error) => Err(error),
        Ok(found) => prior_run_lines(&found, settings, seed, &declared),
    }
}

} // verus!
