//! Laws of the snapshot records: what is written is read back, and what is read is valid.

use vstd::prelude::*;

use crate::error::{ErrorKind, Fault};
use crate::identity::{lemma_names_still_differ, names_differ};
use crate::json::{field, field_from, Json};
use crate::text::bytes_of;

use super::fields::{
    field_complaint, missing_complaint, named_before, object_complaint, valid_identifier,
};
use super::identity::{framed_all, law_framing_is_injective, valid_digest, RECIPE_DOMAIN};
use super::ledger::{
    decision_fields, decision_json, decision_kind_text, evidence_fields, evidence_json, execution_fields,
    execution_json, input_fields, inputs_json, outcome_text, parsed_cites, parsed_decision, parsed_evidence,
    parsed_execution, parsed_inputs, parsed_source, source_fields, source_json, status_text, texts_json,
    valid_decision, valid_evidence, valid_execution, valid_inputs, valid_source, DecisionModel, EvidenceModel,
    ExecutionModel, InputsModel, SourceModel,
};
use super::recipe::{
    made_recipe, needs_fit, normal_settings, operation_text, parsed_recipe, recipe_fields, recipe_identity,
    recipe_input_fields, recipe_inputs_json, recipe_json, recipe_sha256, sample_fields, sample_json, seed_json,
    valid_sample, Operation, RecipeModel, SampleModel,
};
use super::records::{
    engine_fields, engine_json, kind_text, lemma_kind_text_injective, parsed_engine, parsed_kind, parsed_ref,
    ref_fields, ref_json, valid_engine, valid_ref, ArtifactKind, EngineModel, RefModel,
};

verus! {

/// No name occurs twice.
pub open spec fn distinct(names: Seq<Seq<char>>) -> bool {
    forall|i: int, j: int| 0 <= i < j < names.len() ==> #[trigger] names[i] != #[trigger] names[j]
}

/// The fields of an object carry exactly these names, in this order.
pub open spec fn spells(entries: Seq<(Seq<char>, Json)>, names: Seq<Seq<char>>) -> bool {
    entries.len() == names.len() && forall|i: int|
        0 <= i < names.len() ==> (#[trigger] entries[i]).0 == names[i]
}

proof fn lemma_no_field_complaint(
    entries: Seq<(Seq<char>, Json)>,
    context: Seq<char>,
    names: Seq<Seq<char>>,
    i: int,
)
    requires
        spells(entries, names),
        distinct(names),
        0 <= i <= names.len(),
    ensures
        field_complaint(entries, context, names, i) is None,
    decreases names.len() - i,
{
    if i < names.len() {
        assert(entries[i].0 == names[i]);
        assert(!named_before(entries, entries[i].0, i)) by {
            if named_before(entries, entries[i].0, i) {
                let j = choose|j: int| 0 <= j < i && (#[trigger] entries[j]).0 == entries[i].0;
                assert(names[j] != names[i]);
            }
        }
        lemma_no_field_complaint(entries, context, names, i + 1);
    }
}

proof fn lemma_no_missing_complaint(
    entries: Seq<(Seq<char>, Json)>,
    context: Seq<char>,
    names: Seq<Seq<char>>,
    i: int,
)
    requires
        spells(entries, names),
        0 <= i <= names.len(),
    ensures
        missing_complaint(entries, context, names, i) is None,
    decreases names.len() - i,
{
    if i < names.len() {
        assert(entries[i].0 == names[i]);
        lemma_no_missing_complaint(entries, context, names, i + 1);
    }
}

proof fn lemma_field_at(entries: Seq<(Seq<char>, Json)>, names: Seq<Seq<char>>, from: int, i: int)
    requires
        spells(entries, names),
        distinct(names),
        0 <= from <= i < names.len(),
    ensures
        field_from(entries, names[i], from) == Some(entries[i].1),
    decreases i - from,
{
    assert(entries[from].0 == names[from]);
    if from < i {
        assert(names[from] != names[i]);
        lemma_field_at(entries, names, from + 1, i);
    }
}

/// An object with exactly the wanted fields is accepted, and each field is found.
pub proof fn lemma_exact_object(entries: Seq<(Seq<char>, Json)>, names: Seq<Seq<char>>)
    requires
        spells(entries, names),
        distinct(names),
    ensures
        forall|context: Seq<char>| #[trigger]
            object_complaint(Json::Object(entries), context, names, names) is None,
        forall|i: int|
            0 <= i < names.len() ==> #[trigger] field(Json::Object(entries), names[i]) == Some(
                entries[i].1,
            ),
{
    assert forall|context: Seq<char>| #[trigger]
        object_complaint(Json::Object(entries), context, names, names) is None by {
        lemma_no_field_complaint(entries, context, names, 0);
        lemma_no_missing_complaint(entries, context, names, 0);
    }
    assert forall|i: int| 0 <= i < names.len() implies #[trigger] field(
        Json::Object(entries),
        names[i],
    ) == Some(entries[i].1) by {
        lemma_field_at(entries, names, 0, i);
    }
}

proof fn lemma_ref_fields()
    ensures
        distinct(ref_fields()),
{
    reveal_strlit("sha256");
    reveal_strlit("bytes");
    reveal_strlit("kind");
    reveal_strlit("format");
    assert("sha256"@.len() == 6 && "bytes"@.len() == 5 && "kind"@.len() == 4);
    assert("format"@.len() == 6 && "format"@[0] == 'f' && "sha256"@[0] == 's');
}

/// A valid reference is read back from its document form.
pub proof fn law_ref_round_trip(m: RefModel, context: Seq<char>)
    requires
        valid_ref(m),
    ensures
        parsed_ref(ref_json(m), context) == Ok::<RefModel, Fault>(m),
{
    let names = ref_fields();
    let entries = ref_json(m)->Object_0;
    lemma_ref_fields();
    assert(spells(entries, names));
    lemma_exact_object(entries, names);
    assert(names[0] == "sha256"@ && names[1] == "bytes"@ && names[2] == "kind"@ && names[3]
        == "format"@);
    assert(field(ref_json(m), "sha256"@) == Some(Json::Str(m.sha256)));
    assert(field(ref_json(m), "bytes"@) == Some(Json::Int(m.bytes as i64)));
    assert(field(ref_json(m), "kind"@) == Some(Json::Str(kind_text(m.kind))));
    assert(field(ref_json(m), "format"@) == Some(Json::Str(m.format)));
    assert(parsed_kind(kind_text(m.kind), context) == Ok::<ArtifactKind, Fault>(m.kind)) by {
        let chosen = choose|kind: ArtifactKind| #[trigger] kind_text(kind) == kind_text(m.kind);
        lemma_kind_text_injective(chosen, m.kind);
    }
}

/// A reference that was read is valid.
pub proof fn law_read_ref_is_valid(v: Json, context: Seq<char>)
    requires
        parsed_ref(v, context) is Ok,
    ensures
        valid_ref(parsed_ref(v, context)->Ok_0),
{
}

proof fn lemma_engine_fields()
    ensures
        distinct(engine_fields()),
{
    reveal_strlit("binary");
    reveal_strlit("capabilities");
    reveal_strlit("target");
    reveal_strlit("profile");
    assert("binary"@.len() == 6 && "capabilities"@.len() == 12 && "profile"@.len() == 7);
    assert("target"@.len() == 6 && "target"@[0] == 't' && "binary"@[0] == 'b');
}

/// A valid engine identity is read back from its document form.
pub proof fn law_engine_round_trip(m: EngineModel, context: Seq<char>)
    requires
        valid_engine(m),
    ensures
        parsed_engine(engine_json(m), context) == Ok::<EngineModel, Fault>(m),
{
    let names = engine_fields();
    let entries = engine_json(m)->Object_0;
    lemma_engine_fields();
    assert(spells(entries, names));
    lemma_exact_object(entries, names);
    assert(names[0] == "binary"@ && names[1] == "capabilities"@ && names[2] == "target"@ && names[3]
        == "profile"@);
    assert(field(engine_json(m), "binary"@) == Some(ref_json(m.binary)));
    assert(field(engine_json(m), "capabilities"@) == Some(ref_json(m.capabilities)));
    assert(field(engine_json(m), "target"@) == Some(Json::Str(m.target)));
    assert(field(engine_json(m), "profile"@) == Some(Json::Str(m.profile)));
    law_ref_round_trip(m.binary, context + ".binary"@);
    law_ref_round_trip(m.capabilities, context + ".capabilities"@);
}

/// An engine identity that was read is valid.
pub proof fn law_read_engine_is_valid(v: Json, context: Seq<char>)
    requires
        parsed_engine(v, context) is Ok,
    ensures
        valid_engine(parsed_engine(v, context)->Ok_0),
{
    law_read_ref_is_valid(field(v, "binary"@)->0, context + ".binary"@);
    law_read_ref_is_valid(field(v, "capabilities"@)->0, context + ".capabilities"@);
}

proof fn lemma_sample_fields()
    ensures
        distinct(sample_fields()),
{
    reveal_strlit("chains");
    reveal_strlit("warmup");
    reveal_strlit("draws");
    reveal_strlit("max_treedepth");
    reveal_strlit("target_accept");
    reveal_strlit("initial_step_size");
    reveal_strlit("seed");
    assert("chains"@.len() == 6 && "warmup"@.len() == 6 && "draws"@.len() == 5);
    assert("max_treedepth"@.len() == 13 && "target_accept"@.len() == 13);
    assert("initial_step_size"@.len() == 17 && "seed"@.len() == 4);
    assert("chains"@[0] == 'c' && "warmup"@[0] == 'w');
    assert("max_treedepth"@[0] == 'm' && "target_accept"@[0] == 't');
}

/// Settings in normal form, for an operation.
pub open spec fn normal(operation: Operation, settings: Json) -> bool {
    match operation {
        Operation::Sample => exists|m: SampleModel|
            #[trigger] valid_sample(m) && settings == sample_json(m),
        Operation::PosteriorCheck => exists|seed: i64|
            seed >= 0 && settings == #[trigger] seed_json(seed),
        _ => settings == Json::Object(Seq::empty()),
    }
}

/// Normalizing settings gives settings in normal form.
pub proof fn law_normalizing_gives_normal_form(operation: Operation, v: Json, context: Seq<char>)
    requires
        normal_settings(operation, v, context) is Ok,
    ensures
        normal(operation, normal_settings(operation, v, context)->Ok_0),
{
    let out = normal_settings(operation, v, context)->Ok_0;
    match operation {
        Operation::Sample => {
            let m = SampleModel {
                chains: out->Object_0[0].1->Int_0,
                warmup: out->Object_0[1].1->Int_0,
                draws: out->Object_0[2].1->Int_0,
                max_treedepth: out->Object_0[3].1->Int_0,
                target_accept: out->Object_0[4].1->Float_0,
                initial_step_size: out->Object_0[5].1->Float_0,
                seed: out->Object_0[6].1->Int_0,
            };
            assert(out == sample_json(m));
            assert(valid_sample(m));
        },
        Operation::PosteriorCheck => {
            let seed = out->Object_0[0].1->Int_0;
            assert(out == seed_json(seed));
        },
        _ => {},
    }
}

/// Settings in normal form stay as they are: normalizing twice is normalizing once.
pub proof fn law_normal_form_is_kept(operation: Operation, settings: Json, context: Seq<char>)
    requires
        normal(operation, settings),
    ensures
        normal_settings(operation, settings, context) == Ok::<Json, Fault>(settings),
{
    match operation {
        Operation::Sample => {
            let m = choose|m: SampleModel| #[trigger] valid_sample(m) && settings == sample_json(m);
            let names = sample_fields();
            let entries = settings->Object_0;
            lemma_sample_fields();
            assert(spells(entries, names));
            lemma_exact_object(entries, names);
            assert(names[0] == "chains"@ && names[1] == "warmup"@ && names[2] == "draws"@ && names[3]
                == "max_treedepth"@);
            assert(names[4] == "target_accept"@ && names[5] == "initial_step_size"@ && names[6]
                == "seed"@);
            assert(field(settings, "chains"@) == Some(Json::Int(m.chains)));
            assert(field(settings, "warmup"@) == Some(Json::Int(m.warmup)));
            assert(field(settings, "draws"@) == Some(Json::Int(m.draws)));
            assert(field(settings, "max_treedepth"@) == Some(Json::Int(m.max_treedepth)));
            assert(field(settings, "target_accept"@) == Some(Json::Float(m.target_accept)));
            assert(field(settings, "initial_step_size"@) == Some(Json::Float(m.initial_step_size)));
            assert(field(settings, "seed"@) == Some(Json::Int(m.seed)));
        },
        Operation::PosteriorCheck => {
            let seed = choose|seed: i64| seed >= 0 && settings == #[trigger] seed_json(seed);
            let names = seq!["seed"@];
            let entries = settings->Object_0;
            assert(spells(entries, names));
            assert(distinct(names));
            lemma_exact_object(entries, names);
            assert(names[0] == "seed"@);
            assert(field(settings, "seed"@) == Some(Json::Int(seed)));
        },
        _ => {
            let none = Seq::<(Seq<char>, Json)>::empty();
            let names = Seq::<Seq<char>>::empty();
            assert(spells(none, names));
            assert(distinct(names));
            lemma_exact_object(none, names);
        },
    }
}

/// A recipe that a document can carry: its parts are valid, its settings are in normal form, and
/// its digest is that of its fields.
pub open spec fn valid_recipe(m: RecipeModel) -> bool {
    &&& m.sha256 == recipe_sha256(m)
    &&& valid_digest(m.sha256)
    &&& valid_parts(m)
}

/// A recipe whose parts are valid and whose settings are in normal form, whatever digest it bears.
pub open spec fn valid_parts(m: RecipeModel) -> bool {
    &&& valid_identifier(m.id)
    &&& valid_ref(m.model)
    &&& m.model.kind == ArtifactKind::ModelIr
    &&& valid_ref(m.data)
    &&& m.data.kind == ArtifactKind::Data
    &&& m.fit is Some <==> needs_fit(m.operation)
    &&& m.fit is Some ==> valid_ref(m.fit->0) && m.fit->0.kind == ArtifactKind::PosteriorDraws
    &&& valid_engine(m.engine)
    &&& normal(m.operation, m.settings)
}

proof fn lemma_recipe_fields()
    ensures
        distinct(recipe_fields()),
        distinct(recipe_input_fields()),
{
    reveal_strlit("id");
    reveal_strlit("sha256");
    reveal_strlit("operation");
    reveal_strlit("inputs");
    reveal_strlit("engine");
    reveal_strlit("settings");
    assert("id"@.len() == 2 && "sha256"@.len() == 6 && "operation"@.len() == 9);
    assert("inputs"@.len() == 6 && "engine"@.len() == 6 && "settings"@.len() == 8);
    assert("sha256"@[0] == 's' && "inputs"@[0] == 'i' && "engine"@[0] == 'e');
    reveal_strlit("model");
    reveal_strlit("data");
    reveal_strlit("fit");
    assert("model"@.len() == 5 && "data"@.len() == 4 && "fit"@.len() == 3);
}

proof fn lemma_operation_text(operation: Operation, context: Seq<char>)
    ensures
        super::recipe::parsed_operation(operation_text(operation), context) == Ok::<Operation, Fault>(
            operation,
        ),
{
    reveal_strlit("inspect");
    reveal_strlit("sample");
    reveal_strlit("diagnose");
    reveal_strlit("posterior-check");
    assert("inspect"@.len() == 7 && "sample"@.len() == 6 && "diagnose"@.len() == 8);
    assert("posterior-check"@.len() == 15);
}

proof fn lemma_recipe_inputs(m: RecipeModel, place: Seq<char>)
    requires
        valid_parts(m),
    ensures
        super::recipe::parsed_recipe_inputs(recipe_inputs_json(m), place) == Ok::<
            (RefModel, RefModel, Option<RefModel>),
            Fault,
        >((m.model, m.data, m.fit)),
{
    lemma_recipe_fields();
    let inputs = recipe_inputs_json(m);
    let parts = recipe_input_fields();
    assert(spells(inputs->Object_0, parts));
    lemma_exact_object(inputs->Object_0, parts);
    assert(parts[0] == "model"@ && parts[1] == "data"@ && parts[2] == "fit"@);
    assert(field(inputs, "model"@) == Some(ref_json(m.model)));
    assert(field(inputs, "data"@) == Some(ref_json(m.data)));
    law_ref_round_trip(m.model, place + ".model"@);
    law_ref_round_trip(m.data, place + ".data"@);
    assert(field(inputs, "fit"@) == Some(super::recipe::optional_ref_json(m.fit)));
    if m.fit is Some {
        law_ref_round_trip(m.fit->0, place + ".fit"@);
    }
}

proof fn lemma_made_again(m: RecipeModel)
    requires
        valid_recipe(m),
    ensures
        made_recipe(m.id, m.operation, m.model, m.data, m.fit, m.engine, m.settings) == Ok::<
            RecipeModel,
            Fault,
        >(m),
{
    law_normal_form_is_kept(m.operation, m.settings, "recipe settings"@);
    let unnamed = RecipeModel { sha256: Seq::empty(), ..m };
    assert(recipe_identity(unnamed) == recipe_identity(m));
}

/// A valid recipe is read back from its document form.
pub proof fn law_recipe_round_trip(m: RecipeModel, context: Seq<char>)
    requires
        valid_recipe(m),
    ensures
        parsed_recipe(recipe_json(m), context) == Ok::<RecipeModel, Fault>(m),
{
    let v = recipe_json(m);
    let names = recipe_fields();
    lemma_recipe_fields();
    assert(spells(v->Object_0, names));
    lemma_exact_object(v->Object_0, names);
    assert(names[0] == "id"@ && names[1] == "sha256"@ && names[2] == "operation"@ && names[3]
        == "inputs"@ && names[4] == "engine"@ && names[5] == "settings"@);
    assert(field(v, "id"@) == Some(Json::Str(m.id)));
    assert(field(v, "sha256"@) == Some(Json::Str(m.sha256)));
    assert(field(v, "operation"@) == Some(Json::Str(operation_text(m.operation))));
    assert(field(v, "inputs"@) == Some(recipe_inputs_json(m)));
    assert(field(v, "engine"@) == Some(engine_json(m.engine)));
    assert(field(v, "settings"@) == Some(m.settings));
    lemma_operation_text(m.operation, context);
    lemma_recipe_inputs(m, context + ".inputs"@);
    law_engine_round_trip(m.engine, context + ".engine"@);
    lemma_made_again(m);
    assert(super::recipe::confirmed_recipe(v, context, m.id, m.sha256, m.operation) == Ok::<
        RecipeModel,
        Fault,
    >(m));
}

/// A recipe is refused as malformed whose digest is not that of its fields.
pub proof fn law_recipe_with_another_digest_is_refused(m: RecipeModel, context: Seq<char>)
    requires
        valid_parts(m),
        m.sha256 != recipe_sha256(m),
    ensures
        parsed_recipe(recipe_json(m), context) matches Err(fault) && fault.kind
            == ErrorKind::MalformedDocument,
{
    let v = recipe_json(m);
    let names = recipe_fields();
    lemma_recipe_fields();
    assert(spells(v->Object_0, names));
    lemma_exact_object(v->Object_0, names);
    assert(names[0] == "id"@ && names[1] == "sha256"@ && names[2] == "operation"@ && names[3]
        == "inputs"@ && names[4] == "engine"@ && names[5] == "settings"@);
    assert(field(v, "id"@) == Some(Json::Str(m.id)));
    assert(field(v, "sha256"@) == Some(Json::Str(m.sha256)));
    assert(field(v, "operation"@) == Some(Json::Str(operation_text(m.operation))));
    assert(field(v, "inputs"@) == Some(recipe_inputs_json(m)));
    assert(field(v, "engine"@) == Some(engine_json(m.engine)));
    assert(field(v, "settings"@) == Some(m.settings));
    lemma_operation_text(m.operation, context);
    lemma_recipe_inputs(m, context + ".inputs"@);
    law_engine_round_trip(m.engine, context + ".engine"@);
    law_normal_form_is_kept(m.operation, m.settings, "recipe settings"@);
    let unnamed = RecipeModel { sha256: Seq::empty(), ..m };
    assert(recipe_identity(unnamed) == recipe_identity(m));
    let made = made_recipe(m.id, m.operation, m.model, m.data, m.fit, m.engine, m.settings);
    assert(made is Ok && made->Ok_0.sha256 == recipe_sha256(m));
    assert(super::recipe::confirmed_recipe(v, context, m.id, m.sha256, m.operation) is Err);
}

/// A recipe that was made of valid references and a valid engine is valid.
pub proof fn law_made_recipe_is_valid(
    id: Seq<char>,
    operation: Operation,
    model: RefModel,
    data: RefModel,
    fit: Option<RefModel>,
    engine: EngineModel,
    settings: Json,
    m: RecipeModel,
)
    requires
        made_recipe(id, operation, model, data, fit, engine, settings) == Ok::<RecipeModel, Fault>(m),
        valid_ref(model),
        valid_ref(data),
        fit is Some ==> valid_ref(fit->0),
        valid_engine(engine),
        valid_digest(m.sha256),
    ensures
        valid_recipe(m),
{
    law_normalizing_gives_normal_form(operation, settings, "recipe settings"@);
    let unnamed = RecipeModel { sha256: Seq::empty(), ..m };
    assert(recipe_identity(unnamed) == recipe_identity(m));
}

/// A recipe that was read is valid.
pub proof fn law_read_recipe_is_valid(v: Json, context: Seq<char>)
    requires
        parsed_recipe(v, context) is Ok,
    ensures
        valid_recipe(parsed_recipe(v, context)->Ok_0),
{
    let m = parsed_recipe(v, context)->Ok_0;
    let inputs = field(v, "inputs"@)->0;
    let place = context + ".inputs"@;
    law_read_ref_is_valid(field(inputs, "model"@)->0, place + ".model"@);
    law_read_ref_is_valid(field(inputs, "data"@)->0, place + ".data"@);
    if m.fit is Some {
        law_read_ref_is_valid(field(inputs, "fit"@)->0, place + ".fit"@);
    }
    law_read_engine_is_valid(field(v, "engine"@)->0, context + ".engine"@);
    law_normalizing_gives_normal_form(
        m.operation,
        field(v, "settings"@)->0,
        "recipe settings"@,
    );
    let unnamed = RecipeModel { sha256: Seq::empty(), ..m };
    assert(recipe_identity(unnamed) == recipe_identity(m));
}

/// The local name of a recipe plays no part in its identity.
pub proof fn law_recipe_identity_ignores_its_name(m: RecipeModel, id: Seq<char>)
    ensures
        recipe_sha256(RecipeModel { id, ..m }) == recipe_sha256(m),
{
    let renamed = RecipeModel { id, ..m };
    assert(recipe_identity(renamed) == recipe_identity(m));
}

proof fn lemma_fields_apart(
    entries: Seq<(Seq<char>, Json)>,
    context: Seq<char>,
    allowed: Seq<Seq<char>>,
    i: int,
)
    requires
        0 <= i <= entries.len(),
        field_complaint(entries, context, allowed, i) is None,
    ensures
        forall|j: int, k: int|
            0 <= j < k && i <= k < entries.len() ==> (#[trigger] entries[j]).0 != (
            #[trigger] entries[k]).0,
        forall|k: int| i <= k < entries.len() ==> allowed.contains((#[trigger] entries[k]).0),
    decreases entries.len() - i,
{
    if i < entries.len() {
        lemma_fields_apart(entries, context, allowed, i + 1);
        assert forall|j: int, k: int| 0 <= j < k && i <= k < entries.len() implies (
        #[trigger] entries[j]).0 != (#[trigger] entries[k]).0 by {
            if k == i && entries[j].0 == entries[k].0 {
                assert(named_before(entries, entries[i].0, i));
            }
        }
    }
}

proof fn lemma_apart_is_no_complaint(
    entries: Seq<(Seq<char>, Json)>,
    context: Seq<char>,
    allowed: Seq<Seq<char>>,
    i: int,
)
    requires
        0 <= i <= entries.len(),
        names_differ(entries),
        forall|k: int| 0 <= k < entries.len() ==> allowed.contains((#[trigger] entries[k]).0),
    ensures
        field_complaint(entries, context, allowed, i) is None,
    decreases entries.len() - i,
{
    if i < entries.len() {
        assert(!named_before(entries, entries[i].0, i)) by {
            if named_before(entries, entries[i].0, i) {
                let j = choose|j: int| 0 <= j < i && (#[trigger] entries[j]).0 == entries[i].0;
                assert(entries[j].0 != entries[i].0);
            }
        }
        assert(allowed.contains(entries[i].0));
        lemma_apart_is_no_complaint(entries, context, allowed, i + 1);
    }
}

proof fn lemma_still_nothing_missing(
    a: Seq<(Seq<char>, Json)>,
    b: Seq<(Seq<char>, Json)>,
    context: Seq<char>,
    required: Seq<Seq<char>>,
    i: int,
)
    requires
        0 <= i <= required.len(),
        a.to_multiset() == b.to_multiset(),
        missing_complaint(a, context, required, i) is None,
    ensures
        missing_complaint(b, context, required, i) is None,
    decreases required.len() - i,
{
    broadcast use vstd::seq_lib::group_to_multiset_ensures;

    if i < required.len() {
        let j = choose|j: int| 0 <= j < a.len() && (#[trigger] a[j]).0 == required[i];
        assert(a.contains(a[j]));
        assert(b.to_multiset().count(a[j]) > 0);
        assert(b.contains(a[j]));
        let k = choose|k: int| 0 <= k < b.len() && b[k] == a[j];
        assert(b[k].0 == required[i]);
        assert(named_before(b, required[i], b.len() as int));
        lemma_still_nothing_missing(a, b, context, required, i + 1);
    }
}

/// Where names differ, a field is found wherever it stands.
proof fn lemma_field_stands(entries: Seq<(Seq<char>, Json)>, k: int, from: int)
    requires
        names_differ(entries),
        0 <= from <= k < entries.len(),
    ensures
        field_from(entries, entries[k].0, from) == Some(entries[k].1),
    decreases k - from,
{
    if from < k {
        assert(entries[from].0 != entries[k].0);
        lemma_field_stands(entries, k, from + 1);
    }
}

proof fn lemma_field_unnamed(entries: Seq<(Seq<char>, Json)>, name: Seq<char>, from: int)
    requires
        0 <= from <= entries.len(),
        forall|k: int| 0 <= k < entries.len() ==> (#[trigger] entries[k]).0 != name,
    ensures
        field_from(entries, name, from) is None,
    decreases entries.len() - from,
{
    if from < entries.len() {
        lemma_field_unnamed(entries, name, from + 1);
    }
}

proof fn lemma_same_fields(
    a: Seq<(Seq<char>, Json)>,
    b: Seq<(Seq<char>, Json)>,
    name: Seq<char>,
)
    requires
        a.to_multiset() == b.to_multiset(),
        names_differ(a),
        names_differ(b),
    ensures
        field_from(a, name, 0) == field_from(b, name, 0),
{
    broadcast use vstd::seq_lib::group_to_multiset_ensures;

    if exists|k: int| 0 <= k < a.len() && (#[trigger] a[k]).0 == name {
        let k = choose|k: int| 0 <= k < a.len() && (#[trigger] a[k]).0 == name;
        assert(a.contains(a[k]));
        assert(b.to_multiset().count(a[k]) > 0);
        assert(b.contains(a[k]));
        let l = choose|l: int| 0 <= l < b.len() && b[l] == a[k];
        lemma_field_stands(a, k, 0);
        lemma_field_stands(b, l, 0);
    } else {
        assert forall|l: int| 0 <= l < b.len() implies (#[trigger] b[l]).0 != name by {
            assert(b.contains(b[l]));
            assert(a.to_multiset().count(b[l]) > 0);
            assert(a.contains(b[l]));
            let k = choose|k: int| 0 <= k < a.len() && a[k] == b[l];
            assert(a[k].0 != name);
        }
        lemma_field_unnamed(a, name, 0);
        lemma_field_unnamed(b, name, 0);
    }
}

proof fn lemma_complaint_ignores_order(
    a: Seq<(Seq<char>, Json)>,
    b: Seq<(Seq<char>, Json)>,
    context: Seq<char>,
    names: Seq<Seq<char>>,
)
    requires
        a.to_multiset() == b.to_multiset(),
        object_complaint(Json::Object(a), context, names, names) is None,
    ensures
        object_complaint(Json::Object(b), context, names, names) is None,
        forall|name: Seq<char>| #[trigger]
            field(Json::Object(a), name) == field(Json::Object(b), name),
{
    broadcast use vstd::seq_lib::group_to_multiset_ensures;

    lemma_fields_apart(a, context, names, 0);
    assert(names_differ(a));
    lemma_names_still_differ(a, b);
    assert forall|k: int| 0 <= k < b.len() implies names.contains((#[trigger] b[k]).0) by {
        assert(b.contains(b[k]));
        assert(a.to_multiset().count(b[k]) > 0);
        assert(a.contains(b[k]));
        let l = choose|l: int| 0 <= l < a.len() && a[l] == b[k];
        assert(names.contains(a[l].0));
    }
    lemma_apart_is_no_complaint(b, context, names, 0);
    lemma_still_nothing_missing(a, b, context, names, 0);
    assert forall|name: Seq<char>| #[trigger]
        field(Json::Object(a), name) == field(Json::Object(b), name) by {
        lemma_same_fields(a, b, name);
    }
}

/// The order in which settings are written does not matter: the same fields in another order have
/// the same normal form.
pub proof fn law_normal_form_ignores_field_order(
    operation: Operation,
    a: Seq<(Seq<char>, Json)>,
    b: Seq<(Seq<char>, Json)>,
    context: Seq<char>,
)
    requires
        a.to_multiset() == b.to_multiset(),
        normal_settings(operation, Json::Object(a), context) is Ok,
    ensures
        normal_settings(operation, Json::Object(b), context) == normal_settings(
            operation,
            Json::Object(a),
            context,
        ),
{
    let names = match operation {
        Operation::Sample => sample_fields(),
        Operation::PosteriorCheck => seq!["seed"@],
        _ => Seq::<Seq<char>>::empty(),
    };
    lemma_complaint_ignores_order(a, b, context, names);
    let left = Json::Object(a);
    let right = Json::Object(b);
    assert(field(left, "seed"@) == field(right, "seed"@));
    assert(field(left, "chains"@) == field(right, "chains"@));
    assert(field(left, "warmup"@) == field(right, "warmup"@));
    assert(field(left, "draws"@) == field(right, "draws"@));
    assert(field(left, "max_treedepth"@) == field(right, "max_treedepth"@));
    assert(field(left, "target_accept"@) == field(right, "target_accept"@));
    assert(field(left, "initial_step_size"@) == field(right, "initial_step_size"@));
}

/// Neither the local name of a recipe nor the order in which its settings are written plays a part
/// in its identity: recipes that are made of the same parts otherwise differ in the name alone.
pub proof fn law_recipe_identity_ignores_name_and_field_order(
    first: Seq<char>,
    second: Seq<char>,
    operation: Operation,
    model: RefModel,
    data: RefModel,
    fit: Option<RefModel>,
    engine: EngineModel,
    a: Seq<(Seq<char>, Json)>,
    b: Seq<(Seq<char>, Json)>,
    m: RecipeModel,
)
    requires
        a.to_multiset() == b.to_multiset(),
        made_recipe(first, operation, model, data, fit, engine, Json::Object(a)) == Ok::<
            RecipeModel,
            Fault,
        >(m),
        valid_identifier(second),
    ensures
        made_recipe(second, operation, model, data, fit, engine, Json::Object(b)) == Ok::<
            RecipeModel,
            Fault,
        >(RecipeModel { id: second, ..m }),
        recipe_sha256(RecipeModel { id: second, ..m }) == m.sha256,
{
    law_normal_form_ignores_field_order(operation, a, b, "recipe settings"@);
    let unnamed = RecipeModel { sha256: Seq::empty(), ..m };
    let other = RecipeModel { id: second, ..unnamed };
    let renamed = RecipeModel { id: second, ..m };
    assert(recipe_identity(other) == recipe_identity(unnamed));
    assert(recipe_identity(renamed) == recipe_identity(unnamed));
}

/// The hashed message of a recipe determines every field that bears on execution: recipes with
/// the same message have the same identity fields.
pub proof fn law_recipe_message_determines_its_fields(a: RecipeModel, b: RecipeModel)
    requires
        forall|i: int|
            0 <= i < recipe_identity(a).len() ==> (#[trigger] recipe_identity(a)[i]).len()
                <= u64::MAX,
        forall|i: int|
            0 <= i < recipe_identity(b).len() ==> (#[trigger] recipe_identity(b)[i]).len()
                <= u64::MAX,
        bytes_of(RECIPE_DOMAIN@) + framed_all(recipe_identity(a)) == bytes_of(RECIPE_DOMAIN@)
            + framed_all(recipe_identity(b)),
    ensures
        recipe_identity(a) == recipe_identity(b),
{
    let domain = bytes_of(RECIPE_DOMAIN@);
    let x = framed_all(recipe_identity(a));
    let y = framed_all(recipe_identity(b));
    assert((domain + x).skip(domain.len() as int) =~= x);
    assert((domain + y).skip(domain.len() as int) =~= y);
    law_framing_is_injective(recipe_identity(a), recipe_identity(b));
}

proof fn lemma_ledger_fields()
    ensures
        distinct(input_fields()),
        distinct(decision_fields()),
        distinct(execution_fields()),
        distinct(evidence_fields()),
        distinct(source_fields()),
{
    reveal_strlit("model");
    reveal_strlit("data");
    assert("model"@.len() == 5 && "data"@.len() == 4);
    reveal_strlit("id");
    reveal_strlit("parent");
    reveal_strlit("reason");
    reveal_strlit("cites");
    reveal_strlit("kind");
    reveal_strlit("inputs");
    assert("id"@.len() == 2 && "parent"@.len() == 6 && "reason"@.len() == 6);
    assert("cites"@.len() == 5 && "kind"@.len() == 4 && "inputs"@.len() == 6);
    assert("parent"@[0] == 'p' && "reason"@[0] == 'r' && "inputs"@[0] == 'i');
    reveal_strlit("recipe");
    reveal_strlit("recipe_sha256");
    reveal_strlit("outcome");
    reveal_strlit("output");
    reveal_strlit("error");
    assert("recipe"@.len() == 6 && "recipe_sha256"@.len() == 13 && "outcome"@.len() == 7);
    assert("output"@.len() == 6 && "error"@.len() == 5);
    assert("recipe"@[0] == 'r' && "output"@[0] == 'o');
    reveal_strlit("name");
    reveal_strlit("execution");
    reveal_strlit("status");
    assert("name"@.len() == 4 && "execution"@.len() == 9 && "status"@.len() == 6);
    reveal_strlit("snapshot_id");
    reveal_strlit("manifest");
    reveal_strlit("decision");
    assert("snapshot_id"@.len() == 11 && "manifest"@.len() == 8 && "decision"@.len() == 8);
    assert("manifest"@[0] == 'm' && "decision"@[0] == 'd');
}

/// A valid model/data pair is read back from its document form.
pub proof fn law_inputs_round_trip(m: InputsModel, context: Seq<char>, complaint: Seq<char>)
    requires
        valid_inputs(m),
    ensures
        parsed_inputs(inputs_json(m), context, complaint) == Ok::<InputsModel, Fault>(m),
{
    let v = inputs_json(m);
    let names = input_fields();
    lemma_ledger_fields();
    assert(spells(v->Object_0, names));
    lemma_exact_object(v->Object_0, names);
    assert(names[0] == "model"@ && names[1] == "data"@);
    assert(field(v, "model"@) == Some(ref_json(m.model)));
    assert(field(v, "data"@) == Some(ref_json(m.data)));
    law_ref_round_trip(m.model, context + ".model"@);
    law_ref_round_trip(m.data, context + ".data"@);
}

/// A model/data pair that was read is valid.
pub proof fn law_read_inputs_are_valid(v: Json, context: Seq<char>, complaint: Seq<char>)
    requires
        parsed_inputs(v, context, complaint) is Ok,
    ensures
        valid_inputs(parsed_inputs(v, context, complaint)->Ok_0),
{
    law_read_ref_is_valid(field(v, "model"@)->0, context + ".model"@);
    law_read_ref_is_valid(field(v, "data"@)->0, context + ".data"@);
}

proof fn lemma_cites_round_trip(cites: Seq<Seq<char>>, context: Seq<char>, n: nat)
    requires
        n <= cites.len(),
        forall|i: int| 0 <= i < cites.len() ==> valid_digest(#[trigger] cites[i]),
    ensures
        parsed_cites(texts_json(cites)->Array_0, context, n) == Ok::<Seq<Seq<char>>, Fault>(
            cites.take(n as int),
        ),
    decreases n,
{
    if n == 0 {
        assert(cites.take(0) =~= Seq::empty());
    } else {
        lemma_cites_round_trip(cites, context, (n - 1) as nat);
        assert(cites.take(n as int) =~= cites.take(n - 1).push(cites[n - 1]));
        assert(valid_digest(cites[n - 1]));
    }
}

proof fn lemma_read_cites(items: Seq<Json>, context: Seq<char>, n: nat)
    requires
        parsed_cites(items, context, n) is Ok,
    ensures
        forall|i: int|
            0 <= i < parsed_cites(items, context, n)->Ok_0.len() ==> valid_digest(
                #[trigger] parsed_cites(items, context, n)->Ok_0[i],
            ),
    decreases n,
{
    if n > 0 {
        lemma_read_cites(items, context, (n - 1) as nat);
    }
}

proof fn lemma_decision_kind_text(kind: super::ledger::DecisionKind, context: Seq<char>)
    ensures
        super::ledger::parsed_decision_kind(decision_kind_text(kind), context) == Ok::<
            super::ledger::DecisionKind,
            Fault,
        >(kind),
{
    reveal_strlit("note");
    reveal_strlit("agent_recommendation");
    reveal_strlit("human_approval");
    assert("note"@.len() == 4 && "agent_recommendation"@.len() == 20 && "human_approval"@.len() == 14);
}

/// A valid decision is read back from its document form.
pub proof fn law_decision_round_trip(m: DecisionModel, context: Seq<char>)
    requires
        valid_decision(m),
    ensures
        parsed_decision(decision_json(m), context) == Ok::<DecisionModel, Fault>(m),
{
    let v = decision_json(m);
    let names = decision_fields();
    lemma_ledger_fields();
    assert(spells(v->Object_0, names));
    lemma_exact_object(v->Object_0, names);
    assert(names[0] == "id"@ && names[1] == "parent"@ && names[2] == "reason"@ && names[3]
        == "cites"@ && names[4] == "kind"@ && names[5] == "inputs"@);
    assert(field(v, "id"@) == Some(Json::Str(m.id)));
    assert(field(v, "parent"@) == Some(super::ledger::optional_text_json(m.parent)));
    assert(field(v, "reason"@) == Some(Json::Str(m.reason)));
    assert(field(v, "cites"@) == Some(texts_json(m.cites)));
    assert(field(v, "kind"@) == Some(Json::Str(decision_kind_text(m.kind))));
    assert(field(v, "inputs"@) == Some(inputs_json(m.inputs)));
    lemma_cites_round_trip(m.cites, context, m.cites.len());
    assert(m.cites.take(m.cites.len() as int) =~= m.cites);
    lemma_decision_kind_text(m.kind, context);
    law_inputs_round_trip(
        m.inputs,
        context + ".inputs"@,
        context + ".inputs"@ + " must carry model_ir and data artifact references"@,
    );
    assert(super::ledger::parsed_parent(field(v, "parent"@)->0, context) == Ok::<
        Option<Seq<char>>,
        Fault,
    >(m.parent));
    assert(super::ledger::decision_tail(v, context, m.parent, m.cites) == Ok::<DecisionModel, Fault>(
        m,
    ));
}

/// A decision that was read is valid.
pub proof fn law_read_decision_is_valid(v: Json, context: Seq<char>)
    requires
        parsed_decision(v, context) is Ok,
    ensures
        valid_decision(parsed_decision(v, context)->Ok_0),
{
    let items = super::fields::array_field(v, "cites"@, context)->Ok_0;
    lemma_read_cites(items, context, items.len());
    law_read_inputs_are_valid(
        field(v, "inputs"@)->0,
        context + ".inputs"@,
        context + ".inputs"@ + " must carry model_ir and data artifact references"@,
    );
}

proof fn lemma_outcome_text(result: super::ledger::Outcome, context: Seq<char>)
    ensures
        super::ledger::parsed_outcome(outcome_text(result), context) == Ok::<
            super::ledger::Outcome,
            Fault,
        >(result),
{
    reveal_strlit("completed");
    reveal_strlit("failed");
    reveal_strlit("cancelled");
    reveal_strlit("unsupported");
    reveal_strlit("incomplete");
    assert("completed"@.len() == 9 && "failed"@.len() == 6 && "cancelled"@.len() == 9);
    assert("unsupported"@.len() == 11 && "incomplete"@.len() == 10);
    assert("completed"@[1] == 'o' && "cancelled"@[1] == 'a');
}

/// A valid execution is read back from its document form.
pub proof fn law_execution_round_trip(m: ExecutionModel, context: Seq<char>)
    requires
        valid_execution(m),
    ensures
        parsed_execution(execution_json(m), context) == Ok::<ExecutionModel, Fault>(m),
{
    let v = execution_json(m);
    let names = execution_fields();
    lemma_ledger_fields();
    assert(spells(v->Object_0, names));
    lemma_exact_object(v->Object_0, names);
    assert(names[0] == "id"@ && names[1] == "recipe"@ && names[2] == "recipe_sha256"@ && names[3]
        == "outcome"@ && names[4] == "output"@ && names[5] == "error"@);
    assert(field(v, "id"@) == Some(Json::Str(m.id)));
    assert(field(v, "recipe"@) == Some(Json::Str(m.recipe)));
    assert(field(v, "recipe_sha256"@) == Some(Json::Str(m.recipe_sha256)));
    assert(field(v, "outcome"@) == Some(Json::Str(outcome_text(m.outcome))));
    assert(field(v, "output"@) == Some(super::recipe::optional_ref_json(m.output)));
    assert(field(v, "error"@) == Some(super::ledger::optional_text_json(m.error)));
    lemma_outcome_text(m.outcome, context);
    if m.output is Some {
        law_ref_round_trip(m.output->0, context + ".output"@);
    }
    assert(super::ledger::execution_tail(v, context, m.outcome, m.output, m.error) == Ok::<
        ExecutionModel,
        Fault,
    >(m));
}

/// An execution that was read is valid.
pub proof fn law_read_execution_is_valid(v: Json, context: Seq<char>)
    requires
        parsed_execution(v, context) is Ok,
    ensures
        valid_execution(parsed_execution(v, context)->Ok_0),
{
    if parsed_execution(v, context)->Ok_0.output is Some {
        law_read_ref_is_valid(field(v, "output"@)->0, context + ".output"@);
    }
}

/// A valid evidence selection is read back from its document form.
pub proof fn law_evidence_round_trip(m: EvidenceModel, context: Seq<char>)
    requires
        valid_evidence(m),
    ensures
        parsed_evidence(evidence_json(m), context) == Ok::<EvidenceModel, Fault>(m),
{
    let v = evidence_json(m);
    let names = evidence_fields();
    lemma_ledger_fields();
    assert(spells(v->Object_0, names));
    lemma_exact_object(v->Object_0, names);
    assert(names[0] == "name"@ && names[1] == "execution"@ && names[2] == "status"@);
    assert(field(v, "name"@) == Some(Json::Str(m.name)));
    assert(field(v, "execution"@) == Some(Json::Str(m.execution)));
    assert(field(v, "status"@) == Some(Json::Str(status_text(m.status))));
    reveal_strlit("current");
    reveal_strlit("historical");
    assert("current"@.len() == 7 && "historical"@.len() == 10);
}

/// An evidence selection that was read is valid.
pub proof fn law_read_evidence_is_valid(v: Json, context: Seq<char>)
    requires
        parsed_evidence(v, context) is Ok,
    ensures
        valid_evidence(parsed_evidence(v, context)->Ok_0),
{
}

/// A valid source is read back from its document form.
pub proof fn law_source_round_trip(m: SourceModel, context: Seq<char>)
    requires
        valid_source(m),
    ensures
        parsed_source(source_json(m), context) == Ok::<SourceModel, Fault>(m),
{
    let v = source_json(m);
    let names = source_fields();
    lemma_ledger_fields();
    assert(spells(v->Object_0, names));
    lemma_exact_object(v->Object_0, names);
    assert(names[0] == "snapshot_id"@ && names[1] == "manifest"@ && names[2] == "decision"@);
    assert(field(v, "snapshot_id"@) == Some(Json::Str(m.snapshot_id)));
    assert(field(v, "manifest"@) == Some(ref_json(m.manifest)));
    assert(field(v, "decision"@) == Some(Json::Str(m.decision)));
    law_ref_round_trip(m.manifest, context + ".manifest"@);
}

/// A source that was read is valid.
pub proof fn law_read_source_is_valid(v: Json, context: Seq<char>)
    requires
        parsed_source(v, context) is Ok,
    ensures
        valid_source(parsed_source(v, context)->Ok_0),
{
    law_read_ref_is_valid(field(v, "manifest"@)->0, context + ".manifest"@);
}

} // verus!
