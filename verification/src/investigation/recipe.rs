//! Recipes: what to run, on which inputs, with which settings, and the identity of all that.

use vstd::prelude::*;

use crate::error::{malformed, Error};
#[allow(unused_imports)]
use crate::error::{malformed_fault, outcome, Fault};
use crate::json;
use crate::json::Value;
#[allow(unused_imports)]
use crate::json::{entries_view, field, group_json_views, integer_of, json_text, number_of, Json};
use crate::number::{less_than, Number, ONE_BITS};
#[allow(unused_imports)]
use crate::number::{finite, less, NumberModel};
use crate::text;
#[allow(unused_imports)]
use crate::text::{be_bytes, bytes_of, debug_text};

use super::fields::{checked_object, required_identifier, required_str, validate_identifier};
#[allow(unused_imports)]
use super::fields::{
    identifier_field, lemma_required_field, names_view, object_complaint, text_field, valid_identifier,
};
use super::identity::{frame, recipe_digest, Digest};
#[allow(unused_imports)]
use super::identity::{digest_text, framed, framed_all, valid_digest, RECIPE_DOMAIN};
use super::records::{required_digest, required_ref, ArtifactKind, ArtifactRef, EngineIdentity};
#[allow(unused_imports)]
use super::records::{
    digest_field, engine_json, kind_text, parsed_engine, plain, ref_field, ref_json, EngineModel, RefModel,
};

verus! {

/// What a recipe runs.
#[derive(Debug, Clone, Copy, PartialEq, Eq, Hash, Structural)]
pub enum Operation {
    Inspect,
    Sample,
    Diagnose,
    PosteriorCheck,
}

/// The name of an operation in documents.
pub open spec fn operation_text(operation: Operation) -> Seq<char> {
    match operation {
        Operation::Inspect => "inspect"@,
        Operation::Sample => "sample"@,
        Operation::Diagnose => "diagnose"@,
        Operation::PosteriorCheck => "posterior-check"@,
    }
}

/// What reading the name of an operation gives.
pub open spec fn parsed_operation(value: Seq<char>, context: Seq<char>) -> Result<Operation, Fault> {
    if value == "inspect"@ {
        Ok(Operation::Inspect)
    } else if value == "sample"@ {
        Ok(Operation::Sample)
    } else if value == "diagnose"@ {
        Ok(Operation::Diagnose)
    } else if value == "posterior-check"@ {
        Ok(Operation::PosteriorCheck)
    } else {
        Err(
            malformed_fault(
                context + " operation "@ + debug_text(value)
                    + " is unsupported; use inspect, sample, diagnose, or posterior-check"@,
            ),
        )
    }
}

/// The kind of artifact that a completed execution of an operation puts out.
pub open spec fn output_kind_of(operation: Operation) -> ArtifactKind {
    match operation {
        Operation::Inspect => ArtifactKind::Inspection,
        Operation::Sample => ArtifactKind::PosteriorDraws,
        Operation::Diagnose => ArtifactKind::Diagnostics,
        Operation::PosteriorCheck => ArtifactKind::PosteriorCheck,
    }
}

/// Whether an operation reads posterior draws.
pub open spec fn needs_fit(operation: Operation) -> bool {
    operation == Operation::Diagnose || operation == Operation::PosteriorCheck
}

impl Operation {
    pub fn as_str(self) -> (r: &'static str)
        ensures
            r@ == operation_text(self),
    {
        match self {
            Operation::Inspect => "inspect",
            Operation::Sample => "sample",
            Operation::Diagnose => "diagnose",
            Operation::PosteriorCheck => "posterior-check",
        }
    }

    pub fn parse(value: &str, context: &str) -> (r: Result<Operation, Error>)
        ensures
            plain(r) == parsed_operation(value@, context@),
    {
        if text::same(value, "inspect") {
            Ok(Operation::Inspect)
        } else if text::same(value, "sample") {
            Ok(Operation::Sample)
        } else if text::same(value, "diagnose") {
            Ok(Operation::Diagnose)
        } else if text::same(value, "posterior-check") {
            Ok(Operation::PosteriorCheck)
        } else {
            let shown: String = text::quoted(value);
            Err(
                malformed(
                    text::cat4(
                        context,
                        " operation ",
                        shown.as_str(),
                        " is unsupported; use inspect, sample, diagnose, or posterior-check",
                    ),
                ),
            )
        }
    }

    pub fn output_kind(self) -> (r: ArtifactKind)
        ensures
            r == output_kind_of(self),
    {
        match self {
            Operation::Inspect => ArtifactKind::Inspection,
            Operation::Sample => ArtifactKind::PosteriorDraws,
            Operation::Diagnose => ArtifactKind::Diagnostics,
            Operation::PosteriorCheck => ArtifactKind::PosteriorCheck,
        }
    }
}

/// Reading an integer setting of at least `least`.
pub open spec fn integer_setting(
    v: Json,
    name: Seq<char>,
    context: Seq<char>,
    least: int,
    complaint: Seq<char>,
) -> Result<i64, Fault> {
    match integer_of(field(v, name)) {
        None => Err(malformed_fault(context + "."@ + name + " must be an integer"@)),
        Some(n) => if n < least {
            Err(malformed_fault(context + "."@ + name + complaint))
        } else {
            Ok(n)
        },
    }
}

fn read_integer_setting(value: &Value, name: &str, context: &str, least: i64, complaint: &str) -> (r: Result<
    i64,
    Error,
>)
    ensures
        plain(r) == integer_setting(value@, name@, context@, least as int, complaint@),
{
    let mut read: Option<i64> = None;
    if let Some(found) = value.get(name) {
        read = found.as_i64();
    }
    match read {
        None => Err(malformed(text::cat4(context, ".", name, " must be an integer"))),
        Some(n) => {
            if n < least {
                Err(malformed(text::cat4(context, ".", name, complaint)))
            } else {
                Ok(n)
            }
        },
    }
}

/// Reading a setting that is a number.
pub open spec fn number_setting(v: Json, name: Seq<char>, context: Seq<char>) -> Result<
    NumberModel,
    Fault,
> {
    match number_of(field(v, name)) {
        None => Err(malformed_fault(context + "."@ + name + " must be a number"@)),
        Some(n) => Ok(n),
    }
}

fn read_number_setting(value: &Value, name: &str, context: &str) -> (r: Result<Number, Error>)
    ensures
        outcome(r) == number_setting(value@, name@, context@),
{
    if let Some(found) = value.get(name) {
        if let Some(n) = found.as_f64() {
            return Ok(n);
        }
    }
    Err(malformed(text::cat4(context, ".", name, " must be a number")))
}

pub open spec fn sample_fields() -> Seq<Seq<char>> {
    seq![
        "chains"@,
        "warmup"@,
        "draws"@,
        "max_treedepth"@,
        "target_accept"@,
        "initial_step_size"@,
        "seed"@,
    ]
}

/// The settings of a sampling recipe.
#[verifier::ext_equal]
pub struct SampleModel {
    pub chains: i64,
    pub warmup: i64,
    pub draws: i64,
    pub max_treedepth: i64,
    pub target_accept: NumberModel,
    pub initial_step_size: NumberModel,
    pub seed: i64,
}

/// Zero is below or equal to the number, and the number is below one.
pub open spec fn acceptance_rate(bits: u64) -> bool {
    !less(bits, 0) && less(bits, ONE_BITS)
}

/// Positive and finite.
pub open spec fn step_size(bits: u64) -> bool {
    finite(bits) && less(0, bits)
}

/// Settings with which sampling can run.
pub open spec fn valid_sample(m: SampleModel) -> bool {
    &&& m.chains >= 1
    &&& m.warmup >= 0
    &&& m.draws >= 4
    &&& 1 <= m.max_treedepth <= 20
    &&& acceptance_rate(m.target_accept.bits)
    &&& step_size(m.initial_step_size.bits)
    &&& m.seed >= 0
}

/// The normal form of sampling settings.
pub open spec fn sample_json(m: SampleModel) -> Json {
    Json::Object(
        seq![
            ("chains"@, Json::Int(m.chains)),
            ("warmup"@, Json::Int(m.warmup)),
            ("draws"@, Json::Int(m.draws)),
            ("max_treedepth"@, Json::Int(m.max_treedepth)),
            ("target_accept"@, Json::Float(m.target_accept)),
            ("initial_step_size"@, Json::Float(m.initial_step_size)),
            ("seed"@, Json::Int(m.seed)),
        ],
    )
}

/// The rest of reading sampling settings, once the tree depth was read.
pub open spec fn sample_tail(
    v: Json,
    context: Seq<char>,
    chains: i64,
    warmup: i64,
    draws: i64,
    max_treedepth: i64,
) -> Result<Json, Fault> {
    if max_treedepth > 20 {
        Err(malformed_fault(context + ".max_treedepth must be in 1..=20"@))
    } else {
        match number_setting(v, "target_accept"@, context) {
            Err(fault) => Err(fault),
            Ok(target_accept) => if !acceptance_rate(target_accept.bits) {
                Err(malformed_fault(context + ".target_accept must be in (0, 1)"@))
            } else {
                match number_setting(v, "initial_step_size"@, context) {
                    Err(fault) => Err(fault),
                    Ok(initial_step_size) => if !step_size(initial_step_size.bits) {
                        Err(
                            malformed_fault(
                                context + ".initial_step_size must be positive and finite"@,
                            ),
                        )
                    } else {
                        match integer_setting(v, "seed"@, context, 0, " must be non-negative"@) {
                            Err(fault) => Err(fault),
                            Ok(seed) => Ok(
                                sample_json(
                                    SampleModel {
                                        chains,
                                        warmup,
                                        draws,
                                        max_treedepth,
                                        target_accept,
                                        initial_step_size,
                                        seed,
                                    },
                                ),
                            ),
                        }
                    },
                }
            },
        }
    }
}

/// What normalizing sampling settings gives.
pub open spec fn normal_sample(v: Json, context: Seq<char>) -> Result<Json, Fault> {
    match object_complaint(v, context, sample_fields(), sample_fields()) {
        Some(message) => Err(malformed_fault(message)),
        None => match integer_setting(v, "chains"@, context, 1, " must be at least 1"@) {
            Err(fault) => Err(fault),
            Ok(chains) => match integer_setting(v, "warmup"@, context, 0, " must be non-negative"@) {
                Err(fault) => Err(fault),
                Ok(warmup) => match integer_setting(v, "draws"@, context, 1, " must be at least 1"@) {
                    Err(fault) => Err(fault),
                    Ok(draws) => if draws < 4 {
                        Err(
                            malformed_fault(
                                context
                                    + ".draws must be at least 4 because fit artifacts include diagnostics"@,
                            ),
                        )
                    } else {
                        match integer_setting(v, "max_treedepth"@, context, 1, " must be at least 1"@) {
                            Err(fault) => Err(fault),
                            Ok(max_treedepth) => sample_tail(
                                v,
                                context,
                                chains,
                                warmup,
                                draws,
                                max_treedepth,
                            ),
                        }
                    },
                },
            },
        },
    }
}

/// The normal form of settings that hold a seed alone.
pub open spec fn seed_json(seed: i64) -> Json {
    Json::Object(seq![("seed"@, Json::Int(seed))])
}

/// What normalizing settings gives.
pub open spec fn normal_settings(operation: Operation, v: Json, context: Seq<char>) -> Result<
    Json,
    Fault,
> {
    match operation {
        Operation::Sample => normal_sample(v, context),
        Operation::PosteriorCheck => match object_complaint(v, context, seq!["seed"@], seq!["seed"@]) {
            Some(message) => Err(malformed_fault(message)),
            None => match integer_setting(v, "seed"@, context, 0, " must be non-negative"@) {
                Err(fault) => Err(fault),
                Ok(seed) => Ok(seed_json(seed)),
            },
        },
        _ => match object_complaint(v, context, Seq::empty(), Seq::empty()) {
            Some(message) => Err(malformed_fault(message)),
            None => Ok(Json::Object(Seq::empty())),
        },
    }
}

fn normalized_sample(value: &Value, context: &str) -> (r: Result<Value, Error>)
    ensures
        outcome(r) == normal_sample(value@, context@),
{
    broadcast use group_json_views;

    let names: [&str; 7] = [
        "chains",
        "warmup",
        "draws",
        "max_treedepth",
        "target_accept",
        "initial_step_size",
        "seed",
    ];
    assert(names_view(names@) =~= sample_fields());
    checked_object(value, context, &names, &names)?;
    let chains: i64 = read_integer_setting(value, "chains", context, 1, " must be at least 1")?;
    let warmup: i64 = read_integer_setting(value, "warmup", context, 0, " must be non-negative")?;
    let draws: i64 = read_integer_setting(value, "draws", context, 1, " must be at least 1")?;
    if draws < 4 {
        return Err(
            malformed(
                text::cat2(
                    context,
                    ".draws must be at least 4 because fit artifacts include diagnostics",
                ),
            ),
        );
    }
    let max_treedepth: i64 = read_integer_setting(
        value,
        "max_treedepth",
        context,
        1,
        " must be at least 1",
    )?;
    if max_treedepth > 20 {
        return Err(malformed(text::cat2(context, ".max_treedepth must be in 1..=20")));
    }
    let target_accept: Number = read_number_setting(value, "target_accept", context)?;
    if less_than(target_accept.bits, 0) || !less_than(target_accept.bits, ONE_BITS) {
        return Err(malformed(text::cat2(context, ".target_accept must be in (0, 1)")));
    }
    let initial_step_size: Number = read_number_setting(value, "initial_step_size", context)?;
    if !initial_step_size.is_finite() || !less_than(0, initial_step_size.bits) {
        return Err(
            malformed(text::cat2(context, ".initial_step_size must be positive and finite")),
        );
    }
    let seed: i64 = read_integer_setting(value, "seed", context, 0, " must be non-negative")?;
    let ghost model = SampleModel {
        chains,
        warmup,
        draws,
        max_treedepth,
        target_accept: target_accept@,
        initial_step_size: initial_step_size@,
        seed,
    };
    let entries: Vec<(String, Value)> = vec![
        ("chains".to_owned(), Value::Int(chains)),
        ("warmup".to_owned(), Value::Int(warmup)),
        ("draws".to_owned(), Value::Int(draws)),
        ("max_treedepth".to_owned(), Value::Int(max_treedepth)),
        ("target_accept".to_owned(), Value::Float(target_accept)),
        ("initial_step_size".to_owned(), Value::Float(initial_step_size)),
        ("seed".to_owned(), Value::Int(seed)),
    ];
    assert(entries_view(entries@) =~= sample_json(model)->Object_0);
    Ok(Value::Object(entries))
}

/// Settings in normal form: the fields of the operation in a fixed order, and nothing else.
pub fn normalized_settings(operation: Operation, value: &Value, context: &str) -> (r: Result<
    Value,
    Error,
>)
    ensures
        outcome(r) == normal_settings(operation, value@, context@),
{
    broadcast use group_json_views;

    match operation {
        Operation::Sample => normalized_sample(value, context),
        Operation::PosteriorCheck => {
            let names: [&str; 1] = ["seed"];
            assert(names_view(names@) =~= seq!["seed"@]);
            checked_object(value, context, &names, &names)?;
            let seed: i64 = read_integer_setting(value, "seed", context, 0, " must be non-negative")?;
            let entries: Vec<(String, Value)> = vec![("seed".to_owned(), Value::Int(seed))];
            assert(entries_view(entries@) =~= seed_json(seed)->Object_0);
            Ok(Value::Object(entries))
        },
        _ => {
            let names: [&str; 0] = [];
            assert(names_view(names@) =~= Seq::<Seq<char>>::empty());
            checked_object(value, context, &names, &names)?;
            let entries: Vec<(String, Value)> = Vec::new();
            assert(entries_view(entries@) =~= Seq::empty());
            Ok(Value::Object(entries))
        },
    }
}

/// A run that can be repeated: operation, exact inputs, engine, and normalized settings.
#[derive(Debug)]
pub struct Recipe {
    pub id: String,
    pub sha256: Digest,
    pub operation: Operation,
    pub model: ArtifactRef,
    pub data: ArtifactRef,
    pub fit: Option<ArtifactRef>,
    pub engine: EngineIdentity,
    pub settings: Value,
}

/// The mathematical content of a [`Recipe`].
#[verifier::ext_equal]
pub struct RecipeModel {
    pub id: Seq<char>,
    pub sha256: Seq<char>,
    pub operation: Operation,
    pub model: RefModel,
    pub data: RefModel,
    pub fit: Option<RefModel>,
    pub engine: EngineModel,
    pub settings: Json,
}

/// The view of an optional reference.
pub open spec fn optional_ref(r: Option<ArtifactRef>) -> Option<RefModel> {
    match r {
        Some(reference) => Some(reference@),
        None => None,
    }
}

impl View for Recipe {
    type V = RecipeModel;

    open spec fn view(&self) -> RecipeModel {
        RecipeModel {
            id: self.id@,
            sha256: self.sha256@,
            operation: self.operation,
            model: self.model@,
            data: self.data@,
            fit: optional_ref(self.fit),
            engine: self.engine@,
            settings: self.settings@,
        }
    }
}

/// The identity fields of a reference.
pub open spec fn ref_identity(m: RefModel) -> Seq<Seq<u8>> {
    seq![
        bytes_of(m.sha256),
        be_bytes(m.bytes as u64),
        bytes_of(kind_text(m.kind)),
        bytes_of(m.format),
    ]
}

/// The identity fields of the posterior draws that a recipe reads, or of their absence.
pub open spec fn fit_identity(fit: Option<RefModel>) -> Seq<Seq<u8>> {
    match fit {
        Some(reference) => seq![bytes_of("fit"@)] + ref_identity(reference),
        None => seq![bytes_of("no-fit"@)],
    }
}

/// The fields that the identity of a recipe covers: all that bears on its execution, and not its
/// local name.
pub open spec fn recipe_identity(m: RecipeModel) -> Seq<Seq<u8>> {
    seq![bytes_of(operation_text(m.operation))] + ref_identity(m.model) + ref_identity(m.data)
        + fit_identity(m.fit) + ref_identity(m.engine.binary) + ref_identity(m.engine.capabilities)
        + seq![bytes_of(m.engine.target)] + seq![bytes_of(m.engine.profile)] + seq![
        bytes_of(json_text(m.settings)),
    ]
}

/// The digest that a recipe is known by.
pub open spec fn recipe_sha256(m: RecipeModel) -> Seq<char> {
    digest_text(bytes_of(RECIPE_DOMAIN@) + framed_all(recipe_identity(m)))
}

proof fn lemma_framed_all_push(fields: Seq<Seq<u8>>, last: Seq<u8>)
    ensures
        framed_all(fields.push(last)) == framed_all(fields) + framed(last),
    decreases fields.len(),
{
    let longer = fields.push(last);
    if fields.len() == 0 {
        assert(longer.drop_first() =~= Seq::empty());
        assert(framed_all(longer.drop_first()) =~= Seq::empty());
        assert(framed_all(longer) =~= framed_all(fields) + framed(last));
    } else {
        assert(longer.drop_first() =~= fields.drop_first().push(last));
        lemma_framed_all_push(fields.drop_first(), last);
        assert(framed_all(longer) =~= framed_all(fields) + framed(last));
    }
}

fn frame_text(message: &mut Vec<u8>, s: &str, fields: Ghost<Seq<Seq<u8>>>)
    requires
        old(message)@ == framed_all(fields@),
    ensures
        final(message)@ == framed_all(fields@ + seq![bytes_of(s@)]),
{
    frame(message, s.as_bytes());
    proof {
        lemma_framed_all_push(fields@, bytes_of(s@));
        assert(fields@ + seq![bytes_of(s@)] =~= fields@.push(bytes_of(s@)));
    }
}

fn frame_ref(message: &mut Vec<u8>, reference: &ArtifactRef, fields: Ghost<Seq<Seq<u8>>>)
    requires
        old(message)@ == framed_all(fields@),
    ensures
        final(message)@ == framed_all(fields@ + ref_identity(reference@)),
{
    frame_text(message, reference.sha256.as_str(), fields);
    let ghost first = fields@ + seq![bytes_of(reference.sha256@)];
    let mut count: Vec<u8> = Vec::new();
    text::push_be_bytes(&mut count, reference.bytes as u64);
    assert(count@ =~= be_bytes(reference.bytes as u64));
    frame(message, count.as_slice());
    proof {
        lemma_framed_all_push(first, count@);
    }
    let ghost second = first.push(count@);
    frame_text(message, reference.kind.as_str(), Ghost(second));
    let ghost third = second + seq![bytes_of(kind_text(reference.kind))];
    frame_text(message, reference.format.as_str(), Ghost(third));
    assert(third + seq![bytes_of(reference.format@)] =~= fields@ + ref_identity(reference@));
}

/// What making a recipe gives.
pub open spec fn made_recipe(
    id: Seq<char>,
    operation: Operation,
    model: RefModel,
    data: RefModel,
    fit: Option<RefModel>,
    engine: EngineModel,
    settings: Json,
) -> Result<RecipeModel, Fault> {
    if !valid_identifier(id) {
        Err(
            malformed_fault(
                "recipe id"@ + " must be 1..=128 ASCII letters, digits, '.', '_' or '-'"@,
            ),
        )
    } else if model.kind != ArtifactKind::ModelIr || data.kind != ArtifactKind::Data {
        Err(malformed_fault("recipe model/data references must have model_ir/data kinds"@))
    } else if needs_fit(operation) != fit is Some {
        Err(
            malformed_fault(
                "recipe operation "@ + debug_text(operation_text(operation)) + (if needs_fit(
                    operation,
                ) {
                    " requires a fit input"@
                } else {
                    " must not carry a fit input"@
                }),
            ),
        )
    } else if fit is Some && fit->0.kind != ArtifactKind::PosteriorDraws {
        Err(malformed_fault("recipe fit input kind must be \"posterior_draws\""@))
    } else {
        match normal_settings(operation, settings, "recipe settings"@) {
            Err(fault) => Err(fault),
            Ok(normal) => {
                let unnamed = RecipeModel {
                    id,
                    sha256: Seq::empty(),
                    operation,
                    model,
                    data,
                    fit,
                    engine,
                    settings: normal,
                };
                Ok(RecipeModel { sha256: recipe_sha256(unnamed), ..unnamed })
            },
        }
    }
}

impl Recipe {
    pub fn new(
        id: String,
        operation: Operation,
        model: ArtifactRef,
        data: ArtifactRef,
        fit: Option<ArtifactRef>,
        engine: EngineIdentity,
        settings: Value,
    ) -> (r: Result<Recipe, Error>)
        ensures
            outcome(r) == made_recipe(
                id@,
                operation,
                model@,
                data@,
                optional_ref(fit),
                engine@,
                settings@,
            ),
            r is Ok ==> valid_digest(r->Ok_0.sha256@),
    {
        let id: String = validate_identifier(id.as_str(), "recipe id")?;
        if model.kind != ArtifactKind::ModelIr || data.kind != ArtifactKind::Data {
            return Err(
                malformed(
                    "recipe model/data references must have model_ir/data kinds".to_owned(),
                ),
            );
        }
        let wants_fit: bool = operation == Operation::Diagnose || operation
            == Operation::PosteriorCheck;
        if wants_fit != fit.is_some() {
            let shown: String = text::quoted(operation.as_str());
            let rest: &str = if wants_fit {
                " requires a fit input"
            } else {
                " must not carry a fit input"
            };
            return Err(malformed(text::cat3("recipe operation ", shown.as_str(), rest)));
        }
        if let Some(reference) = &fit {
            if reference.kind != ArtifactKind::PosteriorDraws {
                return Err(
                    malformed("recipe fit input kind must be \"posterior_draws\"".to_owned()),
                );
            }
        }
        let settings: Value = normalized_settings(operation, &settings, "recipe settings")?;
        let unnamed: Recipe = Recipe {
            id,
            sha256: Digest(String::new()),
            operation,
            model,
            data,
            fit,
            engine,
            settings,
        };
        let sha256: Digest = unnamed.compute_digest()?;
        Ok(
            Recipe {
                id: unnamed.id,
                sha256,
                operation,
                model: unnamed.model,
                data: unnamed.data,
                fit: unnamed.fit,
                engine: unnamed.engine,
                settings: unnamed.settings,
            },
        )
    }

    /// The identity of the fields that bear on execution.
    pub fn compute_digest(&self) -> (r: Result<Digest, Error>)
        ensures
            r is Ok,
            r->Ok_0@ == recipe_sha256(self@),
            valid_digest(r->Ok_0@),
    {
        let settings: String = json::write(&self.settings);
        let mut body: Vec<u8> = Vec::new();
        let ghost f0 = seq![bytes_of(operation_text(self.operation))];
        assert(Seq::<Seq<u8>>::empty() + f0 =~= f0);
        frame_text(&mut body, self.operation.as_str(), Ghost(Seq::empty()));
        frame_ref(&mut body, &self.model, Ghost(f0));
        let ghost f1 = f0 + ref_identity(self.model@);
        frame_ref(&mut body, &self.data, Ghost(f1));
        let ghost f2 = f1 + ref_identity(self.data@);
        let ghost f3 = f2 + fit_identity(optional_ref(self.fit));
        match &self.fit {
            Some(fit) => {
                let ghost tagged = f2 + seq![bytes_of("fit"@)];
                frame_text(&mut body, "fit", Ghost(f2));
                frame_ref(&mut body, fit, Ghost(tagged));
                assert(tagged + ref_identity(fit@) =~= f3);
            },
            None => {
                frame_text(&mut body, "no-fit", Ghost(f2));
            },
        }
        frame_ref(&mut body, &self.engine.binary, Ghost(f3));
        let ghost f4 = f3 + ref_identity(self.engine.binary@);
        frame_ref(&mut body, &self.engine.capabilities, Ghost(f4));
        let ghost f5 = f4 + ref_identity(self.engine.capabilities@);
        frame_text(&mut body, self.engine.target.as_str(), Ghost(f5));
        let ghost f6 = f5 + seq![bytes_of(self.engine.target@)];
        frame_text(&mut body, self.engine.profile.as_str(), Ghost(f6));
        let ghost f7 = f6 + seq![bytes_of(self.engine.profile@)];
        frame_text(&mut body, settings.as_str(), Ghost(f7));
        Ok(recipe_digest(body.as_slice()))
    }
}

pub open spec fn recipe_fields() -> Seq<Seq<char>> {
    seq!["id"@, "sha256"@, "operation"@, "inputs"@, "engine"@, "settings"@]
}

pub open spec fn recipe_input_fields() -> Seq<Seq<char>> {
    seq!["model"@, "data"@, "fit"@]
}

/// Reading a reference field that may be null.
pub open spec fn optional_ref_field(v: Json, name: Seq<char>, context: Seq<char>) -> Result<
    Option<RefModel>,
    Fault,
> {
    if field(v, name)->0 == Json::Null {
        Ok(None)
    } else {
        match ref_field(v, name, context) {
            Err(fault) => Err(fault),
            Ok(reference) => Ok(Some(reference)),
        }
    }
}

/// The view of a result that may carry a reference.
pub open spec fn optional_ref_outcome(r: Result<Option<ArtifactRef>, Error>) -> Result<
    Option<RefModel>,
    Fault,
> {
    match r {
        Ok(found) => Ok(optional_ref(found)),
        Err(error) => Err(error@),
    }
}

/// Reads a reference field, which the object is known to have and which may be null.
pub fn read_optional_ref(value: &Value, name: &str, context: &str) -> (r: Result<
    Option<ArtifactRef>,
    Error,
>)
    requires
        field(value@, name@) is Some,
    ensures
        optional_ref_outcome(r) == optional_ref_field(value@, name@, context@),
{
    let found: &Value = value.get(name).unwrap();
    match found {
        Value::Null => Ok(None),
        _ => {
            let reference: ArtifactRef = ArtifactRef::parse(found, context)?;
            Ok(Some(reference))
        },
    }
}

/// The input references of a recipe document.
pub open spec fn parsed_recipe_inputs(v: Json, context: Seq<char>) -> Result<
    (RefModel, RefModel, Option<RefModel>),
    Fault,
> {
    match object_complaint(v, context, recipe_input_fields(), recipe_input_fields()) {
        Some(message) => Err(malformed_fault(message)),
        None => match ref_field(v, "model"@, context + ".model"@) {
            Err(fault) => Err(fault),
            Ok(model) => match ref_field(v, "data"@, context + ".data"@) {
                Err(fault) => Err(fault),
                Ok(data) => match optional_ref_field(v, "fit"@, context + ".fit"@) {
                    Err(fault) => Err(fault),
                    Ok(fit) => Ok((model, data, fit)),
                },
            },
        },
    }
}

/// What reading a recipe gives once its own fields were read.
pub open spec fn confirmed_recipe(
    v: Json,
    context: Seq<char>,
    id: Seq<char>,
    expected: Seq<char>,
    operation: Operation,
) -> Result<RecipeModel, Fault> {
    match parsed_recipe_inputs(field(v, "inputs"@)->0, context + ".inputs"@) {
        Err(fault) => Err(fault),
        Ok((model, data, fit)) => match parsed_engine(field(v, "engine"@)->0, context + ".engine"@) {
            Err(fault) => Err(fault),
            Ok(engine) => match made_recipe(
                id,
                operation,
                model,
                data,
                fit,
                engine,
                field(v, "settings"@)->0,
            ) {
                Err(fault) => Err(fault),
                Ok(recipe) => if recipe.sha256 != expected {
                    Err(
                        malformed_fault(
                            context
                                + " sha256 does not match its execution-relevant fields; expected "@
                                + recipe.sha256,
                        ),
                    )
                } else {
                    Ok(recipe)
                },
            },
        },
    }
}

/// What reading a recipe gives: the recipe only if its digest is that of its fields.
pub open spec fn parsed_recipe(v: Json, context: Seq<char>) -> Result<RecipeModel, Fault> {
    match object_complaint(v, context, recipe_fields(), recipe_fields()) {
        Some(message) => Err(malformed_fault(message)),
        None => match identifier_field(v, "id"@, context) {
            Err(fault) => Err(fault),
            Ok(id) => match digest_field(v, "sha256"@, context) {
                Err(fault) => Err(fault),
                Ok(expected) => match text_field(v, "operation"@, context) {
                    Err(fault) => Err(fault),
                    Ok(name) => match parsed_operation(name, context) {
                        Err(fault) => Err(fault),
                        Ok(operation) => confirmed_recipe(v, context, id, expected, operation),
                    },
                },
            },
        },
    }
}

/// The document form of an optional reference.
pub open spec fn optional_ref_json(m: Option<RefModel>) -> Json {
    match m {
        Some(reference) => ref_json(reference),
        None => Json::Null,
    }
}

pub fn optional_ref_value(reference: &Option<ArtifactRef>) -> (r: Value)
    ensures
        r@ == optional_ref_json(optional_ref(*reference)),
{
    match reference {
        Some(found) => found.to_value(),
        None => Value::Null,
    }
}

/// The document form of the input references of a recipe.
pub open spec fn recipe_inputs_json(m: RecipeModel) -> Json {
    Json::Object(
        seq![
            ("model"@, ref_json(m.model)),
            ("data"@, ref_json(m.data)),
            ("fit"@, optional_ref_json(m.fit)),
        ],
    )
}

/// The document form of a recipe.
pub open spec fn recipe_json(m: RecipeModel) -> Json {
    Json::Object(
        seq![
            ("id"@, Json::Str(m.id)),
            ("sha256"@, Json::Str(m.sha256)),
            ("operation"@, Json::Str(operation_text(m.operation))),
            ("inputs"@, recipe_inputs_json(m)),
            ("engine"@, engine_json(m.engine)),
            ("settings"@, m.settings),
        ],
    )
}

fn read_recipe_inputs(inputs: &Value, context: &str) -> (r: Result<
    (ArtifactRef, ArtifactRef, Option<ArtifactRef>),
    Error,
>)
    ensures
        match r {
            Ok(found) => parsed_recipe_inputs(inputs@, context@) == Ok::<
                (RefModel, RefModel, Option<RefModel>),
                Fault,
            >((found.0@, found.1@, optional_ref(found.2))),
            Err(error) => parsed_recipe_inputs(inputs@, context@) == Err::<
                (RefModel, RefModel, Option<RefModel>),
                Fault,
            >(error@),
        },
{
    let names: [&str; 3] = ["model", "data", "fit"];
    assert(names_view(names@) =~= recipe_input_fields());
    checked_object(inputs, context, &names, &names)?;
    proof {
        let all = recipe_input_fields();
        assert(all[0] == "model"@ && all[1] == "data"@ && all[2] == "fit"@);
        lemma_required_field(inputs@, context@, all, all, "model"@);
        lemma_required_field(inputs@, context@, all, all, "data"@);
        lemma_required_field(inputs@, context@, all, all, "fit"@);
    }
    let model: ArtifactRef = required_ref(inputs, "model", text::cat2(context, ".model").as_str())?;
    let data: ArtifactRef = required_ref(inputs, "data", text::cat2(context, ".data").as_str())?;
    let fit: Option<ArtifactRef> = read_optional_ref(
        inputs,
        "fit",
        text::cat2(context, ".fit").as_str(),
    )?;
    Ok((model, data, fit))
}

impl Recipe {
    pub fn parse(value: &Value, context: &str) -> (r: Result<Recipe, Error>)
        ensures
            outcome(r) == parsed_recipe(value@, context@),
    {
        let names: [&str; 6] = ["id", "sha256", "operation", "inputs", "engine", "settings"];
        assert(names_view(names@) =~= recipe_fields());
        checked_object(value, context, &names, &names)?;
        proof {
            let all = recipe_fields();
            assert(all[3] == "inputs"@ && all[4] == "engine"@ && all[5] == "settings"@);
            lemma_required_field(value@, context@, all, all, "inputs"@);
            lemma_required_field(value@, context@, all, all, "engine"@);
            lemma_required_field(value@, context@, all, all, "settings"@);
        }
        let id: String = required_identifier(value, "id", context)?;
        let expected: Digest = required_digest(value, "sha256", context)?;
        let operation: Operation = Operation::parse(
            required_str(value, "operation", context)?,
            context,
        )?;
        let inputs: &Value = value.get("inputs").unwrap();
        let (model, data, fit) = read_recipe_inputs(
            inputs,
            text::cat2(context, ".inputs").as_str(),
        )?;
        let engine: EngineIdentity = EngineIdentity::parse(
            value.get("engine").unwrap(),
            text::cat2(context, ".engine").as_str(),
        )?;
        let settings: Value = value.get("settings").unwrap().copy();
        let recipe: Recipe = Recipe::new(id, operation, model, data, fit, engine, settings)?;
        if recipe.sha256.0 != expected.0 {
            return Err(
                malformed(
                    text::cat3(
                        context,
                        " sha256 does not match its execution-relevant fields; expected ",
                        recipe.sha256.as_str(),
                    ),
                ),
            );
        }
        Ok(recipe)
    }

    pub fn to_value(&self) -> (r: Value)
        ensures
            r@ == recipe_json(self@),
    {
        broadcast use group_json_views;

        let inputs: Vec<(String, Value)> = vec![
            ("model".to_owned(), self.model.to_value()),
            ("data".to_owned(), self.data.to_value()),
            ("fit".to_owned(), optional_ref_value(&self.fit)),
        ];
        assert(entries_view(inputs@) =~= recipe_inputs_json(self@)->Object_0);
        let entries: Vec<(String, Value)> = vec![
            ("id".to_owned(), Value::Str(self.id.clone())),
            ("sha256".to_owned(), Value::Str(self.sha256.0.clone())),
            ("operation".to_owned(), Value::Str(self.operation.as_str().to_owned())),
            ("inputs".to_owned(), Value::Object(inputs)),
            ("engine".to_owned(), self.engine.to_value()),
            ("settings".to_owned(), self.settings.copy()),
        ];
        assert(entries_view(entries@) =~= recipe_json(self@)->Object_0);
        Value::Object(entries)
    }

    pub fn copy(&self) -> (r: Recipe)
        ensures
            r@ == self@,
    {
        Recipe {
            id: self.id.clone(),
            sha256: self.sha256.copy(),
            operation: self.operation,
            model: self.model.copy(),
            data: self.data.copy(),
            fit: match &self.fit {
                Some(reference) => Some(reference.copy()),
                None => None,
            },
            engine: self.engine.copy(),
            settings: self.settings.copy(),
        }
    }
}

} // verus!
