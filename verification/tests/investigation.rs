use std::collections::HashMap;

use bayesite_core::cli::commands::capabilities_document;
use bayesite_core::error::{Error, ErrorKind};
use bayesite_core::inspect::report::inspect_json;
use bayesite_core::investigation::host::Host;
use bayesite_core::investigation::identity::{artifact_digest, recipe_digest, snapshot_digest, Digest};
use bayesite_core::investigation::ledger::{Decision, DecisionInputs, DecisionKind, Outcome};
use bayesite_core::investigation::manifest::Manifest;
use bayesite_core::investigation::recipe::{normalized_settings, Operation, Recipe};
use bayesite_core::investigation::records::{ArtifactKind, ArtifactRef, EngineIdentity};
use bayesite_core::investigation::report::VerificationDimension;
use bayesite_core::investigation::verify::{verify_bundle, verify_bundle_detailed};
use bayesite_core::ir::{BinOpKind, ModelMeta, UnaryFn};
use bayesite_core::json::Value;
use bayesite_core::number::Number;
use bayesite_core::numerics::{Arithmetic, IndexAtom, TensorOps};
use bayesite_core::render::{render, same_value};
use bayesite_core::tensor::Tensor;
use bayesite_core::workspace::closure::{unseen_citations, unseen_references};
use bayesite_core::workspace::document::Workspace;
use bayesite_core::workspace::job::{prepare, recipe_task, Task};
use bayesite_core::workspace::options::{parse_export_args, parse_subcommand};
use bayesite_core::workspace::record::ConfiguredRecipe;
use bayesite_core::workspace::reports::workspace_inspection;
use bayesite_core::workspace::snapshot::collect_manifest;
use bayesite_core::workspace::state::{begin_attempt, complete_attempt, fail_attempt};
use bayesite_core::workspace::transfer::{
    check_content, check_length, export_engine, find_replay, fork_workspace, publication_value, reference, sample_plan,
};

fn text(s: &str) -> Value {
    Value::Str(s.to_string())
}

struct Reader<'a> {
    rest: &'a [u8],
}

impl<'a> Reader<'a> {
    fn space(&mut self) {
        while matches!(self.rest.first(), Some(b' ' | b'\n' | b'\t' | b'\r')) {
            self.rest = &self.rest[1..];
        }
    }

    fn bad<T>(&self) -> Result<T, Error> {
        Err(Error::new(ErrorKind::MalformedDocument, "not JSON".to_string()))
    }

    fn take(&mut self, byte: u8) -> bool {
        self.space();
        if self.rest.first() == Some(&byte) {
            self.rest = &self.rest[1..];
            true
        } else {
            false
        }
    }

    fn string(&mut self) -> Result<String, Error> {
        if !self.take(b'"') {
            return self.bad();
        }
        let mut bytes = Vec::new();
        loop {
            match self.rest.first() {
                None => return self.bad(),
                Some(b'"') => {
                    self.rest = &self.rest[1..];
                    return String::from_utf8(bytes).or_else(|_| self.bad());
                }
                Some(b'\\') => {
                    bytes.push(match self.rest.get(1) {
                        Some(b'n') => b'\n',
                        Some(b't') => b'\t',
                        Some(b'r') => b'\r',
                        Some(&other) => other,
                        None => return self.bad(),
                    });
                    self.rest = &self.rest[2..];
                }
                Some(&byte) => {
                    bytes.push(byte);
                    self.rest = &self.rest[1..];
                }
            }
        }
    }

    fn value(&mut self) -> Result<Value, Error> {
        self.space();
        if self.take(b'{') {
            let mut entries = Vec::new();
            if self.take(b'}') {
                return Ok(Value::Object(entries));
            }
            loop {
                let name = self.string()?;
                if !self.take(b':') {
                    return self.bad();
                }
                entries.push((name, self.value()?));
                if self.take(b'}') {
                    return Ok(Value::Object(entries));
                }
                if !self.take(b',') {
                    return self.bad();
                }
            }
        }
        if self.take(b'[') {
            let mut items = Vec::new();
            if self.take(b']') {
                return Ok(Value::Array(items));
            }
            loop {
                items.push(self.value()?);
                if self.take(b']') {
                    return Ok(Value::Array(items));
                }
                if !self.take(b',') {
                    return self.bad();
                }
            }
        }
        if self.rest.first() == Some(&b'"') {
            return Ok(Value::Str(self.string()?));
        }
        for (word, value) in [("null", Value::Null), ("true", Value::Bool(true)), ("false", Value::Bool(false))] {
            if self.rest.starts_with(word.as_bytes()) {
                self.rest = &self.rest[word.len()..];
                return Ok(value);
            }
        }
        let end = self
            .rest
            .iter()
            .position(|b| !b"+-.eE0123456789".contains(b))
            .unwrap_or(self.rest.len());
        let numeral = String::from_utf8(self.rest[..end].to_vec()).unwrap();
        self.rest = &self.rest[end..];
        if let Ok(n) = numeral.parse::<i64>() {
            return Ok(Value::Int(n));
        }
        match numeral.parse::<f64>() {
            Ok(x) => Ok(Value::Float(Number { bits: x.to_bits(), text: numeral })),
            Err(_) => self.bad(),
        }
    }
}

fn read(s: &str) -> Result<Value, Error> {
    let mut reader = Reader { rest: s.as_bytes() };
    let value = reader.value()?;
    reader.space();
    if reader.rest.is_empty() {
        Ok(value)
    } else {
        reader.bad()
    }
}

fn ops() -> impl Arithmetic {
    TensorOps {
        binary: |_: BinOpKind, a: &Tensor, _: &Tensor| -> Result<Tensor, Error> { Ok(a.copy()) },
        unary: |_: UnaryFn, a: &Tensor| -> Tensor { a.copy() },
        product: |a: &Tensor, _: &Tensor| -> Result<Tensor, Error> { Ok(a.copy()) },
        gather: |a: &Tensor, _: &Vec<IndexAtom>| -> Result<Tensor, Error> { Ok(a.copy()) },
        joint: |a: &Vec<usize>, _: &Vec<usize>| -> Result<Vec<usize>, Error> { Ok(a.clone()) },
        spread: |a: &Tensor, _: &Vec<usize>| -> Result<Tensor, Error> { Ok(a.copy()) },
    }
}

fn empty_model() -> ModelMeta {
    ModelMeta {
        params: vec![],
        data: vec![],
        observed_nodes: vec![],
        expressions: vec![],
        free_values: vec![],
        stochastic_sites: vec![],
    }
}

struct Store {
    objects: HashMap<String, Vec<u8>>,
}

impl Store {
    fn add(&mut self, bytes: &[u8], kind: ArtifactKind, format: &str) -> ArtifactRef {
        let found = reference(bytes, kind, format).unwrap();
        self.objects.insert(found.sha256.as_str().to_string(), bytes.to_vec());
        found
    }
}

struct Study {
    store: Store,
    model: ArtifactRef,
    data: ArtifactRef,
    workspace: Workspace,
}

fn study() -> Study {
    let mut store = Store { objects: HashMap::new() };
    let model = store.add(b"{}", ArtifactKind::ModelIr, "bayeswire-json");
    let data = store.add(b"{ }", ArtifactKind::Data, "bayesite-data-json");
    let capabilities = render(&capabilities_document("0.1.0")).unwrap();
    let engine = EngineIdentity {
        binary: store.add(b"engine", ArtifactKind::EngineBinary, "executable"),
        capabilities: store.add(
            capabilities.as_bytes(),
            ArtifactKind::EngineCapabilities,
            "capabilities-v0-provisional",
        ),
        target: "x86_64-linux".to_string(),
        profile: "release".to_string(),
    };
    let workspace = Workspace {
        question: "Is it so?".to_string(),
        estimand_description: "the effect".to_string(),
        estimand_parameter: "x".to_string(),
        source: None,
        engine,
        decisions: vec![Decision {
            id: "begin".to_string(),
            parent: None,
            reason: "a start".to_string(),
            cites: vec![model.sha256.copy()],
            kind: DecisionKind::Note,
            inputs: DecisionInputs { model: model.copy(), data: data.copy() },
        }],
        recipes: vec![ConfiguredRecipe {
            id: "look".to_string(),
            operation: Operation::Inspect,
            settings: Value::Object(vec![]),
        }],
        attempts: vec![],
        selections: vec![],
        interpretation: "open".to_string(),
        unresolved_questions: vec![],
    };
    Study { store, model, data, workspace }
}

fn inspected() -> Study {
    let mut s = study();
    begin_attempt(&mut s.workspace, "look", &s.model, &s.data).unwrap();
    let report = inspect_json(&empty_model(), &vec![], &ops()).unwrap();
    let output = s.store.add(report.as_bytes(), ArtifactKind::Inspection, "inspection-v0-provisional");
    assert!(complete_attempt(&mut s.workspace, output, &s.model, &s.data));
    s
}

fn manifest_of(s: &Study) -> Manifest {
    collect_manifest(&s.workspace, &s.model, &s.data, &|t: &str| read(t)).unwrap()
}

fn message(result: Result<(), Error>) -> String {
    result.unwrap_err().message
}

#[test]
fn identities_hash_exact_bytes_in_their_own_domains() {
    let bytes = b"same bytes";
    let artifact = artifact_digest(bytes);
    assert_eq!(artifact.as_str().len(), 64);
    assert_ne!(artifact.as_str(), snapshot_digest(bytes).as_str());
    assert_ne!(artifact.as_str(), recipe_digest(bytes).as_str());
    assert_eq!(artifact.prefixed(), format!("sha256:{}", artifact.as_str()));
    assert_eq!(
        artifact_digest(b"abc").as_str(),
        "ba7816bf8f01cfea414140de5dae2223b00361a396177a9cb410ff61f20015ad"
    );
}

#[test]
fn digests_are_read_from_lowercase_hexadecimal_only() {
    let good = artifact_digest(b"x");
    assert_eq!(Digest::parse(good.as_str(), "test").unwrap().as_str(), good.as_str());
    assert!(Digest::parse("abc", "test").is_err());
    assert!(Digest::parse(&good.as_str().to_uppercase(), "test").is_err());
}

#[test]
fn references_round_trip() {
    let s = study();
    let again = ArtifactRef::parse(&s.model.to_value(), "test").unwrap();
    assert!(again.same(&s.model));
    let engine = EngineIdentity::parse(&s.workspace.engine.to_value(), "test").unwrap();
    assert!(same_value(&engine.to_value(), &s.workspace.engine.to_value()));
    assert!(ArtifactRef::parse(&Value::Object(vec![]), "test").is_err());
}

#[test]
fn a_recipe_is_identified_by_what_it_runs_not_by_its_name() {
    let s = study();
    let make = |id: &str, settings: Value| {
        Recipe::new(
            id.to_string(),
            Operation::Inspect,
            s.model.copy(),
            s.data.copy(),
            None,
            s.workspace.engine.copy(),
            settings,
        )
    };
    let a = make("one", Value::Object(vec![])).unwrap();
    let b = make("two", Value::Object(vec![])).unwrap();
    assert_eq!(a.sha256.as_str(), b.sha256.as_str());
    assert!(same_value(&Recipe::parse(&a.to_value(), "test").unwrap().to_value(), &a.to_value()));
    assert!(make("three", Value::Object(vec![("seed".to_string(), Value::Int(1))])).is_err());
}

#[test]
fn settings_have_one_normal_form() {
    let given = Value::Object(vec![("seed".to_string(), Value::Int(7))]);
    let normal = normalized_settings(Operation::PosteriorCheck, &given, "test").unwrap();
    assert!(same_value(&normal, &given));
    let again = normalized_settings(Operation::PosteriorCheck, &normal, "test").unwrap();
    assert!(same_value(&again, &normal));
    let negative = Value::Object(vec![("seed".to_string(), Value::Int(-1))]);
    assert!(normalized_settings(Operation::PosteriorCheck, &negative, "test").is_err());
}

#[test]
fn manifests_round_trip_through_their_bytes() {
    let manifest = manifest_of(&inspected());
    let bytes = manifest.to_bytes().unwrap();
    let again = Manifest::parse_bytes(&bytes, &|t: &str| read(t)).unwrap();
    assert!(same_value(&again.to_value(), &manifest.to_value()));
    assert!(manifest.validate_relationships().is_ok());
    assert!(manifest.decision("begin").is_some());
    assert!(manifest.decision("end").is_none());
}

#[test]
fn only_current_samples_must_have_their_draws() {
    let mut manifest = manifest_of(&inspected());
    assert!(!manifest.executions.is_empty());
    for execution in manifest.executions.iter_mut() {
        execution.output = None;
    }
    assert!(manifest.validate_relationships().is_ok());
}

#[test]
fn a_manifest_must_be_text() {
    let error = Manifest::parse_bytes(&[0xff, 0xfe], &|t: &str| read(t)).unwrap_err();
    assert_eq!(error.message, "manifest must be UTF-8 JSON");
}

#[test]
fn a_complete_bundle_is_verified() {
    let s = inspected();
    let bytes = manifest_of(&s).to_bytes().unwrap();
    let objects = &s.store.objects;
    let host = Host {
        load: |digest: &Digest| -> Result<Vec<u8>, Error> {
            objects.get(digest.as_str()).cloned().ok_or_else(|| {
                Error::new(ErrorKind::InvalidSettings, "missing".to_string())
            })
        },
        read_json: |t: &str| read(t),
        decode_model: |_: &Value| -> Result<ModelMeta, Error> { Ok(empty_model()) },
        diagnose: |_: &str| -> Result<(), Error> { Ok(()) },
        ops: ops(),
    };
    let (_, found) = verify_bundle(&bytes, &host).unwrap();
    assert_eq!(found.snapshot_id.as_str(), snapshot_digest(&bytes).as_str());
    assert!(found.object_integrity_valid);
    assert!(found.engine_artifacts_available);
    assert!(!found.replay_recorded);
}

#[test]
fn a_missing_or_altered_object_is_reported_in_its_dimension() {
    let mut s = inspected();
    let bytes = manifest_of(&s).to_bytes().unwrap();
    let key = s.data.sha256.as_str().to_string();
    for (altered, dimension) in [
        (None, VerificationDimension::ReferenceClosure),
        (Some(b"{}  ".to_vec()), VerificationDimension::ObjectIntegrity),
        (Some(b"[ ]".to_vec()), VerificationDimension::ObjectIntegrity),
    ] {
        match altered {
            None => s.store.objects.remove(&key),
            Some(other) => s.store.objects.insert(key.clone(), other),
        };
        let objects = &s.store.objects;
        let host = Host {
            load: |digest: &Digest| -> Result<Vec<u8>, Error> {
                objects.get(digest.as_str()).cloned().ok_or_else(|| {
                    Error::new(ErrorKind::InvalidSettings, "missing".to_string())
                })
            },
            read_json: |t: &str| read(t),
            decode_model: |_: &Value| -> Result<ModelMeta, Error> { Ok(empty_model()) },
            diagnose: |_: &str| -> Result<(), Error> { Ok(()) },
            ops: ops(),
        };
        let failure = verify_bundle_detailed(&bytes, &host).unwrap_err();
        assert_eq!(failure.dimension, dimension);
    }
}

#[test]
fn workspaces_round_trip_and_are_checked() {
    let s = inspected();
    let again = Workspace::parse(&s.workspace.to_value()).unwrap();
    assert!(same_value(&again.to_value(), &s.workspace.to_value()));
    let mut twice = study().workspace;
    let copy = study().workspace.decisions;
    twice.decisions.extend(copy);
    assert_eq!(message(twice.validate()), "workspace has duplicate decision id \"begin\"");
}

#[test]
fn attempts_are_only_added_to_the_history() {
    let mut s = study();
    let recipe = begin_attempt(&mut s.workspace, "look", &s.model, &s.data).unwrap();
    assert_eq!(recipe.id, "look");
    assert_eq!(s.workspace.attempts.len(), 1);
    fail_attempt(&mut s.workspace, "no luck");
    assert_eq!(s.workspace.attempts.len(), 1);
    assert_eq!(s.workspace.attempts[0].execution.outcome, Outcome::Failed);
    assert_eq!(s.workspace.attempts[0].execution.error.as_deref(), Some("no luck"));
    begin_attempt(&mut s.workspace, "look", &s.model, &s.data).unwrap();
    assert_eq!(s.workspace.attempts.len(), 2);
    assert!(begin_attempt(&mut s.workspace, "other", &s.model, &s.data).is_err());
}

#[test]
fn a_snapshot_retains_every_attempt() {
    let mut s = inspected();
    begin_attempt(&mut s.workspace, "look", &s.model, &s.data).unwrap();
    fail_attempt(&mut s.workspace, "no luck");
    let manifest = manifest_of(&s);
    assert_eq!(manifest.executions.len(), s.workspace.attempts.len());
}

#[test]
fn a_workspace_inspection_lists_what_was_selected() {
    let s = inspected();
    let report = workspace_inspection(&s.workspace, &s.model, &s.data, &vec![]).unwrap();
    assert_eq!(
        report.get("workspace_inspection_format").unwrap().as_str(),
        Some("v0-provisional")
    );
}

#[test]
fn a_fork_begins_without_results() {
    let s = inspected();
    let manifest = manifest_of(&s);
    let bytes = manifest.to_bytes().unwrap();
    let id = snapshot_digest(&bytes);
    let source = reference(&bytes, ArtifactKind::InvestigationManifest, "investigation-v0-provisional").unwrap();
    let fork = fork_workspace(&manifest, "begin", &id, &source).unwrap();
    assert!(fork.attempts.is_empty());
    assert!(fork.selections.is_empty());
    assert_eq!(fork.source.unwrap().decision, "begin");
    assert!(fork_workspace(&manifest, "end", &id, &source).is_err());
}

#[test]
fn a_replay_names_a_recipe_of_the_snapshot() {
    let manifest = manifest_of(&inspected());
    let id = manifest.recipes[0].id.clone();
    assert_eq!(find_replay(&manifest, &id).unwrap().id, id);
    assert!(find_replay(&manifest, "nothing").is_err());
}

#[test]
fn a_publication_names_its_manifest_and_engine() {
    let manifest = manifest_of(&inspected());
    let engine = export_engine(&manifest).unwrap();
    let bytes = manifest.to_bytes().unwrap();
    let value = publication_value(
        &snapshot_digest(&bytes),
        engine,
        &vec![("index.html".to_string(), b"<html>".to_vec())],
    );
    let place = value.get("manifest").unwrap().as_str().unwrap();
    assert!(place.starts_with("bundle/") && place.ends_with(".json"));
    assert_eq!(value.get("public_data_confirmed"), Some(&Value::Bool(true)));
    let asset = value.get("viewer_assets").unwrap().get("index.html").unwrap();
    assert_eq!(asset.get("bytes"), Some(&Value::Int(6)));
    assert_eq!(asset.get("sha256").unwrap().as_str(), Some(artifact_digest(b"<html>").as_str()));
}

#[test]
fn objects_are_checked_against_their_references() {
    let s = study();
    assert!(check_content(b"{}", &s.model.sha256).is_ok());
    assert!(check_content(b"[]", &s.model.sha256).is_err());
    assert!(check_length(b"{}", &s.model).is_ok());
    assert!(check_length(b"{} ", &s.model).is_err());
}

#[test]
fn a_sample_plan_is_read_from_normal_settings() {
    let half = Number { bits: 0.8f64.to_bits(), text: "0.8".to_string() };
    let settings = normalized_settings(
        Operation::Sample,
        &Value::Object(vec![
            ("chains".to_string(), Value::Int(2)),
            ("warmup".to_string(), Value::Int(10)),
            ("draws".to_string(), Value::Int(20)),
            ("max_treedepth".to_string(), Value::Int(8)),
            ("target_accept".to_string(), Value::Float(half.copy())),
            ("initial_step_size".to_string(), Value::Float(half)),
            ("seed".to_string(), Value::Int(3)),
        ]),
        "test",
    )
    .unwrap();
    let plan = sample_plan(&settings).unwrap();
    assert_eq!((plan.chains, plan.num_warmup, plan.num_draws, plan.seed), (2, 10, 20, 3));
    assert!(sample_plan(&text("x")).is_err());
}

#[test]
fn an_export_needs_explicit_consent() {
    let given = |words: &[&str]| words.iter().map(|w| w.to_string()).collect::<Vec<String>>();
    let all = given(&["ws", "--viewer", "--out", "site", "--public-data-confirmed"]);
    let without = given(&["ws", "--viewer", "--out", "site"]);
    assert!(parse_export_args(&without).is_err());
    match parse_export_args(&all) {
        Ok((bundle, out)) => assert_eq!((bundle.as_str(), out.as_str()), ("ws", "site")),
        Err(error) => panic!("{}", error.message),
    }
    assert!(parse_subcommand(&given(&["dance"])).is_err());
}

#[test]
fn every_object_of_a_snapshot_goes_along_once() {
    let mut manifest = manifest_of(&inspected());
    let extra = artifact_digest(b"cited");
    manifest.decisions[0].cites =
        vec![artifact_digest(b"cited"), Digest(manifest.model.sha256.as_str().to_string()), artifact_digest(b"cited")];
    let mut seen = vec![manifest.data.sha256.as_str().to_string()];
    let found: Vec<String> =
        unseen_references(&manifest, &mut seen).iter().map(|r| r.sha256.as_str().to_string()).collect();
    assert_eq!(found[0], manifest.model.sha256.as_str());
    assert!(!found.iter().any(|name| name == manifest.data.sha256.as_str()));
    assert_eq!(found, seen[1..].to_vec());
    let cited: Vec<String> =
        unseen_citations(&manifest, &mut seen).iter().map(|d| d.as_str().to_string()).collect();
    assert_eq!(cited, vec![extra.as_str().to_string()]);
    let mut names = seen.clone();
    names.sort();
    names.dedup();
    assert_eq!(names.len(), seen.len());
    for reference in manifest.direct_references() {
        assert!(seen.iter().any(|name| name == reference.sha256.as_str()));
    }
    assert!(unseen_references(&manifest, &mut seen).is_empty());
}

#[test]
fn the_inputs_of_a_recipe_are_read_model_first() {
    let decode = |_: &Value| -> Result<ModelMeta, Error> { Ok(empty_model()) };
    let found = prepare(b"{}", b"{ }", &|t: &str| read(t), &decode).unwrap();
    assert_eq!(
        found.fingerprint,
        "sha256:c80d280dfdb942e23fb4ffe4b81e54ce76c83480e0b79ce882947e94825fa46d"
    );
    assert!(found.data.is_empty());
    let complaint = |model: &[u8], data: &[u8]| match prepare(model, data, &|t: &str| read(t), &decode) {
        Ok(_) => panic!("accepted"),
        Err(error) => error.message,
    };
    assert_eq!(complaint(&[0xff], &[0xff]), "recipe model must be UTF-8 JSON");
    assert_eq!(complaint(b"{}", &[0xff]), "recipe data must be UTF-8 JSON");
    assert_eq!(complaint(b"{", b"3"), "not JSON");
    assert_eq!(complaint(b"{}", b"3"), "the data document must be a JSON object keyed by data name");
    let refuse =
        |_: &Value| -> Result<ModelMeta, Error> { Err(Error::new(ErrorKind::MalformedDocument, "no model".to_string())) };
    match prepare(b"{}", b"{", &|t: &str| read(t), &refuse) {
        Ok(_) => panic!("accepted"),
        Err(error) => assert_eq!(error.message, "no model"),
    }
}

#[test]
fn a_recipe_asks_for_its_operation() {
    let mut recipe = manifest_of(&inspected()).recipes.remove(0);
    assert!(matches!(recipe_task(&recipe, None), Ok(Task::Inspect)));
    recipe.operation = Operation::Diagnose;
    assert!(matches!(recipe_task(&recipe, Some(b"fit")), Ok(Task::Diagnose("fit"))));
    assert_eq!(message(recipe_task(&recipe, None).map(|_| ())), "diagnose recipe needs fit bytes");
    assert_eq!(message(recipe_task(&recipe, Some(&[0xff])).map(|_| ())), "fit must be UTF-8 NDJSON");
    recipe.operation = Operation::PosteriorCheck;
    assert_eq!(message(recipe_task(&recipe, None).map(|_| ())), "posterior-check recipe needs fit bytes");
    assert_eq!(
        message(recipe_task(&recipe, Some(b"fit")).map(|_| ())),
        "resolved recipe setting seed must be an integer"
    );
    recipe.settings = Value::Object(vec![("seed".to_string(), Value::Int(5))]);
    assert!(matches!(recipe_task(&recipe, Some(b"fit")), Ok(Task::PosteriorCheck("fit", 5))));
    recipe.operation = Operation::Sample;
    assert_eq!(
        message(recipe_task(&recipe, None).map(|_| ())),
        "resolved recipe setting chains must be an integer"
    );
}

#[test]
fn the_order_of_settings_plays_no_part_in_a_recipe() {
    let s = study();
    let rate = Number { bits: 0.8f64.to_bits(), text: "0.8".to_string() };
    let make = |id: &str, turned: bool| {
        let mut fields = vec![
            ("chains".to_string(), Value::Int(2)),
            ("warmup".to_string(), Value::Int(10)),
            ("draws".to_string(), Value::Int(20)),
            ("max_treedepth".to_string(), Value::Int(8)),
            ("target_accept".to_string(), Value::Float(rate.copy())),
            ("initial_step_size".to_string(), Value::Float(rate.copy())),
            ("seed".to_string(), Value::Int(3)),
        ];
        if turned {
            fields.reverse();
        }
        Recipe::new(
            id.to_string(),
            Operation::Sample,
            s.model.copy(),
            s.data.copy(),
            None,
            s.workspace.engine.copy(),
            Value::Object(fields),
        )
        .unwrap()
    };
    let (a, b) = (make("one", false), make("two", true));
    assert_eq!(a.sha256.as_str(), b.sha256.as_str());
    assert_eq!(a.compute_digest().unwrap().as_str(), b.compute_digest().unwrap().as_str());
    assert!(same_value(&a.settings, &b.settings));
    let mut altered = make("one", false);
    altered.sha256 = artifact_digest(b"another");
    let refused = Recipe::parse(&altered.to_value(), "test").unwrap_err();
    assert_eq!(refused.kind, ErrorKind::MalformedDocument);
}

#[test]
fn both_forms_of_verification_agree() {
    for missing in [false, true] {
        let mut s = inspected();
        let bytes = manifest_of(&s).to_bytes().unwrap();
        if missing {
            s.store.objects.remove(s.data.sha256.as_str());
        }
        let objects = &s.store.objects;
        let host = Host {
            load: |digest: &Digest| -> Result<Vec<u8>, Error> {
                objects.get(digest.as_str()).cloned().ok_or_else(|| {
                    Error::new(ErrorKind::InvalidSettings, "missing".to_string())
                })
            },
            read_json: |t: &str| read(t),
            decode_model: |_: &Value| -> Result<ModelMeta, Error> { Ok(empty_model()) },
            diagnose: |_: &str| -> Result<(), Error> { Ok(()) },
            ops: ops(),
        };
        match (verify_bundle(&bytes, &host), verify_bundle_detailed(&bytes, &host)) {
            (Ok((m, a)), Ok((n, b))) => {
                assert!(!missing);
                assert!(same_value(&m.to_value(), &n.to_value()));
                assert!(same_value(&a.to_value(), &b.to_value()));
            }
            (Err(error), Err(failure)) => {
                assert!(missing);
                assert_eq!(error.message, failure.error.message);
                assert_eq!(error.kind, failure.error.kind);
            }
            _ => panic!("the forms disagree"),
        }
    }
}
