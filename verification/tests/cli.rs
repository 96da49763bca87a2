use bayesite_core::cli::args::{parse_generate_args, parse_sample_args, GenerateSourceArgs, Settings};
use bayesite_core::cli::commands::{capabilities_document, failure_document, parse_args, Command};
use bayesite_core::cli::documents::parse_recover_check_args;
use bayesite_core::cli::flags::{validate_diagnostic_draws, validate_max_treedepth, Argument};
use bayesite_core::cli::scenario::{parse_recover_scenario, parse_sbc_scenario, SampleScenario};
use bayesite_core::error::{Error, ErrorKind};
use bayesite_core::json::Value;
use bayesite_core::number::Number;
use bayesite_core::render::render;

fn number(value: f64) -> Number {
    Number { bits: value.to_bits(), text: format!("{value:?}") }
}

fn arguments(words: &[&str]) -> Vec<Argument> {
    words
        .iter()
        .map(|word| Argument {
            text: word.to_string(),
            number: word.parse::<f64>().ok().map(number),
        })
        .collect()
}

fn defaults() -> Settings {
    Settings { num_warmup: 1000, num_draws: 500, max_treedepth: 10, target_accept: number(0.8) }
}

fn base() -> SampleScenario {
    SampleScenario { sampler: defaults(), chains: 4, thin: None }
}

fn refused<T>(result: Result<T, Error>) -> String {
    match result {
        Ok(_) => panic!("accepted"),
        Err(error) => {
            assert_eq!(error.kind, ErrorKind::InvalidSettings);
            error.message
        }
    }
}

fn object(entries: Vec<(&str, Value)>) -> Value {
    Value::Object(entries.into_iter().map(|(name, value)| (name.to_string(), value)).collect())
}

#[test]
fn sample_arguments_have_defaults() {
    let args = parse_sample_args(&arguments(&["--model", "m.json", "--data", "-"]), &defaults()).unwrap();
    assert_eq!(args.model_path, "m.json");
    assert_eq!(args.data_path, "-");
    assert_eq!(args.out_path, "-");
    assert_eq!(args.settings.num_warmup, 1000);
    assert_eq!(args.settings.num_draws, 500);
}

#[test]
fn sample_arguments_are_read() {
    let args = parse_sample_args(
        &arguments(&[
            "--model", "m", "--data", "d", "--seed", "7", "--chains", "2", "--warmup", "0", "--draws", "9",
            "--max-treedepth", "20", "--target-accept", "0.95", "--out", "o",
        ]),
        &defaults(),
    )
    .unwrap();
    assert_eq!((args.seed, args.chains), (7, 2));
    assert_eq!(args.settings.num_draws, 9);
    assert_eq!(args.settings.max_treedepth, 20);
    assert_eq!(args.settings.target_accept.text, "0.95");
    assert_eq!(args.out_path, "o");
}

#[test]
fn flags_are_refused_where_they_do_not_fit() {
    let parse = |words: &[&str]| refused(parse_sample_args(&arguments(words), &defaults()));
    assert_eq!(
        parse(&["--model", "m", "--model", "n"]),
        "sample has duplicate flag --model; pass it once"
    );
    assert_eq!(parse(&["--modle", "m"]), "unknown flag --modle; see `bayesite sample` usage");
    assert_eq!(parse(&["--model"]), "flag --model needs a value");
    assert_eq!(parse(&["--model", "--data"]), "flag --model needs a value before --data");
    assert_eq!(
        parse(&["--model", "m"]),
        "--data is required (a path or - for stdin)"
    );
    assert_eq!(
        parse(&["--model", "-", "--data", "-"]),
        "sample accepts at most one stdin input; use a path for --data when --model is -"
    );
    assert_eq!(
        parse(&["--model", "m", "--data", "d", "--target-accept", "1"]),
        "--target-accept must be in (0, 1)"
    );
    assert_eq!(
        parse(&["--model", "m", "--data", "d", "--max-treedepth", "21"]),
        "--max-treedepth must be in 1..=20"
    );
}

#[test]
fn a_source_of_generation_takes_its_own_flags() {
    let common = ["--model", "m", "--design", "d", "--source"];
    let with = |rest: &[&str]| {
        let mut words = common.to_vec();
        words.extend(rest);
        parse_generate_args(&arguments(&words))
    };
    match with(&["fixed", "--parameters", "p"]).unwrap().source {
        GenerateSourceArgs::Fixed { parameters_path } => assert_eq!(parameters_path, "p"),
        other => panic!("{other:?}"),
    }
    assert!(matches!(with(&["model-prior"]).unwrap().source, GenerateSourceArgs::ModelPrior));
    assert!(with(&["fixed"]).is_err());
    assert!(with(&["model-prior", "--parameters", "p"]).is_err());
    assert!(with(&["posterior", "--fit", "f"]).is_err());
    assert!(with(&["elsewhere"]).is_err());
}

#[test]
fn commands_are_told_apart_by_name() {
    assert!(matches!(
        parse_args(arguments(&["capabilities"]), &defaults()).unwrap(),
        Command::Capabilities
    ));
    assert_eq!(
        refused(parse_args(arguments(&["capabilities", "x"]), &defaults())),
        "capabilities takes no arguments; remove x"
    );
    assert!(parse_args(arguments(&["dance"]), &defaults()).is_err());
    assert!(parse_args(arguments(&[]), &defaults()).is_err());
}

#[test]
fn an_interval_lies_inside_the_unit_interval() {
    let words = ["--fit", "f", "--truth", "t"];
    assert!(parse_recover_check_args(&arguments(&words)).is_ok());
    let mut wide = words.to_vec();
    wide.extend(["--interval", "1.5"]);
    assert!(parse_recover_check_args(&arguments(&wide)).is_err());
}

#[test]
fn limits_of_settings() {
    assert!(validate_max_treedepth(1, "t").is_ok());
    assert!(validate_max_treedepth(0, "t").is_err());
    assert!(validate_diagnostic_draws(4, "d", "reports").is_ok());
    assert_eq!(
        refused(validate_diagnostic_draws(3, "d", "reports")),
        "d must be at least 4 because reports include diagnostics"
    );
}

#[test]
fn failures_are_documents() {
    let error = Error::new(ErrorKind::MalformedDocument, "no \"model\"".to_string());
    assert_eq!(
        render(&failure_document(&error)).unwrap(),
        "{\"error_format\":\"v0-provisional\",\"error\":\"MalformedDocument\",\"message\":\"no \\\"model\\\"\"}"
    );
    let capabilities = capabilities_document("1.2.3");
    let commands = capabilities.get("commands").unwrap().as_array().unwrap();
    assert!(commands.contains(&Value::Str("sbc".to_string())));
}

#[test]
fn scenarios_refuse_fields_they_do_not_know() {
    let empty = object(vec![]);
    let doc = object(vec![("data", empty), ("mystery", Value::Int(1))]);
    assert!(parse_recover_scenario(&doc, &base()).is_err());
    assert!(parse_sbc_scenario(&doc, 5, &base()).is_err());
}
