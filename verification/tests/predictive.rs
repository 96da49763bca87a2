use bayesite_core::data::DataValue;
use bayesite_core::error::{Error, ErrorKind};
use bayesite_core::fingerprint::sha256_bytes;
use bayesite_core::generation::{generated_datasets_ndjson_lines, GenerationRequest, GenerationSource};
use bayesite_core::ir::{BinOpKind, Distribution, Expr, ModelMeta, ResolvedObserved, ResolvedParam, Size, UnaryFn};
use bayesite_core::json::Value;
use bayesite_core::number::Number;
use bayesite_core::numerics::{Arithmetic, Draw, DrawOps, IndexAtom, Randomness, TensorOps};
use bayesite_core::predictive::artifacts::prior_predictive_ndjson_lines;
use bayesite_core::predictive::fit::parse_fit_stream;
use bayesite_core::predictive::forward::{scatter_into, wrap_scatter_index, ForwardEnv};
use bayesite_core::predictive::generate::uniform_fit_index;
use bayesite_core::predictive::pairs::fixed_generation_pairs;
use bayesite_core::predictive::prior::simulate_prior_predictive;
use bayesite_core::predictive::records::PriorPredictiveSettings;
use bayesite_core::predictive::sampling::{is_increasing, sample_distribution};
use bayesite_core::predictive::statistics::{stat_summary_value, statistic_value, Statistic};
use bayesite_core::predictive::truth::simulate_data_from_truth;
use bayesite_core::tensor::Tensor;

fn number(value: f64) -> Number {
    Number { bits: value.to_bits(), text: format!("{value:?}") }
}

fn value(n: &Number) -> f64 {
    f64::from_bits(n.bits)
}

fn constant(value: f64) -> Expr {
    Expr::Const(number(value))
}

fn ops() -> impl Arithmetic {
    TensorOps {
        binary: |op: BinOpKind, a: &Tensor, b: &Tensor| -> Result<Tensor, Error> {
            let (x, y) = (value(&a.values[0]), value(&b.values[0]));
            Ok(Tensor::scalar(number(match op {
                BinOpKind::Add => x + y,
                BinOpKind::Sub => x - y,
                BinOpKind::Mul => x * y,
                BinOpKind::Div => x / y,
            })))
        },
        unary: |function: UnaryFn, a: &Tensor| -> Tensor {
            let x = value(&a.values[0]);
            Tensor::scalar(number(match function {
                UnaryFn::Exp => x.exp(),
                UnaryFn::Neg => -x,
                UnaryFn::Sigmoid => 1.0 / (1.0 + (-x).exp()),
            }))
        },
        product: |a: &Tensor, _: &Tensor| -> Result<Tensor, Error> { Ok(a.copy()) },
        gather: |a: &Tensor, _: &Vec<IndexAtom>| -> Result<Tensor, Error> { Ok(a.copy()) },
        joint: |a: &Vec<usize>, b: &Vec<usize>| -> Result<Vec<usize>, Error> {
            Ok(if a.is_empty() { b.clone() } else { a.clone() })
        },
        spread: |a: &Tensor, shape: &Vec<usize>| -> Result<Tensor, Error> {
            let count: usize = shape.iter().product();
            let values = (0..count).map(|i| a.values[i % a.values.len()].copy()).collect();
            Ok(Tensor { shape: shape.clone(), values })
        },
    }
}

/// A source that counts: every draw is the location of its family and the count so far.
fn rand() -> impl Randomness<Source = u64> {
    DrawOps {
        start: |seed: u64| -> u64 { seed },
        draw: |source: u64, kind: &Draw| -> Result<(Number, u64), Error> {
            let base = match kind {
                Draw::Normal { loc, .. } => value(loc),
                Draw::Uniform { low, .. } => value(low),
                _ => 0.0,
            };
            Ok((number(base + source as f64), source + 1))
        },
        standard: |source: u64| -> (Number, u64) { (number(source as f64), source + 1) },
        step: |v: &Number, factor: &Number, z: &Number| -> Number {
            number(value(v) + value(factor) * value(z))
        },
        integer: |source: u64| -> (u64, u64) { (source, source + 1) },
    }
}

fn model() -> ModelMeta {
    ModelMeta {
        params: vec![(
            "x".to_string(),
            ResolvedParam {
                distribution: Distribution::Normal { loc: constant(0.0), scale: constant(1.0) },
                constraint: None,
                size: Size::Scalar,
            },
        )],
        data: vec![],
        observed_nodes: vec![ResolvedObserved {
            name: "y".to_string(),
            distribution: Distribution::Normal {
                loc: Expr::Param("x".to_string()),
                scale: constant(1.0),
            },
        }],
        expressions: vec![],
        free_values: vec![],
        stochastic_sites: vec![],
    }
}

fn scalar(x: f64) -> DataValue {
    DataValue { shape: vec![], values: vec![number(x)], integer: false }
}

#[test]
fn prior_draws_record_every_site_in_every_draw() {
    let settings = PriorPredictiveSettings { num_draws: 3 };
    let run = simulate_prior_predictive(&model(), vec![], &settings, 10, &ops(), &rand()).unwrap();
    assert_eq!(run.draws.len(), 3);
    let names: Vec<&str> = run.sites.iter().map(|s| s.name.as_str()).collect();
    assert_eq!(names, vec!["x", "y"]);
    for draw in &run.draws {
        assert_eq!(draw.values.len(), 2);
    }
    let first = &run.draws[0].values;
    assert_eq!(value(&first[0].1.values[0]), 10.0);
    assert_eq!(value(&first[1].1.values[0]), 21.0);
}

#[test]
fn prior_lines_are_a_header_the_draws_and_a_trailer() {
    let settings = PriorPredictiveSettings { num_draws: 2 };
    let lines = prior_predictive_ndjson_lines(&model(), vec![], &settings, 1, &ops(), &rand()).unwrap();
    assert_eq!(lines.len(), 4);
    assert!(lines[0].contains("prior_predictive_draws"), "{}", lines[0]);
    let none = PriorPredictiveSettings { num_draws: 0 };
    assert!(prior_predictive_ndjson_lines(&model(), vec![], &none, 1, &ops(), &rand()).is_err());
}

#[test]
fn a_simulation_from_truth_extends_the_declared_data() {
    let truth = vec![("x".to_string(), scalar(4.0))];
    let data = simulate_data_from_truth(&model(), vec![], &truth, 5, &ops(), &rand()).unwrap();
    assert_eq!(data.len(), 1);
    assert_eq!(data[0].0, "y");
    assert_eq!(value(&data[0].1.values[0]), 9.0);
    assert!(simulate_data_from_truth(&model(), vec![], &vec![], 5, &ops(), &rand()).is_err());
    let unknown = vec![("x".to_string(), scalar(4.0)), ("z".to_string(), scalar(4.0))];
    assert!(simulate_data_from_truth(&model(), vec![], &unknown, 5, &ops(), &rand()).is_err());
}

#[test]
fn fixed_parameters_generate_as_many_pairs_as_asked() {
    let parameters = vec![("x".to_string(), scalar(4.0))];
    let pairs = fixed_generation_pairs(&model(), &vec![], parameters, 3, 0, &ops(), &rand()).unwrap();
    assert_eq!(pairs.len(), 3);
    for pair in &pairs {
        assert_eq!(pair.parameters[0].0, "x");
        assert_eq!(pair.outcomes[0].0, "y");
    }
}

fn canonical(variables: Vec<(String, Value)>) -> Value {
    Value::Object(vec![
        ("format".to_string(), Value::Str("bayescycle.data.json.v1".to_string())),
        ("variables".to_string(), Value::Object(variables)),
    ])
}

#[test]
fn generated_datasets_are_lines() {
    let described = Value::Object(vec![
        ("dtype".to_string(), Value::Str("float64".to_string())),
        ("shape".to_string(), Value::Array(vec![])),
        ("values".to_string(), Value::Float(number(4.0))),
    ]);
    let request = GenerationRequest {
        meta: model(),
        model_text: "model".to_string(),
        design: canonical(vec![]),
        source: GenerationSource::Fixed {
            parameters: canonical(vec![("x".to_string(), described)]),
            parameters_hash: sha256_bytes(b"parameters"),
        },
        count: 2,
        seed: 3,
        generation_model_hash: sha256_bytes(b"model"),
        design_hash: sha256_bytes(b"design"),
    };
    let read = |_: &str| -> Result<Value, Error> {
        Err(Error::new(ErrorKind::MalformedDocument, "unread".to_string()))
    };
    let diagnose = |_: &str| -> Result<(), Error> { Ok(()) };
    let lines = generated_datasets_ndjson_lines(&request, &ops(), &rand(), &read, &diagnose).unwrap();
    assert_eq!(lines.len(), 4);
    assert!(lines[1].contains("4.0"), "{}", lines[1]);
}

#[test]
fn a_negative_scale_is_refused() {
    let env = ForwardEnv { values: vec![], data: vec![] };
    let dist = Distribution::Normal { loc: constant(0.0), scale: constant(-1.0) };
    let refused = sample_distribution(&ops(), &rand(), &env, &dist, None, 0).unwrap_err();
    assert_eq!(refused.message, "Normal scale must be positive, got -1");
    let good = Distribution::Normal { loc: constant(2.0), scale: constant(1.0) };
    let (drawn, next) = sample_distribution(&ops(), &rand(), &env, &good, None, 5).unwrap();
    assert_eq!(value(&drawn.values[0]), 7.0);
    assert_eq!(next, 6);
}

#[test]
fn scattered_values_take_their_places() {
    assert_eq!(wrap_scatter_index(-1, 3).unwrap(), 2);
    assert_eq!(
        wrap_scatter_index(3, 3).unwrap_err().message,
        "scatter index 3 is out of bounds for length 3"
    );
    let base = vec![number(0.0), number(0.0)];
    let out = scatter_into(base, &vec![1, 0], &vec![number(5.0), number(6.0)]).unwrap();
    assert_eq!(value(&out[0]), 6.0);
    assert_eq!(value(&out[1]), 5.0);
}

#[test]
fn an_index_into_a_fit_is_uniform() {
    let (index, next) = uniform_fit_index(&rand(), 7, 3).unwrap();
    assert!(index < 7);
    assert!(next > 3);
}

#[test]
fn increasing_vectors() {
    assert!(is_increasing(&vec![number(1.0), number(2.0)]));
    assert!(!is_increasing(&vec![number(1.0), number(1.0)]));
    assert!(is_increasing(&vec![]));
}

#[test]
fn statistics_of_values() {
    let mean = |v: &Vec<Number>| number(v.iter().map(value).sum::<f64>() / v.len() as f64);
    let sd = |_: &Vec<Number>| number(0.0);
    let values = vec![number(0.0), number(4.0), number(-1.0)];
    let of = |kind: Statistic| statistic_value(kind, &values, &mean, &sd).map(|n| value(&n));
    assert_eq!(of(Statistic::Mean), Some(1.0));
    assert_eq!(of(Statistic::Min), Some(-1.0));
    assert_eq!(of(Statistic::Max), Some(4.0));
    assert_eq!(of(Statistic::ZeroCount), Some(1.0));
    let summary = stat_summary_value(
        &Some(number(2.0)),
        &vec![Some(number(1.0)), Some(number(3.0))],
        &mean,
        &sd,
    );
    assert!(summary.get("observed").is_some());
}

#[test]
fn a_fit_stream_needs_its_lines() {
    let read = |_: &str| -> Result<Value, Error> {
        Err(Error::new(ErrorKind::MalformedDocument, "not JSON".to_string()))
    };
    let packing = vec![("x".to_string(), vec![])];
    assert!(parse_fit_stream("", &packing, "hash", None, &read).is_err());
    assert!(parse_fit_stream("{}\n", &packing, "hash", None, &read).is_err());
}

#[test]
fn a_normal_vector_reads_the_lower_triangle_of_its_scale() {
    let values = |list: &[f64]| -> Vec<Number> { list.iter().map(|&x| number(x)).collect() };
    let env = ForwardEnv {
        values: vec![],
        data: vec![
            ("m".to_string(), DataValue { shape: vec![2], values: values(&[1.0, 2.0]), integer: false }),
            ("t".to_string(), DataValue { shape: vec![2, 2], values: values(&[2.0, 99.0, 3.0, 4.0]), integer: false }),
        ],
    };
    let dist = Distribution::MultivariateNormal {
        mean: Expr::Data("m".to_string()),
        scale_tril: Expr::Data("t".to_string()),
    };
    let (drawn, next) = sample_distribution(&ops(), &rand(), &env, &dist, None, 5).unwrap();
    assert_eq!(drawn.shape, vec![2]);
    assert_eq!(value(&drawn.values[0]), 11.0);
    assert_eq!(value(&drawn.values[1]), 41.0);
    assert_eq!(next, 7);
}

#[test]
fn a_shorter_prior_run_is_the_beginning_of_a_longer_one() {
    let run = |draws: usize| {
        let settings = PriorPredictiveSettings { num_draws: draws };
        simulate_prior_predictive(&model(), vec![], &settings, 4, &ops(), &rand()).unwrap()
    };
    let (short, long) = (run(2), run(5));
    assert_eq!(short.sites.len(), long.sites.len());
    for (a, b) in short.draws.iter().zip(&long.draws) {
        for (x, y) in a.values.iter().zip(&b.values) {
            assert_eq!(x.0, y.0);
            assert_eq!(x.1.values[0].bits, y.1.values[0].bits);
        }
    }
}
