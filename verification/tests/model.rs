use bayesite_core::data::DataValue;
use bayesite_core::error::{Error, ErrorKind};
use bayesite_core::inspect::report::{inspect_json, inspect_model};
use bayesite_core::inspect::wire::expression_wire_value;
use bayesite_core::ir::{
    BinOpKind, Constraint, DataSchema, Distribution, Expr, ModelMeta, ResolvedData, ResolvedObserved, ResolvedParam, Size,
    UnaryFn,
};
use bayesite_core::json::Value;
use bayesite_core::model::fnv1a64;
use bayesite_core::number::Number;
use bayesite_core::numerics::{Arithmetic, IndexAtom, TensorOps};
use bayesite_core::posterior::Posterior;
use bayesite_core::render::same_value;
use bayesite_core::tensor::Tensor;

fn number(value: f64) -> Number {
    Number { bits: value.to_bits(), text: format!("{value:?}") }
}

fn constant(value: f64) -> Expr {
    Expr::Const(number(value))
}

fn refused() -> Error {
    Error::new(ErrorKind::DataShapeMismatch, "shapes do not broadcast".to_string())
}

fn ops() -> impl Arithmetic {
    TensorOps {
        binary: |op: BinOpKind, a: &Tensor, b: &Tensor| -> Result<Tensor, Error> {
            if a.shape.len() != 0 || b.shape.len() != 0 {
                return Err(refused());
            }
            let x = f64::from_bits(a.values[0].bits);
            let y = f64::from_bits(b.values[0].bits);
            Ok(Tensor::scalar(number(match op {
                BinOpKind::Add => x + y,
                BinOpKind::Sub => x - y,
                BinOpKind::Mul => x * y,
                BinOpKind::Div => x / y,
            })))
        },
        unary: |function: UnaryFn, a: &Tensor| -> Tensor {
            let values = a
                .values
                .iter()
                .map(|n| {
                    let x = f64::from_bits(n.bits);
                    number(match function {
                        UnaryFn::Exp => x.exp(),
                        UnaryFn::Neg => -x,
                        UnaryFn::Sigmoid => 1.0 / (1.0 + (-x).exp()),
                    })
                })
                .collect();
            Tensor { shape: a.shape.clone(), values }
        },
        product: |_: &Tensor, _: &Tensor| -> Result<Tensor, Error> { Err(refused()) },
        gather: |_: &Tensor, _: &Vec<IndexAtom>| -> Result<Tensor, Error> { Err(refused()) },
        joint: |a: &Vec<usize>, b: &Vec<usize>| -> Result<Vec<usize>, Error> {
            if a.len() == 0 {
                Ok(b.clone())
            } else if b.len() == 0 || a == b {
                Ok(a.clone())
            } else {
                Err(refused())
            }
        },
        spread: |a: &Tensor, shape: &Vec<usize>| -> Result<Tensor, Error> {
            if &a.shape == shape {
                Ok(a.copy())
            } else {
                Err(refused())
            }
        },
    }
}

fn parameter(distribution: Distribution, constraint: Option<Constraint>, size: Size) -> ResolvedParam {
    ResolvedParam { distribution, constraint, size }
}

fn normal(loc: Expr, scale: Expr) -> Distribution {
    Distribution::Normal { loc, scale }
}

fn model(params: Vec<(String, ResolvedParam)>) -> ModelMeta {
    ModelMeta {
        params,
        data: vec![],
        observed_nodes: vec![],
        expressions: vec![],
        free_values: vec![],
        stochastic_sites: vec![],
    }
}

fn vector(values: &[f64]) -> DataValue {
    DataValue {
        shape: vec![values.len()],
        values: values.iter().map(|&v| number(v)).collect(),
        integer: false,
    }
}

#[test]
fn programmatic_deep_expressions_are_a_typed_error_not_a_crash() {
    let mut loc = constant(0.0);
    for _ in 0..4096 {
        loc = Expr::Bin {
            op: BinOpKind::Add,
            left: Box::new(loc),
            right: Box::new(constant(1.0)),
        };
    }
    let meta = model(vec![(
        "x".to_string(),
        parameter(normal(loc, constant(1.0)), None, Size::Scalar),
    )]);
    let err = Posterior::new(meta, vec![], &ops()).unwrap_err();
    assert_eq!(err.kind, ErrorKind::MalformedDocument);
    assert!(err.message.contains("nesting"), "message: {}", err.message);
}

#[test]
fn free_values_are_packed_one_behind_the_other() {
    let meta = model(vec![
        ("a".to_string(), parameter(normal(constant(0.0), constant(1.0)), None, Size::Scalar)),
        ("b".to_string(), parameter(normal(constant(0.0), constant(1.0)), None, Size::Fixed(3))),
        (
            "c".to_string(),
            parameter(normal(constant(0.0), constant(1.0)), Some(Constraint::Positive), Size::Scalar),
        ),
    ]);
    let posterior = Posterior::new(meta, vec![], &ops()).unwrap();
    assert_eq!(posterior.n_params(), 5);
    assert_eq!(
        posterior.packing(),
        vec![
            ("a".to_string(), vec![]),
            ("b".to_string(), vec![3]),
            ("c".to_string(), vec![]),
        ]
    );
    let offsets: Vec<usize> = posterior.free.iter().map(|slot| slot.offset).collect();
    assert_eq!(offsets, vec![0, 1, 4]);
    assert!(posterior.validate_q(5).is_ok());
    let error = posterior.validate_q(4).unwrap_err();
    assert_eq!(
        error.message,
        "unconstrained parameter vector q has wrong length: expected 5, got 4"
    );
}

#[test]
fn missing_and_unknown_data_are_refused_by_name() {
    let mut meta = model(vec![]);
    meta.observed_nodes.push(ResolvedObserved {
        name: "y".to_string(),
        distribution: normal(constant(0.0), constant(1.0)),
    });
    let error = Posterior::new(meta, vec![], &ops()).unwrap_err();
    assert!(error.message.contains("\"y\""), "message: {}", error.message);
    let error = Posterior::new(
        model(vec![]),
        vec![("z".to_string(), vector(&[1.0]))],
        &ops(),
    )
    .unwrap_err();
    assert!(error.message.contains("\"z\""), "message: {}", error.message);
}

#[test]
fn crossed_vector_bounds_are_refused() {
    let mut meta = model(vec![(
        "x".to_string(),
        parameter(
            normal(constant(0.0), constant(1.0)),
            Some(Constraint::VectorBounds {
                lower: Some("lo".to_string()),
                upper: Some("hi".to_string()),
            }),
            Size::Fixed(2),
        ),
    )]);
    for name in ["lo", "hi"] {
        meta.data.push((
            name.to_string(),
            ResolvedData { schema: DataSchema::Rank(1) },
        ));
    }
    let error = Posterior::new(
        meta,
        vec![
            ("lo".to_string(), vector(&[0.0, 2.0])),
            ("hi".to_string(), vector(&[1.0, 1.0])),
        ],
        &ops(),
    )
    .unwrap_err();
    assert!(error.message.contains("require lower < upper"), "message: {}", error.message);
}

#[test]
fn the_first_constraint_that_does_not_resolve_is_the_error() {
    let bounded = |name: &str| {
        let constraint = Constraint::VectorBounds { lower: None, upper: None };
        (
            name.to_string(),
            parameter(normal(constant(0.0), constant(1.0)), Some(constraint), Size::Scalar),
        )
    };
    let free = ("free".to_string(), parameter(normal(constant(0.0), constant(1.0)), None, Size::Scalar));
    let meta = model(vec![free, bounded("first"), bounded("second")]);
    let error = Posterior::new(meta, vec![], &ops()).unwrap_err();
    assert!(error.message.contains("\"first\""), "message: {}", error.message);
}

#[test]
fn fnv_hash_of_known_bytes() {
    assert_eq!(fnv1a64(b""), 0xcbf2_9ce4_8422_2325);
    assert_eq!(fnv1a64(b"a"), 0xaf63_dc4c_8601_ec8c);
    assert_eq!(fnv1a64(b"foobar"), 0x8594_4171_f739_67e8);
}

#[test]
fn an_inspection_reports_slots_factors_and_no_discrepancy() {
    let meta = model(vec![(
        "x".to_string(),
        parameter(
            normal(constant(0.0), constant(1.0)),
            Some(Constraint::UnitInterval),
            Size::Scalar,
        ),
    )]);
    let report = inspect_model(&meta, &vec![], &ops()).unwrap();
    assert_eq!(report.get("unconstrained_parameter_count"), Some(&Value::Int(1)));
    assert_eq!(report.get("structural_discrepancies"), Some(&Value::Array(vec![])));
    let slots = report.get("free_slots").unwrap().as_array().unwrap();
    assert_eq!(slots[0].get("offset"), Some(&Value::Int(0)));
    let constraint = slots[0].get("resolved_constraint").unwrap();
    assert_eq!(constraint.get("kind").unwrap().as_str(), Some("unit_interval"));
    let factors = report.get("density_factors").unwrap().as_array().unwrap();
    assert_eq!(factors.len(), 1);
    assert_eq!(factors[0].get("name").unwrap().as_str(), Some("x"));
    let text = inspect_json(&meta, &vec![], &ops()).unwrap();
    assert!(text.starts_with("{\"inspection_format\":\"v0-provisional\",\"execution_metadata\":{\"free_values\":\"legacy_derived\""));
    assert!(text.contains("\"lower\":0.0,\"upper\":1.0"));
}

#[test]
fn an_inspection_reports_what_declarations_and_factors_disagree_in() {
    let mut meta = model(vec![(
        "x".to_string(),
        parameter(normal(constant(0.0), constant(1.0)), None, Size::Scalar),
    )]);
    meta.stochastic_sites.push(bayesite_core::ir::ResolvedStochasticSite {
        name: "x".to_string(),
        distribution: normal(constant(0.0), constant(2.0)),
        value: Expr::Param("x".to_string()),
    });
    meta.stochastic_sites.push(bayesite_core::ir::ResolvedStochasticSite {
        name: "extra".to_string(),
        distribution: normal(constant(0.0), constant(2.0)),
        value: Expr::Param("x".to_string()),
    });
    let report = inspect_model(&meta, &vec![], &ops()).unwrap();
    let found = report.get("structural_discrepancies").unwrap().as_array().unwrap();
    let kinds: Vec<&str> = found.iter().map(|d| d.get("kind").unwrap().as_str().unwrap()).collect();
    assert_eq!(
        kinds,
        vec![
            "declared_distribution_differs_from_execution_factor",
            "execution_factor_without_same_name_declaration",
        ]
    );
}

#[test]
fn different_expressions_have_different_documents() {
    let bin = |op: BinOpKind, left: Expr, right: Expr| Expr::Bin { op, left: Box::new(left), right: Box::new(right) };
    let all = vec![
        Expr::Param("x".to_string()),
        Expr::Data("x".to_string()),
        constant(1.0),
        constant(2.0),
        bin(BinOpKind::Sub, constant(1.0), constant(2.0)),
        bin(BinOpKind::Sub, constant(2.0), constant(1.0)),
        bin(BinOpKind::Div, constant(1.0), constant(2.0)),
        Expr::Unary { function: UnaryFn::Neg, operand: Box::new(constant(1.0)) },
    ];
    for (i, a) in all.iter().enumerate() {
        for (j, b) in all.iter().enumerate() {
            assert_eq!(same_value(&expression_wire_value(a), &expression_wire_value(b)), i == j);
        }
        match expression_wire_value(a) {
            Value::Object(fields) => assert_eq!(fields[0].0, "node"),
            _ => panic!("not an object"),
        }
    }
}
