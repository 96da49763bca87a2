use bayesite_core::bounds::ResolvedConstraint;
use bayesite_core::data::DataValue;
use bayesite_core::density::{log_prob, DistVars, Var, ONE};
use bayesite_core::error::{Error, ErrorKind};
use bayesite_core::ir::{BinOpKind, Distribution, Expr, IndexSpec, ResolvedStochasticSite, UnaryFn};
use bayesite_core::logp::calculus::{Calculus, Inputs, ModelOps};
use bayesite_core::logp::graph::CompiledLogp;
use bayesite_core::number::Number;
use bayesite_core::numerics::{Arithmetic, IndexAtom, TensorOps};
use bayesite_core::posterior::{FreeSlot, Posterior};
use bayesite_core::tensor::Tensor;
use bayesite_core::term::{BinaryOp, Term, UnaryOp};
use bayesite_core::transform::apply_constraint;

fn number(value: f64) -> Number {
    Number { bits: value.to_bits(), text: format!("{value:?}") }
}

fn constant(value: f64) -> Expr {
    Expr::Const(number(value))
}

fn refused() -> Error {
    Error::new(ErrorKind::DataShapeMismatch, "shapes do not broadcast".to_string())
}

fn ops() -> impl Arithmetic {
    TensorOps {
        binary: |op: BinOpKind, a: &Tensor, b: &Tensor| -> Result<Tensor, Error> {
            let x = f64::from_bits(a.values[0].bits);
            let y = f64::from_bits(b.values[0].bits);
            Ok(Tensor::scalar(number(match op {
                BinOpKind::Add => x + y,
                BinOpKind::Sub => x - y,
                BinOpKind::Mul => x * y,
                BinOpKind::Div => x / y,
            })))
        },
        unary: |_: UnaryFn, a: &Tensor| -> Tensor { a.copy() },
        product: |_: &Tensor, _: &Tensor| -> Result<Tensor, Error> { Err(refused()) },
        gather: |a: &Tensor, _: &Vec<IndexAtom>| -> Result<Tensor, Error> { Ok(a.copy()) },
        joint: |a: &Vec<usize>, _: &Vec<usize>| -> Result<Vec<usize>, Error> { Ok(a.clone()) },
        spread: |a: &Tensor, _: &Vec<usize>| -> Result<Tensor, Error> { Ok(a.copy()) },
    }
}

fn scalar_value(term: &Term, inputs: &Inputs) -> f64 {
    let of = |t: &Term| scalar_value(t, inputs);
    match term {
        Term::Leaf(i) => f64::from_bits(inputs.leaves[*i].values[0].bits),
        Term::LowerBounds(_) => f64::from_bits(inputs.lower.as_ref().unwrap()[0].bits),
        Term::UpperBounds(_) => f64::from_bits(inputs.upper.as_ref().unwrap()[0].bits),
        Term::Double(bits) => f64::from_bits(*bits),
        Term::Unary(op, a) => {
            let x = of(a);
            match op {
                UnaryOp::Exp => x.exp(),
                UnaryOp::Neg => -x,
                UnaryOp::Ln => x.ln(),
                UnaryOp::Ln1p => x.ln_1p(),
                UnaryOp::Sigmoid => 1.0 / (1.0 + (-x).exp()),
                UnaryOp::Softplus => x.exp().ln_1p(),
                UnaryOp::IsInteger => (x.fract() == 0.0) as u8 as f64,
                UnaryOp::NextUp => f64::from_bits(x.to_bits() + 1),
                UnaryOp::NextDown => f64::from_bits(x.to_bits() - 1),
                _ => x,
            }
        }
        Term::Binary(op, a, b) => {
            let (x, y) = (of(a), of(b));
            match op {
                BinaryOp::Add => x + y,
                BinaryOp::Sub => x - y,
                BinaryOp::Mul => x * y,
                BinaryOp::Div => x / y,
                BinaryOp::Ge => (x >= y) as u8 as f64,
                BinaryOp::Le => (x <= y) as u8 as f64,
                BinaryOp::Gt => (x > y) as u8 as f64,
                BinaryOp::Lt => (x < y) as u8 as f64,
                BinaryOp::And => x * y,
                _ => x,
            }
        }
        Term::Select(a, b, c) => {
            if of(a) != 0.0 {
                of(b)
            } else {
                of(c)
            }
        }
        Term::NormalLogProb(x, loc, scale) => {
            let z = (of(x) - of(loc)) / of(scale);
            -0.5 * z * z - of(scale).ln() - 0.5 * (2.0 * std::f64::consts::PI).ln()
        }
        other => panic!("{other:?}"),
    }
}

fn eval() -> impl Fn(&Term, &Inputs) -> Result<Tensor, Error> {
    |term: &Term, inputs: &Inputs| Ok(Tensor::scalar(number(scalar_value(term, inputs))))
}

fn no_slopes(_: &CompiledLogp, _: &Vec<Number>) -> Vec<Tensor> {
    panic!("no derivative is asked for")
}

fn calculus() -> impl Calculus {
    ModelOps { tensors: ops(), evaluate: eval(), slopes: no_slopes }
}

fn scalar(k: usize) -> Var {
    Var { term: Term::Leaf(k), shape: vec![] }
}

fn inputs(values: &[f64]) -> Inputs {
    Inputs {
        leaves: values.iter().map(|&v| Tensor::scalar(number(v))).collect(),
        lower: None,
        upper: None,
    }
}

fn slot(name: &str, constraint: Option<ResolvedConstraint>, offset: usize) -> FreeSlot {
    FreeSlot { name: name.to_string(), constraint, shape: vec![], offset, size: 1 }
}

#[test]
fn densities_match_their_formulas() {
    let of = |dist: &DistVars, value: &Var, given: &[f64]| {
        scalar_value(&log_prob(&ops(), dist, value).unwrap(), &inputs(given))
    };
    let exponential = DistVars::Exponential { rate: scalar(0) };
    assert_eq!(of(&exponential, &scalar(1), &[2.0, 3.0]), 2.0f64.ln() - 6.0);
    assert_eq!(of(&exponential, &scalar(1), &[2.0, -1.0]), f64::NEG_INFINITY);
    let uniform = DistVars::Uniform { low: scalar(0), high: scalar(1) };
    assert_eq!(of(&uniform, &scalar(2), &[1.0, 5.0, 2.0]), -(4.0f64.ln()));
    assert_eq!(of(&uniform, &scalar(2), &[1.0, 5.0, 6.0]), f64::NEG_INFINITY);
    let half = DistVars::HalfNormal { scale: scalar(0) };
    let lead = (2.0 / std::f64::consts::PI).ln() * 0.5;
    assert!((of(&half, &scalar(1), &[1.0, 0.0]) - lead).abs() < 1e-15);
}

#[test]
fn a_truncated_density_is_renormalized() {
    let dist = DistVars::Truncated {
        base: Box::new(DistVars::Uniform { low: scalar(0), high: scalar(1) }),
        lower: Some(scalar(2)),
        upper: None,
    };
    let term = log_prob(&ops(), &dist, &scalar(3)).unwrap();
    let inside = scalar_value(&term, &inputs(&[0.0, 4.0, 2.0, 3.0]));
    assert!((inside - -(2.0f64.ln())).abs() < 1e-12, "{inside}");
    assert_eq!(scalar_value(&term, &inputs(&[0.0, 4.0, 2.0, 1.0])), f64::NEG_INFINITY);
    let refused = DistVars::Truncated {
        base: Box::new(DistVars::Beta { alpha: scalar(0), beta: scalar(1) }),
        lower: Some(scalar(2)),
        upper: None,
    };
    assert!(log_prob(&ops(), &refused, &scalar(3)).is_err());
}

#[test]
fn constraints_map_inputs_into_their_sets() {
    let positive = apply_constraint(&slot("x", Some(ResolvedConstraint::Positive), 0), 0).unwrap();
    assert_eq!(positive.value, Term::Unary(UnaryOp::Exp, Box::new(Term::Leaf(0))));
    assert!(positive.jacobian.is_some());
    let unit = apply_constraint(&slot("x", Some(ResolvedConstraint::UnitInterval), 0), 0).unwrap();
    assert_eq!(scalar_value(&unit.value, &inputs(&[0.0])), 0.5);
    let open = apply_constraint(&slot("x", None, 0), 3).unwrap();
    assert_eq!(open.value, Term::Leaf(3));
    assert!(open.jacobian.is_none());
    let ordered = apply_constraint(&slot("x", Some(ResolvedConstraint::Ordered), 0), 0).unwrap_err();
    assert_eq!(ordered.message, "Ordered constraint on \"x\" requires vector values");
    assert_eq!(ONE, 1.0f64.to_bits());
}

fn posterior() -> Posterior {
    Posterior {
        free: vec![slot("s", Some(ResolvedConstraint::Positive), 0), slot("m", None, 1)],
        sites: vec![
            ResolvedStochasticSite {
                name: "s".to_string(),
                distribution: Distribution::Exponential { rate: constant(1.0) },
                value: Expr::Param("s".to_string()),
            },
            ResolvedStochasticSite {
                name: "m".to_string(),
                distribution: Distribution::Normal {
                    loc: constant(0.0),
                    scale: Expr::Param("s".to_string()),
                },
                value: Expr::Param("m".to_string()),
            },
        ],
        data: vec![],
        n_params: 2,
    }
}

#[test]
fn a_log_density_adds_up_jacobians_and_sites() {
    let q = vec![number(0.5), number(0.25)];
    let found = posterior().logp(&calculus(), &q).unwrap();
    let s = 0.5f64.exp();
    let z = 0.25 / s;
    let expected =
        0.5 + (1.0f64.ln() - s) + (-0.5 * z * z - s.ln() - 0.5 * (2.0 * std::f64::consts::PI).ln());
    let got = f64::from_bits(found.bits);
    assert!((got - expected).abs() < 1e-12, "{got} {expected}");
    let values = posterior().constrain(&calculus(), &q).unwrap();
    assert_eq!(values[0].0, "s");
    assert_eq!(f64::from_bits(values[0].1.values[0].bits), s);
    assert_eq!(f64::from_bits(values[1].1.values[0].bits), 0.25);
}

#[test]
fn a_log_density_refuses_a_vector_of_another_length() {
    let q = vec![number(0.5)];
    let expected = "unconstrained parameter vector q has wrong length: expected 2, got 1";
    assert_eq!(posterior().logp(&calculus(), &q).unwrap_err().message, expected);
    assert_eq!(posterior().constrain(&calculus(), &q).unwrap_err().message, expected);
}

#[test]
fn an_index_must_not_depend_on_a_parameter() {
    let mut p = posterior();
    p.sites[1].value = Expr::Index {
        base: Box::new(Expr::Param("m".to_string())),
        index: IndexSpec::Scalar(Box::new(Expr::Param("s".to_string()))),
    };
    let error = p.logp(&calculus(), &vec![number(0.0), number(0.0)]).unwrap_err();
    assert_eq!(error.message, "index expressions must not depend on parameters");
    let mut p = posterior();
    p.sites[1].value = Expr::Param("nothing".to_string());
    let error = p.logp(&calculus(), &vec![number(0.0), number(0.0)]).unwrap_err();
    assert_eq!(error.message, "reference to unknown value \"nothing\"");
}

fn broadcast(a: &Vec<usize>, b: &Vec<usize>) -> Result<Vec<usize>, Error> {
    match (a.len(), b.len()) {
        (0, _) => Ok(b.clone()),
        (_, 0) => Ok(a.clone()),
        _ if a == b => Ok(a.clone()),
        _ => Err(Error::new(ErrorKind::DataShapeMismatch, format!("{a:?} against {b:?}"))),
    }
}

fn broadcasting() -> impl Arithmetic {
    TensorOps {
        binary: |_: BinOpKind, a: &Tensor, _: &Tensor| -> Result<Tensor, Error> { Ok(a.copy()) },
        unary: |_: UnaryFn, a: &Tensor| -> Tensor { a.copy() },
        product: |_: &Tensor, _: &Tensor| -> Result<Tensor, Error> { Err(refused()) },
        gather: |a: &Tensor, _: &Vec<IndexAtom>| -> Result<Tensor, Error> { Ok(a.copy()) },
        joint: broadcast,
        spread: |a: &Tensor, _: &Vec<usize>| -> Result<Tensor, Error> { Ok(a.copy()) },
    }
}

fn vector(k: usize, length: usize) -> Var {
    Var { term: Term::Leaf(k), shape: vec![length] }
}

#[test]
fn shapes_that_do_not_broadcast_are_refused() {
    let of = |dist: &DistVars, value: &Var| log_prob(&broadcasting(), dist, value);
    let refusal = |dist: &DistVars, value: &Var| of(dist, value).unwrap_err().message;
    let uniform = DistVars::Uniform { low: scalar(0), high: vector(1, 2) };
    assert!(of(&uniform, &vector(2, 2)).is_ok());
    assert!(of(&uniform, &scalar(2)).is_ok());
    assert_eq!(refusal(&uniform, &vector(2, 3)), "[3] against [2]");
    let beta = DistVars::Beta { alpha: vector(0, 2), beta: vector(1, 3) };
    assert_eq!(refusal(&beta, &scalar(2)), "[2] against [3]");
    let poisson = DistVars::Poisson { rate: vector(0, 4) };
    assert_eq!(refusal(&poisson, &vector(1, 5)), "[5] against [4]");
    let binomial = DistVars::Binomial { total_count: vector(0, 2), probs: vector(1, 3) };
    assert_eq!(refusal(&binomial, &vector(2, 2)), "[2] against [3]");
    assert_eq!(refusal(&binomial, &vector(2, 4)), "[4] against [2]");
    let normal = DistVars::Normal { loc: vector(0, 2), scale: scalar(1) };
    assert_eq!(refusal(&normal, &vector(2, 3)), "[3] against [2]");
    let ordered = DistVars::OrderedLogistic { eta: vector(0, 2), cutpoints: vector(1, 5) };
    assert_eq!(refusal(&ordered, &vector(2, 3)), "[2] against [3]");
    assert!(of(&ordered, &vector(2, 2)).is_ok());
    let truncated = DistVars::Truncated {
        base: Box::new(DistVars::Uniform { low: vector(0, 2), high: scalar(1) }),
        lower: Some(vector(2, 3)),
        upper: None,
    };
    assert_eq!(refusal(&truncated, &vector(3, 4)), "[4] against [2]");
    assert_eq!(refusal(&truncated, &scalar(3)), "[3] against [2]");
}

#[test]
fn a_site_whose_shapes_do_not_broadcast_fails_before_it_is_evaluated() {
    let mut p = posterior();
    p.free[1].shape = vec![1];
    p.sites[1].distribution =
        Distribution::Normal { loc: Expr::Data("v".to_string()), scale: constant(1.0) };
    p.data = vec![(
        "v".to_string(),
        DataValue { shape: vec![2], integer: false, values: vec![number(0.0), number(1.0)] },
    )];
    let eval = |term: &Term, inputs: &Inputs| -> Result<Tensor, Error> {
        Ok(Tensor { shape: inputs.leaves[0].shape.clone(), values: vec![number(scalar_value(term, inputs))] })
    };
    let services = ModelOps { tensors: broadcasting(), evaluate: eval, slopes: no_slopes };
    let error = p.logp(&services, &vec![number(0.0), number(0.0)]).unwrap_err();
    assert_eq!(error.message, "[1] against [2]");
}
