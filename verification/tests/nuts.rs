use std::marker::PhantomData;

use bayesite_core::error::{Error, ErrorKind};
use bayesite_core::ir::{
    distribution_exprs, BinOpKind, Constraint, Distribution, Expr, ModelMeta, ResolvedParam, Size,
    UnaryFn,
};
use bayesite_core::logp::calculus::{Calculus, Inputs, ModelOps};
use bayesite_core::logp::graph::CompiledLogp;
use bayesite_core::number::Number;
use bayesite_core::numerics::{IndexAtom, TensorOps};
use bayesite_core::nuts::hamiltonian::{criterion, log_sum_exp, Hamiltonian, State};
use bayesite_core::nuts::services::{Dynamics, DynamicsOps, Rounded};
use bayesite_core::nuts::transition::transition;
use bayesite_core::nuts::tree::{build_tree, TreeStats};
use bayesite_core::posterior::Posterior;
use bayesite_core::tensor::Tensor;
use bayesite_core::term::{Term, UnaryOp};

#[derive(Clone)]
struct Source {
    words: [u64; 4],
}

impl Source {
    fn for_chain(seed: u64, chain: u64) -> Source {
        let mut state = seed ^ chain.wrapping_mul(0x9E37_79B9_7F4A_7C15);
        let mut words = [0u64; 4];
        for word in words.iter_mut() {
            state = state.wrapping_add(0x9E37_79B9_7F4A_7C15);
            let mut z = state;
            z = (z ^ (z >> 30)).wrapping_mul(0xBF58_476D_1CE4_E5B9);
            z = (z ^ (z >> 27)).wrapping_mul(0x94D0_49BB_1331_11EB);
            *word = z ^ (z >> 31);
        }
        Source { words }
    }

    fn uniform(&mut self) -> f64 {
        let s = &mut self.words;
        let result = s[0].wrapping_add(s[3]).rotate_left(23).wrapping_add(s[0]);
        let t = s[1] << 17;
        s[2] ^= s[0];
        s[3] ^= s[1];
        s[1] ^= s[2];
        s[0] ^= s[3];
        s[2] ^= t;
        s[3] = s[3].rotate_left(45);
        (result >> 11) as f64 / (1u64 << 53) as f64
    }

    fn normal(&mut self) -> f64 {
        let radius = (-2.0 * (1.0 - self.uniform()).ln()).sqrt();
        radius * (2.0 * std::f64::consts::PI * self.uniform()).cos()
    }
}

/// A value with its derivative.
#[derive(Clone, Copy)]
struct Dual {
    value: f64,
    slope: f64,
}

fn constant(value: f64) -> Dual {
    Dual { value, slope: 0.0 }
}

fn number(value: f64) -> Number {
    Number { bits: value.to_bits(), text: format!("{value:?}") }
}

fn of_term(term: &Term, leaves: &[Dual]) -> Dual {
    let of = |t: &Term| of_term(t, leaves);
    match term {
        Term::Leaf(i) => leaves[*i],
        Term::Double(bits) => constant(f64::from_bits(*bits)),
        Term::Unary(UnaryOp::Sum, a) => of(a),
        Term::Unary(UnaryOp::Exp, a) => {
            let x = of(a);
            Dual { value: x.value.exp(), slope: x.value.exp() * x.slope }
        }
        Term::NormalLogProb(x, loc, scale) => {
            let (x, loc, scale) = (of(x), of(loc), of(scale));
            let z = (x.value - loc.value) / scale.value;
            let slope = (x.slope - loc.slope - z * scale.slope) / scale.value;
            Dual {
                value: -0.5 * z * z - scale.value.ln() - 0.5 * (2.0 * std::f64::consts::PI).ln(),
                slope: -z * slope - scale.slope / scale.value,
            }
        }
        other => panic!("{other:?}"),
    }
}

fn of_expr(expr: &Expr, values: &[(String, Dual)]) -> Dual {
    match expr {
        Expr::Const(n) => constant(f64::from_bits(n.bits)),
        Expr::Param(name) => values.iter().find(|(known, _)| known == name).unwrap().1,
        other => panic!("{other:?}"),
    }
}

/// The derivative of a log density over scalar values by one of them.
fn slope(graph: &CompiledLogp, q: &[Number], by: usize) -> f64 {
    let mut total = 0.0;
    let mut values = Vec::new();
    for (k, slot) in graph.slots.iter().enumerate() {
        let value = f64::from_bits(q[slot.offset].bits);
        let leaf = [Dual { value, slope: (k == by) as u8 as f64 }];
        if let Some(jacobian) = &slot.form.jacobian {
            total += of_term(jacobian, &leaf).slope;
        }
        values.push((slot.name.clone(), of_term(&slot.form.value, &leaf)));
    }
    for site in &graph.sites {
        let mut leaves: Vec<Dual> =
            distribution_exprs(&site.distribution).iter().map(|e| of_expr(e, &values)).collect();
        leaves.push(of_expr(&site.value, &values));
        total += of_term(&site.score, &leaves).slope;
    }
    total
}

fn calculus() -> impl Calculus {
    ModelOps {
        tensors: TensorOps {
            binary: |op: BinOpKind, a: &Tensor, b: &Tensor| -> Result<Tensor, Error> {
                let x = f64::from_bits(a.values[0].bits);
                let y = f64::from_bits(b.values[0].bits);
                Ok(Tensor::scalar(number(match op {
                    BinOpKind::Add => x + y,
                    BinOpKind::Sub => x - y,
                    BinOpKind::Mul => x * y,
                    BinOpKind::Div => x / y,
                })))
            },
            unary: |_: UnaryFn, a: &Tensor| -> Tensor { a.copy() },
            product: |_: &Tensor, _: &Tensor| -> Result<Tensor, Error> { Err(refused()) },
            gather: |a: &Tensor, _: &Vec<IndexAtom>| -> Result<Tensor, Error> { Ok(a.copy()) },
            joint: |a: &Vec<usize>, b: &Vec<usize>| -> Result<Vec<usize>, Error> {
                Ok(if a.is_empty() { b.clone() } else { a.clone() })
            },
            spread: |a: &Tensor, _: &Vec<usize>| -> Result<Tensor, Error> { Ok(a.copy()) },
        },
        evaluate: |term: &Term, inputs: &Inputs| -> Result<Tensor, Error> {
            let leaves: Vec<Dual> = inputs
                .leaves
                .iter()
                .map(|t| constant(f64::from_bits(t.values[0].bits)))
                .collect();
            Ok(Tensor::scalar(number(of_term(term, &leaves).value)))
        },
        slopes: |graph: &CompiledLogp, q: &Vec<Number>| -> Vec<Tensor> {
            (0..graph.slots.len()).map(|k| Tensor::scalar(number(slope(graph, q, k)))).collect()
        },
    }
}

fn dynamics() -> impl Dynamics<Source = Source> {
    DynamicsOps {
        model: calculus(),
        compute: |op: Rounded, a: u64, b: u64| -> u64 {
            let x = f64::from_bits(a);
            let y = f64::from_bits(b);
            match op {
                Rounded::Add => x + y,
                Rounded::Sub => x - y,
                Rounded::Mul => x * y,
                Rounded::Div => x / y,
                Rounded::Exp => x.exp(),
                Rounded::Ln => x.ln(),
                Rounded::Sqrt => x.sqrt(),
            }
            .to_bits()
        },
        spell: |bits: u64| -> String { format!("{:?}", f64::from_bits(bits)) },
        uniform: |mut source: Source| -> (u64, Source) {
            let value = source.uniform();
            (value.to_bits(), source)
        },
        normal: |mut source: Source| -> (u64, Source) {
            let value = source.normal();
            (value.to_bits(), source)
        },
        source: PhantomData,
    }
}

fn refused() -> Error {
    Error::new(ErrorKind::DataShapeMismatch, "shapes do not broadcast".to_string())
}

fn hamiltonian() -> Hamiltonian {
    Hamiltonian::new(&scalar_normal_posterior(), bits(&[1.0]), &calculus()).unwrap()
}

fn parameter(name: &str, loc: Expr, scale: Expr, constraint: Option<Constraint>) -> (String, ResolvedParam) {
    let distribution = Distribution::Normal { loc, scale };
    (name.to_string(), ResolvedParam { distribution, constraint, size: Size::Scalar })
}

fn posterior_of(params: Vec<(String, ResolvedParam)>) -> Posterior {
    let meta = ModelMeta {
        params,
        data: vec![],
        observed_nodes: vec![],
        expressions: vec![],
        free_values: vec![],
        stochastic_sites: vec![],
    };
    Posterior::new(meta, vec![], &calculus()).unwrap()
}

fn literal(value: f64) -> Expr {
    Expr::Const(number(value))
}

fn scalar_normal_posterior() -> Posterior {
    posterior_of(vec![parameter("x", literal(0.0), literal(1.0), None)])
}

fn bits(values: &[f64]) -> Vec<u64> {
    values.iter().map(|v| v.to_bits()).collect()
}

fn value(bits: u64) -> f64 {
    f64::from_bits(bits)
}

fn assert_close(actual: f64, expected: f64, tolerance: f64, context: &str) {
    assert!(
        (actual - expected).abs() <= tolerance,
        "{context}: got {actual}, expected {expected}, tolerance {tolerance}"
    );
}

fn state_with_momentum(ham: &Hamiltonian, q: f64, p: f64) -> State {
    let mut state = ham.init_state(&dynamics(), bits(&[q])).unwrap();
    state.p[0] = p.to_bits();
    state
}

fn log_sum(a: f64, b: f64) -> f64 {
    value(log_sum_exp(&dynamics(), a.to_bits(), b.to_bits()))
}

#[test]
fn generalized_u_turn_criterion_requires_both_endpoints_to_point_forward() {
    let d = dynamics();
    assert!(criterion(&d, &bits(&[1.0]), &bits(&[2.0]), &bits(&[3.0])));
    assert!(!criterion(&d, &bits(&[-1.0]), &bits(&[2.0]), &bits(&[3.0])));
    assert!(!criterion(&d, &bits(&[1.0]), &bits(&[-2.0]), &bits(&[3.0])));
    assert!(!criterion(&d, &bits(&[0.0]), &bits(&[2.0]), &bits(&[3.0])));
}

#[test]
fn log_sum_exp_handles_negative_infinity_and_large_negative_inputs() {
    assert_eq!(log_sum(f64::NEG_INFINITY, -2.0), -2.0);
    assert_eq!(log_sum(-2.0, f64::NEG_INFINITY), -2.0);
    assert_eq!(log_sum(f64::NEG_INFINITY, f64::NEG_INFINITY), f64::NEG_INFINITY);
    assert_close(
        log_sum(-1000.0, -1000.0),
        -1000.0 + 2.0f64.ln(),
        1e-12,
        "stable log_sum_exp",
    );
    assert_eq!(log_sum(-7.0, -3.0), log_sum(-3.0, -7.0));
}

#[test]
fn leapfrog_forward_then_backward_recovers_state() {
    let d = dynamics();
    let ham = hamiltonian();
    let state = state_with_momentum(&ham, 0.3, 0.7);

    let forward = ham.leapfrog(&d, &state, 0.05f64.to_bits()).unwrap();
    let recovered = ham.leapfrog(&d, &forward, (-0.05f64).to_bits()).unwrap();

    assert_close(value(recovered.q[0]), value(state.q[0]), 1e-12, "q reversibility");
    assert_close(value(recovered.p[0]), value(state.p[0]), 1e-12, "p reversibility");
    assert_close(value(recovered.logp), value(state.logp), 1e-12, "logp reversibility");
    assert_close(value(recovered.grad[0]), value(state.grad[0]), 1e-12, "grad reversibility");
}

#[test]
fn small_leapfrog_step_nearly_conserves_hamiltonian_energy() {
    let d = dynamics();
    let ham = hamiltonian();
    let state = state_with_momentum(&ham, 0.3, 0.7);
    let before = value(ham.energy(&d, &state));

    let after_state = ham.leapfrog(&d, &state, 0.01f64.to_bits()).unwrap();
    let after = value(ham.energy(&d, &after_state));

    assert_close(after, before, 1e-6, "Hamiltonian energy after one small step");
}

#[test]
fn fixed_seed_transition_is_deterministic() {
    let d = dynamics();
    let ham = hamiltonian();
    let state = ham.init_state(&d, bits(&[0.1])).unwrap();
    let rng_a = Source::for_chain(20240617, 0);
    let rng_b = Source::for_chain(20240617, 0);

    let (a, _) = transition(&ham, &d, rng_a, state.copy(), 0.25f64.to_bits(), 5).unwrap();
    let (b, _) = transition(&ham, &d, rng_b, state, 0.25f64.to_bits(), 5).unwrap();

    assert_eq!(a.q, b.q);
    assert_eq!(a.logp, b.logp);
    assert_eq!(a.grad, b.grad);
    assert_eq!(a.depth, b.depth);
    assert_eq!(a.n_leapfrog, b.n_leapfrog);
    assert_eq!(a.divergent, b.divergent);
    assert_eq!(a.accept_prob, b.accept_prob);
    assert_eq!(a.energy, b.energy);
    assert!(value(a.energy).is_finite());
}

#[test]
fn too_large_step_reports_divergence() {
    let d = dynamics();
    let ham = hamiltonian();
    let state = ham.init_state(&d, bits(&[0.1])).unwrap();
    let rng = Source::for_chain(20240617, 0);

    let (result, _) = transition(&ham, &d, rng, state, 100.0f64.to_bits(), 5).unwrap();

    assert!(result.divergent, "large step should produce a divergent transition");
    assert!(
        result.n_leapfrog >= 1,
        "divergent transitions should report attempted leapfrog work"
    );
}

#[test]
fn a_complete_subtree_takes_a_power_of_two_steps() {
    let d = dynamics();
    let ham = hamiltonian();
    let state = state_with_momentum(&ham, 0.3, 0.7);
    let h0 = ham.energy(&d, &state);
    let stats = TreeStats { n_leapfrog: 0, sum_metro_prob: 0.0f64.to_bits(), divergent: false };
    let growth = build_tree(
        &ham,
        &d,
        Source::for_chain(1, 0),
        3,
        state,
        h0,
        0.01f64.to_bits(),
        stats,
    )
    .unwrap();
    assert!(growth.tree.is_some());
    assert_eq!(growth.stats.n_leapfrog, 8);
    assert!(!growth.stats.divergent);
}

#[test]
fn a_transition_without_depth_keeps_its_point() {
    let d = dynamics();
    let ham = hamiltonian();
    let state = ham.init_state(&d, bits(&[0.1])).unwrap();
    let (found, _) =
        transition(&ham, &d, Source::for_chain(2, 0), state, 0.25f64.to_bits(), 0).unwrap();
    assert_eq!(found.q, bits(&[0.1]));
    assert_eq!(found.n_leapfrog, 0);
    assert_eq!(found.depth, 0);
    assert_eq!(value(found.accept_prob), 0.0);
}

#[test]
fn a_transition_stays_within_its_depth() {
    let d = dynamics();
    let ham = hamiltonian();
    for seed in 0..20 {
        let state = ham.init_state(&d, bits(&[0.1])).unwrap();
        let (found, _) =
            transition(&ham, &d, Source::for_chain(seed, 0), state, 0.05f64.to_bits(), 4).unwrap();
        assert!(found.depth <= 4);
        assert!(found.n_leapfrog < 16);
    }
}

#[test]
fn the_energy_of_a_point_without_a_finite_density_is_infinite() {
    let ham = hamiltonian();
    for logp in [f64::INFINITY, f64::NEG_INFINITY, f64::NAN] {
        let state = State { q: bits(&[0.0]), p: bits(&[0.0]), logp: logp.to_bits(), grad: bits(&[0.0]) };
        assert_eq!(value(ham.energy(&dynamics(), &state)), f64::INFINITY);
    }
    let state = State { q: bits(&[0.0]), p: bits(&[2.0]), logp: 3.0f64.to_bits(), grad: bits(&[0.0]) };
    assert_eq!(value(ham.energy(&dynamics(), &state)), -1.0);
}

#[test]
fn joined_weights_are_symmetric_and_not_less_than_their_parts() {
    for (a, b) in [(-7.0, -3.0), (0.0, 0.0), (2.5, -800.0), (f64::NEG_INFINITY, 1.0)] {
        assert_eq!(log_sum(a, b), log_sum(b, a));
        assert!(log_sum(a, b) >= f64::max(a, b));
    }
}

#[test]
fn a_log_density_that_cannot_be_built_has_no_metric() {
    let ordered = posterior_of(vec![parameter(
        "x",
        literal(0.0),
        literal(1.0),
        Some(Constraint::Ordered),
    )]);
    let expected = "Ordered constraint on \"x\" requires vector values";
    let error = Hamiltonian::new(&ordered, bits(&[1.0]), &calculus()).unwrap_err();
    assert_eq!(error.message, expected);
    assert_eq!(ordered.compile(&calculus()).unwrap_err().message, expected);
    assert_eq!(ordered.logp_grad(&calculus(), &vec![number(0.5)]).unwrap_err().message, expected);
    let unknown = posterior_of(vec![parameter(
        "x",
        Expr::Param("nothing".to_string()),
        literal(1.0),
        None,
    )]);
    let error = unknown.compile(&calculus()).unwrap_err();
    assert_eq!(error.message, "reference to unknown value \"nothing\"");
}

fn hierarchy() -> Posterior {
    posterior_of(vec![
        parameter("s", literal(1.0), literal(2.0), Some(Constraint::Positive)),
        parameter("m", literal(3.0), Expr::Param("s".to_string()), None),
    ])
}

#[test]
fn a_log_density_and_its_gradient_are_those_of_the_model() {
    let q = vec![number(0.25), number(-0.5)];
    let (lp, gradient) = hierarchy().logp_grad(&calculus(), &q).unwrap();
    let s = 0.25f64.exp();
    let normal = |x: f64, loc: f64, scale: f64| {
        let z = (x - loc) / scale;
        -0.5 * z * z - scale.ln() - 0.5 * (2.0 * std::f64::consts::PI).ln()
    };
    let expected = 0.25 + normal(s, 1.0, 2.0) + normal(-0.5, 3.0, s);
    assert_close(value(lp.bits), expected, 1e-12, "log density");
    assert_eq!(hierarchy().logp(&calculus(), &q).unwrap().bits, lp.bits);
    let z = (-0.5 - 3.0) / s;
    assert_eq!(gradient.len(), 2);
    assert_close(
        value(gradient[0].bits),
        1.0 - (s - 1.0) / 4.0 * s + z * z - 1.0,
        1e-12,
        "slope by the first",
    );
    assert_close(value(gradient[1].bits), -z / s, 1e-12, "slope by the second");
    let shifted = posterior_of(vec![parameter("x", literal(2.0), literal(1.0), None)]);
    let at_zero = vec![number(0.0)];
    let here = shifted.logp_grad(&calculus(), &at_zero).unwrap().1;
    let there = scalar_normal_posterior().logp_grad(&calculus(), &at_zero).unwrap().1;
    assert_eq!(value(here[0].bits), 2.0);
    assert_eq!(value(there[0].bits), 0.0);
}

#[test]
fn a_compiled_log_density_is_that_of_the_model_bit_by_bit() {
    let compiled = hierarchy().compile(&calculus()).unwrap();
    assert_eq!(compiled.n_params(), 2);
    assert_eq!(compiled.sites.len(), 2);
    for (a, b) in [(0.0, 0.0), (0.25, -0.5), (-3.0, 7.5), (2.0, 1e-3), (0.25, -0.5)] {
        let q = vec![number(a), number(b)];
        let (lp, gradient) = compiled.logp_grad(&calculus(), &q).unwrap();
        let (direct, slopes) = hierarchy().logp_grad(&calculus(), &q).unwrap();
        assert_eq!(lp.bits, direct.bits);
        assert_eq!(gradient.len(), 2);
        for (x, y) in gradient.iter().zip(&slopes) {
            assert_eq!(x.bits, y.bits);
        }
    }
}

#[test]
fn a_point_of_another_length_is_refused() {
    let ham = hamiltonian();
    let expected = "unconstrained parameter vector q has wrong length: expected 1, got 2";
    let error = ham.init_state(&dynamics(), bits(&[0.1, 0.2])).unwrap_err();
    assert_eq!(error.message, expected);
    let short = ham.logp.logp_grad(&calculus(), &vec![]).unwrap_err();
    assert_eq!(short.message, expected.replace("got 2", "got 0"));
    let state = ham.init_state(&dynamics(), bits(&[0.5])).unwrap();
    assert_eq!(state.grad, bits(&[-0.5]));
    assert_eq!(state.logp, ham.logp.logp_grad(&calculus(), &vec![number(0.5)]).unwrap().0.bits);
}

#[test]
fn a_mean_acceptance_lies_between_zero_and_one() {
    let d = dynamics();
    let ham = hamiltonian();
    for step in [0.05, 0.5, 1.5, 100.0] {
        for seed in 0..20 {
            let state = ham.init_state(&d, bits(&[0.1])).unwrap();
            let (found, _) =
                transition(&ham, &d, Source::for_chain(seed, 0), state, f64::to_bits(step), 6).unwrap();
            let accept = value(found.accept_prob);
            assert!((0.0..=1.0).contains(&accept), "{accept}");
        }
    }
}
