use bayesite_core::ancestral::{collect_distribution_refs, generated_value, stable_site_order, ValueRef};
use bayesite_core::error::ErrorKind;
use bayesite_core::ir::{BinOpKind, Distribution, Expr, IndexSpec, ResolvedStochasticSite, UnaryFn};
use bayesite_core::number::Number;

fn constant(value: f64) -> Expr {
    Expr::Const(Number { bits: value.to_bits(), text: format!("{value:?}") })
}

fn site(name: &str, loc: Expr, value: Expr) -> ResolvedStochasticSite {
    ResolvedStochasticSite {
        name: name.to_string(),
        distribution: Distribution::Normal { loc, scale: constant(1.0) },
        value,
    }
}

#[test]
fn recursive_reference_walk_covers_every_expression_container() {
    let expression = Expr::VectorScatter {
        length: Box::new(Expr::Data("length".to_string())),
        observed_idx: Box::new(Expr::Index {
            base: Box::new(Expr::Data("observed_idx".to_string())),
            index: IndexSpec::Tuple(vec![
                IndexSpec::Scalar(Box::new(Expr::Data("index".to_string()))),
                IndexSpec::Full,
            ]),
        }),
        observed_values: Box::new(Expr::Unary {
            function: UnaryFn::Neg,
            operand: Box::new(Expr::Param("observed_value".to_string())),
        }),
        missing_idx: Box::new(Expr::Data("missing_idx".to_string())),
        missing_values: Box::new(Expr::Bin {
            op: BinOpKind::Add,
            left: Box::new(Expr::Param("missing_value".to_string())),
            right: Box::new(constant(1.0)),
        }),
    };
    let distribution = Distribution::Truncated {
        base: Box::new(Distribution::Normal {
            loc: expression,
            scale: Expr::Data("scale".to_string()),
        }),
        lower: Some(Expr::Param("lower".to_string())),
        upper: Some(Expr::Data("upper".to_string())),
    };
    let mut refs = Vec::new();
    collect_distribution_refs(&distribution, &mut refs);

    for expected in [
        ValueRef::data("length"),
        ValueRef::data("observed_idx"),
        ValueRef::data("index"),
        ValueRef::param("observed_value"),
        ValueRef::data("missing_idx"),
        ValueRef::param("missing_value"),
        ValueRef::data("scale"),
        ValueRef::param("lower"),
        ValueRef::data("upper"),
    ] {
        assert!(refs.contains(&expected), "missing {expected:?} from {refs:?}");
    }
}

#[test]
fn sites_are_ordered_behind_what_they_refer_to() {
    let sites = vec![
        site("y", Expr::Param("x".to_string()), Expr::Data("y".to_string())),
        site("x", constant(0.0), Expr::Param("x".to_string())),
    ];
    let order = stable_site_order(&sites, &vec![0, 1], Vec::new(), "test").unwrap();
    assert_eq!(order, vec![1, 0]);
}

#[test]
fn an_order_that_is_ancestral_already_is_kept() {
    let sites = vec![
        site("a", constant(0.0), Expr::Param("a".to_string())),
        site("b", Expr::Param("a".to_string()), Expr::Param("b".to_string())),
        site("c", constant(0.0), Expr::Param("c".to_string())),
    ];
    let order = stable_site_order(&sites, &vec![0, 1, 2], Vec::new(), "test").unwrap();
    assert_eq!(order, vec![0, 1, 2]);
}

#[test]
fn a_cycle_is_refused() {
    let sites = vec![
        site("a", Expr::Param("b".to_string()), Expr::Param("a".to_string())),
        site("b", Expr::Param("a".to_string()), Expr::Param("b".to_string())),
    ];
    let error = stable_site_order(&sites, &vec![0, 1], Vec::new(), "test").unwrap_err();
    assert_eq!(error.kind, ErrorKind::InvalidSettings);
}

#[test]
fn a_site_generates_the_value_it_names() {
    let found = generated_value(&site("x", constant(0.0), Expr::Param("x".to_string())));
    assert_eq!(found, Some(ValueRef::param("x")));
    assert_eq!(generated_value(&site("x", constant(0.0), constant(2.0))), None);
}
