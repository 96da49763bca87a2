//! Simulation of data from given values of all free values.

use vstd::prelude::*;

use crate::ancestral::{collect_expr_refs, ValueRef};
#[allow(unused_imports)]
use crate::ancestral::{expr_refs, ValueModel};
use crate::bounds::ResolvedConstraint;
#[allow(unused_imports)]
use crate::bounds::{optional_numbers, optional_resolved, ResolvedModel};
use crate::data::{copy_data, copy_numbers, copy_shape, DataValue};
#[allow(unused_imports)]
use crate::data::{data_outcome, data_views, number_views, DataModel};
use crate::error::{invalid_settings, shape_mismatch, Error};
#[allow(unused_imports)]
use crate::error::{settings_fault, shape_fault, Fault};
use crate::ir::{Distribution, Expr, ModelMeta, ResolvedStochasticSite};
#[allow(unused_imports)]
use crate::ir::{list_views, named_views, resolved_sites, DistModel, ExprModel, MetaModel, SiteModel};
use crate::model::{data_name_list, find_data, has_text, keep_unknown, show_names};
#[allow(unused_imports)]
use crate::model::{
    all_filled, bound_names, checked, data_named, lemma_named_filled, lemma_none_missing, names_text, repeated_from,
    unknown_names,
};
use crate::number::Number;
#[allow(unused_imports)]
use crate::number::NumberModel;
use crate::numerics::{Arithmetic, Randomness};
use crate::order::sort_texts;
#[allow(unused_imports)]
use crate::order::sorted_texts;
use crate::tensor::Tensor;
#[allow(unused_imports)]
use crate::tensor::{full, TensorModel};
use crate::text;
#[allow(unused_imports)]
use crate::text::{joined, numbers_text, text_views};

use super::forward::ForwardEnv;
#[allow(unused_imports)]
use super::forward::{data_tensor, env_full, last_named, EnvModel};
use super::partial::refuse_bounded_vector;
#[allow(unused_imports)]
use super::partial::bounded_refused;
use super::records::{as_data, distribution_has_integer_support, same_shape, validate_reportable_seed};
#[allow(unused_imports)]
use super::records::{integer_support, seed_fault, tensor_data};
use super::restricted::satisfies_constraint;
#[allow(unused_imports)]
use super::restricted::satisfies;
use super::sampling::sample_distribution;
#[allow(unused_imports)]
use super::sampling::{sample_outcome, sampled};
use super::setup::{bind_declared_data, find_spec, free_specs, FreeSpec};
#[allow(unused_imports)]
use super::setup::{all_covered, covered, declared_fault, specs_laid, specs_outcome, FreeSpecModel};

verus! {

/// A list of numbers in brackets.
pub open spec fn number_list_text(values: Seq<NumberModel>) -> Seq<char> {
    "["@ + joined(values.map_values(|n: NumberModel| n.text), ", "@) + "]"@
}

/// One side of vector bounds as it is shown.
pub open spec fn side_text(side: Option<Seq<NumberModel>>) -> Seq<char> {
    match side {
        None => "None"@,
        Some(values) => "Some("@ + number_list_text(values) + ")"@,
    }
}

/// A constraint as it is shown.
pub open spec fn constraint_text(constraint: Option<ResolvedModel>) -> Seq<char> {
    match constraint {
        None => "None"@,
        Some(ResolvedModel::Positive) => "Some(Positive)"@,
        Some(ResolvedModel::Interval { lower, upper }) => "Some(Interval { lower: "@ + lower.text
            + ", upper: "@ + upper.text + " })"@,
        Some(ResolvedModel::UnitInterval) => "Some(UnitInterval)"@,
        Some(ResolvedModel::Ordered) => "Some(Ordered)"@,
        Some(ResolvedModel::VectorBounds { lower, upper }) => "Some(VectorBounds { lower: "@
            + side_text(lower) + ", upper: "@ + side_text(upper) + " })"@,
    }
}

fn show_side(side: &Option<Vec<Number>>) -> (r: String)
    ensures
        r@ == side_text(optional_numbers(*side)),
{
    match side {
        None => "None".to_owned(),
        Some(values) => {
            let ghost all = number_views(values@);
            let mut parts: Vec<String> = Vec::new();
            let mut i: usize = 0;
            while i < values.len()
                invariant
                    i <= values.len(),
                    parts.len() == i,
                    forall|k: int| 0 <= k < i ==> (#[trigger] parts@[k])@ == values@[k]@.text,
                decreases values.len() - i,
            {
                parts.push(values[i].text.clone());
                i += 1;
            }
            assert(text_views(parts@) =~= all.map_values(|n: NumberModel| n.text));
            let list: String = text::join(&parts, ", ");
            let shown: String = text::cat3("[", list.as_str(), "]");
            text::cat3("Some(", shown.as_str(), ")")
        },
    }
}

fn show_constraint(constraint: &Option<ResolvedConstraint>) -> (r: String)
    ensures
        r@ == constraint_text(optional_resolved(*constraint)),
{
    match constraint {
        None => "None".to_owned(),
        Some(ResolvedConstraint::Positive) => "Some(Positive)".to_owned(),
        Some(ResolvedConstraint::Interval { lower, upper }) => text::cat5(
            "Some(Interval { lower: ",
            lower.text.as_str(),
            ", upper: ",
            upper.text.as_str(),
            " })",
        ),
        Some(ResolvedConstraint::UnitInterval) => "Some(UnitInterval)".to_owned(),
        Some(ResolvedConstraint::Ordered) => "Some(Ordered)".to_owned(),
        Some(ResolvedConstraint::VectorBounds { lower, upper }) => {
            let low: String = show_side(lower);
            let high: String = show_side(upper);
            text::cat5(
                "Some(VectorBounds { lower: ",
                low.as_str(),
                ", upper: ",
                high.as_str(),
                " })",
            )
        },
    }
}

/// The names of laid-out free values.
pub open spec fn spec_names(specs: Seq<(Seq<char>, FreeSpecModel)>) -> Seq<Seq<char>> {
    specs.map_values(|s: (Seq<char>, FreeSpecModel)| s.0)
}

/// What is said of names that should not be there: one in quotes, several in a list.
pub open spec fn listed_fault(
    context: Seq<char>,
    complaint: Seq<char>,
    names: Seq<Seq<char>>,
) -> Option<Fault> {
    if names.len() == 1 {
        Some(shape_fault(context + complaint + " \""@ + names[0] + "\""@))
    } else if names.len() > 0 {
        Some(shape_fault(context + complaint + "s "@ + names_text(names)))
    } else {
        None
    }
}

fn check_listed(context: &str, complaint: &str, names: &Vec<String>) -> (r: Result<(), Error>)
    ensures
        checked(r) == listed_fault(context@, complaint@, text_views(names@)),
{
    assert(text_views(names@).len() == names.len());
    if names.len() == 1 {
        assert(text_views(names@)[0] == names@[0]@);
        return Err(
            shape_mismatch(text::cat5(context, complaint, " \"", names[0].as_str(), "\"")),
        );
    }
    if names.len() > 0 {
        let shown: String = show_names(names);
        return Err(shape_mismatch(text::cat4(context, complaint, "s ", shown.as_str())));
    }
    Ok(())
}

/// What is wrong with the names of given free values.
pub open spec fn truth_names_fault(
    specs: Seq<(Seq<char>, FreeSpecModel)>,
    truth: Seq<(Seq<char>, DataModel)>,
    context: Seq<char>,
) -> Option<Fault> {
    let names = bound_names(truth);
    let missing = sorted_texts(unknown_names(spec_names(specs), names));
    let unknown = sorted_texts(unknown_names(names, spec_names(specs)));
    if repeated_from(names, 0) is Some {
        Some(
            shape_fault(
                context + " truth has duplicate free value \""@ + repeated_from(names, 0)->0
                    + "\""@,
            ),
        )
    } else if missing.len() > 0 {
        listed_fault(context, " truth is missing free value"@, missing)
    } else {
        listed_fault(context, " truth has unknown free value"@, unknown)
    }
}

/// A given value as a tensor, if it has the shape and satisfies the constraint.
pub open spec fn true_value(
    spec: (Seq<char>, FreeSpecModel),
    value: DataModel,
    context: Seq<char>,
) -> Result<TensorModel, Fault> {
    if value.shape != spec.1.shape {
        Err(
            shape_fault(
                context + " truth for free value \""@ + spec.0 + "\" has shape "@ + numbers_text(
                    value.shape,
                ) + ", expected "@ + numbers_text(spec.1.shape),
            ),
        )
    } else if !satisfies(data_tensor(value), spec.1.constraint) {
        Err(
            shape_fault(
                context + " truth for free value \""@ + spec.0 + "\" violates constraint "@
                    + constraint_text(spec.1.constraint),
            ),
        )
    } else {
        Ok(data_tensor(value))
    }
}

/// The given values of the first `n` free values.
pub open spec fn true_values(
    specs: Seq<(Seq<char>, FreeSpecModel)>,
    truth: Seq<(Seq<char>, DataModel)>,
    context: Seq<char>,
    n: nat,
) -> Result<Seq<(Seq<char>, TensorModel)>, Fault>
    decreases n,
{
    if n == 0 {
        Ok(Seq::empty())
    } else {
        match true_values(specs, truth, context, (n - 1) as nat) {
            Err(fault) => Err(fault),
            Ok(before) => match true_value(
                specs[n - 1],
                data_named(truth, specs[n - 1].0)->0,
                context,
            ) {
                Err(fault) => Err(fault),
                Ok(value) => Ok(before.push((specs[n - 1].0, value))),
            },
        }
    }
}

/// The given values of all free values: each exactly once, of its shape and within its constraint.
pub open spec fn truth_read(
    specs: Seq<(Seq<char>, FreeSpecModel)>,
    truth: Seq<(Seq<char>, DataModel)>,
    context: Seq<char>,
) -> Result<Seq<(Seq<char>, TensorModel)>, Fault> {
    match truth_names_fault(specs, truth, context) {
        Some(fault) => Err(fault),
        None => true_values(specs, truth, context, specs.len()),
    }
}

proof fn lemma_values_fail(
    specs: Seq<(Seq<char>, FreeSpecModel)>,
    truth: Seq<(Seq<char>, DataModel)>,
    context: Seq<char>,
    m: nat,
    n: nat,
)
    requires
        m <= n,
        true_values(specs, truth, context, m) is Err,
    ensures
        true_values(specs, truth, context, n) == true_values(specs, truth, context, m),
    decreases n - m,
{
    if m < n {
        lemma_values_fail(specs, truth, context, m, (n - 1) as nat);
    }
}

fn spec_name_list(specs: &Vec<(String, FreeSpec)>) -> (r: Vec<String>)
    ensures
        text_views(r@) == spec_names(named_views(specs@)),
{
    let mut out: Vec<String> = Vec::new();
    let mut i: usize = 0;
    while i < specs.len()
        invariant
            i <= specs.len(),
            out.len() == i,
            forall|k: int| 0 <= k < i ==> (#[trigger] out@[k])@ == specs@[k].0@,
        decreases specs.len() - i,
    {
        out.push(specs[i].0.clone());
        i += 1;
    }
    assert(text_views(out@) =~= spec_names(named_views(specs@)));
    out
}

fn check_truth_names(specs: &Vec<(String, FreeSpec)>, truth: &Vec<(String, DataValue)>, context: &str) -> (r:
    Result<(), Error>)
    ensures
        checked(r) == truth_names_fault(named_views(specs@), data_views(truth@), context@),
{
    let names: Vec<String> = data_name_list(truth);
    let ghost all = text_views(names@);
    let mut i: usize = 0;
    while i < names.len()
        invariant
            i <= names.len(),
            all == text_views(names@),
            all == bound_names(data_views(truth@)),
            repeated_from(all, 0) == repeated_from(all, i as int),
        decreases names.len() - i,
    {
        assert(all[i as int] == names@[i as int]@);
        if has_text(&names, names[i].as_str(), i) {
            return Err(
                shape_mismatch(
                    text::cat4(
                        context,
                        " truth has duplicate free value \"",
                        names[i].as_str(),
                        "\"",
                    ),
                ),
            );
        }
        i += 1;
    }
    let expected: Vec<String> = spec_name_list(specs);
    let missing: Vec<String> = sort_texts(&keep_unknown(&expected, &names));
    assert(text_views(missing@).len() == missing.len());
    if missing.len() > 0 {
        return check_listed(context, " truth is missing free value", &missing);
    }
    let unknown: Vec<String> = sort_texts(&keep_unknown(&names, &expected));
    check_listed(context, " truth has unknown free value", &unknown)
}

/// The view of named tensors.
pub open spec fn tensors_outcome(r: Result<Vec<(String, Tensor)>, Error>) -> Result<
    Seq<(Seq<char>, TensorModel)>,
    Fault,
> {
    match r {
        Ok(values) => Ok(named_views(values@)),
        Err(error) => Err(error@),
    }
}

/// Whether every named tensor is full.
pub open spec fn all_tensors_full(values: Seq<(Seq<char>, TensorModel)>) -> bool {
    forall|i: int| 0 <= i < values.len() ==> full((#[trigger] values[i]).1)
}

/// Reads given values of all free values.
pub fn validate_fixed_truth(specs: &Vec<(String, FreeSpec)>, truth: &Vec<(String, DataValue)>, context: &str) -> (r:
    Result<Vec<(String, Tensor)>, Error>)
    requires
        all_filled(data_views(truth@)),
        all_covered(named_views(specs@)),
    ensures
        tensors_outcome(r) == truth_read(named_views(specs@), data_views(truth@), context@),
        r is Ok ==> all_tensors_full(named_views(r->Ok_0@)),
{
    check_truth_names(specs, truth, context)?;
    let ghost laid = named_views(specs@);
    let ghost given = data_views(truth@);
    let ghost count = specs@.len();
    let mut out: Vec<(String, Tensor)> = Vec::new();
    assert(named_views(out@) =~= Seq::empty());
    assert(laid.len() == specs.len());
    let mut i: usize = 0;
    while i < specs.len()
        invariant
            i <= specs.len(),
            count == specs@.len(),
            laid == named_views(specs@),
            laid.len() == count,
            given == data_views(truth@),
            all_filled(given),
            all_covered(laid),
            truth_names_fault(laid, given, context@) is None,
            true_values(laid, given, context@, i as nat) == Ok::<
                Seq<(Seq<char>, TensorModel)>,
                Fault,
            >(named_views(out@)),
            all_tensors_full(named_views(out@)),
        decreases specs.len() - i,
    {
        let ghost n = (i + 1) as nat;
        let spec: &FreeSpec = &specs[i].1;
        proof {
            assert(laid[n - 1] == (specs@[i as int].0@, specs@[i as int].1@));
            assert(spec_names(laid)[i as int] == laid[i as int].0);
            lemma_none_missing(spec_names(laid), given, laid[i as int].0);
            lemma_named_filled(given, laid[i as int].0, 0);
            assert(covered(laid[i as int].1));
        }
        let value: &DataValue = match find_data(truth, specs[i].0.as_str()) {
            Some(value) => value,
            None => {
                return Ok(out);
            },
        };
        if !same_shape(&value.shape, &spec.shape) {
            let shown: String = text::numbers(value.shape.as_slice());
            let wanted: String = text::numbers(spec.shape.as_slice());
            proof {
                lemma_values_fail(laid, given, context@, n, count);
            }
            return Err(
                shape_mismatch(
                    text::cat7(
                        context,
                        " truth for free value \"",
                        specs[i].0.as_str(),
                        "\" has shape ",
                        shown.as_str(),
                        ", expected ",
                        wanted.as_str(),
                    ),
                ),
            );
        }
        let tensor: Tensor = Tensor {
            shape: copy_shape(&value.shape),
            values: copy_numbers(&value.values),
        };
        assert(tensor@ =~= data_tensor(value@));
        if !satisfies_constraint(&tensor, &spec.constraint) {
            let shown: String = show_constraint(&spec.constraint);
            proof {
                lemma_values_fail(laid, given, context@, n, count);
            }
            return Err(
                shape_mismatch(
                    text::cat5(
                        context,
                        " truth for free value \"",
                        specs[i].0.as_str(),
                        "\" violates constraint ",
                        shown.as_str(),
                    ),
                ),
            );
        }
        let ghost before = named_views(out@);
        let ghost content = tensor@;
        out.push((specs[i].0.clone(), tensor));
        assert(named_views(out@) =~= before.push((laid[n - 1].0, content)));
        i += 1;
    }
    Ok(out)
}

/// A sorted list without repetitions.
pub open spec fn deduped(s: Seq<Seq<char>>) -> Seq<Seq<char>>
    decreases s.len(),
{
    if s.len() == 0 {
        Seq::empty()
    } else {
        let before = deduped(s.drop_last());
        if s.len() > 1 && s[s.len() - 2] == s.last() {
            before
        } else {
            before.push(s.last())
        }
    }
}

fn dedup_texts(list: &Vec<String>) -> (r: Vec<String>)
    ensures
        text_views(r@) == deduped(text_views(list@)),
{
    let ghost all = text_views(list@);
    let mut out: Vec<String> = Vec::new();
    assert(text_views(out@) =~= deduped(all.take(0)));
    let mut i: usize = 0;
    while i < list.len()
        invariant
            i <= list.len(),
            all == text_views(list@),
            text_views(out@) == deduped(all.take(i as int)),
        decreases list.len() - i,
    {
        let ghost done = all.take(i + 1);
        proof {
            assert(done.drop_last() =~= all.take(i as int));
            assert(done.last() == list@[i as int]@);
            if i > 0 {
                assert(done[done.len() - 2] == list@[i - 1]@);
            }
        }
        if i == 0 || !text::same(list[i - 1].as_str(), list[i].as_str()) {
            let ghost before = out@;
            out.push(list[i].clone());
            assert(text_views(out@) =~= text_views(before).push(list@[i as int]@));
        }
        i += 1;
    }
    assert(all.take(i as int) =~= all);
    out
}

/// The data that references name and that has no value yet.
pub open spec fn loose_refs(refs: Seq<ValueModel>, env: EnvModel) -> Seq<Seq<char>>
    decreases refs.len(),
{
    if refs.len() == 0 {
        Seq::empty()
    } else {
        let before = loose_refs(refs.drop_last(), env);
        match refs.last() {
            ValueModel::Data(name) => if data_named(env.data, name) is None && last_named(
                env.values,
                name,
            ) is None {
                before.push(name)
            } else {
                before
            },
            _ => before,
        }
    }
}

/// The data that an expression names and that has no value yet, sorted.
pub open spec fn unbound(e: ExprModel, env: EnvModel) -> Seq<Seq<char>> {
    deduped(sorted_texts(loose_refs(expr_refs(e), env)))
}

fn unbound_names(expr: &Expr, env: &ForwardEnv) -> (r: Vec<String>)
    ensures
        text_views(r@) == unbound(expr@, env@),
{
    let mut refs: Vec<ValueRef> = Vec::new();
    assert(list_views(refs@) =~= Seq::empty());
    collect_expr_refs(expr, &mut refs);
    let ghost all = list_views(refs@);
    assert(all =~= expr_refs(expr@));
    let mut out: Vec<String> = Vec::new();
    assert(text_views(out@) =~= loose_refs(all.take(0), env@));
    let mut i: usize = 0;
    while i < refs.len()
        invariant
            i <= refs.len(),
            all == list_views(refs@),
            text_views(out@) == loose_refs(all.take(i as int), env@),
        decreases refs.len() - i,
    {
        let ghost done = all.take(i + 1);
        proof {
            assert(done.drop_last() =~= all.take(i as int));
            assert(done.last() == refs@[i as int]@);
        }
        if let ValueRef::Data(name) = &refs[i] {
            if !env.has_data(name.as_str()) && !env.has_value(name.as_str()) {
                let ghost before = out@;
                out.push(name.clone());
                assert(text_views(out@) =~= text_views(before).push(name@));
            }
        }
        i += 1;
    }
    assert(all.take(i as int) =~= all);
    dedup_texts(&sort_texts(&out))
}

/// What is wrong with a site that assigns nothing.
pub open spec fn unassignable_fault(site: SiteModel, env: EnvModel) -> Option<Fault> {
    let names = unbound(site.value, env);
    if names.len() > 0 {
        Some(
            settings_fault(
                "simulate stochastic site \""@ + site.name
                    + "\" has a non-assignable observed value expression referencing ungenerated data "@
                    + names_text(names)
                    + "; only direct DataRef observed sites are supported in v0-provisional simulation"@,
            ),
        )
    } else {
        None
    }
}

fn check_unassignable(site: &ResolvedStochasticSite, env: &ForwardEnv) -> (r: Result<(), Error>)
    ensures
        checked(r) == unassignable_fault(site@, env@),
{
    let names: Vec<String> = unbound_names(&site.value, env);
    assert(text_views(names@).len() == names.len());
    if names.len() > 0 {
        let shown: String = show_names(&names);
        return Err(
            invalid_settings(
                text::cat5(
                    "simulate stochastic site \"",
                    site.name.as_str(),
                    "\" has a non-assignable observed value expression referencing ungenerated data ",
                    shown.as_str(),
                    "; only direct DataRef observed sites are supported in v0-provisional simulation",
                ),
            ),
        );
    }
    Ok(())
}

/// What sites came to: the values that later sites see, and the data that was generated.
#[verifier::ext_equal]
pub struct MadeModel {
    pub seen: Seq<(Seq<char>, TensorModel)>,
    pub made: Seq<(Seq<char>, DataModel)>,
}

/// What a site adds.
pub open spec fn made_extended<S>(
    before: MadeModel,
    name: Seq<char>,
    d: DistModel,
    draw: Result<(TensorModel, S), Fault>,
) -> Result<(MadeModel, S), Fault> {
    match draw {
        Err(fault) => Err(fault),
        Ok((value, after)) => Ok(
            (
                MadeModel {
                    seen: before.seen.push((name, value)),
                    made: before.made.push((name, tensor_data(value, integer_support(d)))),
                },
                after,
            ),
        ),
    }
}

/// A check that adds nothing.
pub open spec fn unless_fault<S>(fault: Option<Fault>, before: MadeModel, source: S) -> Result<
    (MadeModel, S),
    Fault,
> {
    match fault {
        Some(failure) => Err(failure),
        None => Ok((before, source)),
    }
}

/// Whether simulating a data site can come to that.
pub open spec fn data_made<A: Arithmetic, N: Randomness>(
    ops: &A,
    rand: &N,
    data: Seq<(Seq<char>, DataModel)>,
    before: MadeModel,
    site: SiteModel,
    name: Seq<char>,
    source: N::Source,
    out: Result<(MadeModel, N::Source), Fault>,
) -> bool {
    if data_named(data, name) is Some {
        out == Err::<(MadeModel, N::Source), Fault>(
            shape_fault(
                "simulate stochastic site \""@ + site.name + "\" writes data value \""@ + name
                    + "\", but it is already bound as declared data"@,
            ),
        )
    } else if data_named(before.made, name) is Some {
        out == Err::<(MadeModel, N::Source), Fault>(
            shape_fault(
                "simulate stochastic site \""@ + site.name
                    + "\" writes duplicate generated data value \""@ + name + "\""@,
            ),
        )
    } else {
        exists|draw: Result<(TensorModel, N::Source), Fault>| #[trigger]
            sampled(
                ops,
                rand,
                EnvModel { values: before.seen, data },
                site.distribution,
                None,
                source,
                draw,
            ) && out == made_extended(before, name, site.distribution, draw)
    }
}

/// Whether a site is a bounded vector of a multivariate normal.
pub open spec fn bounded_vector_site(
    specs: Seq<(Seq<char>, FreeSpecModel)>,
    site: SiteModel,
) -> bool {
    &&& site.distribution is MultivariateNormal
    &&& match site.value {
        ExprModel::VectorScatter { missing_values, .. } => match *missing_values {
            ExprModel::Param(name) => {
                let spec = last_named(specs, name);
                spec is Some && spec->0.constraint is Some && spec->0.constraint->0 is VectorBounds
            },
            _ => false,
        },
        _ => false,
    }
}

/// Whether simulating a site can come to that.
pub open spec fn site_made<A: Arithmetic, N: Randomness>(
    ops: &A,
    rand: &N,
    specs: Seq<(Seq<char>, FreeSpecModel)>,
    data: Seq<(Seq<char>, DataModel)>,
    before: MadeModel,
    site: SiteModel,
    source: N::Source,
    out: Result<(MadeModel, N::Source), Fault>,
) -> bool {
    let env = EnvModel { values: before.seen, data };
    match site.value {
        ExprModel::Param(_) => out == Ok::<(MadeModel, N::Source), Fault>((before, source)),
        ExprModel::Data(name) => data_made(ops, rand, data, before, site, name, source, out),
        _ => if bounded_vector_site(specs, site) {
            out is Err && bounded_refused(ops, env, site.distribution, out->Err_0)
        } else {
            out == unless_fault(unassignable_fault(site, env), before, source)
        },
    }
}

/// Whether simulating the sites in order can come to that.
pub open spec fn sites_made<A: Arithmetic, N: Randomness>(
    ops: &A,
    rand: &N,
    specs: Seq<(Seq<char>, FreeSpecModel)>,
    data: Seq<(Seq<char>, DataModel)>,
    start: MadeModel,
    sites: Seq<SiteModel>,
    source: N::Source,
    out: Result<(MadeModel, N::Source), Fault>,
) -> bool
    decreases sites.len(),
{
    if sites.len() == 0 {
        out == Ok::<(MadeModel, N::Source), Fault>((start, source))
    } else {
        ||| out is Err && sites_made(ops, rand, specs, data, start, sites.drop_last(), source, out)
        ||| exists|before: (MadeModel, N::Source)| #[trigger]
            site_made(ops, rand, specs, data, before.0, sites.last(), before.1, out) && sites_made(
                ops,
                rand,
                specs,
                data,
                start,
                sites.drop_last(),
                source,
                Ok(before),
            )
    }
}

/// The declared data with what was generated behind it.
pub open spec fn with_made<S>(
    data: Seq<(Seq<char>, DataModel)>,
    end: Result<(MadeModel, S), Fault>,
) -> Result<Seq<(Seq<char>, DataModel)>, Fault> {
    match end {
        Err(fault) => Err(fault),
        Ok((made, _)) => Ok(data + made.made),
    }
}

/// Whether a simulation from a source can come to that data.
pub open spec fn source_made<A: Arithmetic, N: Randomness>(
    ops: &A,
    rand: &N,
    specs: Seq<(Seq<char>, FreeSpecModel)>,
    data: Seq<(Seq<char>, DataModel)>,
    start: MadeModel,
    sites: Seq<SiteModel>,
    source: N::Source,
    out: Result<Seq<(Seq<char>, DataModel)>, Fault>,
) -> bool {
    exists|end: Result<(MadeModel, N::Source), Fault>| #[trigger]
        sites_made(ops, rand, specs, data, start, sites, source, end) && out == with_made(data, end)
}

/// Whether a simulation can come to that data, by what the layout of free values came to.
pub open spec fn laid_made<A: Arithmetic, N: Randomness>(
    ops: &A,
    rand: &N,
    m: MetaModel,
    data: Seq<(Seq<char>, DataModel)>,
    truth: Seq<(Seq<char>, DataModel)>,
    seed: u64,
    specs: Result<Seq<(Seq<char>, FreeSpecModel)>, Fault>,
    out: Result<Seq<(Seq<char>, DataModel)>, Fault>,
) -> bool {
    match specs {
        Err(fault) => out == Err::<Seq<(Seq<char>, DataModel)>, Fault>(fault),
        Ok(laid) => match truth_read(laid, truth, "simulate"@) {
            Err(fault) => out == Err::<Seq<(Seq<char>, DataModel)>, Fault>(fault),
            Ok(values) => exists|source: N::Source| #[trigger]
                rand.start_gives(seed, source) && source_made(
                    ops,
                    rand,
                    laid,
                    data,
                    MadeModel { seen: values, made: Seq::empty() },
                    resolved_sites(m),
                    source,
                    out,
                ),
        },
    }
}

/// Whether simulating data from given free values can come to that.
pub open spec fn truth_simulated<A: Arithmetic, N: Randomness>(
    ops: &A,
    rand: &N,
    m: MetaModel,
    data: Seq<(Seq<char>, DataModel)>,
    truth: Seq<(Seq<char>, DataModel)>,
    seed: u64,
    out: Result<Seq<(Seq<char>, DataModel)>, Fault>,
) -> bool {
    match seed_fault(seed, "simulate"@) {
        Some(fault) => out == Err::<Seq<(Seq<char>, DataModel)>, Fault>(fault),
        None => match declared_fault(m, data) {
            Some(fault) => out == Err::<Seq<(Seq<char>, DataModel)>, Fault>(fault),
            None => exists|specs: Result<Seq<(Seq<char>, FreeSpecModel)>, Fault>| #[trigger]
                specs_laid(ops, m, data, specs) && laid_made(
                    ops,
                    rand,
                    m,
                    data,
                    truth,
                    seed,
                    specs,
                    out,
                ),
        },
    }
}

/// The view of generated data, with the values that later sites see.
pub open spec fn made_view(env: EnvModel, made: Seq<(String, DataValue)>) -> MadeModel {
    MadeModel { seen: env.values, made: data_views(made) }
}

/// Draws a data site into an environment and a list of generated data.
fn make_data<A: Arithmetic, N: Randomness>(
    ops: &A,
    rand: &N,
    env: &mut ForwardEnv,
    made: &mut Vec<(String, DataValue)>,
    site: &ResolvedStochasticSite,
    name: &str,
    source: N::Source,
) -> (r: Result<N::Source, Error>)
    requires
        ops.reliable(),
        rand.ready(),
        env_full(old(env)@),
    ensures
        final(env)@.data == old(env)@.data,
        env_full(final(env)@),
        data_made(
            ops,
            rand,
            old(env)@.data,
            made_view(old(env)@, old(made)@),
            site@,
            name@,
            source,
            match r {
                Ok(after) => Ok((made_view(final(env)@, final(made)@), after)),
                Err(error) => Err(error@),
            },
        ),
{
    if env.has_data(name) {
        return Err(
            shape_mismatch(
                text::cat5(
                    "simulate stochastic site \"",
                    site.name.as_str(),
                    "\" writes data value \"",
                    name,
                    "\", but it is already bound as declared data",
                ),
            ),
        );
    }
    if find_data(made, name).is_some() {
        return Err(
            shape_mismatch(
                text::cat5(
                    "simulate stochastic site \"",
                    site.name.as_str(),
                    "\" writes duplicate generated data value \"",
                    name,
                    "\"",
                ),
            ),
        );
    }
    let ghost before = made_view(env@, made@);
    let ghost begin = source;
    assert(env@ =~= (EnvModel { values: before.seen, data: env@.data }));
    let draw: Result<(Tensor, N::Source), Error> = sample_distribution(
        ops,
        rand,
        env,
        &site.distribution,
        None,
        source,
    );
    assert(sampled(
        ops,
        rand,
        EnvModel { values: before.seen, data: env@.data },
        site@.distribution,
        None,
        begin,
        sample_outcome(draw),
    ));
    match draw {
        Err(error) => Err(error),
        Ok((value, after)) => {
            let ghost content = value@;
            let ghost listed = made@;
            env.give(name, value.copy());
            let integer: bool = distribution_has_integer_support(&site.distribution);
            made.push((name.to_owned(), as_data(value, integer)));
            assert(data_views(made@) =~= data_views(listed).push(
                (name@, tensor_data(content, integer)),
            ));
            Ok(after)
        },
    }
}

fn is_bounded_vector_site(specs: &Vec<(String, FreeSpec)>, site: &ResolvedStochasticSite) -> (r: bool)
    ensures
        r == bounded_vector_site(named_views(specs@), site@),
{
    let correlated: bool = match &site.distribution {
        Distribution::MultivariateNormal { .. } => true,
        _ => false,
    };
    if !correlated {
        return false;
    }
    match &site.value {
        Expr::VectorScatter { missing_values, .. } => match param_name(missing_values) {
            Some(free_name) => match find_spec(specs, free_name.as_str()) {
                Some(spec) => match &spec.constraint {
                    Some(ResolvedConstraint::VectorBounds { .. }) => true,
                    _ => false,
                },
                None => false,
            },
            None => false,
        },
        _ => false,
    }
}

/// The parameter that an expression is a reference to.
fn param_name(expr: &Expr) -> (r: Option<&String>)
    ensures
        match r {
            Some(name) => expr@ == ExprModel::Param(name@),
            None => !(expr@ is Param),
        },
{
    match expr {
        Expr::Param(name) => Some(name),
        _ => None,
    }
}

proof fn lemma_made_fail<A: Arithmetic, N: Randomness>(
    ops: &A,
    rand: &N,
    specs: Seq<(Seq<char>, FreeSpecModel)>,
    data: Seq<(Seq<char>, DataModel)>,
    start: MadeModel,
    sites: Seq<SiteModel>,
    n: int,
    source: N::Source,
    fault: Fault,
)
    requires
        0 <= n <= sites.len(),
        sites_made(ops, rand, specs, data, start, sites.take(n), source, Err(fault)),
    ensures
        sites_made(ops, rand, specs, data, start, sites, source, Err(fault)),
    decreases sites.len(),
{
    if n < sites.len() {
        assert(sites.drop_last().take(n) =~= sites.take(n));
        lemma_made_fail(ops, rand, specs, data, start, sites.drop_last(), n, source, fault);
    } else {
        assert(sites.take(n) =~= sites);
    }
}

fn make_sites<A: Arithmetic, N: Randomness>(
    ops: &A,
    rand: &N,
    specs: &Vec<(String, FreeSpec)>,
    env: ForwardEnv,
    sites: &Vec<ResolvedStochasticSite>,
    source: N::Source,
) -> (r: Result<Vec<(String, DataValue)>, Error>)
    requires
        ops.reliable(),
        rand.ready(),
        env_full(env@),
    ensures
        exists|end: Result<(MadeModel, N::Source), Fault>| #[trigger]
            sites_made(
                ops,
                rand,
                named_views(specs@),
                env@.data,
                MadeModel { seen: env@.values, made: Seq::empty() },
                list_views(sites@),
                source,
                end,
            ) && data_outcome(r) == (match end {
                Err(fault) => Err(fault),
                Ok((last, _)) => Ok(last.made),
            }),
{
    let ghost all = list_views(sites@);
    let ghost laid = named_views(specs@);
    let ghost data = env@.data;
    let ghost start = MadeModel { seen: env@.values, made: Seq::empty() };
    let ghost begin = source;
    let mut now: N::Source = source;
    let mut world: ForwardEnv = env;
    let mut made: Vec<(String, DataValue)> = Vec::new();
    let mut i: usize = 0;
    proof {
        assert(made_view(world@, made@) =~= start);
        assert(all.take(0) =~= Seq::empty());
    }
    while i < sites.len()
        invariant
            i <= sites.len(),
            ops.reliable(),
            rand.ready(),
            all == list_views(sites@),
            laid == named_views(specs@),
            begin == source,
            data == env@.data,
            start == (MadeModel { seen: env@.values, made: Seq::empty() }),
            world@.data == data,
            env_full(world@),
            sites_made(
                ops,
                rand,
                laid,
                data,
                start,
                all.take(i as int),
                begin,
                Ok((made_view(world@, made@), now)),
            ),
        decreases sites.len() - i,
    {
        let ghost done = all.take(i + 1);
        let ghost before = (made_view(world@, made@), now);
        let site: &ResolvedStochasticSite = &sites[i];
        proof {
            assert(done.drop_last() =~= all.take(i as int));
            assert(done.last() == site@);
            assert(world@ =~= (EnvModel { values: before.0.seen, data }));
        }
        let step: Result<N::Source, Error> = match &site.value {
            Expr::Param(_) => Ok(now),
            Expr::Data(name) => make_data(
                ops,
                rand,
                &mut world,
                &mut made,
                site,
                name.as_str(),
                now,
            ),
            _ => {
                if is_bounded_vector_site(specs, site) {
                    Err(refuse_bounded_vector(ops, &world, &site.distribution))
                } else {
                    match check_unassignable(site, &world) {
                        Err(error) => Err(error),
                        Ok(()) => Ok(now),
                    }
                }
            },
        };
        match step {
            Err(error) => {
                proof {
                    let out = Err::<(MadeModel, N::Source), Fault>(error@);
                    assert(site_made(
                        ops,
                        rand,
                        laid,
                        data,
                        before.0,
                        done.last(),
                        before.1,
                        out,
                    ));
                    assert(sites_made(ops, rand, laid, data, start, done, begin, out));
                    lemma_made_fail(ops, rand, laid, data, start, all, i + 1, begin, error@);
                    assert(sites_made(ops, rand, laid, data, start, all, begin, out));
                }
                return Err(error);
            },
            Ok(after) => {
                proof {
                    let out = Ok::<(MadeModel, N::Source), Fault>((made_view(world@, made@), after));
                    assert(site_made(
                        ops,
                        rand,
                        laid,
                        data,
                        before.0,
                        done.last(),
                        before.1,
                        out,
                    ));
                    assert(sites_made(ops, rand, laid, data, start, done, begin, out));
                }
                now = after;
            },
        }
        i += 1;
    }
    proof {
        assert(all.take(i as int) =~= all);
        assert(sites_made(
            ops,
            rand,
            laid,
            data,
            start,
            all,
            begin,
            Ok((made_view(world@, made@), now)),
        ));
    }
    Ok(made)
}

/// Simulates observed data from a model and given values of its free values: the declared data,
/// with the generated data behind it in the order of the sites.
pub fn simulate_data_from_truth<A: Arithmetic, N: Randomness>(
    meta: &ModelMeta,
    declared_data: Vec<(String, DataValue)>,
    truth: &Vec<(String, DataValue)>,
    seed: u64,
    ops: &A,
    rand: &N,
) -> (r: Result<Vec<(String, DataValue)>, Error>)
    requires
        ops.reliable(),
        rand.ready(),
        all_filled(data_views(declared_data@)),
        all_filled(data_views(truth@)),
    ensures
        truth_simulated(
            ops,
            rand,
            meta@,
            data_views(declared_data@),
            data_views(truth@),
            seed,
            data_outcome(r),
        ),
{
    let ghost bound = data_views(declared_data@);
    let ghost given = data_views(truth@);
    validate_reportable_seed(seed, "simulate")?;
    bind_declared_data(meta, &declared_data)?;
    let laid: Result<Vec<(String, FreeSpec)>, Error> = free_specs(ops, meta, &declared_data);
    let ghost kept = specs_outcome(laid);
    assert(specs_laid(ops, meta@, bound, kept));
    let specs: Vec<(String, FreeSpec)> = match laid {
        Err(error) => {
            assert(laid_made(ops, rand, meta@, bound, given, seed, kept, Err(error@)));
            return Err(error);
        },
        Ok(specs) => specs,
    };
    let values: Vec<(String, Tensor)> = match validate_fixed_truth(&specs, truth, "simulate") {
        Err(error) => {
            assert(laid_made(ops, rand, meta@, bound, given, seed, kept, Err(error@)));
            return Err(error);
        },
        Ok(values) => values,
    };
    let mut output: Vec<(String, DataValue)> = copy_data(&declared_data);
    let ghost declared = output@;
    let env: ForwardEnv = ForwardEnv { values, data: declared_data };
    let ghost start = MadeModel { seen: env@.values, made: Seq::empty() };
    let sites: Vec<ResolvedStochasticSite> = meta.resolved_stochastic_sites();
    let source: N::Source = rand.start(seed);
    let made: Result<Vec<(String, DataValue)>, Error> = make_sites(
        ops,
        rand,
        &specs,
        env,
        &sites,
        source,
    );
    proof {
        let end = choose|end: Result<(MadeModel, N::Source), Fault>| #[trigger]
            sites_made(
                ops,
                rand,
                named_views(specs@),
                bound,
                start,
                list_views(sites@),
                source,
                end,
            ) && data_outcome(made) == (match end {
                Err(fault) => Err(fault),
                Ok((last, _)) => Ok(last.made),
            });
        assert(source_made(
            ops,
            rand,
            named_views(specs@),
            bound,
            start,
            resolved_sites(meta@),
            source,
            with_made(bound, end),
        ));
        assert(rand.start_gives(seed, source));
        assert(laid_made(ops, rand, meta@, bound, given, seed, kept, with_made(bound, end)));
    }
    match made {
        Err(error) => Err(error),
        Ok(list) => {
            let ghost added = list@;
            let mut rest: Vec<(String, DataValue)> = list;
            output.append(&mut rest);
            assert(data_views(output@) =~= data_views(declared) + data_views(added));
            Ok(output)
        },
    }
}

/// The data that sites assign, in their order.
pub open spec fn assigned_names(sites: Seq<SiteModel>) -> Seq<Seq<char>>
    decreases sites.len(),
{
    if sites.len() == 0 {
        Seq::empty()
    } else {
        match sites.last().value {
            ExprModel::Data(name) => assigned_names(sites.drop_last()).push(name),
            _ => assigned_names(sites.drop_last()),
        }
    }
}

proof fn lemma_made_names<A: Arithmetic, N: Randomness>(
    ops: &A,
    rand: &N,
    specs: Seq<(Seq<char>, FreeSpecModel)>,
    data: Seq<(Seq<char>, DataModel)>,
    start: MadeModel,
    sites: Seq<SiteModel>,
    source: N::Source,
    out: Result<(MadeModel, N::Source), Fault>,
)
    requires
        start.made.len() == 0,
        sites_made(ops, rand, specs, data, start, sites, source, out),
        out is Ok,
    ensures
        bound_names(out->Ok_0.0.made) == assigned_names(sites),
    decreases sites.len(),
{
    if sites.len() == 0 {
        assert(bound_names(start.made) =~= Seq::empty());
    } else {
        let before = choose|before: (MadeModel, N::Source)| #[trigger]
            site_made(ops, rand, specs, data, before.0, sites.last(), before.1, out) && sites_made(
                ops,
                rand,
                specs,
                data,
                start,
                sites.drop_last(),
                source,
                Ok(before),
            );
        lemma_made_names(ops, rand, specs, data, start, sites.drop_last(), source, Ok(before));
        if let ExprModel::Data(name) = sites.last().value {
            assert(bound_names(out->Ok_0.0.made) =~= bound_names(before.0.made).push(name));
        }
    }
}

/// Simulated data begins with the declared data as it was given, and what follows are the observed
/// values that the sites assign, in the order of the sites.
pub proof fn law_simulation_extends_declared_data<A: Arithmetic, N: Randomness>(
    ops: &A,
    rand: &N,
    m: MetaModel,
    data: Seq<(Seq<char>, DataModel)>,
    truth: Seq<(Seq<char>, DataModel)>,
    seed: u64,
    out: Seq<(Seq<char>, DataModel)>,
)
    requires
        truth_simulated(ops, rand, m, data, truth, seed, Ok(out)),
    ensures
        out.len() >= data.len(),
        out.take(data.len() as int) == data,
        bound_names(out.skip(data.len() as int)) == assigned_names(resolved_sites(m)),
{
    let r = Ok::<Seq<(Seq<char>, DataModel)>, Fault>(out);
    let specs = choose|specs: Result<Seq<(Seq<char>, FreeSpecModel)>, Fault>| #[trigger]
        specs_laid(ops, m, data, specs) && laid_made(ops, rand, m, data, truth, seed, specs, r);
    let laid = specs->Ok_0;
    let values = truth_read(laid, truth, "simulate"@)->Ok_0;
    let start = MadeModel { seen: values, made: Seq::empty() };
    let sites = resolved_sites(m);
    let source = choose|source: N::Source| #[trigger]
        rand.start_gives(seed, source) && source_made(
            ops,
            rand,
            laid,
            data,
            start,
            sites,
            source,
            r,
        );
    let end = choose|end: Result<(MadeModel, N::Source), Fault>| #[trigger]
        sites_made(ops, rand, laid, data, start, sites, source, end) && r == with_made(data, end);
    lemma_made_names(ops, rand, laid, data, start, sites, source, end);
    assert(out.take(data.len() as int) =~= data);
    assert(out.skip(data.len() as int) =~= end->Ok_0.0.made);
}

} // verus!
