//! The report on a model as it is evaluated.

use vstd::prelude::*;

use crate::artifact::shape_value;
#[allow(unused_imports)]
use crate::artifact::shape_json;
use crate::bounds::ResolvedConstraint;
#[allow(unused_imports)]
use crate::bounds::{optional_numbers, optional_resolved, ResolvedModel};
use crate::data::{copy_data, DataValue};
#[allow(unused_imports)]
use crate::data::{data_views, number_views, DataModel};
use crate::error::Error;
#[allow(unused_imports)]
use crate::error::{outcome, Fault};
use crate::ir::{
    Constraint, DataSchema, Dim, ModelMeta, ResolvedFreeValue, ResolvedObserved, ResolvedParam, ResolvedStochasticSite, Size,
};
#[allow(unused_imports)]
use crate::ir::{
    list_views, optional_constraint, optional_name, resolved_sites, ConstraintModel, DimModel, DistModel, FreeModel,
    MetaModel, ObservedModel, ParamModel, SchemaModel, SiteModel, SizeModel,
};
use crate::json::Value;
#[allow(unused_imports)]
use crate::json::{group_json_views, items_view, Json};
use crate::model::find_data;
#[allow(unused_imports)]
use crate::model::{all_filled, data_named, expected_names, lemma_none_missing};
use crate::number::Number;
#[allow(unused_imports)]
use crate::number::{number_of_integer, NumberModel};
use crate::numerics::Arithmetic;
use crate::posterior::{FreeSlot, Posterior};
#[allow(unused_imports)]
use crate::posterior::binds;
use crate::render::{render, Fields};
#[allow(unused_imports)]
use crate::render::{line_outcome, rendered};
use crate::sameness::equal_distributions;
#[allow(unused_imports)]
use crate::sameness::same_dist;
use crate::text;

use super::wire::{data_ref_value, dim_ref_value, distribution_wire_value, expression_wire_value};
#[allow(unused_imports)]
use super::wire::{data_ref_json, dim_ref_json, dist_json, expr_json};

verus! {

/// The version of inspections.
pub const INSPECTION_FORMAT: &'static str = "v0-provisional";

/// The name of data that bounds a vector, as a document.
pub open spec fn bound_ref_json(name: Option<Seq<char>>) -> Json {
    match name {
        Some(found) => data_ref_json(found),
        None => Json::Null,
    }
}

fn bound_ref_value(name: &Option<String>) -> (r: Value)
    ensures
        r@ == bound_ref_json(optional_name(*name)),
{
    match name {
        Some(found) => data_ref_value(found.as_str()),
        None => Value::Null,
    }
}

/// The fields of a declared constraint.
pub open spec fn constraint_entries(c: ConstraintModel) -> Seq<(Seq<char>, Json)> {
    match c {
        ConstraintModel::Positive => seq![("node"@, Json::Str("Positive"@))],
        ConstraintModel::UnitInterval => seq![("node"@, Json::Str("UnitInterval"@))],
        ConstraintModel::Ordered => seq![("node"@, Json::Str("Ordered"@))],
        ConstraintModel::Interval { lower, upper } => seq![
            ("node"@, Json::Str("Interval"@)),
            ("lower"@, Json::Float(lower)),
            ("upper"@, Json::Float(upper)),
        ],
        ConstraintModel::VectorBounds { lower, upper } => seq![
            ("node"@, Json::Str("VectorBounds"@)),
            ("lower"@, bound_ref_json(lower)),
            ("upper"@, bound_ref_json(upper)),
        ],
    }
}

/// A declared constraint as a document.
pub open spec fn declared_json(c: Option<ConstraintModel>) -> Json {
    match c {
        Some(found) => Json::Object(constraint_entries(found)),
        None => Json::Null,
    }
}

fn declared_constraint_value(constraint: &Option<Constraint>) -> (r: Value)
    ensures
        r@ == declared_json(optional_constraint(*constraint)),
{
    match constraint {
        None => Value::Null,
        Some(found) => {
            let mut out: Fields = Fields::new();
            match found {
                Constraint::Positive => {
                    out.put_text("node", "Positive");
                },
                Constraint::UnitInterval => {
                    out.put_text("node", "UnitInterval");
                },
                Constraint::Ordered => {
                    out.put_text("node", "Ordered");
                },
                Constraint::Interval { lower, upper } => {
                    out.put_text("node", "Interval");
                    out.put("lower", Value::Float(lower.copy()));
                    out.put("upper", Value::Float(upper.copy()));
                },
                Constraint::VectorBounds { lower, upper } => {
                    out.put_text("node", "VectorBounds");
                    out.put("lower", bound_ref_value(lower));
                    out.put("upper", bound_ref_value(upper));
                },
            }
            assert(out@ == constraint_entries(found@));
            out.done()
        },
    }
}

/// Numbers as a document.
pub open spec fn numbers_json(values: Seq<NumberModel>) -> Json {
    Json::Array(values.map_values(|n: NumberModel| Json::Float(n)))
}

/// Optional numbers as a document.
pub open spec fn optional_numbers_json(values: Option<Seq<NumberModel>>) -> Json {
    match values {
        Some(found) => numbers_json(found),
        None => Json::Null,
    }
}

fn optional_numbers_value(values: &Option<Vec<Number>>) -> (r: Value)
    ensures
        r@ == optional_numbers_json(optional_numbers(*values)),
{
    broadcast use group_json_views;

    match values {
        None => Value::Null,
        Some(found) => {
            let mut items: Vec<Value> = Vec::new();
            let mut i: usize = 0;
            while i < found.len()
                invariant
                    i <= found.len(),
                    items.len() == i,
                    forall|k: int|
                        0 <= k < i ==> (#[trigger] items@[k])@ == Json::Float(found@[k]@),
                decreases found.len() - i,
            {
                items.push(Value::Float(found[i].copy()));
                i += 1;
            }
            assert(items_view(items@) =~= number_views(found@).map_values(
                |n: NumberModel| Json::Float(n),
            ));
            Value::Array(items)
        },
    }
}

/// The fields of a resolved constraint.
pub open spec fn resolved_entries(c: Option<ResolvedModel>) -> Seq<(Seq<char>, Json)> {
    match c {
        None => seq![("kind"@, Json::Str("unconstrained"@))],
        Some(ResolvedModel::Positive) => seq![("kind"@, Json::Str("positive"@))],
        Some(ResolvedModel::UnitInterval) => seq![
            ("kind"@, Json::Str("unit_interval"@)),
            ("lower"@, Json::Float(number_of_integer(0))),
            ("upper"@, Json::Float(number_of_integer(1))),
        ],
        Some(ResolvedModel::Interval { lower, upper }) => seq![
            ("kind"@, Json::Str("interval"@)),
            ("lower"@, Json::Float(lower)),
            ("upper"@, Json::Float(upper)),
        ],
        Some(ResolvedModel::Ordered) => seq![("kind"@, Json::Str("ordered"@))],
        Some(ResolvedModel::VectorBounds { lower, upper }) => seq![
            ("kind"@, Json::Str("vector_bounds"@)),
            ("lower"@, optional_numbers_json(lower)),
            ("upper"@, optional_numbers_json(upper)),
        ],
    }
}

fn resolved_constraint_value(constraint: &Option<ResolvedConstraint>) -> (r: Value)
    ensures
        r@ == Json::Object(resolved_entries(optional_resolved(*constraint))),
{
    let mut out: Fields = Fields::new();
    match constraint {
        None => {
            out.put_text("kind", "unconstrained");
        },
        Some(ResolvedConstraint::Positive) => {
            out.put_text("kind", "positive");
        },
        Some(ResolvedConstraint::UnitInterval) => {
            out.put_text("kind", "unit_interval");
            out.put("lower", Value::Float(Number::from_integer(0)));
            out.put("upper", Value::Float(Number::from_integer(1)));
        },
        Some(ResolvedConstraint::Interval { lower, upper }) => {
            out.put_text("kind", "interval");
            out.put("lower", Value::Float(lower.copy()));
            out.put("upper", Value::Float(upper.copy()));
        },
        Some(ResolvedConstraint::Ordered) => {
            out.put_text("kind", "ordered");
        },
        Some(ResolvedConstraint::VectorBounds { lower, upper }) => {
            out.put_text("kind", "vector_bounds");
            out.put("lower", optional_numbers_value(lower));
            out.put("upper", optional_numbers_value(upper));
        },
    }
    assert(out@ == resolved_entries(optional_resolved(*constraint)));
    out.done()
}

/// A size as a document.
pub open spec fn size_json(size: SizeModel) -> Json {
    match size {
        SizeModel::Scalar => Json::Null,
        SizeModel::Fixed(n) => Json::Int(n),
        SizeModel::Data(name) => data_ref_json(name),
    }
}

fn size_value(size: &Size) -> (r: Value)
    ensures
        r@ == size_json(size@),
{
    match size {
        Size::Scalar => Value::Null,
        Size::Fixed(n) => Value::Int(*n),
        Size::Data(name) => data_ref_value(name.as_str()),
    }
}

/// An axis of declared data as a document.
pub open spec fn dim_json(dim: DimModel) -> Json {
    match dim {
        DimModel::Fixed(n) => Json::Int(n),
        DimModel::DataDim(name) => dim_ref_json(name),
    }
}

/// The fields of a schema.
pub open spec fn schema_entries(schema: SchemaModel) -> Seq<(Seq<char>, Json)> {
    match schema {
        SchemaModel::Rank(rank) => seq![
            ("node"@, Json::Str("ResolvedDataRankSchema"@)),
            ("rank"@, Json::Int(rank)),
        ],
        SchemaModel::Shape(dims) => seq![
            ("node"@, Json::Str("ResolvedDataShapeSchema"@)),
            ("dims"@, Json::Array(dims.map_values(|d: DimModel| dim_json(d)))),
        ],
    }
}

fn schema_value(schema: &DataSchema) -> (r: Value)
    ensures
        r@ == Json::Object(schema_entries(schema@)),
{
    broadcast use group_json_views;

    let mut out: Fields = Fields::new();
    match schema {
        DataSchema::Rank(rank) => {
            out.put_text("node", "ResolvedDataRankSchema");
            out.put_int("rank", *rank);
        },
        DataSchema::Shape(dims) => {
            let mut items: Vec<Value> = Vec::new();
            let mut i: usize = 0;
            while i < dims.len()
                invariant
                    i <= dims.len(),
                    items.len() == i,
                    forall|k: int| 0 <= k < i ==> (#[trigger] items@[k])@ == dim_json(dims@[k]@),
                decreases dims.len() - i,
            {
                items.push(
                    match &dims[i] {
                        Dim::Fixed(n) => Value::Int(*n),
                        Dim::DataDim(name) => dim_ref_value(name.as_str()),
                    },
                );
                i += 1;
            }
            assert(items_view(items@) =~= dims@.map_values(|d: Dim| d@).map_values(
                |d: DimModel| dim_json(d),
            ));
            out.put_text("node", "ResolvedDataShapeSchema");
            out.put("dims", Value::Array(items));
        },
    }
    assert(out@ == schema_entries(schema@));
    out.done()
}

/// The fields of bound data.
pub open spec fn bound_entries(name: Seq<char>, role: Seq<char>, schema: Json, value: DataModel) -> Seq<
    (Seq<char>, Json),
> {
    seq![
        ("name"@, Json::Str(name)),
        ("role"@, Json::Str(role)),
        ("declared_schema"@, schema),
        ("bound_shape"@, shape_json(value.shape)),
        ("bound_integer"@, Json::Bool(value.integer)),
    ]
}

fn bound_value(name: &str, role: &str, schema: Value, value: &DataValue) -> (r: Value)
    ensures
        r@ == Json::Object(bound_entries(name@, role@, schema@, value@)),
{
    let ghost declared = schema@;
    let mut out: Fields = Fields::new();
    out.put_text("name", name);
    out.put_text("role", role);
    out.put("declared_schema", schema);
    out.put("bound_shape", shape_value(value.shape.as_slice()));
    out.put_bool("bound_integer", value.integer);
    assert(out@ == bound_entries(name@, role@, declared, value@));
    out.done()
}

/// Whether every declared and observed name is bound.
pub open spec fn all_bound(m: MetaModel, data: Seq<(Seq<char>, DataModel)>) -> bool {
    &&& forall|i: int|
        0 <= i < m.data.len() ==> data_named(data, (#[trigger] m.data[i]).0) is Some
    &&& forall|i: int|
        0 <= i < m.observed_nodes.len() ==> data_named(
            data,
            (#[trigger] m.observed_nodes[i]).name,
        ) is Some
}

/// Declared data in a report.
pub open spec fn declared_data(m: MetaModel, data: Seq<(Seq<char>, DataModel)>) -> Seq<Json> {
    m.data.map_values(
        |d: (Seq<char>, SchemaModel)|
            Json::Object(
                bound_entries(
                    d.0,
                    "declared_data"@,
                    Json::Object(schema_entries(d.1)),
                    data_named(data, d.0)->0,
                ),
            ),
    )
}

/// Observed data in a report.
pub open spec fn observed_data(m: MetaModel, data: Seq<(Seq<char>, DataModel)>) -> Seq<Json> {
    m.observed_nodes.map_values(
        |o: ObservedModel|
            Json::Object(
                bound_entries(o.name, "observed"@, Json::Null, data_named(data, o.name)->0),
            ),
    )
}

fn data_report(meta: &ModelMeta, data: &Vec<(String, DataValue)>) -> (r: Value)
    requires
        all_bound(meta@, data_views(data@)),
    ensures
        r@ == Json::Array(
            declared_data(meta@, data_views(data@)) + observed_data(meta@, data_views(data@)),
        ),
{
    broadcast use group_json_views;

    let ghost m = meta@;
    let ghost all = data_views(data@);
    let ghost first = declared_data(m, all);
    let ghost second = observed_data(m, all);
    let mut items: Vec<Value> = Vec::new();
    let mut i: usize = 0;
    while i < meta.data.len()
        invariant
            i <= meta.data.len(),
            m == meta@,
            all == data_views(data@),
            all_bound(m, all),
            first == declared_data(m, all),
            items.len() == i,
            forall|k: int| 0 <= k < i ==> (#[trigger] items@[k])@ == first[k],
        decreases meta.data.len() - i,
    {
        let name: &str = meta.data[i].0.as_str();
        assert(m.data[i as int] == (name@, meta.data@[i as int].1@));
        let value: &DataValue = find_data(data, name).unwrap();
        items.push(
            bound_value(name, "declared_data", schema_value(&meta.data[i].1.schema), value),
        );
        i += 1;
    }
    let mut j: usize = 0;
    while j < meta.observed_nodes.len()
        invariant
            j <= meta.observed_nodes.len(),
            m == meta@,
            all == data_views(data@),
            all_bound(m, all),
            second == observed_data(m, all),
            first.len() == meta.data@.len(),
            items.len() == meta.data.len() + j,
            forall|k: int| 0 <= k < meta.data.len() ==> (#[trigger] items@[k])@ == first[k],
            forall|k: int|
                meta.data.len() <= k < meta.data.len() + j ==> (#[trigger] items@[k])@ == second[k
                    - meta.data.len()],
        decreases meta.observed_nodes.len() - j,
    {
        let name: &str = meta.observed_nodes[j].name.as_str();
        assert(m.observed_nodes[j as int] == meta.observed_nodes@[j as int]@);
        let value: &DataValue = find_data(data, name).unwrap();
        items.push(bound_value(name, "observed", Value::Null, value));
        j += 1;
    }
    assert(items_view(items@) =~= first + second);
    Value::Array(items)
}

/// The site of that name, from one on.
pub open spec fn site_from(sites: Seq<SiteModel>, name: Seq<char>, i: int) -> Option<SiteModel>
    decreases sites.len() - i,
{
    if i < 0 || i >= sites.len() {
        None
    } else if sites[i].name == name {
        Some(sites[i])
    } else {
        site_from(sites, name, i + 1)
    }
}

fn find_site<'a>(sites: &'a Vec<ResolvedStochasticSite>, name: &str) -> (r: Option<
    &'a ResolvedStochasticSite,
>)
    ensures
        match r {
            Some(site) => site_from(list_views(sites@), name@, 0) == Some(site@),
            None => site_from(list_views(sites@), name@, 0) is None,
        },
{
    let ghost all = list_views(sites@);
    let mut i: usize = 0;
    while i < sites.len()
        invariant
            i <= sites.len(),
            all == list_views(sites@),
            site_from(all, name@, 0) == site_from(all, name@, i as int),
        decreases sites.len() - i,
    {
        assert(all[i as int] == sites@[i as int]@);
        if text::same(sites[i].name.as_str(), name) {
            return Some(&sites[i]);
        }
        i += 1;
    }
    None
}

/// What a report notes of structural differences.
pub const DIFFERENCE_NOTE: &'static str = "structural difference only; no mathematical inequivalence is asserted";

/// The fields of a difference between a declaration and its factor.
pub open spec fn difference_entries(name: Seq<char>, declared: DistModel, executed: DistModel) -> Seq<
    (Seq<char>, Json),
> {
    seq![
        ("name"@, Json::Str(name)),
        ("kind"@, Json::Str("declared_distribution_differs_from_execution_factor"@)),
        ("declared_distribution"@, dist_json(declared)),
        ("execution_distribution"@, dist_json(executed)),
        ("note"@, Json::Str(DIFFERENCE_NOTE@)),
    ]
}

/// The fields of a name without a counterpart.
pub open spec fn alone_entries(name: Seq<char>, kind: Seq<char>) -> Seq<(Seq<char>, Json)> {
    seq![("name"@, Json::Str(name)), ("kind"@, Json::Str(kind))]
}

/// What a declaration and the factors of its name disagree in, if anything.
pub open spec fn disagreement(sites: Seq<SiteModel>, name: Seq<char>, declared: DistModel) -> Seq<Json> {
    match site_from(sites, name, 0) {
        Some(site) => if same_dist(site.distribution, declared) {
            Seq::empty()
        } else {
            seq![Json::Object(difference_entries(name, declared, site.distribution))]
        },
        None => seq![
            Json::Object(
                alone_entries(name, "declaration_without_same_name_execution_factor"@),
            ),
        ],
    }
}

/// What the declared parameters and the factors disagree in.
pub open spec fn param_disagreements(sites: Seq<SiteModel>, params: Seq<(Seq<char>, ParamModel)>) -> Seq<Json>
    decreases params.len(),
{
    if params.len() == 0 {
        Seq::empty()
    } else {
        param_disagreements(sites, params.drop_last()) + disagreement(
            sites,
            params.last().0,
            params.last().1.distribution,
        )
    }
}

/// What the observed nodes and the factors disagree in.
pub open spec fn observed_disagreements(sites: Seq<SiteModel>, nodes: Seq<ObservedModel>) -> Seq<Json>
    decreases nodes.len(),
{
    if nodes.len() == 0 {
        Seq::empty()
    } else {
        observed_disagreements(sites, nodes.drop_last()) + disagreement(
            sites,
            nodes.last().name,
            nodes.last().distribution,
        )
    }
}

/// Whether a name is declared, as a parameter or as an observed node.
pub open spec fn is_declared(m: MetaModel, name: Seq<char>) -> bool {
    ||| exists|i: int| 0 <= i < m.params.len() && (#[trigger] m.params[i]).0 == name
    ||| exists|i: int|
        0 <= i < m.observed_nodes.len() && (#[trigger] m.observed_nodes[i]).name == name
}

/// The factors that nothing declares.
pub open spec fn undeclared_factors(m: MetaModel, sites: Seq<SiteModel>) -> Seq<Json>
    decreases sites.len(),
{
    if sites.len() == 0 {
        Seq::empty()
    } else if is_declared(m, sites.last().name) {
        undeclared_factors(m, sites.drop_last())
    } else {
        undeclared_factors(m, sites.drop_last()).push(
            Json::Object(
                alone_entries(
                    sites.last().name,
                    "execution_factor_without_same_name_declaration"@,
                ),
            ),
        )
    }
}

/// What the declarations and the factors of a model disagree in.
pub open spec fn discrepancies(m: MetaModel) -> Seq<Json> {
    let sites = resolved_sites(m);
    param_disagreements(sites, m.params) + observed_disagreements(sites, m.observed_nodes)
        + undeclared_factors(m, sites)
}

fn alone_value(name: &str, kind: &str) -> (r: Value)
    ensures
        r@ == Json::Object(alone_entries(name@, kind@)),
{
    let mut out: Fields = Fields::new();
    out.put_text("name", name);
    out.put_text("kind", kind);
    assert(out@ == alone_entries(name@, kind@));
    out.done()
}

fn add_disagreement(
    out: &mut Vec<Value>,
    sites: &Vec<ResolvedStochasticSite>,
    name: &str,
    declared: &crate::ir::Distribution,
)
    ensures
        items_view(final(out)@) == items_view(old(out)@) + disagreement(
            list_views(sites@),
            name@,
            declared@,
        ),
{
    broadcast use group_json_views;

    let ghost before = out@;
    match find_site(sites, name) {
        Some(site) => {
            if !equal_distributions(&site.distribution, declared) {
                let mut fields: Fields = Fields::new();
                fields.put_text("name", name);
                fields.put_text("kind", "declared_distribution_differs_from_execution_factor");
                fields.put("declared_distribution", distribution_wire_value(declared));
                fields.put(
                    "execution_distribution",
                    distribution_wire_value(&site.distribution),
                );
                fields.put_text("note", DIFFERENCE_NOTE);
                assert(fields@ == difference_entries(name@, declared@, site.distribution@));
                out.push(fields.done());
            }
        },
        None => {
            out.push(alone_value(name, "declaration_without_same_name_execution_factor"));
        },
    }
    assert(items_view(out@) =~= items_view(before) + disagreement(
        list_views(sites@),
        name@,
        declared@,
    ));
}

fn declares(meta: &ModelMeta, name: &str) -> (r: bool)
    ensures
        r == is_declared(meta@, name@),
{
    let ghost m = meta@;
    let mut i: usize = 0;
    while i < meta.params.len()
        invariant
            i <= meta.params.len(),
            m == meta@,
            forall|k: int| 0 <= k < i ==> (#[trigger] m.params[k]).0 != name@,
        decreases meta.params.len() - i,
    {
        assert(m.params[i as int].0 == meta.params@[i as int].0@);
        if text::same(meta.params[i].0.as_str(), name) {
            return true;
        }
        i += 1;
    }
    let mut j: usize = 0;
    while j < meta.observed_nodes.len()
        invariant
            j <= meta.observed_nodes.len(),
            m == meta@,
            forall|k: int| 0 <= k < m.params.len() ==> (#[trigger] m.params[k]).0 != name@,
            forall|k: int| 0 <= k < j ==> (#[trigger] m.observed_nodes[k]).name != name@,
        decreases meta.observed_nodes.len() - j,
    {
        assert(m.observed_nodes[j as int].name == meta.observed_nodes@[j as int].name@);
        if text::same(meta.observed_nodes[j].name.as_str(), name) {
            return true;
        }
        j += 1;
    }
    false
}

fn discrepancy_report(meta: &ModelMeta, sites: &Vec<ResolvedStochasticSite>) -> (r: Value)
    requires
        list_views(sites@) == resolved_sites(meta@),
    ensures
        r@ == Json::Array(discrepancies(meta@)),
{
    broadcast use group_json_views;

    let ghost m = meta@;
    let ghost all = list_views(sites@);
    let mut out: Vec<Value> = Vec::new();
    assert(items_view(out@) =~= Seq::empty());
    let ghost params = m.params;
    assert(params.take(0) =~= Seq::empty());
    let mut i: usize = 0;
    while i < meta.params.len()
        invariant
            i <= meta.params.len(),
            m == meta@,
            params == m.params,
            all == list_views(sites@),
            items_view(out@) == param_disagreements(all, params.take(i as int)),
        decreases meta.params.len() - i,
    {
        let parameter: &ResolvedParam = &meta.params[i].1;
        proof {
            let done = params.take(i + 1);
            assert(done.drop_last() =~= params.take(i as int));
            assert(done.last() == (meta.params@[i as int].0@, parameter@));
        }
        add_disagreement(&mut out, sites, meta.params[i].0.as_str(), &parameter.distribution);
        i += 1;
    }
    assert(params.take(i as int) =~= params);
    let ghost first = param_disagreements(all, params);
    let ghost nodes = m.observed_nodes;
    assert(nodes.take(0) =~= Seq::empty());
    assert(first + observed_disagreements(all, nodes.take(0)) =~= first);
    let mut j: usize = 0;
    while j < meta.observed_nodes.len()
        invariant
            j <= meta.observed_nodes.len(),
            m == meta@,
            nodes == m.observed_nodes,
            all == list_views(sites@),
            items_view(out@) == first + observed_disagreements(all, nodes.take(j as int)),
        decreases meta.observed_nodes.len() - j,
    {
        let observed: &ResolvedObserved = &meta.observed_nodes[j];
        let ghost before = observed_disagreements(all, nodes.take(j as int));
        proof {
            let done = nodes.take(j + 1);
            assert(done.drop_last() =~= nodes.take(j as int));
            assert(done.last() == observed@);
        }
        add_disagreement(&mut out, sites, observed.name.as_str(), &observed.distribution);
        proof {
            let more = disagreement(all, observed.name@, observed.distribution@);
            assert(first + before + more =~= first + (before + more));
        }
        j += 1;
    }
    assert(nodes.take(j as int) =~= nodes);
    let ghost second = first + observed_disagreements(all, nodes);
    assert(all.take(0) =~= Seq::empty());
    assert(second + undeclared_factors(m, all.take(0)) =~= second);
    let mut k: usize = 0;
    while k < sites.len()
        invariant
            k <= sites.len(),
            m == meta@,
            all == list_views(sites@),
            items_view(out@) == second + undeclared_factors(m, all.take(k as int)),
        decreases sites.len() - k,
    {
        broadcast use group_json_views;

        proof {
            let done = all.take(k + 1);
            assert(done.drop_last() =~= all.take(k as int));
            assert(done.last() == sites@[k as int]@);
        }
        if !declares(meta, sites[k].name.as_str()) {
            let ghost before = out@;
            let ghost known = undeclared_factors(m, all.take(k as int));
            let item: Value = alone_value(
                sites[k].name.as_str(),
                "execution_factor_without_same_name_declaration",
            );
            let ghost content = item@;
            out.push(item);
            assert(items_view(out@) =~= items_view(before).push(content));
            assert((second + known).push(content) =~= second + known.push(content));
        }
        k += 1;
    }
    assert(all.take(k as int) =~= all);
    Value::Array(out)
}

/// The fields of a free slot.
pub open spec fn slot_entries(slot: FreeSlot) -> Seq<(Seq<char>, Json)> {
    seq![
        ("name"@, Json::Str(slot.name@)),
        ("shape"@, shape_json(slot.shape@)),
        ("offset"@, Json::Int(slot.offset as i64)),
        ("length"@, Json::Int(slot.size as i64)),
        (
            "resolved_constraint"@,
            Json::Object(resolved_entries(optional_resolved(slot.constraint))),
        ),
    ]
}

fn slot_value(slot: &FreeSlot) -> (r: Value)
    ensures
        r@ == Json::Object(slot_entries(*slot)),
{
    let mut out: Fields = Fields::new();
    out.put_text("name", slot.name.as_str());
    out.put("shape", shape_value(slot.shape.as_slice()));
    out.put_int("offset", slot.offset as i64);
    out.put_int("length", slot.size as i64);
    out.put("resolved_constraint", resolved_constraint_value(&slot.constraint));
    assert(out@ == slot_entries(*slot));
    out.done()
}

/// The fields of a density factor.
pub open spec fn factor_entries(index: int, site: SiteModel) -> Seq<(Seq<char>, Json)> {
    seq![
        ("index"@, Json::Int(index as i64)),
        ("name"@, Json::Str(site.name)),
        ("distribution"@, dist_json(site.distribution)),
        ("value_expression"@, expr_json(site.value)),
    ]
}

fn factor_value(index: usize, site: &ResolvedStochasticSite) -> (r: Value)
    ensures
        r@ == Json::Object(factor_entries(index as int, site@)),
{
    let mut out: Fields = Fields::new();
    out.put_int("index", index as i64);
    out.put_text("name", site.name.as_str());
    out.put("distribution", distribution_wire_value(&site.distribution));
    out.put("value_expression", expression_wire_value(&site.value));
    assert(out@ == factor_entries(index as int, site@));
    out.done()
}

/// The fields of a declared parameter.
pub open spec fn param_entries(name: Seq<char>, param: ParamModel) -> Seq<(Seq<char>, Json)> {
    seq![
        ("name"@, Json::Str(name)),
        ("distribution"@, dist_json(param.distribution)),
        ("constraint"@, declared_json(param.constraint)),
        ("size"@, size_json(param.size)),
    ]
}

fn param_value(name: &str, param: &ResolvedParam) -> (r: Value)
    ensures
        r@ == Json::Object(param_entries(name@, param@)),
{
    let mut out: Fields = Fields::new();
    out.put_text("name", name);
    out.put("distribution", distribution_wire_value(&param.distribution));
    out.put("constraint", declared_constraint_value(&param.constraint));
    out.put("size", size_value(&param.size));
    assert(out@ == param_entries(name@, param@));
    out.done()
}

/// The fields of an observed node.
pub open spec fn observed_entries(observed: ObservedModel) -> Seq<(Seq<char>, Json)> {
    seq![
        ("name"@, Json::Str(observed.name)),
        ("distribution"@, dist_json(observed.distribution)),
    ]
}

fn observed_value(observed: &ResolvedObserved) -> (r: Value)
    ensures
        r@ == Json::Object(observed_entries(observed@)),
{
    let mut out: Fields = Fields::new();
    out.put_text("name", observed.name.as_str());
    out.put("distribution", distribution_wire_value(&observed.distribution));
    assert(out@ == observed_entries(observed@));
    out.done()
}

/// The fields of an explicit free value.
pub open spec fn free_entries(name: Seq<char>, free: FreeModel) -> Seq<(Seq<char>, Json)> {
    seq![
        ("name"@, Json::Str(name)),
        ("constraint"@, declared_json(free.constraint)),
        ("size"@, size_json(free.size)),
    ]
}

fn free_declaration(name: &str, free: &ResolvedFreeValue) -> (r: Value)
    ensures
        r@ == Json::Object(free_entries(name@, free@)),
{
    let mut out: Fields = Fields::new();
    out.put_text("name", name);
    out.put("constraint", declared_constraint_value(&free.constraint));
    out.put("size", size_value(&free.size));
    assert(out@ == free_entries(name@, free@));
    out.done()
}

/// Whether metadata is given or derived.
pub open spec fn origin(explicit: bool) -> Json {
    if explicit {
        Json::Str("explicit"@)
    } else {
        Json::Str("legacy_derived"@)
    }
}

fn origin_value(explicit: bool) -> (r: Value)
    ensures
        r@ == origin(explicit),
{
    if explicit {
        Value::Str("explicit".to_owned())
    } else {
        Value::Str("legacy_derived".to_owned())
    }
}

pub open spec fn metadata_entries(m: MetaModel) -> Seq<(Seq<char>, Json)> {
    seq![
        ("free_values"@, origin(m.free_values.len() > 0)),
        ("stochastic_sites"@, origin(m.stochastic_sites.len() > 0)),
    ]
}

pub open spec fn slots_json(free: Seq<FreeSlot>) -> Json {
    Json::Array(free.map_values(|slot: FreeSlot| Json::Object(slot_entries(slot))))
}

pub open spec fn factors_json(sites: Seq<SiteModel>) -> Json {
    Json::Array(Seq::new(sites.len(), |i: int| Json::Object(factor_entries(i, sites[i]))))
}

pub open spec fn declaration_entries(m: MetaModel) -> Seq<(Seq<char>, Json)> {
    seq![
        (
            "parameters"@,
            Json::Array(
                m.params.map_values(
                    |p: (Seq<char>, ParamModel)| Json::Object(param_entries(p.0, p.1)),
                ),
            ),
        ),
        (
            "observed"@,
            Json::Array(
                m.observed_nodes.map_values(
                    |o: ObservedModel| Json::Object(observed_entries(o)),
                ),
            ),
        ),
        (
            "explicit_free_values"@,
            Json::Array(
                m.free_values.map_values(
                    |f: (Seq<char>, FreeModel)| Json::Object(free_entries(f.0, f.1)),
                ),
            ),
        ),
    ]
}

pub open spec fn accounting_entries() -> Seq<(Seq<char>, Json)> {
    seq![
        ("transform_jacobians"@, Json::Str("included_in_evaluated_log_density"@)),
        ("factor_order"@, Json::Str("density_factors_array_order"@)),
    ]
}

/// The fields of an inspection.
pub open spec fn inspection_entries(
    m: MetaModel,
    data: Seq<(Seq<char>, DataModel)>,
    p: Posterior,
) -> Seq<(Seq<char>, Json)> {
    seq![
        ("inspection_format"@, Json::Str(INSPECTION_FORMAT@)),
        ("execution_metadata"@, Json::Object(metadata_entries(m))),
        ("unconstrained_parameter_count"@, Json::Int(p.n_params as i64)),
        ("free_slots"@, slots_json(p.free@)),
        ("density_factors"@, factors_json(resolved_sites(m))),
        ("declarations"@, Json::Object(declaration_entries(m))),
        ("data"@, Json::Array(declared_data(m, data) + observed_data(m, data))),
        ("structural_discrepancies"@, Json::Array(discrepancies(m))),
        ("density_accounting"@, Json::Object(accounting_entries())),
    ]
}

/// An inspection, by what binding the model came to.
pub open spec fn inspection_of(
    m: MetaModel,
    data: Seq<(Seq<char>, DataModel)>,
    bound: Result<Posterior, Error>,
) -> Result<Json, Fault> {
    match bound {
        Err(error) => Err(error@),
        Ok(p) => Ok(Json::Object(inspection_entries(m, data, p))),
    }
}

/// Whether inspecting a model on data can come to that.
pub open spec fn inspects<A: Arithmetic>(
    ops: &A,
    m: MetaModel,
    data: Seq<(Seq<char>, DataModel)>,
    out: Result<Json, Fault>,
) -> bool {
    exists|bound: Result<Posterior, Error>| #[trigger]
        binds(ops, m, data, bound) && out == inspection_of(m, data, bound)
}

fn slots_value(free: &Vec<FreeSlot>) -> (r: Value)
    ensures
        r@ == slots_json(free@),
{
    broadcast use group_json_views;

    let mut items: Vec<Value> = Vec::new();
    let mut i: usize = 0;
    while i < free.len()
        invariant
            i <= free.len(),
            items.len() == i,
            forall|k: int|
                0 <= k < i ==> (#[trigger] items@[k])@ == Json::Object(slot_entries(free@[k])),
        decreases free.len() - i,
    {
        items.push(slot_value(&free[i]));
        i += 1;
    }
    assert(items_view(items@) =~= free@.map_values(
        |slot: FreeSlot| Json::Object(slot_entries(slot)),
    ));
    Value::Array(items)
}

fn factors_value(sites: &Vec<ResolvedStochasticSite>) -> (r: Value)
    ensures
        r@ == factors_json(list_views(sites@)),
{
    broadcast use group_json_views;

    let ghost all = list_views(sites@);
    let mut items: Vec<Value> = Vec::new();
    let mut i: usize = 0;
    while i < sites.len()
        invariant
            i <= sites.len(),
            all == list_views(sites@),
            items.len() == i,
            forall|k: int|
                0 <= k < i ==> (#[trigger] items@[k])@ == Json::Object(factor_entries(k, all[k])),
        decreases sites.len() - i,
    {
        assert(all[i as int] == sites@[i as int]@);
        items.push(factor_value(i, &sites[i]));
        i += 1;
    }
    assert(items_view(items@) =~= Seq::new(
        all.len(),
        |i: int| Json::Object(factor_entries(i, all[i])),
    ));
    Value::Array(items)
}

fn declarations_value(meta: &ModelMeta) -> (r: Value)
    ensures
        r@ == Json::Object(declaration_entries(meta@)),
{
    broadcast use group_json_views;

    let ghost m = meta@;
    let mut params: Vec<Value> = Vec::new();
    let mut i: usize = 0;
    while i < meta.params.len()
        invariant
            i <= meta.params.len(),
            params.len() == i,
            forall|k: int|
                0 <= k < i ==> (#[trigger] params@[k])@ == Json::Object(
                    param_entries(meta.params@[k].0@, meta.params@[k].1@),
                ),
        decreases meta.params.len() - i,
    {
        params.push(param_value(meta.params[i].0.as_str(), &meta.params[i].1));
        i += 1;
    }
    assert(items_view(params@) =~= m.params.map_values(
        |p: (Seq<char>, ParamModel)| Json::Object(param_entries(p.0, p.1)),
    ));
    let mut observed: Vec<Value> = Vec::new();
    let mut j: usize = 0;
    while j < meta.observed_nodes.len()
        invariant
            j <= meta.observed_nodes.len(),
            observed.len() == j,
            forall|k: int|
                0 <= k < j ==> (#[trigger] observed@[k])@ == Json::Object(
                    observed_entries(meta.observed_nodes@[k]@),
                ),
        decreases meta.observed_nodes.len() - j,
    {
        observed.push(observed_value(&meta.observed_nodes[j]));
        j += 1;
    }
    assert(items_view(observed@) =~= m.observed_nodes.map_values(
        |o: ObservedModel| Json::Object(observed_entries(o)),
    ));
    let mut free: Vec<Value> = Vec::new();
    let mut k: usize = 0;
    while k < meta.free_values.len()
        invariant
            k <= meta.free_values.len(),
            free.len() == k,
            forall|l: int|
                0 <= l < k ==> (#[trigger] free@[l])@ == Json::Object(
                    free_entries(meta.free_values@[l].0@, meta.free_values@[l].1@),
                ),
        decreases meta.free_values.len() - k,
    {
        free.push(free_declaration(meta.free_values[k].0.as_str(), &meta.free_values[k].1));
        k += 1;
    }
    assert(items_view(free@) =~= m.free_values.map_values(
        |f: (Seq<char>, FreeModel)| Json::Object(free_entries(f.0, f.1)),
    ));
    let mut out: Fields = Fields::new();
    out.put("parameters", Value::Array(params));
    out.put("observed", Value::Array(observed));
    out.put("explicit_free_values", Value::Array(free));
    assert(out@ == declaration_entries(m));
    out.done()
}

proof fn lemma_all_bound<A: Arithmetic>(
    ops: &A,
    m: MetaModel,
    data: Seq<(Seq<char>, DataModel)>,
    p: Posterior,
)
    requires
        binds(ops, m, data, Ok(p)),
    ensures
        all_bound(m, data),
{
    let wanted = expected_names(m);
    assert forall|i: int| 0 <= i < m.data.len() implies data_named(
        data,
        (#[trigger] m.data[i]).0,
    ) is Some by {
        assert(wanted[i] == m.data[i].0);
        lemma_none_missing(wanted, data, m.data[i].0);
    }
    assert forall|i: int| 0 <= i < m.observed_nodes.len() implies data_named(
        data,
        (#[trigger] m.observed_nodes[i]).name,
    ) is Some by {
        assert(wanted[m.data.len() + i] == m.observed_nodes[i].name);
        lemma_none_missing(wanted, data, m.observed_nodes[i].name);
    }
}

fn metadata_value(meta: &ModelMeta) -> (r: Value)
    ensures
        r@ == Json::Object(metadata_entries(meta@)),
{
    let ghost m = meta@;
    assert(m.free_values.len() == meta.free_values@.len());
    assert(m.stochastic_sites.len() == meta.stochastic_sites@.len());
    let mut out: Fields = Fields::new();
    out.put("free_values", origin_value(meta.free_values.len() > 0));
    out.put("stochastic_sites", origin_value(meta.stochastic_sites.len() > 0));
    assert(out@ == metadata_entries(m));
    out.done()
}

fn accounting_value() -> (r: Value)
    ensures
        r@ == Json::Object(accounting_entries()),
{
    let mut out: Fields = Fields::new();
    out.put_text("transform_jacobians", "included_in_evaluated_log_density");
    out.put_text("factor_order", "density_factors_array_order");
    assert(out@ == accounting_entries());
    out.done()
}

/// Describes a bound model as it is evaluated.
fn inspection_value(
    meta: &ModelMeta,
    data: &Vec<(String, DataValue)>,
    posterior: &Posterior,
    sites: &Vec<ResolvedStochasticSite>,
) -> (r: Value)
    requires
        all_bound(meta@, data_views(data@)),
        list_views(sites@) == resolved_sites(meta@),
    ensures
        r@ == Json::Object(inspection_entries(meta@, data_views(data@), *posterior)),
{
    let mut out: Fields = Fields::new();
    out.put_text("inspection_format", INSPECTION_FORMAT);
    out.put("execution_metadata", metadata_value(meta));
    out.put_int("unconstrained_parameter_count", posterior.n_params as i64);
    out.put("free_slots", slots_value(&posterior.free));
    out.put("density_factors", factors_value(sites));
    out.put("declarations", declarations_value(meta));
    out.put("data", data_report(meta, data));
    out.put("structural_discrepancies", discrepancy_report(meta, sites));
    out.put("density_accounting", accounting_value());
    assert(out@ == inspection_entries(meta@, data_views(data@), *posterior));
    out.done()
}

/// Binds a model to data and describes it as it is evaluated.
pub fn inspect_model<A: Arithmetic>(
    meta: &ModelMeta,
    data: &Vec<(String, DataValue)>,
    ops: &A,
) -> (r: Result<Value, Error>)
    requires
        ops.reliable(),
        all_filled(data_views(data@)),
    ensures
        inspects(ops, meta@, data_views(data@), outcome(r)),
{
    let bound: Result<Posterior, Error> = Posterior::bind(meta, copy_data(data), ops);
    assert(binds(ops, meta@, data_views(data@), bound));
    match bound {
        Err(error) => Err(error),
        Ok(posterior) => {
            proof {
                lemma_all_bound(ops, meta@, data_views(data@), posterior);
            }
            let sites: Vec<ResolvedStochasticSite> = meta.resolved_stochastic_sites();
            Ok(inspection_value(meta, data, &posterior, &sites))
        },
    }
}

/// Whether the text of an inspection can come to that.
pub open spec fn inspection_written<A: Arithmetic>(
    ops: &A,
    m: MetaModel,
    data: Seq<(Seq<char>, DataModel)>,
    out: Result<Seq<char>, Fault>,
) -> bool {
    exists|inspection: Result<Json, Fault>| #[trigger]
        inspects(ops, m, data, inspection) && out == (match inspection {
            Err(fault) => Err::<Seq<char>, Fault>(fault),
            Ok(value) => rendered(value),
        })
}

/// The text of an inspection.
pub fn inspect_json<A: Arithmetic>(
    meta: &ModelMeta,
    data: &Vec<(String, DataValue)>,
    ops: &A,
) -> (r: Result<String, Error>)
    requires
        ops.reliable(),
        all_filled(data_views(data@)),
    ensures
        inspection_written(ops, meta@, data_views(data@), line_outcome(r)),
{
    let inspection: Result<Value, Error> = inspect_model(meta, data, ops);
    let ghost found = outcome(inspection);
    assert(inspects(ops, meta@, data_views(data@), found));
    match inspection {
        Err(error) => Err(error),
        Ok(value) => render(&value),
    }
}

} // verus!
