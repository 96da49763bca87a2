//! Expressions and distributions as documents.

use vstd::prelude::*;

use crate::ir::{BinOpKind, Distribution, Expr, IndexSpec, UnaryFn};
#[allow(unused_imports)]
use crate::ir::{group_ir_views, indices_view, optional_expr, DistModel, ExprModel, IndexModel};
use crate::json::Value;
#[allow(unused_imports)]
use crate::json::{group_json_views, items_view, Json};
use crate::render::Fields;

verus! {

/// The sign of an operation.
pub open spec fn operation_sign(op: BinOpKind) -> Seq<char> {
    match op {
        BinOpKind::Add => "+"@,
        BinOpKind::Sub => "-"@,
        BinOpKind::Mul => "*"@,
        BinOpKind::Div => "/"@,
    }
}

/// The name of a function.
pub open spec fn function_name(function: UnaryFn) -> Seq<char> {
    match function {
        UnaryFn::Exp => "exp"@,
        UnaryFn::Neg => "neg"@,
        UnaryFn::Sigmoid => "sigmoid"@,
    }
}

/// The fields of a node that names something.
pub open spec fn name_entries(node: Seq<char>, name: Seq<char>) -> Seq<(Seq<char>, Json)> {
    seq![("node"@, Json::Str(node)), ("name"@, Json::Str(name))]
}

/// An expression as a document.
pub open spec fn expr_json(e: ExprModel) -> Json
    decreases e,
{
    match e {
        ExprModel::Param(name) => Json::Object(name_entries("ParamRef"@, name)),
        ExprModel::Data(name) => Json::Object(name_entries("DataRef"@, name)),
        ExprModel::Const(value) => Json::Object(
            seq![("node"@, Json::Str("ConstNode"@)), ("value"@, Json::Float(value))],
        ),
        ExprModel::Bin { op, left, right } => Json::Object(
            seq![
                ("node"@, Json::Str("BinOp"@)),
                ("op"@, Json::Str(operation_sign(op))),
                ("left"@, expr_json(*left)),
                ("right"@, expr_json(*right)),
            ],
        ),
        ExprModel::Unary { function, operand } => Json::Object(
            seq![
                ("node"@, Json::Str("UnaryOp"@)),
                ("function"@, Json::Str(function_name(function))),
                ("operand"@, expr_json(*operand)),
            ],
        ),
        ExprModel::MatVec { matrix, vector } => Json::Object(
            seq![
                ("node"@, Json::Str("MatVecOp"@)),
                ("matrix"@, expr_json(*matrix)),
                ("vector"@, expr_json(*vector)),
            ],
        ),
        ExprModel::Index { base, index } => Json::Object(
            seq![
                ("node"@, Json::Str("IndexOp"@)),
                ("base"@, expr_json(*base)),
                ("index"@, index_json(index)),
            ],
        ),
        ExprModel::VectorScatter {
            length,
            observed_idx,
            observed_values,
            missing_idx,
            missing_values,
        } => Json::Object(
            seq![
                ("node"@, Json::Str("VectorScatterOp"@)),
                ("length"@, expr_json(*length)),
                ("observed_idx"@, expr_json(*observed_idx)),
                ("observed_values"@, expr_json(*observed_values)),
                ("missing_idx"@, expr_json(*missing_idx)),
                ("missing_values"@, expr_json(*missing_values)),
            ],
        ),
    }
}

/// An index as a document.
pub open spec fn index_json(index: IndexModel) -> Json
    decreases index,
{
    match index {
        IndexModel::Scalar(expr) => Json::Object(
            seq![("node"@, Json::Str("ScalarIndex"@)), ("expr"@, expr_json(*expr))],
        ),
        IndexModel::Full => Json::Object(seq![("node"@, Json::Str("FullSlice"@))]),
        IndexModel::Tuple(items) => Json::Object(
            seq![
                ("node"@, Json::Str("IndexTuple"@)),
                ("items"@, Json::Array(indices_json(items))),
            ],
        ),
    }
}

/// Indices as documents.
pub open spec fn indices_json(items: Seq<IndexModel>) -> Seq<Json>
    decreases items,
{
    if items.len() == 0 {
        Seq::empty()
    } else {
        indices_json(items.drop_last()).push(index_json(items.last()))
    }
}

fn named_node(node: &str, name: &str) -> (r: Value)
    ensures
        r@ == Json::Object(name_entries(node@, name@)),
{
    let mut out: Fields = Fields::new();
    out.put_text("node", node);
    out.put_text("name", name);
    assert(out@ == name_entries(node@, name@));
    out.done()
}

fn begin(node: &str) -> (r: Fields)
    ensures
        r@ == seq![("node"@, Json::Str(node@))],
{
    let mut out: Fields = Fields::new();
    out.put_text("node", node);
    assert(out@ =~= seq![("node"@, Json::Str(node@))]);
    out
}

/// An expression in the documented node encoding.
pub fn expression_wire_value(expr: &Expr) -> (r: Value)
    ensures
        r@ == expr_json(expr@),
    decreases expr,
{
    match expr {
        Expr::Param(name) => named_node("ParamRef", name.as_str()),
        Expr::Data(name) => named_node("DataRef", name.as_str()),
        Expr::Const(value) => {
            let mut out: Fields = begin("ConstNode");
            out.put("value", Value::Float(value.copy()));
            assert(out@ == expr_json(expr@)->Object_0);
            out.done()
        },
        Expr::Bin { op, left, right } => {
            let sign: &str = match op {
                BinOpKind::Add => "+",
                BinOpKind::Sub => "-",
                BinOpKind::Mul => "*",
                BinOpKind::Div => "/",
            };
            let mut out: Fields = begin("BinOp");
            out.put_text("op", sign);
            out.put("left", expression_wire_value(left));
            out.put("right", expression_wire_value(right));
            assert(out@ == expr_json(expr@)->Object_0);
            out.done()
        },
        Expr::Unary { function, operand } => {
            let name: &str = match function {
                UnaryFn::Exp => "exp",
                UnaryFn::Neg => "neg",
                UnaryFn::Sigmoid => "sigmoid",
            };
            let mut out: Fields = begin("UnaryOp");
            out.put_text("function", name);
            out.put("operand", expression_wire_value(operand));
            assert(out@ == expr_json(expr@)->Object_0);
            out.done()
        },
        Expr::MatVec { matrix, vector } => {
            let mut out: Fields = begin("MatVecOp");
            out.put("matrix", expression_wire_value(matrix));
            out.put("vector", expression_wire_value(vector));
            assert(out@ == expr_json(expr@)->Object_0);
            out.done()
        },
        Expr::Index { base, index } => {
            let mut out: Fields = begin("IndexOp");
            out.put("base", expression_wire_value(base));
            out.put("index", index_wire_value(index));
            assert(out@ == expr_json(expr@)->Object_0);
            out.done()
        },
        Expr::VectorScatter {
            length,
            observed_idx,
            observed_values,
            missing_idx,
            missing_values,
        } => {
            let mut out: Fields = begin("VectorScatterOp");
            out.put("length", expression_wire_value(length));
            out.put("observed_idx", expression_wire_value(observed_idx));
            out.put("observed_values", expression_wire_value(observed_values));
            out.put("missing_idx", expression_wire_value(missing_idx));
            out.put("missing_values", expression_wire_value(missing_values));
            assert(out@ == expr_json(expr@)->Object_0);
            out.done()
        },
    }
}

fn index_wire_value(index: &IndexSpec) -> (r: Value)
    ensures
        r@ == index_json(index@),
    decreases index,
{
    broadcast use group_json_views;
    broadcast use group_ir_views;

    match index {
        IndexSpec::Scalar(expr) => {
            let mut out: Fields = begin("ScalarIndex");
            out.put("expr", expression_wire_value(expr));
            assert(out@ == index_json(index@)->Object_0);
            out.done()
        },
        IndexSpec::Full => {
            let out: Fields = begin("FullSlice");
            assert(out@ == index_json(index@)->Object_0);
            out.done()
        },
        IndexSpec::Tuple(items) => {
            let ghost all = indices_view(items@);
            let mut list: Vec<Value> = Vec::new();
            assert(items_view(list@) =~= Seq::empty());
            assert(all.take(0) =~= Seq::empty());
            let mut i: usize = 0;
            while i < items.len()
                invariant
                    i <= items.len(),
                    *index == IndexSpec::Tuple(*items),
                    all == indices_view(items@),
                    all.len() == items@.len(),
                    items_view(list@) == indices_json(all.take(i as int)),
                decreases items.len() - i,
            {
                broadcast use group_json_views;
                broadcast use group_ir_views;

                proof {
                    assert(decreases_to!(*index => index->Tuple_0));
                    assert(decreases_to!(index->Tuple_0 => index->Tuple_0@));
                    assert(decreases_to!(items@ => items@[i as int]));
                    let done = all.take(i + 1);
                    assert(done.drop_last() =~= all.take(i as int));
                    assert(done.last() == items@[i as int]@);
                }
                let ghost before = list@;
                let item: Value = index_wire_value(&items[i]);
                let ghost content = item@;
                list.push(item);
                assert(items_view(list@) =~= items_view(before).push(content));
                i += 1;
            }
            assert(all.take(i as int) =~= all);
            let mut out: Fields = begin("IndexTuple");
            out.put("items", Value::Array(list));
            assert(out@ == index_json(index@)->Object_0);
            out.done()
        },
    }
}

/// An optional expression as a document.
pub open spec fn optional_expr_json(e: Option<ExprModel>) -> Json {
    match e {
        Some(found) => expr_json(found),
        None => Json::Null,
    }
}

fn optional_wire_value(expr: &Option<Expr>) -> (r: Value)
    ensures
        r@ == optional_expr_json(optional_expr(*expr)),
{
    match expr {
        Some(found) => expression_wire_value(found),
        None => Value::Null,
    }
}

/// A distribution as a document.
pub open spec fn dist_json(d: DistModel) -> Json
    decreases d,
{
    match d {
        DistModel::Normal { loc, scale } => Json::Object(
            seq![
                ("node"@, Json::Str("Normal"@)),
                ("loc"@, expr_json(loc)),
                ("scale"@, expr_json(scale)),
            ],
        ),
        DistModel::HalfNormal { scale } => Json::Object(
            seq![
                ("node"@, Json::Str("HalfNormal"@)),
                ("scale"@, expr_json(scale)),
            ],
        ),
        DistModel::StudentT { df, loc, scale } => Json::Object(
            seq![
                ("node"@, Json::Str("StudentT"@)),
                ("df"@, expr_json(df)),
                ("loc"@, expr_json(loc)),
                ("scale"@, expr_json(scale)),
            ],
        ),
        DistModel::Exponential { rate } => Json::Object(
            seq![
                ("node"@, Json::Str("Exponential"@)),
                ("rate"@, expr_json(rate)),
            ],
        ),
        DistModel::Uniform { low, high } => Json::Object(
            seq![
                ("node"@, Json::Str("Uniform"@)),
                ("low"@, expr_json(low)),
                ("high"@, expr_json(high)),
            ],
        ),
        DistModel::Beta { alpha, beta } => Json::Object(
            seq![
                ("node"@, Json::Str("Beta"@)),
                ("alpha"@, expr_json(alpha)),
                ("beta"@, expr_json(beta)),
            ],
        ),
        DistModel::Bernoulli { probs } => Json::Object(
            seq![
                ("node"@, Json::Str("Bernoulli"@)),
                ("probs"@, expr_json(probs)),
            ],
        ),
        DistModel::Poisson { rate } => Json::Object(
            seq![
                ("node"@, Json::Str("Poisson"@)),
                ("rate"@, expr_json(rate)),
            ],
        ),
        DistModel::Binomial { total_count, probs } => Json::Object(
            seq![
                ("node"@, Json::Str("Binomial"@)),
                ("total_count"@, expr_json(total_count)),
                ("probs"@, expr_json(probs)),
            ],
        ),
        DistModel::BetaBinomial { total_count, alpha, beta } => Json::Object(
            seq![
                ("node"@, Json::Str("BetaBinomial"@)),
                ("total_count"@, expr_json(total_count)),
                ("alpha"@, expr_json(alpha)),
                ("beta"@, expr_json(beta)),
            ],
        ),
        DistModel::NegativeBinomial { mean, overdispersion } => Json::Object(
            seq![
                ("node"@, Json::Str("NegativeBinomial"@)),
                ("mean"@, expr_json(mean)),
                ("overdispersion"@, expr_json(overdispersion)),
            ],
        ),
        DistModel::MultivariateNormal { mean, scale_tril } => Json::Object(
            seq![
                ("node"@, Json::Str("MultivariateNormal"@)),
                ("mean"@, expr_json(mean)),
                ("scale_tril"@, expr_json(scale_tril)),
            ],
        ),
        DistModel::OrderedLogistic { eta, cutpoints } => Json::Object(
            seq![
                ("node"@, Json::Str("OrderedLogistic"@)),
                ("eta"@, expr_json(eta)),
                ("cutpoints"@, expr_json(cutpoints)),
            ],
        ),
        DistModel::Truncated { base, lower, upper } => Json::Object(
            seq![
                ("node"@, Json::Str("Truncated"@)),
                ("base"@, dist_json(*base)),
                ("lower"@, optional_expr_json(lower)),
                ("upper"@, optional_expr_json(upper)),
            ],
        ),
    }
}

/// A distribution in the documented node encoding.
pub fn distribution_wire_value(distribution: &Distribution) -> (r: Value)
    ensures
        r@ == dist_json(distribution@),
    decreases distribution,
{
    match distribution {
        Distribution::Normal { loc, scale } => {
            let mut out: Fields = begin("Normal");
            out.put("loc", expression_wire_value(loc));
            out.put("scale", expression_wire_value(scale));
            assert(out@ == dist_json(distribution@)->Object_0);
            out.done()
        },
        Distribution::HalfNormal { scale } => {
            let mut out: Fields = begin("HalfNormal");
            out.put("scale", expression_wire_value(scale));
            assert(out@ == dist_json(distribution@)->Object_0);
            out.done()
        },
        Distribution::StudentT { df, loc, scale } => {
            let mut out: Fields = begin("StudentT");
            out.put("df", expression_wire_value(df));
            out.put("loc", expression_wire_value(loc));
            out.put("scale", expression_wire_value(scale));
            assert(out@ == dist_json(distribution@)->Object_0);
            out.done()
        },
        Distribution::Exponential { rate } => {
            let mut out: Fields = begin("Exponential");
            out.put("rate", expression_wire_value(rate));
            assert(out@ == dist_json(distribution@)->Object_0);
            out.done()
        },
        Distribution::Uniform { low, high } => {
            let mut out: Fields = begin("Uniform");
            out.put("low", expression_wire_value(low));
            out.put("high", expression_wire_value(high));
            assert(out@ == dist_json(distribution@)->Object_0);
            out.done()
        },
        Distribution::Beta { alpha, beta } => {
            let mut out: Fields = begin("Beta");
            out.put("alpha", expression_wire_value(alpha));
            out.put("beta", expression_wire_value(beta));
            assert(out@ == dist_json(distribution@)->Object_0);
            out.done()
        },
        Distribution::Bernoulli { probs } => {
            let mut out: Fields = begin("Bernoulli");
            out.put("probs", expression_wire_value(probs));
            assert(out@ == dist_json(distribution@)->Object_0);
            out.done()
        },
        Distribution::Poisson { rate } => {
            let mut out: Fields = begin("Poisson");
            out.put("rate", expression_wire_value(rate));
            assert(out@ == dist_json(distribution@)->Object_0);
            out.done()
        },
        Distribution::Binomial { total_count, probs } => {
            let mut out: Fields = begin("Binomial");
            out.put("total_count", expression_wire_value(total_count));
            out.put("probs", expression_wire_value(probs));
            assert(out@ == dist_json(distribution@)->Object_0);
            out.done()
        },
        Distribution::BetaBinomial { total_count, alpha, beta } => {
            let mut out: Fields = begin("BetaBinomial");
            out.put("total_count", expression_wire_value(total_count));
            out.put("alpha", expression_wire_value(alpha));
            out.put("beta", expression_wire_value(beta));
            assert(out@ == dist_json(distribution@)->Object_0);
            out.done()
        },
        Distribution::NegativeBinomial { mean, overdispersion } => {
            let mut out: Fields = begin("NegativeBinomial");
            out.put("mean", expression_wire_value(mean));
            out.put("overdispersion", expression_wire_value(overdispersion));
            assert(out@ == dist_json(distribution@)->Object_0);
            out.done()
        },
        Distribution::MultivariateNormal { mean, scale_tril } => {
            let mut out: Fields = begin("MultivariateNormal");
            out.put("mean", expression_wire_value(mean));
            out.put("scale_tril", expression_wire_value(scale_tril));
            assert(out@ == dist_json(distribution@)->Object_0);
            out.done()
        },
        Distribution::OrderedLogistic { eta, cutpoints } => {
            let mut out: Fields = begin("OrderedLogistic");
            out.put("eta", expression_wire_value(eta));
            out.put("cutpoints", expression_wire_value(cutpoints));
            assert(out@ == dist_json(distribution@)->Object_0);
            out.done()
        },
        Distribution::Truncated { base, lower, upper } => {
            let mut out: Fields = begin("Truncated");
            out.put("base", distribution_wire_value(base));
            out.put("lower", optional_wire_value(lower));
            out.put("upper", optional_wire_value(upper));
            assert(out@ == dist_json(distribution@)->Object_0);
            out.done()
        },
    }
}

/// A reference to data as a document.
pub open spec fn data_ref_json(name: Seq<char>) -> Json {
    Json::Object(name_entries("DataRef"@, name))
}

/// A reference to data.
pub fn data_ref_value(name: &str) -> (r: Value)
    ensures
        r@ == data_ref_json(name@),
{
    named_node("DataRef", name)
}

/// A reference to an axis of data as a document.
pub open spec fn dim_ref_json(name: Seq<char>) -> Json {
    Json::Object(name_entries("DataDimRef"@, name))
}

/// A reference to an axis of data.
pub fn dim_ref_value(name: &str) -> (r: Value)
    ensures
        r@ == dim_ref_json(name@),
{
    named_node("DataDimRef", name)
}

} // verus!
