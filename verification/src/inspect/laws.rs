//! What holds of expressions in their document form.

use vstd::prelude::*;

#[allow(unused_imports)]
use crate::ir::{BinOpKind, ExprModel, IndexModel, UnaryFn};
#[allow(unused_imports)]
use crate::json::Json;

#[allow(unused_imports)]
use super::wire::{expr_json, function_name, index_json, indices_json, operation_sign};

verus! {

/// The kind of a node, as its document names it.
pub open spec fn node_name(e: ExprModel) -> Seq<char> {
    match e {
        ExprModel::Param(_) => "ParamRef"@,
        ExprModel::Data(_) => "DataRef"@,
        ExprModel::Const(_) => "ConstNode"@,
        ExprModel::Bin { .. } => "BinOp"@,
        ExprModel::Unary { .. } => "UnaryOp"@,
        ExprModel::MatVec { .. } => "MatVecOp"@,
        ExprModel::Index { .. } => "IndexOp"@,
        ExprModel::VectorScatter { .. } => "VectorScatterOp"@,
    }
}

/// A number that tells the kinds of nodes apart.
spec fn node_rank(e: ExprModel) -> int {
    match e {
        ExprModel::Param(_) => 0,
        ExprModel::Data(_) => 1,
        ExprModel::Const(_) => 2,
        ExprModel::Bin { .. } => 3,
        ExprModel::Unary { .. } => 4,
        ExprModel::MatVec { .. } => 5,
        ExprModel::Index { .. } => 6,
        ExprModel::VectorScatter { .. } => 7,
    }
}

proof fn lemma_node_names(a: ExprModel, b: ExprModel)
    requires
        node_name(a) == node_name(b),
    ensures
        node_rank(a) == node_rank(b),
{
    reveal_strlit("ParamRef");
    reveal_strlit("DataRef");
    reveal_strlit("ConstNode");
    reveal_strlit("BinOp");
    reveal_strlit("UnaryOp");
    reveal_strlit("MatVecOp");
    reveal_strlit("IndexOp");
    reveal_strlit("VectorScatterOp");
    assert("ParamRef"@.len() == 8 && "DataRef"@.len() == 7 && "ConstNode"@.len() == 9);
    assert("BinOp"@.len() == 5 && "UnaryOp"@.len() == 7 && "MatVecOp"@.len() == 8);
    assert("IndexOp"@.len() == 7 && "VectorScatterOp"@.len() == 15);
    assert("ParamRef"@[0] == 'P' && "MatVecOp"@[0] == 'M');
    assert("DataRef"@[0] == 'D' && "UnaryOp"@[0] == 'U' && "IndexOp"@[0] == 'I');
}

proof fn lemma_signs(a: BinOpKind, b: BinOpKind)
    requires
        operation_sign(a) == operation_sign(b),
    ensures
        a == b,
{
    reveal_strlit("+");
    reveal_strlit("-");
    reveal_strlit("*");
    reveal_strlit("/");
    assert("+"@[0] == '+' && "-"@[0] == '-' && "*"@[0] == '*' && "/"@[0] == '/');
}

proof fn lemma_function_names(a: UnaryFn, b: UnaryFn)
    requires
        function_name(a) == function_name(b),
    ensures
        a == b,
{
    reveal_strlit("exp");
    reveal_strlit("neg");
    reveal_strlit("sigmoid");
    assert("exp"@.len() == 3 && "neg"@.len() == 3 && "sigmoid"@.len() == 7);
    assert("exp"@[0] == 'e' && "neg"@[0] == 'n');
}

/// The document form of an expression is an object whose first field names the kind of the node.
pub proof fn law_expression_document_begins_with_its_node(e: ExprModel)
    ensures
        expr_json(e) is Object,
        expr_json(e)->Object_0.len() > 0,
        expr_json(e)->Object_0[0] == ("node"@, Json::Str(node_name(e))),
{
}

/// Different expressions have different document forms: kinds of nodes, names, operators,
/// constants, the order of operands, and indices are all kept.
pub proof fn law_expression_document_determines_it(a: ExprModel, b: ExprModel)
    ensures
        expr_json(a) == expr_json(b) <==> a == b,
{
    if expr_json(a) == expr_json(b) {
        lemma_same_expression(a, b);
    }
}

proof fn lemma_same_expression(a: ExprModel, b: ExprModel)
    requires
        expr_json(a) == expr_json(b),
    ensures
        a == b,
    decreases a,
{
    let left = expr_json(a)->Object_0;
    let right = expr_json(b)->Object_0;
    law_expression_document_begins_with_its_node(a);
    law_expression_document_begins_with_its_node(b);
    assert(left[0].1 == right[0].1);
    lemma_node_names(a, b);
    match a {
        ExprModel::Param(name) => {
            assert(left[1].1 == Json::Str(name));
            assert(right[1].1 == Json::Str(b->Param_0));
        },
        ExprModel::Data(name) => {
            assert(left[1].1 == Json::Str(name));
            assert(right[1].1 == Json::Str(b->Data_0));
        },
        ExprModel::Const(value) => {
            assert(left[1].1 == Json::Float(value));
            assert(right[1].1 == Json::Float(b->Const_0));
        },
        ExprModel::Bin { op, left: x, right: y } => {
            if let ExprModel::Bin { op: other, left: u, right: v } = b {
                assert(left[1].1 == Json::Str(operation_sign(op)));
                assert(right[1].1 == Json::Str(operation_sign(other)));
                assert(left[2].1 == expr_json(*x) && right[2].1 == expr_json(*u));
                assert(left[3].1 == expr_json(*y) && right[3].1 == expr_json(*v));
                lemma_signs(op, other);
                lemma_same_expression(*x, *u);
                lemma_same_expression(*y, *v);
            }
        },
        ExprModel::Unary { function, operand } => {
            if let ExprModel::Unary { function: other, operand: u } = b {
                assert(left[1].1 == Json::Str(function_name(function)));
                assert(right[1].1 == Json::Str(function_name(other)));
                assert(left[2].1 == expr_json(*operand) && right[2].1 == expr_json(*u));
                lemma_function_names(function, other);
                lemma_same_expression(*operand, *u);
            }
        },
        ExprModel::MatVec { matrix, vector } => {
            if let ExprModel::MatVec { matrix: u, vector: v } = b {
                assert(left[1].1 == expr_json(*matrix) && right[1].1 == expr_json(*u));
                assert(left[2].1 == expr_json(*vector) && right[2].1 == expr_json(*v));
                lemma_same_expression(*matrix, *u);
                lemma_same_expression(*vector, *v);
            }
        },
        ExprModel::Index { base, index } => {
            if let ExprModel::Index { base: u, index: v } = b {
                assert(left[1].1 == expr_json(*base) && right[1].1 == expr_json(*u));
                assert(left[2].1 == index_json(index) && right[2].1 == index_json(v));
                lemma_same_expression(*base, *u);
                lemma_same_index(index, v);
            }
        },
        ExprModel::VectorScatter {
            length,
            observed_idx,
            observed_values,
            missing_idx,
            missing_values,
        } => {
            if let ExprModel::VectorScatter {
                length: p,
                observed_idx: q,
                observed_values: r,
                missing_idx: s,
                missing_values: t,
            } = b {
                assert(left[1].1 == expr_json(*length) && right[1].1 == expr_json(*p));
                assert(left[2].1 == expr_json(*observed_idx) && right[2].1 == expr_json(*q));
                assert(left[3].1 == expr_json(*observed_values) && right[3].1 == expr_json(*r));
                assert(left[4].1 == expr_json(*missing_idx) && right[4].1 == expr_json(*s));
                assert(left[5].1 == expr_json(*missing_values) && right[5].1 == expr_json(*t));
                lemma_same_expression(*length, *p);
                lemma_same_expression(*observed_idx, *q);
                lemma_same_expression(*observed_values, *r);
                lemma_same_expression(*missing_idx, *s);
                lemma_same_expression(*missing_values, *t);
            }
        },
    }
}

proof fn lemma_same_index(a: IndexModel, b: IndexModel)
    requires
        index_json(a) == index_json(b),
    ensures
        a == b,
    decreases a,
{
    let left = index_json(a)->Object_0;
    let right = index_json(b)->Object_0;
    reveal_strlit("ScalarIndex");
    reveal_strlit("FullSlice");
    reveal_strlit("IndexTuple");
    assert("ScalarIndex"@.len() == 11 && "FullSlice"@.len() == 9 && "IndexTuple"@.len() == 10);
    assert(left[0].1 == right[0].1);
    match a {
        IndexModel::Scalar(x) => {
            assert(left[0].1 == Json::Str("ScalarIndex"@));
            if let IndexModel::Scalar(u) = b {
                assert(left[1].1 == expr_json(*x) && right[1].1 == expr_json(*u));
                lemma_same_expression(*x, *u);
            }
        },
        IndexModel::Full => {
            assert(left[0].1 == Json::Str("FullSlice"@));
        },
        IndexModel::Tuple(items) => {
            assert(left[0].1 == Json::Str("IndexTuple"@));
            if let IndexModel::Tuple(others) = b {
                assert(left[1].1 == Json::Array(indices_json(items)));
                assert(right[1].1 == Json::Array(indices_json(others)));
                lemma_same_indices(items, others);
            }
        },
    }
}

proof fn lemma_same_indices(a: Seq<IndexModel>, b: Seq<IndexModel>)
    requires
        indices_json(a) == indices_json(b),
    ensures
        a == b,
    decreases a,
{
    let left = indices_json(a);
    let right = indices_json(b);
    if a.len() == 0 {
        if b.len() > 0 {
            assert(right.len() == indices_json(b.drop_last()).len() + 1);
        }
        assert(a =~= b);
    } else {
        assert(left.len() == indices_json(a.drop_last()).len() + 1);
        if b.len() > 0 {
            assert(left.last() == index_json(a.last()) && right.last() == index_json(b.last()));
            assert(left.drop_last() =~= indices_json(a.drop_last()));
            assert(right.drop_last() =~= indices_json(b.drop_last()));
            lemma_same_index(a.last(), b.last());
            lemma_same_indices(a.drop_last(), b.drop_last());
            assert(a =~= a.drop_last().push(a.last()));
            assert(b =~= b.drop_last().push(b.last()));
        }
    }
}

} // verus!
