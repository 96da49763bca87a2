//! Bounds on the nesting of expressions, checked without recursion.

use vstd::prelude::*;

use crate::error::Error;
use crate::ir::{distribution_exprs, expr_too_deep, Expr, IndexSpec, ModelMeta, MAX_EXPR_DEPTH};
#[allow(unused_imports)]
use crate::ir::{
    dist_params, expr_views, group_ir_views, indices_view, too_deep_fault, BinOpKind, ExprModel, IndexModel,
    MetaModel, ObservedModel, ParamModel, SiteModel, UnaryFn,
};

verus! {

spec fn max(a: nat, b: nat) -> nat {
    if a < b {
        b
    } else {
        a
    }
}

/// The number of nodes on the longest path through an expression.
pub closed spec fn height(e: ExprModel) -> nat
    decreases e,
{
    match e {
        ExprModel::Param(_) | ExprModel::Data(_) | ExprModel::Const(_) => 1,
        ExprModel::Bin { op: _, left, right } => 1 + max(height(*left), height(*right)),
        ExprModel::Unary { function: _, operand } => 1 + height(*operand),
        ExprModel::MatVec { matrix, vector } => 1 + max(height(*matrix), height(*vector)),
        ExprModel::Index { base, index } => 1 + max(height(*base), index_height(index)),
        ExprModel::VectorScatter {
            length,
            observed_idx,
            observed_values,
            missing_idx,
            missing_values,
        } => 1 + max(
            height(*length),
            max(
                height(*observed_idx),
                max(height(*observed_values), max(height(*missing_idx), height(*missing_values))),
            ),
        ),
    }
}

pub closed spec fn index_height(s: IndexModel) -> nat
    decreases s,
{
    match s {
        IndexModel::Full => 1,
        IndexModel::Scalar(e) => 1 + height(*e),
        IndexModel::Tuple(items) => 1 + indices_height(items),
    }
}

pub closed spec fn indices_height(s: Seq<IndexModel>) -> nat
    decreases s,
{
    if s.len() == 0 {
        0
    } else {
        max(indices_height(s.drop_last()), index_height(s.last()))
    }
}

/// Shallow enough to be walked.
pub open spec fn shallow(e: ExprModel) -> bool {
    height(e) <= MAX_EXPR_DEPTH
}

/// The number of nodes of an expression.
spec fn weight(e: ExprModel) -> nat
    decreases e,
{
    match e {
        ExprModel::Param(_) | ExprModel::Data(_) | ExprModel::Const(_) => 1,
        ExprModel::Bin { op: _, left, right } => 1 + weight(*left) + weight(*right),
        ExprModel::Unary { function: _, operand } => 1 + weight(*operand),
        ExprModel::MatVec { matrix, vector } => 1 + weight(*matrix) + weight(*vector),
        ExprModel::Index { base, index } => 1 + weight(*base) + index_weight(index),
        ExprModel::VectorScatter {
            length,
            observed_idx,
            observed_values,
            missing_idx,
            missing_values,
        } => 1 + weight(*length) + weight(*observed_idx) + weight(*observed_values) + weight(
            *missing_idx,
        ) + weight(*missing_values),
    }
}

spec fn index_weight(s: IndexModel) -> nat
    decreases s,
{
    match s {
        IndexModel::Full => 1,
        IndexModel::Scalar(e) => 1 + weight(*e),
        IndexModel::Tuple(items) => 1 + indices_weight(items),
    }
}

spec fn indices_weight(s: Seq<IndexModel>) -> nat
    decreases s,
{
    if s.len() == 0 {
        0
    } else {
        indices_weight(s.drop_last()) + index_weight(s.last())
    }
}

/// A node that waits to be visited, with its depth.
enum Frame<'a> {
    Node(&'a Expr, usize),
    Index(&'a IndexSpec, usize),
}

/// Whether everything below a waiting node is shallow enough.
spec fn frame_fits(f: Frame) -> bool {
    match f {
        Frame::Node(e, depth) => depth + height(e@) <= MAX_EXPR_DEPTH,
        Frame::Index(s, depth) => depth + index_height(s@) <= MAX_EXPR_DEPTH,
    }
}

spec fn frame_weight(f: Frame) -> nat {
    match f {
        Frame::Node(e, _) => weight(e@),
        Frame::Index(s, _) => index_weight(s@),
    }
}

spec fn all_fit(stack: Seq<Frame>) -> bool {
    forall|i: int| 0 <= i < stack.len() ==> frame_fits(#[trigger] stack[i])
}

spec fn total_weight(stack: Seq<Frame>) -> nat
    decreases stack.len(),
{
    if stack.len() == 0 {
        0
    } else {
        total_weight(stack.drop_last()) + frame_weight(stack.last())
    }
}

proof fn lemma_all_fit_push(stack: Seq<Frame>, f: Frame)
    ensures
        all_fit(stack.push(f)) <==> all_fit(stack) && frame_fits(f),
        total_weight(stack.push(f)) == total_weight(stack) + frame_weight(f),
{
    let longer = stack.push(f);
    assert(longer.drop_last() =~= stack);
    if all_fit(longer) {
        assert(frame_fits(longer[stack.len() as int]));
        assert forall|i: int| 0 <= i < stack.len() implies frame_fits(#[trigger] stack[i]) by {
            assert(longer[i] == stack[i]);
        }
    }
    if all_fit(stack) && frame_fits(f) {
        assert forall|i: int| 0 <= i < longer.len() implies frame_fits(#[trigger] longer[i]) by {
            if i < stack.len() {
                assert(longer[i] == stack[i]);
            }
        }
    }
}

fn push_node<'a>(stack: &mut Vec<Frame<'a>>, e: &'a Expr, depth: usize)
    ensures
        final(stack)@ == old(stack)@.push(Frame::Node(e, depth)),
        all_fit(final(stack)@) <==> all_fit(old(stack)@) && depth + height(e@) <= MAX_EXPR_DEPTH,
        total_weight(final(stack)@) == total_weight(old(stack)@) + weight(e@),
{
    proof {
        lemma_all_fit_push(stack@, Frame::Node(e, depth));
    }
    stack.push(Frame::Node(e, depth));
}

fn push_index<'a>(stack: &mut Vec<Frame<'a>>, s: &'a IndexSpec, depth: usize)
    ensures
        final(stack)@ == old(stack)@.push(Frame::Index(s, depth)),
        all_fit(final(stack)@) <==> all_fit(old(stack)@) && depth + index_height(s@)
            <= MAX_EXPR_DEPTH,
        total_weight(final(stack)@) == total_weight(old(stack)@) + index_weight(s@),
{
    proof {
        lemma_all_fit_push(stack@, Frame::Index(s, depth));
    }
    stack.push(Frame::Index(s, depth));
}

proof fn lemma_height_positive(e: ExprModel)
    ensures
        height(e) >= 1,
{
}

fn push_items<'a>(stack: &mut Vec<Frame<'a>>, items: &'a Vec<IndexSpec>, depth: usize)
    ensures
        all_fit(final(stack)@) <==> all_fit(old(stack)@) && (items@.len() == 0 || depth
            + indices_height(indices_view(items@)) <= MAX_EXPR_DEPTH),
        total_weight(final(stack)@) == total_weight(old(stack)@) + indices_weight(
            indices_view(items@),
        ),
{
    broadcast use group_ir_views;

    let ghost all = indices_view(items@);
    let mut i: usize = 0;
    while i < items.len()
        invariant
            i <= items.len(),
            all == indices_view(items@),
            all_fit(stack@) <==> all_fit(old(stack)@) && (i == 0 || depth + indices_height(
                all.take(i as int),
            ) <= MAX_EXPR_DEPTH),
            total_weight(stack@) == total_weight(old(stack)@) + indices_weight(all.take(i as int)),
        decreases items.len() - i,
    {
        broadcast use group_ir_views;

        push_index(stack, &items[i], depth);
        proof {
            let done = all.take(i + 1);
            assert(done.drop_last() =~= all.take(i as int));
            assert(done.last() == items@[i as int]@);
            assert(index_height(items@[i as int]@) >= 1);
            let shorter = all.take(i as int);
            assert(indices_height(done) == max(indices_height(shorter), index_height(done.last())));
            if i == 0 {
                assert(shorter.len() == 0);
            }
        }
        i += 1;
    }
    assert(all.take(i as int) =~= all);
}

fn visit_node<'a>(stack: &mut Vec<Frame<'a>>, e: &'a Expr, depth: usize)
    requires
        depth < MAX_EXPR_DEPTH,
    ensures
        all_fit(final(stack)@) <==> all_fit(old(stack)@) && depth + height(e@) <= MAX_EXPR_DEPTH,
        total_weight(final(stack)@) + 1 == total_weight(old(stack)@) + weight(e@),
{
    match e {
        Expr::Param(_) | Expr::Data(_) | Expr::Const(_) => {},
        Expr::Bin { op: _, left, right } => {
            push_node(stack, left, depth + 1);
            push_node(stack, right, depth + 1);
        },
        Expr::Unary { function: _, operand } => {
            push_node(stack, operand, depth + 1);
        },
        Expr::MatVec { matrix, vector } => {
            push_node(stack, matrix, depth + 1);
            push_node(stack, vector, depth + 1);
        },
        Expr::Index { base, index } => {
            push_node(stack, base, depth + 1);
            push_index(stack, index, depth + 1);
        },
        Expr::VectorScatter {
            length,
            observed_idx,
            observed_values,
            missing_idx,
            missing_values,
        } => {
            push_node(stack, length, depth + 1);
            push_node(stack, observed_idx, depth + 1);
            push_node(stack, observed_values, depth + 1);
            push_node(stack, missing_idx, depth + 1);
            push_node(stack, missing_values, depth + 1);
        },
    }
}

fn visit_index<'a>(stack: &mut Vec<Frame<'a>>, s: &'a IndexSpec, depth: usize)
    requires
        depth < MAX_EXPR_DEPTH,
    ensures
        all_fit(final(stack)@) <==> all_fit(old(stack)@) && depth + index_height(s@)
            <= MAX_EXPR_DEPTH,
        total_weight(final(stack)@) + 1 == total_weight(old(stack)@) + index_weight(s@),
{
    broadcast use group_ir_views;

    match s {
        IndexSpec::Full => {},
        IndexSpec::Scalar(e) => {
            push_node(stack, e, depth + 1);
        },
        IndexSpec::Tuple(items) => {
            push_items(stack, items, depth + 1);
        },
    }
}

/// Depth-check one expression with an explicit work stack (no recursion, so
/// this is safe to run on arbitrarily deep programmatic input). Mirrors the
/// decoder bound so decoded documents can never fail here.
pub fn check_expr_depth(root: &Expr) -> (r: Result<(), Error>)
    ensures
        match r {
            Ok(_) => shallow(root@),
            Err(error) => !shallow(root@) && error@ == too_deep_fault(),
        },
{
    let mut stack: Vec<Frame> = Vec::new();
    push_node(&mut stack, root, 0);
    while stack.len() > 0
        invariant
            all_fit(stack@) <==> shallow(root@),
        decreases total_weight(stack@),
    {
        let ghost before = stack@;
        proof {
            lemma_all_fit_push(before.drop_last(), before.last());
            assert(before.drop_last().push(before.last()) =~= before);
        }
        let frame: Frame = stack.pop().unwrap();
        assert(stack@ =~= before.drop_last());
        match frame {
            Frame::Node(e, depth) => {
                if depth >= MAX_EXPR_DEPTH {
                    proof {
                        lemma_height_positive(e@);
                    }
                    return Err(expr_too_deep());
                }
                visit_node(&mut stack, e, depth);
            },
            Frame::Index(s, depth) => {
                if depth >= MAX_EXPR_DEPTH {
                    return Err(expr_too_deep());
                }
                visit_index(&mut stack, s, depth);
            },
        }
    }
    Ok(())
}

/// Every expression that a model carries.
pub open spec fn meta_exprs(m: MetaModel) -> Seq<ExprModel> {
    gathered_params(m.params.map_values(|p: (Seq<char>, ParamModel)| dist_params(p.1.distribution)))
        + gathered_params(m.observed_nodes.map_values(|o: ObservedModel| dist_params(o.distribution)))
        + m.expressions.map_values(|e: (Seq<char>, ExprModel)| e.1) + gathered_params(
        m.stochastic_sites.map_values(
            |s: SiteModel| dist_params(s.distribution) + seq![s.value],
        ),
    )
}

/// Lists one after the other.
pub open spec fn gathered_params(lists: Seq<Seq<ExprModel>>) -> Seq<ExprModel>
    decreases lists.len(),
{
    if lists.len() == 0 {
        Seq::empty()
    } else {
        gathered_params(lists.drop_last()) + lists.last()
    }
}

pub open spec fn all_shallow(s: Seq<ExprModel>) -> bool {
    forall|i: int| 0 <= i < s.len() ==> shallow(#[trigger] s[i])
}

proof fn lemma_all_shallow_add(a: Seq<ExprModel>, b: Seq<ExprModel>)
    ensures
        all_shallow(a + b) <==> all_shallow(a) && all_shallow(b),
{
    if all_shallow(a + b) {
        assert forall|i: int| 0 <= i < a.len() implies shallow(#[trigger] a[i]) by {
            assert((a + b)[i] == a[i]);
        }
        assert forall|i: int| 0 <= i < b.len() implies shallow(#[trigger] b[i]) by {
            assert((a + b)[a.len() + i] == b[i]);
        }
    }
}

fn check_all(exprs: &Vec<&Expr>) -> (r: Result<(), Error>)
    ensures
        match r {
            Ok(_) => all_shallow(expr_views(exprs@)),
            Err(error) => !all_shallow(expr_views(exprs@)) && error@ == too_deep_fault(),
        },
{
    let mut i: usize = 0;
    while i < exprs.len()
        invariant
            i <= exprs.len(),
            all_shallow(expr_views(exprs@).take(i as int)),
        decreases exprs.len() - i,
    {
        assert(expr_views(exprs@)[i as int] == exprs@[i as int]@);
        match check_expr_depth(exprs[i]) {
            Err(error) => {
                return Err(error);
            },
            Ok(_) => {},
        }
        proof {
            let all = expr_views(exprs@);
            assert forall|k: int| 0 <= k < i + 1 implies shallow(#[trigger] all.take(i + 1)[k]) by {
                if k < i {
                    assert(all.take(i as int)[k] == all[k]);
                }
            }
        }
        i += 1;
    }
    assert(expr_views(exprs@).take(i as int) =~= expr_views(exprs@));
    Ok(())
}

/// Depth-check every expression that a model carries. Runs before anything
/// recurses over the model, so a hostile depth yields a typed error instead of a stack overflow.
pub fn check_meta_expr_depth(meta: &ModelMeta) -> (r: Result<(), Error>)
    ensures
        match r {
            Ok(_) => all_shallow(meta_exprs(meta@)),
            Err(error) => !all_shallow(meta_exprs(meta@)) && error@ == too_deep_fault(),
        },
{
    let ghost m = meta@;
    let ghost of_params = m.params.map_values(
        |p: (Seq<char>, ParamModel)| dist_params(p.1.distribution),
    );
    let ghost of_observed = m.observed_nodes.map_values(
        |o: ObservedModel| dist_params(o.distribution),
    );
    let ghost named = m.expressions.map_values(|e: (Seq<char>, ExprModel)| e.1);
    let ghost of_sites = m.stochastic_sites.map_values(
        |s: SiteModel| dist_params(s.distribution) + seq![s.value],
    );
    proof {
        lemma_all_shallow_add(gathered_params(of_params), gathered_params(of_observed));
        lemma_all_shallow_add(gathered_params(of_params) + gathered_params(of_observed), named);
        lemma_all_shallow_add(
            gathered_params(of_params) + gathered_params(of_observed) + named,
            gathered_params(of_sites),
        );
    }
    let mut i: usize = 0;
    while i < meta.params.len()
        invariant
            i <= meta.params.len(),
            m == meta@,
            of_params == m.params.map_values(
                |p: (Seq<char>, ParamModel)| dist_params(p.1.distribution),
            ),
            all_shallow(gathered_params(of_params.take(i as int))),
            all_shallow(meta_exprs(m)) ==> all_shallow(gathered_params(of_params)),
        decreases meta.params.len() - i,
    {
        proof {
            let done = of_params.take(i + 1);
            assert(done.drop_last() =~= of_params.take(i as int));
            assert(done.last() == dist_params(meta.params@[i as int].1.distribution@));
            lemma_all_shallow_add(gathered_params(done.drop_last()), done.last());
            lemma_prefix_shallow(of_params, i + 1);
        }
        check_all(&distribution_exprs(&meta.params[i].1.distribution))?;
        i += 1;
    }
    assert(of_params.take(i as int) =~= of_params);
    i = 0;
    while i < meta.observed_nodes.len()
        invariant
            i <= meta.observed_nodes.len(),
            m == meta@,
            of_observed == m.observed_nodes.map_values(
                |o: ObservedModel| dist_params(o.distribution),
            ),
            all_shallow(gathered_params(of_observed.take(i as int))),
            all_shallow(meta_exprs(m)) ==> all_shallow(gathered_params(of_observed)),
        decreases meta.observed_nodes.len() - i,
    {
        proof {
            let done = of_observed.take(i + 1);
            assert(done.drop_last() =~= of_observed.take(i as int));
            assert(done.last() == dist_params(meta.observed_nodes@[i as int].distribution@));
            lemma_all_shallow_add(gathered_params(done.drop_last()), done.last());
            lemma_prefix_shallow(of_observed, i + 1);
        }
        check_all(&distribution_exprs(&meta.observed_nodes[i].distribution))?;
        i += 1;
    }
    assert(of_observed.take(i as int) =~= of_observed);
    i = 0;
    while i < meta.expressions.len()
        invariant
            i <= meta.expressions.len(),
            m == meta@,
            named == m.expressions.map_values(|e: (Seq<char>, ExprModel)| e.1),
            forall|k: int| 0 <= k < i ==> shallow(#[trigger] named[k]),
            all_shallow(meta_exprs(m)) ==> all_shallow(named),
        decreases meta.expressions.len() - i,
    {
        assert(named[i as int] == meta.expressions@[i as int].1@);
        check_expr_depth(&meta.expressions[i].1)?;
        i += 1;
    }
    i = 0;
    while i < meta.stochastic_sites.len()
        invariant
            i <= meta.stochastic_sites.len(),
            m == meta@,
            of_sites == m.stochastic_sites.map_values(
                |s: SiteModel| dist_params(s.distribution) + seq![s.value],
            ),
            all_shallow(gathered_params(of_sites.take(i as int))),
            all_shallow(meta_exprs(m)) ==> all_shallow(gathered_params(of_sites)),
        decreases meta.stochastic_sites.len() - i,
    {
        let site = &meta.stochastic_sites[i];
        proof {
            let done = of_sites.take(i + 1);
            assert(done.drop_last() =~= of_sites.take(i as int));
            assert(done.last() == dist_params(site.distribution@) + seq![site.value@]);
            lemma_all_shallow_add(gathered_params(done.drop_last()), done.last());
            lemma_all_shallow_add(dist_params(site.distribution@), seq![site.value@]);
            lemma_prefix_shallow(of_sites, i + 1);
            assert(all_shallow(seq![site.value@]) <==> shallow(site.value@)) by {
                assert(seq![site.value@][0] == site.value@);
            }
        }
        check_all(&distribution_exprs(&site.distribution))?;
        check_expr_depth(&site.value)?;
        i += 1;
    }
    assert(of_sites.take(i as int) =~= of_sites);
    Ok(())
}

proof fn lemma_prefix_shallow(lists: Seq<Seq<ExprModel>>, n: int)
    requires
        0 <= n <= lists.len(),
    ensures
        all_shallow(gathered_params(lists)) ==> all_shallow(gathered_params(lists.take(n))),
    decreases lists.len(),
{
    if n < lists.len() {
        assert(lists.drop_last().take(n) =~= lists.take(n));
        lemma_prefix_shallow(lists.drop_last(), n);
        lemma_all_shallow_add(gathered_params(lists.drop_last()), lists.last());
    } else {
        assert(lists.take(n) =~= lists);
    }
}

/// A value by name and a number are of depth one, and a function of an expression is one deeper than
/// that.
pub proof fn law_functions_are_one_deeper(function: UnaryFn, e: ExprModel)
    ensures
        e is Param || e is Data || e is Const ==> height(e) == 1,
        height(ExprModel::Unary { function, operand: Box::new(e) }) == height(e) + 1,
{
}

/// An operation on two expressions is one deeper than the deeper of them, and so is a product of a
/// matrix and a vector.
pub proof fn law_operations_are_one_deeper_than_the_deeper(
    op: BinOpKind,
    a: ExprModel,
    b: ExprModel,
)
    ensures
        ({
            let pair = height(ExprModel::Bin { op, left: Box::new(a), right: Box::new(b) });
            &&& pair > height(a) && pair > height(b)
            &&& pair == height(a) + 1 || pair == height(b) + 1
        }),
        ({
            let product = height(ExprModel::MatVec { matrix: Box::new(a), vector: Box::new(b) });
            &&& product > height(a) && product > height(b)
            &&& product == height(a) + 1 || product == height(b) + 1
        }),
{
}

/// Every part of a scatter is less deep than the whole, which is one deeper than its deepest part.
pub proof fn law_scatters_are_one_deeper_than_the_deepest(
    a: ExprModel,
    b: ExprModel,
    c: ExprModel,
    d: ExprModel,
    e: ExprModel,
)
    ensures
        ({
            let whole = height(
                ExprModel::VectorScatter {
                    length: Box::new(a),
                    observed_idx: Box::new(b),
                    observed_values: Box::new(c),
                    missing_idx: Box::new(d),
                    missing_values: Box::new(e),
                },
            );
            &&& whole > height(a) && whole > height(b) && whole > height(c) && whole > height(d)
                && whole > height(e)
            &&& whole == height(a) + 1 || whole == height(b) + 1 || whole == height(c) + 1 || whole
                == height(d) + 1 || whole == height(e) + 1
        }),
{
}

/// An indexed expression is deeper than its base, and than the expression of an index by more than
/// one.
pub proof fn law_indexed_expressions_are_deeper_than_their_index(base: ExprModel, e: ExprModel)
    ensures
        ({
            let index = IndexModel::Scalar(Box::new(e));
            let whole = height(ExprModel::Index { base: Box::new(base), index });
            &&& whole > height(base) && whole > height(e) + 1
            &&& whole == height(base) + 1 || whole == height(e) + 2
        }),
{
    assert(index_height(IndexModel::Scalar(Box::new(e))) == 1 + height(e));
}

} // verus!
