//! Stable ancestral execution planning for forward simulation.
//!
//! Stochastic-site order is the factor and artifact contract. Forward draws use
//! this separate plan so dependency order never mutates decoded metadata.

use vstd::prelude::*;

use crate::error::{invalid_settings, Error};
#[allow(unused_imports)]
use crate::error::{settings_fault, Fault};
use crate::ir::{distribution_exprs, Distribution, Expr, IndexSpec, ResolvedStochasticSite};
#[allow(unused_imports)]
use crate::ir::{
    dist_params, expr_view, expr_views, group_ir_views, indices_view, list_views, DistModel, ExprModel, IndexModel, SiteModel,
};
use crate::text;
#[allow(unused_imports)]
use crate::text::{debug_text, joined, text_views};

verus! {

/// A value that an expression refers to.
#[derive(Debug, Clone, PartialEq, Eq, Hash)]
pub enum ValueRef {
    Param(String),
    Data(String),
}

/// The mathematical content of a [`ValueRef`].
#[verifier::ext_equal]
pub enum ValueModel {
    Param(Seq<char>),
    Data(Seq<char>),
}

impl View for ValueRef {
    type V = ValueModel;

    open spec fn view(&self) -> ValueModel {
        match *self {
            ValueRef::Param(name) => ValueModel::Param(name@),
            ValueRef::Data(name) => ValueModel::Data(name@),
        }
    }
}

/// How a reference reads in a message.
pub open spec fn value_label(v: ValueModel) -> Seq<char> {
    match v {
        ValueModel::Param(name) => "ParamRef("@ + debug_text(name) + ")"@,
        ValueModel::Data(name) => "DataRef("@ + debug_text(name) + ")"@,
    }
}

impl ValueRef {
    pub fn param(name: &str) -> (r: ValueRef)
        ensures
            r@ == ValueModel::Param(name@),
    {
        ValueRef::Param(name.to_owned())
    }

    pub fn data(name: &str) -> (r: ValueRef)
        ensures
            r@ == ValueModel::Data(name@),
    {
        ValueRef::Data(name.to_owned())
    }

    pub fn label(&self) -> (r: String)
        ensures
            r@ == value_label(self@),
    {
        match self {
            ValueRef::Param(name) => text::cat3("ParamRef(", text::quoted(name.as_str()).as_str(), ")"),
            ValueRef::Data(name) => text::cat3("DataRef(", text::quoted(name.as_str()).as_str(), ")"),
        }
    }

    /// Whether two references name the same value.
    pub fn same(&self, other: &ValueRef) -> (r: bool)
        ensures
            r == (self@ == other@),
    {
        match self {
            ValueRef::Param(name) => match other {
                ValueRef::Param(theirs) => *name == *theirs,
                ValueRef::Data(_) => false,
            },
            ValueRef::Data(name) => match other {
                ValueRef::Param(_) => false,
                ValueRef::Data(theirs) => *name == *theirs,
            },
        }
    }
}

/// The references of an expression, in the order in which a walk meets them.
pub open spec fn expr_refs(e: ExprModel) -> Seq<ValueModel>
    decreases e,
{
    match e {
        ExprModel::Param(name) => seq![ValueModel::Param(name)],
        ExprModel::Data(name) => seq![ValueModel::Data(name)],
        ExprModel::Const(_) => Seq::empty(),
        ExprModel::Bin { op: _, left, right } => expr_refs(*left) + expr_refs(*right),
        ExprModel::Unary { function: _, operand } => expr_refs(*operand),
        ExprModel::MatVec { matrix, vector } => expr_refs(*matrix) + expr_refs(*vector),
        ExprModel::Index { base, index } => expr_refs(*base) + index_refs(index),
        ExprModel::VectorScatter {
            length,
            observed_idx,
            observed_values,
            missing_idx,
            missing_values,
        } => expr_refs(*length) + expr_refs(*observed_idx) + expr_refs(*observed_values) + expr_refs(
            *missing_idx,
        ) + expr_refs(*missing_values),
    }
}

pub open spec fn index_refs(s: IndexModel) -> Seq<ValueModel>
    decreases s,
{
    match s {
        IndexModel::Scalar(e) => expr_refs(*e),
        IndexModel::Full => Seq::empty(),
        IndexModel::Tuple(items) => indices_refs(items),
    }
}

pub open spec fn indices_refs(s: Seq<IndexModel>) -> Seq<ValueModel>
    decreases s,
{
    if s.len() == 0 {
        Seq::empty()
    } else {
        indices_refs(s.drop_last()) + index_refs(s.last())
    }
}

/// The references of several expressions, one after the other.
pub open spec fn exprs_refs(s: Seq<ExprModel>) -> Seq<ValueModel>
    decreases s.len(),
{
    if s.len() == 0 {
        Seq::empty()
    } else {
        exprs_refs(s.drop_last()) + expr_refs(s.last())
    }
}

/// The references of the parameters of a distribution.
pub open spec fn dist_refs(d: DistModel) -> Seq<ValueModel> {
    exprs_refs(dist_params(d))
}

pub fn collect_index_refs(index: &IndexSpec, refs: &mut Vec<ValueRef>)
    ensures
        list_views(final(refs)@) == list_views(old(refs)@) + index_refs(index@),
    decreases index,
{
    broadcast use group_ir_views;

    match index {
        IndexSpec::Scalar(expr) => collect_expr_refs(expr, refs),
        IndexSpec::Full => {
            assert(list_views(refs@) =~= list_views(refs@) + Seq::<ValueModel>::empty());
        },
        IndexSpec::Tuple(items) => {
            let ghost all = indices_view(items@);
            let mut i: usize = 0;
            assert(list_views(refs@) =~= list_views(refs@) + indices_refs(all.take(0)));
            while i < items.len()
                invariant
                    i <= items.len(),
                    *index == IndexSpec::Tuple(*items),
                    all == indices_view(items@),
                    list_views(refs@) == list_views(old(refs)@) + indices_refs(all.take(i as int)),
                decreases items.len() - i,
            {
                broadcast use group_ir_views;

                proof {
                    assert(decreases_to!(*index => index->Tuple_0));
                    assert(decreases_to!(index->Tuple_0 => index->Tuple_0@));
                    assert(decreases_to!(items@ => items@[i as int]));
                }
                collect_index_refs(&items[i], refs);
                proof {
                    let done = all.take(i + 1);
                    assert(done.drop_last() =~= all.take(i as int));
                    assert(done.last() == items@[i as int]@);
                    assert(list_views(refs@) =~= list_views(old(refs)@) + indices_refs(done));
                }
                i += 1;
            }
            assert(all.take(i as int) =~= all);
        },
    }
}

pub fn collect_expr_refs(expr: &Expr, refs: &mut Vec<ValueRef>)
    ensures
        list_views(final(refs)@) == list_views(old(refs)@) + expr_refs(expr@),
    decreases expr,
{
    let ghost start = list_views(refs@);
    match expr {
        Expr::Param(name) => {
            refs.push(ValueRef::Param(name.clone()));
        },
        Expr::Data(name) => {
            refs.push(ValueRef::Data(name.clone()));
        },
        Expr::Const(_) => {},
        Expr::Bin { op: _, left, right } => {
            collect_expr_refs(left, refs);
            collect_expr_refs(right, refs);
        },
        Expr::Unary { function: _, operand } => {
            collect_expr_refs(operand, refs);
        },
        Expr::MatVec { matrix, vector } => {
            collect_expr_refs(matrix, refs);
            collect_expr_refs(vector, refs);
        },
        Expr::Index { base, index } => {
            collect_expr_refs(base, refs);
            collect_index_refs(index, refs);
        },
        Expr::VectorScatter {
            length,
            observed_idx,
            observed_values,
            missing_idx,
            missing_values,
        } => {
            collect_expr_refs(length, refs);
            collect_expr_refs(observed_idx, refs);
            collect_expr_refs(observed_values, refs);
            collect_expr_refs(missing_idx, refs);
            collect_expr_refs(missing_values, refs);
        },
    }
    assert(list_views(refs@) =~= start + expr_refs(expr@));
}

pub fn collect_distribution_refs(distribution: &Distribution, refs: &mut Vec<ValueRef>)
    ensures
        list_views(final(refs)@) == list_views(old(refs)@) + dist_refs(distribution@),
{
    let params: Vec<&Expr> = distribution_exprs(distribution);
    let ghost all = expr_views(params@);
    let mut i: usize = 0;
    assert(list_views(refs@) =~= list_views(refs@) + exprs_refs(all.take(0)));
    while i < params.len()
        invariant
            i <= params.len(),
            all == expr_views(params@),
            list_views(refs@) == list_views(old(refs)@) + exprs_refs(all.take(i as int)),
        decreases params.len() - i,
    {
        collect_expr_refs(params[i], refs);
        proof {
            let done = all.take(i + 1);
            assert(done.drop_last() =~= all.take(i as int));
            assert(done.last() == params@[i as int]@);
            assert(list_views(refs@) =~= list_views(old(refs)@) + exprs_refs(done));
        }
        i += 1;
    }
    assert(all.take(i as int) =~= all);
}

/// The references that generating a value evaluates besides its distribution: the length and the
/// missing positions of a scatter. The missing values are what is generated, and observed
/// positions and values are not conditioned into a prior draw.
pub open spec fn generation_value_refs(value: ExprModel) -> Seq<ValueModel> {
    match value {
        ExprModel::VectorScatter { length, observed_idx: _, observed_values: _, missing_idx, missing_values: _ } => expr_refs(
            *length,
        ) + expr_refs(*missing_idx),
        _ => Seq::empty(),
    }
}

pub fn collect_generation_value_refs(value: &Expr, refs: &mut Vec<ValueRef>)
    ensures
        list_views(final(refs)@) == list_views(old(refs)@) + generation_value_refs(value@),
{
    let ghost start = list_views(refs@);
    match value {
        Expr::VectorScatter { length, observed_idx: _, observed_values: _, missing_idx, missing_values: _ } => {
            collect_expr_refs(length, refs);
            collect_expr_refs(missing_idx, refs);
        },
        _ => {},
    }
    assert(list_views(refs@) =~= start + generation_value_refs(value@));
}

/// The value that a site generates, if it can be assigned.
pub open spec fn generated(value: ExprModel) -> Option<ValueModel> {
    match value {
        ExprModel::Param(name) => Some(ValueModel::Param(name)),
        ExprModel::Data(name) => Some(ValueModel::Data(name)),
        ExprModel::VectorScatter { length: _, observed_idx: _, observed_values: _, missing_idx: _, missing_values } => match *missing_values {
            ExprModel::Param(name) => Some(ValueModel::Param(name)),
            _ => None,
        },
        _ => None,
    }
}

pub fn generated_value(site: &ResolvedStochasticSite) -> (r: Option<ValueRef>)
    ensures
        match r {
            Some(value) => generated(site@.value) == Some(value@),
            None => generated(site@.value) is None,
        },
{
    reveal_with_fuel(expr_view, 2);
    match &site.value {
        Expr::Param(name) => Some(ValueRef::Param(name.clone())),
        Expr::Data(name) => Some(ValueRef::Data(name.clone())),
        Expr::VectorScatter { length: _, observed_idx: _, observed_values: _, missing_idx: _, missing_values } => {
            match &**missing_values {
                Expr::Param(name) => Some(ValueRef::Param(name.clone())),
                _ => None,
            }
        },
        _ => None,
    }
}

/// A site that waits for its turn: where it stands, what it generates, and what it needs.
#[verifier::ext_equal]
pub struct PendingModel {
    pub index: usize,
    pub output: ValueModel,
    pub needs: Seq<ValueModel>,
}

/// A sequence without repetitions of the neighbour before.
pub open spec fn without_repeats(s: Seq<ValueModel>) -> Seq<ValueModel>
    decreases s.len(),
{
    if s.len() < 2 {
        s
    } else if s.last() == s[s.len() - 2] {
        without_repeats(s.drop_last())
    } else {
        without_repeats(s.drop_last()).push(s.last())
    }
}

/// What generating a site needs.
pub open spec fn site_needs(site: SiteModel) -> Seq<ValueModel> {
    without_repeats(dist_refs(site.distribution) + generation_value_refs(site.value))
}

/// A site as a pending one, if it can be assigned.
pub open spec fn pending_site(sites: Seq<SiteModel>, index: usize) -> PendingModel {
    PendingModel {
        index,
        output: generated(sites[index as int].value)->0,
        needs: site_needs(sites[index as int]),
    }
}

/// The first of the sites that cannot be assigned, from position `i` on.
pub open spec fn unassignable_from(sites: Seq<SiteModel>, indices: Seq<usize>, i: int) -> Option<
    Seq<char>,
>
    decreases indices.len() - i,
{
    if i < 0 || i >= indices.len() {
        None
    } else if generated(sites[indices[i] as int].value) is None {
        Some(sites[indices[i] as int].name)
    } else {
        unassignable_from(sites, indices, i + 1)
    }
}

/// Everything a site needs is there.
pub open spec fn ready(needs: Seq<ValueModel>, available: Seq<ValueModel>) -> bool {
    forall|i: int| 0 <= i < needs.len() ==> available.contains(#[trigger] needs[i])
}

/// The first ready site at or behind position `i`.
pub open spec fn first_ready(pending: Seq<PendingModel>, available: Seq<ValueModel>, i: int) -> Option<
    int,
>
    decreases pending.len() - i,
{
    if i < 0 || i >= pending.len() {
        None
    } else if ready(pending[i].needs, available) {
        Some(i)
    } else {
        first_ready(pending, available, i + 1)
    }
}

/// The order in which sites run when the first ready one is taken each time, or else those that
/// never become ready, with what is available then.
pub enum Plan {
    Order(Seq<usize>),
    Stuck(Seq<PendingModel>, Seq<ValueModel>),
}

pub open spec fn plan(pending: Seq<PendingModel>, available: Seq<ValueModel>, done: Seq<usize>) -> Plan
    decreases pending.len(),
{
    if pending.len() == 0 {
        Plan::Order(done)
    } else {
        match first_ready(pending, available, 0) {
            None => Plan::Stuck(pending, available),
            Some(k) => if 0 <= k < pending.len() {
                plan(
                    pending.remove(k),
                    available.push(pending[k].output),
                    done.push(pending[k].index),
                )
            } else {
                Plan::Stuck(pending, available)
            },
        }
    }
}

/// The labels of what is missing.
pub open spec fn missing_labels(needs: Seq<ValueModel>, available: Seq<ValueModel>) -> Seq<Seq<char>>
    decreases needs.len(),
{
    if needs.len() == 0 {
        Seq::empty()
    } else if available.contains(needs.last()) {
        missing_labels(needs.drop_last(), available)
    } else {
        missing_labels(needs.drop_last(), available).push(value_label(needs.last()))
    }
}

/// How a stuck site reads in a message.
pub open spec fn stuck_label(sites: Seq<SiteModel>, site: PendingModel, available: Seq<ValueModel>) -> Seq<
    char,
> {
    debug_text(sites[site.index as int].name) + " -> ["@ + joined(
        missing_labels(site.needs, available),
        ", "@,
    ) + "]"@
}

/// The message about stuck sites.
pub open spec fn stuck_message(
    sites: Seq<SiteModel>,
    pending: Seq<PendingModel>,
    available: Seq<ValueModel>,
    context: Seq<char>,
) -> Seq<char> {
    context + " generative dependencies are cyclic or unavailable; unresolved references: ["@ + joined(
        pending.map_values(|site: PendingModel| stuck_label(sites, site, available)),
        ", "@,
    )
        + "]; provide every external value as declared data or supplied truth, and keep one generative owner for every generated value"@
}

/// What planning gives.
pub open spec fn planned_order(
    sites: Seq<SiteModel>,
    indices: Seq<usize>,
    available: Seq<ValueModel>,
    context: Seq<char>,
) -> Result<Seq<usize>, Fault> {
    match unassignable_from(sites, indices, 0) {
        Some(name) => Err(
            settings_fault(
                context + " stochastic site "@ + debug_text(name)
                    + " is not assignable and cannot be scheduled for generation"@,
            ),
        ),
        None => match plan(
            indices.map_values(|index: usize| pending_site(sites, index)),
            available,
            Seq::empty(),
        ) {
            Plan::Order(order) => Ok(order),
            Plan::Stuck(pending, reached) => Err(
                settings_fault(stuck_message(sites, pending, reached, context)),
            ),
        },
    }
}

struct Pending {
    index: usize,
    output: ValueRef,
    needs: Vec<ValueRef>,
}

impl View for Pending {
    type V = PendingModel;

    closed spec fn view(&self) -> PendingModel {
        PendingModel {
            index: self.index,
            output: self.output@,
            needs: list_views(self.needs@),
        }
    }
}

fn holds(available: &Vec<ValueRef>, value: &ValueRef) -> (r: bool)
    ensures
        r == list_views(available@).contains(value@),
{
    let mut i: usize = 0;
    while i < available.len()
        invariant
            i <= available.len(),
            forall|j: int| 0 <= j < i ==> list_views(available@)[j] != value@,
        decreases available.len() - i,
    {
        if available[i].same(value) {
            assert(list_views(available@)[i as int] == value@);
            return true;
        }
        i += 1;
    }
    false
}

fn is_ready(needs: &Vec<ValueRef>, available: &Vec<ValueRef>) -> (r: bool)
    ensures
        r == ready(list_views(needs@), list_views(available@)),
{
    let mut i: usize = 0;
    while i < needs.len()
        invariant
            i <= needs.len(),
            forall|j: int|
                0 <= j < i ==> list_views(available@).contains(#[trigger] list_views(needs@)[j]),
        decreases needs.len() - i,
    {
        assert(list_views(needs@)[i as int] == needs@[i as int]@);
        if !holds(available, &needs[i]) {
            return false;
        }
        i += 1;
    }
    true
}

fn drop_repeats(refs: Vec<ValueRef>) -> (r: Vec<ValueRef>)
    ensures
        list_views(r@) == without_repeats(list_views(refs@)),
{
    let ghost all = list_views(refs@);
    let mut out: Vec<ValueRef> = Vec::new();
    let mut i: usize = 0;
    assert(list_views(out@) =~= without_repeats(all.take(0)));
    while i < refs.len()
        invariant
            i <= refs.len(),
            all == list_views(refs@),
            list_views(out@) == without_repeats(all.take(i as int)),
        decreases refs.len() - i,
    {
        let ghost before = out@;
        let ghost done = all.take(i + 1);
        proof {
            assert(done.drop_last() =~= all.take(i as int));
            assert(done.last() == refs@[i as int]@);
        }
        if i == 0 || !refs[i - 1].same(&refs[i]) {
            let entry: ValueRef = match &refs[i] {
                ValueRef::Param(name) => ValueRef::Param(name.clone()),
                ValueRef::Data(name) => ValueRef::Data(name.clone()),
            };
            out.push(entry);
            assert(list_views(out@) =~= list_views(before).push(entry@));
            assert(list_views(out@) =~= without_repeats(done)) by {
                if i == 0 {
                    assert(done =~= seq![entry@]);
                    assert(list_views(before) =~= Seq::empty());
                }
            }
        } else {
            assert(done[done.len() - 2] == refs@[i - 1]@);
        }
        i += 1;
    }
    assert(all.take(i as int) =~= all);
    out
}

fn gather_pending(sites: &Vec<ResolvedStochasticSite>, site_indices: &Vec<usize>, context: &str) -> (r:
    Result<Vec<Pending>, Error>)
    requires
        forall|i: int| 0 <= i < site_indices.len() ==> (#[trigger] site_indices@[i]) < sites.len(),
    ensures
        match r {
            Ok(pending) => unassignable_from(list_views(sites@), site_indices@, 0) is None
                && list_views(pending@) == site_indices@.map_values(
                |index: usize| pending_site(list_views(sites@), index),
            ),
            Err(error) => unassignable_from(list_views(sites@), site_indices@, 0) is Some && error@
                == settings_fault(
                context@ + " stochastic site "@ + debug_text(
                    unassignable_from(list_views(sites@), site_indices@, 0)->0,
                ) + " is not assignable and cannot be scheduled for generation"@,
            ),
        },
{
    let ghost all = list_views(sites@);
    let mut out: Vec<Pending> = Vec::new();
    let mut i: usize = 0;
    while i < site_indices.len()
        invariant
            i <= site_indices.len(),
            all == list_views(sites@),
            out.len() == i,
            forall|k: int| 0 <= k < site_indices.len() ==> (#[trigger] site_indices@[k]) < sites.len(),
            forall|j: int| 0 <= j < i ==> (#[trigger] out@[j])@ == pending_site(all, site_indices@[j]),
            unassignable_from(all, site_indices@, 0) == unassignable_from(
                all,
                site_indices@,
                i as int,
            ),
        decreases site_indices.len() - i,
    {
        let index: usize = site_indices[i];
        let site: &ResolvedStochasticSite = &sites[index];
        assert(all[index as int] == site@);
        match generated_value(site) {
            None => {
                let shown: String = text::quoted(site.name.as_str());
                return Err(
                    invalid_settings(
                        text::cat4(
                            context,
                            " stochastic site ",
                            shown.as_str(),
                            " is not assignable and cannot be scheduled for generation",
                        ),
                    ),
                );
            },
            Some(output) => {
                let mut refs: Vec<ValueRef> = Vec::new();
                collect_distribution_refs(&site.distribution, &mut refs);
                collect_generation_value_refs(&site.value, &mut refs);
                assert(list_views(refs@) =~= dist_refs(site@.distribution) + generation_value_refs(
                    site@.value,
                ));
                let needs: Vec<ValueRef> = drop_repeats(refs);
                out.push(Pending { index, output, needs });
            },
        }
        i += 1;
    }
    assert(list_views(out@) =~= site_indices@.map_values(|index: usize| pending_site(all, index)));
    Ok(out)
}

fn missing_of(needs: &Vec<ValueRef>, available: &Vec<ValueRef>) -> (r: Vec<String>)
    ensures
        text_views(r@) == missing_labels(list_views(needs@), list_views(available@)),
{
    let ghost all = list_views(needs@);
    let ghost there = list_views(available@);
    let mut out: Vec<String> = Vec::new();
    let mut i: usize = 0;
    assert(text_views(out@) =~= missing_labels(all.take(0), there));
    while i < needs.len()
        invariant
            i <= needs.len(),
            all == list_views(needs@),
            there == list_views(available@),
            text_views(out@) == missing_labels(all.take(i as int), there),
        decreases needs.len() - i,
    {
        let ghost before = out@;
        proof {
            let done = all.take(i + 1);
            assert(done.drop_last() =~= all.take(i as int));
            assert(done.last() == needs@[i as int]@);
        }
        if !holds(available, &needs[i]) {
            let label: String = needs[i].label();
            out.push(label);
            assert(text_views(out@) =~= text_views(before).push(label@));
        }
        i += 1;
    }
    assert(all.take(i as int) =~= all);
    out
}

fn stuck_error(
    sites: &Vec<ResolvedStochasticSite>,
    pending: &Vec<Pending>,
    available: &Vec<ValueRef>,
    context: &str,
) -> (r: Error)
    requires
        forall|i: int| 0 <= i < pending.len() ==> (#[trigger] pending@[i]).index < sites.len(),
    ensures
        r@ == settings_fault(
            stuck_message(
                list_views(sites@),
                list_views(pending@),
                list_views(available@),
                context@,
            ),
        ),
{
    let ghost all = list_views(sites@);
    let ghost there = list_views(available@);
    let mut lines: Vec<String> = Vec::new();
    let mut i: usize = 0;
    while i < pending.len()
        invariant
            i <= pending.len(),
            all == list_views(sites@),
            there == list_views(available@),
            lines.len() == i,
            forall|k: int| 0 <= k < pending.len() ==> (#[trigger] pending@[k]).index < sites.len(),
            forall|j: int|
                0 <= j < i ==> (#[trigger] lines@[j])@ == stuck_label(all, pending@[j]@, there),
        decreases pending.len() - i,
    {
        let site: &Pending = &pending[i];
        let labels: Vec<String> = missing_of(&site.needs, available);
        let missing: String = text::join(&labels, ", ");
        assert(all[site.index as int] == sites@[site.index as int]@);
        let shown: String = text::quoted(sites[site.index].name.as_str());
        lines.push(text::cat4(shown.as_str(), " -> [", missing.as_str(), "]"));
        i += 1;
    }
    assert(text_views(lines@) =~= list_views(pending@).map_values(
        |site: PendingModel| stuck_label(all, site, there),
    ));
    let unresolved: String = text::join(&lines, ", ");
    invalid_settings(
        text::cat4(
            context,
            " generative dependencies are cyclic or unavailable; unresolved references: [",
            unresolved.as_str(),
            "]; provide every external value as declared data or supplied truth, and keep one generative owner for every generated value",
        ),
    )
}

/// Return selected site indices in stable ancestral execution order.
///
/// `site_indices` must be in metadata order. The first ready site is selected
/// on each pass, preserving existing draw order whenever metadata is
/// already ancestral.
pub fn stable_site_order(
    sites: &Vec<ResolvedStochasticSite>,
    site_indices: &Vec<usize>,
    initially_available: Vec<ValueRef>,
    context: &str,
) -> (r: Result<Vec<usize>, Error>)
    requires
        forall|i: int| 0 <= i < site_indices.len() ==> (#[trigger] site_indices@[i]) < sites.len(),
    ensures
        match r {
            Ok(order) => planned_order(
                list_views(sites@),
                site_indices@,
                list_views(initially_available@),
                context@,
            ) == Ok::<Seq<usize>, Fault>(order@),
            Err(error) => planned_order(
                list_views(sites@),
                site_indices@,
                list_views(initially_available@),
                context@,
            ) == Err::<Seq<usize>, Fault>(error@),
        },
{
    let ghost all = list_views(sites@);
    let ghost start = list_views(initially_available@);
    let mut available: Vec<ValueRef> = initially_available;
    let mut pending: Vec<Pending> = gather_pending(sites, site_indices, context)?;
    let ghost whole = list_views(pending@);
    let mut ordered: Vec<usize> = Vec::new();
    assert forall|i: int| 0 <= i < pending.len() implies (#[trigger] pending@[i]).index
        < sites.len() by {
        assert(whole[i] == pending@[i]@);
        assert(site_indices@[i] < sites.len());
    }
    while pending.len() > 0
        invariant
            all == list_views(sites@),
            start == list_views(initially_available@),
            forall|i: int| 0 <= i < pending.len() ==> (#[trigger] pending@[i]).index < sites.len(),
            unassignable_from(all, site_indices@, 0) is None,
            whole == site_indices@.map_values(|index: usize| pending_site(all, index)),
            plan(whole, start, Seq::empty()) == plan(
                list_views(pending@),
                list_views(available@),
                ordered@,
            ),
        decreases pending.len(),
    {
        let ghost waiting = list_views(pending@);
        let ghost there = list_views(available@);
        let mut k: usize = 0;
        while k < pending.len() && !is_ready(&pending[k].needs, &available)
            invariant
                k <= pending.len(),
                waiting == list_views(pending@),
                there == list_views(available@),
                first_ready(waiting, there, 0) == first_ready(waiting, there, k as int),
            decreases pending.len() - k,
        {
            assert(waiting[k as int] == pending@[k as int]@);
            k += 1;
        }
        if k == pending.len() {
            return Err(stuck_error(sites, &pending, &available, context));
        }
        assert(waiting[k as int] == pending@[k as int]@);
        let ghost old_pending = pending@;
        let ghost old_available = available@;
        let ghost old_ordered = ordered@;
        let site: Pending = pending.remove(k);
        assert forall|i: int| 0 <= i < pending.len() implies (#[trigger] pending@[i]).index
            < sites.len() by {
            if i < k {
                assert(pending@[i] == old_pending[i]);
            } else {
                assert(pending@[i] == old_pending[i + 1]);
            }
        }
        assert(list_views(pending@) =~= waiting.remove(k as int));
        available.push(site.output);
        assert(list_views(available@) =~= there.push(site.output@));
        ordered.push(site.index);
    }
    Ok(ordered)
}

/// In an ancestral order every site runs only when everything it needs is available: from the
/// start, or generated by a site before it.
pub open spec fn ancestral(order: Seq<PendingModel>, available: Seq<ValueModel>) -> bool
    decreases order.len(),
{
    order.len() == 0 || (ready(order[0].needs, available) && ancestral(
        order.drop_first(),
        available.push(order[0].output),
    ))
}

proof fn lemma_first_ready(pending: Seq<PendingModel>, available: Seq<ValueModel>, i: int)
    requires
        0 <= i <= pending.len(),
    ensures
        match first_ready(pending, available, i) {
            Some(k) => i <= k < pending.len() && ready(pending[k].needs, available) && forall|j: int|
                i <= j < k ==> !ready((#[trigger] pending[j]).needs, available),
            None => forall|j: int|
                i <= j < pending.len() ==> !ready((#[trigger] pending[j]).needs, available),
        },
    decreases pending.len() - i,
{
    if i < pending.len() && !ready(pending[i].needs, available) {
        lemma_first_ready(pending, available, i + 1);
    }
}

/// The sites in the order in which a plan takes them.
pub open spec fn taken(pending: Seq<PendingModel>, available: Seq<ValueModel>) -> Seq<PendingModel>
    decreases pending.len(),
{
    match first_ready(pending, available, 0) {
        None => Seq::empty(),
        Some(k) => if 0 <= k < pending.len() {
            seq![pending[k]] + taken(pending.remove(k), available.push(pending[k].output))
        } else {
            Seq::empty()
        },
    }
}

/// A finished plan lists exactly the sites that were to be planned, each once, in an ancestral
/// order.
pub proof fn law_plan_is_ancestral(
    pending: Seq<PendingModel>,
    available: Seq<ValueModel>,
    done: Seq<usize>,
)
    requires
        plan(pending, available, done) is Order,
    ensures
        plan(pending, available, done)->Order_0 == done + taken(pending, available).map_values(
            |site: PendingModel| site.index,
        ),
        taken(pending, available).to_multiset() == pending.to_multiset(),
        ancestral(taken(pending, available), available),
    decreases pending.len(),
{
    broadcast use vstd::seq_lib::group_to_multiset_ensures;

    lemma_first_ready(pending, available, 0);
    if pending.len() == 0 {
        assert(taken(pending, available) =~= Seq::empty());
        assert(pending =~= Seq::empty());
        assert(done =~= done + taken(pending, available).map_values(
            |site: PendingModel| site.index,
        ));
    } else {
        let k = first_ready(pending, available, 0)->0;
        let rest = pending.remove(k);
        let more = available.push(pending[k].output);
        law_plan_is_ancestral(rest, more, done.push(pending[k].index));
        let tail = taken(rest, more);
        let whole = taken(pending, available);
        assert(whole =~= seq![pending[k]] + tail);
        assert(whole[0] == pending[k]);
        assert(whole.drop_first() =~= tail);
        assert(plan(pending, available, done)->Order_0 =~= done + whole.map_values(
            |site: PendingModel| site.index,
        ));
        assert(whole.to_multiset() =~= tail.to_multiset().insert(pending[k])) by {
            assert(whole.drop_first() =~= tail);
            vstd::seq_lib::to_multiset_remove(whole, 0);
            assert(whole.remove(0) =~= tail);
            assert(whole.to_multiset().contains(whole[0]));
        }
        vstd::seq_lib::to_multiset_remove(pending, k);
        assert(pending.to_multiset().contains(pending[k]));
        assert(pending.to_multiset() =~= rest.to_multiset().insert(pending[k]));
    }
}

/// Sites that are already in ancestral order keep their order.
pub proof fn law_ancestral_order_is_kept(
    pending: Seq<PendingModel>,
    available: Seq<ValueModel>,
    done: Seq<usize>,
)
    requires
        ancestral(pending, available),
    ensures
        plan(pending, available, done) == Plan::Order(
            done + pending.map_values(|site: PendingModel| site.index),
        ),
    decreases pending.len(),
{
    if pending.len() == 0 {
        assert(done =~= done + pending.map_values(|site: PendingModel| site.index));
    } else {
        assert(pending.remove(0) =~= pending.drop_first());
        law_ancestral_order_is_kept(
            pending.drop_first(),
            available.push(pending[0].output),
            done.push(pending[0].index),
        );
        assert(done.push(pending[0].index) + pending.drop_first().map_values(
            |site: PendingModel| site.index,
        ) =~= done + pending.map_values(|site: PendingModel| site.index));
    }
}

/// Whatever is in `a` is in `b`.
spec fn covers(b: Seq<ValueModel>, a: Seq<ValueModel>) -> bool {
    forall|v: ValueModel| #[trigger] a.contains(v) ==> b.contains(v)
}

proof fn lemma_covers_push(b: Seq<ValueModel>, a: Seq<ValueModel>, v: ValueModel)
    requires
        covers(b, a),
    ensures
        covers(b.push(v), a.push(v)),
{
    assert forall|w: ValueModel| #[trigger] a.push(v).contains(w) implies b.push(v).contains(w) by {
        let i = choose|i: int| 0 <= i < a.push(v).len() && a.push(v)[i] == w;
        if i < a.len() {
            assert(a[i] == w);
            assert(a.contains(w));
            let j = choose|j: int| 0 <= j < b.len() && b[j] == w;
            assert(b.push(v)[j] == w);
        } else {
            assert(b.push(v)[b.len() as int] == w);
        }
    }
}

proof fn lemma_more_available(order: Seq<PendingModel>, a: Seq<ValueModel>, b: Seq<ValueModel>)
    requires
        ancestral(order, a),
        covers(b, a),
    ensures
        ancestral(order, b),
    decreases order.len(),
{
    if order.len() > 0 {
        assert(ready(order[0].needs, b)) by {
            assert forall|i: int| 0 <= i < order[0].needs.len() implies b.contains(
                #[trigger] order[0].needs[i],
            ) by {
                assert(a.contains(order[0].needs[i]));
            }
        }
        lemma_covers_push(b, a, order[0].output);
        lemma_more_available(order.drop_first(), a.push(order[0].output), b.push(order[0].output));
    }
}

proof fn lemma_take_out(order: Seq<PendingModel>, available: Seq<ValueModel>, j: int)
    requires
        ancestral(order, available),
        0 <= j < order.len(),
    ensures
        ancestral(order.remove(j), available.push(order[j].output)),
    decreases j,
{
    let taken_out = order[j].output;
    if j == 0 {
        assert(order.remove(0) =~= order.drop_first());
    } else {
        let first = order[0].output;
        let rest = order.drop_first();
        lemma_take_out(rest, available.push(first), j - 1);
        let left = order.remove(j);
        assert(left[0] == order[0]);
        assert(left.drop_first() =~= rest.remove(j - 1));
        let here = available.push(taken_out);
        assert(covers(here, available)) by {
            assert forall|v: ValueModel| #[trigger] available.contains(v) implies here.contains(v) by {
                let i = choose|i: int| 0 <= i < available.len() && available[i] == v;
                assert(here[i] == v);
            }
        }
        assert(ready(order[0].needs, here)) by {
            assert forall|i: int| 0 <= i < order[0].needs.len() implies here.contains(
                #[trigger] order[0].needs[i],
            ) by {
                assert(available.contains(order[0].needs[i]));
            }
        }
        let swapped = available.push(first).push(taken_out);
        let wanted = here.push(first);
        assert(covers(wanted, swapped)) by {
            assert forall|v: ValueModel| #[trigger] swapped.contains(v) implies wanted.contains(v) by {
                let i = choose|i: int| 0 <= i < swapped.len() && swapped[i] == v;
                if i < available.len() {
                    assert(wanted[i] == v);
                } else if i == available.len() {
                    assert(wanted[available.len() as int + 1] == v);
                } else {
                    assert(wanted[available.len() as int] == v);
                }
            }
        }
        lemma_more_available(left.drop_first(), swapped, wanted);
    }
}

/// Planning finds an order whenever there is one: if the sites can be put into an ancestral order
/// at all, the plan is finished.
pub proof fn law_plan_is_complete(
    pending: Seq<PendingModel>,
    available: Seq<ValueModel>,
    done: Seq<usize>,
    order: Seq<PendingModel>,
)
    requires
        order.to_multiset() == pending.to_multiset(),
        ancestral(order, available),
    ensures
        plan(pending, available, done) is Order,
    decreases pending.len(),
{
    broadcast use vstd::seq_lib::group_to_multiset_ensures;

    assert(order.len() == order.to_multiset().len());
    assert(pending.len() == pending.to_multiset().len());
    if pending.len() > 0 {
        lemma_first_ready(pending, available, 0);
        assert(order.contains(order[0]));
        assert(pending.to_multiset().count(order[0]) > 0);
        assert(pending.contains(order[0]));
        let i = choose|i: int| 0 <= i < pending.len() && pending[i] == order[0];
        assert(ready(pending[i].needs, available));
        let k = first_ready(pending, available, 0)->0;
        let site = pending[k];
        assert(pending.contains(site));
        assert(order.to_multiset().count(site) > 0);
        assert(order.contains(site));
        let j = choose|j: int| 0 <= j < order.len() && order[j] == site;
        lemma_take_out(order, available, j);
        vstd::seq_lib::to_multiset_remove(order, j);
        vstd::seq_lib::to_multiset_remove(pending, k);
        law_plan_is_complete(
            pending.remove(k),
            available.push(site.output),
            done.push(site.index),
            order.remove(j),
        );
    }
}

} // verus!
