//! A model bound to concrete data: its free values, packed, and its factors.

use vstd::prelude::*;

use crate::bounds::{
    expr_references_free_value, resolve_constraint, vector_bounds_support_edges, ResolvedConstraint, SupportValues,
    VectorSupportEdges,
};
#[allow(unused_imports)]
use crate::bounds::{
    bounds_cover, edges_cover, lemma_resolved_covers, mentions, optional_resolved, resolved, support_edges,
    EdgesModel, ResolvedModel, SupportModel,
};
#[allow(unused_imports)]
use crate::artifact::cells;
use crate::constants::evaluate_optional_data_expr;
#[allow(unused_imports)]
use crate::constants::data_evaluated;
use crate::data::{copy_shape, DataValue};
#[allow(unused_imports)]
use crate::data::{data_views, DataModel};
use crate::error::{shape_mismatch, Error};
#[allow(unused_imports)]
use crate::error::{outcome, shape_fault, Fault};
use crate::ir::{Constraint, Distribution, Expr, ModelMeta, ResolvedFreeValue, ResolvedStochasticSite};
#[allow(unused_imports)]
use crate::ir::{
    list_views, named_views, optional_constraint, resolved_free, resolved_sites, ConstraintModel, MetaModel,
    SiteModel,
};
use crate::model::{check_binding, pack_free_values, Slot};
#[allow(unused_imports)]
use crate::model::{all_filled, checked, law_slots_are_contiguous, packed, packed_end, SlotModel};
use crate::numerics::Arithmetic;
use crate::tensor::Tensor;
use crate::text;
#[allow(unused_imports)]
use crate::text::decimal_text;

verus! {

/// A free value with its place in the packed vector and its resolved constraint.
#[derive(Debug)]
pub struct FreeSlot {
    pub name: String,
    pub constraint: Option<ResolvedConstraint>,
    pub shape: Vec<usize>,
    pub offset: usize,
    pub size: usize,
}

/// The place of a free slot.
pub open spec fn slot_place(slot: FreeSlot) -> SlotModel {
    SlotModel {
        name: slot.name@,
        shape: slot.shape@,
        offset: slot.offset as nat,
        size: slot.size as nat,
    }
}

/// A model bound to concrete data.
#[derive(Debug)]
pub struct Posterior {
    pub free: Vec<FreeSlot>,
    pub sites: Vec<ResolvedStochasticSite>,
    pub data: Vec<(String, DataValue)>,
    pub n_params: usize,
}

/// The places of the free values.
pub open spec fn places(free: Seq<FreeSlot>) -> Seq<SlotModel> {
    free.map_values(|slot: FreeSlot| slot_place(slot))
}

/// The first site at or behind position `i` whose value refers to a free value.
pub open spec fn mention_from(sites: Seq<SiteModel>, name: Seq<char>, i: int) -> Option<int>
    decreases sites.len() - i,
{
    if i < 0 || i >= sites.len() {
        None
    } else if mentions(sites[i].value, name) {
        Some(i)
    } else {
        mention_from(sites, name, i + 1)
    }
}

fn find_mention(sites: &Vec<ResolvedStochasticSite>, name: &str) -> (r: Option<usize>)
    ensures
        match r {
            Some(k) => mention_from(list_views(sites@), name@, 0) == Some(k as int) && k < sites.len(),
            None => mention_from(list_views(sites@), name@, 0) is None,
        },
{
    let ghost all = list_views(sites@);
    let mut i: usize = 0;
    while i < sites.len()
        invariant
            i <= sites.len(),
            all == list_views(sites@),
            mention_from(all, name@, 0) == mention_from(all, name@, i as int),
        decreases sites.len() - i,
    {
        assert(all[i as int] == sites@[i as int]@);
        if expr_references_free_value(&sites[i].value, name) {
            return Some(i);
        }
        i += 1;
    }
    None
}

/// What the expressions behind the support of a site came to.
pub open spec fn support_values<A: Arithmetic>(
    ops: &A,
    site: SiteModel,
    data: Seq<(Seq<char>, DataModel)>,
    values: SupportModel,
) -> bool {
    &&& site.value is VectorScatter ==> data_evaluated(
        ops,
        *site.value->missing_idx,
        data,
        values.index,
    )
    &&& site.distribution is Uniform ==> data_evaluated(
        ops,
        site.distribution->low,
        data,
        values.low,
    ) && data_evaluated(ops, site.distribution->high, data, values.high)
}

/// Whether the edges of the support that a free value has can come to that.
pub open spec fn supported<A: Arithmetic>(
    ops: &A,
    sites: Seq<SiteModel>,
    data: Seq<(Seq<char>, DataModel)>,
    name: Seq<char>,
    length: usize,
    support: Result<EdgesModel, Fault>,
) -> bool {
    match mention_from(sites, name, 0) {
        None => support == Ok::<EdgesModel, Fault>(EdgesModel { lower: None, upper: None }),
        Some(k) => exists|values: SupportModel| #[trigger]
            support_values(ops, sites[k], data, values) && support == support_edges(
                sites[k],
                name,
                values,
                length,
            ),
    }
}

fn support_of<A: Arithmetic>(
    name: &str,
    sites: &Vec<ResolvedStochasticSite>,
    data: &Vec<(String, DataValue)>,
    length: usize,
    ops: &A,
) -> (r: Result<VectorSupportEdges, Error>)
    requires
        ops.reliable(),
        all_filled(data_views(data@)),
    ensures
        supported(ops, list_views(sites@), data_views(data@), name@, length, outcome(r)),
        r is Ok ==> edges_cover(r->Ok_0@, length),
{
    match find_mention(sites, name) {
        None => Ok(VectorSupportEdges { lower: None, upper: None }),
        Some(k) => {
            let site: &ResolvedStochasticSite = &sites[k];
            let index: Result<Option<Tensor>, Error> = match &site.value {
                Expr::VectorScatter { length: _, observed_idx: _, observed_values: _, missing_idx, missing_values: _ } => {
                    evaluate_optional_data_expr(ops, missing_idx, data)
                },
                _ => Ok(None),
            };
            let low: Result<Option<Tensor>, Error>;
            let high: Result<Option<Tensor>, Error>;
            match &site.distribution {
                Distribution::Uniform { low: lowest, high: highest } => {
                    low = evaluate_optional_data_expr(ops, lowest, data);
                    high = evaluate_optional_data_expr(ops, highest, data);
                },
                _ => {
                    low = Ok(None);
                    high = Ok(None);
                },
            }
            let values: SupportValues = SupportValues { index, low, high };
            assert(list_views(sites@)[k as int] == site@);
            assert(support_values(ops, site@, data_views(data@), values@));
            vector_bounds_support_edges(name, site, values, length)
        },
    }
}

/// Whether the constraint of a free value can resolve to that.
pub open spec fn resolves<A: Arithmetic>(
    ops: &A,
    sites: Seq<SiteModel>,
    data: Seq<(Seq<char>, DataModel)>,
    constraint: Option<ConstraintModel>,
    name: Seq<char>,
    shape: Seq<usize>,
    out: Result<Option<ResolvedModel>, Fault>,
) -> bool {
    if constraint is Some && constraint->0 is VectorBounds && shape.len() == 1 {
        exists|support: Result<EdgesModel, Fault>| #[trigger]
            supported(ops, sites, data, name, shape[0], support) && out == resolved(
                name,
                constraint,
                shape,
                support,
                data,
            )
    } else {
        out == resolved(
            name,
            constraint,
            shape,
            Ok(EdgesModel { lower: None, upper: None }),
            data,
        )
    }
}

/// Resolves the constraint of a free value of some shape.
pub fn resolve_free<A: Arithmetic>(
    name: &str,
    shape: &Vec<usize>,
    constraint: &Option<Constraint>,
    sites: &Vec<ResolvedStochasticSite>,
    data: &Vec<(String, DataValue)>,
    ops: &A,
) -> (r: Result<Option<ResolvedConstraint>, Error>)
    requires
        ops.reliable(),
        all_filled(data_views(data@)),
    ensures
        resolves(
            ops,
            list_views(sites@),
            data_views(data@),
            optional_constraint(*constraint),
            name@,
            shape@,
            crate::bounds::resolved_outcome(r),
        ),
        r is Ok ==> bounds_cover(optional_resolved(r->Ok_0), cells(shape@)),
{
    let bounded: bool = match constraint {
        Some(Constraint::VectorBounds { .. }) => true,
        _ => false,
    };
    let support: Result<VectorSupportEdges, Error> = if bounded && shape.len() == 1 {
        support_of(name, sites, data, shape[0], ops)
    } else {
        Ok(VectorSupportEdges { lower: None, upper: None })
    };
    proof {
        let wanted = optional_constraint(*constraint);
        let all = data_views(data@);
        if resolved(name@, wanted, shape@, outcome(support), all) is Ok {
            lemma_resolved_covers(name@, wanted, shape@, outcome(support), all);
        }
    }
    resolve_constraint(name, constraint, shape, support, data)
}

/// What binding a model gives, as far as the packing goes, once it succeeded.
pub open spec fn bound<A: Arithmetic>(
    p: Posterior,
    m: MetaModel,
    data: Seq<(Seq<char>, DataModel)>,
    ops: &A,
) -> bool {
    &&& packed(m, data) == Ok::<Seq<SlotModel>, Fault>(places(p.free@))
    &&& p.n_params == packed_end(places(p.free@))
    &&& list_views(p.sites@) == resolved_sites(m)
    &&& data_views(p.data@) == data
    &&& forall|i: int|
        0 <= i < p.free@.len() ==> resolves(
            ops,
            resolved_sites(m),
            data,
            resolved_free(m)[i].1.constraint,
            (#[trigger] p.free@[i]).name@,
            p.free@[i].shape@,
            Ok(optional_resolved(p.free@[i].constraint)),
        )
}

/// Whether the constraint at a packing position can resolve to that.
pub open spec fn resolves_at<A: Arithmetic>(
    ops: &A,
    m: MetaModel,
    data: Seq<(Seq<char>, DataModel)>,
    slots: Seq<SlotModel>,
    i: int,
    out: Result<Option<ResolvedModel>, Fault>,
) -> bool {
    resolves(
        ops,
        resolved_sites(m),
        data,
        resolved_free(m)[i].1.constraint,
        slots[i].name,
        slots[i].shape,
        out,
    )
}

/// Whether the constraint at a packing position can resolve at all.
pub open spec fn resolvable<A: Arithmetic>(
    ops: &A,
    m: MetaModel,
    data: Seq<(Seq<char>, DataModel)>,
    slots: Seq<SlotModel>,
    i: int,
) -> bool {
    exists|c: Option<ResolvedModel>| #[trigger] resolves_at(ops, m, data, slots, i, Ok(c))
}

/// Whether resolving constraints in packing order can fail like that: the constraint at some
/// position fails, and every one before it resolves.
pub open spec fn unresolved<A: Arithmetic>(
    ops: &A,
    m: MetaModel,
    data: Seq<(Seq<char>, DataModel)>,
    slots: Seq<SlotModel>,
    fault: Fault,
) -> bool {
    exists|i: int|
        0 <= i < slots.len() && #[trigger] resolves_at(ops, m, data, slots, i, Err(fault)) && (
        forall|j: int| 0 <= j < i ==> #[trigger] resolvable(ops, m, data, slots, j))
}

/// Whether binding a model to data can come to that: the packing is fixed by model and data, and
/// a failure is the first of the binding and packing checks, or that of the first constraint that
/// does not resolve.
pub open spec fn binds<A: Arithmetic>(
    ops: &A,
    m: MetaModel,
    data: Seq<(Seq<char>, DataModel)>,
    r: Result<Posterior, Error>,
) -> bool {
    match r {
        Ok(p) => bound(p, m, data, ops),
        Err(error) => match packed(m, data) {
            Err(fault) => error@ == fault,
            Ok(slots) => unresolved(ops, m, data, slots, error@),
        },
    }
}

impl Posterior {
    /// Binds a model to data.
    pub fn new<A: Arithmetic>(
        meta: ModelMeta,
        data: Vec<(String, DataValue)>,
        ops: &A,
    ) -> (r: Result<Posterior, Error>)
        requires
            all_filled(data_views(data@)),
            ops.reliable(),
        ensures
            binds(ops, meta@, data_views(data@), r),
    {
        Posterior::bind(&meta, data, ops)
    }

    /// Binds a model, which stays with the caller, to data.
    pub fn bind<A: Arithmetic>(
        meta: &ModelMeta,
        data: Vec<(String, DataValue)>,
        ops: &A,
    ) -> (r: Result<Posterior, Error>)
        requires
            all_filled(data_views(data@)),
            ops.reliable(),
        ensures
            binds(ops, meta@, data_views(data@), r),
    {
        let ghost m = meta@;
        let ghost all = data_views(data@);
        check_binding(meta, &data)?;
        let sites: Vec<ResolvedStochasticSite> = meta.resolved_stochastic_sites();
        let values: Vec<(String, ResolvedFreeValue)> = meta.resolved_free_values();
        let ghost free_values = named_views(values@);
        assert(free_values.len() == values.len());
        let slots: Vec<Slot> = pack_free_values(&values, &data)?;
        let ghost laid = list_views(slots@);
        proof {
            law_slots_are_contiguous(free_values, all, values@.len());
            assert(laid.len() == slots.len());
        }
        let mut free: Vec<FreeSlot> = Vec::new();
        let mut n_params: usize = 0;
        let mut i: usize = 0;
        while i < slots.len()
            invariant
                i <= slots.len(),
                m == meta@,
                all == data_views(data@),
                ops.reliable(),
                all_filled(all),
                list_views(sites@) == resolved_sites(m),
                free_values == named_views(values@),
                free_values == resolved_free(m),
                laid == list_views(slots@),
                packed(m, all) == Ok::<Seq<SlotModel>, Fault>(laid),
                slots.len() == values.len(),
                forall|j: int|
                    0 <= j < laid.len() ==> (#[trigger] laid[j]).offset + laid[j].size <= usize::MAX,
                free.len() == i,
                n_params == packed_end(laid.take(i as int)),
                forall|j: int| 0 <= j < i ==> slot_place(#[trigger] free@[j]) == laid[j],
                forall|j: int|
                    0 <= j < i ==> resolves(
                        ops,
                        resolved_sites(m),
                        all,
                        free_values[j].1.constraint,
                        (#[trigger] free@[j]).name@,
                        free@[j].shape@,
                        Ok(optional_resolved(free@[j].constraint)),
                    ),
            decreases slots.len() - i,
        {
            let slot: &Slot = &slots[i];
            proof {
                assert(laid[i as int] == slot@);
                assert(free_values[i as int] == (values@[i as int].0@, values@[i as int].1@));
                let done = laid.take(i + 1);
                assert(done.last() == slot@);
            }
            match resolve_free(
                slot.name.as_str(),
                &slot.shape,
                &values[i].1.constraint,
                &sites,
                &data,
                ops,
            ) {
                Err(error) => {
                    proof {
                        let known = packed(meta@, data_views(data@))->Ok_0;
                        let k = i as int;
                        assert(known == laid && k < laid.len());
                        assert(resolves_at(ops, m, all, known, k, Err(error@)));
                        assert forall|j: int| 0 <= j < k implies #[trigger] resolvable(
                            ops,
                            m,
                            all,
                            known,
                            j,
                        ) by {
                            assert(slot_place(free@[j]) == laid[j]);
                            assert(resolves_at(
                                ops,
                                m,
                                all,
                                known,
                                j,
                                Ok(optional_resolved(free@[j].constraint)),
                            ));
                        }
                    }
                    return Err(error);
                },
                Ok(constraint) => {
                    free.push(
                        FreeSlot {
                            name: slot.name.clone(),
                            constraint,
                            shape: copy_shape(&slot.shape),
                            offset: slot.offset,
                            size: slot.size,
                        },
                    );
                    n_params = slot.offset + slot.size;
                },
            }
            i += 1;
        }
        assert(laid.take(i as int) =~= laid);
        assert(places(free@) =~= laid);
        Ok(Posterior { free, sites, data, n_params })
    }

    pub fn n_params(&self) -> (r: usize)
        ensures
            r == self.n_params,
    {
        self.n_params
    }

    /// Packing order: name and shape per free value.
    pub fn packing(&self) -> (r: Vec<(String, Vec<usize>)>)
        ensures
            r@.len() == self.free@.len(),
            forall|i: int|
                0 <= i < r@.len() ==> (#[trigger] r@[i]).0@ == self.free@[i].name@ && r@[i].1@
                    == self.free@[i].shape@,
    {
        let mut out: Vec<(String, Vec<usize>)> = Vec::new();
        let mut i: usize = 0;
        while i < self.free.len()
            invariant
                i <= self.free.len(),
                out.len() == i,
                forall|j: int|
                    0 <= j < i ==> (#[trigger] out@[j]).0@ == self.free@[j].name@ && out@[j].1@
                        == self.free@[j].shape@,
            decreases self.free.len() - i,
        {
            out.push((self.free[i].name.clone(), copy_shape(&self.free[i].shape)));
            i += 1;
        }
        out
    }

    /// Accepts a packed vector of the right length only.
    pub fn validate_q(&self, length: usize) -> (r: Result<(), Error>)
        ensures
            checked(r) == length_refusal(self.n_params, length as nat),
    {
        check_length(self.n_params, length)
    }
}

/// The refusal of a packed vector of another length than that of a bound model.
pub open spec fn length_refusal(n_params: usize, length: nat) -> Option<Fault> {
    if length != n_params {
        Some(
            shape_fault(
                "unconstrained parameter vector q has wrong length: expected "@ + decimal_text(
                    n_params as nat,
                ) + ", got "@ + decimal_text(length),
            ),
        )
    } else {
        None
    }
}

pub(crate) fn check_length(n_params: usize, length: usize) -> (r: Result<(), Error>)
    ensures
        checked(r) == length_refusal(n_params, length as nat),
{
    if length != n_params {
        let wanted: String = text::decimal(n_params as u64);
        let have: String = text::decimal(length as u64);
        return Err(
            shape_mismatch(
                text::cat4(
                    "unconstrained parameter vector q has wrong length: expected ",
                    wanted.as_str(),
                    ", got ",
                    have.as_str(),
                ),
            ),
        );
    }
    Ok(())
}

} // verus!
