//! What a simulation starts from: declared data, the layout of free values, and an inventory of
//! sites that can be drawn in ancestral order.

use vstd::prelude::*;

use crate::bounds::ResolvedConstraint;
#[allow(unused_imports)]
use crate::artifact::cells;
#[allow(unused_imports)]
use crate::bounds::{bounds_cover, optional_resolved, ResolvedModel};
use crate::data::{copy_shape, DataValue};
#[allow(unused_imports)]
use crate::data::{data_views, DataModel};
use crate::error::{shape_mismatch, Error};
#[allow(unused_imports)]
use crate::error::{shape_fault, Fault};
#[allow(unused_imports)]
use crate::investigation::ledger::views;
use crate::ir::{ModelMeta, ResolvedFreeValue, ResolvedStochasticSite};
#[allow(unused_imports)]
use crate::ir::{
    list_views, named_views, resolved_free, resolved_sites, FreeModel, MetaModel, SchemaModel, SiteModel,
};
use crate::model::{
    check_schemas, data_name_list, free_value_shape, has_text, keep_unknown, show_names,
};
#[allow(unused_imports)]
use crate::model::{
    all_filled, bound_names, checked, data_named, free_shape, lemma_none_missing, names_text, repeated_from,
    schemas_fault, unknown_names,
};
use crate::numerics::Arithmetic;
use crate::order::sort_texts;
#[allow(unused_imports)]
use crate::order::sorted_texts;
use crate::posterior::resolve_free;
#[allow(unused_imports)]
use crate::posterior::resolves;
use crate::text;
#[allow(unused_imports)]
use crate::text::text_views;

#[allow(unused_imports)]
use super::forward::last_named;

verus! {

/// The names of declared data.
pub open spec fn declared_names(m: MetaModel) -> Seq<Seq<char>> {
    m.data.map_values(|d: (Seq<char>, SchemaModel)| d.0)
}

/// What is wrong with the data that a simulation declares.
pub open spec fn declared_fault(m: MetaModel, data: Seq<(Seq<char>, DataModel)>) -> Option<Fault> {
    let names = bound_names(data);
    let missing = sorted_texts(unknown_names(declared_names(m), names));
    let extra = sorted_texts(unknown_names(names, declared_names(m)));
    if repeated_from(names, 0) is Some {
        Some(shape_fault("duplicate data value \""@ + repeated_from(names, 0)->0 + "\""@))
    } else if missing.len() > 0 {
        Some(
            shape_fault(
                "missing model data: "@ + names_text(missing)
                    + "; prior-predictive needs every declared data input"@,
            ),
        )
    } else if extra.len() > 0 {
        Some(
            shape_fault(
                "unexpected prior-predictive data: "@ + names_text(extra)
                    + "; pass declared inputs only, not observed values to simulate"@,
            ),
        )
    } else {
        schemas_fault(m.data, data, 0)
    }
}

fn declared_name_list(meta: &ModelMeta) -> (r: Vec<String>)
    ensures
        text_views(r@) == declared_names(meta@),
{
    let mut out: Vec<String> = Vec::new();
    let mut i: usize = 0;
    while i < meta.data.len()
        invariant
            i <= meta.data.len(),
            out.len() == i,
            forall|j: int| 0 <= j < i ==> (#[trigger] out@[j])@ == meta.data@[j].0@,
        decreases meta.data.len() - i,
    {
        out.push(meta.data[i].0.clone());
        i += 1;
    }
    assert(text_views(out@) =~= declared_names(meta@));
    out
}

/// Fails on the first name that occurs a second time.
pub fn check_repeated(data: &Vec<(String, DataValue)>) -> (r: Result<(), Error>)
    ensures
        checked(r) == (match repeated_from(bound_names(data_views(data@)), 0) {
            Some(name) => Some(shape_fault("duplicate data value \""@ + name + "\""@)),
            None => None,
        }),
{
    let names: Vec<String> = data_name_list(data);
    let ghost all = text_views(names@);
    let mut i: usize = 0;
    while i < names.len()
        invariant
            i <= names.len(),
            all == text_views(names@),
            all == bound_names(data_views(data@)),
            repeated_from(all, 0) == repeated_from(all, i as int),
        decreases names.len() - i,
    {
        assert(all[i as int] == names@[i as int]@);
        if has_text(&names, names[i].as_str(), i) {
            return Err(
                shape_mismatch(text::cat3("duplicate data value \"", names[i].as_str(), "\"")),
            );
        }
        i += 1;
    }
    Ok(())
}

/// Checks the data that a simulation declares: every declared input, no other, and the shapes
/// that the model wants.
pub fn bind_declared_data(meta: &ModelMeta, data: &Vec<(String, DataValue)>) -> (r: Result<(), Error>)
    requires
        all_filled(data_views(data@)),
    ensures
        checked(r) == declared_fault(meta@, data_views(data@)),
{
    check_repeated(data)?;
    let names: Vec<String> = data_name_list(data);
    let expected: Vec<String> = declared_name_list(meta);
    let missing: Vec<String> = sort_texts(&keep_unknown(&expected, &names));
    assert(text_views(missing@).len() == missing.len());
    if missing.len() > 0 {
        let shown: String = show_names(&missing);
        return Err(
            shape_mismatch(
                text::cat3(
                    "missing model data: ",
                    shown.as_str(),
                    "; prior-predictive needs every declared data input",
                ),
            ),
        );
    }
    let extra: Vec<String> = sort_texts(&keep_unknown(&names, &expected));
    assert(text_views(extra@).len() == extra.len());
    if extra.len() > 0 {
        let shown: String = show_names(&extra);
        return Err(
            shape_mismatch(
                text::cat3(
                    "unexpected prior-predictive data: ",
                    shown.as_str(),
                    "; pass declared inputs only, not observed values to simulate",
                ),
            ),
        );
    }
    proof {
        let m = meta@;
        assert forall|i: int| 0 <= i < m.data.len() implies data_named(
            data_views(data@),
            (#[trigger] m.data[i]).0,
        ) is Some by {
            assert(declared_names(m)[i] == m.data[i].0);
            lemma_none_missing(declared_names(m), data_views(data@), m.data[i].0);
        }
    }
    check_schemas(meta, data)
}

/// The shape and the constraint of a free value.
#[derive(Debug)]
pub struct FreeSpec {
    pub shape: Vec<usize>,
    pub constraint: Option<ResolvedConstraint>,
}

/// The mathematical content of a [`FreeSpec`].
#[verifier::ext_equal]
pub struct FreeSpecModel {
    pub shape: Seq<usize>,
    pub constraint: Option<ResolvedModel>,
}

impl View for FreeSpec {
    type V = FreeSpecModel;

    open spec fn view(&self) -> FreeSpecModel {
        FreeSpecModel { shape: self.shape@, constraint: optional_resolved(self.constraint) }
    }
}

/// The shapes of the first `n` free values.
pub open spec fn free_shapes(
    free: Seq<(Seq<char>, FreeModel)>,
    data: Seq<(Seq<char>, DataModel)>,
    n: nat,
) -> Result<Seq<Seq<usize>>, Fault>
    decreases n,
{
    if n == 0 {
        Ok(Seq::empty())
    } else {
        match free_shapes(free, data, (n - 1) as nat) {
            Err(fault) => Err(fault),
            Ok(before) => match free_shape(free[n - 1].0, free[n - 1].1.size, data) {
                Err(fault) => Err(fault),
                Ok(shape) => Ok(before.push(shape)),
            },
        }
    }
}

proof fn lemma_shapes_fail(
    free: Seq<(Seq<char>, FreeModel)>,
    data: Seq<(Seq<char>, DataModel)>,
    m: nat,
    n: nat,
)
    requires
        m <= n,
        free_shapes(free, data, m) is Err,
    ensures
        free_shapes(free, data, n) == free_shapes(free, data, m),
    decreases n - m,
{
    if m < n {
        lemma_shapes_fail(free, data, m, (n - 1) as nat);
    }
}

proof fn lemma_shapes_len(
    free: Seq<(Seq<char>, FreeModel)>,
    data: Seq<(Seq<char>, DataModel)>,
    n: nat,
)
    requires
        free_shapes(free, data, n) is Ok,
    ensures
        free_shapes(free, data, n)->Ok_0.len() == n,
    decreases n,
{
    if n > 0 {
        lemma_shapes_len(free, data, (n - 1) as nat);
    }
}

/// The views of shapes.
pub open spec fn shape_views(shapes: Seq<Vec<usize>>) -> Seq<Seq<usize>> {
    shapes.map_values(|s: Vec<usize>| s@)
}

/// The view of a result that carries shapes.
pub open spec fn shapes_outcome(r: Result<Vec<Vec<usize>>, Error>) -> Result<Seq<Seq<usize>>, Fault> {
    match r {
        Ok(shapes) => Ok(shape_views(shapes@)),
        Err(error) => Err(error@),
    }
}

fn shape_free_values(free: &Vec<(String, ResolvedFreeValue)>, data: &Vec<(String, DataValue)>) -> (r:
    Result<Vec<Vec<usize>>, Error>)
    requires
        all_filled(data_views(data@)),
    ensures
        shapes_outcome(r) == free_shapes(named_views(free@), data_views(data@), free@.len()),
{
    let ghost values = named_views(free@);
    let ghost all = data_views(data@);
    let ghost count = free@.len();
    let mut out: Vec<Vec<usize>> = Vec::new();
    assert(shape_views(out@) =~= Seq::empty());
    let mut i: usize = 0;
    while i < free.len()
        invariant
            i <= free.len(),
            count == free@.len(),
            values == named_views(free@),
            all == data_views(data@),
            all_filled(all),
            free_shapes(values, all, i as nat) == Ok::<Seq<Seq<usize>>, Fault>(shape_views(out@)),
        decreases free.len() - i,
    {
        assert(values[i as int] == (free@[i as int].0@, free@[i as int].1@));
        match free_value_shape(free[i].0.as_str(), &free[i].1.size, data) {
            Err(error) => {
                proof {
                    lemma_shapes_fail(values, all, (i + 1) as nat, count);
                }
                return Err(error);
            },
            Ok(shape) => {
                let ghost before = out@;
                let ghost content = shape@;
                out.push(shape);
                assert(shape_views(out@) =~= shape_views(before).push(content));
            },
        }
        i += 1;
    }
    Ok(out)
}

/// Named specs with one more behind them.
pub open spec fn spec_extended(
    before: Seq<(Seq<char>, FreeSpecModel)>,
    name: Seq<char>,
    shape: Seq<usize>,
    item: Result<Option<ResolvedModel>, Fault>,
    out: Result<Seq<(Seq<char>, FreeSpecModel)>, Fault>,
) -> bool {
    out == (match item {
        Err(fault) => Err::<Seq<(Seq<char>, FreeSpecModel)>, Fault>(fault),
        Ok(constraint) => Ok(before.push((name, FreeSpecModel { shape, constraint }))),
    })
}

/// Whether resolving the constraints of the first `n` free values can come to that.
pub open spec fn specs_resolved<A: Arithmetic>(
    ops: &A,
    sites: Seq<SiteModel>,
    data: Seq<(Seq<char>, DataModel)>,
    free: Seq<(Seq<char>, FreeModel)>,
    shapes: Seq<Seq<usize>>,
    n: nat,
    out: Result<Seq<(Seq<char>, FreeSpecModel)>, Fault>,
) -> bool
    decreases n,
{
    if n == 0 {
        out == Ok::<Seq<(Seq<char>, FreeSpecModel)>, Fault>(Seq::empty())
    } else {
        ||| out is Err && specs_resolved(
            ops,
            sites,
            data,
            free,
            shapes,
            (n - 1) as nat,
            out,
        )
        ||| exists|
            before: Seq<(Seq<char>, FreeSpecModel)>,
            item: Result<Option<ResolvedModel>, Fault>,
        | #[trigger]
            spec_extended(before, free[n - 1].0, shapes[n - 1], item, out) && specs_resolved(
                ops,
                sites,
                data,
                free,
                shapes,
                (n - 1) as nat,
                Ok(before),
            ) && resolves(
                ops,
                sites,
                data,
                free[n - 1].1.constraint,
                free[n - 1].0,
                shapes[n - 1],
                item,
            )
    }
}

/// Whether the layout of the free values can come to that: all shapes first, then all
/// constraints.
pub open spec fn specs_laid<A: Arithmetic>(
    ops: &A,
    m: MetaModel,
    data: Seq<(Seq<char>, DataModel)>,
    out: Result<Seq<(Seq<char>, FreeSpecModel)>, Fault>,
) -> bool {
    let free = resolved_free(m);
    match free_shapes(free, data, free.len()) {
        Err(fault) => out == Err::<Seq<(Seq<char>, FreeSpecModel)>, Fault>(fault),
        Ok(shapes) => specs_resolved(
            ops,
            resolved_sites(m),
            data,
            free,
            shapes,
            free.len(),
            out,
        ),
    }
}

proof fn lemma_specs_fail<A: Arithmetic>(
    ops: &A,
    sites: Seq<SiteModel>,
    data: Seq<(Seq<char>, DataModel)>,
    free: Seq<(Seq<char>, FreeModel)>,
    shapes: Seq<Seq<usize>>,
    m: nat,
    n: nat,
    fault: Fault,
)
    requires
        m <= n,
        specs_resolved(ops, sites, data, free, shapes, m, Err(fault)),
    ensures
        specs_resolved(ops, sites, data, free, shapes, n, Err(fault)),
    decreases n - m,
{
    if m < n {
        lemma_specs_fail(ops, sites, data, free, shapes, m, (n - 1) as nat, fault);
    }
}

proof fn lemma_spec_step<A: Arithmetic>(
    ops: &A,
    sites: Seq<SiteModel>,
    data: Seq<(Seq<char>, DataModel)>,
    free: Seq<(Seq<char>, FreeModel)>,
    shapes: Seq<Seq<usize>>,
    n: nat,
    before: Seq<(Seq<char>, FreeSpecModel)>,
    item: Result<Option<ResolvedModel>, Fault>,
    out: Result<Seq<(Seq<char>, FreeSpecModel)>, Fault>,
)
    requires
        n > 0,
        spec_extended(before, free[n - 1].0, shapes[n - 1], item, out),
        specs_resolved(ops, sites, data, free, shapes, (n - 1) as nat, Ok(before)),
        resolves(
            ops,
            sites,
            data,
            free[n - 1].1.constraint,
            free[n - 1].0,
            shapes[n - 1],
            item,
        ),
    ensures
        specs_resolved(ops, sites, data, free, shapes, n, out),
{
}

/// The view of laid-out free values.
pub open spec fn specs_outcome(r: Result<Vec<(String, FreeSpec)>, Error>) -> Result<
    Seq<(Seq<char>, FreeSpecModel)>,
    Fault,
> {
    match r {
        Ok(specs) => Ok(named_views(specs@)),
        Err(error) => Err(error@),
    }
}

/// The bounds of a free value have an entry for each of its cells.
pub open spec fn covered(spec: FreeSpecModel) -> bool {
    bounds_cover(spec.constraint, cells(spec.shape))
}

/// Whether the bounds of all free values have an entry for each cell.
pub open spec fn all_covered(specs: Seq<(Seq<char>, FreeSpecModel)>) -> bool {
    forall|i: int| 0 <= i < specs.len() ==> covered((#[trigger] specs[i]).1)
}

/// The shape and the resolved constraint of every free value.
pub fn free_specs<A: Arithmetic>(ops: &A, meta: &ModelMeta, data: &Vec<(String, DataValue)>) -> (r: Result<
    Vec<(String, FreeSpec)>,
    Error,
>)
    requires
        ops.reliable(),
        all_filled(data_views(data@)),
    ensures
        specs_laid(ops, meta@, data_views(data@), specs_outcome(r)),
        r is Ok ==> all_covered(named_views(r->Ok_0@)),
{
    let sites: Vec<ResolvedStochasticSite> = meta.resolved_stochastic_sites();
    let values: Vec<(String, ResolvedFreeValue)> = meta.resolved_free_values();
    let ghost all = data_views(data@);
    let ghost places = list_views(sites@);
    let ghost free = named_views(values@);
    let shapes: Vec<Vec<usize>> = shape_free_values(&values, data)?;
    let ghost sizes = shape_views(shapes@);
    let ghost count = values@.len();
    proof {
        lemma_shapes_len(free, all, count);
        assert(sizes.len() == shapes@.len());
    }
    let mut out: Vec<(String, FreeSpec)> = Vec::new();
    assert(named_views(out@) =~= Seq::empty());
    let mut i: usize = 0;
    while i < values.len()
        invariant
            i <= values.len(),
            count == values@.len(),
            shapes.len() == count,
            ops.reliable(),
            all == data_views(data@),
            all_filled(all),
            places == list_views(sites@),
            places == resolved_sites(meta@),
            free == named_views(values@),
            free == resolved_free(meta@),
            free.len() == count,
            free_shapes(free, all, count) == Ok::<Seq<Seq<usize>>, Fault>(sizes),
            sizes == shape_views(shapes@),
            specs_resolved(ops, places, all, free, sizes, i as nat, Ok(named_views(out@))),
            all_covered(named_views(out@)),
        decreases values.len() - i,
    {
        let ghost n = (i + 1) as nat;
        proof {
            assert(free[n - 1] == (values@[i as int].0@, values@[i as int].1@));
            assert(sizes[n - 1] == shapes@[i as int]@);
        }
        let item: Result<Option<ResolvedConstraint>, Error> = resolve_free(
            values[i].0.as_str(),
            &shapes[i],
            &values[i].1.constraint,
            &sites,
            data,
            ops,
        );
        let ghost before = named_views(out@);
        match item {
            Err(error) => {
                proof {
                    lemma_spec_step(ops, places, all, free, sizes, n, before, Err(error@), Err(error@));
                    lemma_specs_fail(ops, places, all, free, sizes, n, count, error@);
                }
                return Err(error);
            },
            Ok(constraint) => {
                let ghost kept = optional_resolved(constraint);
                let spec: FreeSpec = FreeSpec { shape: copy_shape(&shapes[i]), constraint };
                out.push((values[i].0.clone(), spec));
                proof {
                    assert(named_views(out@) =~= before.push((free[n - 1].0, spec@)));
                    lemma_spec_step(
                        ops,
                        places,
                        all,
                        free,
                        sizes,
                        n,
                        before,
                        Ok(kept),
                        Ok(named_views(out@)),
                    );
                }
            },
        }
        i += 1;
    }
    Ok(out)
}

/// The layout of a free value.
pub fn find_spec<'a>(specs: &'a Vec<(String, FreeSpec)>, name: &str) -> (r: Option<&'a FreeSpec>)
    ensures
        match r {
            Some(spec) => last_named(named_views(specs@), name@) == Some(spec@),
            None => last_named(named_views(specs@), name@) is None,
        },
{
    let ghost all = named_views(specs@);
    let mut i: usize = specs.len();
    assert(all.take(i as int) =~= all);
    while i > 0
        invariant
            i <= specs.len(),
            all == named_views(specs@),
            last_named(all, name@) == last_named(all.take(i as int), name@),
        decreases i,
    {
        i -= 1;
        proof {
            let done = all.take(i + 1);
            assert(done.last() == (specs@[i as int].0@, specs@[i as int].1@));
            assert(done.drop_last() =~= all.take(i as int));
        }
        if text::same(specs[i].0.as_str(), name) {
            return Some(&specs[i].1);
        }
    }
    None
}

} // verus!
