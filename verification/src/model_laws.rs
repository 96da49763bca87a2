//! What bound models are: data that fit their declarations, free values of their sizes, and cells
//! in row-major order.

use vstd::prelude::*;

#[allow(unused_imports)]
use crate::artifact::{cells, coordinate};
#[allow(unused_imports)]
use crate::data::DataModel;
#[allow(unused_imports)]
use crate::error::Fault;
#[allow(unused_imports)]
use crate::ir::{
    resolved_free, resolved_sites, DimModel, ExprModel, FreeModel, MetaModel, SchemaModel, SizeModel,
};
#[allow(unused_imports)]
use crate::model::{
    axes_fault, binding_fault, bound_names, data_named, dim_length, expected_names, repeated_from, schema_fault,
    schemas_fault, slots_upto, unknown_names, SlotModel,
};
#[allow(unused_imports)]
use crate::number::{clamped, integer_value, integral};
#[allow(unused_imports)]
use crate::order::{law_arranging_sorts, law_text_order_is_total, text_order};

verus! {

/// Whether an axis has the length that was declared: a fixed one, or the scalar integer bound to a
/// name.
pub open spec fn axis_fits(
    dim: DimModel,
    length: usize,
    data: Seq<(Seq<char>, DataModel)>,
) -> bool {
    match dim {
        DimModel::Fixed(n) => length as i64 == n,
        DimModel::DataDim(name) => data_named(data, name) matches Some(value)
            && value.shape.len() == 0 && value.integer && integral(value.values[0].bits) && length
            as i64 == clamped(integer_value(value.values[0].bits)),
    }
}

/// Whether a shape is one that was declared.
pub open spec fn shape_fits(
    schema: SchemaModel,
    shape: Seq<usize>,
    data: Seq<(Seq<char>, DataModel)>,
) -> bool {
    match schema {
        SchemaModel::Rank(rank) => shape.len() as i64 == rank,
        SchemaModel::Shape(dims) => shape.len() == dims.len() && forall|k: int|
            0 <= k < dims.len() ==> axis_fits(#[trigger] dims[k], shape[k], data),
    }
}

proof fn lemma_axes_fit(
    name: Seq<char>,
    dims: Seq<DimModel>,
    shape: Seq<usize>,
    data: Seq<(Seq<char>, DataModel)>,
    axis: int,
)
    requires
        0 <= axis <= dims.len(),
    ensures
        axes_fault(name, dims, shape, data, axis) is None <==> forall|k: int|
            axis <= k < dims.len() ==> axis_fits(#[trigger] dims[k], shape[k], data),
    decreases dims.len() - axis,
{
    if axis < dims.len() {
        lemma_axes_fit(name, dims, shape, data, axis + 1);
        assert(axis_fits(dims[axis], shape[axis], data) <==> (dim_length(dims[axis], data) matches Ok(
            n,
        ) && shape[axis] as i64 == n));
        if axes_fault(name, dims, shape, data, axis) is None {
            assert forall|k: int| axis <= k < dims.len() implies axis_fits(
                #[trigger] dims[k],
                shape[k],
                data,
            ) by {}
        }
    }
}

proof fn lemma_schemas_fit(
    declared: Seq<(Seq<char>, SchemaModel)>,
    data: Seq<(Seq<char>, DataModel)>,
    i: int,
)
    requires
        0 <= i <= declared.len(),
    ensures
        schemas_fault(declared, data, i) is None <==> forall|k: int|
            i <= k < declared.len() ==> shape_fits(
                (#[trigger] declared[k]).1,
                data_named(data, declared[k].0)->0.shape,
                data,
            ),
    decreases declared.len() - i,
{
    if i < declared.len() {
        lemma_schemas_fit(declared, data, i + 1);
        let shape = data_named(data, declared[i].0)->0.shape;
        if let SchemaModel::Shape(dims) = declared[i].1 {
            lemma_axes_fit(declared[i].0, dims, shape, data, 0);
        }
        assert(schema_fault(declared[i].0, declared[i].1, shape, data) is None <==> shape_fits(
            declared[i].1,
            shape,
            data,
        ));
        if schemas_fault(declared, data, i) is None {
            assert forall|k: int| i <= k < declared.len() implies shape_fits(
                (#[trigger] declared[k]).1,
                data_named(data, declared[k].0)->0.shape,
                data,
            ) by {}
        }
    }
}

proof fn lemma_repeated(names: Seq<Seq<char>>, from: int)
    requires
        0 <= from <= names.len(),
    ensures
        repeated_from(names, from) is None <==> forall|i: int, j: int|
            #![trigger names[i], names[j]]
            0 <= i < j < names.len() && from <= j ==> names[i] != names[j],
    decreases names.len() - from,
{
    if from < names.len() {
        lemma_repeated(names, from + 1);
        if names.take(from).contains(names[from]) {
            let i = choose|i: int| 0 <= i < from && names.take(from)[i] == names[from];
            assert(names[i] == names[from]);
        } else {
            assert forall|i: int| 0 <= i < from implies #[trigger] names[i] != names[from] by {
                assert(names.take(from)[i] == names[i]);
                assert(names.take(from).contains(names.take(from)[i]));
            }
        }
    }
}

proof fn lemma_unknown(names: Seq<Seq<char>>, known: Seq<Seq<char>>)
    ensures
        unknown_names(names, known).len() == 0 <==> forall|i: int|
            0 <= i < names.len() ==> known.contains(#[trigger] names[i]),
    decreases names.len(),
{
    if names.len() > 0 {
        let before = names.drop_last();
        lemma_unknown(before, known);
        assert(names[names.len() - 1] == names.last());
        if forall|i: int| 0 <= i < names.len() ==> known.contains(#[trigger] names[i]) {
            assert forall|i: int| 0 <= i < before.len() implies known.contains(
                #[trigger] before[i],
            ) by {
                assert(before[i] == names[i]);
            }
        }
        if unknown_names(names, known).len() == 0 {
            assert forall|i: int| 0 <= i < names.len() implies known.contains(
                #[trigger] names[i],
            ) by {
                if i < before.len() {
                    assert(before[i] == names[i]);
                }
            }
        }
    }
}

/// Data can be bound to a model exactly where every name is bound once, the names bound are those
/// declared and observed, and every declared value has its declared shape.
pub proof fn law_bound_data_are_those_declared(m: MetaModel, data: Seq<(Seq<char>, DataModel)>)
    requires
        crate::depth::all_shallow(crate::depth::meta_exprs(m)),
    ensures
        binding_fault(m, data) is None <==> ({
            let (names, wanted) = (bound_names(data), expected_names(m));
            &&& forall|i: int, j: int|
                #![trigger names[i], names[j]]
                0 <= i < j < names.len() ==> names[i] != names[j]
            &&& forall|i: int| 0 <= i < wanted.len() ==> names.contains(#[trigger] wanted[i])
            &&& forall|i: int| 0 <= i < names.len() ==> wanted.contains(#[trigger] names[i])
            &&& forall|k: int|
                0 <= k < m.data.len() ==> shape_fits(
                    (#[trigger] m.data[k]).1,
                    data_named(data, m.data[k].0)->0.shape,
                    data,
                )
        }),
{
    let (names, wanted) = (bound_names(data), expected_names(m));
    lemma_repeated(names, 0);
    lemma_unknown(wanted, names);
    lemma_unknown(names, wanted);
    lemma_schemas_fit(m.data, data, 0);
    law_text_order_is_total();
    law_arranging_sorts(unknown_names(wanted, names), text_order());
    law_arranging_sorts(unknown_names(names, wanted), text_order());
}

/// Whether a shape is that of a size: none for a scalar, and else one axis of that length.
pub open spec fn sized_as(
    size: SizeModel,
    data: Seq<(Seq<char>, DataModel)>,
    shape: Seq<usize>,
) -> bool {
    match size {
        SizeModel::Scalar => shape.len() == 0,
        SizeModel::Fixed(k) => k >= 1 && shape == seq![k as usize],
        SizeModel::Data(name) => data_named(data, name) matches Some(value) && value.shape.len()
            == 0 && integral(value.values[0].bits) && clamped(
            integer_value(value.values[0].bits),
        ) >= 1 && shape == seq![clamped(integer_value(value.values[0].bits)) as usize],
    }
}

/// Every free value gets a slot under its name, of the shape that its size asks for, with one
/// coordinate for every entry.
pub proof fn law_slots_have_room_for_their_values(
    free: Seq<(Seq<char>, FreeModel)>,
    data: Seq<(Seq<char>, DataModel)>,
    n: nat,
    slots: Seq<SlotModel>,
)
    requires
        n <= free.len(),
        slots_upto(free, data, n) == Ok::<Seq<SlotModel>, Fault>(slots),
    ensures
        slots.len() == n,
        forall|i: int|
            0 <= i < n ==> (#[trigger] slots[i]).name == free[i].0 && sized_as(
                free[i].1.size,
                data,
                slots[i].shape,
            ) && (slots[i].shape.len() == 0 ==> slots[i].size == 1) && (slots[i].shape.len() == 1
                && slots[i].shape[0] >= 1 ==> slots[i].size == slots[i].shape[0]),
    decreases n,
{
    if n > 0 {
        let before = slots_upto(free, data, (n - 1) as nat)->Ok_0;
        law_slots_have_room_for_their_values(free, data, (n - 1) as nat, before);
        assert forall|i: int| 0 <= i < n implies (#[trigger] slots[i]).name == free[i].0
            && sized_as(free[i].1.size, data, slots[i].shape) && (slots[i].shape.len() == 0
            ==> slots[i].size == 1) && (slots[i].shape.len() == 1 && slots[i].shape[0] >= 1
            ==> slots[i].size == slots[i].shape[0]) by {
            if i < n - 1 {
                assert(slots[i] == before[i]);
            } else {
                let shape = slots[i].shape;
                if shape.len() == 1 {
                    lemma_cells_of_one_axis(shape);
                }
            }
        }
    }
}

proof fn lemma_cells_of_one_axis(shape: Seq<usize>)
    requires
        shape.len() == 1,
    ensures
        cells(shape) == shape[0],
{
    assert(shape.drop_last() =~= Seq::empty());
    reveal_with_fuel(cells, 2);
    let n = shape[0] as nat;
    assert(1 * n == n) by (nonlinear_arith);
}

/// The cells of a shape are as many as those of its leading axes times those of the others.
pub proof fn law_cells_multiply(a: Seq<usize>, b: Seq<usize>)
    ensures
        cells(a + b) == cells(a) * cells(b),
        b.len() == 0 ==> cells(b) == 1,
        b.len() == 1 ==> cells(b) == b[0],
    decreases b.len(),
{
    if b.len() == 0 {
        assert(a + b =~= a);
        let x = cells(a);
        assert(x * 1 == x) by (nonlinear_arith);
    } else {
        assert((a + b).drop_last() =~= a + b.drop_last());
        law_cells_multiply(a, b.drop_last());
        let (x, y, z) = (cells(a), cells(b.drop_last()), b.last() as nat);
        assert(x * y * z == x * (y * z)) by (nonlinear_arith);
        if b.len() == 1 {
            lemma_cells_of_one_axis(b);
        }
    }
}

/// The number of a cell in row-major order, by its coordinate.
pub open spec fn cell_number(shape: Seq<usize>, at: Seq<usize>) -> nat
    decreases shape.len(),
{
    if shape.len() == 0 {
        0
    } else {
        cell_number(shape.drop_last(), at.drop_last()) * shape.last() as nat + at.last() as nat
    }
}

/// The coordinate of a cell lies within its shape and gives back the number of the cell: the last
/// axis runs fastest.
pub proof fn law_coordinate_gives_back_its_cell(shape: Seq<usize>, flat: nat)
    requires
        !shape.contains(0),
        flat < cells(shape),
    ensures
        coordinate(shape, flat).len() == shape.len(),
        forall|k: int| 0 <= k < shape.len() ==> #[trigger] coordinate(shape, flat)[k] < shape[k],
        cell_number(shape, coordinate(shape, flat)) == flat,
    decreases shape.len(),
{
    if shape.len() > 0 {
        let n = shape.last() as nat;
        assert(n > 0) by {
            assert(shape[shape.len() - 1] == shape.last());
            assert(shape.contains(shape.last()));
        }
        let lead = shape.drop_last();
        assert(!lead.contains(0)) by {
            if lead.contains(0) {
                let i = choose|i: int| 0 <= i < lead.len() && lead[i] == 0;
                assert(shape[i] == 0);
            }
        }
        let q = flat / n;
        let r = flat % n;
        vstd::arithmetic::div_mod::lemma_fundamental_div_mod(flat as int, n as int);
        vstd::arithmetic::div_mod::lemma_mod_bound(flat as int, n as int);
        assert(q < cells(lead)) by (nonlinear_arith)
            requires
                flat == n * q + r,
                0 <= r,
                flat < cells(lead) * n,
                n > 0,
        ;
        law_coordinate_gives_back_its_cell(lead, q);
        let at = coordinate(shape, flat);
        assert(at.drop_last() =~= coordinate(lead, q));
        assert(r <= usize::MAX);
        assert(at.last() == r);
        assert(q * n == n * q) by (nonlinear_arith);
        assert forall|k: int| 0 <= k < shape.len() implies #[trigger] at[k] < shape[k] by {
            if k < lead.len() {
                assert(at[k] == coordinate(lead, q)[k]);
                assert(lead[k] == shape[k]);
            }
        }
    }
}

/// A model without explicit sites has one for every parameter, which draws its free value, and
/// behind them one for every observed node, which scores its data; without explicit free values
/// every parameter is one. Explicit ones stand for themselves.
pub proof fn law_declarations_stand_for_sites(m: MetaModel)
    ensures
        m.stochastic_sites.len() > 0 ==> resolved_sites(m) == m.stochastic_sites,
        m.stochastic_sites.len() == 0 ==> resolved_sites(m).len() == m.params.len()
            + m.observed_nodes.len(),
        m.stochastic_sites.len() == 0 ==> forall|i: int|
            0 <= i < m.params.len() ==> (#[trigger] resolved_sites(m)[i]).name == m.params[i].0
                && resolved_sites(m)[i].distribution == m.params[i].1.distribution
                && resolved_sites(m)[i].value == ExprModel::Param(m.params[i].0),
        m.stochastic_sites.len() == 0 ==> forall|i: int|
            0 <= i < m.observed_nodes.len() ==> ({
                let site = resolved_sites(m)[m.params.len() + i];
                &&& site.name == (#[trigger] m.observed_nodes[i]).name
                &&& site.distribution == m.observed_nodes[i].distribution
                &&& site.value == ExprModel::Data(m.observed_nodes[i].name)
            }),
        m.free_values.len() > 0 ==> resolved_free(m) == m.free_values,
        m.free_values.len() == 0 ==> resolved_free(m).len() == m.params.len() && forall|i: int|
            0 <= i < m.params.len() ==> (#[trigger] resolved_free(m)[i]).0 == m.params[i].0
                && resolved_free(m)[i].1.constraint == m.params[i].1.constraint
                && resolved_free(m)[i].1.size == m.params[i].1.size,
{
}

} // verus!
