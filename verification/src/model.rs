//! Models bound to data: names, shapes, and the packing of free values into one vector.

use vstd::prelude::*;

#[allow(unused_imports)]
use crate::artifact::cells;
use crate::data::{count_cells, DataValue};
#[allow(unused_imports)]
use crate::data::{data_views, filled, DataModel};
use crate::depth::check_meta_expr_depth;
#[allow(unused_imports)]
use crate::depth::{all_shallow, meta_exprs};
use crate::error::{shape_mismatch, Error};
#[allow(unused_imports)]
use crate::error::{shape_fault, Fault};
use crate::ir::{DataSchema, Dim, ModelMeta, ResolvedFreeValue, Size};
#[allow(unused_imports)]
use crate::ir::{
    list_views, named_views, resolved_free, too_deep_fault, DimModel, FreeModel, MetaModel, ObservedModel,
    SchemaModel, SizeModel,
};
use crate::number::whole_number;
#[allow(unused_imports)]
use crate::number::{clamped, integer_value, integral};
use crate::order::sort_texts;
#[allow(unused_imports)]
use crate::order::sorted_texts;
use crate::text;
#[allow(unused_imports)]
use crate::text::{debug_text, decimal_text, integer_text, joined, numbers_text, text_views};

pub use crate::data::{data_from_json, data_to_json, DATA_DOCUMENT_FORMAT};

verus! {

/// One byte mixed into a hash.
pub open spec fn fnv_step(hash: u64, byte: u8) -> u64 {
    (hash ^ (byte as u64)).wrapping_mul(0x100_0000_01b3)
}

/// The 64-bit FNV-1a hash.
pub open spec fn fnv1a64_of(bytes: Seq<u8>) -> u64
    decreases bytes.len(),
{
    if bytes.len() == 0 {
        0xcbf2_9ce4_8422_2325
    } else {
        fnv_step(fnv1a64_of(bytes.drop_last()), bytes.last())
    }
}

/// The 64-bit FNV-1a hash of bytes.
pub fn fnv1a64(bytes: &[u8]) -> (r: u64)
    ensures
        r == fnv1a64_of(bytes@),
{
    let mut hash: u64 = 0xcbf2_9ce4_8422_2325;
    let mut i: usize = 0;
    while i < bytes.len()
        invariant
            i <= bytes.len(),
            hash == fnv1a64_of(bytes@.take(i as int)),
        decreases bytes.len() - i,
    {
        proof {
            let done = bytes@.take(i + 1);
            assert(done.drop_last() =~= bytes@.take(i as int));
            assert(done.last() == bytes@[i as int]);
        }
        hash = (hash ^ (bytes[i] as u64)).wrapping_mul(0x100_0000_01b3);
        i += 1;
    }
    assert(bytes@.take(i as int) =~= bytes@);
    hash
}

/// The first value of that name at or behind position `i`.
pub open spec fn data_from(data: Seq<(Seq<char>, DataModel)>, name: Seq<char>, i: int) -> Option<DataModel>
    decreases data.len() - i,
{
    if i < 0 || i >= data.len() {
        None
    } else if data[i].0 == name {
        Some(data[i].1)
    } else {
        data_from(data, name, i + 1)
    }
}

/// The bound value of that name.
pub open spec fn data_named(data: Seq<(Seq<char>, DataModel)>, name: Seq<char>) -> Option<DataModel> {
    data_from(data, name, 0)
}

/// The names of bound values.
pub open spec fn bound_names(data: Seq<(Seq<char>, DataModel)>) -> Seq<Seq<char>> {
    data.map_values(|entry: (Seq<char>, DataModel)| entry.0)
}

/// A bound value of that name.
pub fn find_data<'a>(data: &'a Vec<(String, DataValue)>, name: &str) -> (r: Option<&'a DataValue>)
    ensures
        match r {
            Some(value) => data_named(data_views(data@), name@) == Some(value@) && (exists|i: int|
                0 <= i < data@.len() && #[trigger] data@[i].1 == *value),
            None => data_named(data_views(data@), name@) is None,
        },
{
    let ghost all = data_views(data@);
    let mut i: usize = 0;
    while i < data.len()
        invariant
            i <= data.len(),
            all == data_views(data@),
            data_named(all, name@) == data_from(all, name@, i as int),
        decreases data.len() - i,
    {
        assert(all[i as int] == (data@[i as int].0@, data@[i as int].1@));
        if text::same(data[i].0.as_str(), name) {
            assert(data@[i as int].1 == data[i as int].1);
            return Some(&data[i].1);
        }
        i += 1;
    }
    None
}

/// The first name that occurs a second time, from position `i` on.
pub open spec fn repeated_from(names: Seq<Seq<char>>, i: int) -> Option<Seq<char>>
    decreases names.len() - i,
{
    if i < 0 || i >= names.len() {
        None
    } else if names.take(i).contains(names[i]) {
        Some(names[i])
    } else {
        repeated_from(names, i + 1)
    }
}

/// The names that are not among the known ones, in order.
pub open spec fn unknown_names(names: Seq<Seq<char>>, known: Seq<Seq<char>>) -> Seq<Seq<char>>
    decreases names.len(),
{
    if names.len() == 0 {
        Seq::empty()
    } else if known.contains(names.last()) {
        unknown_names(names.drop_last(), known)
    } else {
        unknown_names(names.drop_last(), known).push(names.last())
    }
}

/// A list of names as `{:?}` writes it.
pub open spec fn names_text(names: Seq<Seq<char>>) -> Seq<char> {
    "["@ + joined(names.map_values(|name: Seq<char>| debug_text(name)), ", "@) + "]"@
}

pub fn show_names(names: &Vec<String>) -> (r: String)
    ensures
        r@ == names_text(text_views(names@)),
{
    let mut parts: Vec<String> = Vec::new();
    let mut i: usize = 0;
    while i < names.len()
        invariant
            i <= names.len(),
            parts.len() == i,
            forall|j: int| 0 <= j < i ==> (#[trigger] parts@[j])@ == debug_text(names@[j]@),
        decreases names.len() - i,
    {
        parts.push(text::quoted(names[i].as_str()));
        i += 1;
    }
    assert(text_views(parts@) =~= text_views(names@).map_values(
        |name: Seq<char>| debug_text(name),
    ));
    text::cat3("[", text::join(&parts, ", ").as_str(), "]")
}

pub fn has_text(list: &Vec<String>, name: &str, end: usize) -> (r: bool)
    requires
        end <= list.len(),
    ensures
        r == text_views(list@).take(end as int).contains(name@),
{
    let ghost all = text_views(list@);
    let mut i: usize = 0;
    while i < end
        invariant
            i <= end <= list.len(),
            all == text_views(list@),
            forall|j: int| 0 <= j < i ==> all[j] != name@,
        decreases end - i,
    {
        if text::same(list[i].as_str(), name) {
            assert(all.take(end as int)[i as int] == name@);
            return true;
        }
        i += 1;
    }
    assert forall|j: int| 0 <= j < all.take(end as int).len() implies all.take(end as int)[j]
        != name@ by {
        assert(all.take(end as int)[j] == all[j]);
    }
    false
}

pub fn keep_unknown(names: &Vec<String>, known: &Vec<String>) -> (r: Vec<String>)
    ensures
        text_views(r@) == unknown_names(text_views(names@), text_views(known@)),
{
    let ghost all = text_views(names@);
    let ghost there = text_views(known@);
    let mut out: Vec<String> = Vec::new();
    let mut i: usize = 0;
    assert(text_views(out@) =~= unknown_names(all.take(0), there));
    assert(there.take(there.len() as int) =~= there);
    while i < names.len()
        invariant
            i <= names.len(),
            all == text_views(names@),
            there == text_views(known@),
            there.take(there.len() as int) == there,
            text_views(out@) == unknown_names(all.take(i as int), there),
        decreases names.len() - i,
    {
        proof {
            let done = all.take(i + 1);
            assert(done.drop_last() =~= all.take(i as int));
            assert(done.last() == names@[i as int]@);
        }
        if !has_text(known, names[i].as_str(), known.len()) {
            let ghost before = out@;
            let name: String = names[i].clone();
            out.push(name);
            assert(text_views(out@) =~= text_views(before).push(name@));
        }
        i += 1;
    }
    assert(all.take(i as int) =~= all);
    out
}

pub fn data_name_list(data: &Vec<(String, DataValue)>) -> (r: Vec<String>)
    ensures
        text_views(r@) == bound_names(data_views(data@)),
{
    let mut out: Vec<String> = Vec::new();
    let mut i: usize = 0;
    while i < data.len()
        invariant
            i <= data.len(),
            out.len() == i,
            forall|j: int| 0 <= j < i ==> (#[trigger] out@[j])@ == data@[j].0@,
        decreases data.len() - i,
    {
        out.push(data[i].0.clone());
        i += 1;
    }
    assert(text_views(out@) =~= bound_names(data_views(data@)));
    out
}

/// The names that a model wants bound: declared data, then observed values.
pub open spec fn expected_names(m: MetaModel) -> Seq<Seq<char>> {
    m.data.map_values(|d: (Seq<char>, SchemaModel)| d.0) + m.observed_nodes.map_values(
        |o: ObservedModel| o.name,
    )
}

fn expected_name_list(meta: &ModelMeta) -> (r: Vec<String>)
    ensures
        text_views(r@) == expected_names(meta@),
{
    let mut out: Vec<String> = Vec::new();
    let mut i: usize = 0;
    while i < meta.data.len()
        invariant
            i <= meta.data.len(),
            out.len() == i,
            forall|j: int| 0 <= j < i ==> (#[trigger] out@[j])@ == meta.data@[j].0@,
        decreases meta.data.len() - i,
    {
        out.push(meta.data[i].0.clone());
        i += 1;
    }
    let ghost declared = out@;
    let mut k: usize = 0;
    while k < meta.observed_nodes.len()
        invariant
            k <= meta.observed_nodes.len(),
            declared.len() == meta.data.len(),
            out.len() == declared.len() + k,
            forall|j: int| 0 <= j < declared.len() ==> out@[j] == #[trigger] declared[j],
            forall|j: int|
                declared.len() <= j < declared.len() + k ==> (#[trigger] out@[j])@
                    == meta.observed_nodes@[j - declared.len()].name@,
        decreases meta.observed_nodes.len() - k,
    {
        out.push(meta.observed_nodes[k].name.clone());
        k += 1;
    }
    proof {
        let want = expected_names(meta@);
        assert forall|j: int| 0 <= j < want.len() implies text_views(out@)[j] == want[j] by {
            if j < declared.len() {
                assert(out@[j] == declared[j]);
            }
        }
        assert(text_views(out@) =~= want);
    }
    out
}

/// What is wrong with the names of bound data: one occurs twice, one is missing, or one is not
/// declared.
pub open spec fn name_fault(m: MetaModel, data: Seq<(Seq<char>, DataModel)>) -> Option<Fault> {
    let names = bound_names(data);
    let missing = sorted_texts(unknown_names(expected_names(m), names));
    let extra = sorted_texts(unknown_names(names, expected_names(m)));
    if repeated_from(names, 0) is Some {
        Some(shape_fault("duplicate data value \""@ + repeated_from(names, 0)->0 + "\""@))
    } else if missing.len() > 0 {
        Some(
            shape_fault(
                "missing model data: "@ + names_text(missing)
                    + "; bind every declared data and observed value"@,
            ),
        )
    } else if extra.len() > 0 {
        Some(
            shape_fault(
                "unexpected model data: "@ + names_text(extra)
                    + "; the model does not declare these names"@,
            ),
        )
    } else {
        None
    }
}

/// The failure of a check that says nothing on success.
pub open spec fn checked(r: Result<(), Error>) -> Option<Fault> {
    match r {
        Ok(_) => None,
        Err(error) => Some(error@),
    }
}

fn check_names(meta: &ModelMeta, data: &Vec<(String, DataValue)>) -> (r: Result<(), Error>)
    ensures
        checked(r) == name_fault(meta@, data_views(data@)),
{
    let names: Vec<String> = data_name_list(data);
    let ghost all = text_views(names@);
    let mut i: usize = 0;
    while i < names.len()
        invariant
            i <= names.len(),
            all == text_views(names@),
            all == bound_names(data_views(data@)),
            repeated_from(all, 0) == repeated_from(all, i as int),
        decreases names.len() - i,
    {
        assert(all[i as int] == names@[i as int]@);
        if has_text(&names, names[i].as_str(), i) {
            return Err(
                shape_mismatch(text::cat3("duplicate data value \"", names[i].as_str(), "\"")),
            );
        }
        i += 1;
    }
    let expected: Vec<String> = expected_name_list(meta);
    let missing: Vec<String> = sort_texts(&keep_unknown(&expected, &names));
    assert(text_views(missing@).len() == missing.len());
    if missing.len() > 0 {
        let shown: String = show_names(&missing);
        return Err(
            shape_mismatch(
                text::cat3(
                    "missing model data: ",
                    shown.as_str(),
                    "; bind every declared data and observed value",
                ),
            ),
        );
    }
    let extra: Vec<String> = sort_texts(&keep_unknown(&names, &expected));
    assert(text_views(extra@).len() == extra.len());
    if extra.len() > 0 {
        let shown: String = show_names(&extra);
        return Err(
            shape_mismatch(
                text::cat3(
                    "unexpected model data: ",
                    shown.as_str(),
                    "; the model does not declare these names",
                ),
            ),
        );
    }
    Ok(())
}

/// Every bound value is filled.
pub open spec fn all_filled(data: Seq<(Seq<char>, DataModel)>) -> bool {
    forall|i: int| 0 <= i < data.len() ==> filled((#[trigger] data[i]).1)
}

pub proof fn lemma_named_filled(data: Seq<(Seq<char>, DataModel)>, name: Seq<char>, i: int)
    requires
        0 <= i,
        all_filled(data),
        data_from(data, name, i) is Some,
    ensures
        filled(data_from(data, name, i)->0),
    decreases data.len() - i,
{
    if data[i].0 != name {
        lemma_named_filled(data, name, i + 1);
    } else {
        assert(filled(data[i].1));
    }
}

/// A bound integer that serves as a size or dimension.
pub open spec fn scalar_integer(data: Seq<(Seq<char>, DataModel)>, name: Seq<char>) -> Result<i64, Fault> {
    match data_named(data, name) {
        None => Err(shape_fault("data value \""@ + name + "\" is referenced but not bound"@)),
        Some(value) => if value.shape.len() > 0 {
            Err(
                shape_fault(
                    "data value \""@ + name
                        + "\" must be scalar to be used as a size or dimension"@,
                ),
            )
        } else if !value.integer || !integral(value.values[0].bits) {
            Err(
                shape_fault(
                    "data value \""@ + name
                        + "\" must be an integer to be used as a size or dimension"@,
                ),
            )
        } else {
            Ok(clamped(integer_value(value.values[0].bits)))
        },
    }
}

/// The view of a result that carries an integer.
pub open spec fn integer_outcome(r: Result<i64, Error>) -> Result<i64, Fault> {
    match r {
        Ok(n) => Ok(n),
        Err(error) => Err(error@),
    }
}

pub fn scalar_int_data(data: &Vec<(String, DataValue)>, name: &str) -> (r: Result<i64, Error>)
    requires
        all_filled(data_views(data@)),
    ensures
        integer_outcome(r) == scalar_integer(data_views(data@), name@),
{
    match find_data(data, name) {
        None => Err(
            shape_mismatch(text::cat3("data value \"", name, "\" is referenced but not bound")),
        ),
        Some(value) => {
            if value.shape.len() > 0 {
                return Err(
                    shape_mismatch(
                        text::cat3(
                            "data value \"",
                            name,
                            "\" must be scalar to be used as a size or dimension",
                        ),
                    ),
                );
            }
            proof {
                lemma_named_filled(data_views(data@), name@, 0);
                assert(value@.values.len() == 1);
                assert(value@.values[0] == value.values@[0]@);
            }
            if value.integer {
                if let Some(whole) = whole_number(value.values[0].bits) {
                    return Ok(whole.nearest);
                }
            }
            Err(
                shape_mismatch(
                    text::cat3(
                        "data value \"",
                        name,
                        "\" must be an integer to be used as a size or dimension",
                    ),
                ),
            )
        },
    }
}

/// The length that an axis must have.
pub open spec fn dim_length(dim: DimModel, data: Seq<(Seq<char>, DataModel)>) -> Result<i64, Fault> {
    match dim {
        DimModel::Fixed(d) => Ok(d),
        DimModel::DataDim(name) => scalar_integer(data, name),
    }
}

/// What is wrong with the axes of declared data, from one axis on.
pub open spec fn axes_fault(
    name: Seq<char>,
    dims: Seq<DimModel>,
    shape: Seq<usize>,
    data: Seq<(Seq<char>, DataModel)>,
    axis: int,
) -> Option<Fault>
    decreases dims.len() - axis,
{
    if axis < 0 || axis >= dims.len() {
        None
    } else {
        match dim_length(dims[axis], data) {
            Err(fault) => Some(fault),
            Ok(expected) => if shape[axis] as i64 != expected {
                Some(
                    shape_fault(
                        "data \""@ + name + "\" axis "@ + decimal_text(axis as nat)
                            + " must have length "@ + integer_text(expected as int) + ", got "@
                            + decimal_text(shape[axis] as nat),
                    ),
                )
            } else {
                axes_fault(name, dims, shape, data, axis + 1)
            },
        }
    }
}

pub open spec fn rank_fault(name: Seq<char>, rank: int, shape: Seq<usize>) -> Fault {
    shape_fault(
        "data \""@ + name + "\" must have rank "@ + integer_text(rank) + ", got shape "@
            + numbers_text(shape),
    )
}

/// What is wrong with one declared value.
pub open spec fn schema_fault(
    name: Seq<char>,
    schema: SchemaModel,
    shape: Seq<usize>,
    data: Seq<(Seq<char>, DataModel)>,
) -> Option<Fault> {
    match schema {
        SchemaModel::Rank(rank) => if shape.len() as i64 != rank {
            Some(rank_fault(name, rank as int, shape))
        } else {
            None
        },
        SchemaModel::Shape(dims) => if shape.len() != dims.len() {
            Some(rank_fault(name, dims.len() as int, shape))
        } else {
            axes_fault(name, dims, shape, data, 0)
        },
    }
}

/// What is wrong with the declared values, from position `i` on.
pub open spec fn schemas_fault(
    declared: Seq<(Seq<char>, SchemaModel)>,
    data: Seq<(Seq<char>, DataModel)>,
    i: int,
) -> Option<Fault>
    decreases declared.len() - i,
{
    if i < 0 || i >= declared.len() {
        None
    } else {
        match schema_fault(declared[i].0, declared[i].1, data_named(data, declared[i].0)->0.shape, data) {
            Some(fault) => Some(fault),
            None => schemas_fault(declared, data, i + 1),
        }
    }
}

fn check_schema(name: &str, schema: &DataSchema, value: &DataValue, data: &Vec<(String, DataValue)>) -> (r:
    Result<(), Error>)
    requires
        all_filled(data_views(data@)),
    ensures
        checked(r) == schema_fault(name@, schema@, value@.shape, data_views(data@)),
{
    let ghost all = data_views(data@);
    match schema {
        DataSchema::Rank(rank) => {
            if value.shape.len() as i64 != *rank {
                let shown: String = text::numbers(value.shape.as_slice());
                let wanted: String = text::integer(*rank);
                return Err(
                    shape_mismatch(
                        text::cat6(
                            "data \"",
                            name,
                            "\" must have rank ",
                            wanted.as_str(),
                            ", got shape ",
                            shown.as_str(),
                        ),
                    ),
                );
            }
            Ok(())
        },
        DataSchema::Shape(dims) => {
            let ghost axes = dims@.map_values(|d: Dim| d@);
            if value.shape.len() != dims.len() {
                let shown: String = text::numbers(value.shape.as_slice());
                let wanted: String = text::decimal(dims.len() as u64);
                return Err(
                    shape_mismatch(
                        text::cat6(
                            "data \"",
                            name,
                            "\" must have rank ",
                            wanted.as_str(),
                            ", got shape ",
                            shown.as_str(),
                        ),
                    ),
                );
            }
            let mut axis: usize = 0;
            while axis < dims.len()
                invariant
                    axis <= dims.len(),
                    value.shape.len() == dims.len(),
                    all == data_views(data@),
                    all_filled(all),
                    axes == dims@.map_values(|d: Dim| d@),
                    schema@ == SchemaModel::Shape(axes),
                    axes_fault(name@, axes, value.shape@, all, 0) == axes_fault(
                        name@,
                        axes,
                        value.shape@,
                        all,
                        axis as int,
                    ),
                decreases dims.len() - axis,
            {
                assert(axes[axis as int] == dims@[axis as int]@);
                let expected: i64 = match &dims[axis] {
                    Dim::Fixed(d) => *d,
                    Dim::DataDim(reference) => scalar_int_data(data, reference.as_str())?,
                };
                if value.shape[axis] as i64 != expected {
                    let place: String = text::decimal(axis as u64);
                    let wanted: String = text::integer(expected);
                    let have: String = text::decimal(value.shape[axis] as u64);
                    let head: String = text::cat4("data \"", name, "\" axis ", place.as_str());
                    return Err(
                        shape_mismatch(
                            text::cat5(
                                head.as_str(),
                                " must have length ",
                                wanted.as_str(),
                                ", got ",
                                have.as_str(),
                            ),
                        ),
                    );
                }
                axis += 1;
            }
            Ok(())
        },
    }
}

/// A name is bound once none of the wanted names is missing.
pub proof fn lemma_none_missing(
    wanted: Seq<Seq<char>>,
    data: Seq<(Seq<char>, DataModel)>,
    name: Seq<char>,
)
    requires
        sorted_texts(unknown_names(wanted, bound_names(data))).len() == 0,
        wanted.contains(name),
    ensures
        data_named(data, name) is Some,
{
    let names = bound_names(data);
    let missing = unknown_names(wanted, names);
    crate::order::law_text_order_is_total();
    crate::order::law_arranging_sorts(missing, crate::order::text_order());
    assert(missing.len() == 0);
    lemma_none_unknown(wanted, names, name);
    let k = choose|k: int| 0 <= k < names.len() && names[k] == name;
    lemma_data_found(data, name, 0, k);
}

proof fn lemma_none_unknown(names: Seq<Seq<char>>, known: Seq<Seq<char>>, name: Seq<char>)
    requires
        unknown_names(names, known).len() == 0,
        names.contains(name),
    ensures
        known.contains(name),
    decreases names.len(),
{
    let i = choose|i: int| 0 <= i < names.len() && names[i] == name;
    if i < names.len() - 1 {
        assert(names.drop_last()[i] == name);
        lemma_none_unknown(names.drop_last(), known, name);
    }
}

proof fn lemma_data_found(data: Seq<(Seq<char>, DataModel)>, name: Seq<char>, i: int, k: int)
    requires
        0 <= i <= k < data.len(),
        data[k].0 == name,
    ensures
        data_from(data, name, i) is Some,
    decreases k - i,
{
    if data[i].0 != name {
        lemma_data_found(data, name, i + 1, k);
    }
}

/// What is wrong with the data that a model is bound to.
pub open spec fn binding_fault(m: MetaModel, data: Seq<(Seq<char>, DataModel)>) -> Option<Fault> {
    if !all_shallow(meta_exprs(m)) {
        Some(too_deep_fault())
    } else {
        match name_fault(m, data) {
            Some(fault) => Some(fault),
            None => schemas_fault(m.data, data, 0),
        }
    }
}

/// Checks the shapes of declared values.
pub fn check_schemas(meta: &ModelMeta, data: &Vec<(String, DataValue)>) -> (r: Result<(), Error>)
    requires
        all_filled(data_views(data@)),
        forall|i: int|
            0 <= i < meta@.data.len() ==> data_named(
                data_views(data@),
                (#[trigger] meta@.data[i]).0,
            ) is Some,
    ensures
        checked(r) == schemas_fault(meta@.data, data_views(data@), 0),
{
    let ghost m = meta@;
    let ghost all = data_views(data@);
    let mut i: usize = 0;
    while i < meta.data.len()
        invariant
            i <= meta.data.len(),
            m == meta@,
            all == data_views(data@),
            all_filled(all),
            forall|k: int|
                0 <= k < m.data.len() ==> data_named(all, (#[trigger] m.data[k]).0) is Some,
            schemas_fault(m.data, all, 0) == schemas_fault(m.data, all, i as int),
        decreases meta.data.len() - i,
    {
        let name: &String = &meta.data[i].0;
        assert(m.data[i as int] == (name@, meta.data@[i as int].1@));
        let value: &DataValue = find_data(data, name.as_str()).unwrap();
        check_schema(name.as_str(), &meta.data[i].1.schema, value, data)?;
        i += 1;
    }
    Ok(())
}

/// Checks the data that a model is bound to: names, and the shapes that the model declares.
pub fn check_binding(meta: &ModelMeta, data: &Vec<(String, DataValue)>) -> (r: Result<(), Error>)
    requires
        all_filled(data_views(data@)),
    ensures
        checked(r) == binding_fault(meta@, data_views(data@)),
{
    check_meta_expr_depth(meta)?;
    check_names(meta, data)?;
    proof {
        let m = meta@;
        assert forall|i: int| 0 <= i < m.data.len() implies data_named(
            data_views(data@),
            (#[trigger] m.data[i]).0,
        ) is Some by {
            assert(expected_names(m)[i] == m.data[i].0);
            lemma_none_missing(expected_names(m), data_views(data@), m.data[i].0);
        }
    }
    check_schemas(meta, data)
}

/// The shape of a free value.
pub open spec fn free_shape(name: Seq<char>, size: SizeModel, data: Seq<(Seq<char>, DataModel)>) -> Result<
    Seq<usize>,
    Fault,
> {
    match size {
        SizeModel::Scalar => Ok(Seq::empty()),
        SizeModel::Fixed(k) => if k < 1 {
            Err(
                shape_fault(
                    "parameter size for \""@ + name + "\" must be a positive integer, got "@
                        + integer_text(k as int),
                ),
            )
        } else {
            Ok(seq![k as usize])
        },
        SizeModel::Data(reference) => match scalar_integer(data, reference) {
            Err(fault) => Err(fault),
            Ok(k) => if k < 1 {
                Err(
                    shape_fault(
                        "data-dependent parameter size \""@ + reference
                            + "\" must be a positive integer, got "@ + integer_text(k as int),
                    ),
                )
            } else {
                Ok(seq![k as usize])
            },
        },
    }
}

/// How many coordinates a shape takes in the packed vector: at least one.
pub open spec fn slot_size(shape: Seq<usize>) -> nat {
    if cells(shape) < 1 {
        1
    } else {
        cells(shape)
    }
}

/// Where a free value stands in the packed vector.
#[verifier::ext_equal]
pub struct SlotModel {
    pub name: Seq<char>,
    pub shape: Seq<usize>,
    pub offset: nat,
    pub size: nat,
}

/// The end of the last slot.
pub open spec fn packed_end(slots: Seq<SlotModel>) -> nat {
    if slots.len() == 0 {
        0
    } else {
        slots.last().offset + slots.last().size
    }
}

/// The slots of the first `n` free values, one behind the other.
pub open spec fn slots_upto(
    free: Seq<(Seq<char>, FreeModel)>,
    data: Seq<(Seq<char>, DataModel)>,
    n: nat,
) -> Result<Seq<SlotModel>, Fault>
    decreases n,
{
    if n == 0 {
        Ok(Seq::empty())
    } else {
        match slots_upto(free, data, (n - 1) as nat) {
            Err(fault) => Err(fault),
            Ok(before) => match free_shape(free[n - 1].0, free[n - 1].1.size, data) {
                Err(fault) => Err(fault),
                Ok(shape) => if packed_end(before) + slot_size(shape) > usize::MAX {
                    Err(
                        shape_fault(
                            "the free values have more coordinates than can be counted"@,
                        ),
                    )
                } else {
                    Ok(
                        before.push(
                            SlotModel {
                                name: free[n - 1].0,
                                shape,
                                offset: packed_end(before),
                                size: slot_size(shape),
                            },
                        ),
                    )
                },
            },
        }
    }
}

/// The packing of a bound model: what is wrong with the binding, or the slots of its free values.
pub open spec fn packed(m: MetaModel, data: Seq<(Seq<char>, DataModel)>) -> Result<
    Seq<SlotModel>,
    Fault,
> {
    match binding_fault(m, data) {
        Some(fault) => Err(fault),
        None => slots_upto(resolved_free(m), data, resolved_free(m).len()),
    }
}

/// Where a free value stands in the packed vector.
#[derive(Debug)]
pub struct Slot {
    pub name: String,
    pub shape: Vec<usize>,
    pub offset: usize,
    pub size: usize,
}

impl View for Slot {
    type V = SlotModel;

    open spec fn view(&self) -> SlotModel {
        SlotModel {
            name: self.name@,
            shape: self.shape@,
            offset: self.offset as nat,
            size: self.size as nat,
        }
    }
}

/// The view of a result that carries a shape.
pub open spec fn shape_outcome(r: Result<Vec<usize>, Error>) -> Result<Seq<usize>, Fault> {
    match r {
        Ok(shape) => Ok(shape@),
        Err(error) => Err(error@),
    }
}

pub fn free_value_shape(name: &str, size: &Size, data: &Vec<(String, DataValue)>) -> (r: Result<
    Vec<usize>,
    Error,
>)
    requires
        all_filled(data_views(data@)),
    ensures
        shape_outcome(r) == free_shape(name@, size@, data_views(data@)),
{
    match size {
        Size::Scalar => Ok(Vec::new()),
        Size::Fixed(k) => {
            if *k < 1 {
                let shown: String = text::integer(*k);
                return Err(
                    shape_mismatch(
                        text::cat4(
                            "parameter size for \"",
                            name,
                            "\" must be a positive integer, got ",
                            shown.as_str(),
                        ),
                    ),
                );
            }
            let shape: Vec<usize> = vec![*k as usize];
            assert(shape@ =~= seq![*k as usize]);
            Ok(shape)
        },
        Size::Data(reference) => {
            let k: i64 = scalar_int_data(data, reference.as_str())?;
            if k < 1 {
                let shown: String = text::integer(k);
                return Err(
                    shape_mismatch(
                        text::cat4(
                            "data-dependent parameter size \"",
                            reference.as_str(),
                            "\" must be a positive integer, got ",
                            shown.as_str(),
                        ),
                    ),
                );
            }
            let shape: Vec<usize> = vec![k as usize];
            assert(shape@ =~= seq![k as usize]);
            Ok(shape)
        },
    }
}

proof fn lemma_slots_fail(
    free: Seq<(Seq<char>, FreeModel)>,
    data: Seq<(Seq<char>, DataModel)>,
    m: nat,
    n: nat,
)
    requires
        m <= n,
        slots_upto(free, data, m) is Err,
    ensures
        slots_upto(free, data, n) == slots_upto(free, data, m),
    decreases n - m,
{
    if m < n {
        lemma_slots_fail(free, data, m, (n - 1) as nat);
    }
}

/// The view of a result that carries slots.
pub open spec fn slots_outcome(r: Result<Vec<Slot>, Error>) -> Result<Seq<SlotModel>, Fault> {
    match r {
        Ok(slots) => Ok(list_views(slots@)),
        Err(error) => Err(error@),
    }
}

/// Free-value shapes and offsets per the packing-order guarantee.
pub fn pack_free_values(free: &Vec<(String, ResolvedFreeValue)>, data: &Vec<(String, DataValue)>) -> (r:
    Result<Vec<Slot>, Error>)
    requires
        all_filled(data_views(data@)),
    ensures
        slots_outcome(r) == slots_upto(named_views(free@), data_views(data@), free@.len()),
{
    let ghost values = named_views(free@);
    let ghost all = data_views(data@);
    let mut slots: Vec<Slot> = Vec::new();
    assert(list_views(slots@) =~= Seq::empty());
    let mut offset: usize = 0;
    let mut i: usize = 0;
    while i < free.len()
        invariant
            i <= free.len(),
            values == named_views(free@),
            all == data_views(data@),
            all_filled(all),
            slots_upto(values, all, i as nat) == Ok::<Seq<SlotModel>, Fault>(list_views(slots@)),
            offset == packed_end(list_views(slots@)),
        decreases free.len() - i,
    {
        let name: &String = &free[i].0;
        assert(values[i as int] == (name@, free@[i as int].1@));
        let ghost count = free@.len();
        match free_value_shape(name.as_str(), &free[i].1.size, data) {
            Err(error) => {
                proof {
                    lemma_slots_fail(values, all, (i + 1) as nat, count);
                }
                return Err(error);
            },
            Ok(shape) => {
                let counted: Option<usize> = count_cells(&shape);
                let size: usize = match counted {
                    Some(n) => {
                        if n < 1 {
                            1
                        } else {
                            n
                        }
                    },
                    None => 0,
                };
                let end: Option<usize> = offset.checked_add(size);
                if counted.is_none() || end.is_none() {
                    proof {
                        lemma_slots_fail(values, all, (i + 1) as nat, count);
                    }
                    return Err(
                        shape_mismatch(
                            "the free values have more coordinates than can be counted".to_owned(),
                        ),
                    );
                }
                let ghost before = slots@;
                let slot: Slot = Slot { name: name.clone(), shape, offset, size };
                let ghost content = slot@;
                slots.push(slot);
                assert(list_views(slots@) =~= list_views(before).push(content));
                offset = end.unwrap();
            },
        }
        i += 1;
    }
    Ok(slots)
}

/// Slots follow each other without gaps or overlaps, from the start of the vector.
pub proof fn law_slots_are_contiguous(
    free: Seq<(Seq<char>, FreeModel)>,
    data: Seq<(Seq<char>, DataModel)>,
    n: nat,
)
    requires
        slots_upto(free, data, n) is Ok,
    ensures
        slots_upto(free, data, n)->Ok_0.len() == n,
        forall|i: int|
            0 <= i < n ==> (#[trigger] slots_upto(free, data, n)->Ok_0[i]).offset == (if i == 0 {
                0
            } else {
                slots_upto(free, data, n)->Ok_0[i - 1].offset + slots_upto(free, data, n)->Ok_0[i
                    - 1].size
            }),
        forall|i: int|
            0 <= i < n ==> (#[trigger] slots_upto(free, data, n)->Ok_0[i]).size >= 1
                && slots_upto(free, data, n)->Ok_0[i].name == free[i].0
                && slots_upto(free, data, n)->Ok_0[i].offset + slots_upto(free, data, n)->Ok_0[i].size
                <= usize::MAX,
        packed_end(slots_upto(free, data, n)->Ok_0) <= usize::MAX,
    decreases n,
{
    if n > 0 {
        law_slots_are_contiguous(free, data, (n - 1) as nat);
    }
}

} // verus!
