//! Data documents: named arrays of numbers with a shape.

use vstd::prelude::*;

use crate::artifact::cells;
use crate::error::{malformed, shape_mismatch, Error};
#[allow(unused_imports)]
use crate::error::{malformed_fault, outcome, shape_fault, Fault};
use crate::json::Value;
#[allow(unused_imports)]
use crate::json::{
    array_of, entries_view, field, field_from, group_json_views, integer_of, items_view, string_of, Json,
};
use crate::number::{whole_number, Number};
#[allow(unused_imports)]
use crate::number::{
    beyond_integers, clamped, equal_value, finite, integer_value, integral, law_integer_is_its_own_double,
    message_text, number_of_integer, NumberModel,
};
use crate::text;
#[allow(unused_imports)]
use crate::text::{debug_text, decimal_text, numbers_text};

verus! {

/// A bound data value: numbers in row-major order with their shape and declared integerness.
#[derive(Debug)]
pub struct DataValue {
    pub shape: Vec<usize>,
    pub values: Vec<Number>,
    pub integer: bool,
}

/// The mathematical content of a [`DataValue`].
#[verifier::ext_equal]
pub struct DataModel {
    pub shape: Seq<usize>,
    pub values: Seq<NumberModel>,
    pub integer: bool,
}

/// The contents of numbers.
pub open spec fn number_views(s: Seq<Number>) -> Seq<NumberModel> {
    s.map_values(|n: Number| n@)
}

impl View for DataValue {
    type V = DataModel;

    open spec fn view(&self) -> DataModel {
        DataModel {
            shape: self.shape@,
            values: number_views(self.values@),
            integer: self.integer,
        }
    }
}

/// As many values as the shape has cells.
pub open spec fn filled(m: DataModel) -> bool {
    m.values.len() == cells(m.shape)
}

pub fn copy_numbers(s: &Vec<Number>) -> (r: Vec<Number>)
    ensures
        number_views(r@) == number_views(s@),
{
    let mut out: Vec<Number> = Vec::new();
    let mut i: usize = 0;
    while i < s.len()
        invariant
            i <= s.len(),
            out.len() == i,
            forall|j: int| 0 <= j < i ==> (#[trigger] out@[j])@ == s@[j]@,
        decreases s.len() - i,
    {
        out.push(s[i].copy());
        i += 1;
    }
    assert(number_views(out@) =~= number_views(s@));
    out
}

pub fn copy_shape(s: &Vec<usize>) -> (r: Vec<usize>)
    ensures
        r@ == s@,
{
    let mut out: Vec<usize> = Vec::new();
    let mut i: usize = 0;
    while i < s.len()
        invariant
            i <= s.len(),
            out@ == s@.take(i as int),
        decreases s.len() - i,
    {
        out.push(s[i]);
        assert(s@.take(i + 1) =~= s@.take(i as int).push(s@[i as int]));
        i += 1;
    }
    assert(s@.take(i as int) =~= s@);
    out
}

impl DataValue {
    pub fn copy(&self) -> (r: DataValue)
        ensures
            r@ == self@,
    {
        DataValue {
            shape: copy_shape(&self.shape),
            values: copy_numbers(&self.values),
            integer: self.integer,
        }
    }
}

/// The canonical wrapped data-document marker shared across the toolchain.
pub const DATA_DOCUMENT_FORMAT: &'static str = "bayescycle.data.json.v1";

/// The beginning of every message about a data value.
pub open spec fn about(name: Seq<char>) -> Seq<char> {
    "data value \""@ + name + "\""@
}

pub open spec fn data_fault(name: Seq<char>, rest: Seq<char>) -> Fault {
    shape_fault(about(name) + rest)
}

fn data_error(name: &str, rest: &str) -> (r: Error)
    ensures
        r@ == data_fault(name@, rest@),
{
    shape_mismatch(text::cat4("data value \"", name, "\"", rest))
}

/// A number of either kind, as a double.
pub open spec fn collected_number(name: Seq<char>, v: Json) -> Result<NumberModel, Fault> {
    match v {
        Json::Int(i) => Ok(number_of_integer(i as int)),
        Json::Float(n) => Ok(n),
        _ => Err(data_fault(name, " must contain numbers only"@)),
    }
}

fn collect_numbers(name: &str, value: &Value, into: &mut Vec<Number>) -> (r: Result<(), Error>)
    ensures
        match r {
            Ok(_) => collected_number(name@, value@) is Ok && number_views(final(into)@)
                == number_views(old(into)@).push(collected_number(name@, value@)->Ok_0),
            Err(error) => collected_number(name@, value@) == Err::<NumberModel, Fault>(error@)
                && final(into)@ == old(into)@,
        },
{
    match value {
        Value::Int(i) => {
            let n: Number = Number::from_integer(*i);
            into.push(n);
            assert(number_views(into@) =~= number_views(old(into)@).push(n@));
            Ok(())
        },
        Value::Float(n) => {
            into.push(n.copy());
            assert(number_views(into@) =~= number_views(old(into)@).push(n@));
            Ok(())
        },
        _ => Err(data_error(name, " must contain numbers only")),
    }
}

/// A boolean as one or zero.
pub open spec fn collected_boolean(name: Seq<char>, v: Json) -> Result<NumberModel, Fault> {
    match v {
        Json::Bool(flag) => Ok(number_of_integer(if flag { 1 } else { 0 })),
        _ => Err(data_fault(name, " with dtype \"bool\" must contain JSON booleans only"@)),
    }
}

fn collect_booleans(name: &str, value: &Value, into: &mut Vec<Number>) -> (r: Result<(), Error>)
    ensures
        match r {
            Ok(_) => collected_boolean(name@, value@) is Ok && number_views(final(into)@)
                == number_views(old(into)@).push(collected_boolean(name@, value@)->Ok_0),
            Err(error) => collected_boolean(name@, value@) == Err::<NumberModel, Fault>(error@)
                && final(into)@ == old(into)@,
        },
{
    match value {
        Value::Bool(flag) => {
            let n: Number = Number::from_integer(if *flag { 1 } else { 0 });
            into.push(n);
            assert(number_views(into@) =~= number_views(old(into)@).push(n@));
            Ok(())
        },
        _ => Err(data_error(name, " with dtype \"bool\" must contain JSON booleans only")),
    }
}

/// The shape of a nested array, read off its first items.
pub open spec fn probed_shape(v: Json) -> Seq<usize>
    decreases v,
{
    match v {
        Json::Array(items) => seq![items.len() as usize] + (if items.len() > 0 {
            probed_shape(items[0])
        } else {
            Seq::empty()
        }),
        _ => Seq::empty(),
    }
}

fn probe_shape(value: &Value) -> (r: Vec<usize>)
    ensures
        r@ == probed_shape(value@),
    decreases value,
{
    broadcast use group_json_views;

    match value {
        Value::Array(items) => {
            let mut out: Vec<usize> = vec![items.len()];
            if items.len() > 0 {
                proof {
                    assert(decreases_to!(*value => value->Array_0));
                    assert(decreases_to!(value->Array_0 => value->Array_0@));
                    assert(decreases_to!(items@ => items@[0]));
                }
                let mut rest: Vec<usize> = probe_shape(&items[0]);
                out.append(&mut rest);
            }
            assert(items_view(items@).len() == items.len());
            assert(items.len() > 0 ==> items_view(items@)[0] == items@[0]@);
            assert(out@ =~= probed_shape(value@));
            out
        },
        _ => Vec::new(),
    }
}

/// The numbers of a nested array of a given shape.
pub open spec fn walked(name: Seq<char>, v: Json, shape: Seq<usize>) -> Result<
    Seq<NumberModel>,
    Fault,
>
    decreases v,
{
    if shape.len() == 0 {
        match collected_number(name, v) {
            Ok(n) => Ok(seq![n]),
            Err(fault) => Err(fault),
        }
    } else {
        match v {
            Json::Array(items) => if items.len() != shape[0] {
                Err(data_fault(name, " must be a rectangular array"@))
            } else {
                walked_items(name, items, shape.drop_first())
            },
            _ => Err(data_fault(name, " must be a rectangular array"@)),
        }
    }
}

pub open spec fn walked_items(name: Seq<char>, items: Seq<Json>, shape: Seq<usize>) -> Result<
    Seq<NumberModel>,
    Fault,
>
    decreases items,
{
    if items.len() == 0 {
        Ok(Seq::empty())
    } else {
        match walked_items(name, items.drop_last(), shape) {
            Err(fault) => Err(fault),
            Ok(before) => match walked(name, items.last(), shape) {
                Err(fault) => Err(fault),
                Ok(more) => Ok(before + more),
            },
        }
    }
}

/// Reading on does not mend a failure.
proof fn lemma_walk_fails(name: Seq<char>, items: Seq<Json>, shape: Seq<usize>, n: int)
    requires
        0 <= n <= items.len(),
        walked_items(name, items.take(n), shape) is Err,
    ensures
        walked_items(name, items, shape) == walked_items(name, items.take(n), shape),
    decreases items.len(),
{
    if n < items.len() {
        assert(items.drop_last().take(n) =~= items.take(n));
        lemma_walk_fails(name, items.drop_last(), shape, n);
    } else {
        assert(items.take(n) =~= items);
    }
}

/// Reads the numbers of a nested array, of the shape from axis `depth` on.
fn walk(name: &str, value: &Value, depth: usize, shape: &Vec<usize>, values: &mut Vec<Number>) -> (r:
    Result<(), Error>)
    requires
        depth <= shape.len(),
    ensures
        match r {
            Ok(_) => walked(name@, value@, shape@.skip(depth as int)) is Ok && number_views(
                final(values)@,
            ) == number_views(old(values)@) + walked(
                name@,
                value@,
                shape@.skip(depth as int),
            )->Ok_0,
            Err(error) => walked(name@, value@, shape@.skip(depth as int)) == Err::<
                Seq<NumberModel>,
                Fault,
            >(error@),
        },
    decreases value,
{
    broadcast use group_json_views;

    let ghost rest = shape@.skip(depth as int);
    if depth < shape.len() {
        match value {
            Value::Array(items) => {
                assert(rest[0] == shape@[depth as int]);
                assert(items_view(items@).len() == items.len());
                if items.len() != shape[depth] {
                    return Err(data_error(name, " must be a rectangular array"));
                }
                let ghost all = items_view(items@);
                let ghost inner = shape@.skip(depth + 1);
                assert(rest.drop_first() =~= inner);
                let mut i: usize = 0;
                assert(number_views(values@) =~= number_views(values@) + Seq::<NumberModel>::empty());
                while i < items.len()
                    invariant
                        i <= items.len(),
                        depth < shape.len(),
                        *value == Value::Array(*items),
                        all == items_view(items@),
                        inner == shape@.skip(depth + 1),
                        rest == shape@.skip(depth as int),
                        rest.drop_first() == inner,
                        rest.len() > 0,
                        items.len() == rest[0],
                        walked_items(name@, all.take(i as int), inner) is Ok,
                        number_views(values@) == number_views(old(values)@) + walked_items(
                            name@,
                            all.take(i as int),
                            inner,
                        )->Ok_0,
                    decreases items.len() - i,
                {
                    broadcast use group_json_views;

                    proof {
                        let done = all.take(i + 1);
                        assert(done.drop_last() =~= all.take(i as int));
                        assert(done.last() == items@[i as int]@);
                        assert(decreases_to!(*value => value->Array_0));
                        assert(decreases_to!(value->Array_0 => value->Array_0@));
                        assert(decreases_to!(items@ => items@[i as int]));
                    }
                    let read: Result<(), Error> = walk(name, &items[i], depth + 1, shape, values);
                    match read {
                        Err(error) => {
                            proof {
                                lemma_walk_fails(name@, all, inner, i + 1);
                            }
                            return Err(error);
                        },
                        Ok(_) => {},
                    }
                    proof {
                        let done = all.take(i + 1);
                        assert(number_views(values@) =~= number_views(old(values)@) + walked_items(
                            name@,
                            done,
                            inner,
                        )->Ok_0);
                    }
                    i += 1;
                }
                assert(all.take(i as int) =~= all);
                Ok(())
            },
            _ => Err(data_error(name, " must be a rectangular array")),
        }
    } else {
        assert(rest.len() == 0);
        collect_numbers(name, value, values)?;
        assert(number_views(values@) =~= number_views(old(values)@) + walked(
            name@,
            value@,
            rest,
        )->Ok_0);
        Ok(())
    }
}

/// Reading the entries of a shape.
pub open spec fn shape_entries(name: Seq<char>, items: Seq<Json>) -> Result<Seq<usize>, Fault>
    decreases items.len(),
{
    if items.len() == 0 {
        Ok(Seq::empty())
    } else {
        match shape_entries(name, items.drop_last()) {
            Err(fault) => Err(fault),
            Ok(before) => match integer_of(Some(items.last())) {
                None => Err(data_fault(name, " shape entries must be non-negative integers"@)),
                Some(d) => if d < 0 {
                    Err(data_fault(name, " shape entries must be non-negative integers"@))
                } else {
                    Ok(before.push(d as usize))
                },
            },
        }
    }
}

proof fn lemma_shape_fails(name: Seq<char>, items: Seq<Json>, n: int)
    requires
        0 <= n <= items.len(),
        shape_entries(name, items.take(n)) is Err,
    ensures
        shape_entries(name, items) == shape_entries(name, items.take(n)),
    decreases items.len(),
{
    if n < items.len() {
        assert(items.drop_last().take(n) =~= items.take(n));
        lemma_shape_fails(name, items.drop_last(), n);
    } else {
        assert(items.take(n) =~= items);
    }
}

fn read_shape(name: &str, items: &Vec<Value>) -> (r: Result<Vec<usize>, Error>)
    ensures
        match r {
            Ok(shape) => shape_entries(name@, items_view(items@)) == Ok::<Seq<usize>, Fault>(shape@),
            Err(error) => shape_entries(name@, items_view(items@)) == Err::<Seq<usize>, Fault>(
                error@,
            ),
        },
{
    broadcast use group_json_views;

    let ghost all = items_view(items@);
    let mut out: Vec<usize> = Vec::new();
    let mut i: usize = 0;
    while i < items.len()
        invariant
            i <= items.len(),
            all == items_view(items@),
            shape_entries(name@, all.take(i as int)) == Ok::<Seq<usize>, Fault>(out@),
        decreases items.len() - i,
    {
        broadcast use group_json_views;

        proof {
            let done = all.take(i + 1);
            assert(done.drop_last() =~= all.take(i as int));
            assert(done.last() == items@[i as int]@);
        }
        match items[i].as_i64() {
            Some(d) => {
                if d < 0 {
                    proof {
                        lemma_shape_fails(name@, all, i + 1);
                    }
                    return Err(data_error(name, " shape entries must be non-negative integers"));
                }
                out.push(d as usize);
            },
            None => {
                proof {
                    lemma_shape_fails(name@, all, i + 1);
                }
                return Err(data_error(name, " shape entries must be non-negative integers"));
            },
        }
        i += 1;
    }
    assert(all.take(i as int) =~= all);
    Ok(out)
}

/// One entry of a value list, by whether the list holds booleans.
pub open spec fn collected(name: Seq<char>, v: Json, boolean: bool) -> Result<NumberModel, Fault> {
    if boolean {
        collected_boolean(name, v)
    } else {
        collected_number(name, v)
    }
}

/// The entries of a value list.
pub open spec fn collected_all(name: Seq<char>, items: Seq<Json>, boolean: bool) -> Result<
    Seq<NumberModel>,
    Fault,
>
    decreases items.len(),
{
    if items.len() == 0 {
        Ok(Seq::empty())
    } else {
        match collected_all(name, items.drop_last(), boolean) {
            Err(fault) => Err(fault),
            Ok(before) => match collected(name, items.last(), boolean) {
                Err(fault) => Err(fault),
                Ok(n) => Ok(before.push(n)),
            },
        }
    }
}

proof fn lemma_collect_fails(name: Seq<char>, items: Seq<Json>, boolean: bool, n: int)
    requires
        0 <= n <= items.len(),
        collected_all(name, items.take(n), boolean) is Err,
    ensures
        collected_all(name, items, boolean) == collected_all(name, items.take(n), boolean),
    decreases items.len(),
{
    if n < items.len() {
        assert(items.drop_last().take(n) =~= items.take(n));
        lemma_collect_fails(name, items.drop_last(), boolean, n);
    } else {
        assert(items.take(n) =~= items);
    }
}

/// The view of a result that carries numbers.
pub open spec fn numbers_outcome(r: Result<Vec<Number>, Error>) -> Result<Seq<NumberModel>, Fault> {
    match r {
        Ok(values) => Ok(number_views(values@)),
        Err(error) => Err(error@),
    }
}

fn collect_one(name: &str, value: &Value, boolean: bool, into: &mut Vec<Number>) -> (r: Result<(), Error>)
    ensures
        match r {
            Ok(_) => collected(name@, value@, boolean) is Ok && number_views(final(into)@)
                == number_views(old(into)@).push(collected(name@, value@, boolean)->Ok_0),
            Err(error) => collected(name@, value@, boolean) == Err::<NumberModel, Fault>(error@)
                && final(into)@ == old(into)@,
        },
{
    if boolean {
        collect_booleans(name, value, into)
    } else {
        collect_numbers(name, value, into)
    }
}

fn collect_all(name: &str, items: &Vec<Value>, boolean: bool) -> (r: Result<Vec<Number>, Error>)
    ensures
        numbers_outcome(r) == collected_all(name@, items_view(items@), boolean),
{
    broadcast use group_json_views;

    let ghost all = items_view(items@);
    let mut out: Vec<Number> = Vec::new();
    assert(number_views(out@) =~= Seq::empty());
    let mut i: usize = 0;
    while i < items.len()
        invariant
            i <= items.len(),
            all == items_view(items@),
            collected_all(name@, all.take(i as int), boolean) == Ok::<Seq<NumberModel>, Fault>(
                number_views(out@),
            ),
        decreases items.len() - i,
    {
        broadcast use group_json_views;

        proof {
            let done = all.take(i + 1);
            assert(done.drop_last() =~= all.take(i as int));
            assert(done.last() == items@[i as int]@);
        }
        match collect_one(name, &items[i], boolean, &mut out) {
            Err(error) => {
                proof {
                    lemma_collect_fails(name@, all, boolean, i + 1);
                }
                return Err(error);
            },
            Ok(_) => {},
        }
        i += 1;
    }
    assert(all.take(i as int) =~= all);
    Ok(out)
}

proof fn lemma_no_cells(shape: Seq<usize>)
    requires
        shape.contains(0),
    ensures
        cells(shape) == 0,
    decreases shape.len(),
{
    let i = choose|i: int| 0 <= i < shape.len() && shape[i] == 0;
    if i < shape.len() - 1 {
        assert(shape.drop_last()[i] == 0);
        lemma_no_cells(shape.drop_last());
        assert(0 * shape.last() as nat == 0) by (nonlinear_arith);
    } else {
        let others = cells(shape.drop_last());
        assert(others * 0 == 0) by (nonlinear_arith);
    }
}

/// The number of cells of a shape, if it can be counted.
pub fn count_cells(shape: &Vec<usize>) -> (r: Option<usize>)
    ensures
        match r {
            Some(n) => n == cells(shape@),
            None => cells(shape@) > usize::MAX,
        },
{
    let mut k: usize = 0;
    while k < shape.len()
        invariant
            k <= shape.len(),
            forall|j: int| 0 <= j < k ==> shape@[j] != 0,
        decreases shape.len() - k,
    {
        if shape[k] == 0 {
            proof {
                assert(shape@[k as int] == 0);
                lemma_no_cells(shape@);
            }
            return Some(0);
        }
        k += 1;
    }
    assert(!shape@.contains(0));
    let mut count: usize = 1;
    let mut i: usize = 0;
    while i < shape.len()
        invariant
            i <= shape.len(),
            !shape@.contains(0),
            count == cells(shape@.take(i as int)),
        decreases shape.len() - i,
    {
        proof {
            crate::artifact::lemma_cells_prefix(shape@, i + 1);
            assert(shape@.take(i + 1).drop_last() =~= shape@.take(i as int));
        }
        match count.checked_mul(shape[i]) {
            None => {
                return None;
            },
            Some(more) => {
                count = more;
            },
        }
        i += 1;
    }
    assert(shape@.take(i as int) =~= shape@);
    Some(count)
}

/// Whether the name of a number type stands for integers.
pub open spec fn integer_type(dtype: Seq<char>) -> bool {
    dtype == "bool"@ || "int"@.is_prefix_of(dtype) || "uint"@.is_prefix_of(dtype)
}

/// The numbers of the values field of a described value.
pub open spec fn described_values(name: Seq<char>, v: Json, boolean: bool) -> Result<
    Seq<NumberModel>,
    Fault,
> {
    match v {
        Json::Array(items) => collected_all(name, items, boolean),
        other => match collected(name, other, boolean) {
            Ok(n) => Ok(seq![n]),
            Err(fault) => Err(fault),
        },
    }
}

/// Numbers put into a shape.
pub open spec fn shaped(name: Seq<char>, shape: Seq<usize>, values: Seq<NumberModel>, integer: bool) -> Result<
    DataModel,
    Fault,
> {
    if cells(shape) > usize::MAX {
        Err(data_fault(name, " shape "@ + numbers_text(shape) + " has too many cells to count"@))
    } else if values.len() != cells(shape) {
        Err(
            data_fault(
                name,
                " has "@ + decimal_text(values.len()) + " values but shape "@ + numbers_text(shape)
                    + " needs "@ + decimal_text(cells(shape)),
            ),
        )
    } else {
        Ok(DataModel { shape, values, integer })
    }
}

/// What reading a value with dtype, shape and values gives.
pub open spec fn described(name: Seq<char>, v: Json) -> Result<DataModel, Fault> {
    match string_of(field(v, "dtype"@)) {
        None => Err(data_fault(name, " needs a dtype string"@)),
        Some(dtype) => match array_of(field(v, "shape"@)) {
            None => Err(data_fault(name, " needs a shape array"@)),
            Some(items) => match shape_entries(name, items) {
                Err(fault) => Err(fault),
                Ok(shape) => match field(v, "values"@) {
                    None => Err(data_fault(name, " needs a values field"@)),
                    Some(listed) => match described_values(name, listed, dtype == "bool"@) {
                        Err(fault) => Err(fault),
                        Ok(values) => shaped(name, shape, values, integer_type(dtype)),
                    },
                },
            },
        },
    }
}

/// What reading one data value gives: a number, a nested array, or a described value. Only a
/// described value can declare integers.
pub open spec fn read_value(name: Seq<char>, v: Json) -> Result<DataModel, Fault> {
    match v {
        Json::Int(i) => Ok(
            DataModel {
                shape: Seq::empty(),
                values: seq![number_of_integer(i as int)],
                integer: false,
            },
        ),
        Json::Float(n) => Ok(DataModel { shape: Seq::empty(), values: seq![n], integer: false }),
        Json::Array(_) => match walked(name, v, probed_shape(v)) {
            Err(fault) => Err(fault),
            Ok(values) => Ok(DataModel { shape: probed_shape(v), values, integer: false }),
        },
        Json::Object(_) => described(name, v),
        _ => Err(
            data_fault(
                name,
                " must be a number, an array, or a dtype/shape/values object"@,
            ),
        ),
    }
}

fn read_described(name: &str, spec: &Value) -> (r: Result<DataValue, Error>)
    ensures
        outcome(r) == described(name@, spec@),
{
    broadcast use group_json_views;

    let mut dtype: Option<&str> = None;
    if let Some(found) = spec.get("dtype") {
        dtype = found.as_str();
    }
    let dtype: &str = match dtype {
        None => {
            return Err(data_error(name, " needs a dtype string"));
        },
        Some(found) => found,
    };
    let boolean: bool = text::same(dtype, "bool");
    let integer: bool = boolean || text::starts_with(dtype, "int") || text::starts_with(
        dtype,
        "uint",
    );
    let mut dims: Option<&Vec<Value>> = None;
    if let Some(found) = spec.get("shape") {
        dims = found.as_array();
    }
    let shape: Vec<usize> = match dims {
        None => {
            return Err(data_error(name, " needs a shape array"));
        },
        Some(items) => read_shape(name, items)?,
    };
    let listed: &Value = match spec.get("values") {
        None => {
            return Err(data_error(name, " needs a values field"));
        },
        Some(found) => found,
    };
    let values: Vec<Number> = match listed {
        Value::Array(items) => collect_all(name, items, boolean)?,
        other => {
            let mut one: Vec<Number> = Vec::new();
            collect_one(name, other, boolean, &mut one)?;
            assert(number_views(one@) =~= seq![collected(name@, other@, boolean)->Ok_0]);
            one
        },
    };
    assert(described_values(name@, listed@, boolean) == Ok::<Seq<NumberModel>, Fault>(
        number_views(values@),
    ));
    match count_cells(&shape) {
        None => {
            let shown: String = text::numbers(shape.as_slice());
            Err(
                data_error(
                    name,
                    text::cat3(" shape ", shown.as_str(), " has too many cells to count").as_str(),
                ),
            )
        },
        Some(expected) => {
            if values.len() != expected {
                let shown: String = text::numbers(shape.as_slice());
                let have: String = text::decimal(values.len() as u64);
                let want: String = text::decimal(expected as u64);
                return Err(
                    data_error(
                        name,
                        text::cat6(
                            " has ",
                            have.as_str(),
                            " values but shape ",
                            shown.as_str(),
                            " needs ",
                            want.as_str(),
                        ).as_str(),
                    ),
                );
            }
            Ok(DataValue { shape, values, integer })
        },
    }
}

/// Reads one data value.
pub fn data_value_from_json(name: &str, spec: &Value) -> (r: Result<DataValue, Error>)
    ensures
        outcome(r) == read_value(name@, spec@),
{
    match spec {
        Value::Int(i) => {
            let shape: Vec<usize> = Vec::new();
            let values: Vec<Number> = vec![Number::from_integer(*i)];
            assert(number_views(values@) =~= seq![number_of_integer(*i as int)]);
            Ok(DataValue { shape, values, integer: false })
        },
        Value::Float(n) => {
            let shape: Vec<usize> = Vec::new();
            let values: Vec<Number> = vec![n.copy()];
            assert(number_views(values@) =~= seq![n@]);
            Ok(DataValue { shape, values, integer: false })
        },
        Value::Array(_) => {
            let shape: Vec<usize> = probe_shape(spec);
            let mut values: Vec<Number> = Vec::new();
            assert(shape@.skip(0) =~= shape@);
            walk(name, spec, 0, &shape, &mut values)?;
            assert(number_views(values@) =~= walked(name@, spec@, shape@)->Ok_0);
            Ok(DataValue { shape, values, integer: false })
        },
        Value::Object(_) => read_described(name, spec),
        _ => Err(
            data_error(name, " must be a number, an array, or a dtype/shape/values object"),
        ),
    }
}

/// Named data values by their content.
pub open spec fn data_views(s: Seq<(String, DataValue)>) -> Seq<(Seq<char>, DataModel)> {
    s.map_values(|entry: (String, DataValue)| (entry.0@, entry.1@))
}

/// The view of a result that carries named data values.
pub open spec fn data_outcome(r: Result<Vec<(String, DataValue)>, Error>) -> Result<
    Seq<(Seq<char>, DataModel)>,
    Fault,
> {
    match r {
        Ok(data) => Ok(data_views(data@)),
        Err(error) => Err(error@),
    }
}

/// What reading the fields of an object as data values gives.
pub open spec fn read_entries(entries: Seq<(Seq<char>, Json)>) -> Result<
    Seq<(Seq<char>, DataModel)>,
    Fault,
>
    decreases entries.len(),
{
    if entries.len() == 0 {
        Ok(Seq::empty())
    } else {
        match read_entries(entries.drop_last()) {
            Err(fault) => Err(fault),
            Ok(before) => match read_value(entries.last().0, entries.last().1) {
                Err(fault) => Err(fault),
                Ok(value) => Ok(before.push((entries.last().0, value))),
            },
        }
    }
}

proof fn lemma_entries_fail(entries: Seq<(Seq<char>, Json)>, n: int)
    requires
        0 <= n <= entries.len(),
        read_entries(entries.take(n)) is Err,
    ensures
        read_entries(entries) == read_entries(entries.take(n)),
    decreases entries.len(),
{
    if n < entries.len() {
        assert(entries.drop_last().take(n) =~= entries.take(n));
        lemma_entries_fail(entries.drop_last(), n);
    } else {
        assert(entries.take(n) =~= entries);
    }
}

fn entries_from_json(entries: &Vec<(String, Value)>) -> (r: Result<Vec<(String, DataValue)>, Error>)
    ensures
        data_outcome(r) == read_entries(entries_view(entries@)),
{
    broadcast use group_json_views;

    let ghost all = entries_view(entries@);
    let mut out: Vec<(String, DataValue)> = Vec::new();
    assert(data_views(out@) =~= Seq::empty());
    let mut i: usize = 0;
    while i < entries.len()
        invariant
            i <= entries.len(),
            all == entries_view(entries@),
            read_entries(all.take(i as int)) == Ok::<Seq<(Seq<char>, DataModel)>, Fault>(
                data_views(out@),
            ),
        decreases entries.len() - i,
    {
        broadcast use group_json_views;

        proof {
            let done = all.take(i + 1);
            assert(done.drop_last() =~= all.take(i as int));
            assert(done.last() == (entries@[i as int].0@, entries@[i as int].1@));
        }
        let name: &String = &entries[i].0;
        match data_value_from_json(name.as_str(), &entries[i].1) {
            Err(error) => {
                proof {
                    lemma_entries_fail(all, i + 1);
                }
                return Err(error);
            },
            Ok(value) => {
                let ghost before = out@;
                let ghost content = value@;
                out.push((name.clone(), value));
                assert(data_views(out@) =~= data_views(before).push((name@, content)));
            },
        }
        i += 1;
    }
    assert(all.take(i as int) =~= all);
    Ok(out)
}

/// The first field that a wrapped data document may not have, from position `i` on.
pub open spec fn unexpected_field(entries: Seq<(Seq<char>, Json)>, i: int) -> Option<Seq<char>>
    decreases entries.len() - i,
{
    if i < 0 || i >= entries.len() {
        None
    } else if entries[i].0 != "format"@ && entries[i].0 != "variables"@ {
        Some(entries[i].0)
    } else {
        unexpected_field(entries, i + 1)
    }
}

/// What reading a wrapped data document gives.
pub open spec fn read_wrapped(entries: Seq<(Seq<char>, Json)>) -> Result<
    Seq<(Seq<char>, DataModel)>,
    Fault,
> {
    match field_from(entries, "format"@, 0)->0 {
        Json::Str(format) => if format != DATA_DOCUMENT_FORMAT@ {
            Err(
                malformed_fault(
                    "data document format "@ + debug_text(format) + " is unsupported; expected "@
                        + debug_text(DATA_DOCUMENT_FORMAT@),
                ),
            )
        } else {
            match unexpected_field(entries, 0) {
                Some(name) => Err(
                    malformed_fault(
                        "data document has unexpected field "@ + debug_text(name) + "; a "@
                            + debug_text(DATA_DOCUMENT_FORMAT@)
                            + " document carries exactly \"format\" and \"variables\""@,
                    ),
                ),
                None => match field_from(entries, "variables"@, 0) {
                    Some(Json::Object(variables)) => read_entries(variables),
                    _ => Err(
                        malformed_fault(
                            "data document with format "@ + debug_text(DATA_DOCUMENT_FORMAT@)
                                + " needs a \"variables\" object"@,
                        ),
                    ),
                },
            }
        },
        _ => Err(
            malformed_fault(
                "data document \"format\" is reserved and must be a format marker string"@,
            ),
        ),
    }
}

/// What reading a data document gives. The `format` field selects the wrapped form.
pub open spec fn read_data(v: Json) -> Result<Seq<(Seq<char>, DataModel)>, Fault> {
    match v {
        Json::Object(entries) => if field(v, "format"@) is Some {
            read_wrapped(entries)
        } else {
            read_entries(entries)
        },
        _ => Err(
            shape_fault("the data document must be a JSON object keyed by data name"@),
        ),
    }
}

fn wrapped_data_from_json(document: &Value, entries: &Vec<(String, Value)>) -> (r: Result<
    Vec<(String, DataValue)>,
    Error,
>)
    requires
        *document == Value::Object(*entries),
        field(document@, "format"@) is Some,
    ensures
        data_outcome(r) == read_wrapped(entries_view(entries@)),
{
    broadcast use group_json_views;

    let ghost all = entries_view(entries@);
    let marker: String = text::quoted(DATA_DOCUMENT_FORMAT);
    let format: &String = match document.get("format").unwrap() {
        Value::Str(format) => format,
        _ => {
            return Err(
                malformed(
                    "data document \"format\" is reserved and must be a format marker string".to_owned(),
                ),
            );
        },
    };
    if !text::same(format.as_str(), DATA_DOCUMENT_FORMAT) {
        let shown: String = text::quoted(format.as_str());
        return Err(
            malformed(
                text::cat4(
                    "data document format ",
                    shown.as_str(),
                    " is unsupported; expected ",
                    marker.as_str(),
                ),
            ),
        );
    }
    let mut i: usize = 0;
    while i < entries.len()
        invariant
            i <= entries.len(),
            all == entries_view(entries@),
            marker@ == debug_text(DATA_DOCUMENT_FORMAT@),
            field_from(all, "format"@, 0) == Some(Json::Str(DATA_DOCUMENT_FORMAT@)),
            unexpected_field(all, 0) == unexpected_field(all, i as int),
        decreases entries.len() - i,
    {
        broadcast use group_json_views;

        let name: &str = entries[i].0.as_str();
        if !text::same(name, "format") && !text::same(name, "variables") {
            let shown: String = text::quoted(name);
            return Err(
                malformed(
                    text::cat5(
                        "data document has unexpected field ",
                        shown.as_str(),
                        "; a ",
                        marker.as_str(),
                        " document carries exactly \"format\" and \"variables\"",
                    ),
                ),
            );
        }
        i += 1;
    }
    match document.get("variables") {
        Some(Value::Object(variables)) => entries_from_json(variables),
        _ => Err(
            malformed(
                text::cat3(
                    "data document with format ",
                    marker.as_str(),
                    " needs a \"variables\" object",
                ),
            ),
        ),
    }
}

/// Parse a data document: either the canonical wrapped form
/// `{"format": "bayescycle.data.json.v1", "variables": {...}}` or a bare
/// map `{"<name>": {"dtype": "...", "shape": [...], "values": [...]}}`.
/// A bare number or array is accepted as float64 shorthand. The `format`
/// key is reserved at the top level: its presence selects the wrapped form,
/// and any value other than the supported marker fails explicitly.
pub fn data_from_json(document: &Value) -> (r: Result<Vec<(String, DataValue)>, Error>)
    ensures
        data_outcome(r) == read_data(document@),
{
    match document {
        Value::Object(entries) => {
            if document.get("format").is_some() {
                return wrapped_data_from_json(document, entries);
            }
            entries_from_json(entries)
        },
        _ => Err(
            shape_mismatch(
                "the data document must be a JSON object keyed by data name".to_owned(),
            ),
        ),
    }
}

/// One number in a data document, by whether the value holds integers. A message quotes the
/// number that cannot be written.
pub open spec fn scalar_json(n: NumberModel, integer: bool, context: Seq<char>) -> Result<Json, Fault> {
    if integer {
        if !integral(n.bits) {
            Err(
                shape_fault(
                    context + " integer value must be finite and integral, got "@ + message_text(n),
                ),
            )
        } else if beyond_integers(integer_value(n.bits)) {
            Err(
                shape_fault(
                    context + " integer value must fit JSON integer range, got "@ + message_text(n),
                ),
            )
        } else {
            Ok(Json::Int(clamped(integer_value(n.bits))))
        }
    } else if !finite(n.bits) {
        Err(shape_fault(context + " float value must be finite, got "@ + message_text(n)))
    } else {
        Ok(Json::Float(n))
    }
}

fn data_scalar_to_json(value: &Number, integer: bool, context: &str) -> (r: Result<Value, Error>)
    ensures
        outcome(r) == scalar_json(value@, integer, context@),
{
    if integer {
        match whole_number(value.bits) {
            None => Err(
                shape_mismatch(
                    text::cat3(
                        context,
                        " integer value must be finite and integral, got ",
                        value.shown().as_str(),
                    ),
                ),
            ),
            Some(whole) => {
                if whole.beyond {
                    return Err(
                        shape_mismatch(
                            text::cat3(
                                context,
                                " integer value must fit JSON integer range, got ",
                                value.shown().as_str(),
                            ),
                        ),
                    );
                }
                Ok(Value::Int(whole.nearest))
            },
        }
    } else if !value.is_finite() {
        Err(
            shape_mismatch(
                text::cat3(context, " float value must be finite, got ", value.shown().as_str()),
            ),
        )
    } else {
        Ok(Value::Float(value.copy()))
    }
}

/// The numbers of a value in a data document.
pub open spec fn scalars_json(values: Seq<NumberModel>, integer: bool, context: Seq<char>) -> Result<
    Seq<Json>,
    Fault,
>
    decreases values.len(),
{
    if values.len() == 0 {
        Ok(Seq::empty())
    } else {
        match scalars_json(values.drop_last(), integer, context) {
            Err(fault) => Err(fault),
            Ok(before) => match scalar_json(values.last(), integer, context) {
                Err(fault) => Err(fault),
                Ok(v) => Ok(before.push(v)),
            },
        }
    }
}

proof fn lemma_scalars_fail(values: Seq<NumberModel>, integer: bool, context: Seq<char>, n: int)
    requires
        0 <= n <= values.len(),
        scalars_json(values.take(n), integer, context) is Err,
    ensures
        scalars_json(values, integer, context) == scalars_json(values.take(n), integer, context),
    decreases values.len(),
{
    if n < values.len() {
        assert(values.drop_last().take(n) =~= values.take(n));
        lemma_scalars_fail(values.drop_last(), integer, context, n);
    } else {
        assert(values.take(n) =~= values);
    }
}

/// The view of a result that carries the items of an array.
pub open spec fn json_items(r: Result<Vec<Value>, Error>) -> Result<Seq<Json>, Fault> {
    match r {
        Ok(items) => Ok(items_view(items@)),
        Err(error) => Err(error@),
    }
}

fn scalars_to_json(values: &Vec<Number>, integer: bool, context: &str) -> (r: Result<Vec<Value>, Error>)
    ensures
        json_items(r) == scalars_json(number_views(values@), integer, context@),
{
    broadcast use group_json_views;

    let ghost all = number_views(values@);
    let mut out: Vec<Value> = Vec::new();
    let mut i: usize = 0;
    while i < values.len()
        invariant
            i <= values.len(),
            all == number_views(values@),
            scalars_json(all.take(i as int), integer, context@) == Ok::<Seq<Json>, Fault>(
                items_view(out@),
            ),
        decreases values.len() - i,
    {
        proof {
            let done = all.take(i + 1);
            assert(done.drop_last() =~= all.take(i as int));
            assert(done.last() == values@[i as int]@);
        }
        match data_scalar_to_json(&values[i], integer, context) {
            Err(error) => {
                proof {
                    lemma_scalars_fail(all, integer, context@, i + 1);
                }
                return Err(error);
            },
            Ok(v) => {
                let ghost before = out@;
                let ghost content = v@;
                out.push(v);
                assert(out@.drop_last() =~= before);
                assert(items_view(out@) =~= items_view(before).push(content));
            },
        }
        i += 1;
    }
    assert(all.take(i as int) =~= all);
    Ok(out)
}

/// A shape in a data document.
pub open spec fn dims_json(shape: Seq<usize>, context: Seq<char>) -> Result<Seq<Json>, Fault>
    decreases shape.len(),
{
    if shape.len() == 0 {
        Ok(Seq::empty())
    } else {
        match dims_json(shape.drop_last(), context) {
            Err(fault) => Err(fault),
            Ok(before) => if shape.last() > i64::MAX {
                Err(
                    shape_fault(
                        context + " shape dimension must fit JSON integer range, got "@
                            + decimal_text(shape.last() as nat),
                    ),
                )
            } else {
                Ok(before.push(Json::Int(shape.last() as i64)))
            },
        }
    }
}

proof fn lemma_dims_fail(shape: Seq<usize>, context: Seq<char>, n: int)
    requires
        0 <= n <= shape.len(),
        dims_json(shape.take(n), context) is Err,
    ensures
        dims_json(shape, context) == dims_json(shape.take(n), context),
    decreases shape.len(),
{
    if n < shape.len() {
        assert(shape.drop_last().take(n) =~= shape.take(n));
        lemma_dims_fail(shape.drop_last(), context, n);
    } else {
        assert(shape.take(n) =~= shape);
    }
}

fn dims_to_json(shape: &Vec<usize>, context: &str) -> (r: Result<Vec<Value>, Error>)
    ensures
        json_items(r) == dims_json(shape@, context@),
{
    broadcast use group_json_views;

    let mut out: Vec<Value> = Vec::new();
    let mut i: usize = 0;
    while i < shape.len()
        invariant
            i <= shape.len(),
            dims_json(shape@.take(i as int), context@) == Ok::<Seq<Json>, Fault>(items_view(out@)),
        decreases shape.len() - i,
    {
        proof {
            let done = shape@.take(i + 1);
            assert(done.drop_last() =~= shape@.take(i as int));
            assert(done.last() == shape@[i as int]);
        }
        if shape[i] as u64 > 9_223_372_036_854_775_807u64 {
            proof {
                lemma_dims_fail(shape@, context@, i + 1);
            }
            let shown: String = text::decimal(shape[i] as u64);
            return Err(
                shape_mismatch(
                    text::cat3(
                        context,
                        " shape dimension must fit JSON integer range, got ",
                        shown.as_str(),
                    ),
                ),
            );
        }
        let ghost before = out@;
        let dim: Value = Value::Int(shape[i] as i64);
        assert(dim@ == Json::Int(shape@[i as int] as i64));
        out.push(dim);
        assert(out@.drop_last() =~= before);
        assert(items_view(out@) =~= items_view(before).push(dim@));
        i += 1;
    }
    assert(shape@.take(i as int) =~= shape@);
    Ok(out)
}

/// One described value of a data document.
pub open spec fn value_json(m: DataModel, context: Seq<char>) -> Result<Json, Fault> {
    match scalars_json(m.values, m.integer, context) {
        Err(fault) => Err(fault),
        Ok(values) => match dims_json(m.shape, context) {
            Err(fault) => Err(fault),
            Ok(shape) => Ok(
                Json::Object(
                    seq![
                        ("dtype"@, Json::Str(if m.integer { "int64"@ } else { "float64"@ })),
                        ("shape"@, Json::Array(shape)),
                        ("values"@, Json::Array(values)),
                    ],
                ),
            ),
        },
    }
}

/// Where a value stands, for messages.
pub open spec fn value_place(context: Seq<char>, name: Seq<char>) -> Seq<char> {
    context + " data value \""@ + name + "\""@
}

/// The fields of a data document.
pub open spec fn data_fields(data: Seq<(Seq<char>, DataModel)>, context: Seq<char>) -> Result<
    Seq<(Seq<char>, Json)>,
    Fault,
>
    decreases data.len(),
{
    if data.len() == 0 {
        Ok(Seq::empty())
    } else {
        match data_fields(data.drop_last(), context) {
            Err(fault) => Err(fault),
            Ok(before) => match value_json(data.last().1, value_place(context, data.last().0)) {
                Err(fault) => Err(fault),
                Ok(v) => Ok(before.push((data.last().0, v))),
            },
        }
    }
}

/// What writing a data document gives.
pub open spec fn data_json(data: Seq<(Seq<char>, DataModel)>, context: Seq<char>) -> Result<Json, Fault> {
    match data_fields(data, context) {
        Err(fault) => Err(fault),
        Ok(entries) => Ok(Json::Object(entries)),
    }
}

proof fn lemma_data_fails(data: Seq<(Seq<char>, DataModel)>, context: Seq<char>, n: int)
    requires
        0 <= n <= data.len(),
        data_fields(data.take(n), context) is Err,
    ensures
        data_fields(data, context) == data_fields(data.take(n), context),
    decreases data.len(),
{
    if n < data.len() {
        assert(data.drop_last().take(n) =~= data.take(n));
        lemma_data_fails(data.drop_last(), context, n);
    } else {
        assert(data.take(n) =~= data);
    }
}

fn value_to_json(value: &DataValue, context: &str) -> (r: Result<Value, Error>)
    ensures
        outcome(r) == value_json(value@, context@),
{
    broadcast use group_json_views;

    let values: Vec<Value> = scalars_to_json(&value.values, value.integer, context)?;
    let shape: Vec<Value> = dims_to_json(&value.shape, context)?;
    let ghost dims = items_view(shape@);
    let ghost numbers = items_view(values@);
    let dtype: &str = if value.integer { "int64" } else { "float64" };
    let entries: Vec<(String, Value)> = vec![
        ("dtype".to_owned(), Value::Str(dtype.to_owned())),
        ("shape".to_owned(), Value::Array(shape)),
        ("values".to_owned(), Value::Array(values)),
    ];
    assert(entries_view(entries@) =~= seq![
        ("dtype"@, Json::Str(if value.integer { "int64"@ } else { "float64"@ })),
        ("shape"@, Json::Array(dims)),
        ("values"@, Json::Array(numbers)),
    ]);
    Ok(Value::Object(entries))
}

/// Render a data document using the typed dtype/shape/values
/// convention accepted by [`data_from_json`]. This preserves integer support
/// for generated discrete observations while keeping sampling unaware of data
/// provenance.
pub fn data_to_json(data: &[(String, DataValue)], context: &str) -> (r: Result<Value, Error>)
    ensures
        outcome(r) == data_json(data_views(data@), context@),
{
    broadcast use group_json_views;

    let ghost all = data_views(data@);
    let mut entries: Vec<(String, Value)> = Vec::new();
    let mut i: usize = 0;
    while i < data.len()
        invariant
            i <= data.len(),
            all == data_views(data@),
            data_fields(all.take(i as int), context@) == Ok::<Seq<(Seq<char>, Json)>, Fault>(
                entries_view(entries@),
            ),
        decreases data.len() - i,
    {
        proof {
            let done = all.take(i + 1);
            assert(done.drop_last() =~= all.take(i as int));
            assert(done.last() == (data@[i as int].0@, data@[i as int].1@));
        }
        let name: &String = &data[i].0;
        let place: String = text::cat4(context, " data value \"", name.as_str(), "\"");
        match value_to_json(&data[i].1, place.as_str()) {
            Err(error) => {
                proof {
                    lemma_data_fails(all, context@, i + 1);
                }
                return Err(error);
            },
            Ok(v) => {
                let ghost before = entries@;
                entries.push((name.clone(), v));
                assert(entries@.drop_last() =~= before);
            },
        }
        i += 1;
    }
    assert(all.take(i as int) =~= all);
    Ok(Value::Object(entries))
}

/// The first axis splits off: the cells of a shape are those of the rest, once per index.
proof fn lemma_cells_first(shape: Seq<usize>)
    requires
        shape.len() > 0,
    ensures
        cells(shape) == shape[0] as nat * cells(shape.drop_first()),
    decreases shape.len(),
{
    if shape.len() == 1 {
        assert(shape.drop_last() =~= Seq::empty());
        assert(shape.drop_first() =~= Seq::empty());
        let n = shape[0] as nat;
        assert(1 * n == n * 1) by (nonlinear_arith);
    } else {
        lemma_cells_first(shape.drop_last());
        assert(shape.drop_last().drop_first() =~= shape.drop_first().drop_last());
        assert(shape.drop_first().last() == shape.last());
        let a = shape[0] as nat;
        let b = cells(shape.drop_first().drop_last());
        let c = shape.last() as nat;
        assert((a * b) * c == a * (b * c)) by (nonlinear_arith);
    }
}

proof fn lemma_walked_len(name: Seq<char>, v: Json, shape: Seq<usize>)
    requires
        walked(name, v, shape) is Ok,
    ensures
        walked(name, v, shape)->Ok_0.len() == cells(shape),
    decreases v,
{
    if shape.len() > 0 {
        let items = v->Array_0;
        lemma_walked_items_len(name, items, shape.drop_first());
        lemma_cells_first(shape);
    }
}

proof fn lemma_walked_items_len(name: Seq<char>, items: Seq<Json>, shape: Seq<usize>)
    requires
        walked_items(name, items, shape) is Ok,
    ensures
        walked_items(name, items, shape)->Ok_0.len() == items.len() * cells(shape),
    decreases items,
{
    if items.len() == 0 {
        assert(0 * cells(shape) == 0) by (nonlinear_arith);
    } else {
        lemma_walked_items_len(name, items.drop_last(), shape);
        lemma_walked_len(name, items.last(), shape);
        let n = items.drop_last().len();
        let c = cells(shape);
        assert((n + 1) * c == n * c + c) by (nonlinear_arith);
    }
}

/// A data value that was read has as many numbers as its shape has cells.
pub proof fn law_read_value_is_filled(name: Seq<char>, v: Json)
    requires
        read_value(name, v) is Ok,
    ensures
        filled(read_value(name, v)->Ok_0),
{
    match v {
        Json::Array(_) => {
            lemma_walked_len(name, v, probed_shape(v));
        },
        _ => {},
    }
}

/// Every value of a data document that was read is filled.
pub proof fn law_read_data_is_filled(v: Json)
    requires
        read_data(v) is Ok,
    ensures
        forall|i: int|
            0 <= i < read_data(v)->Ok_0.len() ==> filled((#[trigger] read_data(v)->Ok_0[i]).1),
{
    let entries = v->Object_0;
    if field(v, "format"@) is Some {
        lemma_read_entries_filled(field_from(entries, "variables"@, 0)->0->Object_0);
    } else {
        lemma_read_entries_filled(entries);
    }
}

proof fn lemma_read_entries_filled(entries: Seq<(Seq<char>, Json)>)
    requires
        read_entries(entries) is Ok,
    ensures
        forall|i: int|
            0 <= i < read_entries(entries)->Ok_0.len() ==> filled(
                (#[trigger] read_entries(entries)->Ok_0[i]).1,
            ),
    decreases entries.len(),
{
    if entries.len() > 0 {
        lemma_read_entries_filled(entries.drop_last());
        law_read_value_is_filled(entries.last().0, entries.last().1);
    }
}

/// A number that a data document keeps: a finite double, or for integers a double that stands for
/// a 64-bit integer in its canonical spelling.
pub open spec fn kept_number(n: NumberModel, integer: bool) -> bool {
    if integer {
        integral(n.bits) && !beyond_integers(integer_value(n.bits)) && n == number_of_integer(
            clamped(integer_value(n.bits)) as int,
        )
    } else {
        finite(n.bits)
    }
}

/// A data value that a data document keeps.
pub open spec fn kept_value(m: DataModel) -> bool {
    &&& filled(m)
    &&& m.values.len() <= usize::MAX
    &&& forall|i: int| 0 <= i < m.values.len() ==> kept_number(#[trigger] m.values[i], m.integer)
    &&& forall|i: int| 0 <= i < m.shape.len() ==> (#[trigger] m.shape[i]) <= i64::MAX
}

proof fn lemma_scalars_back(name: Seq<char>, values: Seq<NumberModel>, integer: bool, context: Seq<char>)
    requires
        forall|i: int| 0 <= i < values.len() ==> kept_number(#[trigger] values[i], integer),
    ensures
        scalars_json(values, integer, context) is Ok,
        collected_all(name, scalars_json(values, integer, context)->Ok_0, false) == Ok::<
            Seq<NumberModel>,
            Fault,
        >(values),
    decreases values.len(),
{
    if values.len() == 0 {
        assert(values =~= Seq::empty());
    } else {
        let before = values.drop_last();
        assert forall|i: int| 0 <= i < before.len() implies kept_number(
            #[trigger] before[i],
            integer,
        ) by {
            assert(before[i] == values[i]);
        }
        lemma_scalars_back(name, before, integer, context);
        assert(kept_number(values[values.len() - 1], integer));
        let items = scalars_json(values, integer, context)->Ok_0;
        assert(items.drop_last() =~= scalars_json(before, integer, context)->Ok_0);
        assert(before.push(values.last()) =~= values);
    }
}

proof fn lemma_dims_back(name: Seq<char>, shape: Seq<usize>, context: Seq<char>)
    requires
        forall|i: int| 0 <= i < shape.len() ==> (#[trigger] shape[i]) <= i64::MAX,
    ensures
        dims_json(shape, context) is Ok,
        shape_entries(name, dims_json(shape, context)->Ok_0) == Ok::<Seq<usize>, Fault>(shape),
    decreases shape.len(),
{
    if shape.len() == 0 {
        assert(shape =~= Seq::empty());
    } else {
        let before = shape.drop_last();
        assert forall|i: int| 0 <= i < before.len() implies (#[trigger] before[i]) <= i64::MAX by {
            assert(before[i] == shape[i]);
        }
        lemma_dims_back(name, before, context);
        assert(shape[shape.len() - 1] <= i64::MAX);
        let items = dims_json(shape, context)->Ok_0;
        assert(items.drop_last() =~= dims_json(before, context)->Ok_0);
        assert(before.push(shape.last()) =~= shape);
    }
}

proof fn lemma_value_fields(v: Json)
    requires
        v is Object,
        v->Object_0.len() == 3,
        v->Object_0[0].0 == "dtype"@,
        v->Object_0[1].0 == "shape"@,
        v->Object_0[2].0 == "values"@,
    ensures
        field(v, "dtype"@) == Some(v->Object_0[0].1),
        field(v, "shape"@) == Some(v->Object_0[1].1),
        field(v, "values"@) == Some(v->Object_0[2].1),
{
    reveal_strlit("dtype");
    reveal_strlit("shape");
    reveal_strlit("values");
    assert("dtype"@.len() == 5 && "shape"@.len() == 5 && "values"@.len() == 6);
    assert("dtype"@[0] == 'd' && "shape"@[0] == 's');
    reveal_with_fuel(field_from, 4);
}

/// A data value is read back from its document form.
pub proof fn law_value_round_trip(name: Seq<char>, m: DataModel, context: Seq<char>)
    requires
        kept_value(m),
    ensures
        value_json(m, context) is Ok,
        read_value(name, value_json(m, context)->Ok_0) == Ok::<DataModel, Fault>(m),
{
    lemma_scalars_back(name, m.values, m.integer, context);
    lemma_dims_back(name, m.shape, context);
    let v = value_json(m, context)->Ok_0;
    lemma_value_fields(v);
    lemma_type_names();
}

/// What the names of number types that are written stand for.
proof fn lemma_type_names()
    ensures
        integer_type("int64"@),
        !integer_type("float64"@),
        "int64"@ != "bool"@,
        "float64"@ != "bool"@,
{
    reveal_strlit("int64");
    reveal_strlit("float64");
    reveal_strlit("bool");
    reveal_strlit("int");
    reveal_strlit("uint");
    assert("int64"@.len() == 5 && "float64"@.len() == 7 && "bool"@.len() == 4);
    assert("int"@ =~= "int64"@.subrange(0, 3));
    assert("float64"@[0] == 'f' && "int"@[0] == 'i' && "uint"@[0] == 'u');
    assert("int"@.len() == 3 && "uint"@.len() == 4);
    assert("int"@.is_prefix_of("int64"@));
    assert(!"int"@.is_prefix_of("float64"@)) by {
        if "int"@.is_prefix_of("float64"@) {
            assert("float64"@.subrange(0, 3)[0] == "int"@[0]);
        }
    }
    assert(!"uint"@.is_prefix_of("float64"@)) by {
        if "uint"@.is_prefix_of("float64"@) {
            assert("float64"@.subrange(0, 4)[0] == "uint"@[0]);
        }
    }
}
/// What becomes of a number in a data document: an integer is spelled anew.
pub open spec fn number_back(n: NumberModel, integer: bool) -> NumberModel {
    if integer {
        number_of_integer(clamped(integer_value(n.bits)) as int)
    } else {
        n
    }
}

/// What becomes of a value in a data document.
pub open spec fn value_back(m: DataModel) -> DataModel {
    DataModel { values: m.values.map_values(|n: NumberModel| number_back(n, m.integer)), ..m }
}

/// Values of the same shape and kind whose numbers are equal, one by one.
pub open spec fn equal_values(a: DataModel, b: DataModel) -> bool {
    &&& a.shape == b.shape
    &&& a.integer == b.integer
    &&& a.values.len() == b.values.len()
    &&& forall|i: int|
        0 <= i < a.values.len() ==> equal_value((#[trigger] a.values[i]).bits, b.values[i].bits)
}

proof fn lemma_scalars_read_back(
    name: Seq<char>,
    values: Seq<NumberModel>,
    integer: bool,
    context: Seq<char>,
)
    requires
        scalars_json(values, integer, context) is Ok,
    ensures
        collected_all(name, scalars_json(values, integer, context)->Ok_0, false) == Ok::<
            Seq<NumberModel>,
            Fault,
        >(values.map_values(|n: NumberModel| number_back(n, integer))),
        forall|i: int|
            0 <= i < values.len() ==> equal_value(
                number_back(#[trigger] values[i], integer).bits,
                values[i].bits,
            ),
    decreases values.len(),
{
    let f = |n: NumberModel| number_back(n, integer);
    if values.len() == 0 {
        assert(values.map_values(f) =~= Seq::empty());
    } else {
        let before = values.drop_last();
        lemma_scalars_read_back(name, before, integer, context);
        let items = scalars_json(values, integer, context)->Ok_0;
        assert(items.drop_last() =~= scalars_json(before, integer, context)->Ok_0);
        assert(values.map_values(f) =~= before.map_values(f).push(f(values.last())));
        if integer {
            law_integer_is_its_own_double(values.last().bits);
        }
        assert forall|i: int| 0 <= i < values.len() implies equal_value(
            number_back(#[trigger] values[i], integer).bits,
            values[i].bits,
        ) by {
            if i < before.len() {
                assert(before[i] == values[i]);
            }
        }
    }
}

proof fn lemma_dims_in_range(shape: Seq<usize>, context: Seq<char>)
    requires
        dims_json(shape, context) is Ok,
    ensures
        forall|i: int| 0 <= i < shape.len() ==> (#[trigger] shape[i]) <= i64::MAX,
    decreases shape.len(),
{
    if shape.len() > 0 {
        lemma_dims_in_range(shape.drop_last(), context);
        assert forall|i: int| 0 <= i < shape.len() implies (#[trigger] shape[i]) <= i64::MAX by {
            if i < shape.len() - 1 {
                assert(shape.drop_last()[i] == shape[i]);
            }
        }
    }
}

proof fn lemma_value_read_back(name: Seq<char>, m: DataModel, context: Seq<char>)
    requires
        filled(m),
        m.values.len() <= usize::MAX,
        value_json(m, context) is Ok,
    ensures
        read_value(name, value_json(m, context)->Ok_0) == Ok::<DataModel, Fault>(value_back(m)),
        equal_values(value_back(m), m),
{
    lemma_scalars_read_back(name, m.values, m.integer, context);
    lemma_dims_in_range(m.shape, context);
    lemma_dims_back(name, m.shape, context);
    lemma_value_fields(value_json(m, context)->Ok_0);
    lemma_type_names();
    assert forall|i: int| 0 <= i < m.values.len() implies equal_value(
        (#[trigger] value_back(m).values[i]).bits,
        m.values[i].bits,
    ) by {
        assert(value_back(m).values[i] == number_back(m.values[i], m.integer));
    }
}

proof fn lemma_fields_read_back(data: Seq<(Seq<char>, DataModel)>, context: Seq<char>)
    requires
        forall|i: int|
            0 <= i < data.len() ==> filled((#[trigger] data[i]).1) && data[i].1.values.len()
                <= usize::MAX && data[i].0 != "format"@,
        data_fields(data, context) is Ok,
    ensures
        read_entries(data_fields(data, context)->Ok_0) == Ok::<Seq<(Seq<char>, DataModel)>, Fault>(
            data.map_values(|entry: (Seq<char>, DataModel)| (entry.0, value_back(entry.1))),
        ),
        forall|i: int| 0 <= i < data.len() ==> equal_values(value_back((#[trigger] data[i]).1), data[i].1),
        forall|k: int|
            0 <= k < data_fields(data, context)->Ok_0.len() ==> (#[trigger] data_fields(
                data,
                context,
            )->Ok_0[k]).0 != "format"@,
    decreases data.len(),
{
    let f = |entry: (Seq<char>, DataModel)| (entry.0, value_back(entry.1));
    if data.len() == 0 {
        assert(data.map_values(f) =~= Seq::empty());
    } else {
        let before = data.drop_last();
        assert forall|i: int| 0 <= i < before.len() implies filled((#[trigger] before[i]).1)
            && before[i].1.values.len() <= usize::MAX && before[i].0 != "format"@ by {
            assert(before[i] == data[i]);
        }
        lemma_fields_read_back(before, context);
        let last = data[data.len() - 1];
        assert(filled(last.1));
        lemma_value_read_back(last.0, last.1, value_place(context, last.0));
        let entries = data_fields(data, context)->Ok_0;
        assert(entries.drop_last() =~= data_fields(before, context)->Ok_0);
        assert(data.map_values(f) =~= before.map_values(f).push(f(last)));
        assert forall|i: int| 0 <= i < data.len() implies equal_values(
            value_back((#[trigger] data[i]).1),
            data[i].1,
        ) by {
            if i < before.len() {
                assert(before[i] == data[i]);
            }
        }
    }
}

/// Whatever was written as a data document is read back: the same names in the same order, each
/// with its shape, its kind and equal numbers. A value may not bear the reserved name `format`.
pub proof fn law_written_data_are_read_back(data: Seq<(Seq<char>, DataModel)>, context: Seq<char>)
    requires
        forall|i: int|
            0 <= i < data.len() ==> filled((#[trigger] data[i]).1) && data[i].1.values.len()
                <= usize::MAX && data[i].0 != "format"@,
        data_json(data, context) is Ok,
    ensures
        read_data(data_json(data, context)->Ok_0) matches Ok(found) && found.len() == data.len()
            && forall|i: int|
            0 <= i < data.len() ==> (#[trigger] found[i]).0 == data[i].0 && equal_values(
                found[i].1,
                data[i].1,
            ),
{
    lemma_fields_read_back(data, context);
    lemma_no_format(data_fields(data, context)->Ok_0, 0);
    let found = read_data(data_json(data, context)->Ok_0)->Ok_0;
    assert forall|i: int| 0 <= i < data.len() implies (#[trigger] found[i]).0 == data[i].0
        && equal_values(found[i].1, data[i].1) by {
        assert(found[i] == (data[i].0, value_back(data[i].1)));
    }
}

/// A data document is read back from its written form: every value that a document keeps comes
/// back, in order. A value may not bear the reserved name `format`.
pub proof fn law_data_round_trip(data: Seq<(Seq<char>, DataModel)>, context: Seq<char>)
    requires
        forall|i: int| 0 <= i < data.len() ==> kept_value((#[trigger] data[i]).1),
        forall|i: int| 0 <= i < data.len() ==> (#[trigger] data[i]).0 != "format"@,
    ensures
        data_json(data, context) is Ok,
        read_data(data_json(data, context)->Ok_0) == Ok::<Seq<(Seq<char>, DataModel)>, Fault>(data),
{
    lemma_fields_back(data, context);
    let entries = data_fields(data, context)->Ok_0;
    lemma_no_format(entries, 0);
}

proof fn lemma_no_format(entries: Seq<(Seq<char>, Json)>, i: int)
    requires
        0 <= i <= entries.len(),
        forall|k: int| 0 <= k < entries.len() ==> (#[trigger] entries[k]).0 != "format"@,
    ensures
        field_from(entries, "format"@, i) is None,
    decreases entries.len() - i,
{
    if i < entries.len() {
        lemma_no_format(entries, i + 1);
    }
}

proof fn lemma_fields_back(data: Seq<(Seq<char>, DataModel)>, context: Seq<char>)
    requires
        forall|i: int| 0 <= i < data.len() ==> kept_value((#[trigger] data[i]).1),
        forall|i: int| 0 <= i < data.len() ==> (#[trigger] data[i]).0 != "format"@,
    ensures
        data_fields(data, context) is Ok,
        read_entries(data_fields(data, context)->Ok_0) == Ok::<Seq<(Seq<char>, DataModel)>, Fault>(
            data,
        ),
        forall|k: int|
            0 <= k < data_fields(data, context)->Ok_0.len() ==> (#[trigger] data_fields(
                data,
                context,
            )->Ok_0[k]).0 != "format"@,
    decreases data.len(),
{
    if data.len() == 0 {
        assert(data =~= Seq::empty());
    } else {
        let before = data.drop_last();
        assert forall|i: int| 0 <= i < before.len() implies kept_value((#[trigger] before[i]).1)
            && before[i].0 != "format"@ by {
            assert(before[i] == data[i]);
            assert(kept_value(data[i].1));
        }
        lemma_fields_back(before, context);
        let last = data[data.len() - 1];
        assert(kept_value(last.1));
        law_value_round_trip(last.0, last.1, value_place(context, last.0));
        let entries = data_fields(data, context)->Ok_0;
        assert(entries.drop_last() =~= data_fields(before, context)->Ok_0);
        assert(before.push(last) =~= data);
    }
}

/// Named data copied.
pub fn copy_data(data: &Vec<(String, DataValue)>) -> (r: Vec<(String, DataValue)>)
    ensures
        data_views(r@) == data_views(data@),
{
    let mut out: Vec<(String, DataValue)> = Vec::new();
    let mut i: usize = 0;
    while i < data.len()
        invariant
            i <= data.len(),
            out.len() == i,
            forall|k: int|
                0 <= k < i ==> (#[trigger] out@[k]).0@ == data@[k].0@ && out@[k].1@ == data@[k].1@,
        decreases data.len() - i,
    {
        out.push((data[i].0.clone(), data[i].1.copy()));
        i += 1;
    }
    assert(data_views(out@) =~= data_views(data@));
    out
}

} // verus!
