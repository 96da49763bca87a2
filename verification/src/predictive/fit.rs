//! Streams of posterior draws: a header, one line per retained draw, and a trailer.

use vstd::prelude::*;

#[allow(unused_imports)]
use crate::artifact::cells;
use crate::artifact::V0_PROVISIONAL;
use crate::data::{copy_shape, count_cells};
#[allow(unused_imports)]
use crate::data::number_views;
use crate::error::{malformed, Error};
#[allow(unused_imports)]
use crate::error::{malformed_fault, outcome, Fault};
#[allow(unused_imports)]
use crate::investigation::fields::{judged, verdict};
#[allow(unused_imports)]
use crate::investigation::ledger::views;
#[allow(unused_imports)]
use crate::investigation::manifest::{list_outcome, reads};
#[allow(unused_imports)]
use crate::investigation::samples::packing_views;
use crate::json::Value;
#[allow(unused_imports)]
use crate::json::{
    array_of, field, group_json_views, integer_of, items_view, number_of, string_of, Json,
};
use crate::lines::lines;
#[allow(unused_imports)]
use crate::lines::lines_of;
#[allow(unused_imports)]
use crate::model::shape_outcome;
use crate::number::Number;
#[allow(unused_imports)]
use crate::number::NumberModel;
use crate::tensor::Tensor;
#[allow(unused_imports)]
use crate::tensor::{full, TensorModel};
use crate::text;
#[allow(unused_imports)]
use crate::text::{blank, decimal_text, integer_text, numbers_text, text_views};

verus! {

/// A parameter of a fit: its name, its shape, and how many entries a draw has for it.
#[derive(Debug)]
pub struct FitParamSpec {
    pub name: String,
    pub shape: Vec<usize>,
    pub size: usize,
}

/// The mathematical content of a [`FitParamSpec`].
#[verifier::ext_equal]
pub struct FitParamModel {
    pub name: Seq<char>,
    pub shape: Seq<usize>,
    pub size: usize,
}

impl View for FitParamSpec {
    type V = FitParamModel;

    open spec fn view(&self) -> FitParamModel {
        FitParamModel { name: self.name@, shape: self.shape@, size: self.size }
    }
}

/// One retained draw.
#[derive(Debug)]
pub struct FitDraw {
    pub draw_index: usize,
    pub chain: i64,
    pub draw: i64,
    pub values: Vec<Tensor>,
}

/// The mathematical content of a [`FitDraw`].
#[verifier::ext_equal]
pub struct FitDrawModel {
    pub draw_index: usize,
    pub chain: i64,
    pub draw: i64,
    pub values: Seq<TensorModel>,
}

impl View for FitDraw {
    type V = FitDrawModel;

    open spec fn view(&self) -> FitDrawModel {
        FitDrawModel {
            draw_index: self.draw_index,
            chain: self.chain,
            draw: self.draw,
            values: views(self.values@),
        }
    }
}

/// A complete stream of draws.
#[derive(Debug)]
pub struct FitDrawStream {
    pub source_seed: i64,
    pub params: Vec<FitParamSpec>,
    pub draws: Vec<FitDraw>,
}

/// The mathematical content of a [`FitDrawStream`].
#[verifier::ext_equal]
pub struct FitModel {
    pub source_seed: i64,
    pub params: Seq<FitParamModel>,
    pub draws: Seq<FitDrawModel>,
}

impl View for FitDrawStream {
    type V = FitModel;

    open spec fn view(&self) -> FitModel {
        FitModel {
            source_seed: self.source_seed,
            params: views(self.params@),
            draws: views(self.draws@),
        }
    }
}

/// The first `n` extents of a shape in a header.
pub open spec fn extents_upto(items: Seq<Json>, name: Seq<char>, n: nat) -> Result<Seq<usize>, Fault>
    decreases n,
{
    if n == 0 {
        Ok(Seq::empty())
    } else {
        match extents_upto(items, name, (n - 1) as nat) {
            Err(fault) => Err(fault),
            Ok(before) => match integer_of(Some(items[n - 1])) {
                None => Err(
                    malformed_fault(
                        "fit parameter "@ + name + " shape entries must be integers"@,
                    ),
                ),
                Some(dim) => if dim < 0 {
                    Err(
                        malformed_fault(
                            "fit parameter "@ + name + " shape entries must be non-negative"@,
                        ),
                    )
                } else {
                    Ok(before.push(dim as usize))
                },
            },
        }
    }
}

/// A shape in a header.
pub open spec fn fit_shape(v: Json, name: Seq<char>) -> Result<Seq<usize>, Fault> {
    match array_of(Some(v)) {
        None => Err(malformed_fault("fit parameter "@ + name + " shape must be an array"@)),
        Some(items) => extents_upto(items, name, items.len()),
    }
}

proof fn lemma_extents_fail(items: Seq<Json>, name: Seq<char>, m: nat, n: nat)
    requires
        m <= n,
        extents_upto(items, name, m) is Err,
    ensures
        extents_upto(items, name, n) == extents_upto(items, name, m),
    decreases n - m,
{
    if m < n {
        lemma_extents_fail(items, name, m, (n - 1) as nat);
    }
}

fn parse_fit_shape(value: &Value, name: &str) -> (r: Result<Vec<usize>, Error>)
    ensures
        shape_outcome(r) == fit_shape(value@, name@),
{
    broadcast use group_json_views;

    match value.as_array() {
        None => Err(malformed(text::cat3("fit parameter ", name, " shape must be an array"))),
        Some(dims) => {
            let ghost items = items_view(dims@);
            let ghost count = items.len();
            let mut out: Vec<usize> = Vec::new();
            let mut i: usize = 0;
            while i < dims.len()
                invariant
                    i <= dims.len(),
                    items == items_view(dims@),
                    count == items.len(),
                    count == dims.len(),
                    array_of(Some(value@)) == Some(items),
                    extents_upto(items, name@, i as nat) == Ok::<Seq<usize>, Fault>(out@),
                decreases dims.len() - i,
            {
                broadcast use group_json_views;

                assert(items[i as int] == dims@[i as int]@);
                match dims[i].as_i64() {
                    None => {
                        proof {
                            lemma_extents_fail(items, name@, (i + 1) as nat, count);
                        }
                        return Err(
                            malformed(
                                text::cat3(
                                    "fit parameter ",
                                    name,
                                    " shape entries must be integers",
                                ),
                            ),
                        );
                    },
                    Some(dim) => {
                        if dim < 0 {
                            proof {
                                lemma_extents_fail(items, name@, (i + 1) as nat, count);
                            }
                            return Err(
                                malformed(
                                    text::cat3(
                                        "fit parameter ",
                                        name,
                                        " shape entries must be non-negative",
                                    ),
                                ),
                            );
                        }
                        out.push(dim as usize);
                    },
                }
                i += 1;
            }
            Ok(out)
        },
    }
}

/// The product of the first `n` extents, as far as it can be counted on the way.
pub open spec fn product_upto(shape: Seq<usize>, n: nat) -> Option<nat>
    decreases n,
{
    if n == 0 {
        Some(1)
    } else {
        match product_upto(shape, (n - 1) as nat) {
            None => None,
            Some(before) => if before * shape[n - 1] as nat > usize::MAX {
                None
            } else {
                Some(before * shape[n - 1] as nat)
            },
        }
    }
}

/// How many entries a shape takes: at least one.
pub open spec fn fit_size(shape: Seq<usize>, name: Seq<char>) -> Result<usize, Fault> {
    match product_upto(shape, shape.len()) {
        None => Err(
            malformed_fault("fit parameter "@ + name + " shape is too large for this build"@),
        ),
        Some(size) => Ok(
            if size < 1 {
                1usize
            } else {
                size as usize
            },
        ),
    }
}

/// The view of a result that carries a count.
pub open spec fn count_outcome(r: Result<usize, Error>) -> Result<usize, Fault> {
    match r {
        Ok(n) => Ok(n),
        Err(error) => Err(error@),
    }
}

proof fn lemma_product_fail(shape: Seq<usize>, m: nat, n: nat)
    requires
        m <= n,
        product_upto(shape, m) is None,
    ensures
        product_upto(shape, n) is None,
    decreases n - m,
{
    if m < n {
        lemma_product_fail(shape, m, (n - 1) as nat);
    }
}

fn fit_shape_size(shape: &Vec<usize>, name: &str) -> (r: Result<usize, Error>)
    ensures
        count_outcome(r) == fit_size(shape@, name@),
{
    let ghost count = shape@.len();
    let mut size: usize = 1;
    let mut i: usize = 0;
    while i < shape.len()
        invariant
            i <= shape.len(),
            count == shape@.len(),
            product_upto(shape@, i as nat) == Some(size as nat),
        decreases shape.len() - i,
    {
        match size.checked_mul(shape[i]) {
            None => {
                proof {
                    lemma_product_fail(shape@, (i + 1) as nat, count);
                }
                return Err(
                    malformed(
                        text::cat3("fit parameter ", name, " shape is too large for this build"),
                    ),
                );
            },
            Some(next) => {
                size = next;
            },
        }
        i += 1;
    }
    if size < 1 {
        Ok(1)
    } else {
        Ok(size)
    }
}

/// One parameter of a header.
pub open spec fn fit_param(v: Json) -> Result<FitParamModel, Fault> {
    match string_of(field(v, "name"@)) {
        None => Err(malformed_fault("each fit params entry needs a string name"@)),
        Some(name) => match field(v, "shape"@) {
            None => Err(malformed_fault("fit parameter "@ + name + " needs a shape"@)),
            Some(shape_field) => match fit_shape(shape_field, name) {
                Err(fault) => Err(fault),
                Ok(shape) => match fit_size(shape, name) {
                    Err(fault) => Err(fault),
                    Ok(size) => Ok(FitParamModel { name, shape, size }),
                },
            },
        },
    }
}

fn parse_fit_param(param: &Value) -> (r: Result<FitParamSpec, Error>)
    ensures
        outcome(r) == fit_param(param@),
{
    let named: Option<&str> = match param.get("name") {
        Some(value) => value.as_str(),
        None => None,
    };
    match named {
        None => Err(malformed("each fit params entry needs a string name".to_owned())),
        Some(name) => match param.get("shape") {
            None => Err(malformed(text::cat3("fit parameter ", name, " needs a shape"))),
            Some(shape_field) => {
                let shape: Vec<usize> = parse_fit_shape(shape_field, name)?;
                let size: usize = fit_shape_size(&shape, name)?;
                Ok(FitParamSpec { name: name.to_owned(), shape, size })
            },
        },
    }
}

/// The first `n` parameters of a header.
pub open spec fn params_upto(items: Seq<Json>, n: nat) -> Result<Seq<FitParamModel>, Fault>
    decreases n,
{
    if n == 0 {
        Ok(Seq::empty())
    } else {
        match params_upto(items, (n - 1) as nat) {
            Err(fault) => Err(fault),
            Ok(before) => match fit_param(items[n - 1]) {
                Err(fault) => Err(fault),
                Ok(param) => Ok(before.push(param)),
            },
        }
    }
}

proof fn lemma_params_fail(items: Seq<Json>, m: nat, n: nat)
    requires
        m <= n,
        params_upto(items, m) is Err,
    ensures
        params_upto(items, n) == params_upto(items, m),
    decreases n - m,
{
    if m < n {
        lemma_params_fail(items, m, (n - 1) as nat);
    }
}

/// The parameters of a header.
pub open spec fn fit_params(header: Json) -> Result<Seq<FitParamModel>, Fault> {
    if string_of(field(header, "draws_format"@)) != Some(V0_PROVISIONAL@) {
        Err(
            malformed_fault(
                "fit header needs draws_format \"v0-provisional\"; rerun `bayesite sample`"@,
            ),
        )
    } else if string_of(field(header, "artifact_kind"@)) != Some("posterior_draws"@) {
        Err(
            malformed_fault(
                "fit header artifact_kind must be \"posterior_draws\"; pass output from `bayesite sample`"@,
            ),
        )
    } else {
        match array_of(field(header, "params"@)) {
            None => Err(
                malformed_fault("fit header needs a params array from `bayesite sample`"@),
            ),
            Some(items) => match params_upto(items, items.len()) {
                Err(fault) => Err(fault),
                Ok(params) => if params.len() == 0 {
                    Err(
                        malformed_fault(
                            "fit header has no parameters; posterior-predictive needs a posterior draw stream"@,
                        ),
                    )
                } else {
                    Ok(params)
                },
            },
        }
    }
}

fn text_is(doc: &Value, name: &str, wanted: &str) -> (r: bool)
    ensures
        r == (string_of(field(doc@, name@)) == Some(wanted@)),
{
    match doc.get(name) {
        Some(value) => match value.as_str() {
            Some(found) => text::same(found, wanted),
            None => false,
        },
        None => false,
    }
}

fn integer_at(doc: &Value, name: &str) -> (r: Option<i64>)
    ensures
        r == integer_of(field(doc@, name@)),
{
    match doc.get(name) {
        Some(value) => value.as_i64(),
        None => None,
    }
}

fn parse_fit_params(header: &Value) -> (r: Result<Vec<FitParamSpec>, Error>)
    ensures
        list_outcome(r) == fit_params(header@),
{
    broadcast use group_json_views;

    if !text_is(header, "draws_format", V0_PROVISIONAL) {
        return Err(
            malformed(
                "fit header needs draws_format \"v0-provisional\"; rerun `bayesite sample`".to_owned(),
            ),
        );
    }
    if !text_is(header, "artifact_kind", "posterior_draws") {
        return Err(
            malformed(
                "fit header artifact_kind must be \"posterior_draws\"; pass output from `bayesite sample`".to_owned(),
            ),
        );
    }
    let found: Option<&Vec<Value>> = match header.get("params") {
        Some(value) => value.as_array(),
        None => None,
    };
    match found {
        None => Err(
            malformed("fit header needs a params array from `bayesite sample`".to_owned()),
        ),
        Some(list) => {
            let ghost items = items_view(list@);
            let ghost count = items.len();
            let mut out: Vec<FitParamSpec> = Vec::new();
            assert(views(out@) =~= Seq::empty());
            let mut i: usize = 0;
            while i < list.len()
                invariant
                    i <= list.len(),
                    items == items_view(list@),
                    count == items.len(),
                    count == list.len(),
                    out.len() == i,
                    string_of(field(header@, "draws_format"@)) == Some(V0_PROVISIONAL@),
                    string_of(field(header@, "artifact_kind"@)) == Some("posterior_draws"@),
                    array_of(field(header@, "params"@)) == Some(items),
                    params_upto(items, i as nat) == Ok::<Seq<FitParamModel>, Fault>(views(out@)),
                decreases list.len() - i,
            {
                broadcast use group_json_views;

                assert(items[i as int] == list@[i as int]@);
                match parse_fit_param(&list[i]) {
                    Err(error) => {
                        proof {
                            lemma_params_fail(items, (i + 1) as nat, count);
                        }
                        return Err(error);
                    },
                    Ok(param) => {
                        let ghost before = out@;
                        let ghost content = param@;
                        out.push(param);
                        assert(views(out@) =~= views(before).push(content));
                    },
                }
                i += 1;
            }
            assert(views(out@).len() == out.len());
            if out.len() == 0 {
                return Err(
                    malformed(
                        "fit header has no parameters; posterior-predictive needs a posterior draw stream".to_owned(),
                    ),
                );
            }
            Ok(out)
        },
    }
}

/// The first `n` numbers of a drawn value.
pub open spec fn entries_upto(items: Seq<Json>, name: Seq<char>, n: nat) -> Result<Seq<NumberModel>, Fault>
    decreases n,
{
    if n == 0 {
        Ok(Seq::empty())
    } else {
        match entries_upto(items, name, (n - 1) as nat) {
            Err(fault) => Err(fault),
            Ok(before) => match number_of(Some(items[n - 1])) {
                None => Err(
                    malformed_fault("fit draw value for "@ + name + " contains a non-number"@),
                ),
                Some(number) => Ok(before.push(number)),
            },
        }
    }
}

proof fn lemma_entries_fail(items: Seq<Json>, name: Seq<char>, m: nat, n: nat)
    requires
        m <= n,
        entries_upto(items, name, m) is Err,
    ensures
        entries_upto(items, name, n) == entries_upto(items, name, m),
    decreases n - m,
{
    if m < n {
        lemma_entries_fail(items, name, m, (n - 1) as nat);
    }
}

/// A drawn value of a parameter.
pub open spec fn fit_value(v: Json, spec_of: FitParamModel) -> Result<TensorModel, Fault> {
    if spec_of.shape.len() == 0 {
        match number_of(Some(v)) {
            None => Err(
                malformed_fault("fit draw value for "@ + spec_of.name + " must be a number"@),
            ),
            Some(number) => Ok(TensorModel { shape: Seq::empty(), values: seq![number] }),
        }
    } else {
        match array_of(Some(v)) {
            None => Err(
                malformed_fault(
                    "fit draw value for "@ + spec_of.name + " must be an array matching shape "@
                        + numbers_text(spec_of.shape),
                ),
            ),
            Some(items) => if items.len() != spec_of.size || items.len() != cells(spec_of.shape) {
                Err(
                    malformed_fault(
                        "fit draw value for "@ + spec_of.name + " has "@ + decimal_text(items.len())
                            + " entries but shape "@ + numbers_text(spec_of.shape) + " needs "@
                            + decimal_text(spec_of.size as nat),
                    ),
                )
            } else {
                match entries_upto(items, spec_of.name, items.len()) {
                    Err(fault) => Err(fault),
                    Ok(values) => Ok(TensorModel { shape: spec_of.shape, values }),
                }
            },
        }
    }
}

fn parse_fit_param_value(value: &Value, param: &FitParamSpec) -> (r: Result<Tensor, Error>)
    ensures
        outcome(r) == fit_value(value@, param@),
{
    broadcast use group_json_views;

    if param.shape.len() == 0 {
        return match value.as_f64() {
            None => Err(
                malformed(
                    text::cat3("fit draw value for ", param.name.as_str(), " must be a number"),
                ),
            ),
            Some(number) => Ok(Tensor::scalar(number)),
        };
    }
    match value.as_array() {
        None => {
            let shown: String = text::numbers(param.shape.as_slice());
            Err(
                malformed(
                    text::cat4(
                        "fit draw value for ",
                        param.name.as_str(),
                        " must be an array matching shape ",
                        shown.as_str(),
                    ),
                ),
            )
        },
        Some(list) => {
            let ghost items = items_view(list@);
            let ghost count = items.len();
            let fits: bool = match count_cells(&param.shape) {
                Some(n) => n == list.len(),
                None => false,
            };
            if list.len() != param.size || !fits {
                let have: String = text::decimal(list.len() as u64);
                let shown: String = text::numbers(param.shape.as_slice());
                let wanted: String = text::decimal(param.size as u64);
                let head: String = text::cat4(
                    "fit draw value for ",
                    param.name.as_str(),
                    " has ",
                    have.as_str(),
                );
                return Err(
                    malformed(
                        text::cat5(
                            head.as_str(),
                            " entries but shape ",
                            shown.as_str(),
                            " needs ",
                            wanted.as_str(),
                        ),
                    ),
                );
            }
            let mut out: Vec<Number> = Vec::new();
            assert(number_views(out@) =~= Seq::empty());
            let mut i: usize = 0;
            while i < list.len()
                invariant
                    i <= list.len(),
                    items == items_view(list@),
                    count == items.len(),
                    count == list.len(),
                    count == param.size,
                    count == cells(param.shape@),
                    param.shape.len() > 0,
                    array_of(Some(value@)) == Some(items),
                    entries_upto(items, param.name@, i as nat) == Ok::<Seq<NumberModel>, Fault>(
                        number_views(out@),
                    ),
                decreases list.len() - i,
            {
                broadcast use group_json_views;

                assert(items[i as int] == list@[i as int]@);
                match list[i].as_f64() {
                    None => {
                        proof {
                            lemma_entries_fail(items, param.name@, (i + 1) as nat, count);
                        }
                        return Err(
                            malformed(
                                text::cat3(
                                    "fit draw value for ",
                                    param.name.as_str(),
                                    " contains a non-number",
                                ),
                            ),
                        );
                    },
                    Some(number) => {
                        let ghost before = out@;
                        let ghost content = number@;
                        out.push(number);
                        assert(number_views(out@) =~= number_views(before).push(content));
                    },
                }
                i += 1;
            }
            Ok(Tensor { shape: copy_shape(&param.shape), values: out })
        },
    }
}

/// The drawn values of the first `n` parameters.
pub open spec fn values_upto(v: Json, params: Seq<FitParamModel>, n: nat) -> Result<
    Seq<TensorModel>,
    Fault,
>
    decreases n,
{
    if n == 0 {
        Ok(Seq::empty())
    } else {
        match values_upto(v, params, (n - 1) as nat) {
            Err(fault) => Err(fault),
            Ok(before) => match field(v, params[n - 1].name) {
                None => Err(
                    malformed_fault(
                        "fit draw line is missing value for "@ + params[n - 1].name,
                    ),
                ),
                Some(drawn) => match fit_value(drawn, params[n - 1]) {
                    Err(fault) => Err(fault),
                    Ok(value) => Ok(before.push(value)),
                },
            },
        }
    }
}

proof fn lemma_values_fail(v: Json, params: Seq<FitParamModel>, m: nat, n: nat)
    requires
        m <= n,
        values_upto(v, params, m) is Err,
    ensures
        values_upto(v, params, n) == values_upto(v, params, m),
    decreases n - m,
{
    if m < n {
        lemma_values_fail(v, params, m, (n - 1) as nat);
    }
}

fn parse_fit_values(values: &Value, params: &Vec<FitParamSpec>) -> (r: Result<Vec<Tensor>, Error>)
    ensures
        list_outcome(r) == values_upto(values@, views(params@), params@.len()),
{
    let ghost specs = views(params@);
    let ghost count = params@.len();
    let mut out: Vec<Tensor> = Vec::new();
    assert(views(out@) =~= Seq::empty());
    let mut i: usize = 0;
    while i < params.len()
        invariant
            i <= params.len(),
            specs == views(params@),
            count == params@.len(),
            values_upto(values@, specs, i as nat) == Ok::<Seq<TensorModel>, Fault>(views(out@)),
        decreases params.len() - i,
    {
        let param: &FitParamSpec = &params[i];
        assert(specs[i as int] == param@);
        let parsed: Result<Tensor, Error> = match values.get(param.name.as_str()) {
            None => Err(
                malformed(text::cat2("fit draw line is missing value for ", param.name.as_str())),
            ),
            Some(drawn) => parse_fit_param_value(drawn, param),
        };
        match parsed {
            Err(error) => {
                proof {
                    lemma_values_fail(values@, specs, (i + 1) as nat, count);
                }
                return Err(error);
            },
            Ok(value) => {
                let ghost before = out@;
                let ghost content = value@;
                out.push(value);
                assert(views(out@) =~= views(before).push(content));
            },
        }
        i += 1;
    }
    Ok(out)
}

/// The index of a draw: what the line says, which must be what is due, or what is due.
pub open spec fn fit_draw_index(line: Json, due: usize) -> Result<usize, Fault> {
    match field(line, "draw_index"@) {
        None => Ok(due),
        Some(v) => match integer_of(Some(v)) {
            None => Err(malformed_fault("fit draw_index must be an integer when present"@)),
            Some(index) => if index != due {
                Err(
                    malformed_fault(
                        "fit draw_index values must be contiguous from 0; expected "@ + decimal_text(
                            due as nat,
                        ) + ", got "@ + integer_text(index as int),
                    ),
                )
            } else {
                Ok(due)
            },
        },
    }
}

/// One draw.
pub open spec fn fit_draw(line: Json, params: Seq<FitParamModel>, due: usize) -> Result<
    FitDrawModel,
    Fault,
> {
    match fit_draw_index(line, due) {
        Err(fault) => Err(fault),
        Ok(draw_index) => match integer_of(field(line, "chain"@)) {
            None => Err(malformed_fault("fit draw line needs integer chain"@)),
            Some(chain) => if chain < 0 {
                Err(malformed_fault("fit draw line chain must be non-negative"@))
            } else {
                match integer_of(field(line, "draw"@)) {
                    None => Err(malformed_fault("fit draw line needs integer draw"@)),
                    Some(draw) => if draw < 0 {
                        Err(malformed_fault("fit draw line draw must be non-negative"@))
                    } else {
                        match field(line, "values"@) {
                            None => Err(
                                malformed_fault("fit draw line needs a values object"@),
                            ),
                            Some(drawn) => match values_upto(drawn, params, params.len()) {
                                Err(fault) => Err(fault),
                                Ok(values) => Ok(FitDrawModel { draw_index, chain, draw, values }),
                            },
                        }
                    },
                }
            },
        },
    }
}

fn parse_draw_index(line: &Value, due: usize) -> (r: Result<usize, Error>)
    ensures
        count_outcome(r) == fit_draw_index(line@, due),
{
    match line.get("draw_index") {
        None => Ok(due),
        Some(value) => match value.as_i64() {
            None => Err(malformed("fit draw_index must be an integer when present".to_owned())),
            Some(index) => {
                if index < 0 || index as u64 != due as u64 {
                    let wanted: String = text::decimal(due as u64);
                    let have: String = text::integer(index);
                    return Err(
                        malformed(
                            text::cat4(
                                "fit draw_index values must be contiguous from 0; expected ",
                                wanted.as_str(),
                                ", got ",
                                have.as_str(),
                            ),
                        ),
                    );
                }
                Ok(due)
            },
        },
    }
}

fn parse_fit_draw_line(line: &Value, params: &Vec<FitParamSpec>, due: usize) -> (r: Result<
    FitDraw,
    Error,
>)
    ensures
        outcome(r) == fit_draw(line@, views(params@), due),
{
    let draw_index: usize = parse_draw_index(line, due)?;
    match integer_at(line, "chain") {
        None => Err(malformed("fit draw line needs integer chain".to_owned())),
        Some(chain) => {
            if chain < 0 {
                return Err(malformed("fit draw line chain must be non-negative".to_owned()));
            }
            match integer_at(line, "draw") {
                None => Err(malformed("fit draw line needs integer draw".to_owned())),
                Some(draw) => {
                    if draw < 0 {
                        return Err(malformed("fit draw line draw must be non-negative".to_owned()));
                    }
                    match line.get("values") {
                        None => Err(malformed("fit draw line needs a values object".to_owned())),
                        Some(drawn) => {
                            let values: Vec<Tensor> = parse_fit_values(drawn, params)?;
                            Ok(FitDraw { draw_index, chain, draw, values })
                        },
                    }
                },
            }
        },
    }
}

/// Whether the parameters of a fit are those of a model, in order.
pub open spec fn params_match(
    params: Seq<FitParamModel>,
    packing: Seq<(Seq<char>, Seq<usize>)>,
) -> bool {
    &&& params.len() == packing.len()
    &&& forall|i: int|
        0 <= i < params.len() ==> (#[trigger] params[i]).name == packing[i].0 && params[i].shape
            == packing[i].1
}

fn same_numbers(a: &Vec<usize>, b: &Vec<usize>) -> (r: bool)
    ensures
        r == (a@ == b@),
{
    if a.len() != b.len() {
        return false;
    }
    let mut i: usize = 0;
    while i < a.len()
        invariant
            i <= a.len(),
            a.len() == b.len(),
            forall|j: int| 0 <= j < i ==> a@[j] == b@[j],
        decreases a.len() - i,
    {
        if a[i] != b[i] {
            assert(a@[i as int] != b@[i as int]);
            return false;
        }
        i += 1;
    }
    assert(a@ =~= b@);
    true
}

fn match_params(params: &Vec<FitParamSpec>, packing: &Vec<(String, Vec<usize>)>) -> (r: bool)
    ensures
        r == params_match(views(params@), packing_views(packing@)),
{
    if params.len() != packing.len() {
        return false;
    }
    let ghost specs = views(params@);
    let ghost wanted = packing_views(packing@);
    let mut i: usize = 0;
    while i < params.len()
        invariant
            i <= params.len(),
            params.len() == packing.len(),
            specs == views(params@),
            wanted == packing_views(packing@),
            forall|j: int|
                0 <= j < i ==> (#[trigger] specs[j]).name == wanted[j].0 && specs[j].shape
                    == wanted[j].1,
        decreases params.len() - i,
    {
        assert(specs[i as int] == params@[i as int]@);
        assert(wanted[i as int] == (packing@[i as int].0@, packing@[i as int].1@));
        if !text::same(params[i].name.as_str(), packing[i].0.as_str()) || !same_numbers(
            &params[i].shape,
            &packing[i].1,
        ) {
            return false;
        }
        i += 1;
    }
    true
}

/// The complaint about a header or trailer whose identity is not that of model and data. Where a
/// fingerprint is expected, one that is carried decides; else the identity hash decides.
pub open spec fn identity_complaint(
    doc: Json,
    place: Seq<char>,
    hash: Seq<char>,
    fingerprint: Option<Seq<char>>,
) -> Option<Seq<char>> {
    let carried = string_of(field(doc, "model_data_fingerprint"@));
    if fingerprint is Some && carried is Some {
        if carried != fingerprint {
            Some(
                place
                    + " model_data_fingerprint must match the supplied model and data; rerun `bayesite sample` for these inputs"@,
            )
        } else {
            None
        }
    } else if string_of(field(doc, "posterior_identity_hash"@)) != Some(hash) {
        Some(
            place
                + " posterior_identity_hash must match the supplied model and data; rerun `bayesite sample` for these inputs"@,
        )
    } else {
        None
    }
}

/// The view of an optional borrowed text.
pub open spec fn borrowed_text(s: Option<&str>) -> Option<Seq<char>> {
    match s {
        Some(found) => Some(found@),
        None => None,
    }
}

fn check_identity(doc: &Value, place: &str, hash: &str, fingerprint: Option<&str>) -> (r: Result<
    (),
    Error,
>)
    ensures
        verdict(r) == judged(
            identity_complaint(doc@, place@, hash@, borrowed_text(fingerprint)),
        ),
{
    let carried: Option<&str> = match doc.get("model_data_fingerprint") {
        Some(value) => value.as_str(),
        None => None,
    };
    if let Some(expected) = fingerprint {
        if let Some(found) = carried {
            if !text::same(found, expected) {
                return Err(
                    malformed(
                        text::cat2(
                            place,
                            " model_data_fingerprint must match the supplied model and data; rerun `bayesite sample` for these inputs",
                        ),
                    ),
                );
            }
            return Ok(());
        }
    }
    if !text_is(doc, "posterior_identity_hash", hash) {
        return Err(
            malformed(
                text::cat2(
                    place,
                    " posterior_identity_hash must match the supplied model and data; rerun `bayesite sample` for these inputs",
                ),
            ),
        );
    }
    Ok(())
}

/// What a header says: its parameters, its seed, and how many draws follow.
#[verifier::ext_equal]
pub struct HeaderModel {
    pub params: Seq<FitParamModel>,
    pub seed: i64,
    pub draw_count: i64,
}

/// Reading a header.
pub open spec fn fit_header(
    header: Json,
    packing: Seq<(Seq<char>, Seq<usize>)>,
    hash: Seq<char>,
    fingerprint: Option<Seq<char>>,
) -> Result<HeaderModel, Fault> {
    match fit_params(header) {
        Err(fault) => Err(fault),
        Ok(params) => if !params_match(params, packing) {
            Err(
                malformed_fault(
                    "fit parameter order/shapes must match the model and data; rerun `bayesite sample` for this model/data pair"@,
                ),
            )
        } else {
            match identity_complaint(header, "fit"@, hash, fingerprint) {
                Some(message) => Err(malformed_fault(message)),
                None => match integer_of(field(header, "seed"@)) {
                    None => Err(
                        malformed_fault(
                            "fit header needs integer seed from `bayesite sample`"@,
                        ),
                    ),
                    Some(seed) => if seed < 0 {
                        Err(malformed_fault("fit header seed must be non-negative"@))
                    } else {
                        match integer_of(field(header, "draw_count"@)) {
                            None => Err(
                                malformed_fault(
                                    "fit header needs integer draw_count from `bayesite sample`"@,
                                ),
                            ),
                            Some(draw_count) => if draw_count < 1 {
                                Err(
                                    malformed_fault(
                                        "fit header draw_count must be at least 1"@,
                                    ),
                                )
                            } else {
                                Ok(HeaderModel { params, seed, draw_count })
                            },
                        }
                    },
                },
            }
        },
    }
}

/// What a header says.
struct FitHeader {
    params: Vec<FitParamSpec>,
    seed: i64,
    draw_count: i64,
}

impl View for FitHeader {
    type V = HeaderModel;

    closed spec fn view(&self) -> HeaderModel {
        HeaderModel {
            params: views(self.params@),
            seed: self.seed,
            draw_count: self.draw_count,
        }
    }
}

fn parse_fit_header(
    header: &Value,
    packing: &Vec<(String, Vec<usize>)>,
    hash: &str,
    fingerprint: Option<&str>,
) -> (r: Result<FitHeader, Error>)
    ensures
        outcome(r) == fit_header(
            header@,
            packing_views(packing@),
            hash@,
            borrowed_text(fingerprint),
        ),
{
    let params: Vec<FitParamSpec> = parse_fit_params(header)?;
    if !match_params(&params, packing) {
        return Err(
            malformed(
                "fit parameter order/shapes must match the model and data; rerun `bayesite sample` for this model/data pair".to_owned(),
            ),
        );
    }
    check_identity(header, "fit", hash, fingerprint)?;
    let seed: i64 = match integer_at(header, "seed") {
        None => {
            return Err(
                malformed("fit header needs integer seed from `bayesite sample`".to_owned()),
            );
        },
        Some(seed) => seed,
    };
    if seed < 0 {
        return Err(malformed("fit header seed must be non-negative".to_owned()));
    }
    let draw_count: i64 = match integer_at(header, "draw_count") {
        None => {
            return Err(
                malformed("fit header needs integer draw_count from `bayesite sample`".to_owned()),
            );
        },
        Some(count) => count,
    };
    if draw_count < 1 {
        return Err(malformed("fit header draw_count must be at least 1".to_owned()));
    }
    Ok(FitHeader { params, seed, draw_count })
}

/// The complaint about a trailer, by the seed and draw count of the header and the number of
/// draws read.
pub open spec fn trailer_complaint(
    trailer: Json,
    hash: Seq<char>,
    fingerprint: Option<Seq<char>>,
    seed: i64,
    header_count: i64,
    draws: nat,
) -> Option<Seq<char>> {
    if string_of(field(trailer, "draws_format"@)) != Some(V0_PROVISIONAL@) {
        Some(
            "fit trailer draws_format must be \"v0-provisional\"; rerun `bayesite sample`"@,
        )
    } else if string_of(field(trailer, "artifact_kind"@)) != Some("posterior_draws"@) {
        Some(
            "fit trailer artifact_kind must be \"posterior_draws\"; pass output from `bayesite sample`"@,
        )
    } else if string_of(field(trailer, "artifact_scope"@)) != Some(
        "observed_data_conditioned_parameter_draws"@,
    ) {
        Some("fit trailer artifact_scope must match posterior_draws sample output"@)
    } else if identity_complaint(trailer, "fit trailer"@, hash, fingerprint) is Some {
        identity_complaint(trailer, "fit trailer"@, hash, fingerprint)
    } else if integer_of(field(trailer, "seed"@)) != Some(seed) {
        Some("fit trailer seed must match fit header seed; rerun `bayesite sample`"@)
    } else if integer_of(field(trailer, "draw_count"@)) is None {
        Some("fit trailer needs integer draw_count from `bayesite sample`"@)
    } else if draws > i64::MAX {
        Some("fit draw_count must be reportable as a JSON integer"@)
    } else if header_count != draws || integer_of(field(trailer, "draw_count"@))->0 != draws {
        Some(
            "fit header/trailer draw_count must match parsed draw lines; rerun `bayesite sample` to completion"@,
        )
    } else if draws == 0 {
        Some("fit has no draw lines; rerun `bayesite sample` with retained draws"@)
    } else {
        None
    }
}

fn check_trailer(
    trailer: &Value,
    hash: &str,
    fingerprint: Option<&str>,
    seed: i64,
    header_count: i64,
    draws: usize,
) -> (r: Result<(), Error>)
    ensures
        verdict(r) == judged(
            trailer_complaint(
                trailer@,
                hash@,
                borrowed_text(fingerprint),
                seed,
                header_count,
                draws as nat,
            ),
        ),
{
    if !text_is(trailer, "draws_format", V0_PROVISIONAL) {
        return Err(
            malformed(
                "fit trailer draws_format must be \"v0-provisional\"; rerun `bayesite sample`".to_owned(),
            ),
        );
    }
    if !text_is(trailer, "artifact_kind", "posterior_draws") {
        return Err(
            malformed(
                "fit trailer artifact_kind must be \"posterior_draws\"; pass output from `bayesite sample`".to_owned(),
            ),
        );
    }
    if !text_is(trailer, "artifact_scope", "observed_data_conditioned_parameter_draws") {
        return Err(
            malformed(
                "fit trailer artifact_scope must match posterior_draws sample output".to_owned(),
            ),
        );
    }
    check_identity(trailer, "fit trailer", hash, fingerprint)?;
    let same_seed: bool = match integer_at(trailer, "seed") {
        Some(found) => found == seed,
        None => false,
    };
    if !same_seed {
        return Err(
            malformed(
                "fit trailer seed must match fit header seed; rerun `bayesite sample`".to_owned(),
            ),
        );
    }
    let count: i64 = match integer_at(trailer, "draw_count") {
        None => {
            return Err(
                malformed("fit trailer needs integer draw_count from `bayesite sample`".to_owned()),
            );
        },
        Some(count) => count,
    };
    if draws as u64 > 9_223_372_036_854_775_807u64 {
        return Err(malformed("fit draw_count must be reportable as a JSON integer".to_owned()));
    }
    let parsed: i64 = draws as i64;
    if header_count != parsed || count != parsed {
        return Err(
            malformed(
                "fit header/trailer draw_count must match parsed draw lines; rerun `bayesite sample` to completion".to_owned(),
            ),
        );
    }
    if draws == 0 {
        return Err(
            malformed(
                "fit has no draw lines; rerun `bayesite sample` with retained draws".to_owned(),
            ),
        );
    }
    Ok(())
}

/// The draws read so far, and the trailer once it was met.
#[verifier::ext_equal]
pub struct ProgressModel {
    pub draws: Seq<FitDrawModel>,
    pub trailer: Option<Json>,
}

/// What a line behind the header makes of the progress, by what it was read as.
pub open spec fn line_kept(
    document: Result<Json, Fault>,
    params: Seq<FitParamModel>,
    before: ProgressModel,
) -> Result<ProgressModel, Fault> {
    match document {
        Err(fault) => Err(fault),
        Ok(doc) => match field(doc, "trailer"@) {
            Some(trailer) => if before.trailer is Some {
                Err(malformed_fault("fit has more than one trailer"@))
            } else {
                Ok(ProgressModel { draws: before.draws, trailer: Some(trailer) })
            },
            None => if before.trailer is Some {
                Err(malformed_fault("fit trailer must be the final line"@))
            } else {
                match fit_draw(doc, params, before.draws.len() as usize) {
                    Err(fault) => Err(fault),
                    Ok(draw) => Ok(
                        ProgressModel { draws: before.draws.push(draw), trailer: None },
                    ),
                }
            },
        },
    }
}

/// Whether a line behind the header can come to that; `number` is its place in the text, from one.
pub open spec fn line_read(
    reading: spec_fn(Seq<char>, Result<Json, Fault>) -> bool,
    line: Seq<char>,
    number: nat,
    params: Seq<FitParamModel>,
    before: ProgressModel,
    out: Result<ProgressModel, Fault>,
) -> bool {
    if blank(line) {
        out == Err::<ProgressModel, Fault>(
            malformed_fault(
                "line "@ + decimal_text(number)
                    + " is blank; v0-provisional fit NDJSON has no blank lines"@,
            ),
        )
    } else {
        exists|document: Result<Json, Fault>| #[trigger]
            reading(line, document) && out == line_kept(document, params, before)
    }
}

/// Whether the line of that number can come to that.
pub open spec fn numbered_line_read(
    reading: spec_fn(Seq<char>, Result<Json, Fault>) -> bool,
    all: Seq<Seq<char>>,
    number: nat,
    params: Seq<FitParamModel>,
    before: ProgressModel,
    out: Result<ProgressModel, Fault>,
) -> bool {
    line_read(reading, all[number - 1], number, params, before, out)
}

/// Whether the first `n` lines, the header among them, can come to that.
pub open spec fn lines_read(
    reading: spec_fn(Seq<char>, Result<Json, Fault>) -> bool,
    all: Seq<Seq<char>>,
    params: Seq<FitParamModel>,
    n: nat,
    out: Result<ProgressModel, Fault>,
) -> bool
    decreases n,
{
    if n <= 1 {
        out == Ok::<ProgressModel, Fault>(ProgressModel { draws: Seq::empty(), trailer: None })
    } else {
        ||| out is Err && lines_read(reading, all, params, (n - 1) as nat, out)
        ||| exists|before: ProgressModel| #[trigger]
            numbered_line_read(reading, all, n, params, before, out) && lines_read(
                reading,
                all,
                params,
                (n - 1) as nat,
                Ok(before),
            )
    }
}

proof fn lemma_lines_fail(
    reading: spec_fn(Seq<char>, Result<Json, Fault>) -> bool,
    all: Seq<Seq<char>>,
    params: Seq<FitParamModel>,
    m: nat,
    n: nat,
    fault: Fault,
)
    requires
        m <= n,
        m > 1,
        lines_read(reading, all, params, m, Err(fault)),
    ensures
        lines_read(reading, all, params, n, Err(fault)),
    decreases n - m,
{
    if m < n {
        lemma_lines_fail(reading, all, params, m, (n - 1) as nat, fault);
    }
}

/// What a stream comes to once all its lines were read.
pub open spec fn stream_end(
    header: HeaderModel,
    progress: Result<ProgressModel, Fault>,
    hash: Seq<char>,
    fingerprint: Option<Seq<char>>,
) -> Result<FitModel, Fault> {
    match progress {
        Err(fault) => Err(fault),
        Ok(end) => match end.trailer {
            None => Err(
                malformed_fault(
                    "fit is missing a trailer; rerun `bayesite sample` to completion"@,
                ),
            ),
            Some(trailer) => match trailer_complaint(
                trailer,
                hash,
                fingerprint,
                header.seed,
                header.draw_count,
                end.draws.len(),
            ) {
                Some(message) => Err(malformed_fault(message)),
                None => Ok(
                    FitModel {
                        source_seed: header.seed,
                        params: header.params,
                        draws: end.draws,
                    },
                ),
            },
        },
    }
}

/// Whether the rest of a stream can come to that once its header was read.
pub open spec fn stream_behind(
    reading: spec_fn(Seq<char>, Result<Json, Fault>) -> bool,
    all: Seq<Seq<char>>,
    header: HeaderModel,
    hash: Seq<char>,
    fingerprint: Option<Seq<char>>,
    out: Result<FitModel, Fault>,
) -> bool {
    exists|progress: Result<ProgressModel, Fault>| #[trigger]
        lines_read(reading, all, header.params, all.len(), progress) && out == stream_end(
            header,
            progress,
            hash,
            fingerprint,
        )
}

/// Whether a stream of draws can be read as that: the header must be that of the model and data,
/// the lines behind it are draws, and the trailer closes the stream and agrees with the header.
pub open spec fn stream_read(
    reading: spec_fn(Seq<char>, Result<Json, Fault>) -> bool,
    text: Seq<char>,
    packing: Seq<(Seq<char>, Seq<usize>)>,
    hash: Seq<char>,
    fingerprint: Option<Seq<char>>,
    out: Result<FitModel, Fault>,
) -> bool {
    let all = lines_of(text);
    if all.len() == 0 {
        out == Err::<FitModel, Fault>(
            malformed_fault("fit is empty; pass NDJSON from `bayesite sample`"@),
        )
    } else {
        exists|document: Result<Json, Fault>| #[trigger]
            reading(all[0], document) && match document {
                Err(fault) => out == Err::<FitModel, Fault>(fault),
                Ok(doc) => match fit_header(doc, packing, hash, fingerprint) {
                    Err(fault) => out == Err::<FitModel, Fault>(fault),
                    Ok(header) => stream_behind(reading, all, header, hash, fingerprint, out),
                },
            }
    }
}

/// The draws read so far, and the trailer once it was met.
struct Progress {
    draws: Vec<FitDraw>,
    trailer: Option<Value>,
}

impl View for Progress {
    type V = ProgressModel;

    closed spec fn view(&self) -> ProgressModel {
        ProgressModel {
            draws: views(self.draws@),
            trailer: match self.trailer {
                Some(found) => Some(found@),
                None => None,
            },
        }
    }
}

fn read_line<R: Fn(&str) -> Result<Value, Error>>(
    line: &str,
    number: usize,
    params: &Vec<FitParamSpec>,
    before: Progress,
    read_json: &R,
) -> (r: Result<Progress, Error>)
    requires
        forall|s: &str| #[trigger] call_requires(*read_json, (s,)),
    ensures
        line_read(
            |s: Seq<char>, v: Result<Json, Fault>| reads(*read_json, s, v),
            line@,
            number as nat,
            views(params@),
            before@,
            outcome(r),
        ),
{
    let ghost reading = |s: Seq<char>, v: Result<Json, Fault>| reads(*read_json, s, v);
    if text::is_blank(line) {
        let place: String = text::decimal(number as u64);
        return Err(
            malformed(
                text::cat3(
                    "line ",
                    place.as_str(),
                    " is blank; v0-provisional fit NDJSON has no blank lines",
                ),
            ),
        );
    }
    let read: Result<Value, Error> = read_json(line);
    proof {
        assert(reads(*read_json, line@, outcome(read)));
        assert(reading(line@, outcome(read)));
    }
    let doc: Value = match read {
        Err(error) => {
            return Err(error);
        },
        Ok(doc) => doc,
    };
    let ghost start = before@;
    assert(start.draws.len() == before.draws.len());
    if let Some(trailer) = doc.get("trailer") {
        if before.trailer.is_some() {
            return Err(malformed("fit has more than one trailer".to_owned()));
        }
        let kept: Value = trailer.copy();
        return Ok(Progress { draws: before.draws, trailer: Some(kept) });
    }
    if before.trailer.is_some() {
        return Err(malformed("fit trailer must be the final line".to_owned()));
    }
    let mut draws: Vec<FitDraw> = before.draws;
    let due: usize = draws.len();
    let draw: FitDraw = parse_fit_draw_line(&doc, params, due)?;
    let ghost content = draw@;
    let ghost known = draws@;
    draws.push(draw);
    assert(views(draws@) =~= views(known).push(content));
    Ok(Progress { draws, trailer: None })
}

/// A fit that has the parameters of a packing, and sound draws.
pub open spec fn sound_fit(fit: FitModel, packing: Seq<(Seq<char>, Seq<usize>)>) -> bool {
    &&& params_match(fit.params, packing)
    &&& fit.draws.len() >= 1
    &&& fit.source_seed >= 0
    &&& forall|i: int|
        0 <= i < fit.draws.len() ==> sound_draw(#[trigger] fit.draws[i], fit.params, i as nat)
}

/// Reads a stream of draws that must belong to a model and data: by the packing of the model, its
/// identity hash, and the fingerprint of the exact inputs where one is expected.
pub fn parse_fit_stream<R: Fn(&str) -> Result<Value, Error>>(
    text: &str,
    expected_packing: &Vec<(String, Vec<usize>)>,
    expected_posterior_identity_hash: &str,
    expected_model_data_fingerprint: Option<&str>,
    read_json: &R,
) -> (r: Result<FitDrawStream, Error>)
    requires
        forall|s: &str| #[trigger] call_requires(*read_json, (s,)),
    ensures
        stream_read(
            |s: Seq<char>, v: Result<Json, Fault>| reads(*read_json, s, v),
            text@,
            packing_views(expected_packing@),
            expected_posterior_identity_hash@,
            borrowed_text(expected_model_data_fingerprint),
            outcome(r),
        ),
        r is Ok ==> sound_fit(r->Ok_0@, packing_views(expected_packing@)),
{
    let r: Result<FitDrawStream, Error> = read_fit_stream(
        text,
        expected_packing,
        expected_posterior_identity_hash,
        expected_model_data_fingerprint,
        read_json,
    );
    proof {
        if r is Ok {
            law_read_fit_is_complete(
                |s: Seq<char>, v: Result<Json, Fault>| reads(*read_json, s, v),
                text@,
                packing_views(expected_packing@),
                expected_posterior_identity_hash@,
                borrowed_text(expected_model_data_fingerprint),
                r->Ok_0@,
            );
        }
    }
    r
}

fn read_fit_stream<R: Fn(&str) -> Result<Value, Error>>(
    text: &str,
    expected_packing: &Vec<(String, Vec<usize>)>,
    expected_posterior_identity_hash: &str,
    expected_model_data_fingerprint: Option<&str>,
    read_json: &R,
) -> (r: Result<FitDrawStream, Error>)
    requires
        forall|s: &str| #[trigger] call_requires(*read_json, (s,)),
    ensures
        stream_read(
            |s: Seq<char>, v: Result<Json, Fault>| reads(*read_json, s, v),
            text@,
            packing_views(expected_packing@),
            expected_posterior_identity_hash@,
            borrowed_text(expected_model_data_fingerprint),
            outcome(r),
        ),
        lines_of(text@).len() <= usize::MAX,
{
    let ghost reading = |s: Seq<char>, v: Result<Json, Fault>| reads(*read_json, s, v);
    let ghost packing = packing_views(expected_packing@);
    let ghost hash = expected_posterior_identity_hash@;
    let ghost fingerprint = borrowed_text(expected_model_data_fingerprint);
    let list: Vec<String> = lines(text);
    let ghost all = text_views(list@);
    assert(all.len() == list.len());
    if list.len() == 0 {
        return Err(malformed("fit is empty; pass NDJSON from `bayesite sample`".to_owned()));
    }
    assert(all[0] == list@[0]@);
    let read: Result<Value, Error> = read_json(list[0].as_str());
    proof {
        assert(reads(*read_json, all[0], outcome(read)));
        assert(reading(all[0], outcome(read)));
    }
    let document: Value = match read {
        Err(error) => {
            return Err(error);
        },
        Ok(value) => value,
    };
    let header: FitHeader = parse_fit_header(
        &document,
        expected_packing,
        expected_posterior_identity_hash,
        expected_model_data_fingerprint,
    )?;
    let ghost head = header@;
    let mut progress: Progress = Progress { draws: Vec::new(), trailer: None };
    assert(progress@ =~= ProgressModel { draws: Seq::empty(), trailer: None });
    let mut i: usize = 1;
    while i < list.len()
        invariant
            1 <= i <= list.len(),
            forall|s: &str| #[trigger] call_requires(*read_json, (s,)),
            all == text_views(list@),
            all == lines_of(text@),
            all.len() == list.len(),
            head == header@,
            reading == (|s: Seq<char>, v: Result<Json, Fault>| reads(*read_json, s, v)),
            packing == packing_views(expected_packing@),
            hash == expected_posterior_identity_hash@,
            fingerprint == borrowed_text(expected_model_data_fingerprint),
            reading(all[0], Ok(document@)),
            fit_header(document@, packing, hash, fingerprint) == Ok::<HeaderModel, Fault>(head),
            lines_read(reading, all, head.params, i as nat, Ok(progress@)),
        decreases list.len() - i,
    {
        assert(all[i as int] == list@[i as int]@);
        let ghost before = progress@;
        let next: Result<Progress, Error> = read_line(
            list[i].as_str(),
            i + 1,
            &header.params,
            progress,
            read_json,
        );
        proof {
            assert(numbered_line_read(
                reading,
                all,
                (i + 1) as nat,
                head.params,
                before,
                outcome(next),
            ));
            assert(lines_read(reading, all, head.params, (i + 1) as nat, outcome(next)));
        }
        match next {
            Err(error) => {
                proof {
                    lemma_lines_fail(
                        reading,
                        all,
                        head.params,
                        (i + 1) as nat,
                        all.len(),
                        error@,
                    );
                    let failed = Err::<ProgressModel, Fault>(error@);
                    assert(lines_read(reading, all, head.params, all.len(), failed));
                    assert(stream_behind(reading, all, head, hash, fingerprint, Err(error@)));
                }
                return Err(error);
            },
            Ok(kept) => {
                progress = kept;
            },
        }
        i += 1;
    }
    let ghost end = progress@;
    let r: Result<FitDrawStream, Error> = finish_stream(
        header,
        progress,
        expected_posterior_identity_hash,
        expected_model_data_fingerprint,
    );
    proof {
        assert(lines_read(reading, all, head.params, all.len(), Ok(end)));
        assert(stream_behind(reading, all, head, hash, fingerprint, outcome(r)));
    }
    r
}

fn finish_stream(header: FitHeader, progress: Progress, hash: &str, fingerprint: Option<&str>) -> (r: Result<
    FitDrawStream,
    Error,
>)
    ensures
        outcome(r) == stream_end(header@, Ok(progress@), hash@, borrowed_text(fingerprint)),
{
    assert(progress@.draws.len() == progress.draws.len());
    match &progress.trailer {
        None => Err(
            malformed("fit is missing a trailer; rerun `bayesite sample` to completion".to_owned()),
        ),
        Some(trailer) => {
            check_trailer(
                trailer,
                hash,
                fingerprint,
                header.seed,
                header.draw_count,
                progress.draws.len(),
            )?;
            Ok(
                FitDrawStream {
                    source_seed: header.seed,
                    params: header.params,
                    draws: progress.draws,
                },
            )
        },
    }
}

/// A draw of a fit: its place, and one value of the right shape per parameter.
pub open spec fn sound_draw(draw: FitDrawModel, params: Seq<FitParamModel>, place: nat) -> bool {
    &&& draw.draw_index == place
    &&& draw.chain >= 0
    &&& draw.draw >= 0
    &&& draw.values.len() == params.len()
    &&& forall|k: int|
        0 <= k < params.len() ==> (#[trigger] draw.values[k]).shape == params[k].shape && full(
            draw.values[k],
        )
}

proof fn lemma_entries_len(items: Seq<Json>, name: Seq<char>, n: nat)
    requires
        entries_upto(items, name, n) is Ok,
    ensures
        entries_upto(items, name, n)->Ok_0.len() == n,
    decreases n,
{
    if n > 0 {
        lemma_entries_len(items, name, (n - 1) as nat);
    }
}

proof fn lemma_values_shaped(v: Json, params: Seq<FitParamModel>, n: nat)
    requires
        n <= params.len(),
        values_upto(v, params, n) is Ok,
    ensures
        values_upto(v, params, n)->Ok_0.len() == n,
        forall|k: int|
            0 <= k < n ==> (#[trigger] values_upto(v, params, n)->Ok_0[k]).shape == params[k].shape
                && full(values_upto(v, params, n)->Ok_0[k]),
    decreases n,
{
    if n > 0 {
        lemma_values_shaped(v, params, (n - 1) as nat);
        let drawn = field(v, params[n - 1].name)->0;
        let value = fit_value(drawn, params[n - 1])->Ok_0;
        if params[n - 1].shape.len() > 0 {
            let items = array_of(Some(drawn))->0;
            lemma_entries_len(items, params[n - 1].name, items.len());
        }
        if params[n - 1].shape.len() == 0 {
            assert(value.shape =~= params[n - 1].shape);
        }
    }
}

proof fn lemma_lines_sound(
    reading: spec_fn(Seq<char>, Result<Json, Fault>) -> bool,
    all: Seq<Seq<char>>,
    params: Seq<FitParamModel>,
    n: nat,
    progress: ProgressModel,
)
    requires
        n <= usize::MAX,
        lines_read(reading, all, params, n, Ok(progress)),
    ensures
        progress.draws.len() <= n,
        forall|i: int|
            0 <= i < progress.draws.len() ==> sound_draw(
                #[trigger] progress.draws[i],
                params,
                i as nat,
            ),
    decreases n,
{
    if n > 1 {
        let before = choose|before: ProgressModel| #[trigger]
            numbered_line_read(reading, all, n, params, before, Ok(progress)) && lines_read(
                reading,
                all,
                params,
                (n - 1) as nat,
                Ok(before),
            );
        lemma_lines_sound(reading, all, params, (n - 1) as nat, before);
        let line = all[n - 1];
        assert(line_read(reading, line, n, params, before, Ok(progress)));
        let document = choose|document: Result<Json, Fault>| #[trigger]
            reading(line, document) && Ok::<ProgressModel, Fault>(progress) == line_kept(
                document,
                params,
                before,
            );
        let doc = document->Ok_0;
        if field(doc, "trailer"@) is None {
            let due = before.draws.len() as usize;
            let draw = fit_draw(doc, params, due)->Ok_0;
            lemma_values_shaped(field(doc, "values"@)->0, params, params.len());
            assert(sound_draw(draw, params, before.draws.len()));
            assert(progress.draws =~= before.draws.push(draw));
            assert forall|i: int| 0 <= i < progress.draws.len() implies sound_draw(
                #[trigger] progress.draws[i],
                params,
                i as nat,
            ) by {
                if i < before.draws.len() {
                    assert(progress.draws[i] == before.draws[i]);
                }
            }
        }
    }
}

/// A fit that was read has the parameters of the model in order, at least one draw, draws that
/// are numbered from zero without gaps, and in each draw one value of the right shape per
/// parameter.
pub proof fn law_read_fit_is_complete(
    reading: spec_fn(Seq<char>, Result<Json, Fault>) -> bool,
    text: Seq<char>,
    packing: Seq<(Seq<char>, Seq<usize>)>,
    hash: Seq<char>,
    fingerprint: Option<Seq<char>>,
    fit: FitModel,
)
    requires
        lines_of(text).len() <= usize::MAX,
        stream_read(reading, text, packing, hash, fingerprint, Ok(fit)),
    ensures
        params_match(fit.params, packing),
        fit.draws.len() >= 1,
        fit.source_seed >= 0,
        forall|i: int|
            0 <= i < fit.draws.len() ==> sound_draw(#[trigger] fit.draws[i], fit.params, i as nat),
{
    let all = lines_of(text);
    let document = choose|document: Result<Json, Fault>| #[trigger]
        reading(all[0], document) && document is Ok && fit_header(
            document->Ok_0,
            packing,
            hash,
            fingerprint,
        ) is Ok && stream_behind(
            reading,
            all,
            fit_header(document->Ok_0, packing, hash, fingerprint)->Ok_0,
            hash,
            fingerprint,
            Ok(fit),
        );
    let header = fit_header(document->Ok_0, packing, hash, fingerprint)->Ok_0;
    let progress = choose|progress: Result<ProgressModel, Fault>| #[trigger]
        lines_read(reading, all, header.params, all.len(), progress) && Ok::<FitModel, Fault>(fit)
            == stream_end(header, progress, hash, fingerprint);
    lemma_lines_sound(reading, all, header.params, all.len(), progress->Ok_0);
}

} // verus!
