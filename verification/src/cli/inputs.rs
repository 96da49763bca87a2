//! Data documents among the inputs of commands.

use vstd::prelude::*;

use crate::data::{data_from_json, DataValue};
#[allow(unused_imports)]
use crate::data::{data_outcome, read_data, DataModel};
use crate::error::{invalid_settings, Error};
#[allow(unused_imports)]
use crate::error::{settings_fault, Fault};
use crate::json::Value;
#[allow(unused_imports)]
use crate::json::Json;
use crate::text;

verus! {

/// Named values from a document that must be an object.
pub open spec fn object_read(v: Json, subject: Seq<char>) -> Result<
    Seq<(Seq<char>, DataModel)>,
    Fault,
> {
    match v {
        Json::Object(_) => read_data(v),
        _ => Err(settings_fault(subject + " must be an object"@)),
    }
}

/// Named values from a document that must be an object, as the failure of a command says.
pub fn object_values(document: &Value, subject: &str) -> (r: Result<
    Vec<(String, DataValue)>,
    Error,
>)
    ensures
        data_outcome(r) == object_read(document@, subject@),
{
    match document {
        Value::Object(_) => data_from_json(document),
        _ => Err(invalid_settings(text::cat2(subject, " must be an object"))),
    }
}

/// The data of a command.
pub fn cli_data_from_json(document: &Value, context: &str) -> (r: Result<
    Vec<(String, DataValue)>,
    Error,
>)
    ensures
        data_outcome(r) == object_read(document@, context@ + " data"@),
{
    object_values(document, text::cat2(context, " data").as_str())
}

} // verus!
