use vstd::prelude::*;

use serde_json::Value;

verus! {

/// `serde_json::Value`, a JSON value. The library stores such values in the
/// rows of its tables and hands them back; it never looks inside one.
#[verifier::external_type_specification]
#[verifier::external_body]
pub struct ExValue(Value);

/// The JSON string that `serde_json::Value::from` builds from a text.
pub uninterp spec fn json_string(text: Seq<char>) -> Value;

/// The JSON number that `serde_json::Value::from` builds from an `i32`.
pub uninterp spec fn json_integer(n: i32) -> Value;

/// Calls `<serde_json::Value as From<&str>>::from`, which builds the JSON
/// string `Value::String` holding a copy of `text`; the result is named
/// `json_string` of the text.
#[verifier::external_body]
pub(crate) fn value_from_text(text: &str) -> (v: Value)
    ensures
        v == json_string(text@),
{
    Value::from(text)
}

/// Calls `<serde_json::Value as From<i32>>::from`, which builds the JSON
/// number `Value::Number` holding `n`; the result is named `json_integer`
/// of `n`.
#[verifier::external_body]
pub(crate) fn value_from_i32(n: i32) -> (v: Value)
    ensures
        v == json_integer(n),
{
    Value::from(n)
}

/// Calls `<serde_json::Value as Clone>::clone`, which `derive(Clone)` writes
/// for `Value`; the copy is taken to be equal to the value copied.
#[verifier::external_body]
pub(crate) fn clone_value(v: &Value) -> (r: Value)
    ensures
        r == *v,
{
    v.clone()
}

} // verus!
