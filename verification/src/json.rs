//! JSON documents, as the `serde_json` crate reads and writes them. Nothing
//! here is proved: each function states what the crate's source shows of
//! the call that it makes.

use serde_json::Value;
use vstd::prelude::*;

verus! {

/// `serde_json::Value`, a JSON document. Nothing of its inside is known
/// here; verified code reads it through the functions below.
#[verifier::external_type_specification]
#[verifier::external_body]
pub struct ExValue(Value);

/// The document that `serde_json::from_slice` reads from `bytes`; `None`
/// where it reports an error.
pub uninterp spec fn json_document(bytes: Seq<u8>) -> Option<Value>;

/// What `Value::get` gives for a key: the member of that name where the
/// value is an object that has one.
pub uninterp spec fn json_member(value: Value, key: Seq<char>) -> Option<Value>;

/// What `Value::as_str` gives: the text of a value that is a string.
pub uninterp spec fn json_text(value: Value) -> Option<Seq<char>>;

/// What `Value::as_u64` gives: the number of a value that is an integer
/// between zero and the largest `u64`.
pub uninterp spec fn json_number(value: Value) -> Option<u64>;

/// What `Value::as_array` gives: the elements of a value that is an array.
pub uninterp spec fn json_items(value: Value) -> Option<Seq<Value>>;

/// What `serde_json::to_string` writes for a value; `None` where it
/// reports an error.
pub uninterp spec fn json_written(value: Value) -> Option<Seq<char>>;

/// What `serde_json::to_string` writes for a text: the text as a JSON
/// string, in quotes and with escapes; `None` where it reports an error.
pub uninterp spec fn json_quoted(text: Seq<char>) -> Option<Seq<char>>;

/// Calls `serde_json::from_slice` for a `Value` and turns its error into
/// `None`. Claimed: the same bytes always give the same document, or
/// always none.
#[verifier::external_body]
pub(crate) fn parse(bytes: &[u8]) -> (r: Option<Value>)
    ensures
        r == json_document(bytes@),
{
    serde_json::from_slice::<Value>(bytes).ok()
}

/// Calls `Value::get` with a key. Claimed: the member that comes back
/// depends on the value and the key alone.
#[verifier::external_body]
pub(crate) fn member<'a>(value: &'a Value, key: &str) -> (r: Option<&'a Value>)
    ensures
        match r {
            Some(found) => json_member(*value, key@) == Some(*found),
            None => json_member(*value, key@) is None,
        },
{
    value.get(key)
}

/// Calls `Value::as_str`. Claimed: the text that comes back depends on
/// the value alone.
#[verifier::external_body]
pub(crate) fn text<'a>(value: &'a Value) -> (r: Option<&'a str>)
    ensures
        match r {
            Some(found) => json_text(*value) == Some(found@),
            None => json_text(*value) is None,
        },
{
    value.as_str()
}

/// Calls `Value::as_u64`. Claimed: the number that comes back depends on
/// the value alone.
#[verifier::external_body]
pub(crate) fn number(value: &Value) -> (r: Option<u64>)
    ensures
        r == json_number(*value),
{
    value.as_u64()
}

/// Calls `Value::as_array`. Claimed: the elements that come back depend
/// on the value alone.
#[verifier::external_body]
pub(crate) fn items<'a>(value: &'a Value) -> (r: Option<&'a Vec<Value>>)
    ensures
        match r {
            Some(found) => json_items(*value) == Some(found@),
            None => json_items(*value) is None,
        },
{
    value.as_array()
}

/// Calls `serde_json::to_string` on a value and turns its error into
/// `None`. Claimed: the text depends on the value alone.
#[verifier::external_body]
pub(crate) fn written(value: &Value) -> (r: Option<String>)
    ensures
        match r {
            Some(out) => json_written(*value) == Some(out@),
            None => json_written(*value) is None,
        },
{
    serde_json::to_string(value).ok()
}

/// Calls `serde_json::to_string` on a text and turns its error into
/// `None`. Claimed: the result depends on the text alone.
#[verifier::external_body]
pub(crate) fn quoted(text: &str) -> (r: Option<String>)
    ensures
        match r {
            Some(out) => json_quoted(text@) == Some(out@),
            None => json_quoted(text@) is None,
        },
{
    serde_json::to_string(text).ok()
}

} // verus!
