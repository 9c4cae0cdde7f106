//! The boundary to `serde_json`: one parsed document is carried around as an
//! opaque `serde_json::Value`, and everything the crate knows about it comes
//! from the accessors declared here. Their contracts are trusted, not proved.

use vstd::prelude::*;

verus! {

/// `serde_json::Value`, carried through verified code without looking inside.
#[verifier::external_type_specification]
#[verifier::external_body]
pub struct ExJsonValue(serde_json::Value);

/// The mathematical content of a JSON value. A number is described only by
/// what the two numeric accessors answer for it.
pub ghost enum JsonTree {
    Null,
    Bool(bool),
    Number { unsigned: Option<u64>, real_bits: Option<u64> },
    Text(Seq<char>),
    List(Seq<JsonTree>),
    Record(Map<Seq<char>, JsonTree>),
}

/// What a `serde_json::Value` holds.
pub uninterp spec fn json_tree(value: serde_json::Value) -> JsonTree;

/// What `serde_json::from_slice` makes of a byte string: the document it
/// reads, or nothing when it reports an error.
pub uninterp spec fn json_document(text: Seq<u8>) -> Option<JsonTree>;

/// The member stored under `key` when `tree` is an object that has one.
pub open spec fn member_of(tree: JsonTree, key: Seq<char>) -> Option<JsonTree> {
    match tree {
        JsonTree::Record(fields) => if fields.contains_key(key) {
            Some(fields[key])
        } else {
            None
        },
        _ => None,
    }
}

/// Calls `serde_json::from_slice::<serde_json::Value>`. Trusted: the value
/// that comes back holds exactly the document named by [`json_document`],
/// and an error comes back exactly when there is none.
#[verifier::external_body]
pub(crate) fn json_from_bytes(text: &[u8]) -> (out: Option<serde_json::Value>)
    ensures
        match out {
            Some(value) => json_document(text@) == Some(json_tree(value)),
            None => json_document(text@) is None,
        },
{
    serde_json::from_slice::<serde_json::Value>(text).ok()
}

/// Calls `serde_json::Value::get` with a string key. Trusted: it answers
/// with the member of that name when the value is an object holding one,
/// and with nothing for a missing key or a value that is not an object.
#[verifier::external_body]
pub(crate) fn json_member<'a>(value: &'a serde_json::Value, key: &str) -> (out: Option<
    &'a serde_json::Value,
>)
    ensures
        match out {
            Some(member) => member_of(json_tree(*value), key@) == Some(json_tree(*member)),
            None => member_of(json_tree(*value), key@) is None,
        },
{
    value.get(key)
}

/// Calls `serde_json::Value::as_str`. Trusted: a string value answers with
/// its text, every other value with nothing.
#[verifier::external_body]
pub(crate) fn json_text<'a>(value: &'a serde_json::Value) -> (out: Option<&'a str>)
    ensures
        match out {
            Some(text) => json_tree(*value) == JsonTree::Text(text@),
            None => !(json_tree(*value) is Text),
        },
{
    value.as_str()
}

/// Calls `serde_json::Value::as_u64`. Trusted: the answer is the `unsigned`
/// reading of a number, and nothing for a value that is not a number.
#[verifier::external_body]
pub(crate) fn json_unsigned(value: &serde_json::Value) -> (out: Option<u64>)
    ensures
        out == match json_tree(*value) {
            JsonTree::Number { unsigned, .. } => unsigned,
            _ => None,
        },
{
    value.as_u64()
}

/// Calls `serde_json::Value::as_f64` and hands the result on as its IEEE 754
/// bit pattern. Trusted: the answer is the `real_bits` reading of a number,
/// and nothing for a value that is not a number.
#[verifier::external_body]
pub(crate) fn json_real_bits(value: &serde_json::Value) -> (out: Option<u64>)
    ensures
        out == match json_tree(*value) {
            JsonTree::Number { real_bits, .. } => real_bits,
            _ => None,
        },
{
    match value.as_f64() {
        Some(number) => Some(number.to_bits()),
        None => None,
    }
}

/// Calls `serde_json::Value::is_null`. Trusted: true exactly for `null`.
#[verifier::external_body]
pub(crate) fn json_is_null(value: &serde_json::Value) -> (out: bool)
    ensures
        out == (json_tree(*value) is Null),
{
    value.is_null()
}

/// Calls `serde_json::Value::is_object`. Trusted: true exactly for an object.
#[verifier::external_body]
pub(crate) fn json_is_record(value: &serde_json::Value) -> (out: bool)
    ensures
        out == (json_tree(*value) is Record),
{
    value.is_object()
}

} // verus!
