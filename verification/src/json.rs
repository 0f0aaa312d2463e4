//! What serde_json reads in a JSON text: whether it reads the text at all,
//! and the top node of a text, as far as the record schema needs it.
use serde_json::Value;
use vstd::prelude::*;

verus! {

#[verifier::external_type_specification]
#[verifier::external_body]
pub struct ExJsonSyntaxError(serde_json::Error);

/// A JSON number, told apart by the way serde_json stores it.
#[derive(Clone, Copy, Debug, PartialEq, Eq, Structural)]
pub enum JsonNumber {
    /// A non-negative integer that fits in `u64`.
    PosInt(u64),
    /// A negative integer that fits in `i64`.
    NegInt(i64),
    /// Any other number (a fraction, an exponent, `-0`, or an integer out of
    /// range).
    Float,
}

/// The top node of a JSON text; arrays and objects without their contents.
#[derive(Debug)]
pub enum JsonNode {
    Null,
    Bool(bool),
    Number(JsonNumber),
    String(String),
    Array,
    Object,
}

/// The node that serde_json reads from the bytes `text` as a
/// `serde_json::Value`, or `None` where it rejects them.
pub uninterp spec fn json_node(text: Seq<u8>) -> Option<JsonNode>;

/// Whether serde_json reads `text` as one JSON value when it skips the
/// value without keeping it (`serde::de::IgnoredAny`).
pub uninterp spec fn json_skips(text: Seq<char>) -> bool;

/// Calls `serde_json::from_slice::<serde_json::Value>` on `text` and returns
/// its top node: numbers are told apart with `Number::as_u64` and
/// `Number::as_i64`. Claimed: the call succeeds exactly where `json_node`
/// gives a node, and the node is that one; `json_node` depends on the bytes
/// alone. Left unsaid: the grammar serde_json accepts, and the message in
/// the error.
#[verifier::external_body]
pub(crate) fn parse_json_node(text: &[u8]) -> (r: Result<JsonNode, serde_json::Error>)
    ensures
        r is Ok <==> json_node(text@) is Some,
        r matches Ok(n) ==> json_node(text@) == Some(n),
{
    Ok(match serde_json::from_slice::<Value>(text)? {
        Value::Null => JsonNode::Null,
        Value::Bool(b) => JsonNode::Bool(b),
        Value::Number(n) => JsonNode::Number(match (n.as_u64(), n.as_i64()) {
            (Some(u), _) => JsonNumber::PosInt(u),
            (None, Some(i)) => JsonNumber::NegInt(i),
            _ => JsonNumber::Float,
        }),
        Value::String(s) => JsonNode::String(s),
        Value::Array(_) => JsonNode::Array,
        Value::Object(_) => JsonNode::Object,
    })
}

/// Calls `serde_json::from_str::<serde::de::IgnoredAny>` on `text`: serde_json
/// reads one JSON value, skipping its contents, and then only whitespace.
/// Claimed: the call succeeds exactly where `json_skips` holds; it depends
/// on the text alone. Left unsaid: the grammar, and the message in the
/// error.
#[verifier::external_body]
pub(crate) fn skip_json(text: &str) -> (r: Result<(), serde_json::Error>)
    ensures
        r is Ok <==> json_skips(text@),
{
    serde_json::from_str::<serde::de::IgnoredAny>(text).map(|_| ())
}

} // verus!
