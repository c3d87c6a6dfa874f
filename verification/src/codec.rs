//! Lenient record codec: best-effort extraction of the `value.author` field
//! from a JSON payload, the parse outcome used by the integrity scanner, and
//! the pretty form used by the viewer. A payload that fails to parse, or lacks
//! a field, yields `None`; it never aborts a caller.

use vstd::prelude::*;

verus! {

/// What the author field of a payload decodes to: the UTF-8 bytes of
/// `value.author` where the payload parses as a JSON object carrying a string
/// there, `None` for every other shape.
pub uninterp spec fn author_of(payload: Seq<u8>) -> Option<Seq<u8>>;

/// The parse diagnostic of a payload: `None` where it parses as JSON, the
/// parser's error text otherwise.
pub uninterp spec fn json_error_of(payload: Seq<u8>) -> Option<Seq<char>>;

/// The pretty-printed form of a payload that parses as JSON, `None` otherwise.
pub uninterp spec fn pretty_json_of(payload: Seq<u8>) -> Option<Seq<char>>;

/// The image of an optional byte buffer.
pub open spec fn opt_bytes_view(o: Option<Vec<u8>>) -> Option<Seq<u8>> {
    match o {
        Some(v) => Some(v@),
        None => None,
    }
}

/// The image of an optional string.
pub open spec fn opt_string_view(o: Option<String>) -> Option<Seq<char>> {
    match o {
        Some(s) => Some(s@),
        None => None,
    }
}

/// Relies on serde_json::from_slice, Value::get and Value::as_str: the decoded
/// author is a function of the payload bytes alone.
#[verifier::external_body]
pub(crate) fn decode_author(payload: &[u8]) -> (r: Option<Vec<u8>>)
    ensures
        opt_bytes_view(r) == author_of(payload@),
{
    match serde_json::from_slice::<serde_json::Value>(payload) {
        Ok(v) => v
            .get("value")
            .and_then(|v| v.get("author"))
            .and_then(|v| v.as_str())
            .map(|s| s.as_bytes().to_vec()),
        Err(_) => None,
    }
}

/// Relies on serde_json::from_slice and the Display text of serde_json::Error:
/// both are functions of the payload bytes alone.
#[verifier::external_body]
pub(crate) fn parse_error_text(payload: &[u8]) -> (r: Option<String>)
    ensures
        opt_string_view(r) == json_error_of(payload@),
{
    serde_json::from_slice::<serde_json::Value>(payload).err().map(|e| e.to_string())
}

/// Relies on serde_json::from_slice and serde_json::to_string_pretty: the
/// pretty form is a function of the payload bytes alone.
#[verifier::external_body]
pub(crate) fn pretty_json(payload: &[u8]) -> (r: Option<String>)
    ensures
        opt_string_view(r) == pretty_json_of(payload@),
{
    match serde_json::from_slice::<serde_json::Value>(payload) {
        Ok(v) => serde_json::to_string_pretty(&v).ok(),
        Err(_) => None,
    }
}

} // verus!
