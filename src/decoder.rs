//! Turns one complete line of the response stream into the text it carries.
use vstd::prelude::*;

verus! {

#[verifier::external_type_specification]
#[verifier::external_body]
pub struct ExValue(serde_json::Value);

/// The value that `b` holds as JSON text, if it is JSON text.
pub uninterp spec fn parse_json(b: Seq<u8>) -> Option<serde_json::Value>;

/// The member of object `v` under `key`, if `v` is an object that has one.
pub uninterp spec fn member_of(v: serde_json::Value, key: Seq<char>) -> Option<serde_json::Value>;

/// The text of `v`, if `v` is a JSON string.
pub uninterp spec fn string_of(v: serde_json::Value) -> Option<Seq<char>>;

/// Relies on serde_json::from_slice: parses the bytes as one JSON value
/// (surrounding whitespace allowed); the outcome depends on the bytes alone.
#[verifier::external_body]
fn parse_value(b: &[u8]) -> (r: Option<serde_json::Value>)
    ensures
        r == parse_json(b@),
{
    serde_json::from_slice::<serde_json::Value>(b).ok()
}

/// Relies on serde_json::Value::get with a string index: the member of an
/// object under that key, and nothing for a value that is no object.
#[verifier::external_body]
fn member(v: &serde_json::Value, key: &str) -> (r: Option<serde_json::Value>)
    ensures
        r == member_of(*v, key@),
{
    v.get(key).cloned()
}

/// Relies on serde_json::Value::as_str: the text of a JSON string, and nothing
/// for any other value.
#[verifier::external_body]
fn string_value(v: &serde_json::Value) -> (r: Option<String>)
    ensures
        opt_view(r) == string_of(*v),
{
    v.as_str().map(String::from)
}

/// The member of a stream line that holds the next piece of generated text.
pub const RESPONSE_FIELD: &'static str = "response";

pub open spec fn opt_view(o: Option<String>) -> Option<Seq<char>> {
    match o {
        Some(s) => Some(s@),
        None => None,
    }
}

/// The text that a parsed line carries: none without a `response` member; the
/// member's text where it is a string, and the empty text where it is not.
pub open spec fn fragment_of_value(v: serde_json::Value) -> Option<Seq<char>> {
    match member_of(v, RESPONSE_FIELD@) {
        None => None,
        Some(m) => match string_of(m) {
            Some(t) => Some(t),
            None => Some(Seq::empty()),
        },
    }
}

/// The text that a line carries: none where the line is not JSON.
pub open spec fn fragment_of(line: Seq<u8>) -> Option<Seq<char>> {
    match parse_json(line) {
        None => None,
        Some(v) => fragment_of_value(v),
    }
}

/// The fragment that an already parsed line carries.
pub fn fragment_from_value(v: &serde_json::Value) -> (r: Option<String>)
    ensures
        opt_view(r) == fragment_of_value(*v),
{
    match member(v, RESPONSE_FIELD) {
        None => None,
        Some(m) => match string_value(&m) {
            Some(t) => Some(t),
            None => Some(String::new()),
        },
    }
}

/// Decodes one line of the stream. A line that is not JSON, or that has no
/// `response` member, yields nothing and is no error.
pub fn decode(line: &[u8]) -> (r: Option<String>)
    ensures
        opt_view(r) == fragment_of(line@),
{
    match parse_value(line) {
        None => None,
        Some(v) => fragment_from_value(&v),
    }
}

/// Decoding is a function of the line alone: two decodings of equal lines
/// yield the same fragment, or both yield none.
pub proof fn lemma_decode_is_pure(a: Seq<u8>, b: Seq<u8>, ra: Option<String>, rb: Option<String>)
    requires
        a == b,
        opt_view(ra) == fragment_of(a),
        opt_view(rb) == fragment_of(b),
    ensures
        opt_view(ra) == opt_view(rb),
{
}

} // verus!
