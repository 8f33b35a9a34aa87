//! The body of a message: text, raw bytes, or a JSON document.

use vstd::prelude::*;

use vstd::utf8::{decode_utf8, encode_utf8, valid_utf8};

verus! {

/// `serde_json::Value`, a JSON document in memory. Opaque here.
#[verifier::external_type_specification]
#[verifier::external_body]
pub struct ExJsonValue(serde_json::Value);

/// Whether `bytes` is a JSON document, as the JSON provider judges it.
pub uninterp spec fn is_json(bytes: Seq<u8>) -> bool;

/// The text that `bytes` holds, with whatever is not valid UTF-8 replaced, as
/// the standard library computes it.
pub uninterp spec fn lossy_text(bytes: Seq<u8>) -> Seq<char>;

/// Parses a JSON document.
///
/// Trusted: calls `serde_json::from_slice`. The contract names whether it
/// accepts the bytes and claims nothing of the value that it returns.
#[verifier::external_body]
pub(crate) fn parse_json(bytes: &[u8]) -> (r: Option<serde_json::Value>)
    ensures
        r is Some <==> is_json(bytes@),
{
    match serde_json::from_slice::<serde_json::Value>(bytes) {
        Ok(value) => Some(value),
        Err(_) => None,
    }
}

/// Bytes as text, invalid sequences replaced.
///
/// Trusted: calls `String::from_utf8_lossy` of the standard library, which
/// returns valid UTF-8 as the text it encodes and replaces every invalid
/// sequence of other input by U+FFFD. The contract names the result, and
/// states the first of the two.
#[verifier::external_body]
pub(crate) fn text_lossy(bytes: &[u8]) -> (r: String)
    ensures
        r@ == lossy_text(bytes@),
        valid_utf8(bytes@) ==> r@ == decode_utf8(bytes@),
{
    String::from_utf8_lossy(bytes).into_owned()
}

/// Possible bodies used by both requests and responses.
#[derive(Debug, Clone, PartialEq)]
pub enum Body {
    /// Plain text.
    Text(String),
    /// Raw bytes.
    Bytes(Vec<u8>),
    /// A JSON document, as its text.
    Json(String),
}

impl Body {
    /// The body as the bytes that go on the wire.
    pub open spec fn bytes(&self) -> Seq<u8> {
        match self {
            Body::Text(text) => encode_utf8(text@),
            Body::Bytes(bytes) => bytes@,
            Body::Json(text) => encode_utf8(text@),
        }
    }

    /// The body as text.
    pub open spec fn as_text(&self) -> Seq<char> {
        match self {
            Body::Text(text) => text@,
            Body::Bytes(bytes) => lossy_text(bytes@),
            Body::Json(text) => text@,
        }
    }

    /// The content type that goes with the kind of body.
    pub open spec fn media_type(&self) -> Seq<char> {
        match self {
            Body::Json(_) => "application/json;charset=UTF-8"@,
            _ => "text/plain;"@,
        }
    }

    /// A text body.
    pub fn from_text(text: &str) -> (b: Body)
        ensures
            b matches Body::Text(t) && t@ == text@,
    {
        Body::Text(text.to_owned())
    }

    /// A body of raw bytes.
    pub fn from_bytes(bytes: &[u8]) -> (b: Body)
        ensures
            b matches Body::Bytes(v) && v@ == bytes@,
    {
        Body::Bytes(vstd::slice::slice_to_vec(bytes))
    }

    /// A JSON body, from the text of the document.
    pub fn from_json(text: &str) -> (b: Body)
        ensures
            b matches Body::Json(t) && t@ == text@,
    {
        Body::Json(text.to_owned())
    }

    /// The body as the bytes that go on the wire.
    pub fn to_bytes(&self) -> (r: Vec<u8>)
        ensures
            r@ == self.bytes(),
    {
        match self {
            Body::Text(text) => vstd::slice::slice_to_vec(text.as_str().as_bytes()),
            Body::Bytes(bytes) => bytes.clone(),
            Body::Json(text) => vstd::slice::slice_to_vec(text.as_str().as_bytes()),
        }
    }

    /// Convert body into text. Bytes that are not valid UTF-8 are replaced.
    pub fn text(&self) -> (r: String)
        ensures
            r@ == self.as_text(),
            self matches Body::Bytes(b) ==> (valid_utf8(b@) ==> r@ == decode_utf8(b@)),
    {
        match self {
            Body::Text(text) => text.clone(),
            Body::Bytes(bytes) => text_lossy(bytes.as_slice()),
            Body::Json(text) => text.clone(),
        }
    }

    /// Convert body into JSON; `None` when it is no JSON document.
    pub fn json(&self) -> (r: Option<serde_json::Value>)
        ensures
            r is Some <==> is_json(self.bytes()),
    {
        let bytes = self.to_bytes();
        parse_json(bytes.as_slice())
    }

    /// The content type that goes with the kind of body.
    pub fn content_type(&self) -> (r: &'static str)
        ensures
            r@ == self.media_type(),
    {
        match self {
            Body::Json(_) => "application/json;charset=UTF-8",
            _ => "text/plain;",
        }
    }
}

impl From<Vec<u8>> for Body {
    /// Raw bytes as a body.
    fn from(body: Vec<u8>) -> (r: Body) {
        Body::Bytes(body)
    }
}

impl vstd::std_specs::convert::FromSpecImpl<Vec<u8>> for Body {
    open spec fn obeys_from_spec() -> bool {
        true
    }

    open spec fn from_spec(body: Vec<u8>) -> Body {
        Body::Bytes(body)
    }
}

} // verus!
