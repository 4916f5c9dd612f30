//! The top-level decode entry and the trusted interface to the tokenizer.
//!
//! The outside tokenizer (`serde_json`) owns lexing, grammar and number
//! validation, UTF-8 handling, its nesting limit, and the trailing-content
//! check.  This module consumes it through one trusted parse call, whose
//! contract is stated over two named results: whether the text parses as one
//! JSON document ([`spec_parses`]), and the meaning of the report it then
//! yields ([`spec_doc`]).  Everything after that point is verified:
//! [`deserialize`] builds the dynamic value from the report and its contract
//! says that decoding succeeds exactly when the text parses, with the value's
//! model pinned to `spec_doc`.

use crate::builder::Raw;
use crate::builder::build_value;
use crate::builder::lemma_decoded_wf;
use crate::value::SpecValue;
use vstd::prelude::*;

verus! {

#[verifier::external_type_specification]
#[verifier::external_body]
pub struct ExValue(serde_json::Value);

#[verifier::external_type_specification]
#[verifier::external_body]
pub struct ExNumber(serde_json::Number);

/// Whether `text` parses as exactly one JSON document followed only by
/// whitespace: the success of `serde_json::from_str`, a function of the text
/// alone.
pub uninterp spec fn spec_parses(text: Seq<char>) -> bool;

/// The meaning of the report that parsing `text` yields (meaningful when
/// [`spec_parses`] holds): a function of the text alone.
pub uninterp spec fn spec_doc(text: Seq<char>) -> SpecValue;

/// An error decoding a document: the tokenizer's report for malformed input,
/// trailing non-whitespace content, or nesting past its own recursion limit.
/// Carries a message only; no position is tracked.
#[derive(Debug, PartialEq, Eq)]
pub struct DecodeError {
    message: String,
}

impl DecodeError {
    /// The message's model.
    pub closed spec fn spec_message(self) -> Seq<char> {
        self.message@
    }

    /// The error's message.
    pub fn message(&self) -> (r: &str)
        ensures
            r@ == self.spec_message(),
    {
        self.message.as_str()
    }

    /// Wrap the tokenizer's report.
    pub fn syntax(message: String) -> (r: DecodeError)
        ensures
            r.spec_message() == message@,
    {
        DecodeError { message }
    }
}

/// Relies on `serde_json::Number::as_u64`, `as_i64` and `as_f64`: `as_u64`
/// answers exactly for non-negative integer literals, `as_i64` for the
/// remaining (negative) integers, and — without the `arbitrary_precision`
/// feature, which this crate does not enable — `as_f64` for every number, so
/// the fallback arm is never taken; `f64::to_bits` carries the float across
/// as its IEEE-754 bits.
#[verifier::external_body]
fn num_raw(n: &serde_json::Number) -> Raw {
    match (n.as_u64(), n.as_i64()) {
        (Some(u), _) => Raw::Uint(u),
        (None, Some(i)) => Raw::Int(i),
        _ => Raw::Float(n.as_f64().map(|x| x.to_bits()).unwrap_or(0)),
    }
}

/// Relies on the variants of `serde_json::Value`: each arm moves one
/// variant's payload out, recursing into `Array` and `Object` children, and
/// on `serde_json::Map::iter`, which yields the entries in the map's order.
#[verifier::external_body]
fn to_raw(v: &serde_json::Value) -> Raw {
    match v {
        serde_json::Value::Null => Raw::Null,
        serde_json::Value::Bool(b) => Raw::Bool(*b),
        serde_json::Value::Number(n) => num_raw(n),
        serde_json::Value::String(s) => Raw::Text(s.clone()),
        serde_json::Value::Array(a) => Raw::Arr(a.iter().map(|x| to_raw(x)).collect()),
        serde_json::Value::Object(m) => Raw::Obj(
            m.iter().map(|(k, x)| (k.clone(), to_raw(x))).collect(),
        ),
    }
}

/// Relies on `serde_json::from_str::<serde_json::Value>`: it parses one
/// complete JSON document or fails, rejecting malformed input, trailing
/// non-whitespace content, and nesting past its recursion limit, as a
/// function of the text alone — which [`spec_parses`] and [`spec_doc`] name.
/// Object entries in its result keep insertion order and deduplicate
/// repeated keys with the last write winning (the `preserve_order` feature),
/// so the converted report's meaning is the document's.  The error's text
/// comes from `serde_json::Error`'s `Display`.
#[verifier::external_body]
fn parse_document(text: &str) -> (r: Result<Raw, String>)
    ensures
        r matches Ok(t) ==> spec_parses(text@) && t.decoded() == spec_doc(text@),
        r matches Err(_) ==> !spec_parses(text@),
{
    match serde_json::from_str::<serde_json::Value>(text) {
        Ok(v) => Ok(to_raw(&v)),
        Err(e) => Err(e.to_string()),
    }
}

/// Decode one JSON document into a dynamic value.
///
/// Decoding succeeds exactly when the text parses as one JSON document
/// followed only by whitespace; the result is then the value the document
/// denotes ([`spec_doc`]), well formed: no map in it holds a key twice.  On
/// any other input the result is a [`DecodeError`] carrying the tokenizer's
/// message, and no partial value escapes.
pub fn deserialize(data: &str) -> (r: Result<crate::value::DynValue, DecodeError>)
    ensures
        r matches Ok(v) ==> spec_parses(data@) && v.model() == spec_doc(data@)
            && v.model().wf(),
        r matches Err(_) ==> !spec_parses(data@),
{
    let raw = match parse_document(data) {
        Ok(raw) => raw,
        Err(message) => { return Err(DecodeError::syntax(message)) },
    };
    let v = build_value(&raw);
    proof {
        lemma_decoded_wf(raw);
    }
    Ok(v)
}

} // verus!
