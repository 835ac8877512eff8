//! Token and error types, their mathematical counterparts, and the
//! classification of scalar literal spans.
use crate::scan::trim_ws;
use vstd::prelude::*;
use vstd::utf8::{decode_utf8, valid_utf8};

verus! {

/// One lexical unit of the input. `PropertyName` carries the key between the
/// quotes of an object member; `Literal` carries the raw span of a scalar
/// value (quoted strings keep their quotes, numbers stay unparsed). `Done` is
/// the terminal sentinel: once returned, every later call returns it again.
#[derive(Debug, PartialEq)]
pub enum JsonToken {
    StartObject,
    EndObject,
    StartArray,
    EndArray,
    PropertyName(String),
    Literal(String),
    Null,
    True,
    False,
    Done,
}

/// Why a scan stopped: a byte that fits no production of the current state,
/// a buffer exhausted mid-token, or a scanned span that is not UTF-8.
#[derive(Debug, Clone, Copy, PartialEq, Eq, Structural)]
pub enum JsonError {
    UnexpectedCharacter,
    UnexpectedEndOfInput,
    InvalidText,
}

/// Mathematical counterpart of [`JsonToken`]: payloads are the raw byte
/// spans of the input, before UTF-8 decoding.
pub ghost enum SpecToken {
    StartObject,
    EndObject,
    StartArray,
    EndArray,
    PropertyName(Seq<u8>),
    Literal(Seq<u8>),
    Null,
    True,
    False,
    Done,
}

/// The executable token `t` is the UTF-8 decoding of the abstract token `s`.
pub open spec fn token_models(t: JsonToken, s: SpecToken) -> bool {
    match (t, s) {
        (JsonToken::StartObject, SpecToken::StartObject) => true,
        (JsonToken::EndObject, SpecToken::EndObject) => true,
        (JsonToken::StartArray, SpecToken::StartArray) => true,
        (JsonToken::EndArray, SpecToken::EndArray) => true,
        (JsonToken::PropertyName(x), SpecToken::PropertyName(b)) => valid_utf8(b) && x@
            == decode_utf8(b),
        (JsonToken::Literal(x), SpecToken::Literal(b)) => valid_utf8(b) && x@ == decode_utf8(b),
        (JsonToken::Null, SpecToken::Null) => true,
        (JsonToken::True, SpecToken::True) => true,
        (JsonToken::False, SpecToken::False) => true,
        (JsonToken::Done, SpecToken::Done) => true,
        _ => false,
    }
}

/// Componentwise lift of [`token_models`] to the results of a call.
pub open spec fn result_models(
    r: Result<JsonToken, JsonError>,
    s: Result<SpecToken, JsonError>,
) -> bool {
    match (r, s) {
        (Result::Ok(t), Result::Ok(st)) => token_models(t, st),
        (Result::Err(e), Result::Err(se)) => e == se,
        _ => false,
    }
}

/// The bytes of the keyword `null`.
pub open spec fn null_bytes() -> Seq<u8> {
    seq![110u8, 117u8, 108u8, 108u8]
}

/// The bytes of the keyword `true`.
pub open spec fn true_bytes() -> Seq<u8> {
    seq![116u8, 114u8, 117u8, 101u8]
}

/// The bytes of the keyword `false`.
pub open spec fn false_bytes() -> Seq<u8> {
    seq![102u8, 97u8, 108u8, 115u8, 101u8]
}

/// Classification of a scalar span: trim surrounding whitespace, recognize
/// the three keywords, and otherwise keep the span as a raw literal provided
/// it is well-formed UTF-8.
pub open spec fn spec_classify(span: Seq<u8>) -> Result<SpecToken, JsonError> {
    let t = trim_ws(span);
    if t == null_bytes() {
        Result::Ok(SpecToken::Null)
    } else if t == true_bytes() {
        Result::Ok(SpecToken::True)
    } else if t == false_bytes() {
        Result::Ok(SpecToken::False)
    } else if valid_utf8(t) {
        Result::Ok(SpecToken::Literal(t))
    } else {
        Result::Err(JsonError::InvalidText)
    }
}

/// Relies on core::str::from_utf8: it returns `Ok` exactly when the byte
/// slice is well-formed UTF-8, and the string it returns is the decoding of
/// those bytes (vstd's `valid_utf8` / `decode_utf8` state that well-
/// formedness and decoding; str::to_owned keeps the characters, per vstd).
#[verifier::external_body]
pub(crate) fn utf8_to_string(b: &[u8]) -> (r: Option<String>)
    ensures
        r is Some <==> valid_utf8(b@),
        r matches Some(s) ==> s@ == decode_utf8(b@),
{
    match core::str::from_utf8(b) {
        Ok(s) => Some(s.to_owned()),
        Err(_) => None,
    }
}

} // verus!
