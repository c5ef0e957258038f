//! Turning header bytes into text.
use vstd::prelude::*;
use vstd::utf8::*;
use crate::body::text_of;

verus! {

/// Calls `String::from_utf8`. The contract repeats what the standard library
/// documents: the call succeeds exactly on well-formed UTF-8, and the string
/// it returns is the text that those bytes encode.
#[verifier::external_body]
pub(crate) fn text_from_utf8(bytes: Vec<u8>) -> (r: Option<String>)
    ensures
        r is Some <==> valid_utf8(bytes@),
        r is Some ==> r->Some_0@ == decode_utf8(bytes@),
{
    match String::from_utf8(bytes) {
        Ok(text) => Some(text),
        Err(_) => None,
    }
}

/// The text of an optional run of bytes, where it is well-formed UTF-8.
pub open spec fn decoded(bytes: Option<Seq<u8>>) -> Option<Seq<char>> {
    match bytes {
        Some(b) => Some(decode_utf8(b)),
        None => None,
    }
}

/// The UTF-8 bytes of an optional text.
pub open spec fn encoded(text: Option<Seq<char>>) -> Option<Seq<u8>> {
    match text {
        Some(t) => Some(encode_utf8(t)),
        None => None,
    }
}

/// Whether an optional run of bytes is absent or well-formed UTF-8.
pub open spec fn valid_text(bytes: Option<Seq<u8>>) -> bool {
    match bytes {
        Some(b) => valid_utf8(b),
        None => true,
    }
}

/// The bytes of an optional vector.
pub open spec fn bytes_of(v: Option<Vec<u8>>) -> Option<Seq<u8>> {
    match v {
        Some(b) => Some(b@),
        None => None,
    }
}

/// Turns optional bytes into optional text. The outer `None` reports bytes
/// that are not well-formed UTF-8.
pub fn optional_text(bytes: Option<Vec<u8>>) -> (r: Option<Option<String>>)
    ensures
        r is Some <==> valid_text(bytes_of(bytes)),
        r is Some ==> text_of(r->Some_0) == decoded(bytes_of(bytes)),
{
    match bytes {
        None => Some(None),
        Some(b) => match text_from_utf8(b) {
            Some(t) => Some(Some(t)),
            None => None,
        },
    }
}

} // verus!
