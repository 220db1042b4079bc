//! Conversions between bytes and strings.
use vstd::prelude::*;
use vstd::utf8::{decode_utf8, valid_utf8};

use crate::model::bytes::string_bytes;

verus! {

/// `String::from_utf8`: the bytes as a string when they are valid UTF-8,
/// the string holding exactly these bytes; `None` otherwise.
#[verifier::external_body]
pub fn utf8_string(bytes: Vec<u8>) -> (r: Option<String>)
    ensures
        r is Some <==> valid_utf8(bytes@),
        r matches Some(s) ==> string_bytes(s) == bytes@ && s@ == decode_utf8(bytes@),
{
    String::from_utf8(bytes).ok()
}

/// A copy of `bytes` as a string when they are valid UTF-8.
pub fn bytes_to_string(bytes: &[u8]) -> (r: Option<String>)
    ensures
        r is Some <==> valid_utf8(bytes@),
        r matches Some(s) ==> string_bytes(s) == bytes@,
{
    let mut v: Vec<u8> = Vec::new();
    crate::model::bytes::push_slice(&mut v, bytes);
    assert(v@ =~= bytes@);
    utf8_string(v)
}

} // verus!
