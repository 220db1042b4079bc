//! `!yamlette/base91`: binary data written in basE91.
use vstd::prelude::*;
use vstd::string::StringSliceAdditionalSpecFns;

use crate::model::renderer::is_string_node;
use crate::model::yaml::binary::BinaryValue;
use crate::model::{issued_prefix, model_issue_rope, EncodedString, Model, Node, Renderer, Rope, TaggedValue};

verus! {

pub const TAG: &'static str = "tag:yamlette.org,1:base91";

/// The basE91 text of the data, as the `base91` crate writes it.
pub uninterp spec fn base91_encoding(data: Seq<u8>) -> Seq<u8>;

/// The data that basE91 text stands for, as the `base91` crate reads it.
pub uninterp spec fn base91_decoding(text: Seq<u8>) -> Seq<u8>;

/// `base91::slice_encode`: the basE91 text of the data. Its alphabet (the
/// crate's canonical code map) holds no single quote.
#[verifier::external_body]
fn slice_encode(data: &[u8]) -> (r: Vec<u8>)
    ensures
        r@ == base91_encoding(data@),
        forall|i: int| 0 <= i < r@.len() ==> r@[i] != 0x27,
{
    base91::slice_encode(data)
}

/// `base91::slice_decode`: the data that basE91 text stands for; the text of
/// some data gives that data back, as the crate's documentation and tests
/// show.
#[verifier::external_body]
fn slice_decode(text: &[u8]) -> (r: Vec<u8>)
    ensures
        r@ == base91_decoding(text@),
        forall|d: Seq<u8>| #[trigger] base91_encoding(d) == text@ ==> r@ == d,
{
    base91::slice_decode(text)
}

/// The text that decoding reads: within single quotes where the value is
/// quoted (up to the byte before the closing quote), the value itself
/// otherwise.
pub open spec fn base91_text(v: Seq<u8>) -> Seq<u8> {
    if v.len() > 1 && v[0] == 0x27 && v[v.len() - 1] == 0x27 {
        v.subrange(1, v.len() - 2)
    } else {
        v
    }
}

/// The basE91 model.
#[derive(Clone, Copy)]
pub struct Base91;

impl Base91 {
    pub fn get_tag() -> (r: &'static str)
        ensures
            r == TAG,
    {
        TAG
    }

    /// Writes the binary data in basE91, preceded by the tag and anchor as
    /// the value's styles ask.
    pub fn encode(&self, _renderer: &Renderer, value: TaggedValue, tags: &[(String, String)]) -> (r: Result<Rope, TaggedValue>)
        ensures
            match value {
                TaggedValue::Binary(v) => r matches Ok(rope) && (issued_prefix(
                    rope@,
                    TAG.spec_bytes(),
                    tags@,
                    v.spec_issue_tag(),
                    v.spec_alias(),
                ) && is_string_node(rope@.last(), base91_encoding(v.spec_value()))
                    && forall|i: int| 0 <= i < base91_encoding(v.spec_value()).len() ==> base91_encoding(v.spec_value())[i] != 0x27),
                _ => r == Err::<Rope, TaggedValue>(value),
            },
    {
        let mut val = match value {
            TaggedValue::Binary(v) => v,
            other => return Err(other),
        };
        let issue_tag = val.issue_tag();
        let alias = val.take_alias();
        let data = val.to_vec();
        let production = slice_encode(data.as_slice());
        let node = Node::String(EncodedString::String(production));
        Ok(model_issue_rope(self, node, issue_tag, alias, tags))
    }

    /// Reads basE91 text (see `base91_text`) into binary data. A value of two
    /// single quotes alone is left out: the range it would read is reversed.
    pub fn decode(&self, _explicit: bool, value: &[u8]) -> (r: Result<TaggedValue, ()>)
        requires
            !(value@.len() == 2 && value@[0] == 0x27 && value@[1] == 0x27),
        ensures
            r matches Ok(t) && (t matches TaggedValue::Binary(v) && v.is_plain() && v.spec_value() == base91_decoding(
                base91_text(value@),
            )),
            forall|d: Seq<u8>| base91_encoding(d) == base91_text(value@) ==> (r matches Ok(t) && (t matches TaggedValue::Binary(v)
                && v.spec_value() == d)),
    {
        let n = value.len();
        let production = if n > 1 && value[0] == 0x27 && value[n - 1] == 0x27 {
            let slice = vstd::slice::slice_subrange(value, 1, n - 2);
            slice_decode(slice)
        } else {
            slice_decode(value)
        };
        Ok(TaggedValue::Binary(BinaryValue::from(production)))
    }
}

impl Model for Base91 {
    fn is_metamodel(&self) -> (r: bool) {
        false
    }

    open spec fn spec_is_decodable(&self) -> bool {
        true
    }

    open spec fn spec_is_encodable(&self) -> bool {
        true
    }

    fn has_default(&self) -> (r: bool) {
        false
    }

    fn is_sequence(&self) -> (r: bool) {
        false
    }

    fn is_dictionary(&self) -> (r: bool) {
        false
    }

    open spec fn spec_tag(&self) -> &'static str {
        TAG
    }

    fn get_tag(&self) -> (r: &'static str) {
        TAG
    }

    fn is_decodable(&self) -> (r: bool)
        ensures
            r,
    {
        true
    }

    fn is_encodable(&self) -> (r: bool)
        ensures
            r,
    {
        true
    }
}

/// What basE91 encoding writes for binary data, decoding reads back: the
/// text (which `encode` shows holds no single quote) is read as it is, and
/// `decode` then gives the data whose text it is.
pub proof fn law_base91_roundtrip(data: Seq<u8>, text: Seq<u8>)
    requires
        text == base91_encoding(data),
        forall|i: int| 0 <= i < text.len() ==> text[i] != 0x27,
    ensures
        base91_text(text) == text,
        !(text.len() == 2 && text[0] == 0x27 && text[1] == 0x27),
{
}

} // verus!
