//! `!literal`: text that is written out exactly as it is held.
use vstd::prelude::*;
use vstd::utf8::valid_utf8;

use crate::model::bytes::{push_slice, string_bytes, string_to_bytes};
use crate::model::renderer::is_string_node;
use crate::model::text::{bytes_to_string, utf8_string};
use crate::model::{EncodedString, Model, Node, Renderer, Rope, Tagged, TaggedValue};

verus! {

pub const TAG: &'static str = "tag:yamlette.org,1:literal";

/// The literal model.
#[derive(Copy, Clone, Debug)]
pub struct Literal;

/// `n` copies of `b`, one after another.
pub open spec fn repeat_bytes(b: Seq<u8>, n: nat) -> Seq<u8>
    decreases n,
{
    if n == 0 {
        Seq::empty()
    } else {
        repeat_bytes(b, (n - 1) as nat) + b
    }
}

impl Literal {
    pub fn get_tag() -> (r: &'static str)
        ensures
            r == TAG,
    {
        TAG
    }

    /// The bytes as a string, when they are valid UTF-8.
    pub fn bytes_to_string(&self, bytes: &[u8]) -> (r: Result<String, ()>)
        ensures
            r is Ok <==> valid_utf8(bytes@),
            r matches Ok(s) ==> string_bytes(s) == bytes@,
    {
        match bytes_to_string(bytes) {
            Some(s) => Ok(s),
            None => Err(()),
        }
    }

    /// `times` copies of the bytes as a string, when that is valid UTF-8.
    pub fn bytes_to_string_times(&self, bytes: &[u8], times: usize) -> (r: Result<String, ()>)
        ensures
            r is Ok <==> valid_utf8(repeat_bytes(bytes@, times as nat)),
            r matches Ok(s) ==> string_bytes(s) == repeat_bytes(bytes@, times as nat),
    {
        let mut vec: Vec<u8> = Vec::new();
        let mut i: usize = 0;
        while i < times
            invariant
                i <= times,
                vec@ == repeat_bytes(bytes@, i as nat),
            decreases times - i,
        {
            push_slice(&mut vec, bytes);
            i = i + 1;
        }
        match utf8_string(vec) {
            Some(s) => Ok(s),
            None => Err(()),
        }
    }

    /// The bytes of the string.
    pub fn string_to_bytes(&self, string: String) -> (r: Vec<u8>)
        ensures
            r@ == string_bytes(string),
    {
        string_to_bytes(&string)
    }

    /// The empty literal.
    pub fn get_default(&self) -> (r: TaggedValue)
        ensures
            r matches TaggedValue::Literal(v) && v.spec_value()@ == Seq::<char>::empty(),
    {
        TaggedValue::Literal(LiteralValue { value: String::new() })
    }

    /// Writes out the text as it is.
    pub fn encode(&self, _renderer: &Renderer, value: TaggedValue, _tags: &[(String, String)]) -> (r: Result<Rope, TaggedValue>)
        ensures
            match value {
                TaggedValue::Literal(v) => r matches Ok(rope) && (rope@.len() == 1 && is_string_node(
                    rope@[0],
                    string_bytes(v.spec_value()),
                )),
                _ => r == Err::<Rope, TaggedValue>(value),
            },
    {
        match value {
            TaggedValue::Literal(v) => {
                let bytes = string_to_bytes(&v.value);
                Ok(Rope::Node([Node::String(EncodedString::String(bytes))]))
            }
            other => Err(other),
        }
    }

    /// Takes the bytes as the text, when they are valid UTF-8.
    pub fn decode(&self, _explicit: bool, value: &[u8]) -> (r: Result<TaggedValue, ()>)
        ensures
            r is Ok <==> valid_utf8(value@),
            r matches Ok(t) ==> (t matches TaggedValue::Literal(v) && string_bytes(v.spec_value())
                == value@),
    {
        let string = self.bytes_to_string(value)?;
        Ok(TaggedValue::Literal(LiteralValue::from(string)))
    }
}

/// What encoding writes for a literal decodes: the bytes are valid UTF-8,
/// and the text that decoding gives back is the literal's text.
pub proof fn law_literal_roundtrip(s: String)
    ensures
        valid_utf8(string_bytes(s)),
        forall|w: String| #[trigger] string_bytes(w) == string_bytes(s) ==> w@ == s@,
{
    vstd::utf8::encode_utf8_valid_utf8(s@);
    assert forall|w: String| #[trigger] string_bytes(w) == string_bytes(s) implies w@ == s@ by {
        vstd::utf8::encode_utf8_decode_utf8(w@);
        vstd::utf8::encode_utf8_decode_utf8(s@);
    }
}

impl Model for Literal {
    fn is_metamodel(&self) -> (r: bool) {
        false
    }

    open spec fn spec_is_decodable(&self) -> bool {
        true
    }

    open spec fn spec_is_encodable(&self) -> bool {
        true
    }

    open spec fn spec_has_default(&self) -> bool {
        true
    }

    fn is_sequence(&self) -> (r: bool) {
        false
    }

    fn is_dictionary(&self) -> (r: bool) {
        false
    }

    open spec fn spec_tag(&self) -> &'static str {
        TAG
    }

    fn get_tag(&self) -> (r: &'static str) {
        TAG
    }

    fn is_decodable(&self) -> (r: bool)
        ensures
            r,
    {
        true
    }

    fn is_encodable(&self) -> (r: bool)
        ensures
            r,
    {
        true
    }

    fn has_default(&self) -> (r: bool)
        ensures
            r,
    {
        true
    }
}

/// Text to be written out as it is.
#[derive(Debug)]
pub struct LiteralValue {
    value: String,
}

impl LiteralValue {
    pub closed spec fn spec_value(&self) -> String {
        self.value
    }

    /// The text.
    pub fn as_str(&self) -> (r: &str)
        ensures
            r@ == self.spec_value()@,
    {
        self.value.as_str()
    }

    /// A copy of the text.
    pub fn as_string(&self) -> (r: String)
        ensures
            r == self.spec_value(),
    {
        self.value.clone()
    }
}

impl From<String> for LiteralValue {
    fn from(value: String) -> (r: LiteralValue)
        ensures
            r.spec_value() == value,
    {
        LiteralValue { value }
    }
}

impl vstd::std_specs::convert::FromSpecImpl<String> for LiteralValue {
    open spec fn obeys_from_spec() -> bool {
        true
    }

    closed spec fn from_spec(v: String) -> LiteralValue {
        LiteralValue { value: v }
    }
}

impl From<&'static str> for LiteralValue {
    fn from(value: &'static str) -> (r: LiteralValue)
        ensures
            r.spec_value()@ == value@,
    {
        LiteralValue { value: value.to_owned() }
    }
}

impl vstd::std_specs::convert::FromSpecImpl<&'static str> for LiteralValue {
    open spec fn obeys_from_spec() -> bool {
        false
    }

    closed spec fn from_spec(v: &'static str) -> LiteralValue {
        arbitrary()
    }
}

impl Tagged for LiteralValue {
    open spec fn spec_tag(&self) -> &'static str {
        TAG
    }

    fn get_tag(&self) -> (r: &'static str) {
        TAG
    }
}

} // verus!
