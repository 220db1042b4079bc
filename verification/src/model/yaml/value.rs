//! `!!value`: the default value key `=`.
use vstd::prelude::*;

use crate::model::bytes::{byte_at, opening_quote, quote_byte, read_opening_quote, spec_byte_at};
use crate::model::renderer::is_string_node;
use crate::model::{EncodedString, Model, Node, Renderer, Rope, Tagged, TaggedValue};

verus! {

pub const TAG: &'static str = "tag:yaml.org,2002:value";

/// The value key model.
#[derive(Clone, Copy)]
pub struct Value;

/// Whether `v` is exactly `=` (quoted, when explicit).
pub open spec fn value_decodes(explicit: bool, v: Seq<u8>) -> bool {
    let q = opening_quote(explicit, v);
    let p = if q > 0 { 1int } else { 0int };
    &&& spec_byte_at(v, p) == Some(0x3du8)
    &&& if q > 0 {
        spec_byte_at(v, p + 1) == Some(quote_byte(q)) && v.len() == p + 2
    } else {
        v.len() == p + 1
    }
}

impl Value {
    pub fn get_tag() -> (r: &'static str)
        ensures
            r == TAG,
    {
        TAG
    }

    /// Writes out `=`.
    pub fn encode(&self, _renderer: &Renderer, value: TaggedValue, _tags: &[(String, String)]) -> (r: Result<Rope, TaggedValue>)
        ensures
            match value {
                TaggedValue::Value(_) => r matches Ok(rope) && (rope@.len() == 1 && is_string_node(
                    rope@[0],
                    seq![0x3du8],
                )),
                _ => r == Err::<Rope, TaggedValue>(value),
            },
    {
        match value {
            TaggedValue::Value(_) => {
                let mut v: Vec<u8> = Vec::new();
                v.push(0x3du8);
                assert(v@ =~= seq![0x3du8]);
                Ok(Rope::Node([Node::String(EncodedString::String(v))]))
            }
            other => Err(other),
        }
    }

    /// Reads the value key.
    pub fn decode(&self, explicit: bool, value: &[u8]) -> (r: Result<TaggedValue, ()>)
        ensures
            r is Ok <==> value_decodes(explicit, value@),
            r matches Ok(t) ==> t matches TaggedValue::Value(_),
    {
        let (quote_state, mut ptr) = read_opening_quote(explicit, value);
        match byte_at(value, ptr) {
            Some(b) => {
                if b == 0x3d {
                    ptr = ptr + 1;
                } else {
                    return Err(());
                }
            }
            None => return Err(()),
        }
        if quote_state > 0 {
            match byte_at(value, ptr) {
                Some(b) => {
                    if b == 0x27 && quote_state == 1 {
                        ptr = ptr + 1;
                    } else if b == 0x22 && quote_state == 2 {
                        ptr = ptr + 1;
                    } else {
                        return Err(());
                    }
                }
                None => return Err(()),
            }
        }
        if value.len() > ptr {
            return Err(());
        }
        Ok(TaggedValue::Value(ValueValue))
    }
}

/// What encoding writes for the value key (`=`) decodes as the value key,
/// explicit or not.
pub proof fn law_value_roundtrip(explicit: bool)
    ensures
        value_decodes(explicit, seq![0x3du8]),
{
    assert(opening_quote(explicit, seq![0x3du8]) == 0);
}

impl Model for Value {
    fn is_metamodel(&self) -> (r: bool) {
        false
    }

    open spec fn spec_is_decodable(&self) -> bool {
        true
    }

    open spec fn spec_is_encodable(&self) -> bool {
        true
    }

    fn has_default(&self) -> (r: bool) {
        false
    }

    fn is_sequence(&self) -> (r: bool) {
        false
    }

    fn is_dictionary(&self) -> (r: bool) {
        false
    }

    open spec fn spec_tag(&self) -> &'static str {
        TAG
    }

    fn get_tag(&self) -> (r: &'static str) {
        TAG
    }

    fn is_decodable(&self) -> (r: bool)
        ensures
            r,
    {
        true
    }

    fn is_encodable(&self) -> (r: bool)
        ensures
            r,
    {
        true
    }
}

/// The value key.
#[derive(Debug)]
pub struct ValueValue;

impl ValueValue {
    /// The spelling of the value key.
    pub fn as_str(&self) -> (r: &'static str)
        ensures
            r == "=",
    {
        "="
    }
}

impl Tagged for ValueValue {
    open spec fn spec_tag(&self) -> &'static str {
        TAG
    }

    fn get_tag(&self) -> (r: &'static str) {
        TAG
    }
}

} // verus!
