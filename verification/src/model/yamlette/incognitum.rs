//! `!incognitum`: a value of an unknown tag, kept with its tag and anchor as
//! text.
use vstd::prelude::*;
use vstd::utf8::valid_utf8;

use crate::model::bytes::{push_slice, string_bytes};
use crate::model::renderer::is_string_node;
use crate::model::text::bytes_to_string;
use crate::model::{EncodedString, Model, Node, Renderer, Rope, Tagged, TaggedValue};

verus! {

pub const TAG: &'static str = "tag:yamlette.org,1:incognitum";

/// The model of values of unknown tags.
#[derive(Clone, Copy)]
pub struct Incognitum;

/// What an unknown value is written as: `!<tag> `, then `&anchor `, then the
/// text, each part where there is one.
pub open spec fn incognitum_bytes(tag: Option<String>, anchor: Option<String>, value: String) -> Seq<u8> {
    let t = match tag {
        Some(t) => seq![0x21u8, 0x3c] + string_bytes(t) + seq![0x3eu8, 0x20],
        None => Seq::empty(),
    };
    let a = match anchor {
        Some(a) => seq![0x26u8] + string_bytes(a) + seq![0x20u8],
        None => Seq::empty(),
    };
    t + a + string_bytes(value)
}

impl Incognitum {
    pub fn get_tag() -> (r: &'static str)
        ensures
            r == TAG,
    {
        TAG
    }

    /// Writes out the value with its tag and anchor.
    pub fn encode(&self, _renderer: &Renderer, value: TaggedValue, _tags: &[(String, String)]) -> (r: Result<Rope, TaggedValue>)
        ensures
            match value {
                TaggedValue::Incognitum(v) => r matches Ok(rope) && (rope@.len() == 1 && is_string_node(
                    rope@[0],
                    incognitum_bytes(v.spec_tag_name(), v.spec_anchor(), v.spec_value()),
                )),
                _ => r == Err::<Rope, TaggedValue>(value),
            },
    {
        let value = match value {
            TaggedValue::Incognitum(v) => v,
            other => return Err(other),
        };
        let mut result: Vec<u8> = Vec::new();
        match value.get_tag() {
            Some(t) => {
                result.push(0x21);
                result.push(0x3c);
                push_slice(&mut result, t.as_str().as_bytes());
                result.push(0x3e);
                result.push(0x20);
            }
            None => {}
        }
        let ghost after_tag = result@;
        match value.get_anchor() {
            Some(a) => {
                result.push(0x26);
                push_slice(&mut result, a.as_str().as_bytes());
                result.push(0x20);
            }
            None => {}
        }
        let ghost after_anchor = result@;
        push_slice(&mut result, value.get_value().as_str().as_bytes());
        assert(result@ =~= incognitum_bytes(value.spec_tag_name(), value.spec_anchor(), value.spec_value()));
        Ok(Rope::Node([Node::String(EncodedString::String(result))]))
    }

    /// Takes the bytes as the text of a value without tag or anchor.
    pub fn decode(&self, _explicit: bool, value: &[u8]) -> (r: Result<TaggedValue, ()>)
        ensures
            r is Ok <==> valid_utf8(value@),
            r matches Ok(t) ==> (t matches TaggedValue::Incognitum(v) && v.spec_tag_name() is None
                && v.spec_anchor() is None && string_bytes(v.spec_value()) == value@),
    {
        match bytes_to_string(value) {
            Some(s) => Ok(TaggedValue::Incognitum(IncognitumValue::new(s))),
            None => Err(()),
        }
    }

    /// Takes the bytes as the text of a value with the given anchor and tag.
    pub fn meta_init(&self, anchor: Option<String>, tag: Option<String>, value: &[u8]) -> (r: Result<TaggedValue, ()>)
        ensures
            r is Ok <==> valid_utf8(value@),
            r matches Ok(t) ==> (t matches TaggedValue::Incognitum(v) && v.spec_tag_name() == tag
                && v.spec_anchor() == anchor && string_bytes(v.spec_value()) == value@),
    {
        let string = match bytes_to_string(value) {
            Some(s) => s,
            None => return Err(()),
        };
        let mut value = IncognitumValue::new(string);
        value = match tag {
            Some(tag) => value.set_tag(tag),
            None => value,
        };
        value = match anchor {
            Some(anchor) => value.set_anchor(anchor),
            None => value,
        };
        Ok(TaggedValue::Incognitum(value))
    }
}

impl Model for Incognitum {
    open spec fn spec_is_metamodel(&self) -> bool {
        true
    }

    open spec fn spec_is_decodable(&self) -> bool {
        true
    }

    open spec fn spec_is_encodable(&self) -> bool {
        true
    }

    fn has_default(&self) -> (r: bool) {
        false
    }

    fn is_sequence(&self) -> (r: bool) {
        false
    }

    fn is_dictionary(&self) -> (r: bool) {
        false
    }

    open spec fn spec_tag(&self) -> &'static str {
        TAG
    }

    fn get_tag(&self) -> (r: &'static str) {
        TAG
    }

    fn is_decodable(&self) -> (r: bool)
        ensures
            r,
    {
        true
    }

    fn is_encodable(&self) -> (r: bool)
        ensures
            r,
    {
        true
    }

    fn is_metamodel(&self) -> (r: bool)
        ensures
            r,
    {
        true
    }
}

/// A value of an unknown tag: its tag, its anchor and its text.
#[derive(Debug, Clone)]
pub struct IncognitumValue {
    tag: Option<String>,
    anchor: Option<String>,
    value: String,
}

impl IncognitumValue {
    pub closed spec fn spec_tag_name(&self) -> Option<String> {
        self.tag
    }

    pub closed spec fn spec_anchor(&self) -> Option<String> {
        self.anchor
    }

    pub closed spec fn spec_value(&self) -> String {
        self.value
    }

    pub fn new(value: String) -> (r: IncognitumValue)
        ensures
            r.spec_tag_name() is None,
            r.spec_anchor() is None,
            r.spec_value() == value,
    {
        IncognitumValue { tag: None, anchor: None, value }
    }

    pub fn set_tag(self, tag: String) -> (r: IncognitumValue)
        ensures
            r.spec_tag_name() == Some(tag),
            r.spec_anchor() == self.spec_anchor(),
            r.spec_value() == self.spec_value(),
    {
        IncognitumValue { tag: Some(tag), anchor: self.anchor, value: self.value }
    }

    pub fn set_anchor(self, anchor: String) -> (r: IncognitumValue)
        ensures
            r.spec_anchor() == Some(anchor),
            r.spec_tag_name() == self.spec_tag_name(),
            r.spec_value() == self.spec_value(),
    {
        IncognitumValue { tag: self.tag, anchor: Some(anchor), value: self.value }
    }

    pub fn get_tag(&self) -> (r: &Option<String>)
        ensures
            *r == self.spec_tag_name(),
    {
        &self.tag
    }

    pub fn get_anchor(&self) -> (r: &Option<String>)
        ensures
            *r == self.spec_anchor(),
    {
        &self.anchor
    }

    pub fn get_value(&self) -> (r: &String)
        ensures
            *r == self.spec_value(),
    {
        &self.value
    }
}

impl Tagged for IncognitumValue {
    open spec fn spec_tag(&self) -> &'static str {
        TAG
    }

    fn get_tag(&self) -> (r: &'static str) {
        TAG
    }
}

} // verus!
