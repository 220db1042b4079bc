//! `!!yaml`: the YAML indicators `*`, `&` and `!` as values.
use vstd::prelude::*;

use crate::model::bytes::{byte_at, opening_quote, read_opening_quote, spec_byte_at};
use crate::model::renderer::is_string_node;
use crate::model::{EncodedString, Model, Node, Renderer, Rope, Tagged, TaggedValue};

verus! {

pub const TAG: &'static str = "tag:yaml.org,2002:yaml";

/// The indicator model.
#[derive(Clone, Copy)]
pub struct Yaml;

/// One of the indicators.
#[derive(Debug)]
pub enum YamlValue {
    Alias,
    Anchor,
    Tag,
}

/// The byte of an indicator.
pub open spec fn indicator_byte(v: YamlValue) -> u8 {
    match v {
        YamlValue::Alias => 0x2a,
        YamlValue::Anchor => 0x26,
        YamlValue::Tag => 0x21,
    }
}

/// The indicator that `v` is: one of `*`, `&`, `!` (after an opening quote
/// when explicit, then any quote), and nothing more.
pub open spec fn yaml_parse(explicit: bool, v: Seq<u8>) -> Option<YamlValue> {
    let q = opening_quote(explicit, v);
    let p = if q > 0 { 1int } else { 0int };
    let ind = match spec_byte_at(v, p) {
        Some(b) => if b == 0x2a {
            Some(YamlValue::Alias)
        } else if b == 0x26 {
            Some(YamlValue::Anchor)
        } else if b == 0x21 {
            Some(YamlValue::Tag)
        } else {
            None
        },
        None => None,
    };
    let end_ok = if q > 0 {
        (spec_byte_at(v, p + 1) == Some(0x27u8) || spec_byte_at(v, p + 1) == Some(0x22u8)) && v.len()
            == p + 2
    } else {
        v.len() == p + 1
    };
    if end_ok {
        ind
    } else {
        None
    }
}

impl Yaml {
    pub fn get_tag() -> (r: &'static str)
        ensures
            r == TAG,
    {
        TAG
    }

    /// Writes out the indicator.
    pub fn encode(&self, _renderer: &Renderer, value: TaggedValue, _tags: &[(String, String)]) -> (r: Result<Rope, TaggedValue>)
        ensures
            match value {
                TaggedValue::Yaml(y) => r matches Ok(rope) && (rope@.len() == 1 && is_string_node(
                    rope@[0],
                    seq![indicator_byte(y)],
                )),
                _ => r == Err::<Rope, TaggedValue>(value),
            },
    {
        match value {
            TaggedValue::Yaml(yp) => {
                let b: u8 = match yp {
                    YamlValue::Alias => 0x2a,
                    YamlValue::Anchor => 0x26,
                    YamlValue::Tag => 0x21,
                };
                let mut v: Vec<u8> = Vec::new();
                v.push(b);
                assert(v@ =~= seq![b]);
                Ok(Rope::Node([Node::String(EncodedString::String(v))]))
            }
            other => Err(other),
        }
    }

    /// Reads an indicator.
    pub fn decode(&self, explicit: bool, value: &[u8]) -> (r: Result<TaggedValue, ()>)
        ensures
            match yaml_parse(explicit, value@) {
                Some(y) => r matches Ok(t) && t == TaggedValue::Yaml(y),
                None => r is Err,
            },
    {
        let (quote_state, mut ptr) = read_opening_quote(explicit, value);
        let val = match byte_at(value, ptr) {
            Some(b) => {
                if b == 0x2a {
                    YamlValue::Alias
                } else if b == 0x26 {
                    YamlValue::Anchor
                } else if b == 0x21 {
                    YamlValue::Tag
                } else {
                    return Err(());
                }
            }
            None => return Err(()),
        };
        ptr = ptr + 1;
        if quote_state > 0 {
            match byte_at(value, ptr) {
                Some(b) => {
                    if b == 0x27 || b == 0x22 {
                        ptr = ptr + 1;
                    } else {
                        return Err(());
                    }
                }
                None => return Err(()),
            }
        }
        if value.len() > ptr {
            return Err(());
        }
        Ok(TaggedValue::Yaml(val))
    }
}

/// What encoding writes for an indicator decodes as that indicator, explicit
/// or not.
pub proof fn law_yaml_roundtrip(y: YamlValue, explicit: bool)
    ensures
        yaml_parse(explicit, seq![indicator_byte(y)]) == Some(y),
{
    assert(opening_quote(explicit, seq![indicator_byte(y)]) == 0);
}

impl Model for Yaml {
    fn is_metamodel(&self) -> (r: bool) {
        false
    }

    open spec fn spec_is_decodable(&self) -> bool {
        true
    }

    open spec fn spec_is_encodable(&self) -> bool {
        true
    }

    fn has_default(&self) -> (r: bool) {
        false
    }

    fn is_sequence(&self) -> (r: bool) {
        false
    }

    fn is_dictionary(&self) -> (r: bool) {
        false
    }

    open spec fn spec_tag(&self) -> &'static str {
        TAG
    }

    fn get_tag(&self) -> (r: &'static str) {
        TAG
    }

    fn is_decodable(&self) -> (r: bool)
        ensures
            r,
    {
        true
    }

    fn is_encodable(&self) -> (r: bool)
        ensures
            r,
    {
        true
    }
}

impl YamlValue {
    /// The spelling of the indicator.
    pub fn as_str(&self) -> (r: &'static str)
        ensures
            r == (match self {
                YamlValue::Alias => "*",
                YamlValue::Anchor => "&",
                YamlValue::Tag => "!",
            }),
    {
        match self {
            YamlValue::Alias => "*",
            YamlValue::Anchor => "&",
            YamlValue::Tag => "!",
        }
    }
}

impl Tagged for YamlValue {
    open spec fn spec_tag(&self) -> &'static str {
        TAG
    }

    fn get_tag(&self) -> (r: &'static str) {
        TAG
    }
}

} // verus!
