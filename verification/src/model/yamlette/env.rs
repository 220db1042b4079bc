//! `!yamlette/env`: a value that names an environment variable and stands
//! for the variable's text. Looking the variable up is left to the caller;
//! this model reads the name and writes what was found.
use vstd::prelude::*;
use vstd::string::StringSliceAdditionalSpecFns;
use vstd::utf8::valid_utf8;

use crate::model::bytes::string_bytes;
use crate::model::text::bytes_to_string;
use crate::model::yaml::str::{is_quoted_node, str_quoting, Str, StrValue};
use crate::model::yamlette::literal::LiteralValue;
use crate::model::{issued_prefix, Model, Renderer, Rope, TaggedValue};

verus! {

pub const TAG: &'static str = "tag:yamlette.org,1:env";

/// The environment variable model.
#[derive(Clone, Copy)]
pub struct Env;

impl Env {
    pub fn get_tag() -> (r: &'static str)
        ensures
            r == TAG,
    {
        TAG
    }

    /// The bytes as a string, when they are valid UTF-8.
    pub fn bytes_to_string(&self, bytes: &[u8]) -> (r: Result<String, ()>)
        ensures
            r is Ok <==> valid_utf8(bytes@),
            r matches Ok(s) ==> string_bytes(s) == bytes@,
    {
        match bytes_to_string(bytes) {
            Some(s) => Ok(s),
            None => Err(()),
        }
    }

    /// The name of the variable that a value to read names: the value
    /// itself, when it is valid UTF-8.
    pub fn decode_key(&self, value: &[u8]) -> (r: Result<String, ()>)
        ensures
            r is Ok <==> valid_utf8(value@),
            r matches Ok(s) ==> string_bytes(s) == value@,
    {
        self.bytes_to_string(value)
    }

    /// What reading gives once the variable was looked up: its text as a
    /// literal; an unset variable fails.
    pub fn decode_resolved(&self, found: Result<String, ()>) -> (r: Result<TaggedValue, ()>)
        ensures
            match found {
                Ok(s) => r matches Ok(t) && (t matches TaggedValue::Literal(v) && v.spec_value() == s),
                Err(_) => r is Err,
            },
    {
        match found {
            Ok(s) => Ok(TaggedValue::Literal(LiteralValue::from(s))),
            Err(()) => Err(()),
        }
    }

    /// The name of the variable that a value to write names: the text of a
    /// literal.
    pub fn encode_key(&self, value: &TaggedValue) -> (r: Option<String>)
        ensures
            match value {
                TaggedValue::Literal(v) => r == Some(v.spec_value()),
                _ => r is None,
            },
    {
        match value {
            TaggedValue::Literal(v) => Some(v.as_string()),
            _ => None,
        }
    }

    /// Writes what was found for the variable that a literal names, as a
    /// string; gives the value back where the variable is unset or the value
    /// is no literal.
    pub fn encode_resolved(
        &self,
        renderer: &Renderer,
        value: TaggedValue,
        found: Option<String>,
        tags: &[(String, String)],
    ) -> (r: Result<Rope, TaggedValue>)
        ensures
            match value {
                TaggedValue::Literal(_) => match found {
                    Some(s) => r matches Ok(rope) && ({
                        let (q, b) = str_quoting(string_bytes(s), false, false);
                        &&& issued_prefix(rope@, crate::model::yaml::str::TAG.spec_bytes(), tags@, false, None)
                        &&& is_quoted_node(rope@.last(), q, b)
                    }),
                    None => r == Err::<Rope, TaggedValue>(value),
                },
                _ => r == Err::<Rope, TaggedValue>(value),
            },
    {
        match value {
            TaggedValue::Literal(v) => match found {
                Some(s) => {
                    let model = Str;
                    let strval = StrValue::from(s);
                    model.encode(renderer, TaggedValue::Str(strval), tags)
                }
                None => Err(TaggedValue::Literal(v)),
            },
            other => Err(other),
        }
    }
}

impl Model for Env {
    fn is_metamodel(&self) -> (r: bool) {
        false
    }

    open spec fn spec_is_decodable(&self) -> bool {
        true
    }

    open spec fn spec_is_encodable(&self) -> bool {
        true
    }

    fn has_default(&self) -> (r: bool) {
        false
    }

    fn is_sequence(&self) -> (r: bool) {
        false
    }

    fn is_dictionary(&self) -> (r: bool) {
        false
    }

    open spec fn spec_tag(&self) -> &'static str {
        TAG
    }

    fn get_tag(&self) -> (r: &'static str) {
        TAG
    }

    fn is_decodable(&self) -> (r: bool)
        ensures
            r,
    {
        true
    }

    fn is_encodable(&self) -> (r: bool)
        ensures
            r,
    {
        true
    }
}

} // verus!
