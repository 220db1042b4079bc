//! `!!merge`: the merge key `<<`.
use vstd::prelude::*;

use crate::model::bytes::{
    all_blank_from, byte_at, only_blanks_from, opening_quote, quote_byte, read_opening_quote,
    spec_byte_at, starts_with_at,
};
use crate::model::renderer::is_string_node;
use crate::model::{EncodedString, Model, Node, Renderer, Rope, Tagged, TaggedValue};

verus! {

pub const TAG: &'static str = "tag:yaml.org,2002:merge";

/// The merge key model.
#[derive(Clone, Copy)]
pub struct Merge;

/// Whether `v` is the merge key: `<<` (quoted, when explicit), then only blanks.
pub open spec fn merge_decodes(explicit: bool, v: Seq<u8>) -> bool {
    let q = opening_quote(explicit, v);
    let p = if q > 0 { 1int } else { 0int };
    &&& seq![0x3cu8, 0x3c].is_prefix_of(v.skip(p))
    &&& if q > 0 {
        spec_byte_at(v, p + 2) == Some(quote_byte(q)) && all_blank_from(v, p + 3)
    } else {
        all_blank_from(v, p + 2)
    }
}

impl Merge {
    pub fn get_tag() -> (r: &'static str)
        ensures
            r == TAG,
    {
        TAG
    }

    /// Writes out `<<`.
    pub fn encode(&self, _renderer: &Renderer, value: TaggedValue, _tags: &[(String, String)]) -> (r: Result<Rope, TaggedValue>)
        ensures
            match value {
                TaggedValue::Merge(_) => r matches Ok(rope) && (rope@.len() == 1 && is_string_node(
                    rope@[0],
                    seq![0x3cu8, 0x3c],
                )),
                _ => r == Err::<Rope, TaggedValue>(value),
            },
    {
        match value {
            TaggedValue::Merge(_) => Ok(Rope::Node([Node::String(EncodedString::String(vec![0x3cu8, 0x3c]))])),
            other => Err(other),
        }
    }

    /// Reads the merge key.
    pub fn decode(&self, explicit: bool, value: &[u8]) -> (r: Result<TaggedValue, ()>)
        ensures
            r is Ok <==> merge_decodes(explicit, value@),
            r matches Ok(t) ==> t matches TaggedValue::Merge(_),
    {
        let (quote_state, mut ptr) = read_opening_quote(explicit, value);
        if starts_with_at(value, ptr, [0x3cu8, 0x3c].as_slice()) {
            ptr = ptr + 2;
            if quote_state > 0 {
                match byte_at(value, ptr) {
                    Some(b) => {
                        if b == 0x27 && quote_state == 1 {
                            ptr = ptr + 1;
                        } else if b == 0x22 && quote_state == 2 {
                            ptr = ptr + 1;
                        } else {
                            return Err(());
                        }
                    }
                    None => return Err(()),
                }
            }
            if only_blanks_from(value, ptr) {
                Ok(TaggedValue::Merge(MergeValue))
            } else {
                Err(())
            }
        } else {
            Err(())
        }
    }
}

/// What encoding writes for the merge key (`<<`) decodes as the merge key,
/// explicit or not.
pub proof fn law_merge_roundtrip(explicit: bool)
    ensures
        merge_decodes(explicit, seq![0x3cu8, 0x3c]),
{
    let v = seq![0x3cu8, 0x3c];
    assert(opening_quote(explicit, v) == 0);
    assert(v.skip(0) =~= v);
    assert(v.subrange(0, 2) =~= v);
}

impl Model for Merge {
    fn is_metamodel(&self) -> (r: bool) {
        false
    }

    open spec fn spec_is_decodable(&self) -> bool {
        true
    }

    open spec fn spec_is_encodable(&self) -> bool {
        true
    }

    fn has_default(&self) -> (r: bool) {
        false
    }

    fn is_sequence(&self) -> (r: bool) {
        false
    }

    fn is_dictionary(&self) -> (r: bool) {
        false
    }

    open spec fn spec_tag(&self) -> &'static str {
        TAG
    }

    fn get_tag(&self) -> (r: &'static str) {
        TAG
    }

    fn is_decodable(&self) -> (r: bool)
        ensures
            r,
    {
        true
    }

    fn is_encodable(&self) -> (r: bool)
        ensures
            r,
    {
        true
    }
}

/// The merge key value.
#[derive(Debug)]
pub struct MergeValue;

impl MergeValue {
    /// The spelling of the merge key.
    pub fn as_str(&self) -> (r: &'static str)
        ensures
            r == "<<",
    {
        "<<"
    }
}

impl Tagged for MergeValue {
    open spec fn spec_tag(&self) -> &'static str {
        TAG
    }

    fn get_tag(&self) -> (r: &'static str) {
        TAG
    }
}

} // verus!
