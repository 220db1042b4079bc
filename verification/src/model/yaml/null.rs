//! `!!null`: the null value.
use vstd::prelude::*;
use vstd::string::StringSliceAdditionalSpecFns;

use crate::model::bytes::{opening_quote, quote_byte, read_opening_quote, lemma_u8_flag, byte_at, spec_byte_at, starts_with_at};
use crate::model::style::CommonStyles;
use crate::model::renderer::is_string_node;
use crate::model::{issued_prefix, model_issue_rope, EncodedString, Model, Node, Renderer, Rope, Tagged, TaggedValue};

verus! {

pub const TAG: &'static str = "tag:yaml.org,2002:null";

/// The null model.
#[derive(Copy, Clone, Debug)]
pub struct Null;

/// How many bytes of a null spelling start at `p`: `~`, `null`, `Null` or `NULL`.
pub open spec fn null_len_at(v: Seq<u8>, p: int) -> int {
    match spec_byte_at(v, p) {
        Some(b) => if b == 0x7e {
            1
        } else if b == 0x6e && seq![0x6eu8, 0x75, 0x6c, 0x6c].is_prefix_of(v.skip(p)) {
            4
        } else if b == 0x4e && (seq![0x4eu8, 0x75, 0x6c, 0x6c].is_prefix_of(v.skip(p))
            || seq![0x4eu8, 0x55, 0x4c, 0x4c].is_prefix_of(v.skip(p))) {
            4
        } else {
            0
        },
        None => 0,
    }
}

/// Whether `v` decodes as null: it is empty, or (after an optional opening
/// quote) spells null and closes the quote, or is an empty quoted value.
pub open spec fn null_decodes(explicit: bool, v: Seq<u8>) -> bool {
    if v.len() == 0 {
        true
    } else {
        let q = opening_quote(explicit, v);
        let p = if q > 0 { 1int } else { 0int };
        let m = null_len_at(v, p);
        if m > 0 {
            q == 0 || spec_byte_at(v, p + m) == Some(quote_byte(q))
        } else {
            q > 0 && spec_byte_at(v, p) == Some(quote_byte(q))
        }
    }
}

impl Null {
    pub fn get_tag() -> (r: &'static str)
        ensures
            r == TAG,
    {
        TAG
    }

    fn read_null(&self, value: &[u8], ptr: usize) -> (r: usize)
        ensures
            r == null_len_at(value@, ptr as int),
    {
        match byte_at(value, ptr) {
            Some(b) => {
                if b == 0x7e {
                    1
                } else if b == 0x6e {
                    if starts_with_at(value, ptr, [0x6eu8, 0x75, 0x6c, 0x6c].as_slice()) {
                        4
                    } else {
                        0
                    }
                } else if b == 0x4e {
                    if starts_with_at(value, ptr, [0x4eu8, 0x75, 0x6c, 0x6c].as_slice())
                        || starts_with_at(value, ptr, [0x4eu8, 0x55, 0x4c, 0x4c].as_slice()) {
                        4
                    } else {
                        0
                    }
                } else {
                    0
                }
            }
            None => 0,
        }
    }

    /// The default null value.
    pub fn get_default(&self) -> (r: TaggedValue)
        ensures
            r matches TaggedValue::Null(v) && v.is_plain(),
    {
        TaggedValue::Null(NullValue::default())
    }

    /// Writes out `~`, preceded by the tag and anchor as the value's styles ask.
    pub fn encode(&self, _renderer: &Renderer, value: TaggedValue, tags: &[(String, String)]) -> (r: Result<Rope, TaggedValue>)
        ensures
            match value {
                TaggedValue::Null(v) => r matches Ok(rope) && (issued_prefix(
                    rope@,
                    TAG.spec_bytes(),
                    tags@,
                    v.spec_issue_tag(),
                    v.spec_alias(),
                ) && is_string_node(rope@.last(), seq![0x7eu8])),
                _ => r == Err::<Rope, TaggedValue>(value),
            },
    {
        let mut val = match value {
            TaggedValue::Null(v) => v,
            other => return Err(other),
        };
        let issue_tag = val.issue_tag();
        let alias = val.take_alias();
        let mut bytes: Vec<u8> = Vec::new();
        bytes.push(0x7e);
        let node = Node::String(EncodedString::String(bytes));
        Ok(model_issue_rope(self, node, issue_tag, alias, tags))
    }

    /// Reads null from `value`; `explicit` allows a quoted spelling.
    pub fn decode(&self, explicit: bool, value: &[u8]) -> (r: Result<TaggedValue, ()>)
        ensures
            r is Ok <==> null_decodes(explicit, value@),
            r matches Ok(t) ==> (t matches TaggedValue::Null(v) && v.is_plain()),
    {
        if value.len() == 0 {
            return Ok(TaggedValue::Null(NullValue::default()));
        }
        let (quote_state, mut ptr) = read_opening_quote(explicit, value);
        let maybe_null = self.read_null(value, ptr);
        if maybe_null > 0 {
            ptr = ptr + maybe_null;
            if quote_state > 0 {
                match byte_at(value, ptr) {
                    Some(b) => {
                        if b == 0x27 && quote_state == 1 {
                        } else if b == 0x22 && quote_state == 2 {
                        } else {
                            return Err(());
                        }
                    }
                    None => return Err(()),
                }
            }
            return Ok(TaggedValue::Null(NullValue::default()));
        }
        if quote_state > 0 {
            match byte_at(value, ptr) {
                Some(b) => {
                    if b == 0x27 && quote_state == 1 {
                        Ok(TaggedValue::Null(NullValue::default()))
                    } else if b == 0x22 && quote_state == 2 {
                        Ok(TaggedValue::Null(NullValue::default()))
                    } else {
                        Err(())
                    }
                }
                None => Err(()),
            }
        } else {
            Err(())
        }
    }
}

/// What encoding writes for null (`~`) decodes as null, explicit or not.
pub proof fn law_null_roundtrip(explicit: bool)
    ensures
        null_decodes(explicit, seq![0x7eu8]),
{
    assert(opening_quote(explicit, seq![0x7eu8]) == 0);
    assert(null_len_at(seq![0x7eu8], 0) == 1);
}

impl Model for Null {
    fn is_metamodel(&self) -> (r: bool) {
        false
    }

    open spec fn spec_is_decodable(&self) -> bool {
        true
    }

    open spec fn spec_is_encodable(&self) -> bool {
        true
    }

    open spec fn spec_has_default(&self) -> bool {
        true
    }

    fn is_sequence(&self) -> (r: bool) {
        false
    }

    fn is_dictionary(&self) -> (r: bool) {
        false
    }

    open spec fn spec_tag(&self) -> &'static str {
        TAG
    }

    fn get_tag(&self) -> (r: &'static str) {
        TAG
    }

    fn is_decodable(&self) -> (r: bool)
        ensures
            r,
    {
        true
    }

    fn is_encodable(&self) -> (r: bool)
        ensures
            r,
    {
        true
    }

    fn has_default(&self) -> (r: bool)
        ensures
            r,
    {
        true
    }
}

/// A null value, with its presentation.
#[derive(Clone, Debug)]
pub struct NullValue {
    style: u8,
    alias: Option<String>,
}

impl NullValue {
    pub closed spec fn spec_issue_tag(&self) -> bool {
        self.style & 1 == 1
    }

    pub closed spec fn spec_alias(&self) -> Option<String> {
        self.alias
    }

    /// No tag issued, no anchor.
    pub open spec fn is_plain(&self) -> bool {
        !self.spec_issue_tag() && self.spec_alias() is None
    }

    pub fn new(styles: CommonStyles, alias: Option<String>) -> (r: NullValue)
        ensures
            r.spec_issue_tag() == styles.spec_issue_tag(),
            r.spec_alias() == alias,
    {
        proof {
            lemma_u8_flag(0, 1, 1);
        }
        NullValue { style: if styles.issue_tag() { 1 } else { 0 }, alias }
    }

    pub fn take_alias(&mut self) -> (r: Option<String>)
        ensures
            r == old(self).spec_alias(),
            final(self).spec_alias() is None,
            final(self).spec_issue_tag() == old(self).spec_issue_tag(),
    {
        self.alias.take()
    }

    pub fn issue_tag(&self) -> (r: bool)
        ensures
            r == self.spec_issue_tag(),
    {
        self.style & 1 == 1
    }

    pub fn set_issue_tag(&mut self, val: bool)
        ensures
            final(self).spec_issue_tag() == val,
            final(self).spec_alias() == old(self).spec_alias(),
    {
        let s = self.style;
        proof {
            lemma_u8_flag(s, 1, 1);
        }
        if val {
            self.style = s | 1;
        } else {
            self.style = s & !1;
        }
    }

    /// The spelling that null is written with.
    pub fn as_str(&self) -> (r: &'static str)
        ensures
            r == "~",
    {
        "~"
    }
}

impl Default for NullValue {
    fn default() -> (r: NullValue)
        ensures
            r.is_plain(),
    {
        proof {
            lemma_u8_flag(0, 1, 1);
        }
        NullValue { style: 0, alias: None }
    }
}

impl Tagged for NullValue {
    open spec fn spec_tag(&self) -> &'static str {
        TAG
    }

    fn get_tag(&self) -> (r: &'static str) {
        TAG
    }
}

} // verus!
