//! `!!bool`: booleans.
use vstd::prelude::*;
use vstd::string::StringSliceAdditionalSpecFns;

use crate::model::bytes::{
    all_blank_from, byte_at, lemma_u8_flag, only_blanks_from, opening_quote, quote_byte,
    read_opening_quote, spec_byte_at, starts_with_at,
};
use crate::model::renderer::is_string_node;
use crate::model::style::CommonStyles;
use crate::model::{issued_prefix, model_issue_rope, EncodedString, Model, Node, Renderer, Rope, Tagged, TaggedValue};

verus! {

pub const TAG: &'static str = "tag:yaml.org,2002:bool";

/// The boolean model.
#[derive(Clone, Copy)]
pub struct Bool;

pub open spec fn lit_true() -> Seq<u8> { seq![0x74u8, 0x72, 0x75, 0x65] }
pub open spec fn lit_false() -> Seq<u8> { seq![0x66u8, 0x61, 0x6c, 0x73, 0x65] }

/// Whether `s` starts with one of three spellings.
pub open spec fn starts3(s: Seq<u8>, a: Seq<u8>, b: Seq<u8>, c: Seq<u8>) -> bool {
    a.is_prefix_of(s) || b.is_prefix_of(s) || c.is_prefix_of(s)
}

/// The boolean word that `s` starts with: its length and its value. YAML 1.1
/// also knows on/off, yes/no and y/n.
pub open spec fn bool_word(s: Seq<u8>, yaml_11: bool) -> Option<(int, bool)> {
    if starts3(s, seq![0x74u8, 0x72, 0x75, 0x65], seq![0x54u8, 0x72, 0x75, 0x65], seq![0x54u8, 0x52, 0x55, 0x45]) {
        Some((4, true))
    } else if starts3(s, seq![0x66u8, 0x61, 0x6c, 0x73, 0x65], seq![0x46u8, 0x61, 0x6c, 0x73, 0x65], seq![0x46u8, 0x41, 0x4c, 0x53, 0x45]) {
        Some((5, false))
    } else if !yaml_11 {
        None
    } else if starts3(s, seq![0x6fu8, 0x6e], seq![0x4fu8, 0x6e], seq![0x4fu8, 0x4e]) {
        Some((2, true))
    } else if starts3(s, seq![0x6fu8, 0x66, 0x66], seq![0x4fu8, 0x66, 0x66], seq![0x4fu8, 0x46, 0x46]) {
        Some((3, false))
    } else if starts3(s, seq![0x79u8, 0x65, 0x73], seq![0x59u8, 0x65, 0x73], seq![0x59u8, 0x45, 0x53]) {
        Some((3, true))
    } else if starts3(s, seq![0x6eu8, 0x6f], seq![0x4eu8, 0x6f], seq![0x4eu8, 0x4f]) {
        Some((2, false))
    } else if s.len() > 0 && (s[0] == 0x59 || s[0] == 0x79) {
        Some((1, true))
    } else if s.len() > 0 && (s[0] == 0x4e || s[0] == 0x6e) {
        Some((1, false))
    } else {
        None
    }
}

/// What `v` decodes to: an optional opening quote (when explicit), a boolean
/// word, the closing quote, then only blanks.
pub open spec fn bool_parse(explicit: bool, v: Seq<u8>, yaml_11: bool) -> Option<bool> {
    let q = opening_quote(explicit, v);
    let p = if q > 0 { 1int } else { 0int };
    match bool_word(v.skip(p), yaml_11) {
        None => None,
        Some((n, b)) => {
            let e = p + n;
            if q > 0 {
                if spec_byte_at(v, e) == Some(quote_byte(q)) && all_blank_from(v, e + 1) {
                    Some(b)
                } else {
                    None
                }
            } else if all_blank_from(v, e) {
                Some(b)
            } else {
                None
            }
        },
    }
}

pub(crate) fn starts_with_any(value: &[u8], at: usize, a: &[u8], b: &[u8], c: &[u8]) -> (r: bool)
    requires
        at <= value@.len(),
    ensures
        r == starts3(value@.skip(at as int), a@, b@, c@),
{
    starts_with_at(value, at, a) || starts_with_at(value, at, b) || starts_with_at(value, at, c)
}

impl Bool {
    pub fn get_tag() -> (r: &'static str)
        ensures
            r == TAG,
    {
        TAG
    }

    fn word(value: &[u8], at: usize, yaml_11: bool) -> (r: Option<(usize, bool)>)
        requires
            at <= value@.len(),
        ensures
            match bool_word(value@.skip(at as int), yaml_11) {
                Some((n, b)) => r == Some((n as usize, b)),
                None => r is None,
            },
    {
        if starts_with_any(value, at, [0x74u8, 0x72, 0x75, 0x65].as_slice(), [0x54u8, 0x72, 0x75, 0x65].as_slice(), [0x54u8, 0x52, 0x55, 0x45].as_slice()) {
            Some((4, true))
        } else if starts_with_any(value, at, [0x66u8, 0x61, 0x6c, 0x73, 0x65].as_slice(), [0x46u8, 0x61, 0x6c, 0x73, 0x65].as_slice(), [0x46u8, 0x41, 0x4c, 0x53, 0x45].as_slice()) {
            Some((5, false))
        } else if !yaml_11 {
            None
        } else if starts_with_any(value, at, [0x6fu8, 0x6e].as_slice(), [0x4fu8, 0x6e].as_slice(), [0x4fu8, 0x4e].as_slice()) {
            Some((2, true))
        } else if starts_with_any(value, at, [0x6fu8, 0x66, 0x66].as_slice(), [0x4fu8, 0x66, 0x66].as_slice(), [0x4fu8, 0x46, 0x46].as_slice()) {
            Some((3, false))
        } else if starts_with_any(value, at, [0x79u8, 0x65, 0x73].as_slice(), [0x59u8, 0x65, 0x73].as_slice(), [0x59u8, 0x45, 0x53].as_slice()) {
            Some((3, true))
        } else if starts_with_any(value, at, [0x6eu8, 0x6f].as_slice(), [0x4eu8, 0x6f].as_slice(), [0x4eu8, 0x4f].as_slice()) {
            Some((2, false))
        } else {
            match byte_at(value, at) {
                Some(b) => {
                    if b == 0x59 || b == 0x79 {
                        Some((1, true))
                    } else if b == 0x4e || b == 0x6e {
                        Some((1, false))
                    } else {
                        None
                    }
                }
                None => None,
            }
        }
    }

    fn base_decode(&self, explicit: bool, value: &[u8], yaml_11: bool) -> (r: Result<bool, ()>)
        ensures
            match bool_parse(explicit, value@, yaml_11) {
                Some(b) => r == Ok::<bool, ()>(b),
                None => r is Err,
            },
    {
        let (quote_state, mut ptr) = read_opening_quote(explicit, value);
        let (len, found) = match Self::word(value, ptr, yaml_11) {
            Some(w) => w,
            None => return Err(()),
        };
        ptr = ptr + len;
        if quote_state > 0 {
            match byte_at(value, ptr) {
                Some(b) => {
                    if b == 0x27 && quote_state == 1 {
                        ptr = ptr + 1;
                    } else if b == 0x22 && quote_state == 2 {
                        ptr = ptr + 1;
                    } else {
                        return Err(());
                    }
                }
                None => return Err(()),
            }
        }
        if only_blanks_from(value, ptr) {
            Ok(found)
        } else {
            Err(())
        }
    }

    /// Writes out `true` or `false`, preceded by the tag and anchor as the
    /// value's styles ask.
    pub fn encode(&self, _renderer: &Renderer, value: TaggedValue, tags: &[(String, String)]) -> (r: Result<Rope, TaggedValue>)
        ensures
            match value {
                TaggedValue::Bool(v) => r matches Ok(rope) && (issued_prefix(
                    rope@,
                    TAG.spec_bytes(),
                    tags@,
                    v.spec_issue_tag(),
                    v.spec_alias(),
                ) && is_string_node(rope@.last(), if v.spec_value() { lit_true() } else { lit_false() })),
                _ => r == Err::<Rope, TaggedValue>(value),
            },
    {
        let mut value = match value {
            TaggedValue::Bool(v) => v,
            other => return Err(other),
        };
        let issue_tag = value.issue_tag();
        let alias = value.take_alias();
        let value = value.to_bool();
        let bytes: Vec<u8> = if value {
            vec![0x74u8, 0x72, 0x75, 0x65]
        } else {
            vec![0x66u8, 0x61, 0x6c, 0x73, 0x65]
        };
        let node = Node::String(EncodedString::String(bytes));
        Ok(model_issue_rope(self, node, issue_tag, alias, tags))
    }

    /// Reads a YAML 1.2 boolean: true/True/TRUE or false/False/FALSE.
    pub fn decode(&self, explicit: bool, value: &[u8]) -> (r: Result<TaggedValue, ()>)
        ensures
            r is Ok <==> bool_parse(explicit, value@, false) is Some,
            r matches Ok(t) ==> (t matches TaggedValue::Bool(v) && v.is_plain() && Some(v.spec_value())
                == bool_parse(explicit, value@, false)),
    {
        let b = self.base_decode(explicit, value, false)?;
        Ok(TaggedValue::Bool(BoolValue::from(b)))
    }

    /// Reads a YAML 1.1 boolean, which also knows on/off, yes/no and y/n.
    pub fn decode11(&self, explicit: bool, value: &[u8]) -> (r: Result<TaggedValue, ()>)
        ensures
            r is Ok <==> bool_parse(explicit, value@, true) is Some,
            r matches Ok(t) ==> (t matches TaggedValue::Bool(v) && v.is_plain() && Some(v.spec_value())
                == bool_parse(explicit, value@, true)),
    {
        let b = self.base_decode(explicit, value, true)?;
        Ok(TaggedValue::Bool(BoolValue::from(b)))
    }
}

/// What encoding writes for a boolean (`true` or `false`), decoding reads
/// back as that boolean, in YAML 1.2 and 1.1 alike, explicit or not.
pub proof fn law_bool_roundtrip(b: bool, explicit: bool, yaml_11: bool)
    ensures
        bool_parse(explicit, if b { lit_true() } else { lit_false() }, yaml_11) == Some(b),
{
    let v = if b { lit_true() } else { lit_false() };
    assert(opening_quote(explicit, v) == 0);
    assert(v.skip(0) =~= v);
    if b {
        assert(seq![0x74u8, 0x72, 0x75, 0x65].is_prefix_of(v)) by {
            assert(v.subrange(0, 4) =~= seq![0x74u8, 0x72, 0x75, 0x65]);
        }
    } else {
        assert(!starts3(v, seq![0x74u8, 0x72, 0x75, 0x65], seq![0x54u8, 0x72, 0x75, 0x65], seq![0x54u8, 0x52, 0x55, 0x45])) by {
            assert(v[0] == 0x66);
            assert(seq![0x74u8, 0x72, 0x75, 0x65][0] == 0x74);
            assert(seq![0x54u8, 0x72, 0x75, 0x65][0] == 0x54);
            assert(seq![0x54u8, 0x52, 0x55, 0x45][0] == 0x54);
            assert(v.subrange(0, 4)[0] == v[0]);
        }
        assert(seq![0x66u8, 0x61, 0x6c, 0x73, 0x65].is_prefix_of(v)) by {
            assert(v.subrange(0, 5) =~= seq![0x66u8, 0x61, 0x6c, 0x73, 0x65]);
        }
    }
}

impl Model for Bool {
    fn is_metamodel(&self) -> (r: bool) {
        false
    }

    open spec fn spec_is_decodable(&self) -> bool {
        true
    }

    open spec fn spec_is_encodable(&self) -> bool {
        true
    }

    fn has_default(&self) -> (r: bool) {
        false
    }

    fn is_sequence(&self) -> (r: bool) {
        false
    }

    fn is_dictionary(&self) -> (r: bool) {
        false
    }

    open spec fn spec_tag(&self) -> &'static str {
        TAG
    }

    fn get_tag(&self) -> (r: &'static str) {
        TAG
    }

    fn is_decodable(&self) -> (r: bool)
        ensures
            r,
    {
        true
    }

    fn is_encodable(&self) -> (r: bool)
        ensures
            r,
    {
        true
    }
}

/// A boolean, with its presentation.
#[derive(Debug)]
pub struct BoolValue {
    style: u8,
    value: bool,
    alias: Option<String>,
}

impl BoolValue {
    pub closed spec fn spec_issue_tag(&self) -> bool {
        self.style & 1 == 1
    }

    pub closed spec fn spec_alias(&self) -> Option<String> {
        self.alias
    }

    pub closed spec fn spec_value(&self) -> bool {
        self.value
    }

    /// No tag issued, no anchor.
    pub open spec fn is_plain(&self) -> bool {
        !self.spec_issue_tag() && self.spec_alias() is None
    }

    pub fn new(value: bool, styles: CommonStyles, alias: Option<String>) -> (r: BoolValue)
        ensures
            r.spec_value() == value,
            r.spec_issue_tag() == styles.spec_issue_tag(),
            r.spec_alias() == alias,
    {
        proof {
            lemma_u8_flag(0, 1, 1);
        }
        BoolValue { style: if styles.issue_tag() { 1 } else { 0 }, value, alias }
    }

    pub fn to_bool(self) -> (r: bool)
        ensures
            r == self.spec_value(),
    {
        self.value
    }

    pub fn take_alias(&mut self) -> (r: Option<String>)
        ensures
            r == old(self).spec_alias(),
            final(self).spec_alias() is None,
            final(self).spec_issue_tag() == old(self).spec_issue_tag(),
            final(self).spec_value() == old(self).spec_value(),
    {
        self.alias.take()
    }

    pub fn issue_tag(&self) -> (r: bool)
        ensures
            r == self.spec_issue_tag(),
    {
        self.style & 1 == 1
    }

    pub fn set_issue_tag(&mut self, val: bool)
        ensures
            final(self).spec_issue_tag() == val,
            final(self).spec_alias() == old(self).spec_alias(),
            final(self).spec_value() == old(self).spec_value(),
    {
        let s = self.style;
        proof {
            lemma_u8_flag(s, 1, 1);
        }
        if val {
            self.style = s | 1;
        } else {
            self.style = s & !1;
        }
    }

    /// The boolean.
    pub fn as_bool(&self) -> (r: bool)
        ensures
            r == self.spec_value(),
    {
        self.value
    }
}

impl From<bool> for BoolValue {
    fn from(val: bool) -> (r: BoolValue)
        ensures
            r.spec_value() == val,
            r.is_plain(),
    {
        proof {
            lemma_u8_flag(0, 1, 1);
        }
        BoolValue { style: 0, value: val, alias: None }
    }
}

impl vstd::std_specs::convert::FromSpecImpl<bool> for BoolValue {
    open spec fn obeys_from_spec() -> bool {
        true
    }

    closed spec fn from_spec(v: bool) -> BoolValue {
        BoolValue { style: 0, value: v, alias: None }
    }
}

impl Tagged for BoolValue {
    open spec fn spec_tag(&self) -> &'static str {
        TAG
    }

    fn get_tag(&self) -> (r: &'static str) {
        TAG
    }
}

} // verus!
