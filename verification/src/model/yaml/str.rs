//! `!!str`: strings, written plain or in quotes as their content asks, and
//! read back from plain, single-quoted and double-quoted form.
use vstd::prelude::*;
use vstd::string::StringSliceAdditionalSpecFns;
use vstd::utf8::valid_utf8;

use crate::model::bytes::{lemma_u8_flag, spec_byte_at, string_bytes};
use crate::model::style::{CommonStyles, Style};
use crate::model::text::{bytes_to_string, utf8_string};
use crate::model::{issued_prefix, model_issue_rope, EncodedString, Model, Node, Renderer, Rope, Tagged, TaggedValue};

verus! {

pub const TAG: &'static str = "tag:yaml.org,2002:str";

/// A control character that double quotes write as a backslash escape.
pub open spec fn is_escaped_control(b: u8) -> bool {
    b == 0 || b == 7 || (8 <= b <= 13) || b == 27
}

/// The letter that escapes a control character.
pub open spec fn control_letter(b: u8) -> u8 {
    if b == 0 {
        0x30
    } else if b == 7 {
        0x61
    } else if b == 8 {
        0x62
    } else if b == 9 {
        0x74
    } else if b == 10 {
        0x6e
    } else if b == 11 {
        0x76
    } else if b == 12 {
        0x66
    } else if b == 13 {
        0x72
    } else {
        0x65
    }
}

/// How a byte is written inside double quotes.
pub open spec fn double_escape(b: u8) -> Seq<u8> {
    if is_escaped_control(b) {
        seq![0x5cu8, control_letter(b)]
    } else if b == 0x22 || b == 0x5c {
        seq![0x5cu8, b]
    } else {
        seq![b]
    }
}

/// How a byte is written inside single quotes.
pub open spec fn single_escape(b: u8) -> Seq<u8> {
    if b == 0x27 {
        seq![0x27u8, 0x27]
    } else {
        seq![b]
    }
}

/// Bytes as written inside double quotes.
pub open spec fn double_escaped(s: Seq<u8>) -> Seq<u8>
    decreases s.len(),
{
    if s.len() == 0 {
        Seq::empty()
    } else {
        double_escaped(s.drop_last()) + double_escape(s.last())
    }
}

/// Bytes as written inside single quotes.
pub open spec fn single_escaped(s: Seq<u8>) -> Seq<u8>
    decreases s.len(),
{
    if s.len() == 0 {
        Seq::empty()
    } else {
        single_escaped(s.drop_last()) + single_escape(s.last())
    }
}

/// The first control character from `i` on, or the length where there is
/// none.
pub open spec fn first_control(s: Seq<u8>, i: int) -> int
    decreases s.len() - i,
{
    if i >= s.len() {
        s.len() as int
    } else if is_escaped_control(s[i]) {
        i
    } else {
        first_control(s, i + 1)
    }
}

/// The first control character, double quote or backslash from `i` on, or
/// the length where there is none.
pub open spec fn first_double_special(s: Seq<u8>, i: int) -> int
    decreases s.len() - i,
{
    if i >= s.len() {
        s.len() as int
    } else if is_escaped_control(s[i]) || s[i] == 0x22 || s[i] == 0x5c {
        i
    } else {
        first_double_special(s, i + 1)
    }
}

/// The quotes that a string is written in (0 for none, 1 for single, 2 for
/// double) and what stands between them. A control character calls for
/// double quotes: an unquoted string switches to them at that character, and
/// one forced into single quotes is written in double quotes from its first
/// double quote, backslash or control character on.
pub open spec fn str_quoting(s: Seq<u8>, force: bool, prefer_double: bool) -> (int, Seq<u8>) {
    let c = first_control(s, 0);
    if force && prefer_double {
        (2, double_escaped(s))
    } else if force {
        if c == s.len() {
            (1, single_escaped(s))
        } else {
            let k = first_double_special(s, 0);
            (2, single_escaped(s.take(k)) + double_escaped(s.skip(k)))
        }
    } else if c == s.len() {
        (0, s)
    } else {
        (2, s.take(c) + double_escaped(s.skip(c)))
    }
}

/// The node that writes out `b` in quotes `q`.
pub open spec fn is_quoted_node(n: Node, q: int, b: Seq<u8>) -> bool {
    if q == 2 {
        n matches Node::DoubleQuotedString(s) && s@ == b
    } else if q == 1 {
        n matches Node::SingleQuotedString(s) && s@ == b
    } else {
        n matches Node::String(s) && s@ == b
    }
}

/// Where the first control character is, from `i` on.
fn find_control(s: &[u8], from: usize) -> (r: usize)
    ensures
        r == first_control(s@, from as int),
{
    let mut i = from;
    while i < s.len()
        invariant
            from <= i,
            first_control(s@, from as int) == first_control(s@, i as int),
        decreases s@.len() - i,
    {
        let b = s[i];
        if b == 0 || b == 7 || (8 <= b && b <= 13) || b == 27 {
            return i;
        }
        i = i + 1;
    }
    s.len()
}

/// Where the first control character, double quote or backslash is.
fn find_double_special(s: &[u8], from: usize) -> (r: usize)
    ensures
        r == first_double_special(s@, from as int),
{
    let mut i = from;
    while i < s.len()
        invariant
            from <= i,
            first_double_special(s@, from as int) == first_double_special(s@, i as int),
        decreases s@.len() - i,
    {
        let b = s[i];
        if b == 0 || b == 7 || (8 <= b && b <= 13) || b == 27 || b == 0x22 || b == 0x5c {
            return i;
        }
        i = i + 1;
    }
    s.len()
}

/// Appends the bytes from `from` on, as written inside double quotes.
fn push_double_escaped(out: &mut Vec<u8>, s: &[u8], from: usize)
    requires
        from <= s@.len(),
    ensures
        final(out)@ == old(out)@ + double_escaped(s@.skip(from as int)),
{
    let mut i = from;
    assert(s@.subrange(from as int, from as int) =~= Seq::<u8>::empty());
    while i < s.len()
        invariant
            from <= i <= s@.len(),
            out@ == old(out)@ + double_escaped(s@.subrange(from as int, i as int)),
        decreases s@.len() - i,
    {
        let b = s[i];
        proof {
            assert(s@.subrange(from as int, i + 1).drop_last() =~= s@.subrange(from as int, i as int));
            assert(s@.subrange(from as int, i + 1).last() == b);
        }
        let ghost before = out@;
        if b == 0 || b == 7 || (8 <= b && b <= 13) || b == 27 {
            let letter: u8 = if b == 0 {
                0x30
            } else if b == 7 {
                0x61
            } else if b == 8 {
                0x62
            } else if b == 9 {
                0x74
            } else if b == 10 {
                0x6e
            } else if b == 11 {
                0x76
            } else if b == 12 {
                0x66
            } else if b == 13 {
                0x72
            } else {
                0x65
            };
            out.push(0x5c);
            out.push(letter);
        } else if b == 0x22 || b == 0x5c {
            out.push(0x5c);
            out.push(b);
        } else {
            out.push(b);
        }
        assert(out@ =~= before + double_escape(b));
        i = i + 1;
    }
    assert(s@.subrange(from as int, s@.len() as int) =~= s@.skip(from as int));
}

/// Appends the bytes before `to`, as written inside single quotes.
fn push_single_escaped(out: &mut Vec<u8>, s: &[u8], to: usize)
    requires
        to <= s@.len(),
    ensures
        final(out)@ == old(out)@ + single_escaped(s@.take(to as int)),
{
    let mut i: usize = 0;
    assert(s@.take(0) =~= Seq::<u8>::empty());
    while i < to
        invariant
            i <= to <= s@.len(),
            out@ == old(out)@ + single_escaped(s@.take(i as int)),
        decreases to - i,
    {
        let b = s[i];
        proof {
            assert(s@.take(i + 1).drop_last() =~= s@.take(i as int));
            assert(s@.take(i + 1).last() == b);
        }
        let ghost before = out@;
        if b == 0x27 {
            out.push(0x27);
            out.push(0x27);
        } else {
            out.push(b);
        }
        assert(out@ =~= before + single_escape(b));
        i = i + 1;
    }
}

/// Appends the bytes before `to` as they are.
fn push_prefix(out: &mut Vec<u8>, s: &[u8], to: usize)
    requires
        to <= s@.len(),
    ensures
        final(out)@ == old(out)@ + s@.take(to as int),
{
    let mut i: usize = 0;
    while i < to
        invariant
            i <= to <= s@.len(),
            out@ == old(out)@ + s@.take(i as int),
        decreases to - i,
    {
        out.push(s[i]);
        i = i + 1;
        assert(out@ =~= old(out)@ + s@.take(i as int));
    }
}

/// The quotes and the text between them that a string is written with
/// (see `str_quoting`).
fn quote_bytes(s: &[u8], force: bool, prefer_double: bool) -> (r: (u8, Vec<u8>))
    ensures
        (r.0 as int, r.1@) == str_quoting(s@, force, prefer_double),
{
    let c = find_control(s, 0);
    let mut out: Vec<u8> = Vec::new();
    if force && prefer_double {
        push_double_escaped(&mut out, s, 0);
        assert(s@.skip(0) =~= s@);
        (2, out)
    } else if force {
        if c == s.len() {
            push_single_escaped(&mut out, s, s.len());
            assert(s@.take(s@.len() as int) =~= s@);
            (1, out)
        } else {
            let k = find_double_special(s, 0);
            proof {
                lemma_first_double_special_bound(s@, 0);
            }
            push_single_escaped(&mut out, s, k);
            push_double_escaped(&mut out, s, k);
            assert(out@ =~= single_escaped(s@.take(k as int)) + double_escaped(s@.skip(k as int)));
            (2, out)
        }
    } else if c == s.len() {
        push_prefix(&mut out, s, s.len());
        assert(s@.take(s@.len() as int) =~= s@);
        (0, out)
    } else {
        proof {
            lemma_first_control_bound(s@, 0);
        }
        push_prefix(&mut out, s, c);
        push_double_escaped(&mut out, s, c);
        assert(out@ =~= s@.take(c as int) + double_escaped(s@.skip(c as int)));
        (2, out)
    }
}

proof fn lemma_first_control_bound(s: Seq<u8>, i: int)
    requires
        0 <= i,
    ensures
        i <= first_control(s, i) <= s.len() || (i > s.len() && first_control(s, i) == s.len()),
    decreases s.len() - i,
{
    if i < s.len() && !is_escaped_control(s[i]) {
        lemma_first_control_bound(s, i + 1);
    }
}

proof fn lemma_first_double_special_bound(s: Seq<u8>, i: int)
    requires
        0 <= i,
    ensures
        i <= first_double_special(s, i) <= s.len() || (i > s.len() && first_double_special(s, i) == s.len()),
    decreases s.len() - i,
{
    if i < s.len() && !(is_escaped_control(s[i]) || s[i] == 0x22 || s[i] == 0x5c) {
        lemma_first_double_special_bound(s, i + 1);
    }
}

/// The string model.
#[derive(Clone, Copy)]
pub struct Str;

impl Str {
    pub fn get_tag() -> (r: &'static str)
        ensures
            r == TAG,
    {
        TAG
    }

    /// The default string: the empty one.
    pub fn get_default(&self) -> (r: TaggedValue)
        ensures
            r matches TaggedValue::Str(v) && v.is_plain() && string_bytes(v.spec_value()) == Seq::<u8>::empty(),
    {
        TaggedValue::Str(StrValue::from(String::new()))
    }

    /// Writes out the string, in the quotes that its styles and its content
    /// call for (see `str_quoting`), preceded by the tag and anchor as the
    /// styles ask.
    pub fn encode(&self, _renderer: &Renderer, value: TaggedValue, tags: &[(String, String)]) -> (r: Result<Rope, TaggedValue>)
        ensures
            match value {
                TaggedValue::Str(v) => r matches Ok(rope) && ({
                    let (q, b) = str_quoting(string_bytes(v.spec_value()), v.spec_force_quotes(), v.spec_prefer_double_quotes());
                    &&& issued_prefix(rope@, TAG.spec_bytes(), tags@, v.spec_issue_tag(), v.spec_alias())
                    &&& is_quoted_node(rope@.last(), q, b)
                }),
                _ => r == Err::<Rope, TaggedValue>(value),
            },
    {
        let mut val = match value {
            TaggedValue::Str(v) => v,
            other => return Err(other),
        };
        let issue_tag = val.issue_tag();
        let alias = val.take_alias();
        let force = val.force_quotes();
        let prefer_double = val.prefer_double_quotes();
        let string = val.take_twine();
        let (quotes, bytes) = quote_bytes(string.as_str().as_bytes(), force, prefer_double);
        let node = if quotes == 2 {
            Node::DoubleQuotedString(EncodedString::String(bytes))
        } else if quotes == 1 {
            Node::SingleQuotedString(EncodedString::String(bytes))
        } else {
            Node::String(EncodedString::String(bytes))
        };
        Ok(model_issue_rope(self, node, issue_tag, alias, tags))
    }
}

impl Model for Str {
    fn is_metamodel(&self) -> (r: bool) {
        false
    }

    open spec fn spec_is_decodable(&self) -> bool {
        true
    }

    open spec fn spec_is_encodable(&self) -> bool {
        true
    }

    open spec fn spec_has_default(&self) -> bool {
        true
    }

    fn is_sequence(&self) -> (r: bool) {
        false
    }

    fn is_dictionary(&self) -> (r: bool) {
        false
    }

    open spec fn spec_tag(&self) -> &'static str {
        TAG
    }

    fn get_tag(&self) -> (r: &'static str) {
        TAG
    }

    fn is_decodable(&self) -> (r: bool)
        ensures
            r,
    {
        true
    }

    fn is_encodable(&self) -> (r: bool)
        ensures
            r,
    {
        true
    }

    fn has_default(&self) -> (r: bool)
        ensures
            r,
    {
        true
    }
}

/// Turns forcing quotes on string values on or off.
pub struct ForceQuotes(pub bool);

impl Style for ForceQuotes {
    fn common_styles_apply(&mut self, styles: &mut CommonStyles) {
    }

    /// A string value gets the setting; any other value stays.
    open spec fn tagged_applied(&self, from: TaggedValue, to: TaggedValue) -> bool {
        match from {
            TaggedValue::Str(v) => to matches TaggedValue::Str(w) && (w.spec_force_quotes() == self.0 && w.spec_prefer_double_quotes() == v.spec_prefer_double_quotes()
                && w.spec_issue_tag() == v.spec_issue_tag() && w.spec_alias() == v.spec_alias()
                && w.spec_value() == v.spec_value()),
            _ => to == from,
        }
    }

    fn tagged_styles_apply(&mut self, value: &mut TaggedValue)
        ensures
            match *old(value) {
                TaggedValue::Str(v) => *final(value) matches TaggedValue::Str(w) && (w.spec_force_quotes() == old(self).0
                    && w.spec_prefer_double_quotes() == v.spec_prefer_double_quotes()
                    && w.spec_issue_tag() == v.spec_issue_tag() && w.spec_alias() == v.spec_alias()
                    && w.spec_value() == v.spec_value()),
                _ => *final(value) == *old(value),
            },
    {
        match value {
            TaggedValue::Str(v) => v.set_force_quotes(self.0),
            _ => {}
        }
    }
}

/// Turns preferring double quotes for string values on or off.
pub struct PreferDoubleQuotes(pub bool);

impl Style for PreferDoubleQuotes {
    fn common_styles_apply(&mut self, styles: &mut CommonStyles) {
    }

    /// A string value gets the setting; any other value stays.
    open spec fn tagged_applied(&self, from: TaggedValue, to: TaggedValue) -> bool {
        match from {
            TaggedValue::Str(v) => to matches TaggedValue::Str(w) && (w.spec_prefer_double_quotes() == self.0 && w.spec_force_quotes() == v.spec_force_quotes()
                && w.spec_issue_tag() == v.spec_issue_tag() && w.spec_alias() == v.spec_alias()
                && w.spec_value() == v.spec_value()),
            _ => to == from,
        }
    }

    fn tagged_styles_apply(&mut self, value: &mut TaggedValue)
        ensures
            match *old(value) {
                TaggedValue::Str(v) => *final(value) matches TaggedValue::Str(w) && (w.spec_prefer_double_quotes() == old(self).0
                    && w.spec_force_quotes() == v.spec_force_quotes()
                    && w.spec_issue_tag() == v.spec_issue_tag() && w.spec_alias() == v.spec_alias()
                    && w.spec_value() == v.spec_value()),
                _ => *final(value) == *old(value),
            },
    {
        match value {
            TaggedValue::Str(v) => v.set_prefer_double_quotes(self.0),
            _ => {}
        }
    }
}

/// A string, with its presentation.
#[derive(Debug)]
pub struct StrValue {
    style: u8,
    alias: Option<String>,
    value: String,
}

impl StrValue {
    pub closed spec fn spec_issue_tag(&self) -> bool {
        self.style & 1 == 1
    }

    pub closed spec fn spec_force_quotes(&self) -> bool {
        self.style & 2 == 2
    }

    pub closed spec fn spec_prefer_double_quotes(&self) -> bool {
        self.style & 4 == 4
    }

    pub closed spec fn spec_alias(&self) -> Option<String> {
        self.alias
    }

    pub closed spec fn spec_value(&self) -> String {
        self.value
    }

    /// No style set, no anchor.
    pub open spec fn is_plain(&self) -> bool {
        &&& !self.spec_issue_tag()
        &&& !self.spec_force_quotes()
        &&& !self.spec_prefer_double_quotes()
        &&& self.spec_alias() is None
    }

    /// The other attributes are those of `o`.
    pub open spec fn same_but_style(&self, o: StrValue) -> bool {
        self.spec_alias() == o.spec_alias() && self.spec_value() == o.spec_value()
    }

    pub fn new(val: String, styles: CommonStyles, alias: Option<String>) -> (r: StrValue)
        ensures
            r.spec_issue_tag() == styles.spec_issue_tag(),
            !r.spec_force_quotes(),
            !r.spec_prefer_double_quotes(),
            r.spec_alias() == alias,
            r.spec_value() == val,
    {
        let style: u8 = if styles.issue_tag() { 1 } else { 0 };
        assert((style & 1 == 1) == (style == 1) && style & 2 == 0 && style & 4 == 0) by (bit_vector)
            requires
                style == 0 || style == 1,
        ;
        StrValue { style, alias, value: val }
    }

    pub fn issue_tag(&self) -> (r: bool)
        ensures
            r == self.spec_issue_tag(),
    {
        self.style & 1 == 1
    }

    pub fn set_issue_tag(&mut self, val: bool)
        ensures
            final(self).spec_issue_tag() == val,
            final(self).spec_force_quotes() == old(self).spec_force_quotes(),
            final(self).spec_prefer_double_quotes() == old(self).spec_prefer_double_quotes(),
            final(self).same_but_style(*old(self)),
    {
        let s = self.style;
        proof {
            lemma_u8_flag(s, 1, 2);
            lemma_u8_flag(s, 1, 4);
        }
        if val {
            self.style = s | 1;
        } else {
            self.style = s & !1;
        }
    }

    pub fn force_quotes(&self) -> (r: bool)
        ensures
            r == self.spec_force_quotes(),
    {
        self.style & 2 == 2
    }

    pub fn set_force_quotes(&mut self, val: bool)
        ensures
            final(self).spec_force_quotes() == val,
            final(self).spec_issue_tag() == old(self).spec_issue_tag(),
            final(self).spec_prefer_double_quotes() == old(self).spec_prefer_double_quotes(),
            final(self).same_but_style(*old(self)),
    {
        let s = self.style;
        proof {
            lemma_u8_flag(s, 2, 1);
            lemma_u8_flag(s, 2, 4);
        }
        if val {
            self.style = s | 2;
        } else {
            self.style = s & !2;
        }
    }

    pub fn prefer_double_quotes(&self) -> (r: bool)
        ensures
            r == self.spec_prefer_double_quotes(),
    {
        self.style & 4 == 4
    }

    pub fn set_prefer_double_quotes(&mut self, val: bool)
        ensures
            final(self).spec_prefer_double_quotes() == val,
            final(self).spec_issue_tag() == old(self).spec_issue_tag(),
            final(self).spec_force_quotes() == old(self).spec_force_quotes(),
            final(self).same_but_style(*old(self)),
    {
        let s = self.style;
        proof {
            lemma_u8_flag(s, 4, 1);
            lemma_u8_flag(s, 4, 2);
        }
        if val {
            self.style = s | 4;
        } else {
            self.style = s & !4;
        }
    }

    /// Takes the string out, leaving an empty one.
    pub fn take_twine(&mut self) -> (r: String)
        ensures
            r == old(self).spec_value(),
            final(self).spec_value()@ == Seq::<char>::empty(),
            final(self).spec_alias() == old(self).spec_alias(),
            final(self).spec_issue_tag() == old(self).spec_issue_tag(),
            final(self).spec_force_quotes() == old(self).spec_force_quotes(),
            final(self).spec_prefer_double_quotes() == old(self).spec_prefer_double_quotes(),
    {
        let mut other = String::new();
        std::mem::swap(&mut other, &mut self.value);
        other
    }

    pub fn take_alias(&mut self) -> (r: Option<String>)
        ensures
            r == old(self).spec_alias(),
            final(self).spec_alias() is None,
            final(self).spec_value() == old(self).spec_value(),
            final(self).spec_issue_tag() == old(self).spec_issue_tag(),
            final(self).spec_force_quotes() == old(self).spec_force_quotes(),
            final(self).spec_prefer_double_quotes() == old(self).spec_prefer_double_quotes(),
    {
        self.alias.take()
    }

    /// The string.
    pub fn to_twine(self) -> (r: String)
        ensures
            r == self.spec_value(),
    {
        self.value
    }

    /// The string.
    pub fn as_str(&self) -> (r: &str)
        ensures
            r@ == self.spec_value()@,
    {
        self.value.as_str()
    }
}

impl Tagged for StrValue {
    open spec fn spec_tag(&self) -> &'static str {
        TAG
    }

    fn get_tag(&self) -> (r: &'static str) {
        TAG
    }
}

impl From<String> for StrValue {
    fn from(value: String) -> (r: StrValue)
        ensures
            r.is_plain(),
            r.spec_value() == value,
    {
        proof {
            lemma_u8_flag(0, 1, 2);
            lemma_u8_flag(0, 2, 4);
            lemma_u8_flag(0, 4, 1);
        }
        StrValue { style: 0, alias: None, value }
    }
}

impl vstd::std_specs::convert::FromSpecImpl<String> for StrValue {
    open spec fn obeys_from_spec() -> bool {
        true
    }

    closed spec fn from_spec(v: String) -> StrValue {
        StrValue { style: 0, alias: None, value: v }
    }
}

impl From<&'static str> for StrValue {
    fn from(value: &'static str) -> (r: StrValue)
        ensures
            r.is_plain(),
            r.spec_value()@ == value@,
    {
        proof {
            lemma_u8_flag(0, 1, 2);
            lemma_u8_flag(0, 2, 4);
            lemma_u8_flag(0, 4, 1);
        }
        StrValue { style: 0, alias: None, value: value.to_owned() }
    }
}

impl vstd::std_specs::convert::FromSpecImpl<&'static str> for StrValue {
    /// The copy of the text is a new `String`, which no spec value names.
    open spec fn obeys_from_spec() -> bool {
        false
    }

    closed spec fn from_spec(v: &'static str) -> StrValue {
        StrValue { style: 0, alias: None, value: arbitrary() }
    }
}

/// Where a line break at `p` ends: after `\r\n`, or after the single byte.
pub open spec fn break_end(v: Seq<u8>, p: int) -> int {
    if v[p] == 0x0d && spec_byte_at(v, p + 1) == Some(0x0au8) {
        p + 2
    } else {
        p + 1
    }
}

/// What a line break does to the text read so far and to the count of the
/// blanks at its end: trailing blanks fold into one space, and a second
/// break in a row turns it into a line feed. `None` where the count exceeds
/// the text, on which the arithmetic of the reader would go below zero.
pub open spec fn fold_break(res: Seq<u8>, spaces: int, brk: bool) -> Option<(Seq<u8>, int)> {
    if spaces > 1 && spaces > res.len() {
        None
    } else {
        let r1 = if spaces > 1 {
            res.take(res.len() - spaces + 1)
        } else if spaces == 0 {
            res.push(0x20)
        } else {
            res
        };
        let s1 = if spaces == 0 { 1 } else { spaces };
        if brk {
            if s1 > r1.len() {
                None
            } else {
                Some((r1.take(r1.len() - s1).push(0x0a), 0))
            }
        } else {
            Some((r1, s1))
        }
    }
}

/// The count of trailing blanks after a byte that ends a run of blanks or
/// breaks.
pub open spec fn plain_spaces(space: bool, brk: bool, spaces: int) -> int {
    if space || brk {
        0
    } else {
        spaces
    }
}

/// The bytes that a one-letter escape in double quotes stands for.
pub open spec fn simple_escape(c: u8) -> Option<Seq<u8>> {
    if c == 0x30 {
        Some(seq![0u8])
    } else if c == 0x61 {
        Some(seq![7u8])
    } else if c == 0x62 {
        Some(seq![8u8])
    } else if c == 0x74 {
        Some(seq![9u8])
    } else if c == 0x6e {
        Some(seq![10u8])
    } else if c == 0x76 {
        Some(seq![11u8])
    } else if c == 0x66 {
        Some(seq![12u8])
    } else if c == 0x72 {
        Some(seq![13u8])
    } else if c == 0x65 {
        Some(seq![27u8])
    } else if c == 0x22 {
        Some(seq![0x22u8])
    } else if c == 0x2f {
        Some(seq![0x2fu8])
    } else if c == 0x5c {
        Some(seq![0x5cu8])
    } else if c == 0x4e {
        Some(seq![0xc2u8, 0x85])
    } else if c == 0x5f {
        Some(seq![0xc2u8, 0xa0])
    } else if c == 0x4c {
        Some(seq![0xe2u8, 0x80, 0xa8])
    } else if c == 0x50 {
        Some(seq![0xe2u8, 0x80, 0xa9])
    } else {
        None
    }
}

/// How many hex digits follow an escape letter: 2 for `x`, 4 for `u`, 8
/// for `U`, none for another letter.
pub open spec fn hex_escape_len(c: u8) -> nat {
    if c == 0x78 {
        2
    } else if c == 0x75 {
        4
    } else if c == 0x55 {
        8
    } else {
        0
    }
}

pub open spec fn is_hex(b: u8) -> bool {
    (0x30 <= b <= 0x39) || (0x61 <= b <= 0x66) || (0x41 <= b <= 0x46)
}

pub open spec fn hex_digit(b: u8) -> int {
    if 0x30 <= b <= 0x39 {
        b - 0x30
    } else if 0x61 <= b <= 0x66 {
        b - 0x61 + 10
    } else {
        b - 0x41 + 10
    }
}

/// The number that the `n` hex digits at `at` spell, if all of them are hex
/// digits.
pub open spec fn hex_at(v: Seq<u8>, at: int, n: nat) -> Option<int>
    decreases n,
{
    if n == 0 {
        Some(0)
    } else {
        match hex_at(v, at, (n - 1) as nat) {
            Some(x) => if 0 <= at + n - 1 < v.len() && is_hex(v[at + n - 1]) {
                Some(x * 16 + hex_digit(v[at + n - 1]))
            } else {
                None
            },
            None => None,
        }
    }
}

/// The UTF-8 encoding of a code point.
pub open spec fn utf8_of(c: int) -> Seq<u8> {
    if c < 0x80 {
        seq![c as u8]
    } else if c < 0x800 {
        seq![(0xc0 + c / 64) as u8, (0x80 + c % 64) as u8]
    } else if c < 0x10000 {
        seq![(0xe0 + c / 4096) as u8, (0x80 + (c / 64) % 64) as u8, (0x80 + c % 64) as u8]
    } else {
        seq![
            (0xf0 + c / 262144) as u8,
            (0x80 + (c / 4096) % 64) as u8,
            (0x80 + (c / 64) % 64) as u8,
            (0x80 + c % 64) as u8,
        ]
    }
}

/// What follows a backslash at `p` in double quotes.
pub open spec fn dq_escape(v: Seq<u8>, p: int, sp: int, res: Seq<u8>) -> (int, bool, int, Seq<u8>, bool) {
    match spec_byte_at(v, p + 1) {
        None => (p + 1, false, sp, res.push(0x5c), true),
        Some(c) => if c == 0x0a || c == 0x0d {
            (break_end(v, p + 1), true, 0, res, true)
        } else if c == 0x09 || c == 0x20 {
            (p + 2, false, 0, res.push(c), true)
        } else {
            match simple_escape(c) {
                Some(e) => (p + 2, false, sp, res + e, true),
                None => if hex_escape_len(c) > 0 {
                    match hex_at(v, p + 2, hex_escape_len(c)) {
                        Some(code) => if code > 0x10ffff {
                            (p, false, sp, res, false)
                        } else {
                            (p + 2 + hex_escape_len(c), false, sp, res + utf8_of(code), true)
                        },
                        None => (p + 1, false, sp, res.push(0x5c), true),
                    }
                } else {
                    (p + 1, false, sp, res.push(0x5c), true)
                },
            }
        },
    }
}

/// Reads a double-quoted value from `p` on: blanks and line breaks fold,
/// escapes are resolved, and a double quote must end the value. `space` and
/// `brk` tell whether blanks or a line break came last, `spaces` counts the
/// trailing blanks. Gives `Some(Some(text))`, `Some(None)` where the value is
/// rejected, and `None` where the arithmetic of the reader would go below zero
/// (see `fold_break`).
pub open spec fn dq_fold(v: Seq<u8>, p: int, space: bool, brk: bool, spaces: int, res: Seq<u8>) -> Option<Option<Seq<u8>>>
    decreases v.len() - p,
{
    if p < 0 || p >= v.len() {
        Some(Some(res))
    } else {
        let b = v[p];
        if b == 0x20 || b == 0x09 {
            if brk {
                dq_fold(v, p + 1, space, brk, spaces, res)
            } else {
                dq_fold(v, p + 1, true, brk, spaces + 1, res.push(b))
            }
        } else if b == 0x0a || b == 0x0d {
            match fold_break(res, spaces, brk) {
                None => None,
                Some((r, s)) => dq_fold(v, break_end(v, p), false, true, s, r),
            }
        } else if b == 0x22 {
            if p + 1 == v.len() {
                Some(Some(res))
            } else {
                Some(None)
            }
        } else if b == 0x5c {
            let (np, nbrk, ns, nres, ok) = dq_escape(v, p, plain_spaces(space, brk, spaces), res);
            if !ok {
                Some(None)
            } else if np > p {
                dq_fold(v, np, false, nbrk, ns, nres)
            } else {
                Some(None)
            }
        } else {
            dq_fold(v, p + 1, false, false, plain_spaces(space, brk, spaces), res.push(b))
        }
    }
}

/// Reads a single-quoted value from `p` on: blanks and line breaks fold as
/// in double quotes, two single quotes stand for one, and a lone single quote
/// must end the value (see `dq_fold` for the result).
pub open spec fn sq_fold(v: Seq<u8>, p: int, space: bool, brk: bool, spaces: int, res: Seq<u8>) -> Option<Option<Seq<u8>>>
    decreases v.len() - p,
{
    if p < 0 || p >= v.len() {
        Some(Some(res))
    } else {
        let b = v[p];
        if b == 0x20 || b == 0x09 {
            if brk {
                sq_fold(v, p + 1, space, brk, spaces, res)
            } else {
                sq_fold(v, p + 1, true, brk, spaces + 1, res.push(b))
            }
        } else if b == 0x0a || b == 0x0d {
            match fold_break(res, spaces, brk) {
                None => None,
                Some((r, s)) => sq_fold(v, break_end(v, p), false, true, s, r),
            }
        } else if b == 0x27 {
            match spec_byte_at(v, p + 1) {
                Some(c) => if c == 0x27 {
                    sq_fold(v, p + 2, space, brk, spaces, res.push(0x27))
                } else {
                    Some(None)
                },
                None => Some(Some(res)),
            }
        } else {
            sq_fold(v, p + 1, false, false, plain_spaces(space, brk, spaces), res.push(b))
        }
    }
}

/// The bytes of the string that `v` holds: folded from double or single
/// quotes where it opens with one, or `v` itself (see `dq_fold` for the
/// result).
pub open spec fn str_decoded(v: Seq<u8>) -> Option<Option<Seq<u8>>> {
    if v.len() > 0 && v[0] == 0x22 {
        dq_fold(v, 1, false, false, 0, Seq::empty())
    } else if v.len() > 0 && v[0] == 0x27 {
        sq_fold(v, 1, false, false, 0, Seq::empty())
    } else {
        Some(Some(v))
    }
}

/// Sixteen to the power `n`.
pub open spec fn p16(n: nat) -> int
    decreases n,
{
    if n == 0 {
        1
    } else {
        16 * p16((n - 1) as nat)
    }
}

proof fn lemma_p16_mono(i: nat, j: nat)
    requires
        i <= j,
    ensures
        p16(i) <= p16(j),
        p16(i) >= 1,
    decreases j,
{
    if j > i {
        lemma_p16_mono(i, (j - 1) as nat);
    }
    if i > 0 {
        lemma_p16_mono((i - 1) as nat, (i - 1) as nat);
    }
}

/// Once `m` hex digits fail, so do more of them.
proof fn lemma_hex_at_none(v: Seq<u8>, at: int, m: nat, n: nat)
    requires
        m <= n,
        hex_at(v, at, m) is None,
    ensures
        hex_at(v, at, n) is None,
    decreases n,
{
    if n > m {
        lemma_hex_at_none(v, at, m, (n - 1) as nat);
    }
}

/// Applies a line break to the text read so far (see `fold_break`); gives
/// the new count of trailing blanks.
fn apply_break(result: &mut Vec<u8>, spaces: usize, brk: bool) -> (r: Option<usize>)
    ensures
        match fold_break(old(result)@, spaces as int, brk) {
            Some((res, sp)) => r == Some(sp as usize) && final(result)@ == res,
            None => r is None,
        },
{
    let mut s = spaces;
    if s > 1 {
        if s > result.len() {
            return None;
        }
        let len = result.len() - s + 1;
        result.truncate(len);
    } else if s == 0 {
        s = 1;
        result.push(0x20);
    }
    if brk {
        if s > result.len() {
            return None;
        }
        let len = result.len() - s;
        result.truncate(len);
        s = 0;
        result.push(0x0a);
    }
    Some(s)
}

/// Appends what a one-letter escape stands for; false where `c` is none.
fn push_simple_escape(out: &mut Vec<u8>, c: u8) -> (r: bool)
    ensures
        match simple_escape(c) {
            Some(e) => r && final(out)@ == old(out)@ + e,
            None => !r && final(out)@ == old(out)@,
        },
{
    let ghost before = out@;
    if c == 0x30 {
        out.push(0);
    } else if c == 0x61 {
        out.push(7);
    } else if c == 0x62 {
        out.push(8);
    } else if c == 0x74 {
        out.push(9);
    } else if c == 0x6e {
        out.push(10);
    } else if c == 0x76 {
        out.push(11);
    } else if c == 0x66 {
        out.push(12);
    } else if c == 0x72 {
        out.push(13);
    } else if c == 0x65 {
        out.push(27);
    } else if c == 0x22 {
        out.push(0x22);
    } else if c == 0x2f {
        out.push(0x2f);
    } else if c == 0x5c {
        out.push(0x5c);
    } else if c == 0x4e {
        out.push(0xc2);
        out.push(0x85);
    } else if c == 0x5f {
        out.push(0xc2);
        out.push(0xa0);
    } else if c == 0x4c {
        out.push(0xe2);
        out.push(0x80);
        out.push(0xa8);
    } else if c == 0x50 {
        out.push(0xe2);
        out.push(0x80);
        out.push(0xa9);
    } else {
        return false;
    }
    assert(out@ =~= before + simple_escape(c).unwrap());
    true
}

/// Appends the UTF-8 encoding of a code point.
fn push_utf8(out: &mut Vec<u8>, c: u32)
    requires
        c <= 0x10ffff,
    ensures
        final(out)@ == old(out)@ + utf8_of(c as int),
{
    let ghost before = out@;
    if c < 0x80 {
        out.push(c as u8);
    } else if c < 0x800 {
        out.push((0xc0 + c / 64) as u8);
        out.push((0x80 + c % 64) as u8);
    } else if c < 0x10000 {
        out.push((0xe0 + c / 4096) as u8);
        out.push((0x80 + (c / 64) % 64) as u8);
        out.push((0x80 + c % 64) as u8);
    } else {
        out.push((0xf0 + c / 262144) as u8);
        out.push((0x80 + (c / 4096) % 64) as u8);
        out.push((0x80 + (c / 64) % 64) as u8);
        out.push((0x80 + c % 64) as u8);
    }
    assert(out@ =~= before + utf8_of(c as int));
}

impl Str {
    /// The number that the `len_limit` hex digits at `at` spell (see
    /// `hex_at`).
    fn extract_hex_at(&self, src: &[u8], at: usize, len_limit: u8) -> (r: Option<u32>)
        requires
            len_limit <= 8,
        ensures
            r matches Some(x) ==> hex_at(src@, at as int, len_limit as nat) == Some(x as int),
            r is None ==> hex_at(src@, at as int, len_limit as nat) is None,
    {
        let mut result: u32 = 0;
        let mut i: u8 = 0;
        proof {
            lemma_p16_mono(0, 8);
            reveal_with_fuel(p16, 9);
            assert(p16(8) == 0x1_0000_0000);
        }
        while i < len_limit
            invariant
                i <= len_limit <= 8,
                hex_at(src@, at as int, i as nat) == Some(result as int),
                result < p16(i as nat),
                p16(8) == 0x1_0000_0000,
            decreases len_limit - i,
        {
            if at >= src.len() || (i as usize) >= src.len() - at {
                proof {
                    lemma_hex_at_none(src@, at as int, (i + 1) as nat, len_limit as nat);
                }
                return None;
            }
            let b = src[at + i as usize];
            let d: u32 = if 0x30 <= b && b <= 0x39 {
                (b - 0x30) as u32
            } else if 0x61 <= b && b <= 0x66 {
                (b - 0x61 + 10) as u32
            } else if 0x41 <= b && b <= 0x46 {
                (b - 0x41 + 10) as u32
            } else {
                proof {
                    lemma_hex_at_none(src@, at as int, (i + 1) as nat, len_limit as nat);
                }
                return None;
            };
            proof {
                lemma_p16_mono((i + 1) as nat, 8);
                assert(result * 16 + d < p16((i + 1) as nat)) by (nonlinear_arith)
                    requires
                        result < p16(i as nat),
                        d < 16,
                        p16((i + 1) as nat) == 16 * p16(i as nat),
                ;
            }
            result = result * 16 + d;
            i = i + 1;
        }
        Some(result)
    }

    /// Reads the escape after the backslash at `p` in double quotes (see
    /// `dq_escape`); `None` where it is rejected.
    fn read_escape(&self, value: &[u8], p: usize, sp: usize, result: &mut Vec<u8>) -> (r: Option<(usize, bool, usize)>)
        requires
            p < value@.len(),
            sp <= p,
        ensures
            ({
                let (np, nbrk, ns, nres, ok) = dq_escape(value@, p as int, sp as int, old(result)@);
                match r {
                    Some((q, b2, s2)) => ok && q == np && b2 == nbrk && s2 == ns && final(result)@ == nres
                        && p < q <= value@.len() && s2 <= q,
                    None => !ok,
                }
            }),
    {
        let ghost p0 = p as int;
        let ghost sp0 = sp as int;
        let ghost res0 = result@;
        if p + 1 >= value.len() {
            result.push(0x5c);
            return Some((p + 1, false, sp));
        }
        let c = value[p + 1];
        assert(spec_byte_at(value@, p0 + 1) == Some(c));
        if c == 0x0a || c == 0x0d {
            let np = if c == 0x0d && p + 2 < value.len() && value[p + 2] == 0x0a { p + 3 } else { p + 2 };
            return Some((np, true, 0));
        }
        if c == 0x09 || c == 0x20 {
            result.push(c);
            return Some((p + 2, false, 0));
        }
        if push_simple_escape(result, c) {
            return Some((p + 2, false, sp));
        }
        let n: u8 = if c == 0x78 { 2 } else if c == 0x75 { 4 } else if c == 0x55 { 8 } else { 0 };
        assert(n as nat == hex_escape_len(c));
        if n > 0 {
            match self.extract_hex_at(value, p + 2, n) {
                Some(code) => {
                    if code > 0x10ffff {
                        return None;
                    }
                    push_utf8(result, code);
                    proof {
                        lemma_hex_at_bound(value@, p0 + 2, n as nat);
                    }
                    Some((p + 2 + n as usize, false, sp))
                }
                None => {
                    result.push(0x5c);
                    Some((p + 1, false, sp))
                }
            }
        } else {
            result.push(0x5c);
            Some((p + 1, false, sp))
        }
    }

    /// Reads a double-quoted value (see `dq_fold`); `None` where it is
    /// rejected.
    fn fold_double(&self, value: &[u8]) -> (r: Option<Vec<u8>>)
        requires
            value@.len() > 0,
        ensures
            match r {
                Some(v) => dq_fold(value@, 1, false, false, 0, Seq::empty()) == Some(Some(v@)),
                None => !(dq_fold(value@, 1, false, false, 0, Seq::empty()) is Some && dq_fold(value@, 1, false, false, 0, Seq::empty())->0 is Some),
            },
    {
        let mut result: Vec<u8> = Vec::new();
        let mut p: usize = 1;
        let mut space = false;
        let mut brk = false;
        let mut spaces: usize = 0;
        loop
            invariant
                1 <= p <= value@.len(),
                spaces <= p,
                dq_fold(value@, 1, false, false, 0, Seq::empty()) == dq_fold(value@, p as int, space, brk, spaces as int, result@),
            decreases value@.len() - p,
        {
            if p >= value.len() {
                return Some(result);
            }
            let b = value[p];
            if b == 0x20 || b == 0x09 {
                if !brk {
                    spaces = spaces + 1;
                    space = true;
                    result.push(b);
                }
                p = p + 1;
            } else if b == 0x0a || b == 0x0d {
                let np = if b == 0x0d && p + 1 < value.len() && value[p + 1] == 0x0a { p + 2 } else { p + 1 };
                match apply_break(&mut result, spaces, brk) {
                    Some(sp) => {
                        spaces = sp;
                    },
                    None => {
                        return None;
                    },
                }
                brk = true;
                space = false;
                p = np;
            } else if b == 0x22 {
                if p + 1 == value.len() {
                    return Some(result);
                } else {
                    return None;
                }
            } else if b == 0x5c {
                let sp = if space || brk { 0 } else { spaces };
                match self.read_escape(value, p, sp, &mut result) {
                    Some((np, nbrk, ns)) => {
                        p = np;
                        brk = nbrk;
                        spaces = ns;
                        space = false;
                    }
                    None => return None,
                }
            } else {
                if space || brk {
                    spaces = 0;
                }
                space = false;
                brk = false;
                result.push(b);
                p = p + 1;
            }
        }
    }

    /// Reads a single-quoted value (see `sq_fold`); `None` where it is
    /// rejected.
    fn fold_single(&self, value: &[u8]) -> (r: Option<Vec<u8>>)
        requires
            value@.len() > 0,
        ensures
            match r {
                Some(v) => sq_fold(value@, 1, false, false, 0, Seq::empty()) == Some(Some(v@)),
                None => !(sq_fold(value@, 1, false, false, 0, Seq::empty()) is Some && sq_fold(value@, 1, false, false, 0, Seq::empty())->0 is Some),
            },
    {
        let mut result: Vec<u8> = Vec::new();
        let mut p: usize = 1;
        let mut space = false;
        let mut brk = false;
        let mut spaces: usize = 0;
        loop
            invariant
                1 <= p <= value@.len(),
                spaces <= p,
                sq_fold(value@, 1, false, false, 0, Seq::empty()) == sq_fold(value@, p as int, space, brk, spaces as int, result@),
            decreases value@.len() - p,
        {
            if p >= value.len() {
                return Some(result);
            }
            let b = value[p];
            if b == 0x20 || b == 0x09 {
                if !brk {
                    spaces = spaces + 1;
                    space = true;
                    result.push(b);
                }
                p = p + 1;
            } else if b == 0x0a || b == 0x0d {
                let np = if b == 0x0d && p + 1 < value.len() && value[p + 1] == 0x0a { p + 2 } else { p + 1 };
                match apply_break(&mut result, spaces, brk) {
                    Some(sp) => {
                        spaces = sp;
                    },
                    None => {
                        return None;
                    },
                }
                brk = true;
                space = false;
                p = np;
            } else if b == 0x27 {
                if p + 1 >= value.len() {
                    return Some(result);
                }
                if value[p + 1] == 0x27 {
                    result.push(0x27);
                    p = p + 2;
                } else {
                    return None;
                }
            } else {
                if space || brk {
                    spaces = 0;
                }
                space = false;
                brk = false;
                result.push(b);
                p = p + 1;
            }
        }
    }

    /// Reads a string: a double-quoted or single-quoted value is folded and
    /// unescaped (see `str_decoded`), any other is taken as it is; the bytes
    /// must be valid UTF-8.
    pub fn decode(&self, _explicit: bool, value: &[u8]) -> (r: Result<TaggedValue, ()>)
        ensures
            match str_decoded(value@) {
                Some(Some(b)) => (r is Ok <==> valid_utf8(b)) && (r matches Ok(t) ==> (t matches TaggedValue::Str(v)
                    && v.is_plain() && string_bytes(v.spec_value()) == b)),
                _ => r is Err,
            },
    {
        if value.len() > 0 && value[0] == 0x22 {
            match self.fold_double(value) {
                Some(bytes) => match utf8_string(bytes) {
                    Some(s) => Ok(TaggedValue::Str(StrValue::from(s))),
                    None => Err(()),
                },
                None => Err(()),
            }
        } else if value.len() > 0 && value[0] == 0x27 {
            match self.fold_single(value) {
                Some(bytes) => match utf8_string(bytes) {
                    Some(s) => Ok(TaggedValue::Str(StrValue::from(s))),
                    None => Err(()),
                },
                None => Err(()),
            }
        } else {
            match bytes_to_string(value) {
                Some(s) => Ok(TaggedValue::Str(StrValue::from(s))),
                None => Err(()),
            }
        }
    }
}

/// Hex digits that are all there end within the text.
proof fn lemma_hex_at_bound(v: Seq<u8>, at: int, n: nat)
    requires
        n > 0,
        hex_at(v, at, n) is Some,
    ensures
        at + n <= v.len(),
{
}

/// The text that a quoted node of `b` in quotes `q` writes out.
pub open spec fn quoted_text(q: int, b: Seq<u8>) -> Seq<u8> {
    if q == 2 {
        seq![0x22u8] + b + seq![0x22u8]
    } else if q == 1 {
        seq![0x27u8] + b + seq![0x27u8]
    } else {
        b
    }
}

/// Whether reading back what a string is written as gives the string: in
/// double quotes by choice, always; in single quotes without a control
/// character, always; otherwise where nothing before the switch to double
/// quotes would be read differently (a single quote doubled, an unescaped
/// double quote or backslash), and, unquoted, where no quote opens it.
pub open spec fn str_reads_back(s: Seq<u8>, force: bool, prefer_double: bool) -> bool {
    let c = first_control(s, 0);
    if force && prefer_double {
        true
    } else if force {
        c == s.len() || !s.take(first_double_special(s, 0)).contains(0x27u8)
    } else if c == s.len() {
        !(s.len() > 0 && (s[0] == 0x22 || s[0] == 0x27))
    } else {
        first_double_special(s, 0) == c
    }
}

/// Bytes before the first control character are none; at it there is one.
proof fn lemma_first_control_facts(s: Seq<u8>, i: int)
    requires
        0 <= i <= s.len(),
    ensures
        i <= first_control(s, i) <= s.len(),
        forall|j: int| i <= j < first_control(s, i) ==> !is_escaped_control(#[trigger] s[j]),
        first_control(s, i) < s.len() ==> is_escaped_control(s[first_control(s, i)]),
    decreases s.len() - i,
{
    if i < s.len() && !is_escaped_control(s[i]) {
        lemma_first_control_facts(s, i + 1);
    }
}

/// Likewise for the first control character, double quote or backslash.
proof fn lemma_first_double_special_facts(s: Seq<u8>, i: int)
    requires
        0 <= i <= s.len(),
    ensures
        i <= first_double_special(s, i) <= s.len(),
        forall|j: int| i <= j < first_double_special(s, i) ==> !(is_escaped_control(#[trigger] s[j]) || s[j] == 0x22 || s[j] == 0x5c),
        first_double_special(s, i) < s.len() ==> ({
            let k = first_double_special(s, i);
            is_escaped_control(s[k]) || s[k] == 0x22 || s[k] == 0x5c
        }),
    decreases s.len() - i,
{
    if i < s.len() && !(is_escaped_control(s[i]) || s[i] == 0x22 || s[i] == 0x5c) {
        lemma_first_double_special_facts(s, i + 1);
    }
}

/// Escaping in double quotes goes byte by byte.
proof fn lemma_double_escaped_append(a: Seq<u8>, b: Seq<u8>)
    ensures
        double_escaped(a + b) == double_escaped(a) + double_escaped(b),
    decreases b.len(),
{
    if b.len() == 0 {
        assert(a + b =~= a);
        assert(double_escaped(a) + double_escaped(b) =~= double_escaped(a));
    } else {
        lemma_double_escaped_append(a, b.drop_last());
        assert((a + b).drop_last() =~= a + b.drop_last());
        assert((a + b).last() == b.last());
        assert(double_escaped(a) + double_escaped(b) =~= double_escaped(a) + double_escaped(b.drop_last()) + double_escape(b.last()));
    }
}

/// Escaping in single quotes goes byte by byte.
proof fn lemma_single_escaped_append(a: Seq<u8>, b: Seq<u8>)
    ensures
        single_escaped(a + b) == single_escaped(a) + single_escaped(b),
    decreases b.len(),
{
    if b.len() == 0 {
        assert(a + b =~= a);
        assert(single_escaped(a) + single_escaped(b) =~= single_escaped(a));
    } else {
        lemma_single_escaped_append(a, b.drop_last());
        assert((a + b).drop_last() =~= a + b.drop_last());
        assert((a + b).last() == b.last());
        assert(single_escaped(a) + single_escaped(b) =~= single_escaped(a) + single_escaped(b.drop_last()) + single_escape(b.last()));
    }
}

/// The first byte's escape, then the rest's.
proof fn lemma_double_escaped_front(s: Seq<u8>)
    requires
        s.len() > 0,
    ensures
        double_escaped(s) == double_escape(s[0]) + double_escaped(s.drop_first()),
{
    lemma_double_escaped_append(seq![s[0]], s.drop_first());
    assert(seq![s[0]] + s.drop_first() =~= s);
    assert(seq![s[0]].drop_last() =~= Seq::<u8>::empty());
    assert(seq![s[0]].last() == s[0]);
    assert(double_escaped(Seq::<u8>::empty()) =~= Seq::<u8>::empty());
    assert(double_escaped(seq![s[0]]) =~= double_escaped(Seq::<u8>::empty()) + double_escape(s[0]));
    assert(double_escaped(seq![s[0]]) =~= double_escape(s[0]));
}

proof fn lemma_single_escaped_front(s: Seq<u8>)
    requires
        s.len() > 0,
    ensures
        single_escaped(s) == single_escape(s[0]) + single_escaped(s.drop_first()),
{
    lemma_single_escaped_append(seq![s[0]], s.drop_first());
    assert(seq![s[0]] + s.drop_first() =~= s);
    assert(seq![s[0]].drop_last() =~= Seq::<u8>::empty());
    assert(seq![s[0]].last() == s[0]);
    assert(single_escaped(Seq::<u8>::empty()) =~= Seq::<u8>::empty());
    assert(single_escaped(seq![s[0]]) =~= single_escaped(Seq::<u8>::empty()) + single_escape(s[0]));
    assert(single_escaped(seq![s[0]]) =~= single_escape(s[0]));
}

/// Bytes with no single quote are written unchanged in single quotes.
proof fn lemma_single_escaped_plain(s: Seq<u8>)
    requires
        !s.contains(0x27u8),
    ensures
        single_escaped(s) == s,
    decreases s.len(),
{
    if s.len() > 0 {
        assert(!s.drop_last().contains(0x27u8)) by {
            if s.drop_last().contains(0x27u8) {
                let j = choose|j: int| 0 <= j < s.drop_last().len() && s.drop_last()[j] == 0x27u8;
                assert(s[j] == 0x27u8);
            }
        }
        lemma_single_escaped_plain(s.drop_last());
        assert(s.last() != 0x27u8) by {
            assert(s[s.len() - 1] == s.last());
        }
        assert(s.drop_last().push(s.last()) =~= s);
    }
}

/// Reading back double-escaped bytes up to the closing double quote.
proof fn lemma_dq_escaped(v: Seq<u8>, p: int, x: Seq<u8>, space: bool, spaces: int, res: Seq<u8>)
    requires
        0 <= p,
        v.len() == p + double_escaped(x).len() + 1,
        v.subrange(p, v.len() - 1) == double_escaped(x),
        v[v.len() - 1] == 0x22,
    ensures
        dq_fold(v, p, space, false, spaces, res) == Some(Some(res + x)),
    decreases x.len(),
{
    if x.len() == 0 {
        assert(res + x =~= res);
    } else {
        lemma_double_escaped_front(x);
        let b = x[0];
        let e = double_escape(b);
        let rest = x.drop_first();
        assert(v.subrange(p, p + e.len()) =~= e) by {
            assert forall|j: int| 0 <= j < e.len() implies v[p + j] == e[j] by {
                assert(v.subrange(p, v.len() - 1)[j] == v[p + j]);
            }
        }
        assert(v.subrange(p + e.len(), v.len() - 1) =~= double_escaped(rest)) by {
            assert forall|j: int| 0 <= j < double_escaped(rest).len() implies v[p + e.len() + j] == double_escaped(rest)[j] by {
                assert(v.subrange(p, v.len() - 1)[e.len() + j] == v[p + e.len() + j]);
            }
        }
        assert(res.push(b) + rest =~= res + x);
        assert(v[p] == e[0]);
        if is_escaped_control(b) {
            assert(v[p + 1] == e[1]);
            lemma_dq_escaped(v, p + 2, rest, false, plain_spaces(space, false, spaces), res.push(b));
            assert(simple_escape(control_letter(b)) == Some(seq![b]));
            assert(res + seq![b] =~= res.push(b));
        } else if b == 0x22 || b == 0x5c {
            assert(v[p + 1] == e[1]);
            lemma_dq_escaped(v, p + 2, rest, false, plain_spaces(space, false, spaces), res.push(b));
            assert(res + seq![b] =~= res.push(b));
        } else if b == 0x20 {
            lemma_dq_escaped(v, p + 1, rest, true, spaces + 1, res.push(b));
        } else {
            lemma_dq_escaped(v, p + 1, rest, false, plain_spaces(space, false, spaces), res.push(b));
        }
    }
}

/// Reading back bytes with no control character, double quote or backslash
/// in double quotes, then double-escaped bytes.
proof fn lemma_dq_plain(v: Seq<u8>, p: int, a: Seq<u8>, x: Seq<u8>, space: bool, spaces: int, res: Seq<u8>)
    requires
        0 <= p,
        forall|j: int| 0 <= j < a.len() ==> !(is_escaped_control(#[trigger] a[j]) || a[j] == 0x22 || a[j] == 0x5c),
        v.len() == p + a.len() + double_escaped(x).len() + 1,
        v.subrange(p, v.len() - 1) == a + double_escaped(x),
        v[v.len() - 1] == 0x22,
    ensures
        dq_fold(v, p, space, false, spaces, res) == Some(Some(res + a + x)),
    decreases a.len(),
{
    if a.len() == 0 {
        assert(a + double_escaped(x) =~= double_escaped(x));
        lemma_dq_escaped(v, p, x, space, spaces, res);
        assert(res + a =~= res);
    } else {
        let b = a[0];
        assert(v[p] == b) by {
            assert(v.subrange(p, v.len() - 1)[0] == v[p]);
        }
        let rest = a.drop_first();
        assert(v.subrange(p + 1, v.len() - 1) =~= rest + double_escaped(x)) by {
            assert forall|j: int| 0 <= j < rest.len() + double_escaped(x).len() implies v[p + 1 + j] == (rest + double_escaped(x))[j] by {
                assert(v.subrange(p, v.len() - 1)[1 + j] == v[p + 1 + j]);
            }
        }
        assert forall|j: int| 0 <= j < rest.len() implies !(is_escaped_control(#[trigger] rest[j]) || rest[j] == 0x22 || rest[j] == 0x5c) by {
            assert(rest[j] == a[j + 1]);
        }
        assert(res.push(b) + rest =~= res + a);
        if b == 0x20 {
            lemma_dq_plain(v, p + 1, rest, x, true, spaces + 1, res.push(b));
        } else {
            lemma_dq_plain(v, p + 1, rest, x, false, plain_spaces(space, false, spaces), res.push(b));
        }
    }
}

/// Reading back single-escaped bytes with no control character up to the
/// closing single quote.
proof fn lemma_sq_escaped(v: Seq<u8>, p: int, x: Seq<u8>, space: bool, spaces: int, res: Seq<u8>)
    requires
        0 <= p,
        forall|j: int| 0 <= j < x.len() ==> !is_escaped_control(#[trigger] x[j]),
        v.len() == p + single_escaped(x).len() + 1,
        v.subrange(p, v.len() - 1) == single_escaped(x),
        v[v.len() - 1] == 0x27,
    ensures
        sq_fold(v, p, space, false, spaces, res) == Some(Some(res + x)),
    decreases x.len(),
{
    if x.len() == 0 {
        assert(res + x =~= res);
    } else {
        lemma_single_escaped_front(x);
        let b = x[0];
        let e = single_escape(b);
        let rest = x.drop_first();
        assert(v.subrange(p, p + e.len()) =~= e) by {
            assert forall|j: int| 0 <= j < e.len() implies v[p + j] == e[j] by {
                assert(v.subrange(p, v.len() - 1)[j] == v[p + j]);
            }
        }
        assert(v.subrange(p + e.len(), v.len() - 1) =~= single_escaped(rest)) by {
            assert forall|j: int| 0 <= j < single_escaped(rest).len() implies v[p + e.len() + j] == single_escaped(rest)[j] by {
                assert(v.subrange(p, v.len() - 1)[e.len() + j] == v[p + e.len() + j]);
            }
        }
        assert forall|j: int| 0 <= j < rest.len() implies !is_escaped_control(#[trigger] rest[j]) by {
            assert(rest[j] == x[j + 1]);
        }
        assert(res.push(b) + rest =~= res + x);
        assert(v[p] == e[0]);
        assert(!is_escaped_control(x[0]));
        if b == 0x27 {
            assert(v[p + 1] == e[1]);
            lemma_sq_escaped(v, p + 2, rest, space, spaces, res.push(b));
        } else if b == 0x20 {
            lemma_sq_escaped(v, p + 1, rest, true, spaces + 1, res.push(b));
        } else {
            lemma_sq_escaped(v, p + 1, rest, false, plain_spaces(space, false, spaces), res.push(b));
        }
    }
}

/// Whether a byte is text in a single-quoted value: neither a blank, a line
/// break nor a single quote.
pub open spec fn sq_text_byte(b: u8) -> bool {
    b != 0x20 && b != 0x09 && b != 0x0a && b != 0x0d && b != 0x27
}

/// Reading a run of text bytes appends them as they are.
proof fn lemma_sq_text_run(v: Seq<u8>, p: int, n: int, spaces: int, res: Seq<u8>)
    requires
        0 <= p,
        0 <= n,
        p + n <= v.len(),
        forall|k: int| p <= k < p + n ==> sq_text_byte(#[trigger] v[k]),
    ensures
        sq_fold(v, p, false, false, spaces, res) == sq_fold(v, p + n, false, false, spaces, res + v.subrange(p, p + n)),
    decreases n,
{
    if n == 0 {
        assert(res + v.subrange(p, p) =~= res);
    } else {
        assert(sq_text_byte(v[p]));
        lemma_sq_text_run(v, p + 1, n - 1, spaces, res.push(v[p]));
        assert(res.push(v[p]) + v.subrange(p + 1, p + n) =~= res + v.subrange(p, p + n));
    }
}

/// Blanks at the start of a line after a break are dropped.
proof fn lemma_sq_blanks_after_break(v: Seq<u8>, p: int, n: int, spaces: int, res: Seq<u8>)
    requires
        0 <= p,
        0 <= n,
        p + n <= v.len(),
        forall|k: int| p <= k < p + n ==> (#[trigger] v[k] == 0x20u8 || v[k] == 0x09u8),
    ensures
        sq_fold(v, p, false, true, spaces, res) == sq_fold(v, p + n, false, true, spaces, res),
    decreases n,
{
    if n > 0 {
        assert(v[p] == 0x20u8 || v[p] == 0x09u8);
        lemma_sq_blanks_after_break(v, p + 1, n - 1, spaces, res);
    }
}

/// In a single-quoted value, a line break between two runs of text folds
/// into one space, whatever blanks indent the second line, and two breaks
/// in a row give one line feed: `'x⏎  y'` reads as `x y`, `'x⏎⏎  y'` as
/// `x⏎y`.
pub proof fn law_single_quoted_line_folding(x: Seq<u8>, y: Seq<u8>, blanks: Seq<u8>, breaks: nat)
    requires
        x.len() > 0,
        y.len() > 0,
        1 <= breaks <= 2,
        forall|k: int| 0 <= k < x.len() ==> sq_text_byte(#[trigger] x[k]),
        forall|k: int| 0 <= k < y.len() ==> sq_text_byte(#[trigger] y[k]),
        forall|k: int| 0 <= k < blanks.len() ==> (#[trigger] blanks[k] == 0x20u8 || blanks[k] == 0x09u8),
    ensures
        str_decoded(seq![0x27u8] + x + Seq::new(breaks, |k: int| 0x0au8) + blanks + y + seq![0x27u8]) == Some(
            Some(x + (if breaks == 1 { seq![0x20u8] } else { seq![0x0au8] }) + y),
        ),
{
    let brs = Seq::new(breaks, |k: int| 0x0au8);
    let v = seq![0x27u8] + x + brs + blanks + y + seq![0x27u8];
    let nx = x.len() as int;
    let nb = breaks as int;
    let nl = blanks.len() as int;
    let ny = y.len() as int;
    assert(v.len() == 1 + nx + nb + nl + ny + 1);
    assert(v[0] == 0x27u8);
    assert forall|k: int| 1 <= k < 1 + nx implies sq_text_byte(#[trigger] v[k]) by {
        assert(v[k] == x[k - 1]);
    }
    lemma_sq_text_run(v, 1, nx, 0, Seq::empty());
    assert(v.subrange(1, 1 + nx) =~= x);
    assert(Seq::<u8>::empty() + x =~= x);
    let p = 1 + nx;
    assert(v[p] == 0x0au8);
    assert(break_end(v, p) == p + 1);
    // The first break: the text so far gains a space.
    assert(fold_break(x, 0, false) == Some((x.push(0x20u8), 1int)));
    assert(sq_fold(v, p, false, false, 0, x) == sq_fold(v, p + 1, false, true, 1, x.push(0x20u8)));
    let (r1, s1) = if breaks == 1 {
        (x.push(0x20u8), 1int)
    } else {
        assert(v[p + 1] == 0x0au8);
        assert(break_end(v, p + 1) == p + 2);
        assert(x.push(0x20u8).take(x.len() as int) =~= x);
        assert(fold_break(x.push(0x20u8), 1, true) == Some((x.push(0x0au8), 0int)));
        assert(sq_fold(v, p + 1, false, true, 1, x.push(0x20u8)) == sq_fold(v, p + 2, false, true, 0, x.push(0x0au8)));
        (x.push(0x0au8), 0int)
    };
    let q = p + nb;
    assert(sq_fold(v, p, false, false, 0, x) == sq_fold(v, q, false, true, s1, r1));
    assert forall|k: int| q <= k < q + nl implies (#[trigger] v[k] == 0x20u8 || v[k] == 0x09u8) by {
        assert(v[k] == blanks[k - q]);
    }
    lemma_sq_blanks_after_break(v, q, nl, s1, r1);
    let t = q + nl;
    assert(v[t] == y[0]);
    assert(sq_text_byte(y[0]));
    assert(sq_fold(v, t, false, true, s1, r1) == sq_fold(v, t + 1, false, false, 0, r1.push(y[0])));
    assert forall|k: int| t + 1 <= k < t + ny implies sq_text_byte(#[trigger] v[k]) by {
        assert(v[k] == y[k - t]);
    }
    lemma_sq_text_run(v, t + 1, ny - 1, 0, r1.push(y[0]));
    let e = t + ny;
    assert(v[e] == 0x27u8);
    assert(spec_byte_at(v, e + 1) == None::<u8>);
    assert(r1.push(y[0]) + v.subrange(t + 1, e) =~= x + (if breaks == 1 { seq![0x20u8] } else { seq![0x0au8] }) + y);
}

/// What a string is written as reads back as the string, wherever
/// `str_reads_back` holds: double quotes by choice always give the string
/// back, and so do single quotes where no control character calls for
/// double ones.
pub proof fn law_str_roundtrip(s: Seq<u8>, force: bool, prefer_double: bool)
    requires
        str_reads_back(s, force, prefer_double),
    ensures
        ({
            let (q, b) = str_quoting(s, force, prefer_double);
            str_decoded(quoted_text(q, b)) == Some(Some(s))
        }),
{
    let (q, b) = str_quoting(s, force, prefer_double);
    let v = quoted_text(q, b);
    let c = first_control(s, 0);
    let k = first_double_special(s, 0);
    lemma_first_control_facts(s, 0);
    lemma_first_double_special_facts(s, 0);
    if q == 2 {
        assert(v.subrange(1, v.len() - 1) =~= b);
        assert(v[0] == 0x22);
        if force && prefer_double {
            lemma_dq_escaped(v, 1, s, false, 0, Seq::empty());
        } else {
            let (a, x) = if force { (s.take(k), s.skip(k)) } else { (s.take(c), s.skip(c)) };
            if force {
                assert(!s.take(k).contains(0x27u8));
                lemma_single_escaped_plain(s.take(k));
            } else {
                assert(k == c);
            }
            assert(b =~= a + double_escaped(x));
            assert forall|j: int| 0 <= j < a.len() implies !(is_escaped_control(#[trigger] a[j]) || a[j] == 0x22 || a[j] == 0x5c) by {
                assert(a[j] == s[j]);
            }
            lemma_dq_plain(v, 1, a, x, false, 0, Seq::empty());
            assert(Seq::<u8>::empty() + a + x =~= s);
        }
    } else if q == 1 {
        assert(v.subrange(1, v.len() - 1) =~= b);
        assert(v[0] == 0x27);
        lemma_sq_escaped(v, 1, s, false, 0, Seq::empty());
        assert(Seq::<u8>::empty() + s =~= s);
    }
}

} // verus!
