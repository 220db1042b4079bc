//! Output nodes and the renderer that turns them into bytes.
use vstd::prelude::*;

use crate::model::bytes::push_slice;

verus! {

/// A sequence of bytes that is already encoded for the output.
#[derive(Debug, Clone)]
pub enum EncodedString {
    Static(&'static [u8]),
    String(Vec<u8>),
}

impl View for EncodedString {
    type V = Seq<u8>;

    open spec fn view(&self) -> Seq<u8> {
        match self {
            EncodedString::Static(s) => s@,
            EncodedString::String(v) => v@,
        }
    }
}

impl EncodedString {
    /// Number of bytes held.
    pub fn len(&self) -> (r: usize)
        ensures
            r == self@.len(),
    {
        match self {
            EncodedString::Static(s) => s.len(),
            EncodedString::String(v) => v.len(),
        }
    }

    /// The bytes held, as a slice.
    pub fn as_bytes(&self) -> (r: &[u8])
        ensures
            r@ == self@,
    {
        match self {
            EncodedString::Static(s) => s,
            EncodedString::String(v) => v.as_slice(),
        }
    }
}


/// One piece of output.
#[derive(Debug)]
pub enum Node {
    Empty,

    StringSpecificTag(EncodedString),

    String(EncodedString),
    SingleQuotedString(EncodedString),
    DoubleQuotedString(EncodedString),

    StringConcat(EncodedString, EncodedString),

    StringNewline(EncodedString),

    AmpersandString(EncodedString),
    AsteriskString(EncodedString),

    Indent(usize),
    NewlineIndent(usize),
    CommaNewlineIndent(usize),
    IndentHyphenSpace(usize),
    NewlineIndentHyphenSpace(usize),

    Comma,
    Colon,
    Question,
    Hyphen,
    Dot,

    QuestionNewline,
    QuestionNewlineIndent(usize),
    IndentQuestionSpace(usize),
    NewlineIndentQuestionSpace(usize),

    Newline,

    SquareBrackets,
    SquareBracketOpen,
    SquareBracketClose,

    CurlyBrackets,
    CurlyBracketOpen,
    CurlyBracketClose,

    QuestionSpace,
    CommaSpace,
    ColonSpace,
    HyphenSpace,
    Space,

    ColonNewline,
    ColonNewlineIndent(usize),

    TripleHyphenNewline,
    TripleDotNewline,
}

pub open spec fn byte_times(b: u8, n: nat) -> Seq<u8> {
    Seq::new(n, |i: int| b)
}

pub open spec fn one(b: u8) -> Seq<u8> {
    seq![b]
}

pub open spec fn two(a: u8, b: u8) -> Seq<u8> {
    seq![a, b]
}

/// A plain string node with the bytes `b`.
pub open spec fn is_string_node(n: Node, b: Seq<u8>) -> bool {
    n matches Node::String(s) && s@ == b
}

/// The bytes that a node stands for in the output.
pub open spec fn node_bytes(node: Node) -> Seq<u8> {
    match node {
        Node::Empty => Seq::empty(),
        Node::Indent(size) => byte_times(0x20, size as nat),
        Node::NewlineIndent(size) => one(0x0a) + byte_times(0x20, size as nat),
        Node::CommaNewlineIndent(size) => two(0x2c, 0x0a) + byte_times(0x20, size as nat),
        Node::IndentHyphenSpace(size) => byte_times(0x20, size as nat) + two(0x2d, 0x20),
        Node::NewlineIndentHyphenSpace(size) => one(0x0a) + byte_times(0x20, size as nat) + two(0x2d, 0x20),
        Node::IndentQuestionSpace(size) => byte_times(0x20, size as nat) + two(0x3f, 0x20),
        Node::NewlineIndentQuestionSpace(size) => one(0x0a) + byte_times(0x20, size as nat) + two(0x3f, 0x20),
        Node::StringSpecificTag(s) => two(0x21, 0x3c) + s@ + one(0x3e),
        Node::StringConcat(a, b) => a@ + b@,
        Node::String(s) => s@,
        Node::StringNewline(s) => s@ + one(0x0a),
        Node::SingleQuotedString(s) => one(0x27) + s@ + one(0x27),
        Node::DoubleQuotedString(s) => one(0x22) + s@ + one(0x22),
        Node::AmpersandString(s) => one(0x26) + s@,
        Node::AsteriskString(s) => one(0x2a) + s@,
        Node::Comma => one(0x2c),
        Node::Colon => one(0x3a),
        Node::Space => one(0x20),
        Node::Question => one(0x3f),
        Node::Hyphen => one(0x2d),
        Node::Newline => one(0x0a),
        Node::SquareBracketOpen => one(0x5b),
        Node::SquareBracketClose => one(0x5d),
        Node::CurlyBracketOpen => one(0x7b),
        Node::CurlyBracketClose => one(0x7d),
        Node::Dot => one(0x2e),
        Node::QuestionSpace => two(0x3f, 0x20),
        Node::QuestionNewline => two(0x3f, 0x0a),
        Node::SquareBrackets => two(0x5b, 0x5d),
        Node::CommaSpace => two(0x2c, 0x20),
        Node::ColonSpace => two(0x3a, 0x20),
        Node::HyphenSpace => two(0x2d, 0x20),
        Node::ColonNewline => two(0x3a, 0x0a),
        Node::CurlyBrackets => two(0x7b, 0x7d),
        Node::QuestionNewlineIndent(size) => two(0x3f, 0x0a) + byte_times(0x20, size as nat),
        Node::ColonNewlineIndent(size) => two(0x3a, 0x0a) + byte_times(0x20, size as nat),
        Node::TripleHyphenNewline => byte_times(0x2d, 3) + one(0x0a),
        Node::TripleDotNewline => byte_times(0x2e, 3) + one(0x0a),
    }
}

/// The indentation that a node carries, if it is of a kind that has one.
pub open spec fn node_indent_of(node: Node) -> Option<usize> {
    match node {
        Node::Indent(size) => Some(size),
        Node::NewlineIndent(size) => Some(size),
        Node::CommaNewlineIndent(size) => Some(size),
        Node::IndentHyphenSpace(size) => Some(size),
        Node::NewlineIndentHyphenSpace(size) => Some(size),
        Node::IndentQuestionSpace(size) => Some(size),
        Node::NewlineIndentQuestionSpace(size) => Some(size),
        Node::QuestionNewlineIndent(size) => Some(size),
        Node::ColonNewlineIndent(size) => Some(size),
        _ => None,
    }
}

/// The node with its indentation (where it has one) replaced by `size`.
pub open spec fn node_with_indent(node: Node, size: usize) -> Node {
    match node {
        Node::Indent(_) => Node::Indent(size),
        Node::NewlineIndent(_) => Node::NewlineIndent(size),
        Node::CommaNewlineIndent(_) => Node::CommaNewlineIndent(size),
        Node::IndentHyphenSpace(_) => Node::IndentHyphenSpace(size),
        Node::NewlineIndentHyphenSpace(_) => Node::NewlineIndentHyphenSpace(size),
        Node::IndentQuestionSpace(_) => Node::IndentQuestionSpace(size),
        Node::NewlineIndentQuestionSpace(_) => Node::NewlineIndentQuestionSpace(size),
        Node::QuestionNewlineIndent(_) => Node::QuestionNewlineIndent(size),
        Node::ColonNewlineIndent(_) => Node::ColonNewlineIndent(size),
        _ => node,
    }
}

/// The node after its indentation (if any) grew by `len`.
pub open spec fn node_indented(node: Node, len: usize) -> Node {
    match node_indent_of(node) {
        Some(size) => node_with_indent(node, (size + len) as usize),
        None => node,
    }
}

pub open spec fn spec_is_newline(node: Node) -> bool {
    match node {
        Node::Newline | Node::ColonNewline | Node::ColonNewlineIndent(_) | Node::QuestionNewline
        | Node::QuestionNewlineIndent(_) | Node::TripleDotNewline | Node::StringNewline(_)
        | Node::TripleHyphenNewline | Node::NewlineIndent(_) | Node::CommaNewlineIndent(_)
        | Node::NewlineIndentHyphenSpace(_) | Node::NewlineIndentQuestionSpace(_) => true,
        _ => false,
    }
}

pub open spec fn spec_is_flow_opening(node: Node) -> bool {
    match node {
        Node::CurlyBrackets | Node::CurlyBracketOpen | Node::SquareBrackets
        | Node::SquareBracketOpen | Node::SingleQuotedString(_) | Node::DoubleQuotedString(_) => true,
        _ => false,
    }
}

pub open spec fn spec_is_flow_dict_opening(node: Node) -> bool {
    match node {
        Node::CurlyBrackets | Node::CurlyBracketOpen => true,
        _ => false,
    }
}

impl Node {
    /// Grows the indentation of the node by `len`, where the node has one.
    pub fn indent(&mut self, len: usize)
        requires
            node_indent_of(*old(self)) matches Some(size) ==> size + len <= usize::MAX,
        ensures
            *final(self) == node_indented(*old(self), len),
    {
        match self {
            Node::Indent(size) => { *size = *size + len; }
            Node::NewlineIndent(size) => { *size = *size + len; }
            Node::CommaNewlineIndent(size) => { *size = *size + len; }
            Node::IndentHyphenSpace(size) => { *size = *size + len; }
            Node::NewlineIndentHyphenSpace(size) => { *size = *size + len; }
            Node::IndentQuestionSpace(size) => { *size = *size + len; }
            Node::NewlineIndentQuestionSpace(size) => { *size = *size + len; }
            Node::QuestionNewlineIndent(size) => { *size = *size + len; }
            Node::ColonNewlineIndent(size) => { *size = *size + len; }
            _ => (),
        }
    }

    /// Whether the node ends a line.
    pub fn is_newline(&self) -> (r: bool)
        ensures
            r == spec_is_newline(*self),
    {
        match self {
            Node::Newline | Node::ColonNewline | Node::ColonNewlineIndent(_) | Node::QuestionNewline
            | Node::QuestionNewlineIndent(_) | Node::TripleDotNewline | Node::StringNewline(_)
            | Node::TripleHyphenNewline | Node::NewlineIndent(_) | Node::CommaNewlineIndent(_)
            | Node::NewlineIndentHyphenSpace(_) => true,
            Node::NewlineIndentQuestionSpace(_) => true,
            _ => false,
        }
    }

    /// Whether the node opens a flow collection or a quoted scalar.
    pub fn is_flow_opening(&self) -> (r: bool)
        ensures
            r == spec_is_flow_opening(*self),
    {
        match self {
            Node::CurlyBrackets | Node::CurlyBracketOpen | Node::SquareBrackets
            | Node::SquareBracketOpen | Node::SingleQuotedString(_) | Node::DoubleQuotedString(_) => true,
            _ => false,
        }
    }

    /// Whether the node opens a flow mapping.
    pub fn is_flow_dict_opening(&self) -> (r: bool)
        ensures
            r == spec_is_flow_dict_opening(*self),
    {
        match self {
            Node::CurlyBrackets | Node::CurlyBracketOpen => true,
            _ => false,
        }
    }
}

/// Appends `times` copies of `byte`.
fn push_times(vec: &mut Vec<u8>, byte: u8, times: usize)
    ensures
        final(vec)@ == old(vec)@ + byte_times(byte, times as nat),
{
    let mut i: usize = 0;
    while i < times
        invariant
            i <= times,
            vec@ == old(vec)@ + byte_times(byte, i as nat),
        decreases times - i,
    {
        vec.push(byte);
        i = i + 1;
        assert(vec@ =~= old(vec)@ + byte_times(byte, i as nat));
    }
}

/// Turns nodes into bytes.
#[derive(Copy, Clone)]
pub struct Renderer;

impl Renderer {
    /// Appends the bytes of `node` to `vec`.
    pub fn render_into_vec(&self, vec: &mut Vec<u8>, node: Node)
        ensures
            final(vec)@ == old(vec)@ + node_bytes(node),
    {
        let ghost start = vec@;
        match node {
            Node::Empty => {}
            Node::Indent(size) => { push_times(vec, 0x20, size); }
            Node::NewlineIndent(size) => {
                vec.push(0x0a);
                push_times(vec, 0x20, size);
            }
            Node::IndentHyphenSpace(size) => {
                push_times(vec, 0x20, size);
                vec.push(0x2d);
                vec.push(0x20);
            }
            Node::NewlineIndentHyphenSpace(size) => {
                vec.push(0x0a);
                push_times(vec, 0x20, size);
                vec.push(0x2d);
                vec.push(0x20);
            }
            Node::IndentQuestionSpace(size) => {
                push_times(vec, 0x20, size);
                vec.push(0x3f);
                vec.push(0x20);
            }
            Node::NewlineIndentQuestionSpace(size) => {
                vec.push(0x0a);
                push_times(vec, 0x20, size);
                vec.push(0x3f);
                vec.push(0x20);
            }
            Node::CommaNewlineIndent(size) => {
                vec.push(0x2c);
                vec.push(0x0a);
                push_times(vec, 0x20, size);
            }
            Node::CommaSpace => { vec.push(0x2c); vec.push(0x20); }
            Node::ColonSpace => { vec.push(0x3a); vec.push(0x20); }
            Node::QuestionNewline => { vec.push(0x3f); vec.push(0x0a); }
            Node::QuestionNewlineIndent(size) => {
                vec.push(0x3f);
                vec.push(0x0a);
                push_times(vec, 0x20, size);
            }
            Node::QuestionSpace => { vec.push(0x3f); vec.push(0x20); }
            Node::ColonNewline => { vec.push(0x3a); vec.push(0x0a); }
            Node::ColonNewlineIndent(size) => {
                vec.push(0x3a);
                vec.push(0x0a);
                push_times(vec, 0x20, size);
            }
            Node::HyphenSpace => { vec.push(0x2d); vec.push(0x20); }
            Node::SquareBrackets => { vec.push(0x5b); vec.push(0x5d); }
            Node::SquareBracketOpen => { vec.push(0x5b); }
            Node::SquareBracketClose => { vec.push(0x5d); }
            Node::CurlyBrackets => { vec.push(0x7b); vec.push(0x7d); }
            Node::CurlyBracketOpen => { vec.push(0x7b); }
            Node::CurlyBracketClose => { vec.push(0x7d); }
            Node::Hyphen => { vec.push(0x2d); }
            Node::Dot => { vec.push(0x2e); }
            Node::Question => { vec.push(0x3f); }
            Node::Comma => { vec.push(0x2c); }
            Node::Colon => { vec.push(0x3a); }
            Node::Space => { vec.push(0x20); }
            Node::Newline => { vec.push(0x0a); }
            Node::TripleHyphenNewline => {
                push_times(vec, 0x2d, 3);
                vec.push(0x0a);
            }
            Node::TripleDotNewline => {
                push_times(vec, 0x2e, 3);
                vec.push(0x0a);
            }
            Node::StringSpecificTag(s) => {
                vec.push(0x21);
                vec.push(0x3c);
                push_slice(vec, s.as_bytes());
                vec.push(0x3e);
            }
            Node::StringConcat(former, latter) => {
                push_slice(vec, former.as_bytes());
                push_slice(vec, latter.as_bytes());
            }
            Node::String(s) => { push_slice(vec, s.as_bytes()); }
            Node::StringNewline(s) => {
                push_slice(vec, s.as_bytes());
                vec.push(0x0a);
            }
            Node::SingleQuotedString(s) => {
                vec.push(0x27);
                push_slice(vec, s.as_bytes());
                vec.push(0x27);
            }
            Node::DoubleQuotedString(s) => {
                vec.push(0x22);
                push_slice(vec, s.as_bytes());
                vec.push(0x22);
            }
            Node::AmpersandString(s) => {
                vec.push(0x26);
                push_slice(vec, s.as_bytes());
            }
            Node::AsteriskString(s) => {
                vec.push(0x2a);
                push_slice(vec, s.as_bytes());
            }
        }
        assert(vec@ =~= start + node_bytes(node));
    }

    /// The number of bytes that `node` renders to.
    pub fn node_len(&self, node: &Node) -> (r: usize)
        requires
            node_bytes(*node).len() <= usize::MAX,
        ensures
            r == node_bytes(*node).len(),
    {
        match node {
            Node::Empty => 0,
            Node::Indent(size) => *size,
            Node::NewlineIndent(size) => 1 + *size,
            Node::CommaNewlineIndent(size) => 2 + *size,
            Node::IndentHyphenSpace(size) => 2 + *size,
            Node::NewlineIndentHyphenSpace(size) => 3 + *size,
            Node::IndentQuestionSpace(size) => 2 + *size,
            Node::NewlineIndentQuestionSpace(size) => 3 + *size,
            Node::StringSpecificTag(s) => s.len() + 3,
            Node::StringConcat(former, latter) => former.len() + latter.len(),
            Node::String(s) => s.len(),
            Node::StringNewline(s) => s.len() + 1,
            Node::SingleQuotedString(s) => s.len() + 2,
            Node::DoubleQuotedString(s) => s.len() + 2,
            Node::AmpersandString(s) => 1 + s.len(),
            Node::AsteriskString(s) => 1 + s.len(),
            Node::Comma | Node::Colon | Node::Space | Node::Question | Node::Hyphen | Node::Newline
            | Node::SquareBracketOpen | Node::SquareBracketClose | Node::CurlyBracketOpen
            | Node::CurlyBracketClose | Node::Dot => 1,
            Node::QuestionSpace | Node::QuestionNewline | Node::SquareBrackets | Node::CommaSpace
            | Node::ColonSpace | Node::HyphenSpace | Node::ColonNewline | Node::CurlyBrackets => 2,
            Node::QuestionNewlineIndent(size) => 2 + *size,
            Node::ColonNewlineIndent(size) => 2 + *size,
            Node::TripleHyphenNewline => 3 + 1,
            Node::TripleDotNewline => 3 + 1,
        }
    }
    /// The number of bytes that `node` renders to, where it fits in a
    /// `usize`.
    pub fn checked_node_len(&self, node: &Node) -> (r: Option<usize>)
        ensures
            match r {
                Some(n) => n == node_bytes(*node).len(),
                None => node_bytes(*node).len() > usize::MAX,
            },
    {
        match node {
            Node::Empty => Some(0),
            Node::Indent(size) => Some(*size),
            Node::String(s) => Some(s.len()),
            Node::NewlineIndent(size) => size.checked_add(1),
            Node::CommaNewlineIndent(size) => size.checked_add(2),
            Node::IndentHyphenSpace(size) => size.checked_add(2),
            Node::NewlineIndentHyphenSpace(size) => size.checked_add(3),
            Node::IndentQuestionSpace(size) => size.checked_add(2),
            Node::NewlineIndentQuestionSpace(size) => size.checked_add(3),
            Node::QuestionNewlineIndent(size) => size.checked_add(2),
            Node::ColonNewlineIndent(size) => size.checked_add(2),
            Node::StringSpecificTag(s) => s.len().checked_add(3),
            Node::StringConcat(former, latter) => former.len().checked_add(latter.len()),
            Node::StringNewline(s) => s.len().checked_add(1),
            Node::SingleQuotedString(s) => s.len().checked_add(2),
            Node::DoubleQuotedString(s) => s.len().checked_add(2),
            Node::AmpersandString(s) => s.len().checked_add(1),
            Node::AsteriskString(s) => s.len().checked_add(1),
            _ => Some(self.node_len(node)),
        }
    }
}

} // verus!
