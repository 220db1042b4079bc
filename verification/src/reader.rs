//! What reading YAML text gives: identifiers of blocks, nodes and their
//! kinds, and the contexts that reading goes through.
use vstd::prelude::*;

verus! {

#[verifier::external_type_specification]
#[verifier::external_body]
pub struct ExMarker(skimmer::Marker);

/// A failure to read: where it happened and what it is.
#[derive(Debug)]
pub struct ReadError {
    pub position: usize,
    pub description: String,
}

impl ReadError {
    /// A failure with a description, at the start.
    pub fn new(description: String) -> (r: ReadError)
        ensures
            r.position == 0,
            r.description == description,
    {
        ReadError { description: description, position: 0 }
    }

    /// The failure, at `pos`.
    pub fn pos(self, pos: usize) -> (r: ReadError)
        ensures
            r.position == pos,
            r.description == self.description,
    {
        let mut r = self;
        r.position = pos;
        r
    }

    /// What the failure is.
    pub fn description(&self) -> (r: &str)
        ensures
            r@ == self.description@,
    {
        self.description.as_str()
    }
}

/// Where a block stands: its level, its parent and its index.
#[derive(Clone, Copy, Debug, PartialEq, Eq, Structural)]
pub struct Id {
    pub level: usize,
    pub parent: usize,
    pub index: usize,
}

/// A node: its anchor and tag, where it has them, and what it holds.
#[derive(Debug)]
pub struct Node {
    pub anchor: Option<skimmer::Marker>,
    pub tag: Option<skimmer::Marker>,
    pub content: NodeKind,
}

/// What a node holds.
#[derive(Debug)]
pub enum NodeKind {
    LiteralBlockOpen,
    LiteralBlockClose,
    Mapping,
    Null,
    Scalar(skimmer::Marker),
    Sequence,
}

/// The kind of a context that reading goes through.
#[derive(Clone, Copy, Debug, PartialEq, Eq, Structural)]
pub enum ContextKind {
    Zero,
    Layer,
    Node,
    MappingBlock,
    MappingFlow,
    ScalarBlock,
    SequenceBlock,
    SequenceFlow,
}

/// A context of reading: its parent, its kind, its layer (one more than
/// its parent's, the zero context aside), its level and its indentation.
pub struct Context<'a> {
    parent: Option<&'a Context<'a>>,
    layer: usize,
    kind: ContextKind,
    level: usize,
    indent: usize,
}

impl<'a> Context<'a> {
    pub closed spec fn spec_parent(&self) -> Option<&'a Context<'a>> {
        self.parent
    }

    pub closed spec fn spec_layer(&self) -> usize {
        self.layer
    }

    pub closed spec fn spec_kind(&self) -> ContextKind {
        self.kind
    }

    pub closed spec fn spec_level(&self) -> usize {
        self.level
    }

    pub closed spec fn spec_indent(&self) -> usize {
        self.indent
    }

    /// The context that reading starts in.
    pub fn zero() -> (r: Context<'a>)
        ensures
            r.spec_parent() is None,
            r.spec_kind() == ContextKind::Zero,
            r.spec_layer() == 0,
            r.spec_level() == 0,
            r.spec_indent() == 0,
    {
        Context { parent: None, kind: ContextKind::Zero, layer: 0, level: 0, indent: 0 }
    }

    /// A context within `parent`: on the first layer under the zero
    /// context, one layer below its parent otherwise.
    pub fn new(parent: &'a Context<'a>, kind: ContextKind, indent: usize, level: usize) -> (r: Context<'a>)
        requires
            parent.spec_kind() != ContextKind::Zero ==> parent.spec_layer() < usize::MAX,
        ensures
            r.spec_parent() == Some(parent),
            r.spec_kind() == kind,
            r.spec_layer() == (if parent.spec_kind() == ContextKind::Zero { 0 } else { parent.spec_layer() + 1 }),
            r.spec_level() == level,
            r.spec_indent() == indent,
    {
        let layer = match parent.kind {
            ContextKind::Zero => 0,
            _ => parent.layer + 1,
        };
        Context { kind, layer, level, indent, parent: Some(parent) }
    }
}

} // verus!
