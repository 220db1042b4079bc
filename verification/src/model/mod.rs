//! The data model: values with a tag, the models that encode and decode them,
//! and what they render to.
pub mod bignum;
pub mod bytes;
pub mod renderer;
pub mod rope;
pub mod schema;
pub mod style;
pub mod tagged_value;
pub mod text;
pub mod yaml;
pub mod yamlette;

use vstd::prelude::*;
use vstd::string::StringSliceAdditionalSpecFns;

use crate::model::bytes::{contains_byte, push_slice, push_slice_from, starts_with_at, string_bytes, string_to_bytes};
pub use crate::model::renderer::{EncodedString, Node, Renderer};
pub use crate::model::rope::Rope;
pub use crate::model::style::CommonStyles;
pub use crate::model::tagged_value::TaggedValue;

verus! {

/// A value that knows its tag.
pub trait Tagged {
    spec fn spec_tag(&self) -> &'static str;

    fn get_tag(&self) -> (r: &'static str)
        ensures
            r == self.spec_tag(),
    ;
}

/// A model: what a tag stands for, and what can be done with its values.
pub trait Model {
    spec fn spec_tag(&self) -> &'static str;

    fn get_tag(&self) -> (r: &'static str)
        ensures
            r == self.spec_tag(),
    ;

    /// Whether its values are written as sequences.
    open spec fn spec_is_sequence(&self) -> bool {
        false
    }

    /// Whether its values are written as dictionaries.
    open spec fn spec_is_dictionary(&self) -> bool {
        false
    }

    /// Whether its values are collections: dictionaries or sequences.
    fn is_collection(&self) -> (r: bool)
        ensures
            r == (self.spec_is_dictionary() || self.spec_is_sequence()),
    {
        self.is_dictionary() || self.is_sequence()
    }

    fn is_sequence(&self) -> (r: bool)
        ensures
            r == self.spec_is_sequence(),
    ;

    fn is_dictionary(&self) -> (r: bool)
        ensures
            r == self.spec_is_dictionary(),
    ;

    /// Whether it is a model that stands for other models.
    open spec fn spec_is_metamodel(&self) -> bool {
        false
    }

    fn is_metamodel(&self) -> (r: bool)
        ensures
            r == self.spec_is_metamodel(),
    ;

    /// Whether its values can be read from text.
    open spec fn spec_is_decodable(&self) -> bool {
        false
    }

    fn is_decodable(&self) -> (r: bool)
        ensures
            r == self.spec_is_decodable(),
    ;

    /// Whether its values can be written out.
    open spec fn spec_is_encodable(&self) -> bool {
        false
    }

    fn is_encodable(&self) -> (r: bool)
        ensures
            r == self.spec_is_encodable(),
    ;

    /// Whether it has a default value.
    open spec fn spec_has_default(&self) -> bool {
        false
    }

    fn has_default(&self) -> (r: bool)
        ensures
            r == self.spec_has_default(),
    ;

}

/// Whether a handle can stand for a prefix of a tag: it is not empty and
/// holds no space.
pub open spec fn handle_usable(h: Seq<u8>) -> bool {
    h.len() > 0 && !h.contains(0x20u8)
}

/// The shorthand of a tag: the first usable handle that the tag starts with
/// is replaced by its shortcut.
pub open spec fn tag_shorthand(tag: Seq<u8>, tags: Seq<(String, String)>) -> Option<Seq<u8>>
    decreases tags.len(),
{
    if tags.len() == 0 {
        None
    } else {
        let h = string_bytes(tags[0].1);
        if handle_usable(h) && h.is_prefix_of(tag) {
            Some(string_bytes(tags[0].0) + tag.skip(h.len() as int))
        } else {
            tag_shorthand(tag, tags.drop_first())
        }
    }
}

/// The node that writes out `tag`: its shorthand, or the tag in full.
pub open spec fn is_tag_node(n: Node, tag: Seq<u8>, tags: Seq<(String, String)>) -> bool {
    match tag_shorthand(tag, tags) {
        Some(b) => n matches Node::String(s) && s@ == b,
        None => n matches Node::StringSpecificTag(s) && s@ == tag,
    }
}

/// The node that writes out an anchor.
pub open spec fn is_alias_node(n: Node, alias: String) -> bool {
    n matches Node::AmpersandString(s) && s@ == string_bytes(alias)
}

/// The nodes that precede the value's own node: the tag (when issued), then
/// the anchor (when there is one), each followed by a space.
pub open spec fn issued_prefix(
    rope: Seq<Node>,
    tag: Seq<u8>,
    tags: Seq<(String, String)>,
    issue_tag: bool,
    alias: Option<String>,
) -> bool {
    match alias {
        Some(a) => if issue_tag {
            &&& rope.len() == 5
            &&& is_tag_node(rope[0], tag, tags)
            &&& rope[1] == Node::Space
            &&& is_alias_node(rope[2], a)
            &&& rope[3] == Node::Space
        } else {
            &&& rope.len() == 3
            &&& is_alias_node(rope[0], a)
            &&& rope[1] == Node::Space
        },
        None => if issue_tag {
            &&& rope.len() == 3
            &&& is_tag_node(rope[0], tag, tags)
            &&& rope[1] == Node::Space
        } else {
            rope.len() == 1
        },
    }
}

/// The value's node, preceded by its tag and anchor as the styles ask.
pub fn model_issue_rope<M: Model>(
    model: &M,
    node: Node,
    issue_tag: bool,
    alias: Option<String>,
    tags: &[(String, String)],
) -> (r: Rope)
    ensures
        issued_prefix(r@, model.spec_tag().spec_bytes(), tags@, issue_tag, alias),
        r@.last() == node,
{
    match alias {
        Some(alias) => {
            if issue_tag {
                let mut v: Vec<Node> = Vec::with_capacity(5);
                v.push(model_tag(model, tags));
                v.push(Node::Space);
                v.push(model_alias(model, alias));
                v.push(Node::Space);
                v.push(node);
                Rope::Many(v)
            } else {
                let mut v: Vec<Node> = Vec::with_capacity(3);
                v.push(model_alias(model, alias));
                v.push(Node::Space);
                v.push(node);
                Rope::Many(v)
            }
        }
        None => {
            if issue_tag {
                let mut v: Vec<Node> = Vec::with_capacity(3);
                v.push(model_tag(model, tags));
                v.push(Node::Space);
                v.push(node);
                Rope::Many(v)
            } else {
                Rope::Node([node])
            }
        }
    }
}

/// The node that writes out an anchor.
pub fn model_alias<M: Model>(_model: &M, alias: String) -> (r: Node)
    ensures
        is_alias_node(r, alias),
{
    Node::AmpersandString(EncodedString::String(string_to_bytes(&alias)))
}

/// The node that writes out the model's tag, shortened by the first usable
/// handle that it starts with.
pub fn model_tag<M: Model>(model: &M, tags: &[(String, String)]) -> (r: Node)
    ensures
        is_tag_node(r, model.spec_tag().spec_bytes(), tags@),
{
    let tag = model.get_tag();
    tag_node(tag, tags)
}

/// The node that writes out `tag`, shortened by the first usable handle that
/// it starts with.
fn tag_node(tag: &'static str, tags: &[(String, String)]) -> (r: Node)
    ensures
        is_tag_node(r, tag.spec_bytes(), tags@),
{
    let t = tag.as_bytes();
    let mut i: usize = 0;
    assert(tags@.skip(0) =~= tags@);
    while i < tags.len()
        invariant
            i <= tags@.len(),
            t@ == tag.spec_bytes(),
            tag_shorthand(t@, tags@) == tag_shorthand(t@, tags@.skip(i as int)),
        decreases tags@.len() - i,
    {
        let ghost rest = tags@.skip(i as int);
        assert(rest[0] == tags@[i as int]);
        assert(rest.drop_first() =~= tags@.skip(i + 1));
        let shortcut = &tags[i].0;
        let handle = &tags[i].1;
        let h = handle.as_str().as_bytes();
        if h.len() == 0 || contains_byte(h, 0x20) {
            i = i + 1;
            continue;
        }
        if starts_with_at(t, 0, h) {
            assert(t@.skip(0) =~= t@);
            let mut string: Vec<u8> = Vec::new();
            push_slice(&mut string, shortcut.as_str().as_bytes());
            push_slice_from(&mut string, t, h.len());
            return Node::String(EncodedString::String(string));
        }
        assert(t@.skip(0) =~= t@);
        i = i + 1;
    }
    Node::StringSpecificTag(EncodedString::Static(t))
}

} // verus!
