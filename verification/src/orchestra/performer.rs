//! What a performer hands back to the conductor.
use vstd::prelude::*;
use vstd::string::StringSliceAdditionalSpecFns;

use crate::model::bignum::{nat_decimal, u64_decimal};
use crate::model::bytes::{push_slice, string_bytes};
use crate::model::renderer::{EncodedString, Node};
use crate::model::schema::{model_of_tag_from, Core, CoreModel};
use crate::model::yaml::binary::Binary;
use crate::model::yaml::bool::Bool;
use crate::model::yaml::float::Float;
use crate::model::yaml::integer::Int;
use crate::model::yaml::map::{block_indent_fit, map_rope, pairs_indent_fit, Mapping};
use crate::model::yaml::merge::Merge;
use crate::model::yaml::null::Null;
use crate::model::yaml::omap::Omap;
use crate::model::yaml::sequence::{items_bytes_fit, items_indent_fit, prefix_text_fits, rope_views, seq_rope, Sequence};
use crate::model::yaml::str::Str;
use crate::model::yaml::timestamp::Timestamp;
use crate::model::yaml::value::Value;
use crate::model::yaml::yaml::Yaml;
use crate::model::yamlette::incognitum::Incognitum;
use crate::model::yamlette::literal::Literal;
use crate::model::{Model, Renderer, Rope, Tagged, TaggedValue};
use crate::orchestra::conductor::{Coord, VolumeStyle};

verus! {

/// A performer's answer: a collection's value to be played once its items
/// are (legato), a value played into a rope (note), a collection played
/// with its items (chord), each with the length of its bytes at the top
/// level; or the end of a rendering.
#[derive(Debug)]
pub enum Play {
    Legato(Coord, TaggedValue),
    Note(Coord, Rope, usize),
    Chord(Coord, Rope, usize),
    Rendered,
}

impl Play {
    /// Where the played value stands.
    pub fn get_coord(&self) -> (r: &Coord)
        requires
            !(self is Rendered),
        ensures
            match *self {
                Play::Legato(c, _) => *r == c,
                Play::Note(c, _, _) => *r == c,
                Play::Chord(c, _, _) => *r == c,
                Play::Rendered => false,
            },
    {
        match self {
            Play::Legato(c, _) => c,
            Play::Note(c, _, _) => c,
            Play::Chord(c, _, _) => c,
            Play::Rendered => {
                assert(false);
                unreached()
            },
        }
    }

    /// Where a collection's value stands, and the value.
    pub fn unpack_legato_coord_n_val(self) -> (r: (Coord, TaggedValue))
        requires
            self is Legato,
        ensures
            self == Play::Legato(r.0, r.1),
    {
        match self {
            Play::Legato(c, t) => (c, t),
            _ => {
                assert(false);
                unreached()
            },
        }
    }

    /// The rope that a value was played into.
    pub fn unpack_rope(self) -> (r: Rope)
        requires
            self is Note || self is Chord,
        ensures
            r == play_rope(self),
    {
        match self {
            Play::Note(_, r, _) => r,
            Play::Chord(_, r, _) => r,
            _ => {
                assert(false);
                unreached()
            },
        }
    }

    /// The rope that a value was played into.
    pub fn get_rope(&self) -> (r: &Rope)
        requires
            self is Note || self is Chord,
        ensures
            *r == play_rope(*self),
    {
        match self {
            Play::Note(_, r, _) => r,
            Play::Chord(_, r, _) => r,
            _ => {
                assert(false);
                unreached()
            },
        }
    }

    /// The length of the bytes played at the top level; none for a legato.
    pub fn bytes_len(&self) -> (r: usize)
        ensures
            r == play_bytes_len(*self),
    {
        match self {
            Play::Note(_, _, l) => *l,
            Play::Chord(_, _, l) => *l,
            _ => 0,
        }
    }
}

/// The rope of a note or a chord.
pub open spec fn play_rope(p: Play) -> Rope {
    match p {
        Play::Note(_, r, _) => r,
        Play::Chord(_, r, _) => r,
        _ => Rope::Empty,
    }
}

/// The length of the bytes of a note or a chord; none for the others.
pub open spec fn play_bytes_len(p: Play) -> usize {
    match p {
        Play::Note(_, _, l) => l,
        Play::Chord(_, _, l) => l,
        _ => 0,
    }
}

/// The `%YAML` directive of a version.
pub open spec fn yaml_directive(maj: u8, min: u8) -> Seq<u8> {
    seq![0x25u8, 0x59, 0x41, 0x4d, 0x4c, 0x20] + nat_decimal(maj as nat) + seq![0x2eu8] + nat_decimal(min as nat)
}

/// The `%TAG` directive of a shortcut and its handle.
pub open spec fn tag_directive(shortcut: String, handle: String) -> Seq<u8> {
    seq![0x25u8, 0x54, 0x41, 0x47, 0x20] + string_bytes(shortcut) + seq![0x20u8] + string_bytes(handle)
}

/// Whether a node writes `b` on a line of its own.
pub open spec fn is_line(n: Node, b: Seq<u8>) -> bool {
    n matches Node::StringNewline(s) && s@ == b
}

/// Whether `nodes` write a volume's directive or border: the `%YAML`
/// directive of the version on a line of its own; each `%TAG` directive on
/// a line of its own, or nothing without them; three hyphens, or three dots,
/// and a line end.
pub open spec fn writes_style(style: VolumeStyle, version: (u8, u8), tags: Option<Seq<(String, String)>>, nodes: Seq<Node>) -> bool {
    match style {
        VolumeStyle::Yaml => nodes.len() == 1 && is_line(nodes[0], yaml_directive(version.0, version.1)),
        VolumeStyle::Tags => match tags {
            Some(t) => nodes.len() == t.len() && forall|i: int|
                0 <= i < t.len() ==> is_line(#[trigger] nodes[i], tag_directive(t[i].0, t[i].1)),
            None => nodes.len() == 0,
        },
        VolumeStyle::TopBorder => nodes.len() == 1 && nodes[0] is TripleHyphenNewline,
        VolumeStyle::BotBorder => nodes.len() == 1 && nodes[0] is TripleDotNewline,
    }
}

/// The rope that a volume's directive or border is written as (see
/// `writes_style`).
pub fn style_rope(style: VolumeStyle, version: (u8, u8), tags: &Option<Vec<(String, String)>>) -> (r: Rope)
    ensures
        writes_style(
            style,
            version,
            match tags {
                Some(t) => Some(t@),
                None => None,
            },
            r@,
        ),
{
    match style {
        VolumeStyle::Yaml => {
            let mut text: Vec<u8> = Vec::new();
            text.push(0x25);
            text.push(0x59);
            text.push(0x41);
            text.push(0x4d);
            text.push(0x4c);
            text.push(0x20);
            let mut maj = u64_decimal(version.0 as u64);
            text.append(&mut maj);
            text.push(0x2e);
            let mut min = u64_decimal(version.1 as u64);
            text.append(&mut min);
            assert(text@ =~= yaml_directive(version.0, version.1));
            Rope::Node([Node::StringNewline(EncodedString::String(text))])
        },
        VolumeStyle::Tags => match tags {
            Some(t) => {
                let mut nodes: Vec<Node> = Vec::with_capacity(t.len());
                let mut i: usize = 0;
                while i < t.len()
                    invariant
                        i <= t@.len(),
                        nodes@.len() == i,
                        forall|k: int|
                            0 <= k < i ==> is_line(#[trigger] nodes@[k], tag_directive(t@[k].0, t@[k].1)),
                    decreases t@.len() - i,
                {
                    let mut text: Vec<u8> = Vec::new();
                    text.push(0x25);
                    text.push(0x54);
                    text.push(0x41);
                    text.push(0x47);
                    text.push(0x20);
                    push_slice(&mut text, t[i].0.as_str().as_bytes());
                    text.push(0x20);
                    push_slice(&mut text, t[i].1.as_str().as_bytes());
                    assert(text@ =~= tag_directive(t@[i as int].0, t@[i as int].1));
                    nodes.push(Node::StringNewline(EncodedString::String(text)));
                    i = i + 1;
                }
                Rope::Many(nodes)
            },
            None => Rope::Empty,
        },
        VolumeStyle::TopBorder => Rope::Node([Node::TripleHyphenNewline]),
        VolumeStyle::BotBorder => Rope::Node([Node::TripleDotNewline]),
    }
}

/// Whether a model of the schema writes its values as collections, whose
/// items are played first: mappings, sets, pairs, sequences and ordered maps.
pub open spec fn core_is_collection(m: CoreModel) -> bool {
    m is Mapping || m is Unordered || m is Pairs || m is Sequence || m is Omap
}

/// Whether a model of the schema writes its values by itself: every model
/// but the collections.
pub open spec fn core_is_encodable(m: CoreModel) -> bool {
    !core_is_collection(m)
}

/// What the model `m` makes of `value` (see each model's `encode`); a
/// collection's model hands the value back.
pub open spec fn model_encodes(
    m: CoreModel,
    renderer: &Renderer,
    value: TaggedValue,
    tags: &[(String, String)],
    r: Result<Rope, TaggedValue>,
) -> bool {
    match m {
        CoreModel::Null => call_ensures(Null::encode, (&Null, renderer, value, tags), r),
        CoreModel::Bool => call_ensures(Bool::encode, (&Bool, renderer, value, tags), r),
        CoreModel::Int => call_ensures(Int::encode, (&Int, renderer, value, tags), r),
        CoreModel::Float => call_ensures(Float::encode, (&Float, renderer, value, tags), r),
        CoreModel::Str => call_ensures(Str::encode, (&Str, renderer, value, tags), r),
        CoreModel::Merge => call_ensures(Merge::encode, (&Merge, renderer, value, tags), r),
        CoreModel::Value => call_ensures(Value::encode, (&Value, renderer, value, tags), r),
        CoreModel::Yaml => call_ensures(Yaml::encode, (&Yaml, renderer, value, tags), r),
        CoreModel::Timestamp => call_ensures(Timestamp::encode, (&Timestamp, renderer, value, tags), r),
        CoreModel::Binary => call_ensures(Binary::encode, (&Binary, renderer, value, tags), r),
        CoreModel::Literal => call_ensures(Literal::encode, (&Literal, renderer, value, tags), r),
        CoreModel::Incognitum => call_ensures(Incognitum::encode, (&Incognitum, renderer, value, tags), r),
        _ => r == Err::<Rope, TaggedValue>(value),
    }
}

/// Whether a model of the schema writes collections.
pub fn model_is_collection(m: CoreModel) -> (r: bool)
    ensures
        r == core_is_collection(m),
{
    match m {
        CoreModel::Mapping => Mapping.is_collection(),
        CoreModel::Sequence => Sequence.is_collection(),
        CoreModel::Omap => Omap.is_collection(),
        CoreModel::Unordered | CoreModel::Pairs => true,
        CoreModel::Null => Null.is_collection(),
        CoreModel::Bool => Bool.is_collection(),
        CoreModel::Int => Int.is_collection(),
        CoreModel::Float => Float.is_collection(),
        CoreModel::Str => Str.is_collection(),
        CoreModel::Merge => Merge.is_collection(),
        CoreModel::Value => Value.is_collection(),
        CoreModel::Yaml => Yaml.is_collection(),
        CoreModel::Timestamp => Timestamp.is_collection(),
        CoreModel::Binary => Binary.is_collection(),
        CoreModel::Literal => Literal.is_collection(),
        CoreModel::Incognitum => Incognitum.is_collection(),
    }
}

/// Whether a model of the schema writes its values by itself.
pub fn model_is_encodable(m: CoreModel) -> (r: bool)
    ensures
        r == core_is_encodable(m),
{
    match m {
        CoreModel::Mapping => Mapping.is_encodable(),
        CoreModel::Sequence => Sequence.is_encodable(),
        CoreModel::Omap => Omap.is_encodable(),
        CoreModel::Unordered | CoreModel::Pairs => false,
        CoreModel::Null => Null.is_encodable(),
        CoreModel::Bool => Bool.is_encodable(),
        CoreModel::Int => Int.is_encodable(),
        CoreModel::Float => Float.is_encodable(),
        CoreModel::Str => Str.is_encodable(),
        CoreModel::Merge => Merge.is_encodable(),
        CoreModel::Value => Value.is_encodable(),
        CoreModel::Yaml => Yaml.is_encodable(),
        CoreModel::Timestamp => Timestamp.is_encodable(),
        CoreModel::Binary => Binary.is_encodable(),
        CoreModel::Literal => Literal.is_encodable(),
        CoreModel::Incognitum => Incognitum.is_encodable(),
    }
}

/// Writes a value with a model of the schema (see `model_encodes`).
pub fn encode_with(model: CoreModel, renderer: &Renderer, value: TaggedValue, tags: &[(String, String)]) -> (r: Result<Rope, TaggedValue>)
    ensures
        model_encodes(model, renderer, value, tags, r),
{
    match model {
        CoreModel::Null => Null.encode(renderer, value, tags),
        CoreModel::Bool => Bool.encode(renderer, value, tags),
        CoreModel::Int => Int.encode(renderer, value, tags),
        CoreModel::Float => Float.encode(renderer, value, tags),
        CoreModel::Str => Str.encode(renderer, value, tags),
        CoreModel::Merge => Merge.encode(renderer, value, tags),
        CoreModel::Value => Value.encode(renderer, value, tags),
        CoreModel::Yaml => Yaml.encode(renderer, value, tags),
        CoreModel::Timestamp => Timestamp.encode(renderer, value, tags),
        CoreModel::Binary => Binary.encode(renderer, value, tags),
        CoreModel::Literal => Literal.encode(renderer, value, tags),
        CoreModel::Incognitum => Incognitum.encode(renderer, value, tags),
        _ => Err(value),
    }
}

/// Why a value could not be played.
#[derive(Debug, PartialEq, Eq, Structural)]
pub enum PlayError {
    /// The schema knows no model by the value's tag.
    NoModel,
    /// The value's model does not write values by itself.
    NotEncodable,
    /// The value's model would not write it.
    Refused,
    /// The value's bytes at the top level are more than a `usize` counts.
    TooLong,
    /// The value's model does not write collections.
    NotCollection,
    /// The value's model writes collections that this schema cannot compose
    /// (sets, pairs and ordered maps), or the value is not of its kind.
    NoComposer,
}

/// What a performer plays for a value at `coord`: the schema's model of the
/// value's tag is looked up; a collection's value waits for its items
/// (legato); another is written by its model into a note, with the length
/// of its bytes at the top level (nought below it).
pub fn play_note(
    schema: &Core,
    renderer: &Renderer,
    coord: Coord,
    value: TaggedValue,
    tags: &[(String, String)],
) -> (r: Result<Play, PlayError>)
    ensures
        match model_of_tag_from(value.spec_tag().spec_bytes(), 0) {
            None => r == Err::<Play, PlayError>(PlayError::NoModel),
            Some(m) => if core_is_collection(m) {
                r == Ok::<Play, PlayError>(Play::Legato(coord, value))
            } else if !core_is_encodable(m) {
                r == Err::<Play, PlayError>(PlayError::NotEncodable)
            } else {
                match r {
                    Ok(Play::Note(c, rope, len)) => {
                        &&& c == coord
                        &&& model_encodes(m, renderer, value, tags, Ok(rope))
                        &&& len == (if coord.lvl == 0 { rope.spec_bytes().len() } else { 0 })
                    },
                    Err(PlayError::Refused) => exists|v: TaggedValue| model_encodes(m, renderer, value, tags, Err(v)),
                    Err(PlayError::TooLong) => coord.lvl == 0 && exists|rope: Rope|
                        model_encodes(m, renderer, value, tags, Ok(rope)) && rope.spec_bytes().len() > usize::MAX,
                    _ => false,
                }
            },
        },
{
    let model = match schema.look_up_model(value.get_tag()) {
        Some(m) => m,
        None => {
            return Err(PlayError::NoModel);
        },
    };
    if model_is_collection(model) {
        return Ok(Play::Legato(coord, value));
    }
    if !model_is_encodable(model) {
        return Err(PlayError::NotEncodable);
    }
    match encode_with(model, renderer, value, tags) {
        Ok(rope) => {
            if coord.lvl == 0 {
                match rope.checked_bytes_len(renderer) {
                    Some(len) => Ok(Play::Note(coord, rope, len)),
                    None => Err(PlayError::TooLong),
                }
            } else {
                Ok(Play::Note(coord, rope, 0))
            }
        },
        Err(_) => Err(PlayError::Refused),
    }
}

/// What a performer plays for a volume's directive or border at `coord`:
/// its rope (see `style_rope`) in a note, with the length of its bytes.
pub fn play_style(
    schema: &Core,
    renderer: &Renderer,
    coord: Coord,
    style: VolumeStyle,
    tags: &Option<Vec<(String, String)>>,
) -> (r: Result<Play, PlayError>)
    ensures
        match r {
            Ok(Play::Note(c, rope, len)) => {
                &&& c == coord
                &&& writes_style(style, (1u8, 2u8), match *tags {
                    Some(t) => Some(t@),
                    None => None,
                }, rope@)
                &&& len == rope.spec_bytes().len()
            },
            Err(PlayError::TooLong) => exists|rope: Rope|
                writes_style(style, (1u8, 2u8), match *tags {
                    Some(t) => Some(t@),
                    None => None,
                }, rope@) && rope.spec_bytes().len() > usize::MAX,
            _ => false,
        },
{
    let rope = style_rope(style, schema.get_yaml_version(), tags);
    match rope.checked_bytes_len(renderer) {
        Some(len) => Ok(Play::Note(coord, rope, len)),
        None => Err(PlayError::TooLong),
    }
}

/// What writing a mapping with the items `children` asks: that their
/// indented lines and bytes are counted in a `usize` (see `map::compose`).
pub open spec fn mapping_composable(value: TaggedValue, tags: &[(String, String)], children: Seq<Rope>) -> bool {
    let styles = value->Mapping_0.spec_styles();
    let indent = styles.spec_indent() as usize;
    let cs = rope_views(children);
    &&& styles.spec_flow() ==> pairs_indent_fit(cs, indent, !styles.spec_multiline())
    &&& !styles.spec_flow() ==> block_indent_fit(cs, indent)
    &&& styles.spec_flow() && !styles.spec_multiline() && styles.spec_respect_threshold() ==> items_bytes_fit(cs, indent)
        && prefix_text_fits(Mapping.spec_tag().spec_bytes(), tags@, styles.spec_issue_tag(), value->Mapping_0.spec_alias())
}

/// What writing a sequence with the items `children` asks (see
/// `sequence::compose`).
pub open spec fn sequence_composable(value: TaggedValue, tags: &[(String, String)], children: Seq<Rope>) -> bool {
    let styles = value->Sequence_0.spec_styles();
    let indent = styles.spec_indent() as usize;
    let cs = rope_views(children);
    &&& items_indent_fit(cs, indent)
    &&& styles.spec_flow() && !styles.spec_multiline() && styles.spec_respect_threshold() ==> items_bytes_fit(cs, indent)
        && prefix_text_fits(Sequence.spec_tag().spec_bytes(), tags@, styles.spec_issue_tag(), value->Sequence_0.spec_alias())
}

/// Whether `rope` writes the collection `value` of the model `m` with the
/// items `children`: a mapping as `map_rope`, a sequence as `seq_rope`.
pub open spec fn composes(m: CoreModel, value: TaggedValue, tags: &[(String, String)], children: Seq<Rope>, rope: Rope) -> bool {
    if m is Mapping {
        map_rope(
            rope@,
            Mapping.spec_tag().spec_bytes(),
            tags@,
            value->Mapping_0.spec_styles(),
            value->Mapping_0.spec_alias(),
            rope_views(children),
        )
    } else {
        seq_rope(
            rope@,
            Sequence.spec_tag().spec_bytes(),
            tags@,
            value->Sequence_0.spec_styles(),
            value->Sequence_0.spec_alias(),
            rope_views(children),
        )
    }
}

/// What a performer plays for a collection at `coord` whose items were
/// played into `children`: the schema's model of the value's tag writes it
/// with them into a chord, with the length of its bytes at the top level
/// (nought below it).
pub fn play_chord(
    schema: &Core,
    renderer: &Renderer,
    coord: Coord,
    value: TaggedValue,
    tags: &[(String, String)],
    children: Vec<Rope>,
) -> (r: Result<Play, PlayError>)
    requires
        value is Mapping ==> mapping_composable(value, tags, children@),
        value is Sequence ==> sequence_composable(value, tags, children@),
    ensures
        match model_of_tag_from(value.spec_tag().spec_bytes(), 0) {
            None => r == Err::<Play, PlayError>(PlayError::NoModel),
            Some(m) => if !core_is_collection(m) {
                r == Err::<Play, PlayError>(PlayError::NotCollection)
            } else if (m is Mapping && value is Mapping) || (m is Sequence && value is Sequence) {
                match r {
                    Ok(Play::Chord(c, rope, len)) => {
                        &&& c == coord
                        &&& composes(m, value, tags, children@, rope)
                        &&& len == (if coord.lvl == 0 { rope.spec_bytes().len() } else { 0 })
                    },
                    Err(PlayError::TooLong) => coord.lvl == 0 && exists|rope: Rope|
                        composes(m, value, tags, children@, rope) && rope.spec_bytes().len() > usize::MAX,
                    _ => false,
                }
            } else {
                r == Err::<Play, PlayError>(PlayError::NoComposer)
            },
        },
{
    let model = match schema.look_up_model(value.get_tag()) {
        Some(m) => m,
        None => {
            return Err(PlayError::NoModel);
        },
    };
    if !model_is_collection(model) {
        return Err(PlayError::NotCollection);
    }
    let ghost kids = children@;
    let ghost val = value;
    let mut children = children;
    let rope = match (model, &value) {
        (CoreModel::Mapping, TaggedValue::Mapping(_)) => {
            let rope = crate::model::yaml::map::compose(&Mapping, renderer, value, tags, &mut children);
            assert(composes(model, val, tags, kids, rope));
            rope
        },
        (CoreModel::Sequence, TaggedValue::Sequence(_)) => {
            let rope = crate::model::yaml::sequence::compose(&Sequence, renderer, value, tags, &mut children);
            assert(composes(model, val, tags, kids, rope));
            rope
        },
        _ => {
            return Err(PlayError::NoComposer);
        },
    };
    assert(composes(model, val, tags, kids, rope));
    if coord.lvl == 0 {
        match rope.checked_bytes_len(renderer) {
            Some(len) => Ok(Play::Chord(coord, rope, len)),
            None => Err(PlayError::TooLong),
        }
    } else {
        Ok(Play::Chord(coord, rope, 0))
    }
}

} // verus!
