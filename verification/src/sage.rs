//! What reading tells the book, one idea at a time.
use vstd::prelude::*;

use crate::model::TaggedValue;
use crate::reader::Id;

verus! {

/// An idea: a node that was read (with its anchor, where it has one), an
/// alias, a message, or the start or end of a volume or of the whole text.
#[derive(Debug)]
pub enum Idea {
    Alias(Id, String),
    Error(Id, String),
    NodeDictionary(Id, Option<String>, Option<String>, Option<Id>),
    NodeLiteral(Id, Option<String>, String),
    NodeMetaMap(Id, Option<String>, Option<String>, Option<Id>),
    NodeMetaSeq(Id, Option<String>, Option<String>),
    NodeScalar(Id, Option<String>, TaggedValue),
    NodeSequence(Id, Option<String>, String),
    ReadError(Id, usize, String),
    ReadWarning(Id, usize, String),
    Dawn,
    Dusk,
    Done,
}

/// The index of the block an idea is about; none (zero) for the start and
/// end of a volume and of the text.
pub open spec fn idea_index(idea: Idea) -> usize {
    match idea {
        Idea::Alias(id, _) => id.index,
        Idea::Error(id, _) => id.index,
        Idea::NodeDictionary(id, _, _, _) => id.index,
        Idea::NodeLiteral(id, _, _) => id.index,
        Idea::NodeMetaMap(id, _, _, _) => id.index,
        Idea::NodeMetaSeq(id, _, _) => id.index,
        Idea::NodeScalar(id, _, _) => id.index,
        Idea::NodeSequence(id, _, _) => id.index,
        Idea::ReadError(id, _, _) => id.index,
        Idea::ReadWarning(id, _, _) => id.index,
        _ => 0,
    }
}

/// The index of the block an idea is about (see `idea_index`).
pub fn index_of(idea: &Idea) -> (r: usize)
    ensures
        r == idea_index(*idea),
{
    match idea {
        Idea::Alias(id, _) => id.index,
        Idea::Error(id, _) => id.index,
        Idea::NodeDictionary(id, _, _, _) => id.index,
        Idea::NodeLiteral(id, _, _) => id.index,
        Idea::NodeMetaMap(id, _, _, _) => id.index,
        Idea::NodeMetaSeq(id, _, _) => id.index,
        Idea::NodeScalar(id, _, _) => id.index,
        Idea::NodeSequence(id, _, _) => id.index,
        Idea::ReadError(id, _, _) => id.index,
        Idea::ReadWarning(id, _, _) => id.index,
        _ => 0,
    }
}

} // verus!
