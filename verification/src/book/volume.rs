//! A volume: the words of one document. Ideas may arrive in any order; they
//! are kept by the index of their block, and turned into words in the order
//! of those indices once the volume is complete.
use std::collections::HashMap;
use vstd::prelude::*;

use crate::book::word::{scalar_word, TagName, Word};
use crate::model::schema::MAP_TAG;
use crate::model::yaml::sequence;
use crate::sage::{idea_index, index_of, Idea};

verus! {

broadcast use vstd::std_specs::hash::group_hash_axioms;

/// The index of the last word before `i` whose anchor is `name`.
pub open spec fn anchored_before(g: Seq<(Option<String>, usize, Word)>, name: Seq<char>, i: int) -> Option<int>
    decreases i,
{
    if i <= 0 {
        None
    } else if g[i - 1].0 matches Some(a) && a@ == name {
        Some(i - 1)
    } else {
        anchored_before(g, name, i - 1)
    }
}

/// A mapping whose first key was read before it: the mapping's word, just
/// added, takes the key's place, and the key follows it one level deeper.
pub open spec fn firstborn_up(h: Seq<(Option<String>, usize, Word)>) -> Seq<(Option<String>, usize, Word)> {
    let l = h.len() as int;
    h.update(l - 2, h[l - 1]).drop_last().push((h[l - 2].0, (h[l - 2].1 + 1) as usize, h[l - 2].2))
}

/// The words after one more idea: each node adds its word at its level (a
/// scalar the word of its value, see `scalar_word`; a sequence or mapping
/// without a tag the default one); an alias adds a word that points at the
/// last word with that anchor, or an unbound alias; messages add errors and
/// warnings.
pub open spec fn process_spec(g: Seq<(Option<String>, usize, Word)>, idea: Idea) -> Seq<(Option<String>, usize, Word)> {
    match idea {
        Idea::Error(id, v) => g.push((None, id.level, Word::Error(v))),
        Idea::ReadError(id, _, s) => g.push((None, id.level, Word::Error(s))),
        Idea::ReadWarning(id, _, s) => g.push((None, id.level, Word::Wrn(s))),
        Idea::NodeLiteral(id, alias, v) => g.push((alias, id.level, Word::Str(v))),
        Idea::NodeScalar(id, alias, v) => g.push((alias, id.level, scalar_word(v))),
        Idea::NodeSequence(id, alias, tag) => g.push((alias, id.level, Word::Sequence(TagName::Owned(tag)))),
        Idea::NodeMetaSeq(id, alias, tag) => g.push(
            (
                alias,
                id.level,
                Word::Sequence(
                    match tag {
                        Some(t) => TagName::Owned(t),
                        None => TagName::Static(sequence::TAG),
                    },
                ),
            ),
        ),
        Idea::NodeDictionary(id, alias, _, firstborn) => {
            let h = g.push((alias, id.level, Word::Mapping(TagName::Static(MAP_TAG))));
            if firstborn is Some {
                firstborn_up(h)
            } else {
                h
            }
        },
        Idea::NodeMetaMap(id, alias, tag, firstborn) => {
            let h = g.push(
                (
                    alias,
                    id.level,
                    Word::Mapping(
                        match tag {
                            Some(t) => TagName::Owned(t),
                            None => TagName::Static(MAP_TAG),
                        },
                    ),
                ),
            );
            if firstborn is Some {
                firstborn_up(h)
            } else {
                h
            }
        },
        Idea::Alias(id, name) => match anchored_before(g, name@, g.len() as int) {
            Some(ix) => g.push((None, id.level, Word::Alias(ix as usize))),
            None => g.push((None, id.level, Word::UnboundAlias(name))),
        },
        _ => g,
    }
}

/// Whether an idea can be turned into a word: it is about a block, and a
/// mapping with a first key read before it comes after some word that is not
/// at the deepest level.
pub open spec fn process_ok(g: Seq<(Option<String>, usize, Word)>, idea: Idea) -> bool {
    match idea {
        Idea::Dawn => false,
        Idea::Dusk => false,
        Idea::Done => false,
        Idea::NodeDictionary(_, _, _, firstborn) => firstborn is Some ==> g.len() >= 1 && g.last().1 < usize::MAX,
        Idea::NodeMetaMap(_, _, _, firstborn) => firstborn is Some ==> g.len() >= 1 && g.last().1 < usize::MAX,
        _ => true,
    }
}

/// The words after the ideas of `m` from index `ix` on, in the order of their
/// indices.
pub open spec fn run(g: Seq<(Option<String>, usize, Word)>, m: Map<usize, Idea>, ix: int) -> Seq<(Option<String>, usize, Word)>
    decreases usize::MAX + 1 - ix,
{
    if ix < 0 || ix > usize::MAX {
        g
    } else if m.contains_key(ix as usize) {
        run(process_spec(g, m[ix as usize]), m, ix + 1)
    } else {
        run(g, m, ix + 1)
    }
}

/// Whether each of those ideas can be turned into a word in its turn.
pub open spec fn run_ok(g: Seq<(Option<String>, usize, Word)>, m: Map<usize, Idea>, ix: int) -> bool
    decreases usize::MAX + 1 - ix,
{
    if ix < 0 || ix > usize::MAX {
        true
    } else if m.contains_key(ix as usize) {
        process_ok(g, m[ix as usize]) && run_ok(process_spec(g, m[ix as usize]), m, ix + 1)
    } else {
        run_ok(g, m, ix + 1)
    }
}

/// Ideas at indices below `ix` play no part in the run from `ix`.
proof fn lemma_run_frame(g: Seq<(Option<String>, usize, Word)>, m1: Map<usize, Idea>, m2: Map<usize, Idea>, ix: int)
    requires
        0 <= ix,
        forall|k: usize| ix <= k ==> (m1.contains_key(k) <==> m2.contains_key(k)),
        forall|k: usize| ix <= k && m1.contains_key(k) ==> m1[k] == m2[k],
    ensures
        run(g, m1, ix) == run(g, m2, ix),
        run_ok(g, m1, ix) == run_ok(g, m2, ix),
    decreases usize::MAX + 1 - ix,
{
    if ix <= usize::MAX {
        if m1.contains_key(ix as usize) {
            lemma_run_frame(process_spec(g, m1[ix as usize]), m1, m2, ix + 1);
        } else {
            lemma_run_frame(g, m1, m2, ix + 1);
        }
    }
}

/// With no idea from `ix` on, the run changes nothing.
proof fn lemma_run_none(g: Seq<(Option<String>, usize, Word)>, m: Map<usize, Idea>, ix: int)
    requires
        0 <= ix,
        forall|k: usize| ix <= k ==> !m.contains_key(k),
    ensures
        run(g, m, ix) == g,
        run_ok(g, m, ix),
    decreases usize::MAX + 1 - ix,
{
    if ix <= usize::MAX {
        lemma_run_none(g, m, ix + 1);
    }
}

/// The word that a word stands for: an alias stands for the word it points
/// at, followed as far as it leads.
pub open spec fn unaliased(g: Seq<(Option<String>, usize, Word)>, idx: int) -> Word
    decreases idx,
{
    if 0 <= idx < g.len() {
        match g[idx].2 {
            Word::Alias(j) => if j < idx {
                unaliased(g, j as int)
            } else {
                g[idx].2
            },
            _ => g[idx].2,
        }
    } else {
        g[idx].2
    }
}

/// Whether every alias points at a word before it.
pub open spec fn aliases_backward(g: Seq<(Option<String>, usize, Word)>) -> bool {
    forall|i: int| 0 <= i < g.len() ==> (#[trigger] g[i].2 matches Word::Alias(j) ==> j < i)
}

proof fn lemma_anchored_before_bound(g: Seq<(Option<String>, usize, Word)>, name: Seq<char>, i: int)
    requires
        i <= g.len(),
    ensures
        anchored_before(g, name, i) matches Some(ix) ==> 0 <= ix < i,
    decreases i,
{
    if i > 0 {
        lemma_anchored_before_bound(g, name, i - 1);
    }
}

/// Turning one idea into words keeps every alias pointing backwards.
pub proof fn law_process_aliases_backward(g: Seq<(Option<String>, usize, Word)>, idea: Idea)
    requires
        aliases_backward(g),
        process_ok(g, idea),
    ensures
        aliases_backward(process_spec(g, idea)),
{
    lemma_anchored_before_bound(g, idea->Alias_1@, g.len() as int);
    let h = process_spec(g, idea);
    assert forall|i: int| 0 <= i < h.len() implies (#[trigger] h[i].2 matches Word::Alias(j) ==> j < i) by {
        if i < g.len() - 1 {
            assert(h[i] == g[i]);
        } else if i == g.len() - 1 {
            match idea {
                Idea::NodeDictionary(_, _, _, firstborn) => {
                    if firstborn is None {
                        assert(h[i] == g[i]);
                    }
                },
                Idea::NodeMetaMap(_, _, _, firstborn) => {
                    if firstborn is None {
                        assert(h[i] == g[i]);
                    }
                },
                _ => {
                    assert(h[i] == g[i]);
                },
            }
        }
    }
}

/// Completing a volume keeps every alias pointing backwards: the words that
/// `run` gives have that property when the words it starts from have it.
pub proof fn law_run_aliases_backward(g: Seq<(Option<String>, usize, Word)>, m: Map<usize, Idea>, ix: int)
    requires
        aliases_backward(g),
        run_ok(g, m, ix),
    ensures
        aliases_backward(run(g, m, ix)),
    decreases usize::MAX + 1 - ix,
{
    if 0 <= ix <= usize::MAX {
        if m.contains_key(ix as usize) {
            law_process_aliases_backward(g, m[ix as usize]);
            law_run_aliases_backward(process_spec(g, m[ix as usize]), m, ix + 1);
        } else {
            law_run_aliases_backward(g, m, ix + 1);
        }
    }
}

/// Following aliases ends on a word that is not an alias.
pub proof fn law_unaliased_not_alias(g: Seq<(Option<String>, usize, Word)>, idx: int)
    requires
        aliases_backward(g),
        0 <= idx < g.len(),
    ensures
        !(unaliased(g, idx) is Alias),
    decreases idx,
{
    match g[idx].2 {
        Word::Alias(j) => {
            assert(j < idx);
            law_unaliased_not_alias(g, j as int);
        },
        _ => {},
    }
}

/// The words of a document, and the ideas not yet turned into words.
pub struct Volume {
    pub complete: bool,
    pub gist: Vec<(Option<String>, usize, Word)>,
    buff: Option<HashMap<usize, Idea>>,
}

impl Volume {
    /// Whether the volume is complete.
    pub closed spec fn spec_complete(&self) -> bool {
        self.complete
    }

    /// The words so far.
    pub closed spec fn spec_gist(&self) -> Seq<(Option<String>, usize, Word)> {
        self.gist@
    }

    /// The ideas kept until the volume is complete.
    pub closed spec fn spec_buffered(&self) -> Option<Map<usize, Idea>> {
        match self.buff {
            Some(b) => Some(b@),
            None => None,
        }
    }

    /// A volume keeps ideas exactly while it is not complete, each by the
    /// index of its block, which is not zero.
    pub closed spec fn well_formed(&self) -> bool {
        &&& self.complete <==> self.spec_buffered() is None
        &&& self.spec_buffered() matches Some(m) ==> !m.contains_key(0)
    }

    /// An empty volume, not complete, that keeps no idea yet.
    pub fn new() -> (r: Volume)
        ensures
            r.well_formed(),
            !r.spec_complete(),
            r.spec_gist().len() == 0,
            r.spec_buffered() == Some(Map::<usize, Idea>::empty()),
    {
        Volume { complete: false, gist: Vec::with_capacity(0), buff: Some(HashMap::with_capacity(256)) }
    }

    /// Turns the kept ideas into words, in the order of their indices (see
    /// `run`), and marks the volume complete; a complete volume stays as it
    /// is.
    pub fn complete(&mut self)
        requires
            old(self).well_formed(),
            !old(self).spec_complete() ==> run_ok(old(self).spec_gist(), old(self).spec_buffered()->0, 1),
        ensures
            final(self).spec_complete(),
            final(self).well_formed(),
            final(self).spec_gist() == (if old(self).spec_complete() {
                old(self).spec_gist()
            } else {
                run(old(self).spec_gist(), old(self).spec_buffered()->0, 1)
            }),
    {
        if self.complete {
            return;
        }
        let mut buff = match self.buff.take() {
            Some(b) => b,
            None => {
                return;
            },
        };
        let ghost m0 = buff@;
        let ghost g0 = self.gist@;
        let mut ix: usize = 1;
        loop
            invariant_except_break
                1 <= ix,
                !self.complete,
                self.buff is None,
                forall|k: usize| (buff@.contains_key(k) <==> m0.contains_key(k) && ix <= k),
                forall|k: usize| buff@.contains_key(k) ==> buff@[k] == m0[k],
                run(self.gist@, m0, ix as int) == run(g0, m0, 1),
                run_ok(self.gist@, m0, ix as int),
            ensures
                !self.complete,
                self.buff is None,
                self.gist@ == run(g0, m0, 1),
            decreases usize::MAX - ix,
        {
            if buff.is_empty() {
                proof {
                    assert forall|k: usize| !buff@.contains_key(k) by {
                        if buff@.contains_key(k) {
                            assert(buff@.dom().contains(k));
                        }
                    }
                    lemma_run_none(self.gist@, buff@, ix as int);
                    lemma_run_frame(self.gist@, buff@, m0, ix as int);
                }
                break;
            }
            let ghost before = buff@;
            let ghost ix0 = ix;
            let ghost g = self.gist@;
            assert(forall|k: usize| (before.contains_key(k) <==> m0.contains_key(k) && ix0 <= k));
            let found = buff.remove(&ix);
            proof {
                assert(buff@ == before.remove(ix));
            }
            match found {
                Some(idea) => {
                    assert(m0.contains_key(ix));
                    self.process(idea);
                },
                None => {},
            }
            proof {
                assert(run(g, m0, ix0 as int) == run(self.gist@, m0, ix0 + 1));
                assert(run_ok(g, m0, ix0 as int) ==> run_ok(self.gist@, m0, ix0 + 1));
            }
            if ix == usize::MAX {
                proof {
                    assert(run(self.gist@, m0, usize::MAX + 1) == self.gist@);
                }
                break;
            }
            ix = ix + 1;
            proof {
                assert forall|k: usize| (buff@.contains_key(k) <==> m0.contains_key(k) && ix <= k) by {
                    assert(before.contains_key(k) <==> m0.contains_key(k) && ix0 <= k);
                    if k == ix0 {
                        assert(!buff@.contains_key(k));
                    } else {
                        assert(buff@.contains_key(k) == before.contains_key(k));
                    }
                }
            }
        }
        self.complete = true;
    }

    /// Turns one idea into words (see `process_spec`).
    fn process(&mut self, idea: Idea)
        requires
            process_ok(old(self).gist@, idea),
        ensures
            final(self).gist@ == process_spec(old(self).gist@, idea),
            final(self).complete == old(self).complete,
            final(self).spec_buffered() == old(self).spec_buffered(),
    {
        match idea {
            Idea::Error(id, value) => self.gist.push((None, id.level, Word::Error(value))),
            Idea::ReadError(id, _, string) => self.gist.push((None, id.level, Word::Error(string))),
            Idea::ReadWarning(id, _, string) => self.gist.push((None, id.level, Word::Wrn(string))),
            Idea::NodeLiteral(id, alias, value) => self.gist.push((alias, id.level, Word::Str(value))),
            Idea::NodeScalar(id, alias, value) => self.gist.push((alias, id.level, Word::extract_scalar(value))),
            Idea::NodeSequence(id, alias, tag) => self.gist.push((alias, id.level, Word::Sequence(TagName::Owned(tag)))),
            Idea::NodeMetaSeq(id, alias, tag) => {
                let name = match tag {
                    Some(t) => TagName::Owned(t),
                    None => TagName::Static(sequence::TAG),
                };
                self.gist.push((alias, id.level, Word::Sequence(name)));
            },
            Idea::NodeDictionary(id, alias, _, firstborn_id) => {
                self.gist.push((alias, id.level, Word::Mapping(TagName::Static(MAP_TAG))));
                if firstborn_id.is_some() {
                    self.firstborn_up();
                }
            },
            Idea::NodeMetaMap(id, alias, tag, firstborn_id) => {
                let name = match tag {
                    Some(t) => TagName::Owned(t),
                    None => TagName::Static(MAP_TAG),
                };
                self.gist.push((alias, id.level, Word::Mapping(name)));
                if firstborn_id.is_some() {
                    self.firstborn_up();
                }
            },
            Idea::Alias(id, value) => {
                let found = self.anchored(&value);
                match found {
                    Some(ix) => self.gist.push((None, id.level, Word::Alias(ix))),
                    None => self.gist.push((None, id.level, Word::UnboundAlias(value))),
                }
            },
            _ => {},
        }
    }

    /// Moves the word before the last after it, one level deeper (see
    /// `firstborn_up`).
    fn firstborn_up(&mut self)
        requires
            old(self).gist@.len() >= 2,
            old(self).gist@[old(self).gist@.len() - 2].1 < usize::MAX,
        ensures
            final(self).gist@ == firstborn_up(old(self).gist@),
            final(self).complete == old(self).complete,
            final(self).spec_buffered() == old(self).spec_buffered(),
    {
        let ln = self.gist.len();
        let mut firstborn = self.gist.swap_remove(ln - 2);
        firstborn.1 = firstborn.1 + 1;
        self.gist.push(firstborn);
    }

    /// The index of the last word whose anchor is `name`.
    fn anchored(&self, name: &String) -> (r: Option<usize>)
        ensures
            match anchored_before(self.gist@, name@, self.gist@.len() as int) {
                Some(ix) => r == Some(ix as usize),
                None => r is None,
            },
    {
        let mut i: usize = self.gist.len();
        while i > 0
            invariant
                i <= self.gist@.len(),
                anchored_before(self.gist@, name@, self.gist@.len() as int) == anchored_before(self.gist@, name@, i as int),
            decreases i,
        {
            match &self.gist[i - 1].0 {
                Some(a) => {
                    if *a == *name {
                        return Some(i - 1);
                    }
                },
                None => {},
            }
            i = i - 1;
        }
        None
    }

    /// Keeps an idea by the index of its block, until the volume is
    /// complete; an idea about no block, or one that comes after the volume
    /// is complete, is dropped.
    pub fn stamp(&mut self, idea: Idea)
        requires
            old(self).well_formed(),
        ensures
            final(self).well_formed(),
            final(self).spec_complete() == old(self).spec_complete(),
            final(self).spec_gist() == old(self).spec_gist(),
            final(self).spec_buffered() == (if old(self).spec_complete() || idea_index(idea) == 0 {
                old(self).spec_buffered()
            } else {
                Some(old(self).spec_buffered()->0.insert(idea_index(idea), idea))
            }),
    {
        if self.complete {
            return;
        }
        let ix = index_of(&idea);
        if ix > 0 {
            match &mut self.buff {
                Some(b) => {
                    b.insert(ix, idea);
                },
                None => {},
            }
        }
    }

    /// The words so far, to read from another module.
    pub(crate) fn words(&self) -> (r: &Vec<(Option<String>, usize, Word)>)
        ensures
            r@ == self.spec_gist(),
    {
        &self.gist
    }

    /// The word at `idx`, with aliases followed (see `unaliased`).
    pub fn unalias(&self, idx: usize) -> (r: &Word)
        requires
            idx < self.spec_gist().len(),
            aliases_backward(self.spec_gist()),
        ensures
            *r == unaliased(self.spec_gist(), idx as int),
        decreases idx,
    {
        let word = &self.gist[idx].2;
        match word {
            Word::Alias(j) => {
                assert(self.gist@[idx as int].2 matches Word::Alias(_));
                self.unalias(*j)
            },
            _ => word,
        }
    }
}

} // verus!
