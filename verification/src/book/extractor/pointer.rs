//! A pointer at a word of a volume.
use vstd::prelude::*;
use vstd::std_specs::cmp::PartialEqSpec;

use crate::book::extractor::traits::FromPointer;
use crate::book::volume::{aliases_backward, unaliased, Volume};
use crate::book::word::Word;

verus! {

/// The words of a volume: anchor, level and word.
pub type Gist = Seq<(Option<String>, usize, Word)>;

/// Where following aliases from `i` on leads: an alias leads on to the word
/// it points at, where that comes before it.
pub open spec fn unalias_pos(g: Gist, i: int) -> int
    decreases i,
{
    if 0 <= i < g.len() {
        match g[i].2 {
            Word::Alias(j) => if j < i {
                unalias_pos(g, j as int)
            } else {
                i
            },
            _ => i,
        }
    } else {
        i
    }
}

/// The first word from `i` on at `level`, where no word at a lower level
/// comes before it.
pub open spec fn next_at_level(g: Gist, level: usize, i: int) -> Option<int>
    decreases g.len() - i,
{
    if i < 0 || i >= g.len() {
        None
    } else if g[i].1 == level {
        Some(i)
    } else if g[i].1 < level {
        None
    } else {
        next_at_level(g, level, i + 1)
    }
}

/// How many words from `i` on are at `level`, before the first word at a
/// lower level.
pub open spec fn count_at_level(g: Gist, level: usize, i: int) -> nat
    decreases g.len() - i,
{
    if i < 0 || i >= g.len() {
        0
    } else if g[i].1 < level {
        0
    } else {
        (if g[i].1 == level { 1nat } else { 0nat }) + count_at_level(g, level, i + 1)
    }
}

/// Where the first child of the collection that `i` leads to stands: the
/// word after it, one level deeper, where the word it leads to opens a
/// sequence (`seq`) or a mapping (not `seq`).
pub open spec fn first_child(g: Gist, i: int, seq: bool) -> Option<int> {
    let u = unalias_pos(g, i);
    let opens = if seq { g[u].2 is Sequence } else { g[u].2 is Mapping };
    if opens && u + 1 < g.len() && g[u + 1].1 == g[u].1 + 1 {
        Some(u + 1)
    } else {
        None
    }
}

/// A pointer at a word of a volume.
#[derive(Clone, Copy)]
pub struct Pointer<'a> {
    vol: &'a Volume,
    pos: usize,
}

impl<'a> Pointer<'a> {
    /// The words of the volume pointed into.
    pub closed spec fn spec_gist(&self) -> Gist {
        self.vol.spec_gist()
    }

    /// The volume pointed into.
    pub closed spec fn spec_volume(&self) -> &'a Volume {
        self.vol
    }

    /// The position of the word pointed at.
    pub closed spec fn spec_pos(&self) -> int {
        self.pos as int
    }

    /// The pointer points at a word, and aliases point back.
    pub open spec fn valid(&self) -> bool {
        &&& 0 <= self.spec_pos() < self.spec_gist().len()
        &&& aliases_backward(self.spec_gist())
    }

    /// The word that aliases lead to from here.
    pub open spec fn word(&self) -> Word {
        unaliased(self.spec_gist(), self.spec_pos())
    }

    /// The word that aliases lead to from here, to read.
    pub(crate) fn read(self) -> (r: &'a Word)
        requires
            self.valid(),
        ensures
            *r == self.word(),
    {
        let u = self.unalias();
        proof {
            law_unalias_pos(self.spec_gist(), self.spec_pos());
        }
        u.to_word()
    }

    /// A pointer at the first word of the volume; none where it has none.
    pub fn new(vol: &'a Volume) -> (r: Option<Pointer<'a>>)
        ensures
            r is Some <==> vol.spec_gist().len() > 0,
            r matches Some(p) ==> p.spec_volume() == vol && p.spec_pos() == 0,
    {
        if vol.words().len() > 0 {
            Some(Pointer { vol: vol, pos: 0 })
        } else {
            None
        }
    }

    /// The pointer at the word that aliases lead to from here.
    pub fn unalias(self) -> (r: Pointer<'a>)
        requires
            self.valid(),
        ensures
            r.spec_volume() == self.spec_volume(),
            r.spec_pos() == unalias_pos(self.spec_gist(), self.spec_pos()),
            r.valid(),
        decreases self.spec_pos(),
    {
        match self.vol.words()[self.pos].2 {
            Word::Alias(sz) => {
                assert(self.spec_gist()[self.spec_pos()].2 matches Word::Alias(_));
                Pointer::unalias(Pointer { vol: self.vol, pos: sz })
            },
            _ => self,
        }
    }

    /// The value that the word that aliases lead to from here reads as
    /// (see `FromPointer`); none where it reads as no value of the type.
    pub fn into<T: FromPointer<'a>>(self) -> (r: Option<T>)
        requires
            self.valid(),
        ensures
            match r {
                Some(v) => T::readable(self.word()) && T::reads_as(self.word(), v),
                None => !T::readable(self.word()),
            },
    {
        T::from_pointer(self)
    }

    /// Whether the word that aliases lead to from here reads as a value
    /// equal to `other`: never where it reads as no value of the type.
    pub fn eq<T: FromPointer<'a> + PartialEq>(&self, other: &T) -> (r: bool)
        requires
            self.valid(),
        ensures
            !T::readable(self.word()) ==> !r,
            T::readable(self.word()) ==> exists|v: T|
                T::reads_as(self.word(), v) && (T::obeys_eq_spec() ==> r == other.eq_spec(&v)),
    {
        match T::from_pointer(*self) {
            Some(v) => {
                let r = *other == v;
                assert(T::reads_as(self.word(), v) && (T::obeys_eq_spec() ==> r == other.eq_spec(&v)));
                r
            },
            None => false,
        }
    }

    /// The word pointed at.
    pub fn to_word(self) -> (r: &'a Word)
        requires
            0 <= self.spec_pos() < self.spec_gist().len(),
        ensures
            *r == self.spec_gist()[self.spec_pos()].2,
    {
        &self.vol.words()[self.pos].2
    }

    /// The pointer at the next word at the same level, where no word at a
    /// lower level comes first (see `next_at_level`).
    pub fn next_sibling(self) -> (r: Option<Pointer<'a>>)
        requires
            0 <= self.spec_pos() < self.spec_gist().len(),
        ensures
            match next_at_level(self.spec_gist(), self.spec_gist()[self.spec_pos()].1, self.spec_pos() + 1) {
                Some(j) => r matches Some(p) && p.spec_volume() == self.spec_volume() && p.spec_pos() == j,
                None => r is None,
            },
    {
        let ghost g = self.spec_gist();
        let words = self.vol.words();
        let n = words.len();
        assert(self.spec_pos() < n);
        let level = words[self.pos].1;
        let mut i = self.pos + 1;
        while i < words.len()
            invariant
                g == self.spec_gist(),
                words@ == g,
                self.pos < i <= g.len(),
                level == g[self.spec_pos()].1,
                next_at_level(g, level, self.spec_pos() + 1) == next_at_level(g, level, i as int),
            decreases g.len() - i,
        {
            let sub = words[i].1;
            if sub == level {
                return Some(Pointer { vol: self.vol, pos: i });
            }
            if sub < level {
                return None;
            }
            i = i + 1;
        }
        None
    }

    /// How many words stand at this level from here on, this one too,
    /// before the first word at a lower level (see `count_at_level`).
    pub fn count_siblings(self) -> (r: usize)
        requires
            0 <= self.spec_pos() < self.spec_gist().len(),
        ensures
            r == 1 + count_at_level(self.spec_gist(), self.spec_gist()[self.spec_pos()].1, self.spec_pos() + 1),
    {
        let ghost g = self.spec_gist();
        let words = self.vol.words();
        let n = words.len();
        assert(self.spec_pos() < n);
        let level = words[self.pos].1;
        let mut cnt: usize = 1;
        let mut i = self.pos + 1;
        proof {
            lemma_count_bound(g, level, i as int);
        }
        while i < words.len()
            invariant_except_break
                g == self.spec_gist(),
                words@ == g,
                self.pos < i <= g.len(),
                level == g[self.spec_pos()].1,
                cnt + count_at_level(g, level, i as int) == 1 + count_at_level(g, level, self.spec_pos() + 1),
                count_at_level(g, level, i as int) <= g.len() - i,
                cnt <= i - self.pos,
            ensures
                cnt == 1 + count_at_level(g, level, self.spec_pos() + 1),
            decreases g.len() - i,
        {
            let sub = words[i].1;
            if sub == level {
                cnt = cnt + 1;
            }
            if sub < level {
                break;
            }
            i = i + 1;
            proof {
                lemma_count_bound(g, level, i as int);
            }
        }
        cnt
    }

    /// The pointer at the first item of the sequence that aliases lead to
    /// from here (see `first_child`).
    pub fn into_seq(self) -> (r: Option<Pointer<'a>>)
        requires
            self.valid(),
        ensures
            match first_child(self.spec_gist(), self.spec_pos(), true) {
                Some(j) => r matches Some(p) && p.spec_volume() == self.spec_volume() && p.spec_pos() == j,
                None => r is None,
            },
    {
        self.first_child(true)
    }

    /// The pointer at the first key of the mapping that aliases lead to from
    /// here (see `first_child`).
    pub fn into_map(self) -> (r: Option<Pointer<'a>>)
        requires
            self.valid(),
        ensures
            match first_child(self.spec_gist(), self.spec_pos(), false) {
                Some(j) => r matches Some(p) && p.spec_volume() == self.spec_volume() && p.spec_pos() == j,
                None => r is None,
            },
    {
        self.first_child(false)
    }

    fn first_child(self, seq: bool) -> (r: Option<Pointer<'a>>)
        requires
            self.valid(),
        ensures
            match first_child(self.spec_gist(), self.spec_pos(), seq) {
                Some(j) => r matches Some(p) && p.spec_volume() == self.spec_volume() && p.spec_pos() == j,
                None => r is None,
            },
    {
        let ptr = self.unalias();
        let words = self.vol.words();
        let n = words.len();
        assert(ptr.spec_pos() < n);
        let level = words[ptr.pos].1;
        let opens = match &words[ptr.pos].2 {
            Word::Sequence(_) => seq,
            Word::Mapping(_) => !seq,
            _ => false,
        };
        if !opens {
            return None;
        }
        if ptr.pos + 1 < words.len() {
            let sublevel = words[ptr.pos + 1].1;
            if sublevel > 0 && sublevel - 1 == level {
                return Some(Pointer { vol: ptr.vol, pos: ptr.pos + 1 });
            }
        }
        None
    }
}

/// What is counted from `i` on is no more than what is left.
proof fn lemma_count_bound(g: Gist, level: usize, i: int)
    requires
        0 <= i <= g.len(),
    ensures
        count_at_level(g, level, i) <= g.len() - i,
    decreases g.len() - i,
{
    if i < g.len() {
        lemma_count_bound(g, level, i + 1);
    }
}

/// Following aliases leads to a word that is no alias, and that word is
/// the one `unaliased` gives, where aliases point back.
pub proof fn law_unalias_pos(g: Gist, i: int)
    requires
        aliases_backward(g),
        0 <= i < g.len(),
    ensures
        0 <= unalias_pos(g, i) <= i,
        g[unalias_pos(g, i)].2 !is Alias,
        g[unalias_pos(g, i)].2 == unaliased(g, i),
    decreases i,
{
    match g[i].2 {
        Word::Alias(j) => {
            law_unalias_pos(g, j as int);
        },
        _ => {},
    }
}

/// Counting siblings counts the chain of next siblings: from a word whose
/// next sibling is `j`, one more than from `j`; from one without, none.
pub proof fn law_count_next(g: Gist, level: usize, i: int)
    requires
        0 <= i,
    ensures
        match next_at_level(g, level, i) {
            Some(j) => i <= j < g.len() && count_at_level(g, level, i) == 1 + count_at_level(g, level, j + 1),
            None => count_at_level(g, level, i) == 0,
        },
    decreases g.len() - i,
{
    if 0 <= i < g.len() && g[i].1 > level {
        law_count_next(g, level, i + 1);
    }
}

} // verus!
