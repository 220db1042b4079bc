//! The book: what was read, volume by volume, as words.
pub mod extractor;
pub mod volume;
pub mod word;

use vstd::prelude::*;

use crate::book::volume::Volume;
use crate::sage::Idea;

verus! {

/// The volumes read so far, the last one being written.
pub struct Book {
    pub volumes: Vec<Volume>,
}

impl Book {
    /// A book without volumes.
    pub fn new() -> (r: Book)
        ensures
            r.volumes@.len() == 0,
    {
        Book::with_capacity(1)
    }

    /// A book without volumes, with room for `size` of them.
    pub fn with_capacity(size: usize) -> (r: Book)
        ensures
            r.volumes@.len() == 0,
    {
        Book { volumes: Vec::with_capacity(size) }
    }

    /// Takes one idea: the end of the text tells to stop (true); the start of
    /// a volume adds an empty one; the end of a volume completes the last
    /// one; any other idea goes to the last volume (see `Volume::stamp`).
    /// Where there is no volume yet, the idea is dropped.
    pub fn stamp(&mut self, idea: Idea) -> (r: bool)
        requires
            forall|i: int| 0 <= i < old(self).volumes@.len() ==> (#[trigger] old(self).volumes@[i]).well_formed(),
            idea is Dusk && old(self).volumes@.len() > 0 ==> ({
                let v = old(self).volumes@.last();
                !v.spec_complete() ==> crate::book::volume::run_ok(v.spec_gist(), v.spec_buffered()->0, 1)
            }),
        ensures
            r == (idea is Done),
            forall|i: int| 0 <= i < final(self).volumes@.len() ==> (#[trigger] final(self).volumes@[i]).well_formed(),
            match idea {
                Idea::Done => final(self).volumes@ == old(self).volumes@,
                Idea::Dawn => final(self).volumes@.len() == old(self).volumes@.len() + 1
                    && final(self).volumes@.drop_last() == old(self).volumes@
                    && !final(self).volumes@.last().spec_complete()
                    && final(self).volumes@.last().spec_gist().len() == 0
                    && final(self).volumes@.last().spec_buffered() == Some(Map::<usize, Idea>::empty()),
                Idea::Dusk => if old(self).volumes@.len() == 0 {
                    final(self).volumes@ == old(self).volumes@
                } else {
                    let v = old(self).volumes@.last();
                    let w = final(self).volumes@.last();
                    &&& final(self).volumes@.len() == old(self).volumes@.len()
                    &&& final(self).volumes@.drop_last() == old(self).volumes@.drop_last()
                    &&& w.spec_complete()
                    &&& w.spec_gist() == (if v.spec_complete() { v.spec_gist() } else { crate::book::volume::run(v.spec_gist(), v.spec_buffered()->0, 1) })
                },
                _ => if old(self).volumes@.len() == 0 {
                    final(self).volumes@ == old(self).volumes@
                } else {
                    let v = old(self).volumes@.last();
                    let w = final(self).volumes@.last();
                    &&& final(self).volumes@.len() == old(self).volumes@.len()
                    &&& final(self).volumes@.drop_last() == old(self).volumes@.drop_last()
                    &&& w.spec_complete() == v.spec_complete()
                    &&& w.spec_gist() == v.spec_gist()
                    &&& w.spec_buffered() == (if v.spec_complete() || crate::sage::idea_index(idea) == 0 {
                        v.spec_buffered()
                    } else {
                        Some(v.spec_buffered()->0.insert(crate::sage::idea_index(idea), idea))
                    })
                },
            },
    {
        match idea {
            Idea::Done => {
                return true;
            },
            Idea::Dawn => {
                self.volumes.push(Volume::new());
            },
            Idea::Dusk => {
                let n = self.volumes.len();
                if n > 0 {
                    self.volumes[n - 1].complete();
                }
            },
            other => {
                let n = self.volumes.len();
                if n > 0 {
                    self.volumes[n - 1].stamp(other);
                }
            },
        }
        false
    }
}

} // verus!
