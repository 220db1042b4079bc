//! Chords: the values that can be played into a volume, and how many
//! values each of them plays.
use vstd::prelude::*;

use std::collections::VecDeque;

use crate::model::style::Style;
use crate::model::TaggedValue;

verus! {

/// An empty list.
pub struct EmptyList;

/// An empty dictionary.
pub struct EmptyDict;

/// Binary data.
pub struct BinaryValue(pub Vec<u8>);

/// Pairs to be played as an ordered map.
pub struct Omap<Data>(pub Data);

/// Pairs to be played as a sequence of pairs.
pub struct Pairs<Data>(pub Data);

/// Items to be played as a set.
pub struct SetOf<Data>(pub Data);

/// Whether applying the first `n` styles, in turn, leads from `from` to
/// `to`, through the values in `vals`.
pub open spec fn applied_in_turn(styles: Seq<&mut dyn Style>, vals: Seq<TaggedValue>, n: int) -> bool {
    &&& vals.len() == n + 1
    &&& forall|i: int| 0 <= i < n ==> #[trigger] styles[i].tagged_applied(vals[i], vals[i + 1])
}

/// Applies each style, in order, to a value (see `Style::tagged_applied`).
pub fn apply_styles(tagged: &mut TaggedValue, styles: &mut [&mut dyn Style])
    ensures
        exists|vals: Seq<TaggedValue>|
            applied_in_turn(old(styles)@, vals, old(styles)@.len() as int) && vals[0] == *old(tagged) && vals.last()
                == *final(tagged),
{
    let ghost orig = styles@;
    let ghost mut vals: Seq<TaggedValue> = seq![*tagged];
    let mut i: usize = 0;
    while i < styles.len()
        invariant
            i <= styles@.len(),
            styles@.len() == orig.len(),
            forall|k: int| i <= k < orig.len() ==> styles@[k] == orig[k],
            applied_in_turn(orig, vals, i as int),
            vals[0] == *old(tagged),
            vals.last() == *tagged,
        decreases styles@.len() - i,
    {
        let ghost before = *tagged;
        styles[i].tagged_styles_apply(tagged);
        proof {
            vals = vals.push(*tagged);
        }
        i = i + 1;
    }
}

/// A value that can be played: a scalar plays one value; a collection plays
/// itself and then each of its items.
pub trait Chord {
    /// How many values playing this chord produces.
    spec fn spec_size(&self) -> nat;

    fn chord_size(&self) -> (r: usize)
        requires
            self.spec_size() <= usize::MAX,
        ensures
            r == self.spec_size(),
    ;
}

/// The number of values that the items of a list play.
pub open spec fn items_size<T: Chord>(items: Seq<T>) -> nat
    decreases items.len(),
{
    if items.len() == 0 {
        0
    } else {
        items_size(items.drop_last()) + items.last().spec_size()
    }
}

/// The number of values that the pairs of a dictionary play.
pub open spec fn pairs_size<K: Chord, V: Chord>(pairs: Seq<(K, V)>) -> nat
    decreases pairs.len(),
{
    if pairs.len() == 0 {
        0
    } else {
        pairs_size(pairs.drop_last()) + pairs.last().0.spec_size() + pairs.last().1.spec_size()
    }
}

proof fn lemma_items_size_prefix<T: Chord>(items: Seq<T>, i: int)
    requires
        0 <= i <= items.len(),
    ensures
        items_size(items.take(i)) <= items_size(items),
    decreases items.len(),
{
    if i < items.len() {
        lemma_items_size_prefix(items.drop_last(), i);
        assert(items.drop_last().take(i) =~= items.take(i));
    } else {
        assert(items.take(i) =~= items);
    }
}

proof fn lemma_pairs_size_prefix<K: Chord, V: Chord>(pairs: Seq<(K, V)>, i: int)
    requires
        0 <= i <= pairs.len(),
    ensures
        pairs_size(pairs.take(i)) <= pairs_size(pairs),
    decreases pairs.len(),
{
    if i < pairs.len() {
        lemma_pairs_size_prefix(pairs.drop_last(), i);
        assert(pairs.drop_last().take(i) =~= pairs.take(i));
    } else {
        assert(pairs.take(i) =~= pairs);
    }
}

/// One plus what the items play.
fn list_chord_size<T: Chord>(items: &Vec<T>) -> (r: usize)
    requires
        1 + items_size(items@) <= usize::MAX,
    ensures
        r == 1 + items_size(items@),
{
    let mut len: usize = 1;
    let mut i: usize = 0;
    while i < items.len()
        invariant
            i <= items@.len(),
            1 + items_size(items@) <= usize::MAX,
            len == 1 + items_size(items@.take(i as int)),
        decreases items@.len() - i,
    {
        proof {
            lemma_items_size_prefix(items@, i + 1);
            assert(items@.take(i + 1).drop_last() =~= items@.take(i as int));
        }
        len = len + items[i].chord_size();
        i = i + 1;
    }
    proof {
        assert(items@.take(i as int) =~= items@);
    }
    len
}

/// One plus what the keys and the values play.
fn dict_chord_size<K: Chord, V: Chord>(pairs: &Vec<(K, V)>) -> (r: usize)
    requires
        1 + pairs_size(pairs@) <= usize::MAX,
    ensures
        r == 1 + pairs_size(pairs@),
{
    let mut len: usize = 1;
    let mut i: usize = 0;
    while i < pairs.len()
        invariant
            i <= pairs@.len(),
            1 + pairs_size(pairs@) <= usize::MAX,
            len == 1 + pairs_size(pairs@.take(i as int)),
        decreases pairs@.len() - i,
    {
        proof {
            lemma_pairs_size_prefix(pairs@, i + 1);
            assert(pairs@.take(i + 1).drop_last() =~= pairs@.take(i as int));
        }
        let pair = &pairs[i];
        len = len + pair.0.chord_size();
        len = len + pair.1.chord_size();
        i = i + 1;
    }
    proof {
        assert(pairs@.take(i as int) =~= pairs@);
    }
    len
}

impl Chord for EmptyList {
    open spec fn spec_size(&self) -> nat {
        1
    }

    fn chord_size(&self) -> (r: usize) {
        1
    }
}

impl Chord for EmptyDict {
    open spec fn spec_size(&self) -> nat {
        1
    }

    fn chord_size(&self) -> (r: usize) {
        1
    }
}

impl Chord for BinaryValue {
    open spec fn spec_size(&self) -> nat {
        1
    }

    fn chord_size(&self) -> (r: usize) {
        1
    }
}

impl Chord for bool {
    open spec fn spec_size(&self) -> nat {
        1
    }

    fn chord_size(&self) -> (r: usize) {
        1
    }
}

impl Chord for char {
    open spec fn spec_size(&self) -> nat {
        1
    }

    fn chord_size(&self) -> (r: usize) {
        1
    }
}

impl Chord for &'static str {
    open spec fn spec_size(&self) -> nat {
        1
    }

    fn chord_size(&self) -> (r: usize) {
        1
    }
}

impl Chord for String {
    open spec fn spec_size(&self) -> nat {
        1
    }

    fn chord_size(&self) -> (r: usize) {
        1
    }
}

impl Chord for () {
    open spec fn spec_size(&self) -> nat {
        1
    }

    fn chord_size(&self) -> (r: usize) {
        1
    }
}

impl Chord for u8 {
    open spec fn spec_size(&self) -> nat {
        1
    }

    fn chord_size(&self) -> (r: usize) {
        1
    }
}

impl Chord for i8 {
    open spec fn spec_size(&self) -> nat {
        1
    }

    fn chord_size(&self) -> (r: usize) {
        1
    }
}

impl Chord for u16 {
    open spec fn spec_size(&self) -> nat {
        1
    }

    fn chord_size(&self) -> (r: usize) {
        1
    }
}

impl Chord for i16 {
    open spec fn spec_size(&self) -> nat {
        1
    }

    fn chord_size(&self) -> (r: usize) {
        1
    }
}

impl Chord for u32 {
    open spec fn spec_size(&self) -> nat {
        1
    }

    fn chord_size(&self) -> (r: usize) {
        1
    }
}

impl Chord for i32 {
    open spec fn spec_size(&self) -> nat {
        1
    }

    fn chord_size(&self) -> (r: usize) {
        1
    }
}

impl Chord for u64 {
    open spec fn spec_size(&self) -> nat {
        1
    }

    fn chord_size(&self) -> (r: usize) {
        1
    }
}

impl Chord for i64 {
    open spec fn spec_size(&self) -> nat {
        1
    }

    fn chord_size(&self) -> (r: usize) {
        1
    }
}

impl Chord for usize {
    open spec fn spec_size(&self) -> nat {
        1
    }

    fn chord_size(&self) -> (r: usize) {
        1
    }
}

impl Chord for isize {
    open spec fn spec_size(&self) -> nat {
        1
    }

    fn chord_size(&self) -> (r: usize) {
        1
    }
}

impl<T: Chord> Chord for Vec<T> {
    open spec fn spec_size(&self) -> nat {
        1 + items_size(self@)
    }

    fn chord_size(&self) -> (r: usize) {
        list_chord_size(self)
    }
}

impl<T: Chord> Chord for SetOf<Vec<T>> {
    open spec fn spec_size(&self) -> nat {
        1 + items_size(self.0@)
    }

    fn chord_size(&self) -> (r: usize) {
        list_chord_size(&self.0)
    }
}

impl<K: Chord, V: Chord> Chord for Omap<Vec<(K, V)>> {
    open spec fn spec_size(&self) -> nat {
        1 + pairs_size(self.0@)
    }

    fn chord_size(&self) -> (r: usize) {
        dict_chord_size(&self.0)
    }
}

impl<K: Chord, V: Chord> Chord for Pairs<Vec<(K, V)>> {
    open spec fn spec_size(&self) -> nat {
        1 + pairs_size(self.0@)
    }

    fn chord_size(&self) -> (r: usize) {
        dict_chord_size(&self.0)
    }
}

/// One plus what the items of a double-ended queue play.
fn deque_chord_size<T: Chord>(items: &VecDeque<T>) -> (r: usize)
    requires
        1 + items_size(items@) <= usize::MAX,
    ensures
        r == 1 + items_size(items@),
{
    let mut len: usize = 1;
    let mut i: usize = 0;
    while i < items.len()
        invariant
            i <= items@.len(),
            1 + items_size(items@) <= usize::MAX,
            len == 1 + items_size(items@.take(i as int)),
        decreases items@.len() - i,
    {
        proof {
            lemma_items_size_prefix(items@, i + 1);
            assert(items@.take(i + 1).drop_last() =~= items@.take(i as int));
        }
        len = len + items[i].chord_size();
        i = i + 1;
    }
    proof {
        assert(items@.take(i as int) =~= items@);
    }
    len
}

impl<T: Chord> Chord for VecDeque<T> {
    open spec fn spec_size(&self) -> nat {
        1 + items_size(self@)
    }

    fn chord_size(&self) -> (r: usize) {
        deque_chord_size(self)
    }
}

} // verus!
