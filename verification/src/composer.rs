//! Composing documents: how many values a composition plays, counted from
//! the sizes of its parts (a scalar plays one value; see `Chord`).
use vstd::prelude::*;

verus! {

/// The sum of the sizes.
pub open spec fn sizes_sum(sizes: Seq<usize>) -> nat
    decreases sizes.len(),
{
    if sizes.len() == 0 {
        0
    } else {
        sizes_sum(sizes.drop_last()) + sizes.last() as nat
    }
}

/// The sum of the sizes of the keys and of the values.
pub open spec fn entry_sizes_sum(sizes: Seq<(usize, usize)>) -> nat
    decreases sizes.len(),
{
    if sizes.len() == 0 {
        0
    } else {
        entry_sizes_sum(sizes.drop_last()) + sizes.last().0 as nat + sizes.last().1 as nat
    }
}

proof fn lemma_sizes_sum_prefix(sizes: Seq<usize>, i: int)
    requires
        0 <= i <= sizes.len(),
    ensures
        sizes_sum(sizes.take(i)) <= sizes_sum(sizes),
    decreases sizes.len(),
{
    if i < sizes.len() {
        lemma_sizes_sum_prefix(sizes.drop_last(), i);
        assert(sizes.drop_last().take(i) =~= sizes.take(i));
    } else {
        assert(sizes.take(i) =~= sizes);
    }
}

proof fn lemma_entry_sizes_sum_prefix(sizes: Seq<(usize, usize)>, i: int)
    requires
        0 <= i <= sizes.len(),
    ensures
        entry_sizes_sum(sizes.take(i)) <= entry_sizes_sum(sizes),
    decreases sizes.len(),
{
    if i < sizes.len() {
        lemma_entry_sizes_sum_prefix(sizes.drop_last(), i);
        assert(sizes.drop_last().take(i) =~= sizes.take(i));
    } else {
        assert(sizes.take(i) =~= sizes);
    }
}

/// The number of values that a list plays: the list itself, then what each
/// of its elements plays (`element_sizes`, in order).
pub fn list_size(element_sizes: &[usize]) -> (r: usize)
    requires
        1 + sizes_sum(element_sizes@) <= usize::MAX,
    ensures
        r == 1 + sizes_sum(element_sizes@),
{
    let mut size: usize = 1;
    let mut i: usize = 0;
    while i < element_sizes.len()
        invariant
            i <= element_sizes@.len(),
            1 + sizes_sum(element_sizes@) <= usize::MAX,
            size == 1 + sizes_sum(element_sizes@.take(i as int)),
        decreases element_sizes@.len() - i,
    {
        proof {
            lemma_sizes_sum_prefix(element_sizes@, i + 1);
            assert(element_sizes@.take(i + 1).drop_last() =~= element_sizes@.take(i as int));
        }
        size = size + element_sizes[i];
        i = i + 1;
    }
    proof {
        assert(element_sizes@.take(i as int) =~= element_sizes@);
    }
    size
}

/// The number of values that a dictionary plays: the dictionary itself,
/// then, for each entry in order, what its key plays and what its value
/// plays (`entry_sizes`).
pub fn dict_size(entry_sizes: &[(usize, usize)]) -> (r: usize)
    requires
        1 + entry_sizes_sum(entry_sizes@) <= usize::MAX,
    ensures
        r == 1 + entry_sizes_sum(entry_sizes@),
{
    let mut size: usize = 1;
    let mut i: usize = 0;
    while i < entry_sizes.len()
        invariant
            i <= entry_sizes@.len(),
            1 + entry_sizes_sum(entry_sizes@) <= usize::MAX,
            size == 1 + entry_sizes_sum(entry_sizes@.take(i as int)),
        decreases entry_sizes@.len() - i,
    {
        proof {
            lemma_entry_sizes_sum_prefix(entry_sizes@, i + 1);
            assert(entry_sizes@.take(i + 1).drop_last() =~= entry_sizes@.take(i as int));
        }
        let (key, value) = entry_sizes[i];
        size = size + key;
        size = size + value;
        i = i + 1;
    }
    proof {
        assert(entry_sizes@.take(i as int) =~= entry_sizes@);
    }
    size
}

} // verus!
