//! Small byte-slice helpers shared by the encoders and decoders.
use vstd::prelude::*;

verus! {

/// The bytes of a string.
pub open spec fn string_bytes(s: String) -> Seq<u8> {
    vstd::utf8::encode_utf8(s@)
}

/// Appends the bytes of `src`.
pub fn push_slice(vec: &mut Vec<u8>, src: &[u8])
    ensures
        final(vec)@ == old(vec)@ + src@,
{
    let mut i: usize = 0;
    while i < src.len()
        invariant
            i <= src@.len(),
            vec@ == old(vec)@ + src@.subrange(0, i as int),
        decreases src@.len() - i,
    {
        vec.push(src[i]);
        i = i + 1;
        assert(vec@ =~= old(vec)@ + src@.subrange(0, i as int));
    }
    assert(src@.subrange(0, src@.len() as int) =~= src@);
}

/// Appends the bytes of `src` from position `from` on.
pub fn push_slice_from(vec: &mut Vec<u8>, src: &[u8], from: usize)
    requires
        from <= src@.len(),
    ensures
        final(vec)@ == old(vec)@ + src@.skip(from as int),
{
    let mut i: usize = from;
    while i < src.len()
        invariant
            from <= i <= src@.len(),
            vec@ == old(vec)@ + src@.subrange(from as int, i as int),
        decreases src@.len() - i,
    {
        vec.push(src[i]);
        i = i + 1;
        assert(vec@ =~= old(vec)@ + src@.subrange(from as int, i as int));
    }
    assert(src@.subrange(from as int, src@.len() as int) =~= src@.skip(from as int));
}

/// A copy of the bytes of a string.
pub fn string_to_bytes(s: &String) -> (r: Vec<u8>)
    ensures
        r@ == string_bytes(*s),
{
    let mut v: Vec<u8> = Vec::new();
    push_slice(&mut v, s.as_str().as_bytes());
    v
}

/// Whether `byte` occurs in `s`.
pub fn contains_byte(s: &[u8], byte: u8) -> (r: bool)
    ensures
        r == s@.contains(byte),
{
    let mut i: usize = 0;
    while i < s.len()
        invariant
            i <= s@.len(),
            forall|k: int| 0 <= k < i ==> s@[k] != byte,
        decreases s@.len() - i,
    {
        if s[i] == byte {
            assert(s@[i as int] == byte);
            return true;
        }
        i = i + 1;
    }
    false
}

/// Whether `s` from position `at` on starts with `prefix`.
pub fn starts_with_at(s: &[u8], at: usize, prefix: &[u8]) -> (r: bool)
    ensures
        r == (at <= s@.len() && prefix@.is_prefix_of(s@.skip(at as int))),
{
    if at > s.len() {
        return false;
    }
    if s.len() - at < prefix.len() {
        return false;
    }
    let mut i: usize = 0;
    while i < prefix.len()
        invariant
            at <= s@.len(),
            s@.len() <= usize::MAX,
            prefix@.len() <= s@.len() - at,
            i <= prefix@.len(),
            forall|k: int| 0 <= k < i ==> prefix@[k] == s@[at + k],
        decreases prefix@.len() - i,
    {
        if prefix[i] != s[at + i] {
            assert(prefix@[i as int] != s@.skip(at as int)[i as int]);
            return false;
        }
        i = i + 1;
    }
    assert(prefix@ =~= s@.skip(at as int).subrange(0, prefix@.len() as int));
    true
}

/// Facts about setting and clearing single-bit flags in a style byte.
pub proof fn lemma_u8_flag(s: u8, f: u8, g: u8)
    by (bit_vector)
    requires
        f == 1 || f == 2 || f == 4,
        g == 1 || g == 2 || g == 4,
    ensures
        (s | f) & f == f,
        (s & !f) & f == 0,
        f != g ==> (s | f) & g == s & g,
        f != g ==> (s & !f) & g == s & g,
        f & f == f,
        0u8 & f == 0,
        f != g ==> f & g == 0,
{
}

/// The byte at `at`, if there is one.
pub fn byte_at(s: &[u8], at: usize) -> (r: Option<u8>)
    ensures
        r == (if at < s@.len() { Some(s@[at as int]) } else { None::<u8> }),
{
    if at < s.len() {
        Some(s[at])
    } else {
        None
    }
}

/// The byte at `at`, if there is one.
pub open spec fn spec_byte_at(s: Seq<u8>, at: int) -> Option<u8> {
    if 0 <= at < s.len() {
        Some(s[at])
    } else {
        None
    }
}

/// The quote that an explicit value may open with: 1 for `'`, 2 for `"`.
pub open spec fn opening_quote(explicit: bool, v: Seq<u8>) -> int {
    if explicit && v.len() > 0 && v[0] == 0x27 {
        1
    } else if explicit && v.len() > 0 && v[0] == 0x22 {
        2
    } else {
        0
    }
}

/// The byte that closes quote state `q`.
pub open spec fn quote_byte(q: int) -> u8 {
    if q == 1 {
        0x27
    } else {
        0x22
    }
}

/// Reads the quote that an explicit value may open with: the quote state
/// (1 for `'`, 2 for `"`, 0 for none) and the position after it.
pub fn read_opening_quote(explicit: bool, value: &[u8]) -> (r: (u8, usize))
    ensures
        r.0 == opening_quote(explicit, value@),
        r.1 == (if r.0 > 0 { 1usize } else { 0usize }),
{
    if explicit && value.len() > 0 {
        if value[0] == 0x27 {
            return (1, 1);
        } else if value[0] == 0x22 {
            return (2, 1);
        }
    }
    (0, 0)
}

/// Whether the byte is a space, a tab, a line feed or a carriage return.
pub open spec fn is_blank(b: u8) -> bool {
    b == 0x20 || b == 0x0a || b == 0x09 || b == 0x0d
}

/// Whether every byte from `at` on is blank.
pub open spec fn all_blank_from(s: Seq<u8>, at: int) -> bool {
    forall|k: int| at <= k < s.len() ==> is_blank(#[trigger] s[k])
}

/// Whether every byte from `at` on is blank.
pub fn only_blanks_from(s: &[u8], at: usize) -> (r: bool)
    ensures
        r == all_blank_from(s@, at as int),
{
    let mut i: usize = at;
    while i < s.len()
        invariant
            at <= i,
            forall|k: int| at <= k < i && k < s@.len() ==> is_blank(#[trigger] s@[k]),
        decreases s@.len() - i,
    {
        let b = s[i];
        if !(b == 0x20 || b == 0x0a || b == 0x09 || b == 0x0d) {
            return false;
        }
        i = i + 1;
    }
    true
}

} // verus!
