//! Reading values of plain types from the words that pointers point at.
use std::collections::HashMap;
use std::hash::Hash;
use vstd::prelude::*;
use vstd::std_specs::iter::IteratorSpec;

use crate::book::extractor::pointer::Pointer;
use crate::book::word::{word_i64, word_u64, within, Word};
use crate::model::bytes::string_bytes;

verus! {

broadcast use vstd::string::group_string_axioms;

/// A type whose values can be read from the word that a pointer points at,
/// aliases followed.
pub trait FromPointer<'a>: Sized {
    /// Whether a word reads as a value of this type.
    spec fn readable(w: Word) -> bool;

    /// Whether a word reads as `v`.
    spec fn reads_as(w: Word, v: Self) -> bool;

    /// The value that the word pointed at reads as; none where it reads as
    /// no value of this type.
    fn from_pointer(pointer: Pointer<'a>) -> (r: Option<Self>)
        requires
            pointer.valid(),
        ensures
            match r {
                Some(v) => Self::readable(pointer.word()) && Self::reads_as(pointer.word(), v),
                None => !Self::readable(pointer.word()),
            },
    ;
}

impl<'a> FromPointer<'a> for () {
    /// Null reads as the unit.
    open spec fn readable(w: Word) -> bool {
        w is Null
    }

    open spec fn reads_as(w: Word, v: ()) -> bool {
        true
    }

    fn from_pointer(pointer: Pointer<'a>) -> (r: Option<()>) {
        match pointer.read() {
            Word::Null => Some(()),
            _ => None,
        }
    }
}

impl<'a> FromPointer<'a> for bool {
    /// A boolean reads as itself.
    open spec fn readable(w: Word) -> bool {
        w is Bool
    }

    open spec fn reads_as(w: Word, v: bool) -> bool {
        w == Word::Bool(v)
    }

    fn from_pointer(pointer: Pointer<'a>) -> (r: Option<bool>) {
        match pointer.read() {
            Word::Bool(b) => Some(*b),
            _ => None,
        }
    }
}

impl<'a> FromPointer<'a> for String {
    /// A string reads as a copy of itself.
    open spec fn readable(w: Word) -> bool {
        w is Str
    }

    open spec fn reads_as(w: Word, v: String) -> bool {
        w == Word::Str(v)
    }

    fn from_pointer(pointer: Pointer<'a>) -> (r: Option<String>) {
        match pointer.read() {
            Word::Str(s) => Some(s.clone()),
            _ => None,
        }
    }
}

impl<'a> FromPointer<'a> for &'a str {
    /// A string reads as itself, borrowed from the volume.
    open spec fn readable(w: Word) -> bool {
        w is Str
    }

    open spec fn reads_as(w: Word, v: &'a str) -> bool {
        w matches Word::Str(s) && v@ == s@
    }

    fn from_pointer(pointer: Pointer<'a>) -> (r: Option<&'a str>) {
        match pointer.read() {
            Word::Str(s) => Some(s.as_str()),
            _ => None,
        }
    }
}

impl<'a> FromPointer<'a> for char {
    /// A string of one byte reads as its character.
    open spec fn readable(w: Word) -> bool {
        w matches Word::Str(s) && string_bytes(s).len() == 1 && s@.len() > 0
    }

    open spec fn reads_as(w: Word, v: char) -> bool {
        w matches Word::Str(s) && v == s@[0]
    }

    fn from_pointer(pointer: Pointer<'a>) -> (r: Option<char>) {
        match pointer.read() {
            Word::Str(s) => {
                let text = s.as_str();
                if text.as_bytes().len() == 1 {
                    let mut chars = text.chars();
                    assert(chars.remaining() == text@);
                    let r = chars.next();
                    assert(r is Some ==> text@.len() > 0);
                    r
                } else {
                    None
                }
            },
            _ => None,
        }
    }
}

impl<'a> FromPointer<'a> for Vec<u8> {
    /// Binary data reads as a copy of its bytes.
    open spec fn readable(w: Word) -> bool {
        w is Bin
    }

    open spec fn reads_as(w: Word, v: Vec<u8>) -> bool {
        w matches Word::Bin(b) && v@ == b@
    }

    fn from_pointer(pointer: Pointer<'a>) -> (r: Option<Vec<u8>>) {
        match pointer.read() {
            Word::Bin(b) => {
                let c = b.clone();
                assert(c@ =~= b@);
                Some(c)
            },
            _ => None,
        }
    }
}

impl<'a> FromPointer<'a> for &'a Vec<u8> {
    /// Binary data reads as its bytes, borrowed from the volume.
    open spec fn readable(w: Word) -> bool {
        w is Bin
    }

    open spec fn reads_as(w: Word, v: &'a Vec<u8>) -> bool {
        w matches Word::Bin(b) && *v == b
    }

    fn from_pointer(pointer: Pointer<'a>) -> (r: Option<&'a Vec<u8>>) {
        match pointer.read() {
            Word::Bin(b) => Some(b),
            _ => None,
        }
    }
}

impl<'a> FromPointer<'a> for i8 {
    /// A whole number that fits reads as itself.
    open spec fn readable(w: Word) -> bool {
        within(word_i64(w), i8::MIN as int, i8::MAX as int) is Some
    }

    open spec fn reads_as(w: Word, v: i8) -> bool {
        within(word_i64(w), i8::MIN as int, i8::MAX as int) == Some(v as int)
    }

    fn from_pointer(pointer: Pointer<'a>) -> (r: Option<i8>) {
        match pointer.read().whole_i64() {
            Some(i) => if i >= i8::MIN as i64 && i <= i8::MAX as i64 {
                Some(i as i8)
            } else {
                None
            },
            None => None,
        }
    }
}

impl<'a> FromPointer<'a> for i16 {
    /// A whole number that fits reads as itself.
    open spec fn readable(w: Word) -> bool {
        within(word_i64(w), i16::MIN as int, i16::MAX as int) is Some
    }

    open spec fn reads_as(w: Word, v: i16) -> bool {
        within(word_i64(w), i16::MIN as int, i16::MAX as int) == Some(v as int)
    }

    fn from_pointer(pointer: Pointer<'a>) -> (r: Option<i16>) {
        match pointer.read().whole_i64() {
            Some(i) => if i >= i16::MIN as i64 && i <= i16::MAX as i64 {
                Some(i as i16)
            } else {
                None
            },
            None => None,
        }
    }
}

impl<'a> FromPointer<'a> for i32 {
    /// A whole number that fits reads as itself.
    open spec fn readable(w: Word) -> bool {
        within(word_i64(w), i32::MIN as int, i32::MAX as int) is Some
    }

    open spec fn reads_as(w: Word, v: i32) -> bool {
        within(word_i64(w), i32::MIN as int, i32::MAX as int) == Some(v as int)
    }

    fn from_pointer(pointer: Pointer<'a>) -> (r: Option<i32>) {
        match pointer.read().whole_i64() {
            Some(i) => if i >= i32::MIN as i64 && i <= i32::MAX as i64 {
                Some(i as i32)
            } else {
                None
            },
            None => None,
        }
    }
}

impl<'a> FromPointer<'a> for i64 {
    /// A whole number that fits reads as itself.
    open spec fn readable(w: Word) -> bool {
        within(word_i64(w), i64::MIN as int, i64::MAX as int) is Some
    }

    open spec fn reads_as(w: Word, v: i64) -> bool {
        within(word_i64(w), i64::MIN as int, i64::MAX as int) == Some(v as int)
    }

    fn from_pointer(pointer: Pointer<'a>) -> (r: Option<i64>) {
        match pointer.read().whole_i64() {
            Some(i) => Some(i),
            None => None,
        }
    }
}

impl<'a> FromPointer<'a> for isize {
    /// A whole number that fits reads as itself.
    open spec fn readable(w: Word) -> bool {
        within(word_i64(w), isize::MIN as int, isize::MAX as int) is Some
    }

    open spec fn reads_as(w: Word, v: isize) -> bool {
        within(word_i64(w), isize::MIN as int, isize::MAX as int) == Some(v as int)
    }

    fn from_pointer(pointer: Pointer<'a>) -> (r: Option<isize>) {
        match pointer.read().whole_i64() {
            Some(i) => if i >= isize::MIN as i64 && i <= isize::MAX as i64 {
                Some(i as isize)
            } else {
                None
            },
            None => None,
        }
    }
}

impl<'a> FromPointer<'a> for u8 {
    /// A whole number that fits reads as itself.
    open spec fn readable(w: Word) -> bool {
        within(word_u64(w), u8::MIN as int, u8::MAX as int) is Some
    }

    open spec fn reads_as(w: Word, v: u8) -> bool {
        within(word_u64(w), u8::MIN as int, u8::MAX as int) == Some(v as int)
    }

    fn from_pointer(pointer: Pointer<'a>) -> (r: Option<u8>) {
        match pointer.read().whole_u64() {
            Some(i) => if i <= u8::MAX as u64 {
                Some(i as u8)
            } else {
                None
            },
            None => None,
        }
    }
}

impl<'a> FromPointer<'a> for u16 {
    /// A whole number that fits reads as itself.
    open spec fn readable(w: Word) -> bool {
        within(word_u64(w), u16::MIN as int, u16::MAX as int) is Some
    }

    open spec fn reads_as(w: Word, v: u16) -> bool {
        within(word_u64(w), u16::MIN as int, u16::MAX as int) == Some(v as int)
    }

    fn from_pointer(pointer: Pointer<'a>) -> (r: Option<u16>) {
        match pointer.read().whole_u64() {
            Some(i) => if i <= u16::MAX as u64 {
                Some(i as u16)
            } else {
                None
            },
            None => None,
        }
    }
}

impl<'a> FromPointer<'a> for u32 {
    /// A whole number that fits reads as itself.
    open spec fn readable(w: Word) -> bool {
        within(word_u64(w), u32::MIN as int, u32::MAX as int) is Some
    }

    open spec fn reads_as(w: Word, v: u32) -> bool {
        within(word_u64(w), u32::MIN as int, u32::MAX as int) == Some(v as int)
    }

    fn from_pointer(pointer: Pointer<'a>) -> (r: Option<u32>) {
        match pointer.read().whole_u64() {
            Some(i) => if i <= u32::MAX as u64 {
                Some(i as u32)
            } else {
                None
            },
            None => None,
        }
    }
}

impl<'a> FromPointer<'a> for u64 {
    /// A whole number that fits reads as itself.
    open spec fn readable(w: Word) -> bool {
        within(word_u64(w), u64::MIN as int, u64::MAX as int) is Some
    }

    open spec fn reads_as(w: Word, v: u64) -> bool {
        within(word_u64(w), u64::MIN as int, u64::MAX as int) == Some(v as int)
    }

    fn from_pointer(pointer: Pointer<'a>) -> (r: Option<u64>) {
        match pointer.read().whole_u64() {
            Some(i) => Some(i),
            None => None,
        }
    }
}

impl<'a> FromPointer<'a> for usize {
    /// A whole number that fits reads as itself.
    open spec fn readable(w: Word) -> bool {
        within(word_u64(w), usize::MIN as int, usize::MAX as int) is Some
    }

    open spec fn reads_as(w: Word, v: usize) -> bool {
        within(word_u64(w), usize::MIN as int, usize::MAX as int) == Some(v as int)
    }

    fn from_pointer(pointer: Pointer<'a>) -> (r: Option<usize>) {
        match pointer.read().whole_u64() {
            Some(i) => if i <= usize::MAX as u64 {
                Some(i as usize)
            } else {
                None
            },
            None => None,
        }
    }
}

/// A list that values read from pointers are added to.
pub trait List<'a>: Sized {
    /// An empty list.
    fn list_new() -> Self;

    /// Makes room for `size` more values.
    fn list_reserve(&mut self, size: usize);

    /// Adds the value that the word pointed at reads as, where it reads as
    /// one.
    fn list_update(&mut self, val: Pointer<'a>)
        requires
            val.valid(),
    ;
}

impl<'a, V: FromPointer<'a>> List<'a> for Vec<V> {
    fn list_new() -> (r: Vec<V>)
        ensures
            r@ == Seq::<V>::empty(),
    {
        Vec::new()
    }

    fn list_reserve(&mut self, size: usize)
        ensures
            final(self)@ == old(self)@,
    {
        self.reserve(size);
    }

    fn list_update(&mut self, val: Pointer<'a>)
        ensures
            final(self)@.len() == old(self)@.len() + (if V::readable(val.word()) { 1int } else { 0int }),
            final(self)@.subrange(0, old(self)@.len() as int) == old(self)@,
            V::readable(val.word()) ==> V::reads_as(val.word(), final(self)@.last()),
    {
        match V::from_pointer(val) {
            Some(v) => {
                self.push(v);
                assert(self@.subrange(0, old(self)@.len() as int) =~= old(self)@);
            },
            None => {
                assert(self@.subrange(0, old(self)@.len() as int) =~= old(self)@);
            },
        }
    }
}

/// A dictionary that keys and values read from pointers are added to.
pub trait Dict<'a>: Sized {
    /// An empty dictionary.
    fn dict_new() -> Self;

    /// Makes room for `size` more entries.
    fn dict_reserve(&mut self, size: usize);

    /// Adds the entry that the words pointed at read as, where both read as
    /// one.
    fn dict_update(&mut self, key: Pointer<'a>, val: Pointer<'a>)
        requires
            key.valid(),
            val.valid(),
    ;
}

impl<'a, K: FromPointer<'a> + Eq + Hash, V: FromPointer<'a>> Dict<'a> for HashMap<K, V> {
    fn dict_new() -> (r: HashMap<K, V>)
        ensures
            r@ == Map::<K, V>::empty(),
    {
        HashMap::new()
    }

    fn dict_reserve(&mut self, size: usize)
        ensures
            final(self)@ == old(self)@,
    {
        self.reserve(size);
    }

    fn dict_update(&mut self, key: Pointer<'a>, val: Pointer<'a>)
        ensures
            !(K::readable(key.word()) && V::readable(val.word())) ==> final(self)@ == old(self)@,
            K::readable(key.word()) && V::readable(val.word()) && vstd::std_specs::hash::obeys_key_model::<K>() ==> exists|
                k: K,
                v: V,
            |
                K::reads_as(key.word(), k) && V::reads_as(val.word(), v) && final(self)@ == old(self)@.insert(k, v),
    {
        proof {
            broadcast use vstd::std_specs::hash::group_hash_axioms;
        }
        if let Some(k) = K::from_pointer(key) {
            if let Some(v) = V::from_pointer(val) {
                let ghost kk = k;
                let ghost vv = v;
                self.insert(k, v);
                assert(vstd::std_specs::hash::obeys_key_model::<K>() ==> K::reads_as(key.word(), kk) && V::reads_as(
                    val.word(),
                    vv,
                ) && self@ == old(self)@.insert(kk, vv));
            }
        }
    }
}

} // verus!
