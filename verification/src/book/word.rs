//! Words: what a volume holds for each node that was read.
use vstd::prelude::*;

use crate::model::yaml::float::{FloatValue, MaybeBigFraction};
use crate::model::yaml::integer::IntValue;
use crate::model::TaggedValue;

verus! {

/// A node that was read: a scalar of a known kind, an alias to an earlier
/// word, the opening of a sequence or a mapping (with its tag), a value of
/// another model, or a message.
#[derive(Debug)]
pub enum Word {
    Bin(Vec<u8>),
    Bool(bool),
    Int(IntValue),
    Str(String),
    Float(FloatValue),
    Null,
    Alias(usize),
    Sequence(TagName),
    Mapping(TagName),
    Scalar(TaggedValue),
    Error(String),
    Wrn(String),
    UnboundAlias(String),
}

/// A tag's name: one that lives as long as the program, or an owned one.
#[derive(Debug)]
pub enum TagName {
    Static(&'static str),
    Owned(String),
}

/// The word for a scalar value: binary data, a boolean, an integer, a string
/// (a literal or a string value), a float or null get a word of their own;
/// any other value is kept as it is.
pub open spec fn scalar_word(value: TaggedValue) -> Word {
    match value {
        TaggedValue::Binary(v) => Word::Bin(v.spec_data()),
        TaggedValue::Bool(v) => Word::Bool(v.spec_value()),
        TaggedValue::Int(v) => Word::Int(v),
        TaggedValue::Literal(v) => Word::Str(v.spec_value()),
        TaggedValue::Str(v) => Word::Str(v.spec_value()),
        TaggedValue::Float(v) => Word::Float(v),
        TaggedValue::Null(_) => Word::Null,
        _ => Word::Scalar(value),
    }
}

/// The fraction as an `i64`: a whole number whose magnitude fits in one.
pub open spec fn fraction_i64(f: MaybeBigFraction) -> Option<int> {
    if f.spec_is_rational() && f.spec_num() % f.spec_den() == 0 && f.spec_num() / f.spec_den() <= i64::MAX {
        Some(if f.spec_is_negative() { -(f.spec_num() / f.spec_den()) } else { (f.spec_num() / f.spec_den()) as int })
    } else {
        None
    }
}

/// The fraction as a `u64`: a whole number, not negative, that fits in one.
pub open spec fn fraction_u64(f: MaybeBigFraction) -> Option<int> {
    if f.spec_is_rational() && !f.spec_is_negative() && f.spec_num() % f.spec_den() == 0 && f.spec_num() / f.spec_den()
        <= u64::MAX {
        Some((f.spec_num() / f.spec_den()) as int)
    } else {
        None
    }
}

/// The number of a word as a signed machine word: an integer held in an
/// `i64`, or a float that is such a whole number.
pub open spec fn word_i64(w: Word) -> Option<int> {
    match w {
        Word::Int(v) => if v.spec_is_small() { Some(v.spec_value()) } else { None },
        Word::Float(f) => fraction_i64(f.spec_value()),
        _ => None,
    }
}

/// The number of a word as an unsigned machine word: an integer or a float
/// that is a whole number in `[0, u64::MAX]`.
pub open spec fn word_u64(w: Word) -> Option<int> {
    match w {
        Word::Int(v) => if 0 <= v.spec_value() <= u64::MAX { Some(v.spec_value()) } else { None },
        Word::Float(f) => fraction_u64(f.spec_value()),
        _ => None,
    }
}

/// `n`, where it lies in `[lo, hi]`.
pub open spec fn within(n: Option<int>, lo: int, hi: int) -> Option<int> {
    match n {
        Some(x) => if lo <= x <= hi { Some(x) } else { None },
        None => None,
    }
}

impl Word {
    /// The word for a scalar value (see `scalar_word`).
    pub fn extract_scalar(value: TaggedValue) -> (r: Word)
        ensures
            r == scalar_word(value),
    {
        match value {
            TaggedValue::Binary(v) => Word::Bin(v.to_vec()),
            TaggedValue::Bool(v) => Word::Bool(v.to_bool()),
            TaggedValue::Int(v) => Word::Int(v),
            TaggedValue::Literal(v) => Word::Str(v.as_string()),
            TaggedValue::Str(v) => Word::Str(v.to_twine()),
            TaggedValue::Float(v) => Word::Float(v),
            TaggedValue::Null(_) => Word::Null,
            other => Word::Scalar(other),
        }
    }

    /// The text of a string word; any other word is handed back.
    pub fn into_string(self) -> (r: Result<String, Word>)
        ensures
            match self {
                Word::Str(s) => r == Ok::<String, Word>(s),
                _ => r == Err::<String, Word>(self),
            },
    {
        match self {
            Word::Str(s) => Ok(s),
            other => Err(other),
        }
    }

    /// The value of a boolean word; any other word is handed back.
    pub fn into_bool(self) -> (r: Result<bool, Word>)
        ensures
            match self {
                Word::Bool(b) => r == Ok::<bool, Word>(b),
                _ => r == Err::<bool, Word>(self),
            },
    {
        match self {
            Word::Bool(b) => Ok(b),
            other => Err(other),
        }
    }

    /// The bytes of a binary word; any other word is handed back.
    pub fn into_bytes(self) -> (r: Result<Vec<u8>, Word>)
        ensures
            match self {
                Word::Bin(b) => r == Ok::<Vec<u8>, Word>(b),
                _ => r == Err::<Vec<u8>, Word>(self),
            },
    {
        match self {
            Word::Bin(b) => Ok(b),
            other => Err(other),
        }
    }

    /// Whether the word is null; any other word is handed back.
    pub fn into_null(self) -> (r: Result<(), Word>)
        ensures
            match self {
                Word::Null => r == Ok::<(), Word>(()),
                _ => r == Err::<(), Word>(self),
            },
    {
        match self {
            Word::Null => Ok(()),
            other => Err(other),
        }
    }

    /// The word's whole number  as an `i64`, where it fits
    /// in one; any other word is handed back.
    pub fn into_i64(self) -> (r: Result<i64, Word>)
        ensures
            match within(word_i64(self), i64::MIN as int, i64::MAX as int) {
                Some(n) => r == Ok::<i64, Word>(n as i64),
                None => r == Err::<i64, Word>(self),
            },
    {
        match self.whole_i64() {
            Some(i) => {
                Ok(i)
            }
            None => Err(self),
        }
    }

    /// The word's whole number  as an `i32`, where it fits
    /// in one; any other word is handed back.
    pub fn into_i32(self) -> (r: Result<i32, Word>)
        ensures
            match within(word_i64(self), i32::MIN as int, i32::MAX as int) {
                Some(n) => r == Ok::<i32, Word>(n as i32),
                None => r == Err::<i32, Word>(self),
            },
    {
        match self.whole_i64() {
            Some(i) => {
                if i32::MIN as i64 <= i && i <= i32::MAX as i64 {
                    Ok(i as i32)
                } else {
                    Err(self)
                }
            }
            None => Err(self),
        }
    }

    /// The word's whole number  as an `i16`, where it fits
    /// in one; any other word is handed back.
    pub fn into_i16(self) -> (r: Result<i16, Word>)
        ensures
            match within(word_i64(self), i16::MIN as int, i16::MAX as int) {
                Some(n) => r == Ok::<i16, Word>(n as i16),
                None => r == Err::<i16, Word>(self),
            },
    {
        match self.whole_i64() {
            Some(i) => {
                if i16::MIN as i64 <= i && i <= i16::MAX as i64 {
                    Ok(i as i16)
                } else {
                    Err(self)
                }
            }
            None => Err(self),
        }
    }

    /// The word's whole number  as an `i8`, where it fits
    /// in one; any other word is handed back.
    pub fn into_i8(self) -> (r: Result<i8, Word>)
        ensures
            match within(word_i64(self), i8::MIN as int, i8::MAX as int) {
                Some(n) => r == Ok::<i8, Word>(n as i8),
                None => r == Err::<i8, Word>(self),
            },
    {
        match self.whole_i64() {
            Some(i) => {
                if i8::MIN as i64 <= i && i <= i8::MAX as i64 {
                    Ok(i as i8)
                } else {
                    Err(self)
                }
            }
            None => Err(self),
        }
    }

    /// The word's whole number  as an `isize`, where it fits
    /// in one; any other word is handed back.
    pub fn into_isize(self) -> (r: Result<isize, Word>)
        ensures
            match within(word_i64(self), isize::MIN as int, isize::MAX as int) {
                Some(n) => r == Ok::<isize, Word>(n as isize),
                None => r == Err::<isize, Word>(self),
            },
    {
        match self.whole_i64() {
            Some(i) => {
                if isize::MIN as i64 <= i && i <= isize::MAX as i64 {
                    Ok(i as isize)
                } else {
                    Err(self)
                }
            }
            None => Err(self),
        }
    }

    /// The word's whole number  as an `u64`, where it fits
    /// in one; any other word is handed back.
    pub fn into_u64(self) -> (r: Result<u64, Word>)
        ensures
            match within(word_u64(self), 0, u64::MAX as int) {
                Some(n) => r == Ok::<u64, Word>(n as u64),
                None => r == Err::<u64, Word>(self),
            },
    {
        match self.whole_u64() {
            Some(i) => {
                Ok(i)
            }
            None => Err(self),
        }
    }

    /// The word's whole number  as an `u32`, where it fits
    /// in one; any other word is handed back.
    pub fn into_u32(self) -> (r: Result<u32, Word>)
        ensures
            match within(word_u64(self), 0, u32::MAX as int) {
                Some(n) => r == Ok::<u32, Word>(n as u32),
                None => r == Err::<u32, Word>(self),
            },
    {
        match self.whole_u64() {
            Some(i) => {
                if i <= u32::MAX as u64 {
                    Ok(i as u32)
                } else {
                    Err(self)
                }
            }
            None => Err(self),
        }
    }

    /// The word's whole number  as an `u16`, where it fits
    /// in one; any other word is handed back.
    pub fn into_u16(self) -> (r: Result<u16, Word>)
        ensures
            match within(word_u64(self), 0, u16::MAX as int) {
                Some(n) => r == Ok::<u16, Word>(n as u16),
                None => r == Err::<u16, Word>(self),
            },
    {
        match self.whole_u64() {
            Some(i) => {
                if i <= u16::MAX as u64 {
                    Ok(i as u16)
                } else {
                    Err(self)
                }
            }
            None => Err(self),
        }
    }

    /// The word's whole number  as an `u8`, where it fits
    /// in one; any other word is handed back.
    pub fn into_u8(self) -> (r: Result<u8, Word>)
        ensures
            match within(word_u64(self), 0, u8::MAX as int) {
                Some(n) => r == Ok::<u8, Word>(n as u8),
                None => r == Err::<u8, Word>(self),
            },
    {
        match self.whole_u64() {
            Some(i) => {
                if i <= u8::MAX as u64 {
                    Ok(i as u8)
                } else {
                    Err(self)
                }
            }
            None => Err(self),
        }
    }

    /// The word's whole number  as an `usize`, where it fits
    /// in one; any other word is handed back.
    pub fn into_usize(self) -> (r: Result<usize, Word>)
        ensures
            match within(word_u64(self), 0, usize::MAX as int) {
                Some(n) => r == Ok::<usize, Word>(n as usize),
                None => r == Err::<usize, Word>(self),
            },
    {
        match self.whole_u64() {
            Some(i) => {
                if i <= usize::MAX as u64 {
                    Ok(i as usize)
                } else {
                    Err(self)
                }
            }
            None => Err(self),
        }
    }

    /// The word's number as a signed machine word (see `word_i64`).
    pub(crate) fn whole_i64(&self) -> (r: Option<i64>)
        ensures
            r == (match word_i64(*self) {
                Some(n) => Some(n as i64),
                None => None::<i64>,
            }),
            word_i64(*self) matches Some(n) ==> i64::MIN <= n <= i64::MAX,
    {
        match self {
            Word::Int(v) => v.to_i64(),
            Word::Float(f) => {
                if f.fraction_parts().is_none() {
                    return None;
                }
                f.to_i64()
            }
            _ => None,
        }
    }

    /// The word's number as an unsigned machine word (see `word_u64`).
    pub(crate) fn whole_u64(&self) -> (r: Option<u64>)
        ensures
            r == (match word_u64(*self) {
                Some(n) => Some(n as u64),
                None => None::<u64>,
            }),
            word_u64(*self) matches Some(n) ==> 0 <= n <= u64::MAX,
    {
        match self {
            Word::Int(v) => v.to_u64(),
            Word::Float(f) => {
                if f.fraction_parts().is_none() {
                    return None;
                }
                f.to_u64()
            }
            _ => None,
        }
    }
}

} // verus!
