//! `!!int`: integers of any size, in binary, octal, decimal, hexadecimal
//! and (YAML 1.1) base 60.
use vstd::prelude::*;
use vstd::string::StringSliceAdditionalSpecFns;

use crate::model::bignum::{
    ascii_digits, big_add_small, big_decimal_digits, big_mul_small, digits_from_u64, digits_to_u64,
    digits_value, lemma_nat_digits_small, nat_decimal, nat_digits, u64_decimal,
};
use crate::model::bytes::{all_blank_from, byte_at, lemma_u8_flag, only_blanks_from, quote_byte, spec_byte_at};
use crate::model::renderer::is_string_node;
use crate::model::style::CommonStyles;
use crate::model::{issued_prefix, model_issue_rope, EncodedString, Model, Node, Renderer, Rope, Tagged, TaggedValue};

verus! {

pub const TAG: &'static str = "tag:yaml.org,2002:int";

/// Whether the byte is a decimal digit.
pub open spec fn is_dec(b: u8) -> bool {
    0x30 <= b <= 0x39
}

/// What comes before the digits: at most one opening quote (explicit values
/// only) and at most one sign, in either order. Gives the quote (1 for `'`,
/// 2 for `"`), whether the number is negated, and where it starts; `None`
/// where the text is rejected before any digit.
pub open spec fn lead_scan(explicit: bool, v: Seq<u8>, p: int, q: int, signed: bool, neg: bool) -> Option<(int, bool, int)>
    decreases v.len() - p,
{
    if p >= v.len() {
        None
    } else if v[p] == 0x27 || v[p] == 0x22 {
        if explicit && q == 0 {
            lead_scan(explicit, v, p + 1, if v[p] == 0x27 { 1 } else { 2 }, signed, neg)
        } else {
            None
        }
    } else if v[p] == 0x2d || v[p] == 0x2b {
        if !signed {
            lead_scan(explicit, v, p + 1, q, true, v[p] == 0x2d)
        } else {
            None
        }
    } else {
        Some((q, neg, p))
    }
}

/// How the number at `at` is written: its radix, where its digits start, and
/// whether it is a lone zero. `0b`, `0o` and `0x` choose binary, octal and
/// hexadecimal; a zero followed by a digit is octal in YAML 1.1 (when that
/// digit is below 8) and decimal otherwise.
pub open spec fn number_kind(v: Seq<u8>, at: int, shortocts: bool) -> (int, int, bool) {
    if v[at] == 0x30 {
        match spec_byte_at(v, at + 1) {
            Some(b) => if b == 0x62 {
                (2, at + 2, false)
            } else if b == 0x6f {
                (8, at + 2, false)
            } else if b == 0x78 {
                (16, at + 2, false)
            } else if is_dec(b) {
                (if b < 0x38 && shortocts { 8int } else { 10int }, at + 1, false)
            } else {
                (10, at + 1, true)
            },
            None => (10, at + 1, true),
        }
    } else {
        (10, at, false)
    }
}

/// The value of a digit in the given radix.
pub open spec fn digit_of(b: u8, radix: int) -> Option<int> {
    if radix == 16 {
        if is_dec(b) {
            Some(b - 0x30)
        } else if 0x61 <= b <= 0x66 {
            Some(b - 0x61 + 10)
        } else if 0x41 <= b <= 0x46 {
            Some(b - 0x41 + 10)
        } else {
            None
        }
    } else if 0x30 <= b < 0x30 + radix {
        Some(b - 0x30)
    } else {
        None
    }
}

/// A base 60 group after a colon at `p - 1`: one digit, or two when the
/// first is below 6. Gives its value and the position after it.
pub open spec fn sexagesimal_group(v: Seq<u8>, p: int) -> Option<(int, int)> {
    if 0 <= p < v.len() && is_dec(v[p]) {
        let d = v[p] - 0x30;
        if d < 6 && p + 1 < v.len() && is_dec(v[p + 1]) {
            Some((d * 10 + (v[p + 1] - 0x30), p + 2))
        } else {
            Some((d, p + 1))
        }
    } else {
        None
    }
}

/// Reads digits from `p` on into `acc`, skipping underscores; in base 60
/// mode, a decimal number goes on in groups after colons. Gives the number,
/// where reading stopped, and whether it stopped at something other than the
/// end of the text (which must then close the value); `None` where a colon
/// is not followed by a digit.
pub open spec fn digits_scan(v: Seq<u8>, p: int, radix: int, sexa: bool, acc: int, ended: bool) -> Option<(int, int, bool)>
    decreases v.len() - p,
{
    if p >= v.len() {
        Some((acc, p, ended))
    } else {
        match digit_of(v[p], radix) {
            Some(d) => digits_scan(v, p + 1, radix, sexa, acc * radix + d, ended),
            None => if v[p] == 0x5f {
                digits_scan(v, p + 1, radix, sexa, acc, ended)
            } else if v[p] == 0x3a && sexa && radix == 10 {
                match sexagesimal_group(v, p + 1) {
                    None => None,
                    Some((n, e)) => if e > p {
                        digits_scan(v, e, radix, sexa, acc * 60 + n, ended || (e < v.len() && v[e] != 0x3a))
                    } else {
                        None
                    },
                }
            } else {
                Some((acc, p, true))
            },
        }
    }
}

/// Whether the value is properly closed at `ptr`: something was read, the
/// quote (if any) closes there, and only blanks follow.
pub open spec fn int_closes(v: Seq<u8>, ptr: int, q: int) -> bool {
    &&& ptr > 0
    &&& if q == 0 {
        all_blank_from(v, ptr)
    } else {
        spec_byte_at(v, ptr) == Some(quote_byte(q)) && all_blank_from(v, ptr + 1)
    }
}

/// Whether a value that is not explicitly tagged may be an integer: it
/// starts with a sign or a digit.
pub open spec fn int_may_start(v: Seq<u8>) -> bool {
    v.len() > 0 && (v[0] == 0x2b || v[0] == 0x2d || is_dec(v[0]))
}

/// The integer that `v` reads as, if any. `sexa` turns on base 60 groups and
/// `shortocts` octal numbers written with a bare leading zero (YAML 1.1).
pub open spec fn int_parse(explicit: bool, v: Seq<u8>, sexa: bool, shortocts: bool) -> Option<int> {
    if !explicit && !int_may_start(v) {
        None
    } else {
        match lead_scan(explicit, v, 0, 0, false, false) {
            None => None,
            Some((q, neg, at)) => {
                let (radix, start, zero) = number_kind(v, at, shortocts);
                let scanned = if zero {
                    Some((0int, start, true))
                } else {
                    digits_scan(v, start, radix, sexa, 0, false)
                };
                match scanned {
                    None => None,
                    Some((acc, ptr, ended)) => if ended && !int_closes(v, ptr, q) {
                        None
                    } else {
                        Some(if neg { -acc } else { acc })
                    },
                }
            },
        }
    }
}

/// The decimal spelling of an integer.
pub open spec fn int_decimal(n: int) -> Seq<u8> {
    if n < 0 {
        seq![0x2du8] + nat_decimal((-n) as nat)
    } else {
        nat_decimal(n as nat)
    }
}

#[derive(Clone, Debug)]
enum MintRepr {
    I(i64),
    B(bool, Vec<u32>),
}

/// An integer that is held in an `i64` while it fits, and as a sign and
/// base 2^32 digits after it once outgrew one.
#[derive(Debug)]
pub struct Mint {
    repr: MintRepr,
}

impl Mint {
    #[verifier::type_invariant]
    spec fn well_formed(self) -> bool {
        match self.repr {
            MintRepr::I(_) => true,
            MintRepr::B(_, d) => digits_value(d@) > i64::MAX,
        }
    }

    /// The number.
    pub closed spec fn spec_value(self) -> int {
        match self.repr {
            MintRepr::I(v) => v as int,
            MintRepr::B(neg, d) => if neg { -digits_value(d@) } else { digits_value(d@) as int },
        }
    }

    /// Whether the number is held in an `i64`.
    pub closed spec fn spec_is_small(self) -> bool {
        self.repr is I
    }

    pub fn new() -> (r: Mint)
        ensures
            r.spec_value() == 0,
            r.spec_is_small(),
    {
        Mint { repr: MintRepr::I(0) }
    }

    fn from_i64(v: i64) -> (r: Mint)
        ensures
            r.spec_value() == v,
            r.spec_is_small(),
    {
        Mint { repr: MintRepr::I(v) }
    }

    fn from_u64(v: u64) -> (r: Mint)
        ensures
            r.spec_value() == v,
            r.spec_is_small() <==> v <= i64::MAX,
    {
        if v <= 0x7fff_ffff_ffff_ffff {
            Mint { repr: MintRepr::I(v as i64) }
        } else {
            Mint { repr: MintRepr::B(false, digits_from_u64(v)) }
        }
    }

    /// The number from a sign and digits; held in an `i64` where it fits.
    fn from_parts(neg: bool, digits: Vec<u32>) -> (r: Mint)
        ensures
            r.spec_value() == (if neg { -digits_value(digits@) } else { digits_value(digits@) as int }),
            r.spec_is_small() <==> i64::MIN <= r.spec_value() <= i64::MAX,
    {
        match digits_to_u64(&digits) {
            Some(m) => {
                if !neg && m <= 0x7fff_ffff_ffff_ffff {
                    return Mint { repr: MintRepr::I(m as i64) };
                }
                if neg && m <= 0x8000_0000_0000_0000 {
                    let w: i128 = -(m as i128);
                    return Mint { repr: MintRepr::I(w as i64) };
                }
            }
            None => {}
        }
        Mint { repr: MintRepr::B(neg, digits) }
    }

    /// `self * base + digit`, for a number that is not negative.
    fn mul_add(&mut self, base: u32, digit: u32)
        requires
            old(self).spec_value() >= 0,
            2 <= base <= 60,
            digit < 60,
        ensures
            final(self).spec_value() == old(self).spec_value() * base + digit,
            final(self).spec_is_small() <==> final(self).spec_value() <= i64::MAX,
    {
        proof {
            use_type_invariant(&*self);
        }
        let ghost old_value = self.spec_value();
        match &self.repr {
            MintRepr::I(v) => {
                let v: i64 = *v;
                assert(0 <= v);
                assert(v as int * base <= i64::MAX as int * 60) by (nonlinear_arith)
                    requires
                        0 <= v <= i64::MAX,
                        base <= 60,
                ;
                let w: i128 = (v as i128) * (base as i128) + (digit as i128);
                if w <= 0x7fff_ffff_ffff_ffff {
                    self.repr = MintRepr::I(w as i64);
                } else {
                    let digits = digits_from_u64(v as u64);
                    let m = big_mul_small(&digits, base);
                    let a = big_add_small(&m, digit);
                    self.repr = MintRepr::B(false, a);
                }
            }
            MintRepr::B(_, digits) => {
                let m = big_mul_small(digits, base);
                let a = big_add_small(&m, digit);
                proof {
                    assert(digits_value(m@) >= digits_value(digits@)) by (nonlinear_arith)
                        requires
                            digits_value(m@) == digits_value(digits@) * base,
                            base >= 2,
                    ;
                }
                self.repr = MintRepr::B(false, a);
            }
        }
    }

    /// The number with its sign turned.
    fn negate(self) -> (r: Mint)
        ensures
            r.spec_value() == -self.spec_value(),
            r.spec_is_small() == self.spec_is_small() || self.spec_value() == i64::MIN,
    {
        proof {
            use_type_invariant(&self);
        }
        match self.repr {
            MintRepr::I(v) => {
                if v == i64::MIN {
                    Mint { repr: MintRepr::B(false, digits_from_u64(0x8000_0000_0000_0000)) }
                } else {
                    Mint { repr: MintRepr::I(-v) }
                }
            }
            MintRepr::B(neg, d) => Mint { repr: MintRepr::B(!neg, d) },
        }
    }

    /// The number in decimal, with a minus sign when it is negative.
    fn decimal(&self) -> (r: Vec<u8>)
        ensures
            r@ == int_decimal(self.spec_value()),
    {
        proof {
            use_type_invariant(self);
        }
        match &self.repr {
            MintRepr::I(v) => {
                let v: i64 = *v;
                if v < 0 {
                    let m: i128 = -(v as i128);
                    let digits = u64_decimal(m as u64);
                    let mut r: Vec<u8> = Vec::new();
                    r.push(0x2d);
                    let mut rest = digits;
                    r.append(&mut rest);
                    assert(r@ =~= int_decimal(v as int));
                    r
                } else {
                    u64_decimal(v as u64)
                }
            }
            MintRepr::B(neg, d) => {
                let digits = big_decimal_digits(d);
                proof {
                    lemma_nat_digits_small(digits_value(d@));
                }
                let text = ascii_digits(&digits);
                if *neg {
                    let mut r: Vec<u8> = Vec::new();
                    r.push(0x2d);
                    let mut rest = text;
                    r.append(&mut rest);
                    assert(r@ =~= int_decimal(self.spec_value()));
                    r
                } else {
                    text
                }
            }
        }
    }

    fn to_i64(&self) -> (r: Option<i64>)
        ensures
            r == (if self.spec_is_small() { Some(self.spec_value() as i64) } else { None::<i64> }),
            !self.spec_is_small() ==> self.spec_value() < -i64::MAX || self.spec_value() > i64::MAX,
    {
        proof {
            use_type_invariant(self);
        }
        match &self.repr {
            MintRepr::I(v) => Some(*v),
            MintRepr::B(_, _) => None,
        }
    }

    fn to_u64(&self) -> (r: Option<u64>)
        ensures
            r == (if 0 <= self.spec_value() <= u64::MAX { Some(self.spec_value() as u64) } else { None::<u64> }),
    {
        proof {
            use_type_invariant(self);
        }
        match &self.repr {
            MintRepr::I(v) => {
                if *v >= 0 {
                    Some(*v as u64)
                } else {
                    None
                }
            }
            MintRepr::B(neg, d) => {
                if *neg {
                    None
                } else {
                    digits_to_u64(d)
                }
            }
        }
    }

    fn to_parts(&self) -> (r: (bool, Vec<u32>))
        ensures
            self.spec_value() == (if r.0 { -digits_value(r.1@) } else { digits_value(r.1@) as int }),
            r.0 <==> self.spec_value() < 0,
    {
        proof {
            use_type_invariant(self);
        }
        match &self.repr {
            MintRepr::I(v) => {
                let v: i64 = *v;
                if v < 0 {
                    let m: i128 = -(v as i128);
                    (true, digits_from_u64(m as u64))
                } else {
                    (false, digits_from_u64(v as u64))
                }
            }
            MintRepr::B(neg, d) => (*neg, d.clone()),
        }
    }
}

impl Clone for Mint {
    fn clone(&self) -> (r: Mint)
        ensures
            r.spec_value() == self.spec_value(),
            r.spec_is_small() == self.spec_is_small(),
    {
        proof {
            use_type_invariant(self);
        }
        match &self.repr {
            MintRepr::I(v) => Mint { repr: MintRepr::I(*v) },
            MintRepr::B(neg, d) => Mint { repr: MintRepr::B(*neg, d.clone()) },
        }
    }
}

/// The integer model.
#[derive(Clone, Copy)]
pub struct Int;

/// Reads what comes before the digits (see `lead_scan`).
fn read_lead(explicit: bool, value: &[u8]) -> (r: Option<(u8, bool, usize)>)
    ensures
        match r {
            None => lead_scan(explicit, value@, 0, 0, false, false) is None,
            Some((q, neg, at)) => lead_scan(explicit, value@, 0, 0, false, false) == Some((q as int, neg, at as int))
                && at < value@.len() && q <= 2,
        },
{
    let mut p: usize = 0;
    let mut q: u8 = 0;
    let mut signed = false;
    let mut neg = false;
    loop
        invariant
            p <= value@.len(),
            q <= 2,
            lead_scan(explicit, value@, 0, 0, false, false) == lead_scan(explicit, value@, p as int, q as int, signed, neg),
        decreases value@.len() - p,
    {
        if p >= value.len() {
            return None;
        }
        let b = value[p];
        if b == 0x27 || b == 0x22 {
            if explicit && q == 0 {
                q = if b == 0x27 { 1 } else { 2 };
                p = p + 1;
            } else {
                return None;
            }
        } else if b == 0x2d || b == 0x2b {
            if !signed {
                signed = true;
                neg = b == 0x2d;
                p = p + 1;
            } else {
                return None;
            }
        } else {
            return Some((q, neg, p));
        }
    }
}

/// Reads how the number at `at` is written (see `number_kind`).
fn read_number_kind(value: &[u8], at: usize, shortocts: bool) -> (r: (u32, usize, bool))
    requires
        at < value@.len(),
    ensures
        (r.0 as int, r.1 as int, r.2) == number_kind(value@, at as int, shortocts),
        r.1 <= value@.len() + 1,
        r.0 == 2 || r.0 == 8 || r.0 == 10 || r.0 == 16,
{
    if value[at] == 0x30 {
        match byte_at(value, at + 1) {
            Some(b) => {
                if b == 0x62 {
                    (2, at + 2, false)
                } else if b == 0x6f {
                    (8, at + 2, false)
                } else if b == 0x78 {
                    (16, at + 2, false)
                } else if 0x30 <= b && b <= 0x39 {
                    (if b < 0x38 && shortocts { 8 } else { 10 }, at + 1, false)
                } else {
                    (10, at + 1, true)
                }
            }
            None => (10, at + 1, true),
        }
    } else {
        (10, at, false)
    }
}

/// The value of a digit in the given radix.
fn read_digit(b: u8, radix: u32) -> (r: Option<u32>)
    requires
        radix == 2 || radix == 8 || radix == 10 || radix == 16,
    ensures
        match digit_of(b, radix as int) {
            Some(d) => r == Some(d as u32) && d < radix,
            None => r is None,
        },
{
    if radix == 16 {
        if 0x30 <= b && b <= 0x39 {
            Some((b - 0x30) as u32)
        } else if 0x61 <= b && b <= 0x66 {
            Some((b - 0x61 + 10) as u32)
        } else if 0x41 <= b && b <= 0x46 {
            Some((b - 0x41 + 10) as u32)
        } else {
            None
        }
    } else if 0x30 <= b && (b as u32) < 0x30 + radix {
        Some((b - 0x30) as u32)
    } else {
        None
    }
}

/// Reads a base 60 group (see `sexagesimal_group`).
fn read_sexagesimal_group(value: &[u8], p: usize) -> (r: Option<(u32, usize)>)
    ensures
        match sexagesimal_group(value@, p as int) {
            Some((n, e)) => r == Some((n as u32, e as usize)) && n < 60 && e <= value@.len(),
            None => r is None,
        },
{
    if p < value.len() && 0x30 <= value[p] && value[p] <= 0x39 {
        let d = (value[p] - 0x30) as u32;
        if d < 6 && p + 1 < value.len() && 0x30 <= value[p + 1] && value[p + 1] <= 0x39 {
            Some((d * 10 + (value[p + 1] - 0x30) as u32, p + 2))
        } else {
            Some((d, p + 1))
        }
    } else {
        None
    }
}

/// Reads the digits from `start` on (see `digits_scan`).
fn read_digits(value: &[u8], start: usize, radix: u32, sexa: bool) -> (r: Option<(Mint, usize, bool)>)
    requires
        radix == 2 || radix == 8 || radix == 10 || radix == 16,
    ensures
        match digits_scan(value@, start as int, radix as int, sexa, 0, false) {
            Some((acc, ptr, ended)) => r matches Some((m, p, e)) && m.spec_value() == acc && p == ptr && e == ended
                && (m.spec_is_small() <==> acc <= i64::MAX) && acc >= 0,
            None => r is None,
        },
{
    let mut acc = Mint::new();
    let mut p: usize = start;
    let mut ended = false;
    loop
        invariant
            radix == 2 || radix == 8 || radix == 10 || radix == 16,
            acc.spec_value() >= 0,
            acc.spec_is_small() <==> acc.spec_value() <= i64::MAX,
            digits_scan(value@, start as int, radix as int, sexa, 0, false)
                == digits_scan(value@, p as int, radix as int, sexa, acc.spec_value(), ended),
        decreases value@.len() - p,
    {
        if p >= value.len() {
            return Some((acc, p, ended));
        }
        let b = value[p];
        match read_digit(b, radix) {
            Some(d) => {
                acc.mul_add(radix, d);
                p = p + 1;
            }
            None => {
                if b == 0x5f {
                    p = p + 1;
                } else if b == 0x3a && sexa && radix == 10 {
                    match read_sexagesimal_group(value, p + 1) {
                        None => return None,
                        Some((n, e)) => {
                            acc.mul_add(60, n);
                            ended = ended || (e < value.len() && value[e] != 0x3a);
                            p = e;
                        }
                    }
                } else {
                    return Some((acc, p, true));
                }
            }
        }
    }
}

impl Int {
    pub fn get_tag() -> (r: &'static str)
        ensures
            r == TAG,
    {
        TAG
    }

    /// Reads an integer (see `int_parse`).
    fn base_decode(&self, explicit: bool, value: &[u8], sexagesimals: bool, shortocts: bool) -> (r: Result<Mint, ()>)
        ensures
            match int_parse(explicit, value@, sexagesimals, shortocts) {
                Some(n) => r matches Ok(m) && m.spec_value() == n
                    && (m.spec_is_small() <==> -i64::MAX <= n <= i64::MAX),
                None => r is Err,
            },
    {
        if !explicit {
            match byte_at(value, 0) {
                Some(b) => {
                    if !(b == 0x2b || b == 0x2d || (0x30 <= b && b <= 0x39)) {
                        return Err(());
                    }
                }
                None => return Err(()),
            }
        }
        let (q, neg, at) = match read_lead(explicit, value) {
            None => return Err(()),
            Some(t) => t,
        };
        let (radix, start, zero) = read_number_kind(value, at, shortocts);
        let (acc, mut ptr, ended) = if zero {
            (Mint::new(), start, true)
        } else {
            match read_digits(value, start, radix, sexagesimals) {
                None => return Err(()),
                Some(t) => t,
            }
        };
        if ended {
            if ptr == 0 {
                return Err(());
            }
            if q > 0 {
                if ptr < value.len() && ((value[ptr] == 0x22 && q == 2) || (value[ptr] == 0x27 && q == 1)) {
                    ptr = ptr + 1;
                } else {
                    return Err(());
                }
            }
            if !only_blanks_from(value, ptr) {
                return Err(());
            }
        }
        if neg {
            Ok(acc.negate())
        } else {
            Ok(acc)
        }
    }
}

impl Int {
    /// Writes the integer in decimal, preceded by the tag and anchor as the
    /// value's styles ask.
    pub fn encode(&self, _renderer: &Renderer, value: TaggedValue, tags: &[(String, String)]) -> (r: Result<Rope, TaggedValue>)
        ensures
            match value {
                TaggedValue::Int(v) => r matches Ok(rope) && (issued_prefix(
                    rope@,
                    TAG.spec_bytes(),
                    tags@,
                    v.spec_issue_tag(),
                    v.spec_alias(),
                ) && is_string_node(rope@.last(), int_decimal(v.spec_value()))),
                _ => r == Err::<Rope, TaggedValue>(value),
            },
    {
        let mut val = match value {
            TaggedValue::Int(v) => v,
            other => return Err(other),
        };
        let issue_tag = val.issue_tag();
        let alias = val.take_alias();
        let text = val.value.decimal();
        let node = Node::String(EncodedString::String(text));
        Ok(model_issue_rope(self, node, issue_tag, alias, tags))
    }

    /// Reads a YAML 1.2 integer.
    pub fn decode(&self, explicit: bool, value: &[u8]) -> (r: Result<TaggedValue, ()>)
        ensures
            match int_parse(explicit, value@, false, false) {
                Some(n) => r matches Ok(t) && (t matches TaggedValue::Int(v) && v.is_plain() && v.reads_as(n)),
                None => r is Err,
            },
    {
        match self.base_decode(explicit, value, false, false) {
            Ok(m) => Ok(TaggedValue::Int(IntValue::new(m))),
            Err(()) => Err(()),
        }
    }

    /// Reads a YAML 1.1 integer: base 60 groups and octal numbers with a
    /// bare leading zero are known too.
    pub fn decode11(&self, explicit: bool, value: &[u8]) -> (r: Result<TaggedValue, ()>)
        ensures
            match int_parse(explicit, value@, true, true) {
                Some(n) => r matches Ok(t) && (t matches TaggedValue::Int(v) && v.is_plain() && v.reads_as(n)),
                None => r is Err,
            },
    {
        match self.base_decode(explicit, value, true, true) {
            Ok(m) => Ok(TaggedValue::Int(IntValue::new(m))),
            Err(()) => Err(()),
        }
    }
}

impl Model for Int {
    fn is_metamodel(&self) -> (r: bool) {
        false
    }

    open spec fn spec_is_decodable(&self) -> bool {
        true
    }

    open spec fn spec_is_encodable(&self) -> bool {
        true
    }

    fn has_default(&self) -> (r: bool) {
        false
    }

    fn is_sequence(&self) -> (r: bool) {
        false
    }

    fn is_dictionary(&self) -> (r: bool) {
        false
    }

    open spec fn spec_tag(&self) -> &'static str {
        TAG
    }

    fn get_tag(&self) -> (r: &'static str) {
        TAG
    }

    fn is_decodable(&self) -> (r: bool)
        ensures
            r,
    {
        true
    }

    fn is_encodable(&self) -> (r: bool)
        ensures
            r,
    {
        true
    }
}

/// An integer, with its presentation.
#[derive(Clone, Debug)]
pub struct IntValue {
    style: u8,
    alias: Option<String>,
    value: Mint,
}

impl IntValue {
    pub closed spec fn spec_issue_tag(&self) -> bool {
        self.style & 1 == 1
    }

    pub closed spec fn spec_alias(&self) -> Option<String> {
        self.alias
    }

    /// The number.
    pub closed spec fn spec_value(&self) -> int {
        self.value.spec_value()
    }

    /// Whether the number is held in an `i64`.
    pub closed spec fn spec_is_small(&self) -> bool {
        self.value.spec_is_small()
    }

    /// No tag issued, no anchor.
    pub open spec fn is_plain(&self) -> bool {
        !self.spec_issue_tag() && self.spec_alias() is None
    }

    /// The value is `n`, held in an `i64` exactly when its magnitude fits in
    /// one.
    pub open spec fn reads_as(&self, n: int) -> bool {
        self.spec_value() == n && (self.spec_is_small() <==> -i64::MAX <= n <= i64::MAX)
    }

    fn new(value: Mint) -> (r: IntValue)
        ensures
            r.is_plain(),
            r.value == value,
    {
        proof {
            lemma_u8_flag(0, 1, 1);
        }
        IntValue { style: 0, alias: None, value }
    }

    /// The value of a number given by its sign and its base 2^32 digits,
    /// least significant first; held in an `i64` where it fits in one.
    pub fn from_big_parts(neg: bool, digits: Vec<u32>) -> (r: IntValue)
        ensures
            r.is_plain(),
            r.spec_value() == (if neg { -digits_value(digits@) } else { digits_value(digits@) as int }),
            r.spec_is_small() <==> i64::MIN <= r.spec_value() <= i64::MAX,
    {
        IntValue::new(Mint::from_parts(neg, digits))
    }

    pub fn set_alias(&mut self, alias: Option<String>)
        ensures
            final(self).spec_alias() == alias,
            final(self).spec_issue_tag() == old(self).spec_issue_tag(),
            final(self).spec_value() == old(self).spec_value(),
            final(self).spec_is_small() == old(self).spec_is_small(),
    {
        self.alias = alias;
    }

    pub fn take_alias(&mut self) -> (r: Option<String>)
        ensures
            r == old(self).spec_alias(),
            final(self).spec_alias() is None,
            final(self).spec_issue_tag() == old(self).spec_issue_tag(),
            final(self).spec_value() == old(self).spec_value(),
            final(self).spec_is_small() == old(self).spec_is_small(),
    {
        self.alias.take()
    }

    /// Takes over the styles that apply to every value: whether the tag is
    /// issued.
    pub fn init_common_styles(&mut self, common_styles: CommonStyles)
        ensures
            final(self).spec_issue_tag() == common_styles.spec_issue_tag(),
            final(self).spec_alias() == old(self).spec_alias(),
            final(self).spec_value() == old(self).spec_value(),
            final(self).spec_is_small() == old(self).spec_is_small(),
    {
        self.set_issue_tag(common_styles.issue_tag());
    }

    pub fn issue_tag(&self) -> (r: bool)
        ensures
            r == self.spec_issue_tag(),
    {
        self.style & 1 == 1
    }

    pub fn set_issue_tag(&mut self, val: bool)
        ensures
            final(self).spec_issue_tag() == val,
            final(self).spec_alias() == old(self).spec_alias(),
            final(self).spec_value() == old(self).spec_value(),
            final(self).spec_is_small() == old(self).spec_is_small(),
    {
        let s = self.style;
        proof {
            lemma_u8_flag(s, 1, 1);
        }
        if val {
            self.style = s | 1;
        } else {
            self.style = s & !1;
        }
    }

    /// The number, where it is held in an `i64`.
    pub fn to_i64(&self) -> (r: Option<i64>)
        ensures
            r == (if self.spec_is_small() { Some(self.spec_value() as i64) } else { None::<i64> }),
            self.spec_is_small() ==> i64::MIN <= self.spec_value() <= i64::MAX,
            !self.spec_is_small() ==> self.spec_value() < -i64::MAX || self.spec_value() > i64::MAX,
    {
        self.value.to_i64()
    }

    /// The number, where it fits in a `u64`.
    pub fn to_u64(&self) -> (r: Option<u64>)
        ensures
            r == (if 0 <= self.spec_value() <= u64::MAX { Some(self.spec_value() as u64) } else { None::<u64> }),
    {
        self.value.to_u64()
    }

    /// The number as a sign (true for negative) and base 2^32 digits, least
    /// significant first.
    pub fn to_big_parts(&self) -> (r: (bool, Vec<u32>))
        ensures
            self.spec_value() == (if r.0 { -digits_value(r.1@) } else { digits_value(r.1@) as int }),
            r.0 <==> self.spec_value() < 0,
    {
        self.value.to_parts()
    }

    /// The number in decimal.
    pub fn to_decimal(&self) -> (r: Vec<u8>)
        ensures
            r@ == int_decimal(self.spec_value()),
    {
        self.value.decimal()
    }
}

impl Tagged for IntValue {
    open spec fn spec_tag(&self) -> &'static str {
        TAG
    }

    fn get_tag(&self) -> (r: &'static str) {
        TAG
    }
}

fn int_value_of_u64(v: u64) -> (r: IntValue)
    ensures
        r.is_plain(),
        r.spec_value() == v,
        r.spec_is_small() <==> v <= i64::MAX,
{
    IntValue::new(Mint::from_u64(v))
}

impl From<i8> for IntValue {
    fn from(v: i8) -> (r: IntValue)
        ensures
            r.is_plain(),
            r.spec_value() == v,
            r.spec_is_small(),
    {
        proof {
            lemma_u8_flag(0, 1, 1);
        }
        IntValue { style: 0, alias: None, value: Mint { repr: MintRepr::I(v as i64) } }
    }
}

impl vstd::std_specs::convert::FromSpecImpl<i8> for IntValue {
    open spec fn obeys_from_spec() -> bool {
        true
    }

    closed spec fn from_spec(v: i8) -> IntValue {
        IntValue { style: 0, alias: None, value: Mint { repr: MintRepr::I(v as i64) } }
    }
}

impl From<i16> for IntValue {
    fn from(v: i16) -> (r: IntValue)
        ensures
            r.is_plain(),
            r.spec_value() == v,
            r.spec_is_small(),
    {
        proof {
            lemma_u8_flag(0, 1, 1);
        }
        IntValue { style: 0, alias: None, value: Mint { repr: MintRepr::I(v as i64) } }
    }
}

impl vstd::std_specs::convert::FromSpecImpl<i16> for IntValue {
    open spec fn obeys_from_spec() -> bool {
        true
    }

    closed spec fn from_spec(v: i16) -> IntValue {
        IntValue { style: 0, alias: None, value: Mint { repr: MintRepr::I(v as i64) } }
    }
}

impl From<i32> for IntValue {
    fn from(v: i32) -> (r: IntValue)
        ensures
            r.is_plain(),
            r.spec_value() == v,
            r.spec_is_small(),
    {
        proof {
            lemma_u8_flag(0, 1, 1);
        }
        IntValue { style: 0, alias: None, value: Mint { repr: MintRepr::I(v as i64) } }
    }
}

impl vstd::std_specs::convert::FromSpecImpl<i32> for IntValue {
    open spec fn obeys_from_spec() -> bool {
        true
    }

    closed spec fn from_spec(v: i32) -> IntValue {
        IntValue { style: 0, alias: None, value: Mint { repr: MintRepr::I(v as i64) } }
    }
}

impl From<i64> for IntValue {
    fn from(v: i64) -> (r: IntValue)
        ensures
            r.is_plain(),
            r.spec_value() == v,
            r.spec_is_small(),
    {
        proof {
            lemma_u8_flag(0, 1, 1);
        }
        IntValue { style: 0, alias: None, value: Mint { repr: MintRepr::I(v as i64) } }
    }
}

impl vstd::std_specs::convert::FromSpecImpl<i64> for IntValue {
    open spec fn obeys_from_spec() -> bool {
        true
    }

    closed spec fn from_spec(v: i64) -> IntValue {
        IntValue { style: 0, alias: None, value: Mint { repr: MintRepr::I(v as i64) } }
    }
}

impl From<isize> for IntValue {
    fn from(v: isize) -> (r: IntValue)
        ensures
            r.is_plain(),
            r.spec_value() == v,
            r.spec_is_small(),
    {
        proof {
            lemma_u8_flag(0, 1, 1);
        }
        IntValue { style: 0, alias: None, value: Mint { repr: MintRepr::I(v as i64) } }
    }
}

impl vstd::std_specs::convert::FromSpecImpl<isize> for IntValue {
    open spec fn obeys_from_spec() -> bool {
        true
    }

    closed spec fn from_spec(v: isize) -> IntValue {
        IntValue { style: 0, alias: None, value: Mint { repr: MintRepr::I(v as i64) } }
    }
}

impl From<u8> for IntValue {
    fn from(v: u8) -> (r: IntValue)
        ensures
            r.is_plain(),
            r.spec_value() == v,
            r.spec_is_small(),
    {
        proof {
            lemma_u8_flag(0, 1, 1);
        }
        IntValue { style: 0, alias: None, value: Mint { repr: MintRepr::I(v as i64) } }
    }
}

impl vstd::std_specs::convert::FromSpecImpl<u8> for IntValue {
    open spec fn obeys_from_spec() -> bool {
        true
    }

    closed spec fn from_spec(v: u8) -> IntValue {
        IntValue { style: 0, alias: None, value: Mint { repr: MintRepr::I(v as i64) } }
    }
}

impl From<u16> for IntValue {
    fn from(v: u16) -> (r: IntValue)
        ensures
            r.is_plain(),
            r.spec_value() == v,
            r.spec_is_small(),
    {
        proof {
            lemma_u8_flag(0, 1, 1);
        }
        IntValue { style: 0, alias: None, value: Mint { repr: MintRepr::I(v as i64) } }
    }
}

impl vstd::std_specs::convert::FromSpecImpl<u16> for IntValue {
    open spec fn obeys_from_spec() -> bool {
        true
    }

    closed spec fn from_spec(v: u16) -> IntValue {
        IntValue { style: 0, alias: None, value: Mint { repr: MintRepr::I(v as i64) } }
    }
}

impl From<u32> for IntValue {
    fn from(v: u32) -> (r: IntValue)
        ensures
            r.is_plain(),
            r.spec_value() == v,
            r.spec_is_small(),
    {
        proof {
            lemma_u8_flag(0, 1, 1);
        }
        IntValue { style: 0, alias: None, value: Mint { repr: MintRepr::I(v as i64) } }
    }
}

impl vstd::std_specs::convert::FromSpecImpl<u32> for IntValue {
    open spec fn obeys_from_spec() -> bool {
        true
    }

    closed spec fn from_spec(v: u32) -> IntValue {
        IntValue { style: 0, alias: None, value: Mint { repr: MintRepr::I(v as i64) } }
    }
}

impl From<u64> for IntValue {
    /// A value beyond `i64` is held as digits.
    fn from(v: u64) -> (r: IntValue)
        ensures
            r.is_plain(),
            r.spec_value() == v,
            r.spec_is_small() <==> v <= i64::MAX,
    {
        int_value_of_u64(v as u64)
    }
}

/// What a value beyond `i64` is held as is not a spec value, so `from` is
/// not claimed equal to one; its own `ensures` says what it gives.
impl vstd::std_specs::convert::FromSpecImpl<u64> for IntValue {
    open spec fn obeys_from_spec() -> bool {
        false
    }

    closed spec fn from_spec(v: u64) -> IntValue {
        IntValue { style: 0, alias: None, value: Mint { repr: MintRepr::I(v as i64) } }
    }
}

impl From<usize> for IntValue {
    /// A value beyond `i64` is held as digits.
    fn from(v: usize) -> (r: IntValue)
        ensures
            r.is_plain(),
            r.spec_value() == v,
            r.spec_is_small() <==> v <= i64::MAX,
    {
        int_value_of_u64(v as u64)
    }
}

/// What a value beyond `i64` is held as is not a spec value, so `from` is
/// not claimed equal to one; its own `ensures` says what it gives.
impl vstd::std_specs::convert::FromSpecImpl<usize> for IntValue {
    open spec fn obeys_from_spec() -> bool {
        false
    }

    closed spec fn from_spec(v: usize) -> IntValue {
        IntValue { style: 0, alias: None, value: Mint { repr: MintRepr::I(v as i64) } }
    }
}


/// The number that ASCII decimal digits stand for.
pub open spec fn dec_value(s: Seq<u8>) -> int
    decreases s.len(),
{
    if s.len() == 0 {
        0
    } else {
        dec_value(s.drop_last()) * 10 + (s.last() - 0x30)
    }
}

/// The decimal spelling of a natural number: digits only, the first of them
/// no zero but for zero itself, standing for the number.
pub proof fn lemma_nat_decimal(m: nat)
    ensures
        nat_decimal(m).len() >= 1,
        forall|i: int| 0 <= i < nat_decimal(m).len() ==> is_dec(#[trigger] nat_decimal(m)[i]),
        dec_value(nat_decimal(m)) == m,
        m > 0 ==> nat_decimal(m)[0] != 0x30,
        m == 0 ==> nat_decimal(m) == seq![0x30u8],
    decreases m,
{
    lemma_nat_digits_small(m);
    if m >= 10 {
        lemma_nat_decimal(m / 10);
        lemma_nat_digits_small(m / 10);
        assert(nat_decimal(m) =~= nat_decimal(m / 10).push(((m % 10) + 0x30) as u8));
        assert(nat_decimal(m).drop_last() =~= nat_decimal(m / 10));
        assert(nat_decimal(m).last() == ((m % 10) + 0x30) as u8);
        assert(dec_value(nat_decimal(m)) == dec_value(nat_decimal(m / 10)) * 10 + (m % 10));
    } else {
        assert(nat_decimal(m) =~= seq![(m + 0x30) as u8]);
        assert(nat_decimal(m).drop_last() =~= Seq::<u8>::empty());
        assert(dec_value(Seq::<u8>::empty()) == 0);
        assert(dec_value(nat_decimal(m)) == dec_value(nat_decimal(m).drop_last()) * 10 + (nat_decimal(m).last() - 0x30));
    }
}

/// Reading decimal digits from `p` on, after those from `k` to `p`, gives
/// the number that all of them from `k` on stand for.
proof fn lemma_scan_decimal(v: Seq<u8>, k: int, p: int, sexa: bool)
    requires
        0 <= k <= p <= v.len(),
        forall|i: int| k <= i < v.len() ==> is_dec(#[trigger] v[i]),
    ensures
        digits_scan(v, p, 10, sexa, dec_value(v.subrange(k, p)), false)
            == Some((dec_value(v.subrange(k, v.len() as int)), v.len() as int, false)),
    decreases v.len() - p,
{
    if p < v.len() {
        lemma_scan_decimal(v, k, p + 1, sexa);
        assert(is_dec(v[p]));
        assert(v.subrange(k, p + 1).drop_last() =~= v.subrange(k, p));
        assert(v.subrange(k, p + 1).last() == v[p]);
    }
}

/// What encoding writes for an integer, decoding reads back: the decimal
/// spelling of any integer reads as that integer, whether the value is
/// explicitly tagged or not, under the YAML 1.1 rules and the 1.2 ones.
pub proof fn law_int_roundtrip(n: int, explicit: bool, sexa: bool, shortocts: bool)
    ensures
        int_parse(explicit, int_decimal(n), sexa, shortocts) == Some(n),
{
    let m: nat = if n < 0 { (-n) as nat } else { n as nat };
    lemma_nat_decimal(m);
    let d = nat_decimal(m);
    let v = int_decimal(n);
    let k: int = if n < 0 { 1 } else { 0 };
    assert(v.subrange(k, v.len() as int) =~= d);
    assert forall|i: int| k <= i < v.len() implies is_dec(#[trigger] v[i]) by {
        assert(v[i] == d[i - k]);
    }
    assert(v[k] == d[0]);
    if n < 0 {
        assert(lead_scan(explicit, v, 1, 0, true, true) == Some((0int, true, 1int)));
    }
    assert(lead_scan(explicit, v, 0, 0, false, false) == Some((0int, n < 0, k)));
    if m == 0 {
        assert(v =~= seq![0x30u8]);
        assert(number_kind(v, 0, shortocts) == (10int, 1int, true));
    } else {
        assert(v.subrange(k, k) =~= Seq::<u8>::empty());
        lemma_scan_decimal(v, k, k, sexa);
    }
}

} // verus!
