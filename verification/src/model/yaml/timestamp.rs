//! `!!timestamp`: dates, times of day, and both, with fractions of a second
//! and time zones.
use vstd::prelude::*;
use vstd::string::StringSliceAdditionalSpecFns;

use crate::model::bignum::{digits_value, nat_decimal, u64_decimal};
use crate::model::bytes::{byte_at, spec_byte_at};
use crate::model::renderer::is_string_node;
use crate::model::yaml::float::{fraction_text, lemma_pow10_pos, pow10, FloatValue, Mint};
use crate::model::yaml::integer::{dec_value, is_dec};
use crate::model::bytes::{quote_byte, string_bytes};
use crate::model::{EncodedString, Model, Node, Renderer, Rope, Tagged, TaggedValue};

verus! {

pub const TAG: &'static str = "tag:yaml.org,2002:timestamp";

/// Where the run of decimal digits from `p` on ends.
pub open spec fn digits_end(v: Seq<u8>, p: int) -> int
    decreases v.len() - p,
{
    if 0 <= p < v.len() && is_dec(v[p]) {
        digits_end(v, p + 1)
    } else {
        p
    }
}

/// The number that the digits from `p` on spell, and where they end; none
/// where there is no digit or the number outgrows an `i64`.
pub open spec fn figure_at(v: Seq<u8>, p: int) -> Option<(int, int)> {
    let e = digits_end(v, p);
    if e == p || dec_value(v.subrange(p, e)) > i64::MAX {
        None
    } else {
        Some((dec_value(v.subrange(p, e)), e))
    }
}

/// The fraction that the digits from `p` on spell after a dot (numerator,
/// denominator), and where they end; none where there is no digit.
pub open spec fn fraction_at(v: Seq<u8>, p: int) -> Option<(int, int, int)> {
    let e = digits_end(v, p);
    if e == p {
        None
    } else {
        Some((dec_value(v.subrange(p, e)), pow10((e - p) as nat), e))
    }
}

/// Where the run of spaces and tabs from `p` on ends.
pub open spec fn blanks_end(v: Seq<u8>, p: int) -> int
    decreases v.len() - p,
{
    if 0 <= p < v.len() && (v[p] == 0x20 || v[p] == 0x09) {
        blanks_end(v, p + 1)
    } else {
        p
    }
}

/// Where reading a timestamp stands: the position, the open quote, and the
/// parts read so far; the fraction of a second as numerator and
/// denominator.
pub struct TsScan {
    pub p: int,
    pub q: int,
    pub year: Option<int>,
    pub month: Option<int>,
    pub day: Option<int>,
    pub hour: Option<int>,
    pub minute: Option<int>,
    pub second: Option<int>,
    pub fraction: Option<(int, int)>,
    pub tz_hour: Option<int>,
    pub tz_minute: Option<int>,
}

/// No part read yet.
pub open spec fn ts_blank(s: TsScan) -> bool {
    s.year is None && s.month is None && s.day is None && s.hour is None && s.minute is None && s.second is None
        && s.tz_hour is None && s.tz_minute is None
}

/// Only the date parts given read so far.
pub open spec fn ts_date_only(s: TsScan, month: bool, day: bool) -> bool {
    s.year is Some && (s.month is Some) == month && (s.day is Some) == day && s.hour is None && s.minute is None
        && s.second is None && s.tz_hour is None && s.tz_minute is None
}

/// What follows the seconds: a fraction after a dot, then after blanks a
/// time zone: `z`, a signed hour, or an hour without a sign, then a colon
/// and its minutes.
pub open spec fn ts_after_seconds(v: Seq<u8>, explicit: bool, s: TsScan) -> Option<(bool, TsScan)> {
    let (p1, frac, ok) = if v[s.p] == 0x2e {
        match fraction_at(v, s.p + 1) {
            None => (s.p, s.fraction, false),
            Some((n, d, e)) => (e, Some((n, d)), true),
        }
    } else {
        (s.p, s.fraction, true)
    };
    if !ok {
        None
    } else if p1 >= v.len() {
        Some((false, TsScan { p: p1, fraction: frac, ..s }))
    } else {
        let p2 = blanks_end(v, p1);
        let (p3, tzh, tzm, ok2) = match spec_byte_at(v, p2) {
            Some(b) => if b == 0x7a || b == 0x5a {
                (p2 + 1, Some(0int), Some(0int), true)
            } else if b == 0x2d || b == 0x2b {
                match figure_at(v, p2 + 1) {
                    None => (p2, s.tz_hour, s.tz_minute, false),
                    Some((f, e)) => if f < 25 {
                        (e, Some(if b == 0x2d { -f } else { f }), s.tz_minute, true)
                    } else {
                        (p2, s.tz_hour, s.tz_minute, false)
                    },
                }
            } else {
                (p2, s.tz_hour, s.tz_minute, true)
            },
            None => (p2, s.tz_hour, s.tz_minute, true),
        };
        let s3 = TsScan { p: p3, fraction: frac, tz_hour: tzh, tz_minute: tzm, ..s };
        if !ok2 {
            None
        } else if tzh is None && v.len() > p3 {
            match figure_at(v, p3) {
                None => None,
                Some((f, e)) => if f < 25 {
                    Some((true, TsScan { p: e, tz_hour: Some(f), ..s3 }))
                } else {
                    None
                },
            }
        } else if tzm is None && v.len() > p3 {
            if v[p3] == 0x3a {
                match figure_at(v, p3 + 1) {
                    None => None,
                    Some((f, e)) => if f < 61 {
                        Some((true, TsScan { p: e, tz_minute: Some(f), ..s3 }))
                    } else {
                        None
                    },
                }
            } else {
                None
            }
        } else {
            Some((false, s3))
        }
    }
}

/// One step of reading a timestamp: `Some((true, s))` where reading goes on
/// from `s`, `Some((false, s))` where it stops at `s`, `None` where the value
/// is rejected. A number followed by a colon starts a time of day, another
/// a date: year, month, day joined by hyphens, then `T`, `t`, a space or a
/// tab before the hour; hours, minutes and seconds are joined by colons.
pub open spec fn ts_next(v: Seq<u8>, explicit: bool, s: TsScan) -> Option<(bool, TsScan)> {
    if explicit && s.p == 0 && s.q == 0 && (v[0] == 0x27 || v[0] == 0x22) {
        Some((true, TsScan { p: 1, q: if v[0] == 0x27 { 1 } else { 2 }, ..s }))
    } else if ts_blank(s) {
        let ltz = v[s.p] == 0x2d;
        let p1 = if ltz { s.p + 1 } else { s.p };
        match figure_at(v, p1) {
            None => None,
            Some((fig, e)) => if !ltz && fig < 25 && spec_byte_at(v, e) == Some(0x3au8) {
                Some((true, TsScan { p: e, hour: Some(fig), ..s }))
            } else if fig <= i32::MAX {
                Some((true, TsScan { p: e, year: Some(if ltz { -fig } else { fig }), ..s }))
            } else {
                Some((true, TsScan { p: e, ..s }))
            },
        }
    } else if ts_date_only(s, false, false) || ts_date_only(s, true, false) {
        if v[s.p] == 0x2d {
            match figure_at(v, s.p + 1) {
                None => None,
                Some((fig, e)) => if s.month is None {
                    if 0 < fig < 13 {
                        Some((true, TsScan { p: e, month: Some(fig), ..s }))
                    } else {
                        None
                    }
                } else if 0 < fig < 32 {
                    Some((true, TsScan { p: e, day: Some(fig), ..s }))
                } else {
                    None
                },
            }
        } else {
            None
        }
    } else if ts_date_only(s, true, true) {
        let b = v[s.p];
        if b == 0x54 || b == 0x20 || b == 0x74 || b == 0x09 {
            match figure_at(v, s.p + 1) {
                None => None,
                Some((fig, e)) => if fig < 25 {
                    Some((true, TsScan { p: e, hour: Some(fig), ..s }))
                } else {
                    None
                },
            }
        } else {
            None
        }
    } else if s.hour is Some && s.second is None {
        if v[s.p] == 0x3a {
            match figure_at(v, s.p + 1) {
                None => None,
                Some((fig, e)) => if fig < 61 {
                    if s.minute is None {
                        Some((true, TsScan { p: e, minute: Some(fig), ..s }))
                    } else {
                        Some((true, TsScan { p: e, second: Some(fig), ..s }))
                    }
                } else {
                    None
                },
            }
        } else {
            None
        }
    } else if s.hour is Some && s.minute is Some && s.second is Some {
        ts_after_seconds(v, explicit, s)
    } else {
        None
    }
}

/// Reads a timestamp from the state `s` on (see `ts_next`): the state where
/// reading stopped, or `None` where the value is rejected.
pub open spec fn ts_run(v: Seq<u8>, explicit: bool, s: TsScan) -> Option<TsScan>
    decreases v.len() - s.p,
{
    if s.p < 0 || s.p >= v.len() {
        Some(s)
    } else {
        match ts_next(v, explicit, s) {
            None => None,
            Some((go, n)) => if !go {
                Some(n)
            } else if n.p > s.p && n.p <= v.len() {
                ts_run(v, explicit, n)
            } else {
                Some(n)
            },
        }
    }
}

/// The state before reading.
pub open spec fn ts_start() -> TsScan {
    TsScan {
        p: 0,
        q: 0,
        year: None,
        month: None,
        day: None,
        hour: None,
        minute: None,
        second: None,
        fraction: None,
        tz_hour: None,
        tz_minute: None,
    }
}

/// What `v` reads as: the parts of the timestamp, where at least one was
/// read and an opening quote is closed where reading stopped.
pub open spec fn ts_parse(explicit: bool, v: Seq<u8>) -> Option<TsScan> {
    match ts_run(v, explicit, ts_start()) {
        None => None,
        Some(s) => if ts_blank(s) {
            None
        } else if s.q > 0 && spec_byte_at(v, s.p) != Some(quote_byte(s.q)) {
            None
        } else {
            Some(s)
        },
    }
}

/// The timestamp model.
#[derive(Clone, Copy)]
pub struct Timestamp;

/// A timestamp: any of its parts may be missing.
#[derive(Debug)]
pub struct TimestampValue {
    pub year: Option<i32>,
    pub month: Option<u8>,
    pub day: Option<u8>,
    pub hour: Option<u8>,
    pub minute: Option<u8>,
    pub second: Option<u8>,
    pub fraction: Option<FloatValue>,
    pub tz_hour: Option<i8>,
    pub tz_minute: Option<u8>,
}

pub open spec fn opt_i32(o: Option<i32>) -> Option<int> {
    match o {
        Some(x) => Some(x as int),
        None => None,
    }
}

pub open spec fn opt_i8(o: Option<i8>) -> Option<int> {
    match o {
        Some(x) => Some(x as int),
        None => None,
    }
}

pub open spec fn opt_u8(o: Option<u8>) -> Option<int> {
    match o {
        Some(x) => Some(x as int),
        None => None,
    }
}

/// The fraction of a second as numerator and denominator.
pub open spec fn frac_of(o: Option<FloatValue>) -> Option<(int, int)> {
    match o {
        Some(f) => Some((f.spec_value().spec_num() as int, f.spec_value().spec_den() as int)),
        None => None,
    }
}

/// The fraction of a second, where there is one, is a fraction that is not
/// negative, held with numbers of any size exactly where either of its
/// parts outgrows a `u64`.
pub open spec fn frac_read(o: Option<FloatValue>) -> bool {
    match o {
        Some(f) => f.is_plain() && f.spec_value().spec_is_rational() && !f.spec_value().spec_is_negative()
            && f.spec_value().spec_is_big() == (f.spec_value().spec_num() > u64::MAX || f.spec_value().spec_den() > u64::MAX),
        None => true,
    }
}

impl TimestampValue {
    /// The parts, as the reading state holds them.
    pub open spec fn parts(&self, p: int, q: int) -> TsScan {
        TsScan {
            p: p,
            q: q,
            year: opt_i32(self.year),
            month: opt_u8(self.month),
            day: opt_u8(self.day),
            hour: opt_u8(self.hour),
            minute: opt_u8(self.minute),
            second: opt_u8(self.second),
            fraction: frac_of(self.fraction),
            tz_hour: opt_i8(self.tz_hour),
            tz_minute: opt_u8(self.tz_minute),
        }
    }

    /// No part given.
    pub fn new() -> (r: TimestampValue)
        ensures
            r.year is None && r.month is None && r.day is None && r.hour is None && r.minute is None,
            r.second is None && r.fraction is None && r.tz_hour is None && r.tz_minute is None,
    {
        TimestampValue {
            year: None,
            month: None,
            day: None,
            hour: None,
            minute: None,
            second: None,
            fraction: None,
            tz_hour: None,
            tz_minute: None,
        }
    }

    pub fn year(self, val: i32) -> (r: TimestampValue)
        ensures
            r == (TimestampValue { year: Some(val), ..self }),
    {
        TimestampValue { year: Some(val), ..self }
    }

    pub fn month(self, val: u8) -> (r: TimestampValue)
        ensures
            r == (TimestampValue { month: Some(val), ..self }),
    {
        TimestampValue { month: Some(val), ..self }
    }

    pub fn day(self, val: u8) -> (r: TimestampValue)
        ensures
            r == (TimestampValue { day: Some(val), ..self }),
    {
        TimestampValue { day: Some(val), ..self }
    }

    pub fn hour(self, val: u8) -> (r: TimestampValue)
        ensures
            r == (TimestampValue { hour: Some(val), ..self }),
    {
        TimestampValue { hour: Some(val), ..self }
    }

    pub fn minute(self, val: u8) -> (r: TimestampValue)
        ensures
            r == (TimestampValue { minute: Some(val), ..self }),
    {
        TimestampValue { minute: Some(val), ..self }
    }

    pub fn second(self, val: u8) -> (r: TimestampValue)
        ensures
            r == (TimestampValue { second: Some(val), ..self }),
    {
        TimestampValue { second: Some(val), ..self }
    }

    pub fn fraction(self, val: FloatValue) -> (r: TimestampValue)
        ensures
            r == (TimestampValue { fraction: Some(val), ..self }),
    {
        TimestampValue { fraction: Some(val), ..self }
    }

    pub fn tz_hour(self, val: i8) -> (r: TimestampValue)
        ensures
            r == (TimestampValue { tz_hour: Some(val), ..self }),
    {
        TimestampValue { tz_hour: Some(val), ..self }
    }

    pub fn tz_minute(self, val: u8) -> (r: TimestampValue)
        ensures
            r == (TimestampValue { tz_minute: Some(val), ..self }),
    {
        TimestampValue { tz_minute: Some(val), ..self }
    }
}

impl Tagged for TimestampValue {
    open spec fn spec_tag(&self) -> &'static str {
        TAG
    }

    fn get_tag(&self) -> (r: &'static str) {
        TAG
    }
}

/// Digits are the number they spell, and a longer run of them is no less.
proof fn lemma_dec_value_grows(v: Seq<u8>, a: int, b: int, c: int)
    requires
        0 <= a <= b <= c <= v.len(),
        forall|i: int| a <= i < c ==> is_dec(#[trigger] v[i]),
    ensures
        0 <= dec_value(v.subrange(a, b)) <= dec_value(v.subrange(a, c)),
    decreases c - b,
{
    if b < c {
        lemma_dec_value_grows(v, a, b, c - 1);
        assert(v.subrange(a, c).drop_last() =~= v.subrange(a, c - 1));
        lemma_dec_value_nonneg(v.subrange(a, c - 1));
    } else {
        lemma_dec_value_nonneg(v.subrange(a, b));
    }
}

proof fn lemma_dec_value_nonneg(s: Seq<u8>)
    requires
        forall|i: int| 0 <= i < s.len() ==> is_dec(#[trigger] s[i]),
    ensures
        dec_value(s) >= 0,
    decreases s.len(),
{
    if s.len() > 0 {
        assert forall|i: int| 0 <= i < s.drop_last().len() implies is_dec(#[trigger] s.drop_last()[i]) by {
            assert(s.drop_last()[i] == s[i]);
        }
        lemma_dec_value_nonneg(s.drop_last());
        assert(is_dec(s[s.len() - 1]));
    }
}

proof fn lemma_digits_end(v: Seq<u8>, p: int)
    requires
        0 <= p <= v.len(),
    ensures
        p <= digits_end(v, p) <= v.len(),
        forall|i: int| p <= i < digits_end(v, p) ==> is_dec(#[trigger] v[i]),
        digits_end(v, p) < v.len() ==> !is_dec(v[digits_end(v, p)]),
    decreases v.len() - p,
{
    if p < v.len() && is_dec(v[p]) {
        lemma_digits_end(v, p + 1);
    }
}

/// Where the run of digits from `p` on ends.
fn read_digits_end(value: &[u8], p: usize) -> (r: usize)
    requires
        p <= value@.len(),
    ensures
        r == digits_end(value@, p as int),
{
    let mut i = p;
    while i < value.len() && 0x30 <= value[i] && value[i] <= 0x39
        invariant
            p <= i <= value@.len(),
            digits_end(value@, p as int) == digits_end(value@, i as int),
        decreases value@.len() - i,
    {
        i = i + 1;
    }
    i
}

/// Where the run of spaces and tabs from `p` on ends.
fn read_blanks_end(value: &[u8], p: usize) -> (r: usize)
    requires
        p <= value@.len(),
    ensures
        r == blanks_end(value@, p as int),
        p <= r <= value@.len(),
{
    let mut i = p;
    while i < value.len() && (value[i] == 0x20 || value[i] == 0x09)
        invariant
            p <= i <= value@.len(),
            blanks_end(value@, p as int) == blanks_end(value@, i as int),
        decreases value@.len() - i,
    {
        i = i + 1;
    }
    i
}

impl Timestamp {
    pub fn get_tag() -> (r: &'static str)
        ensures
            r == TAG,
    {
        TAG
    }

    /// Reads the number at `ptr` (see `figure_at`) and moves past it.
    fn parse_figure(&self, ptr: &mut usize, value: &[u8]) -> (r: Option<i64>)
        requires
            *old(ptr) <= value@.len(),
        ensures
            match figure_at(value@, *old(ptr) as int) {
                Some((f, e)) => r == Some(f as i64) && *final(ptr) == e && 0 <= f <= i64::MAX,
                None => r is None,
            },
    {
        let p0 = *ptr;
        let e = read_digits_end(value, p0);
        proof {
            lemma_digits_end(value@, p0 as int);
        }
        if e == p0 {
            return None;
        }
        let mut acc: i64 = 0;
        let mut i = p0;
        assert(value@.subrange(p0 as int, p0 as int) =~= Seq::<u8>::empty());
        while i < e
            invariant
                p0 <= i <= e <= value@.len(),
                e == digits_end(value@, p0 as int),
                forall|j: int| p0 <= j < e ==> is_dec(#[trigger] value@[j]),
                acc == dec_value(value@.subrange(p0 as int, i as int)),
                0 <= acc,
                p0 == *old(ptr),
            decreases e - i,
        {
            let d = (value[i] - 0x30) as i64;
            proof {
                assert(value@.subrange(p0 as int, i + 1).drop_last() =~= value@.subrange(p0 as int, i as int));
                lemma_dec_value_grows(value@, p0 as int, i + 1, e as int);
            }
            if acc > (0x7fff_ffff_ffff_ffff - d) / 10 {
                proof {
                    assert(dec_value(value@.subrange(p0 as int, i + 1)) == acc * 10 + d);
                    assert(acc * 10 + d > 0x7fff_ffff_ffff_ffff) by (nonlinear_arith)
                        requires
                            acc > (0x7fff_ffff_ffff_ffff - d) / 10,
                            0 <= d <= 9,
                    ;
                    assert(dec_value(value@.subrange(p0 as int, e as int)) > i64::MAX);
                    assert(figure_at(value@, p0 as int) is None);
                }
                return None;
            }
            assert(acc * 10 + d <= 0x7fff_ffff_ffff_ffff) by (nonlinear_arith)
                requires
                    acc <= (0x7fff_ffff_ffff_ffff - d) / 10,
                    0 <= d <= 9,
            ;
            acc = acc * 10 + d;
            i = i + 1;
        }
        *ptr = e;
        Some(acc)
    }

    /// Reads the digits at `ptr` as the fraction after a dot (see
    /// `fraction_at`) and moves past them.
    fn parse_fraction(&self, ptr: &mut usize, value: &[u8]) -> (r: Option<FloatValue>)
        requires
            *old(ptr) <= value@.len(),
        ensures
            match fraction_at(value@, *old(ptr) as int) {
                Some((n, d, e)) => r matches Some(f) && frac_read(Some(f)) && frac_of(Some(f)) == Some((n, d))
                    && *final(ptr) == e,
                None => r is None,
            },
    {
        let p0 = *ptr;
        let e = read_digits_end(value, p0);
        proof {
            lemma_digits_end(value@, p0 as int);
        }
        if e == p0 {
            return None;
        }
        let mut num = Mint::new();
        let mut den = Mint::one();
        let mut i = p0;
        assert(value@.subrange(p0 as int, p0 as int) =~= Seq::<u8>::empty());
        while i < e
            invariant
                p0 <= i <= e <= value@.len(),
                forall|j: int| p0 <= j < e ==> is_dec(#[trigger] value@[j]),
                num.spec_value() == dec_value(value@.subrange(p0 as int, i as int)),
                den.spec_value() == pow10((i - p0) as nat),
                num.spec_is_big() == (num.spec_value() > u64::MAX),
                den.spec_is_big() == (den.spec_value() > u64::MAX),
            decreases e - i,
        {
            let d = (value[i] - 0x30) as u32;
            proof {
                assert(value@.subrange(p0 as int, i + 1).drop_last() =~= value@.subrange(p0 as int, i as int));
                lemma_dec_value_nonneg(value@.subrange(p0 as int, i as int));
                assert forall|j: int| 0 <= j < value@.subrange(p0 as int, i as int).len() implies is_dec(
                    #[trigger] value@.subrange(p0 as int, i as int)[j],
                ) by {
                    assert(value@.subrange(p0 as int, i as int)[j] == value@[p0 + j]);
                }
                lemma_dec_value_nonneg(value@.subrange(p0 as int, i as int));
                assert(pow10((i + 1 - p0) as nat) == 10 * pow10((i - p0) as nat));
            }
            num.mul_add(10, d);
            den.mul_add(10, 0);
            i = i + 1;
        }
        *ptr = e;
        proof {
            lemma_pow10_pos((e - p0) as nat);
        }
        let f = crate::model::yaml::float::MaybeBigFraction::new(num, den);
        Some(FloatValue::from(f))
    }
}

/// Where reading a timestamp stands, in values.
pub struct TsReader {
    p: usize,
    q: u8,
    dt: TimestampValue,
}

impl TsReader {
    pub closed spec fn scan(&self) -> TsScan {
        self.dt.parts(self.p as int, self.q as int)
    }
}

/// A step over the opening quote.
fn ts_step_quote(value: &[u8], explicit: bool, st: &mut TsReader) -> (r: u8)
    requires
        old(st).p < value@.len(),
        old(st).q <= 2,
        frac_read(old(st).dt.fraction),
        explicit && old(st).p == 0 && old(st).q == 0 && (value@[0] == 0x27 || value@[0] == 0x22),
    ensures
        final(st).p <= value@.len(),
        final(st).q <= 2,
        frac_read(final(st).dt.fraction),
        r <= 2,
        r == 2 ==> ts_next(value@, explicit, old(st).scan()) is None,
        r < 2 ==> ts_next(value@, explicit, old(st).scan()) == Some((r == 0, final(st).scan())),
        r == 0 ==> final(st).p > old(st).p,
{
    let b = value[0];
    st.p = 1;
    st.q = if b == 0x27 { 1 } else { 2 };
    0
}
/// A step over the first number: an hour where a colon follows, a year
/// otherwise.
fn ts_step_first(value: &[u8], explicit: bool, st: &mut TsReader) -> (r: u8)
    requires
        old(st).p < value@.len(),
        old(st).q <= 2,
        frac_read(old(st).dt.fraction),
        !(explicit && old(st).p == 0 && old(st).q == 0 && (value@[0] == 0x27 || value@[0] == 0x22)) && ts_blank(old(st).scan()),
    ensures
        final(st).p <= value@.len(),
        final(st).q <= 2,
        frac_read(final(st).dt.fraction),
        r <= 2,
        r == 2 ==> ts_next(value@, explicit, old(st).scan()) is None,
        r < 2 ==> ts_next(value@, explicit, old(st).scan()) == Some((r == 0, final(st).scan())),
        r == 0 ==> final(st).p > old(st).p,
{
    let p = st.p;
    let ltz = value[p] == 0x2d;
    let mut ptr = if ltz { p + 1 } else { p };
    let fig = match Timestamp.parse_figure(&mut ptr, value) {
        Some(f) => f,
        None => return 2,
    };
    proof {
        lemma_digits_end(value@, if ltz { p + 1 } else { p as int });
    }
    let colon = match byte_at(value, ptr) {
        Some(c) => c == 0x3a,
        None => false,
    };
    if !ltz && fig < 25 && colon {
        st.dt.hour = Some(fig as u8);
    } else if fig <= 0x7fff_ffff {
        let y = fig as i32;
        st.dt.year = Some(if ltz { -y } else { y });
    }
    st.p = ptr;
    0
}
/// A step over a hyphen and the month or the day.
fn ts_step_date(value: &[u8], explicit: bool, st: &mut TsReader) -> (r: u8)
    requires
        old(st).p < value@.len(),
        old(st).q <= 2,
        frac_read(old(st).dt.fraction),
        !(explicit && old(st).p == 0 && old(st).q == 0 && (value@[0] == 0x27 || value@[0] == 0x22)) && !ts_blank(old(st).scan()) && (ts_date_only(old(st).scan(), false, false) || ts_date_only(old(st).scan(), true, false)),
    ensures
        final(st).p <= value@.len(),
        final(st).q <= 2,
        frac_read(final(st).dt.fraction),
        r <= 2,
        r == 2 ==> ts_next(value@, explicit, old(st).scan()) is None,
        r < 2 ==> ts_next(value@, explicit, old(st).scan()) == Some((r == 0, final(st).scan())),
        r == 0 ==> final(st).p > old(st).p,
{
    let p = st.p;
    if value[p] != 0x2d {
        return 2;
    }
    let mut ptr = p + 1;
    let fig = match Timestamp.parse_figure(&mut ptr, value) {
        Some(f) => f,
        None => return 2,
    };
    proof {
        lemma_digits_end(value@, p + 1);
    }
    if st.dt.month.is_none() {
        if 0 < fig && fig < 13 {
            st.dt.month = Some(fig as u8);
        } else {
            return 2;
        }
    } else if 0 < fig && fig < 32 {
        st.dt.day = Some(fig as u8);
    } else {
        return 2;
    }
    st.p = ptr;
    0
}
/// A step over the separator between date and time, and the hour.
fn ts_step_sep(value: &[u8], explicit: bool, st: &mut TsReader) -> (r: u8)
    requires
        old(st).p < value@.len(),
        old(st).q <= 2,
        frac_read(old(st).dt.fraction),
        !(explicit && old(st).p == 0 && old(st).q == 0 && (value@[0] == 0x27 || value@[0] == 0x22)) && !ts_blank(old(st).scan()) && !(ts_date_only(old(st).scan(), false, false) || ts_date_only(old(st).scan(), true, false)) && ts_date_only(old(st).scan(), true, true),
    ensures
        final(st).p <= value@.len(),
        final(st).q <= 2,
        frac_read(final(st).dt.fraction),
        r <= 2,
        r == 2 ==> ts_next(value@, explicit, old(st).scan()) is None,
        r < 2 ==> ts_next(value@, explicit, old(st).scan()) == Some((r == 0, final(st).scan())),
        r == 0 ==> final(st).p > old(st).p,
{
    let p = st.p;
    let b = value[p];
    if !(b == 0x54 || b == 0x20 || b == 0x74 || b == 0x09) {
        return 2;
    }
    let mut ptr = p + 1;
    let fig = match Timestamp.parse_figure(&mut ptr, value) {
        Some(f) => f,
        None => return 2,
    };
    proof {
        lemma_digits_end(value@, p + 1);
    }
    if fig < 25 {
        st.dt.hour = Some(fig as u8);
    } else {
        return 2;
    }
    st.p = ptr;
    0
}
/// A step over a colon and the minutes or the seconds.
fn ts_step_time(value: &[u8], explicit: bool, st: &mut TsReader) -> (r: u8)
    requires
        old(st).p < value@.len(),
        old(st).q <= 2,
        frac_read(old(st).dt.fraction),
        !(explicit && old(st).p == 0 && old(st).q == 0 && (value@[0] == 0x27 || value@[0] == 0x22)) && !ts_blank(old(st).scan()) && !(ts_date_only(old(st).scan(), false, false) || ts_date_only(old(st).scan(), true, false)) && !ts_date_only(old(st).scan(), true, true) && old(st).dt.hour is Some && old(st).dt.second is None,
    ensures
        final(st).p <= value@.len(),
        final(st).q <= 2,
        frac_read(final(st).dt.fraction),
        r <= 2,
        r == 2 ==> ts_next(value@, explicit, old(st).scan()) is None,
        r < 2 ==> ts_next(value@, explicit, old(st).scan()) == Some((r == 0, final(st).scan())),
        r == 0 ==> final(st).p > old(st).p,
{
    let p = st.p;
    if value[p] != 0x3a {
        return 2;
    }
    let mut ptr = p + 1;
    let fig = match Timestamp.parse_figure(&mut ptr, value) {
        Some(f) => f,
        None => return 2,
    };
    proof {
        lemma_digits_end(value@, p + 1);
    }
    if fig < 61 {
        if st.dt.minute.is_none() {
            st.dt.minute = Some(fig as u8);
        } else {
            st.dt.second = Some(fig as u8);
        }
    } else {
        return 2;
    }
    st.p = ptr;
    0
}
/// A step after the seconds: the fraction and the time zone.
fn ts_step_after(value: &[u8], explicit: bool, st: &mut TsReader) -> (r: u8)
    requires
        old(st).p < value@.len(),
        old(st).q <= 2,
        frac_read(old(st).dt.fraction),
        !(explicit && old(st).p == 0 && old(st).q == 0 && (value@[0] == 0x27 || value@[0] == 0x22)) && !ts_blank(old(st).scan()) && !(ts_date_only(old(st).scan(), false, false) || ts_date_only(old(st).scan(), true, false)) && !ts_date_only(old(st).scan(), true, true) && !(old(st).dt.hour is Some && old(st).dt.second is None) && old(st).dt.hour is Some && old(st).dt.minute is Some && old(st).dt.second is Some,
    ensures
        final(st).p <= value@.len(),
        final(st).q <= 2,
        frac_read(final(st).dt.fraction),
        r <= 2,
        r == 2 ==> ts_next(value@, explicit, old(st).scan()) is None,
        r < 2 ==> ts_next(value@, explicit, old(st).scan()) == Some((r == 0, final(st).scan())),
        r == 0 ==> final(st).p > old(st).p,
{
    let p = st.p;
    let mut ptr = p;
    if value[p] == 0x2e {
        ptr = p + 1;
        match Timestamp.parse_fraction(&mut ptr, value) {
            None => return 2,
            Some(f) => {
                st.dt.fraction = Some(f);
            }
        }
        proof {
            lemma_digits_end(value@, p + 1);
        }
    }
    if ptr >= value.len() {
        st.p = ptr;
        return 1;
    }
    let p2 = read_blanks_end(value, ptr);
    let mut p3 = p2;
    match byte_at(value, p2) {
        Some(b) => {
            if b == 0x7a || b == 0x5a {
                st.dt.tz_hour = Some(0);
                st.dt.tz_minute = Some(0);
                p3 = p2 + 1;
            } else if b == 0x2d || b == 0x2b {
                let mut q = p2 + 1;
                match Timestamp.parse_figure(&mut q, value) {
                    None => return 2,
                    Some(f) => {
                        proof {
                            lemma_digits_end(value@, p2 + 1);
                        }
                        if f < 25 {
                            let h = f as i8;
                            st.dt.tz_hour = Some(if b == 0x2d { -h } else { h });
                            p3 = q;
                        } else {
                            return 2;
                        }
                    }
                }
            }
        }
        None => {}
    }
    if st.dt.tz_hour.is_none() && value.len() > p3 {
        let mut q = p3;
        match Timestamp.parse_figure(&mut q, value) {
            None => return 2,
            Some(f) => {
                proof {
                    lemma_digits_end(value@, p3 as int);
                }
                if f < 25 {
                    st.dt.tz_hour = Some(f as i8);
                    st.p = q;
                    return 0;
                } else {
                    return 2;
                }
            }
        }
    }
    if st.dt.tz_minute.is_none() && value.len() > p3 {
        if value[p3] != 0x3a {
            return 2;
        }
        let mut q = p3 + 1;
        match Timestamp.parse_figure(&mut q, value) {
            None => return 2,
            Some(f) => {
                proof {
                    lemma_digits_end(value@, p3 + 1);
                }
                if f < 61 {
                    st.dt.tz_minute = Some(f as u8);
                    st.p = q;
                    return 0;
                } else {
                    return 2;
                }
            }
        }
    }
    st.p = p3;
    1
}

/// One step of reading a timestamp (see `ts_next`).
fn ts_step(value: &[u8], explicit: bool, st: &mut TsReader) -> (r: u8)
    requires
        old(st).p < value@.len(),
        old(st).q <= 2,
        frac_read(old(st).dt.fraction),
    ensures
        final(st).p <= value@.len(),
        final(st).q <= 2,
        frac_read(final(st).dt.fraction),
        r <= 2,
        r == 2 ==> ts_next(value@, explicit, old(st).scan()) is None,
        r < 2 ==> ts_next(value@, explicit, old(st).scan()) == Some((r == 0, final(st).scan())),
        r == 0 ==> final(st).p > old(st).p,
{
    if explicit && st.p == 0 && st.q == 0 && (value[0] == 0x27 || value[0] == 0x22) {
        return ts_step_quote(value, explicit, st);
    }
    let d = &st.dt;
    let blank = d.year.is_none() && d.month.is_none() && d.day.is_none() && d.hour.is_none() && d.minute.is_none()
        && d.second.is_none() && d.tz_hour.is_none() && d.tz_minute.is_none();
    let no_time = d.hour.is_none() && d.minute.is_none() && d.second.is_none() && d.tz_hour.is_none() && d.tz_minute.is_none();
    if blank {
        ts_step_first(value, explicit, st)
    } else if d.year.is_some() && d.day.is_none() && no_time {
        ts_step_date(value, explicit, st)
    } else if d.year.is_some() && d.month.is_some() && d.day.is_some() && no_time {
        ts_step_sep(value, explicit, st)
    } else if d.hour.is_some() && d.second.is_none() {
        ts_step_time(value, explicit, st)
    } else if d.hour.is_some() && d.minute.is_some() && d.second.is_some() {
        ts_step_after(value, explicit, st)
    } else {
        2
    }
}

impl Timestamp {
    /// Reads a timestamp (see `ts_parse`).
    pub fn decode(&self, explicit: bool, value: &[u8]) -> (r: Result<TaggedValue, ()>)
        ensures
            match ts_parse(explicit, value@) {
                Some(s) => r matches Ok(t) && (t matches TaggedValue::Timestamp(dt) && dt.parts(s.p, s.q) == s
                    && frac_read(dt.fraction)),
                None => r is Err,
            },
    {
        let ghost v = value@;
        let mut st = TsReader { p: 0, q: 0, dt: TimestampValue::new() };
        proof {
            assert(st.scan() == ts_start());
        }
        loop
            invariant_except_break
                ts_run(v, explicit, ts_start()) == ts_run(v, explicit, st.scan()),
            invariant
                v == value@,
                st.p <= v.len(),
                st.q <= 2,
                frac_read(st.dt.fraction),
            ensures
                ts_run(v, explicit, ts_start()) == Some(st.scan()),
                st.p <= v.len(),
                frac_read(st.dt.fraction),
            decreases v.len() - st.p,
        {
            if st.p >= value.len() {
                break;
            }
            let r = ts_step(value, explicit, &mut st);
            if r == 1 {
                break;
            } else if r == 2 {
                return Err(());
            }
        }
        let d = &st.dt;
        if d.year.is_none() && d.month.is_none() && d.day.is_none() && d.hour.is_none() && d.minute.is_none()
            && d.second.is_none() && d.tz_hour.is_none() && d.tz_minute.is_none() {
            return Err(());
        }
        if st.q > 0 {
            let ok = match byte_at(value, st.p) {
                Some(b) => (b == 0x27 && st.q == 1) || (b == 0x22 && st.q == 2),
                None => false,
            };
            if !ok {
                return Err(());
            }
        }
        Ok(TaggedValue::Timestamp(st.dt))
    }
}

/// An integer as Rust writes it with a minimum width and zero padding: the
/// sign (a plus too where `plus`), then zeros up to the width, then the
/// digits.
pub open spec fn padded(n: int, w: nat, plus: bool) -> Seq<u8> {
    let digits = nat_decimal(if n < 0 { (-n) as nat } else { n as nat });
    let sign = if n < 0 { seq![0x2du8] } else if plus { seq![0x2bu8] } else { Seq::<u8>::empty() };
    let zeros: nat = if sign.len() + digits.len() < w { (w - sign.len() - digits.len()) as nat } else { 0 };
    sign + Seq::new(zeros, |i: int| 0x30u8) + digits
}

/// The date as `YYYY-MM-DD` where year, month and day are all given.
pub open spec fn ts_date_text(t: TimestampValue) -> Seq<u8> {
    if t.year is Some && t.month is Some && t.day is Some {
        padded(t.year.unwrap() as int, 4, false) + seq![0x2du8] + padded(t.month.unwrap() as int, 2, false) + seq![0x2du8]
            + padded(t.day.unwrap() as int, 2, false)
    } else {
        Seq::empty()
    }
}

/// The time of day as `HH:MM:SS`, a missing part written as zero.
pub open spec fn ts_time_text(t: TimestampValue) -> Seq<u8> {
    let h = match t.hour { Some(x) => x as int, None => 0 };
    let m = match t.minute { Some(x) => x as int, None => 0 };
    let s = match t.second { Some(x) => x as int, None => 0 };
    padded(h, 2, false) + seq![0x3au8] + padded(m, 2, false) + seq![0x3au8] + padded(s, 2, false)
}

/// The time zone: its hour with a sign, two digits wide above zero and
/// three otherwise, then `:MM` where its minutes are given.
pub open spec fn ts_tz_text(t: TimestampValue) -> Seq<u8> {
    match t.tz_hour {
        Some(x) => (if x > 0 { padded(x as int, 2, true) } else { padded(x as int, 3, true) }) + match t.tz_minute {
            Some(y) => seq![0x3au8] + padded(y as int, 2, false),
            None => Seq::empty(),
        },
        None => Seq::empty(),
    }
}

/// What a timestamp is written as: the date (see `ts_date_text`); where any
/// part of the time of day is given, the time (after a `T` when a date came
/// before), the fraction of a second from its dot on, and the time zone.
/// `None` where the fraction of a second is not a fraction.
pub open spec fn ts_text(t: TimestampValue) -> Option<Seq<u8>> {
    let date = ts_date_text(t);
    if t.hour is None && t.minute is None && t.second is None {
        Some(date)
    } else {
        let sep = if date.len() > 0 { seq![0x54u8] } else { Seq::<u8>::empty() };
        match t.fraction {
            Some(f) => if f.spec_value().spec_is_rational() {
                Some(date + sep + ts_time_text(t) + fraction_text(
                    f.spec_value().spec_is_negative(),
                    f.spec_value().spec_num(),
                    f.spec_value().spec_den(),
                ).drop_first() + ts_tz_text(t))
            } else {
                None
            },
            None => Some(date + sep + ts_time_text(t) + ts_tz_text(t)),
        }
    }
}

/// Appends an integer as `padded` spells it.
fn push_padded(out: &mut Vec<u8>, n: i64, w: usize, plus: bool)
    ensures
        final(out)@ == old(out)@ + padded(n as int, w as nat, plus),
{
    let m: u64 = if n < 0 {
        let x: i128 = -(n as i128);
        x as u64
    } else {
        n as u64
    };
    let digits = u64_decimal(m);
    let ghost before = out@;
    let sign_len: usize = if n < 0 {
        out.push(0x2d);
        1
    } else if plus {
        out.push(0x2b);
        1
    } else {
        0
    };
    let ghost after_sign = out@;
    if digits.len() < w && sign_len < w - digits.len() {
        let zeros = w - sign_len - digits.len();
        let mut i: usize = 0;
        while i < zeros
            invariant
                i <= zeros,
                out@ == after_sign + Seq::new(i as nat, |k: int| 0x30u8),
            decreases zeros - i,
        {
            out.push(0x30);
            i = i + 1;
            assert(out@ =~= after_sign + Seq::new(i as nat, |k: int| 0x30u8));
        }
    }
    let ghost after_zeros = out@;
    let mut rest = digits;
    out.append(&mut rest);
    proof {
        assert(out@ =~= before + padded(n as int, w as nat, plus));
    }
}

/// Appends the date (see `ts_date_text`).
fn push_date(out: &mut Vec<u8>, t: &TimestampValue)
    ensures
        final(out)@ == old(out)@ + ts_date_text(*t),
{
    let ghost before = out@;
    match (t.year, t.month, t.day) {
        (Some(y), Some(m), Some(d)) => {
            push_padded(out, y as i64, 4, false);
            out.push(0x2d);
            push_padded(out, m as i64, 2, false);
            out.push(0x2d);
            push_padded(out, d as i64, 2, false);
        }
        _ => {}
    }
    assert(out@ =~= before + ts_date_text(*t));
}

/// Appends the time of day (see `ts_time_text`).
fn push_time(out: &mut Vec<u8>, t: &TimestampValue)
    ensures
        final(out)@ == old(out)@ + ts_time_text(*t),
{
    let ghost before = out@;
    let h: i64 = match t.hour { Some(x) => x as i64, None => 0 };
    let m: i64 = match t.minute { Some(x) => x as i64, None => 0 };
    let s: i64 = match t.second { Some(x) => x as i64, None => 0 };
    push_padded(out, h, 2, false);
    out.push(0x3a);
    push_padded(out, m, 2, false);
    out.push(0x3a);
    push_padded(out, s, 2, false);
    assert(out@ =~= before + ts_time_text(*t));
}

/// Appends the time zone (see `ts_tz_text`).
fn push_tz(out: &mut Vec<u8>, t: &TimestampValue)
    ensures
        final(out)@ == old(out)@ + ts_tz_text(*t),
{
    let ghost before = out@;
    match t.tz_hour {
        Some(x) => {
            if x > 0 {
                push_padded(out, x as i64, 2, true);
            } else {
                push_padded(out, x as i64, 3, true);
            }
            match t.tz_minute {
                Some(y) => {
                    out.push(0x3a);
                    push_padded(out, y as i64, 2, false);
                }
                None => {}
            }
        }
        None => {}
    }
    assert(out@ =~= before + ts_tz_text(*t));
}

/// Appends the bytes of a string from its second byte on.
fn push_tail(out: &mut Vec<u8>, text: &String)
    requires
        string_bytes(*text).len() > 0,
    ensures
        final(out)@ == old(out)@ + string_bytes(*text).drop_first(),
{
    let bytes = text.as_str().as_bytes();
    let ghost before = out@;
    let mut i: usize = 1;
    assert(bytes@.subrange(1, 1) =~= Seq::<u8>::empty());
    while i < bytes.len()
        invariant
            1 <= i <= bytes@.len(),
            out@ == before + bytes@.subrange(1, i as int),
        decreases bytes@.len() - i,
    {
        out.push(bytes[i]);
        i = i + 1;
        assert(out@ =~= before + bytes@.subrange(1, i as int));
    }
    assert(bytes@.subrange(1, bytes@.len() as int) =~= bytes@.drop_first());
}

impl Timestamp {
    /// Writes the timestamp (see `ts_text`); gives the value back where its
    /// fraction of a second is not a fraction.
    pub fn encode(&self, _renderer: &Renderer, value: TaggedValue, _tags: &[(String, String)]) -> (r: Result<Rope, TaggedValue>)
        ensures
            match value {
                TaggedValue::Timestamp(t) => match ts_text(t) {
                    Some(b) => r matches Ok(rope) && (rope@.len() == 1 && is_string_node(rope@[0], b)),
                    None => r == Err::<Rope, TaggedValue>(value),
                },
                _ => r == Err::<Rope, TaggedValue>(value),
            },
    {
        let t = match value {
            TaggedValue::Timestamp(t) => t,
            other => return Err(other),
        };
        let mut out: Vec<u8> = Vec::new();
        push_date(&mut out, &t);
        if t.hour.is_some() || t.minute.is_some() || t.second.is_some() {
            if out.len() > 0 {
                out.push(0x54);
            }
            push_time(&mut out, &t);
            match &t.fraction {
                Some(f) => match f.format_as_float() {
                    Some(text) => push_tail(&mut out, &text),
                    None => return Err(TaggedValue::Timestamp(t)),
                },
                None => {}
            }
            push_tz(&mut out, &t);
        }
        proof {
            assert(Some(out@) == ts_text(t));
        }
        Ok(Rope::Node([Node::String(EncodedString::String(out))]))
    }
}

impl Model for Timestamp {
    fn is_metamodel(&self) -> (r: bool) {
        false
    }

    open spec fn spec_is_decodable(&self) -> bool {
        true
    }

    open spec fn spec_is_encodable(&self) -> bool {
        true
    }

    fn has_default(&self) -> (r: bool) {
        false
    }

    fn is_sequence(&self) -> (r: bool) {
        false
    }

    fn is_dictionary(&self) -> (r: bool) {
        false
    }

    open spec fn spec_tag(&self) -> &'static str {
        TAG
    }

    fn get_tag(&self) -> (r: &'static str) {
        TAG
    }

    fn is_decodable(&self) -> (r: bool)
        ensures
            r,
    {
        true
    }

    fn is_encodable(&self) -> (r: bool)
        ensures
            r,
    {
        true
    }
}

} // verus!
