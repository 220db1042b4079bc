//! Reading back what the timestamp encoder writes.
use vstd::prelude::*;

use crate::model::bignum::nat_decimal;
use crate::model::yaml::integer::{dec_value, is_dec, lemma_nat_decimal};
use crate::model::bytes::spec_byte_at;
use crate::model::yaml::float::{float_precision, fraction_text, lemma_pow10_pos, pow10};
use crate::model::yaml::float_roundtrip::{frac_rem, lemma_fraction_tail};
use crate::model::yaml::timestamp::{
    blanks_end, digits_end, fraction_at, figure_at, frac_of, opt_i32, opt_i8, opt_u8, padded, ts_after_seconds, ts_blank,
    ts_date_only, ts_date_text, ts_next, ts_parse, ts_run, ts_start, ts_text, ts_time_text, ts_tz_text, TimestampValue, TsScan,
};

verus! {

/// Whether `x` stands in `v` from `p` on.
pub open spec fn stands_at(v: Seq<u8>, p: int, x: Seq<u8>) -> bool {
    0 <= p && p + x.len() <= v.len() && v.subrange(p, p + x.len()) == x
}

/// Whether nothing but the end or a byte that is no digit follows `p`.
pub open spec fn digits_stop(v: Seq<u8>, p: int) -> bool {
    p == v.len() || (0 <= p < v.len() && !is_dec(v[p]))
}

/// `z` zeros.
pub open spec fn zeros(z: nat) -> Seq<u8> {
    Seq::new(z, |i: int| 0x30u8)
}

/// The unsigned part of `padded`: zeros up to the width, then the digits.
pub open spec fn padded_digits(n: nat, w: nat) -> Seq<u8> {
    let digits = nat_decimal(n);
    let z: nat = if digits.len() < w { (w - digits.len()) as nat } else { 0 };
    zeros(z) + digits
}

proof fn lemma_dec_value_zeros(z: nat)
    ensures
        dec_value(zeros(z)) == 0,
    decreases z,
{
    if z > 0 {
        assert(zeros(z).drop_last() =~= zeros((z - 1) as nat));
        lemma_dec_value_zeros((z - 1) as nat);
    }
}

proof fn lemma_dec_value_zeros_prefix(z: nat, s: Seq<u8>)
    ensures
        dec_value(zeros(z) + s) == dec_value(s),
    decreases s.len(),
{
    if s.len() == 0 {
        assert(zeros(z) + s =~= zeros(z));
        lemma_dec_value_zeros(z);
    } else {
        assert((zeros(z) + s).drop_last() =~= zeros(z) + s.drop_last());
        assert((zeros(z) + s).last() == s.last());
        lemma_dec_value_zeros_prefix(z, s.drop_last());
    }
}

/// The unsigned part of `padded` is digits that stand for the number.
pub proof fn lemma_padded_digits(n: nat, w: nat)
    ensures
        padded_digits(n, w).len() >= 1,
        forall|i: int| 0 <= i < padded_digits(n, w).len() ==> is_dec(#[trigger] padded_digits(n, w)[i]),
        dec_value(padded_digits(n, w)) == n,
{
    lemma_nat_decimal(n);
    let digits = nat_decimal(n);
    let z: nat = if digits.len() < w { (w - digits.len()) as nat } else { 0 };
    lemma_dec_value_zeros_prefix(z, digits);
    assert forall|i: int| 0 <= i < padded_digits(n, w).len() implies is_dec(#[trigger] padded_digits(n, w)[i]) by {
        if i >= z {
            assert(padded_digits(n, w)[i] == digits[i - z]);
        }
    }
}

/// `padded` is a sign, then its unsigned part.
pub proof fn lemma_padded_parts(n: int, w: nat, plus: bool)
    ensures
        padded(n, w, plus) == (if n < 0 { seq![0x2du8] } else if plus { seq![0x2bu8] } else { Seq::<u8>::empty() })
            + padded_digits(
            if n < 0 { (-n) as nat } else { n as nat },
            if n < 0 || plus { if w > 0 { (w - 1) as nat } else { 0 } } else { w },
        ),
{
    let m: nat = if n < 0 { (-n) as nat } else { n as nat };
    let sign = if n < 0 { seq![0x2du8] } else if plus { seq![0x2bu8] } else { Seq::<u8>::empty() };
    let w2: nat = if n < 0 || plus { if w > 0 { (w - 1) as nat } else { 0 } } else { w };
    let digits = nat_decimal(m);
    let z1: nat = if sign.len() + digits.len() < w { (w - sign.len() - digits.len()) as nat } else { 0 };
    let z2: nat = if digits.len() < w2 { (w2 - digits.len()) as nat } else { 0 };
    assert(z1 == z2);
    assert(Seq::new(z1, |i: int| 0x30u8) =~= zeros(z2));
    assert(padded(n, w, plus) =~= sign + padded_digits(m, w2));
}

proof fn lemma_digits_end(v: Seq<u8>, p: int, w: int)
    requires
        0 <= p,
        0 <= w,
        p + w <= v.len(),
        forall|i: int| p <= i < p + w ==> is_dec(#[trigger] v[i]),
        digits_stop(v, p + w),
    ensures
        digits_end(v, p) == p + w,
    decreases w,
{
    if w > 0 {
        lemma_digits_end(v, p + 1, w - 1);
    }
}

/// A number written by `padded_digits` is read back as that number.
pub proof fn lemma_figure_padded(v: Seq<u8>, p: int, n: nat, w: nat)
    requires
        stands_at(v, p, padded_digits(n, w)),
        digits_stop(v, p + padded_digits(n, w).len()),
        n <= i64::MAX,
    ensures
        figure_at(v, p) == Some((n as int, p + padded_digits(n, w).len())),
{
    let d = padded_digits(n, w);
    lemma_padded_digits(n, w);
    assert forall|i: int| p <= i < p + d.len() implies is_dec(#[trigger] v[i]) by {
        assert(v[i] == v.subrange(p, p + d.len())[i - p]);
    }
    lemma_digits_end(v, p, d.len() as int);
}

/// What stands somewhere stands there in two halves.
proof fn lemma_stands_split(v: Seq<u8>, p: int, x: Seq<u8>, y: Seq<u8>)
    requires
        stands_at(v, p, x + y),
    ensures
        stands_at(v, p, x),
        stands_at(v, p + x.len(), y),
{
    let w = v.subrange(p, p + (x + y).len());
    assert(w == x + y);
    assert(v.subrange(p, p + x.len()) =~= w.subrange(0, x.len() as int));
    assert(w.subrange(0, x.len() as int) =~= x);
    assert(v.subrange(p + x.len(), p + x.len() + y.len()) =~= w.subrange(x.len() as int, w.len() as int));
    assert(w.subrange(x.len() as int, w.len() as int) =~= y);
}

/// A byte that stands somewhere is the byte there.
proof fn lemma_stands_byte(v: Seq<u8>, p: int, c: u8)
    requires
        stands_at(v, p, seq![c]),
    ensures
        0 <= p < v.len(),
        v[p] == c,
{
    assert(v[p] == v.subrange(p, p + 1)[0]);
}

/// Digits stop before a byte that is no digit.
proof fn lemma_stop_before(v: Seq<u8>, p: int, c: u8)
    requires
        stands_at(v, p, seq![c]),
        !is_dec(c),
    ensures
        digits_stop(v, p),
{
    lemma_stands_byte(v, p, c);
}

/// A reading step that goes on hands the reading to the state it gives.
proof fn lemma_run_step(v: Seq<u8>, explicit: bool, s: TsScan, n: TsScan)
    requires
        0 <= s.p < v.len(),
        ts_next(v, explicit, s) == Some((true, n)),
        s.p < n.p <= v.len(),
    ensures
        ts_run(v, explicit, s) == ts_run(v, explicit, n),
{
}

/// A reading step that stops ends the reading.
proof fn lemma_run_stop(v: Seq<u8>, explicit: bool, s: TsScan, n: TsScan)
    requires
        0 <= s.p < v.len(),
        ts_next(v, explicit, s) == Some((false, n)),
    ensures
        ts_run(v, explicit, s) == Some(n),
{
}

/// A separator, then a number padded to a width: the number is read after
/// the separator.
proof fn lemma_sep_figure(v: Seq<u8>, p: int, c: u8, n: nat, w: nat)
    requires
        stands_at(v, p, seq![c]),
        stands_at(v, p + 1, padded_digits(n, w)),
        digits_stop(v, p + 1 + padded_digits(n, w).len()),
        n <= i64::MAX,
    ensures
        0 <= p < v.len(),
        v[p] == c,
        figure_at(v, p + 1) == Some((n as int, p + 1 + padded_digits(n, w).len())),
        p + 1 + padded_digits(n, w).len() <= v.len(),
{
    lemma_stands_byte(v, p, c);
    lemma_figure_padded(v, p + 1, n, w);
}

/// The year, then a hyphen: the year is read in the first step.
proof fn lemma_year_step(v: Seq<u8>, explicit: bool, y: int)
    requires
        i32::MIN < y <= i32::MAX,
        stands_at(v, 0, padded(y, 4, false)),
        stands_at(v, padded(y, 4, false).len() as int, seq![0x2du8]),
    ensures
        ts_run(v, explicit, ts_start()) == ts_run(
            v,
            explicit,
            TsScan { p: padded(y, 4, false).len() as int, year: Some(y), ..ts_start() },
        ),
{
    let m: nat = if y < 0 { (-y) as nat } else { y as nat };
    let sp: int = if y < 0 { 1 } else { 0 };
    let w2: nat = if y < 0 { 3 } else { 4 };
    let sign = if y < 0 { seq![0x2du8] } else { Seq::<u8>::empty() };
    let d = padded_digits(m, w2);
    lemma_padded_parts(y, 4, false);
    lemma_padded_digits(m, w2);
    let e = padded(y, 4, false).len() as int;
    lemma_stands_split(v, 0, sign, d);
    lemma_stop_before(v, e, 0x2du8);
    lemma_stands_byte(v, e, 0x2du8);
    lemma_figure_padded(v, sp, m, w2);
    if y < 0 {
        lemma_stands_byte(v, 0, 0x2du8);
    } else {
        assert(v[0] == d[0]);
    }
    let n = TsScan { p: e, year: Some(y), ..ts_start() };
    assert(ts_next(v, explicit, ts_start()) == Some((true, n)));
    lemma_run_step(v, explicit, ts_start(), n);
}

/// A hyphen, then the month, read after the year.
proof fn lemma_month_step(v: Seq<u8>, explicit: bool, s: TsScan, n: nat)
    requires
        s.p > 0,
        ts_date_only(s, false, false),
        0 < n < 13,
        stands_at(v, s.p, seq![0x2du8]),
        stands_at(v, s.p + 1, padded_digits(n, 2)),
        digits_stop(v, s.p + 1 + padded_digits(n, 2).len()),
    ensures
        ts_run(v, explicit, s) == ts_run(
            v,
            explicit,
            TsScan { p: s.p + 1 + padded_digits(n, 2).len(), month: Some(n as int), ..s },
        ),
{
    lemma_sep_figure(v, s.p, 0x2du8, n, 2);
    let t = TsScan { p: s.p + 1 + padded_digits(n, 2).len(), month: Some(n as int), ..s };
    assert(ts_next(v, explicit, s) == Some((true, t)));
    lemma_run_step(v, explicit, s, t);
}

/// A hyphen, then the day, read after the month.
proof fn lemma_day_step(v: Seq<u8>, explicit: bool, s: TsScan, n: nat)
    requires
        s.p > 0,
        ts_date_only(s, true, false),
        0 < n < 32,
        stands_at(v, s.p, seq![0x2du8]),
        stands_at(v, s.p + 1, padded_digits(n, 2)),
        digits_stop(v, s.p + 1 + padded_digits(n, 2).len()),
    ensures
        ts_run(v, explicit, s) == ts_run(
            v,
            explicit,
            TsScan { p: s.p + 1 + padded_digits(n, 2).len(), day: Some(n as int), ..s },
        ),
{
    lemma_sep_figure(v, s.p, 0x2du8, n, 2);
    let t = TsScan { p: s.p + 1 + padded_digits(n, 2).len(), day: Some(n as int), ..s };
    assert(ts_next(v, explicit, s) == Some((true, t)));
    lemma_run_step(v, explicit, s, t);
}

/// A `T`, then the hour, read after the date.
proof fn lemma_hour_after_date(v: Seq<u8>, explicit: bool, s: TsScan, n: nat)
    requires
        s.p > 0,
        ts_date_only(s, true, true),
        n < 25,
        stands_at(v, s.p, seq![0x54u8]),
        stands_at(v, s.p + 1, padded_digits(n, 2)),
        digits_stop(v, s.p + 1 + padded_digits(n, 2).len()),
    ensures
        ts_run(v, explicit, s) == ts_run(
            v,
            explicit,
            TsScan { p: s.p + 1 + padded_digits(n, 2).len(), hour: Some(n as int), ..s },
        ),
{
    lemma_sep_figure(v, s.p, 0x54u8, n, 2);
    let t = TsScan { p: s.p + 1 + padded_digits(n, 2).len(), hour: Some(n as int), ..s };
    assert(ts_next(v, explicit, s) == Some((true, t)));
    lemma_run_step(v, explicit, s, t);
}

/// The hour, then a colon: the hour is read in the first step.
proof fn lemma_hour_first(v: Seq<u8>, explicit: bool, n: nat)
    requires
        n < 25,
        stands_at(v, 0, padded_digits(n, 2)),
        stands_at(v, padded_digits(n, 2).len() as int, seq![0x3au8]),
    ensures
        ts_run(v, explicit, ts_start()) == ts_run(
            v,
            explicit,
            TsScan { p: padded_digits(n, 2).len() as int, hour: Some(n as int), ..ts_start() },
        ),
{
    let d = padded_digits(n, 2);
    lemma_padded_digits(n, 2);
    lemma_stop_before(v, d.len() as int, 0x3au8);
    lemma_stands_byte(v, d.len() as int, 0x3au8);
    lemma_figure_padded(v, 0, n, 2);
    assert(v[0] == d[0]);
    let t = TsScan { p: d.len() as int, hour: Some(n as int), ..ts_start() };
    assert(ts_next(v, explicit, ts_start()) == Some((true, t)));
    lemma_run_step(v, explicit, ts_start(), t);
}

/// A colon, then the minutes or the seconds, read after the hour or the
/// minutes.
proof fn lemma_clock_step(v: Seq<u8>, explicit: bool, s: TsScan, n: nat)
    requires
        s.p > 0,
        s.hour is Some,
        s.second is None,
        n < 61,
        stands_at(v, s.p, seq![0x3au8]),
        stands_at(v, s.p + 1, padded_digits(n, 2)),
        digits_stop(v, s.p + 1 + padded_digits(n, 2).len()),
    ensures
        ts_run(v, explicit, s) == ts_run(
            v,
            explicit,
            if s.minute is None {
                TsScan { p: s.p + 1 + padded_digits(n, 2).len(), minute: Some(n as int), ..s }
            } else {
                TsScan { p: s.p + 1 + padded_digits(n, 2).len(), second: Some(n as int), ..s }
            },
        ),
{
    lemma_sep_figure(v, s.p, 0x3au8, n, 2);
    let t = if s.minute is None {
        TsScan { p: s.p + 1 + padded_digits(n, 2).len(), minute: Some(n as int), ..s }
    } else {
        TsScan { p: s.p + 1 + padded_digits(n, 2).len(), second: Some(n as int), ..s }
    };
    assert(ts_next(v, explicit, s) == Some((true, t)));
    lemma_run_step(v, explicit, s, t);
}

/// The fraction of a second that its text after the seconds reads as:
/// digits after a dot over a power of ten; none where there is no text.
pub open spec fn frac_read_back(ft: Seq<u8>) -> Option<(int, int)> {
    if ft.len() == 0 {
        None
    } else {
        Some((dec_value(ft.subrange(1, ft.len() as int)), pow10((ft.len() - 1) as nat)))
    }
}

/// A dot and at least one digit after it, or nothing.
pub open spec fn frac_shape(ft: Seq<u8>) -> bool {
    ft.len() == 0 || (ft.len() >= 2 && ft[0] == 0x2e && forall|i: int| 1 <= i < ft.len() ==> is_dec(#[trigger] ft[i]))
}

/// The sign of a time zone's hour as it is written.
pub open spec fn tz_sign(x: int) -> u8 {
    if x < 0 {
        0x2d
    } else {
        0x2b
    }
}

/// The width of a time zone's hour without its sign.
pub open spec fn tz_width(x: int) -> nat {
    if x > 0 {
        1
    } else {
        2
    }
}

/// The size of a time zone's hour.
pub open spec fn tz_abs(x: int) -> nat {
    if x < 0 {
        (-x) as nat
    } else {
        x as nat
    }
}

/// A time zone as it is written: the signed hour, then its minutes after a
/// colon where they are given.
pub open spec fn tz_written(x: int, mm: Option<nat>) -> Seq<u8> {
    seq![tz_sign(x)] + padded_digits(tz_abs(x), tz_width(x)) + match mm {
        Some(y) => seq![0x3au8] + padded_digits(y, 2),
        None => Seq::<u8>::empty(),
    }
}

/// After the seconds, a fraction's text where there is one, then nothing:
/// reading stops at the end with the fraction.
proof fn lemma_tail_no_tz(v: Seq<u8>, explicit: bool, s: TsScan, ft: Seq<u8>)
    requires
        s.p > 0,
        s.hour is Some,
        s.minute is Some,
        s.second is Some,
        s.fraction is None,
        stands_at(v, s.p, ft),
        s.p + ft.len() == v.len(),
        frac_shape(ft),
    ensures
        ts_run(v, explicit, s) == Some(TsScan { p: v.len() as int, fraction: frac_read_back(ft), ..s }),
{
    if ft.len() > 0 {
        let p1 = s.p + ft.len();
        assert forall|i: int| s.p + 1 <= i < s.p + 1 + (ft.len() - 1) implies is_dec(#[trigger] v[i]) by {
            assert(v[i] == v.subrange(s.p, p1)[i - s.p]);
        }
        lemma_digits_end(v, s.p + 1, ft.len() - 1);
        assert(v.subrange(s.p + 1, p1) =~= ft.subrange(1, ft.len() as int)) by {
            assert forall|i: int| 0 <= i < ft.len() - 1 implies v.subrange(s.p + 1, p1)[i] == ft.subrange(
                1,
                ft.len() as int,
            )[i] by {
                assert(v[s.p + 1 + i] == v.subrange(s.p, p1)[1 + i]);
            }
        }
        assert(v[s.p] == v.subrange(s.p, p1)[0]);
        let n = TsScan { p: v.len() as int, fraction: frac_read_back(ft), ..s };
        assert(ts_after_seconds(v, explicit, s) == Some((false, n)));
        assert(ts_next(v, explicit, s) == Some((false, n)));
        lemma_run_stop(v, explicit, s, n);
    }
}

/// After the seconds, a fraction's text where there is one, then a time
/// zone: reading ends at the end with the fraction and the time zone.
proof fn lemma_tail_tz(v: Seq<u8>, explicit: bool, s: TsScan, ft: Seq<u8>, x: int, mm: Option<nat>)
    requires
        s.p > 0,
        s.hour is Some,
        s.minute is Some,
        s.second is Some,
        s.fraction is None,
        s.tz_hour is None,
        s.tz_minute is None,
        stands_at(v, s.p, ft + tz_written(x, mm)),
        s.p + ft.len() + tz_written(x, mm).len() == v.len(),
        frac_shape(ft),
        -25 < x < 25,
        mm matches Some(y) ==> y < 61,
    ensures
        ts_run(v, explicit, s) == Some(
            TsScan {
                p: v.len() as int,
                fraction: frac_read_back(ft),
                tz_hour: Some(x),
                tz_minute: match mm {
                    Some(y) => Some(y as int),
                    None => None,
                },
                ..s
            },
        ),
{
    let zt = tz_written(x, mm);
    let sg = tz_sign(x);
    let pd = padded_digits(tz_abs(x), tz_width(x));
    let rest = match mm {
        Some(y) => seq![0x3au8] + padded_digits(y, 2),
        None => Seq::<u8>::empty(),
    };
    let p1 = s.p + ft.len();
    let e2 = p1 + 1 + pd.len();
    lemma_stands_split(v, s.p, ft, zt);
    lemma_stands_split(v, p1, seq![sg] + pd, rest);
    lemma_stands_split(v, p1, seq![sg], pd);
    match mm {
        Some(y) => {
            lemma_stands_split(v, e2, seq![0x3au8], padded_digits(y, 2));
            lemma_stop_before(v, e2, 0x3au8);
        },
        None => {},
    }
    lemma_sep_figure(v, p1, sg, tz_abs(x), tz_width(x));
    assert(blanks_end(v, p1) == p1);
    let frac = frac_read_back(ft);
    if ft.len() > 0 {
        assert forall|i: int| s.p + 1 <= i < s.p + 1 + (ft.len() - 1) implies is_dec(#[trigger] v[i]) by {
            assert(v[i] == v.subrange(s.p, p1)[i - s.p]);
        }
        lemma_stop_before(v, p1, sg);
        lemma_digits_end(v, s.p + 1, ft.len() - 1);
        assert(v.subrange(s.p + 1, p1) =~= ft.subrange(1, ft.len() as int)) by {
            assert forall|i: int| 0 <= i < ft.len() - 1 implies v.subrange(s.p + 1, p1)[i] == ft.subrange(
                1,
                ft.len() as int,
            )[i] by {
                assert(v[s.p + 1 + i] == v.subrange(s.p, p1)[1 + i]);
            }
        }
        assert(v[s.p] == v.subrange(s.p, p1)[0]);
        assert(fraction_at(v, s.p + 1) == Some((frac.unwrap().0, frac.unwrap().1, p1)));
    }
    let s3 = TsScan { p: e2, fraction: frac, tz_hour: Some(x), tz_minute: None, ..s };
    match mm {
        Some(y) => {
            lemma_sep_figure(v, e2, 0x3au8, y, 2);
            let n = TsScan { p: v.len() as int, tz_minute: Some(y as int), ..s3 };
            assert(ts_after_seconds(v, explicit, s) == Some((true, n)));
            assert(ts_next(v, explicit, s) == Some((true, n)));
            lemma_run_step(v, explicit, s, n);
        },
        None => {
            assert(e2 == v.len());
            assert(ts_after_seconds(v, explicit, s) == Some((false, s3)));
            assert(ts_next(v, explicit, s) == Some((false, s3)));
            lemma_run_stop(v, explicit, s, s3);
        },
    }
}

/// What stands somewhere in two halves stands there whole.
proof fn lemma_stands_join(v: Seq<u8>, p: int, x: Seq<u8>, y: Seq<u8>)
    requires
        stands_at(v, p, x),
        stands_at(v, p + x.len(), y),
    ensures
        stands_at(v, p, x + y),
{
    assert forall|i: int| 0 <= i < x.len() + y.len() implies v.subrange(p, p + x.len() + y.len())[i] == (x + y)[i] by {
        if i < x.len() {
            assert(v[p + i] == v.subrange(p, p + x.len())[i]);
        } else {
            assert(v[p + i] == v.subrange(p + x.len(), p + x.len() + y.len())[i - x.len()]);
        }
    }
    assert(v.subrange(p, p + x.len() + y.len()) =~= x + y);
}

/// Digits stop before text that starts with a byte that is no digit, and
/// at the end.
proof fn lemma_stop_before_text(v: Seq<u8>, p: int, x: Seq<u8>)
    requires
        stands_at(v, p, x),
        x.len() == 0 ==> p == v.len(),
        x.len() > 0 ==> !is_dec(x[0]),
    ensures
        digits_stop(v, p),
{
    if x.len() > 0 {
        assert(v[p] == v.subrange(p, p + x.len())[0]);
    }
}

/// A number written by `padded` without a sign is written by
/// `padded_digits`.
proof fn lemma_padded_unsigned(n: nat, w: nat)
    ensures
        padded(n as int, w, false) == padded_digits(n, w),
{
    lemma_padded_parts(n as int, w, false);
    assert(Seq::<u8>::empty() + padded_digits(n, w) =~= padded_digits(n, w));
}

/// The time zone's text, piece by piece.
proof fn lemma_tz_text(t: TimestampValue)
    ensures
        match t.tz_hour {
            Some(x) => ts_tz_text(t) == tz_written(
                x as int,
                match t.tz_minute {
                    Some(y) => Some(y as nat),
                    None => None,
                },
            ),
            None => ts_tz_text(t) == Seq::<u8>::empty(),
        },
{
    match t.tz_hour {
        Some(x) => {
            let w: nat = if x > 0 { 2 } else { 3 };
            lemma_padded_parts(x as int, w, true);
            let sign = if x < 0 { seq![0x2du8] } else { seq![0x2bu8] };
            assert(sign == seq![tz_sign(x as int)]);
            match t.tz_minute {
                Some(y) => {
                    lemma_padded_unsigned(y as nat, 2);
                },
                None => {},
            }
            let mm: Option<nat> = match t.tz_minute {
                Some(y) => Some(y as nat),
                None => None,
            };
            assert(ts_tz_text(t) =~= tz_written(x as int, mm));
        },
        None => {},
    }
}

/// A whole date, followed by something that is no digit or by the end:
/// year, month and day are read in three steps.
proof fn lemma_date_run(v: Seq<u8>, explicit: bool, t: TimestampValue)
    requires
        t.year matches Some(y) && y > i32::MIN,
        t.month matches Some(m) && 0 < m < 13,
        t.day matches Some(d) && 0 < d < 32,
        stands_at(v, 0, ts_date_text(t)),
        digits_stop(v, ts_date_text(t).len() as int),
    ensures
        ts_run(v, explicit, ts_start()) == ts_run(
            v,
            explicit,
            TsScan {
                p: ts_date_text(t).len() as int,
                year: Some(t.year.unwrap() as int),
                month: Some(t.month.unwrap() as int),
                day: Some(t.day.unwrap() as int),
                ..ts_start()
            },
        ),
{
    let y = t.year.unwrap() as int;
    let m = t.month.unwrap() as nat;
    let d = t.day.unwrap() as nat;
    let ys = padded(y, 4, false);
    let ms = padded_digits(m, 2);
    let ds = padded_digits(d, 2);
    let dash = seq![0x2du8];
    lemma_padded_unsigned(m, 2);
    lemma_padded_unsigned(d, 2);
    assert(ts_date_text(t) == ys + dash + ms + dash + ds);
    lemma_stands_split(v, 0, ys + dash + ms + dash, ds);
    lemma_stands_split(v, 0, ys + dash + ms, dash);
    lemma_stands_split(v, 0, ys + dash, ms);
    lemma_stands_split(v, 0, ys, dash);
    let p1 = ys.len() as int;
    let p2 = p1 + 1 + ms.len();
    let p3 = p2 + 1 + ds.len();
    lemma_stop_before(v, p2, 0x2du8);
    lemma_year_step(v, explicit, y);
    let s1 = TsScan { p: p1, year: Some(y), ..ts_start() };
    lemma_month_step(v, explicit, s1, m);
    let s2 = TsScan { p: p2, month: Some(m as int), ..s1 };
    lemma_day_step(v, explicit, s2, d);
}

/// The text after the hour: a colon and the minutes, a colon and the
/// seconds, then the fraction's text and the time zone: read to the end.
proof fn lemma_clock_run(v: Seq<u8>, explicit: bool, s: TsScan, t: TimestampValue, ft: Seq<u8>)
    requires
        s.p > 0,
        s.hour is Some,
        s.minute is None,
        s.second is None,
        s.fraction is None,
        s.tz_hour is None,
        s.tz_minute is None,
        t.minute matches Some(m) && m < 61,
        t.second matches Some(c) && c < 61,
        t.tz_hour matches Some(x) ==> -25 < x < 25,
        t.tz_minute matches Some(y) ==> t.tz_hour is Some && y < 61,
        frac_shape(ft),
        stands_at(v, s.p, seq![0x3au8]),
        stands_at(v, s.p + 1, padded_digits(t.minute.unwrap() as nat, 2)),
        stands_at(v, s.p + 1 + padded_digits(t.minute.unwrap() as nat, 2).len(), seq![0x3au8]),
        stands_at(v, s.p + 2 + padded_digits(t.minute.unwrap() as nat, 2).len(), padded_digits(t.second.unwrap() as nat, 2)),
        stands_at(
            v,
            s.p + 2 + padded_digits(t.minute.unwrap() as nat, 2).len() + padded_digits(t.second.unwrap() as nat, 2).len(),
            ft + ts_tz_text(t),
        ),
        v.len() == s.p + 2 + padded_digits(t.minute.unwrap() as nat, 2).len() + padded_digits(t.second.unwrap() as nat, 2).len()
            + ft.len() + ts_tz_text(t).len(),
    ensures
        ts_run(v, explicit, s) == Some(
            TsScan {
                p: v.len() as int,
                minute: opt_u8(t.minute),
                second: opt_u8(t.second),
                fraction: frac_read_back(ft),
                tz_hour: opt_i8(t.tz_hour),
                tz_minute: opt_u8(t.tz_minute),
                ..s
            },
        ),
{
    let mi = t.minute.unwrap() as nat;
    let se = t.second.unwrap() as nat;
    let ms = padded_digits(mi, 2);
    let ss = padded_digits(se, 2);
    let zt = ts_tz_text(t);
    let p1 = s.p + 1 + ms.len();
    let p2 = p1 + 1 + ss.len();
    lemma_tz_text(t);
    lemma_stop_before(v, p1, 0x3au8);
    lemma_stands_split(v, p2, ft, zt);
    if ft.len() > 0 {
        lemma_stop_before_text(v, p2, ft);
    } else if zt.len() > 0 {
        let x = t.tz_hour.unwrap() as int;
        let mm: Option<nat> = match t.tz_minute {
            Some(y) => Some(y as nat),
            None => None,
        };
        assert(zt[0] == tz_sign(x));
        lemma_stop_before_text(v, p2, zt);
    } else {
        lemma_stop_before_text(v, p2, ft);
    }
    lemma_clock_step(v, explicit, s, mi);
    let s1 = TsScan { p: p1, minute: Some(mi as int), ..s };
    lemma_clock_step(v, explicit, s1, se);
    let s2 = TsScan { p: p2, second: Some(se as int), ..s1 };
    match t.tz_hour {
        Some(x) => {
            let mm: Option<nat> = match t.tz_minute {
                Some(y) => Some(y as nat),
                None => None,
            };
            lemma_tail_tz(v, explicit, s2, ft, x as int, mm);
        },
        None => {
            assert(ft + zt =~= ft);
            lemma_tail_no_tz(v, explicit, s2, ft);
        },
    }
}

/// What a timestamp must be for its text to read back as it: the date
/// whole or missing, the time of day whole or missing, at least one of
/// them; each part in the range that reading takes, a year above the least
/// `i32`; a fraction of a second only with a time of day, below one and
/// not negative, whose decimal expansion ends within the digits written; a
/// time zone only with a time of day, its hour within a day, its minutes
/// only with its hour.
pub open spec fn ts_readable(t: TimestampValue) -> bool {
    let date = t.year is Some || t.month is Some || t.day is Some;
    let time = t.hour is Some || t.minute is Some || t.second is Some;
    &&& date ==> t.year is Some && t.month is Some && t.day is Some
    &&& time ==> t.hour is Some && t.minute is Some && t.second is Some
    &&& date || time
    &&& t.year matches Some(y) ==> y > i32::MIN
    &&& t.month matches Some(m) ==> 0 < m < 13
    &&& t.day matches Some(d) ==> 0 < d < 32
    &&& t.hour matches Some(h) ==> h < 25
    &&& t.minute matches Some(m) ==> m < 61
    &&& t.second matches Some(c) ==> c < 61
    &&& t.fraction matches Some(f) ==> {
        let v = f.spec_value();
        &&& time
        &&& v.spec_is_rational()
        &&& !v.spec_is_negative()
        &&& v.spec_num() < v.spec_den()
        &&& frac_rem(v.spec_num() % v.spec_den(), v.spec_den(), float_precision()) == 0
    }
    &&& t.tz_hour matches Some(x) ==> time && -25 < x < 25
    &&& t.tz_minute matches Some(y) ==> t.tz_hour is Some && y < 61
}

/// Whether a reading state holds the parts of a timestamp: each of them
/// as it is, the fraction of a second as a fraction of the same value.
pub open spec fn reads_as(s: TsScan, t: TimestampValue) -> bool {
    &&& s.year == opt_i32(t.year)
    &&& s.month == opt_u8(t.month)
    &&& s.day == opt_u8(t.day)
    &&& s.hour == opt_u8(t.hour)
    &&& s.minute == opt_u8(t.minute)
    &&& s.second == opt_u8(t.second)
    &&& s.tz_hour == opt_i8(t.tz_hour)
    &&& s.tz_minute == opt_u8(t.tz_minute)
    &&& match (frac_of(t.fraction), s.fraction) {
        (None, None) => true,
        (Some((n, d)), Some((n2, d2))) => d2 > 0 && n2 * d == n * d2,
        _ => false,
    }
}

/// The text after the seconds that the fraction of a second is written as.
pub open spec fn frac_written(t: TimestampValue) -> Seq<u8> {
    match t.fraction {
        Some(f) => fraction_text(false, f.spec_value().spec_num(), f.spec_value().spec_den()).drop_first(),
        None => Seq::empty(),
    }
}

/// The time of day after the hour, read to the end of the text.
proof fn lemma_time_run(v: Seq<u8>, explicit: bool, s: TsScan, t: TimestampValue, p: int)
    requires
        ts_readable(t),
        t.hour is Some,
        s.p > 0,
        s.hour == opt_u8(t.hour),
        s.minute is None,
        s.second is None,
        s.fraction is None,
        s.tz_hour is None,
        s.tz_minute is None,
        p + padded_digits(t.hour.unwrap() as nat, 2).len() == s.p,
        stands_at(v, p, ts_time_text(t) + frac_written(t) + ts_tz_text(t)),
        v.len() == p + ts_time_text(t).len() + frac_written(t).len() + ts_tz_text(t).len(),
    ensures
        ts_run(v, explicit, s) == Some(
            TsScan {
                p: v.len() as int,
                minute: opt_u8(t.minute),
                second: opt_u8(t.second),
                fraction: frac_read_back(frac_written(t)),
                tz_hour: opt_i8(t.tz_hour),
                tz_minute: opt_u8(t.tz_minute),
                ..s
            },
        ),
{
    let hs = padded_digits(t.hour.unwrap() as nat, 2);
    let ms = padded_digits(t.minute.unwrap() as nat, 2);
    let ss = padded_digits(t.second.unwrap() as nat, 2);
    let c = seq![0x3au8];
    let ft = frac_written(t);
    let zt = ts_tz_text(t);
    lemma_padded_unsigned(t.hour.unwrap() as nat, 2);
    lemma_padded_unsigned(t.minute.unwrap() as nat, 2);
    lemma_padded_unsigned(t.second.unwrap() as nat, 2);
    assert(ts_time_text(t) == hs + c + ms + c + ss);
    lemma_stands_split(v, p, ts_time_text(t) + ft, zt);
    lemma_stands_split(v, p, ts_time_text(t), ft);
    lemma_stands_split(v, p, hs + c + ms + c, ss);
    lemma_stands_split(v, p, hs + c + ms, c);
    lemma_stands_split(v, p, hs + c, ms);
    lemma_stands_split(v, p, hs, c);
    let q = p + ts_time_text(t).len();
    lemma_stands_join(v, q, ft, zt);
    match t.fraction {
        Some(f) => {
            lemma_fraction_tail(f.spec_value().spec_num(), f.spec_value().spec_den());
        },
        None => {},
    }
    lemma_clock_run(v, explicit, s, t, ft);
}

/// The reading state at the end of a timestamp's text of length `len`.
pub open spec fn read_back(t: TimestampValue, len: int) -> TsScan {
    TsScan {
        p: len,
        q: 0,
        year: opt_i32(t.year),
        month: opt_u8(t.month),
        day: opt_u8(t.day),
        hour: opt_u8(t.hour),
        minute: opt_u8(t.minute),
        second: opt_u8(t.second),
        fraction: frac_read_back(frac_written(t)),
        tz_hour: opt_i8(t.tz_hour),
        tz_minute: opt_u8(t.tz_minute),
    }
}

/// The time of day alone, read through.
proof fn lemma_run_time_only(b: Seq<u8>, explicit: bool, t: TimestampValue)
    requires
        ts_readable(t),
        t.year is None,
        t.hour is Some,
        b == ts_time_text(t) + frac_written(t) + ts_tz_text(t),
    ensures
        ts_run(b, explicit, ts_start()) == Some(read_back(t, b.len() as int)),
{
    let time = ts_time_text(t);
    let ft = frac_written(t);
    let zt = ts_tz_text(t);
    let h = t.hour.unwrap() as nat;
    let hs = padded_digits(h, 2);
    let rest = seq![0x3au8] + padded_digits(t.minute.unwrap() as nat, 2) + seq![0x3au8] + padded(
        t.second.unwrap() as int,
        2,
        false,
    );
    assert(b.subrange(0, b.len() as int) =~= b);
    lemma_stands_split(b, 0, time + ft, zt);
    lemma_stands_split(b, 0, time, ft);
    lemma_padded_unsigned(h, 2);
    lemma_padded_unsigned(t.minute.unwrap() as nat, 2);
    assert(time == hs + rest);
    assert(seq![0x3au8] + rest.drop_first() =~= rest);
    lemma_stands_split(b, 0, hs, rest);
    lemma_stands_split(b, hs.len() as int, seq![0x3au8], rest.drop_first());
    lemma_hour_first(b, explicit, h);
    let s1 = TsScan { p: hs.len() as int, hour: Some(h as int), ..ts_start() };
    lemma_time_run(b, explicit, s1, t, 0);
}

/// A date alone, read through.
proof fn lemma_run_date_only(b: Seq<u8>, explicit: bool, t: TimestampValue)
    requires
        ts_readable(t),
        t.year is Some,
        t.hour is None,
        b == ts_date_text(t),
    ensures
        ts_run(b, explicit, ts_start()) == Some(read_back(t, b.len() as int)),
{
    assert(b.subrange(0, b.len() as int) =~= b);
    lemma_date_run(b, explicit, t);
}

/// After the date, a `T` and the time of day, read through.
proof fn lemma_run_after_date(b: Seq<u8>, explicit: bool, sd: TsScan, t: TimestampValue)
    requires
        ts_readable(t),
        t.hour is Some,
        sd.p > 0,
        ts_date_only(sd, true, true),
        sd.fraction is None,
        sd.year == opt_i32(t.year),
        sd.month == opt_u8(t.month),
        sd.day == opt_u8(t.day),
        sd.q == 0,
        stands_at(b, sd.p, seq![0x54u8]),
        stands_at(b, sd.p + 1, ts_time_text(t) + frac_written(t) + ts_tz_text(t)),
        b.len() == sd.p + 1 + ts_time_text(t).len() + frac_written(t).len() + ts_tz_text(t).len(),
    ensures
        ts_run(b, explicit, sd) == Some(read_back(t, b.len() as int)),
{
    let time = ts_time_text(t);
    let ft = frac_written(t);
    let zt = ts_tz_text(t);
    let h = t.hour.unwrap() as nat;
    let hs = padded_digits(h, 2);
    let p: int = sd.p + 1;
    let rest = seq![0x3au8] + padded_digits(t.minute.unwrap() as nat, 2) + seq![0x3au8] + padded(
        t.second.unwrap() as int,
        2,
        false,
    );
    lemma_stands_split(b, p, time + ft, zt);
    lemma_stands_split(b, p, time, ft);
    lemma_padded_unsigned(h, 2);
    lemma_padded_unsigned(t.minute.unwrap() as nat, 2);
    assert(time == hs + rest);
    assert(seq![0x3au8] + rest.drop_first() =~= rest);
    lemma_stands_split(b, p, hs, rest);
    lemma_stands_split(b, p + hs.len(), seq![0x3au8], rest.drop_first());
    lemma_stop_before(b, p + hs.len(), 0x3au8);
    lemma_hour_after_date(b, explicit, sd, h);
    let s4 = TsScan { p: p + hs.len(), hour: Some(h as int), ..sd };
    lemma_time_run(b, explicit, s4, t, p);
}

/// A date, a `T`, then a time of day, read through.
proof fn lemma_run_both(b: Seq<u8>, explicit: bool, t: TimestampValue)
    requires
        ts_readable(t),
        t.year is Some,
        t.hour is Some,
        b == ts_date_text(t) + seq![0x54u8] + ts_time_text(t) + frac_written(t) + ts_tz_text(t),
    ensures
        ts_run(b, explicit, ts_start()) == Some(read_back(t, b.len() as int)),
{
    let date = ts_date_text(t);
    let sep = seq![0x54u8];
    let time = ts_time_text(t);
    let ft = frac_written(t);
    let zt = ts_tz_text(t);
    assert(b.subrange(0, b.len() as int) =~= b);
    lemma_stands_split(b, 0, date + sep + time + ft, zt);
    lemma_stands_split(b, 0, date + sep + time, ft);
    lemma_stands_split(b, 0, date + sep, time);
    lemma_stands_split(b, 0, date, sep);
    lemma_stop_before(b, date.len() as int, 0x54u8);
    lemma_date_run(b, explicit, t);
    let sd = TsScan {
        p: date.len() as int,
        year: opt_i32(t.year),
        month: opt_u8(t.month),
        day: opt_u8(t.day),
        ..ts_start()
    };
    let p: int = date.len() as int + 1;
    lemma_stands_join(b, p, time, ft);
    lemma_stands_join(b, p, time + ft, zt);
    lemma_run_after_date(b, explicit, sd, t);
}

/// The text that a timestamp is written as reads back as the timestamp,
/// with or without an explicit tag: every part as it was, the fraction of
/// a second as a fraction of the same value; where the date and the time
/// of day are each whole or missing, not both missing, each part is in the
/// range that reading takes, a fraction of a second is below one, not
/// negative, and ends within the digits written, and a time zone comes with
/// a time of day and its minutes with its hour.
pub proof fn law_timestamp_roundtrip(t: TimestampValue, explicit: bool)
    requires
        ts_readable(t),
    ensures
        ts_text(t) matches Some(b) && (ts_parse(explicit, b) matches Some(s) && s.p == b.len() && s.q == 0 && reads_as(
            s,
            t,
        )),
{
    let date = ts_date_text(t);
    let ft = frac_written(t);
    let zt = ts_tz_text(t);
    let time = ts_time_text(t);
    let b = if t.hour is None {
        date
    } else if t.year is Some {
        date + seq![0x54u8] + time + ft + zt
    } else {
        time + ft + zt
    };
    if t.year is Some {
        assert(date.len() > 0);
    } else {
        assert(date.len() == 0);
        assert(date + Seq::<u8>::empty() + time =~= time);
    }
    assert(ts_text(t) == Some(b));
    if t.hour is None {
        lemma_run_date_only(b, explicit, t);
    } else if t.year is Some {
        lemma_run_both(b, explicit, t);
    } else {
        lemma_run_time_only(b, explicit, t);
    }
    let s = read_back(t, b.len() as int);
    assert(!ts_blank(s));
    assert(ts_parse(explicit, b) == Some(s));
    match t.fraction {
        Some(f) => {
            lemma_fraction_tail(f.spec_value().spec_num(), f.spec_value().spec_den());
            lemma_pow10_pos((ft.len() - 1) as nat);
        },
        None => {},
    }
}

/// Whether a byte is the letter `z` in either case.
pub open spec fn is_zone_z(b: u8) -> bool {
    b == 0x7a || b == 0x5a
}

/// Whether two texts are the same but that, where one has a `z` or a `Z`,
/// the other may have either.
pub open spec fn same_but_z_case(v1: Seq<u8>, v2: Seq<u8>) -> bool {
    &&& v1.len() == v2.len()
    &&& forall|k: int| 0 <= k < v1.len() ==> (#[trigger] v1[k] == v2[k] || (is_zone_z(v1[k]) && is_zone_z(v2[k])))
}

proof fn lemma_z_case_digits(v1: Seq<u8>, v2: Seq<u8>, p: int)
    requires
        same_but_z_case(v1, v2),
    ensures
        digits_end(v1, p) == digits_end(v2, p),
        blanks_end(v1, p) == blanks_end(v2, p),
        0 <= p <= v1.len() ==> p <= digits_end(v1, p) <= v1.len() && v1.subrange(p, digits_end(v1, p)) == v2.subrange(
            p,
            digits_end(v1, p),
        ),
    decreases v1.len() - p,
{
    if 0 <= p < v1.len() {
        assert(v1[p] == v2[p] || (is_zone_z(v1[p]) && is_zone_z(v2[p])));
        lemma_z_case_digits(v1, v2, p + 1);
        let e = digits_end(v1, p);
        if is_dec(v1[p]) {
            assert(v1[p] == v2[p]);
            assert(v1.subrange(p, e) =~= seq![v1[p]] + v1.subrange(p + 1, e));
            assert(v2.subrange(p, e) =~= seq![v2[p]] + v2.subrange(p + 1, e));
        } else {
            assert(v1.subrange(p, e) =~= v2.subrange(p, e));
        }
    } else if p == v1.len() {
        assert(v1.subrange(p, p) =~= v2.subrange(p, p));
    }
}

proof fn lemma_z_case_figures(v1: Seq<u8>, v2: Seq<u8>)
    requires
        same_but_z_case(v1, v2),
    ensures
        forall|p: int| #[trigger] figure_at(v1, p) == figure_at(v2, p),
        forall|p: int| #[trigger] fraction_at(v1, p) == fraction_at(v2, p),
        forall|p: int| #[trigger] blanks_end(v1, p) == blanks_end(v2, p),
{
    assert forall|p: int| #[trigger] figure_at(v1, p) == figure_at(v2, p) by {
        lemma_z_case_digits(v1, v2, p);
    }
    assert forall|p: int| #[trigger] fraction_at(v1, p) == fraction_at(v2, p) by {
        lemma_z_case_digits(v1, v2, p);
    }
    assert forall|p: int| #[trigger] blanks_end(v1, p) == blanks_end(v2, p) by {
        lemma_z_case_digits(v1, v2, p);
    }
}

proof fn lemma_z_case_next(v1: Seq<u8>, v2: Seq<u8>, explicit: bool, s: TsScan)
    requires
        same_but_z_case(v1, v2),
        0 <= s.p < v1.len(),
    ensures
        ts_next(v1, explicit, s) == ts_next(v2, explicit, s),
{
    lemma_z_case_figures(v1, v2);
    assert(v1[s.p] == v2[s.p] || (is_zone_z(v1[s.p]) && is_zone_z(v2[s.p])));
    assert(v1[0] == v2[0] || (is_zone_z(v1[0]) && is_zone_z(v2[0])));
    assert forall|k: int| #[trigger] spec_byte_at(v1, k) == spec_byte_at(v2, k) || (spec_byte_at(v1, k) matches Some(a)
        && spec_byte_at(v2, k) matches Some(b) && is_zone_z(a) && is_zone_z(b)) by {
        if 0 <= k < v1.len() {
            assert(v1[k] == v2[k] || (is_zone_z(v1[k]) && is_zone_z(v2[k])));
        }
    }
    if s.hour is Some && s.minute is Some && s.second is Some {
        lemma_z_case_after_seconds(v1, v2, explicit, s);
    }
}

proof fn lemma_blanks_end_from(v: Seq<u8>, p: int)
    ensures
        p <= blanks_end(v, p),
    decreases v.len() - p,
{
    if 0 <= p < v.len() && (v[p] == 0x20 || v[p] == 0x09) {
        lemma_blanks_end_from(v, p + 1);
    }
}

proof fn lemma_z_case_after_seconds(v1: Seq<u8>, v2: Seq<u8>, explicit: bool, s: TsScan)
    requires
        same_but_z_case(v1, v2),
        0 <= s.p < v1.len(),
    ensures
        ts_after_seconds(v1, explicit, s) == ts_after_seconds(v2, explicit, s),
{
    lemma_z_case_figures(v1, v2);
    assert(v1[s.p] == v2[s.p] || (is_zone_z(v1[s.p]) && is_zone_z(v2[s.p])));
    let (p1, frac, ok) = if v1[s.p] == 0x2e {
        match fraction_at(v1, s.p + 1) {
            None => (s.p, s.fraction, false),
            Some((n, d, e)) => (e, Some((n, d)), true),
        }
    } else {
        (s.p, s.fraction, true)
    };
    let (u1, ufrac, uok) = if v2[s.p] == 0x2e {
        match fraction_at(v2, s.p + 1) {
            None => (s.p, s.fraction, false),
            Some((n, d, e)) => (e, Some((n, d)), true),
        }
    } else {
        (s.p, s.fraction, true)
    };
    assert(p1 == u1 && frac == ufrac && ok == uok);
    lemma_z_case_digits(v1, v2, s.p + 1);
    if ok && p1 < v1.len() {
        lemma_blanks_end_from(v1, p1);
        let p2 = blanks_end(v1, p1);
        assert(blanks_end(v2, p1) == p2);
        if 0 <= p2 < v1.len() {
            assert(v1[p2] == v2[p2] || (is_zone_z(v1[p2]) && is_zone_z(v2[p2])));
        }
        let (p3, tzh, tzm, ok2) = match spec_byte_at(v1, p2) {
            Some(b) => if b == 0x7a || b == 0x5a {
                (p2 + 1, Some(0int), Some(0int), true)
            } else if b == 0x2d || b == 0x2b {
                match figure_at(v1, p2 + 1) {
                    None => (p2, s.tz_hour, s.tz_minute, false),
                    Some((f, e)) => if f < 25 {
                        (e, Some(if b == 0x2d { -f } else { f }), s.tz_minute, true)
                    } else {
                        (p2, s.tz_hour, s.tz_minute, false)
                    },
                }
            } else {
                (p2, s.tz_hour, s.tz_minute, true)
            },
            None => (p2, s.tz_hour, s.tz_minute, true),
        };
        let (q3, uzh, uzm, uk2) = match spec_byte_at(v2, p2) {
            Some(b) => if b == 0x7a || b == 0x5a {
                (p2 + 1, Some(0int), Some(0int), true)
            } else if b == 0x2d || b == 0x2b {
                match figure_at(v2, p2 + 1) {
                    None => (p2, s.tz_hour, s.tz_minute, false),
                    Some((f, e)) => if f < 25 {
                        (e, Some(if b == 0x2d { -f } else { f }), s.tz_minute, true)
                    } else {
                        (p2, s.tz_hour, s.tz_minute, false)
                    },
                }
            } else {
                (p2, s.tz_hour, s.tz_minute, true)
            },
            None => (p2, s.tz_hour, s.tz_minute, true),
        };
        assert(p3 == q3 && tzh == uzh && tzm == uzm && ok2 == uk2);
        lemma_z_case_digits(v1, v2, p2 + 1);
        assert(p3 >= 0);
        if 0 <= p3 < v1.len() {
            assert(v1[p3] == v2[p3] || (is_zone_z(v1[p3]) && is_zone_z(v2[p3])));
            assert(figure_at(v1, p3) == figure_at(v2, p3));
            assert(figure_at(v1, p3 + 1) == figure_at(v2, p3 + 1));
        }
    }
}

proof fn lemma_z_case_run(v1: Seq<u8>, v2: Seq<u8>, explicit: bool, s: TsScan)
    requires
        same_but_z_case(v1, v2),
    ensures
        ts_run(v1, explicit, s) == ts_run(v2, explicit, s),
    decreases v1.len() - s.p,
{
    if 0 <= s.p < v1.len() {
        lemma_z_case_next(v1, v2, explicit, s);
        match ts_next(v1, explicit, s) {
            Some((go, n)) => {
                if go && n.p > s.p && n.p <= v1.len() {
                    lemma_z_case_run(v1, v2, explicit, n);
                }
            },
            None => {},
        }
    }
}

/// A time zone of UTC may be written `Z` as well as `z`: a timestamp text
/// reads the same whatever the case of each `z` in it.
pub proof fn law_timestamp_zone_letter_either_case(explicit: bool, v1: Seq<u8>, v2: Seq<u8>)
    requires
        same_but_z_case(v1, v2),
    ensures
        ts_parse(explicit, v1) == ts_parse(explicit, v2),
{
    lemma_z_case_run(v1, v2, explicit, ts_start());
    match ts_run(v1, explicit, ts_start()) {
        Some(s) => {
            if 0 <= s.p < v1.len() {
                assert(v1[s.p] == v2[s.p] || (is_zone_z(v1[s.p]) && is_zone_z(v2[s.p])));
            }
        },
        None => {},
    }
}

/// After the seconds, and a fraction where there is one, a `z` or a `Z`
/// closing the text reads as the time zone of UTC: hour and minute nought,
/// and reading stops after it.
pub proof fn law_timestamp_utc_designator(v: Seq<u8>, explicit: bool, s: TsScan)
    requires
        s.hour is Some,
        s.minute is Some,
        s.second is Some,
        0 <= s.p < v.len(),
        is_zone_z(v.last()),
        v[s.p] == 0x2e ==> (fraction_at(v, s.p + 1) matches Some((n, d, e)) && e == v.len() - 1),
        v[s.p] != 0x2e ==> s.p == v.len() - 1,
    ensures
        match ts_next(v, explicit, s) {
            Some((go, t)) => {
                &&& !go
                &&& t.p == v.len()
                &&& t.tz_hour == Some(0int) && t.tz_minute == Some(0int)
                &&& t.year == s.year && t.month == s.month && t.day == s.day
                &&& t.hour == s.hour && t.minute == s.minute && t.second == s.second
                &&& v[s.p] != 0x2e ==> t.fraction == s.fraction
                &&& v[s.p] == 0x2e ==> (fraction_at(v, s.p + 1) matches Some((a, b, e)) && t.fraction == Some((a, b)))
            },
            None => false,
        },
{
    let n = v.len() - 1;
    assert(blanks_end(v, n) == n);
}

} // verus!
