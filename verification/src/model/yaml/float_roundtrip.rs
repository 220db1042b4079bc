//! Reading back what the float encoder writes: the decimal text of a
//! fraction reads as the same number, where its expansion ends within the
//! digits that are written.
use vstd::prelude::*;

use crate::model::bignum::{lemma_nat_digits_small, nat_decimal, nat_digits};
use crate::model::yaml::float::float_may_start;
use crate::model::yaml::bool::starts3;
use crate::model::yaml::integer::{dec_value, is_dec};
use crate::model::yaml::float::{
    float_next, float_parse, float_precision, float_run, float_start, frac_digits, fraction_text, lemma_frac_digits_small,
    lemma_pow10_pos, pow10, trim_zeros, FloatFlags, FloatScan,
};

verus! {

/// The number that decimal digits (values 0 to 9, most significant first)
/// stand for.
pub open spec fn digits_number(d: Seq<u8>) -> nat
    decreases d.len(),
{
    if d.len() == 0 {
        0
    } else {
        digits_number(d.drop_last()) * 10 + d.last() as nat
    }
}

/// Reading digits after `acc`, one at a time: each multiplies by ten and
/// adds itself.
pub open spec fn digits_acc(acc: int, d: Seq<u8>) -> int
    decreases d.len(),
{
    if d.len() == 0 {
        acc
    } else {
        digits_acc(acc * 10 + d[0] as int, d.drop_first())
    }
}

proof fn lemma_digits_acc_push(acc: int, d: Seq<u8>, x: u8)
    ensures
        digits_acc(acc, d.push(x)) == digits_acc(acc, d) * 10 + x as int,
    decreases d.len(),
{
    if d.len() > 0 {
        assert(d.push(x).drop_first() =~= d.drop_first().push(x));
        assert(d.push(x)[0] == d[0]);
        lemma_digits_acc_push(acc * 10 + d[0] as int, d.drop_first(), x);
        assert(digits_acc(acc, d.push(x)) == digits_acc(acc * 10 + d[0] as int, d.drop_first().push(x)));
        assert(digits_acc(acc, d) == digits_acc(acc * 10 + d[0] as int, d.drop_first()));
    } else {
        assert(d.push(x).drop_first() =~= Seq::<u8>::empty());
        assert(d.push(x)[0] == x);
        assert(digits_acc(acc, d.push(x)) == digits_acc(acc * 10 + x as int, Seq::<u8>::empty()));
    }
}

proof fn lemma_pow10_step(k: nat)
    ensures
        pow10(k + 1) == pow10(k) * 10,
{
    assert(pow10(k + 1) == 10 * pow10(k));
}

/// Reading digits after `acc` gives `acc` shifted past them plus their number.
pub proof fn lemma_digits_acc(acc: int, d: Seq<u8>)
    ensures
        digits_acc(acc, d) == acc * pow10(d.len()) + digits_number(d),
    decreases d.len(),
{
    if d.len() > 0 {
        let e = d.drop_last();
        assert(e.push(d.last()) =~= d);
        lemma_digits_acc_push(acc, e, d.last());
        lemma_digits_acc(acc, e);
        lemma_pow10_step(e.len());
        let p = pow10(e.len());
        assert((acc * p + digits_number(e)) * 10 + d.last() as int == acc * (p * 10) + (digits_number(e) * 10
            + d.last() as nat)) by (nonlinear_arith);
    }
}

/// The decimal digits of `n` stand for `n`.
pub proof fn lemma_nat_digits_number(n: nat)
    ensures
        digits_number(nat_digits(n)) == n,
    decreases n,
{
    if n >= 10 {
        lemma_nat_digits_number(n / 10);
        let d = nat_digits(n);
        assert(d == nat_digits(n / 10).push((n % 10) as u8));
        assert(d.drop_last() =~= nat_digits(n / 10));
        assert(d.last() == (n % 10) as u8);
        assert(((n % 10) as u8) as nat == n % 10);
        assert((n / 10) * 10 + n % 10 == n) by (nonlinear_arith);
        assert(digits_number(d) == digits_number(d.drop_last()) * 10 + d.last() as nat);
    } else {
        let d = nat_digits(n);
        assert(d == seq![n as u8]);
        assert(d.drop_last() =~= Seq::<u8>::empty());
        assert(digits_number(d) == digits_number(d.drop_last()) * 10 + d.last() as nat);
    }
}

/// What is left of `r / den` after the digits that `frac_digits` gives.
pub open spec fn frac_rem(r: nat, den: nat, n: nat) -> nat
    decreases n,
{
    if n == 0 || r == 0 || den == 0 {
        r
    } else {
        frac_rem((r * 10) % den, den, (n - 1) as nat)
    }
}

/// The digits of `r / den`, and what is left, account for all of it.
proof fn lemma_frac_digits_value(r: nat, den: nat, n: nat)
    requires
        r < den,
    ensures
        r * pow10(frac_digits(r, den, n).len()) == den * digits_number(frac_digits(r, den, n)) + frac_rem(r, den, n),
    decreases n,
{
    let d = frac_digits(r, den, n);
    if n == 0 || r == 0 || den == 0 {
        assert(d.len() == 0);
        assert(pow10(0) == 1);
        assert(digits_number(d) == 0);
        assert(frac_rem(r, den, n) == r);
    } else {
        let q0 = (r * 10) / den;
        let r1 = (r * 10) % den;
        assert(q0 < 10 && r1 < den) by (nonlinear_arith)
            requires
                r < den,
                den > 0,
                q0 == (r * 10) / den,
                r1 == (r * 10) % den,
        ;
        assert(r * 10 == den * q0 + r1) by (nonlinear_arith)
            requires
                den > 0,
                q0 == (r * 10) / den,
                r1 == (r * 10) % den,
        ;
        let rest = frac_digits(r1, den, (n - 1) as nat);
        lemma_frac_digits_value(r1, den, (n - 1) as nat);
        assert(d == seq![q0 as u8] + rest);
        lemma_digits_number_front(q0 as u8, rest);
        lemma_pow10_step(rest.len());
        let p = pow10(rest.len());
        let m = frac_rem(r1, den, (n - 1) as nat);
        assert(r * (p * 10) == den * ((q0 as u8) as nat * p + digits_number(rest)) + m) by (nonlinear_arith)
            requires
                r * 10 == den * q0 + r1,
                r1 * p == den * digits_number(rest) + m,
                q0 < 10,
        ;
        assert(d.len() == rest.len() + 1);
        assert(pow10(d.len()) == p * 10);
        assert(frac_rem(r, den, n) == m);
        assert(digits_number(d) == (q0 as u8) as nat * p + digits_number(rest));
    }
}

/// A first digit counts its place.
proof fn lemma_digits_number_front(x: u8, d: Seq<u8>)
    ensures
        digits_number(seq![x] + d) == x as nat * pow10(d.len()) + digits_number(d),
    decreases d.len(),
{
    if d.len() == 0 {
        assert(seq![x] + d =~= seq![x]);
        assert(seq![x].drop_last() =~= Seq::<u8>::empty());
        assert(digits_number(seq![x]) == digits_number(seq![x].drop_last()) * 10 + seq![x].last() as nat);
        assert(pow10(0) == 1);
    } else {
        let e = d.drop_last();
        assert((seq![x] + d).drop_last() =~= seq![x] + e);
        assert((seq![x] + d).last() == d.last());
        assert(digits_number(seq![x] + d) == digits_number(seq![x] + e) * 10 + d.last() as nat);
        assert(digits_number(d) == digits_number(e) * 10 + d.last() as nat);
        lemma_digits_number_front(x, e);
        lemma_pow10_step(e.len());
        let p = pow10(e.len());
        assert((x as nat * p + digits_number(e)) * 10 + d.last() as nat == x as nat * (p * 10) + (digits_number(e) * 10
            + d.last() as nat)) by (nonlinear_arith);
    }
}

/// Trailing zeros leave the number, shifted, as it was.
proof fn lemma_trim_zeros_value(d: Seq<u8>)
    ensures
        trim_zeros(d).len() <= d.len(),
        digits_number(trim_zeros(d)) * pow10((d.len() - trim_zeros(d).len()) as nat) == digits_number(d),
        trim_zeros(d) =~= d.take(trim_zeros(d).len() as int),
    decreases d.len(),
{
    if d.len() > 0 && d.last() == 0 {
        let e = d.drop_last();
        lemma_trim_zeros_value(e);
        let t = trim_zeros(e);
        let z = (e.len() - t.len()) as nat;
        lemma_pow10_step(z);
        assert(digits_number(t) * (pow10(z) * 10) == (digits_number(t) * pow10(z)) * 10) by (nonlinear_arith);
        assert(((d.len() - t.len()) as nat) == z + 1);
        assert(e.take(t.len() as int) =~= d.take(t.len() as int));
    } else {
        assert(d.take(d.len() as int) =~= d);
    }
}

/// The reading state after digits: the number grows with them, and so does
/// the denominator after the dot.
pub open spec fn after_digits(s: FloatScan, d: Seq<u8>, frac: bool) -> FloatScan {
    let num = digits_acc(s.num, d);
    let den = if frac { s.den * pow10(d.len()) } else { s.den };
    FloatScan {
        p: s.p + d.len(),
        num: num,
        den: den,
        num_big: s.num_big || num > u64::MAX,
        den_big: if frac { s.den_big || den > u64::MAX } else { s.den_big },
        f: if frac { s.f } else { FloatFlags { actual: s.f.actual || d.len() > 0, ..s.f } },
        ..s
    }
}

proof fn lemma_digits_acc_one(acc: int, d0: u8)
    ensures
        digits_acc(acc, seq![d0]) == acc * 10 + d0,
{
    reveal_with_fuel(digits_acc, 2);
    assert(seq![d0].drop_first() =~= Seq::<u8>::empty());
    assert(seq![d0][0] == d0);
}

/// One digit moves the state as `after_digits` says.
#[verifier::rlimit(40)]
proof fn lemma_digit_step(v: Seq<u8>, explicit: bool, base60: bool, optional_dot: bool, s: FloatScan, d0: u8, frac: bool)
    requires
        0 <= s.p < v.len(),
        d0 < 10,
        v[s.p] == d0 + 0x30,
        s.f.sign,
        s.f.num,
        !s.f.e,
        s.f.dot == frac,
    ensures
        float_run(v, explicit, base60, optional_dot, s) == float_run(
            v,
            explicit,
            base60,
            optional_dot,
            after_digits(s, seq![d0], frac),
        ),
{
    let (code, n) = float_next(v, explicit, base60, optional_dot, s);
    let t = after_digits(s, seq![d0], frac);
    lemma_digits_acc_one(s.num, d0);
    assert(pow10(1) == 10) by {
        assert(pow10(0) == 1);
    }
    assert(code == 0);
    assert(n == t);
}

/// Digits after one digit: the states compose.
proof fn lemma_after_digits_split(s: FloatScan, d: Seq<u8>, frac: bool)
    requires
        d.len() > 0,
        s.num >= 0,
        s.den >= 1,
    ensures
        after_digits(after_digits(s, seq![d[0]], frac), d.drop_first(), frac) == after_digits(s, d, frac),
{
    let rest = d.drop_first();
    let d0 = d[0];
    let s1 = after_digits(s, seq![d0], frac);
    lemma_digits_acc_one(s.num, d0);
    assert(pow10(1) == 10) by {
        assert(pow10(0) == 1);
    }
    let num1 = s.num * 10 + d0;
    assert(digits_acc(s.num, d) == digits_acc(num1, rest));
    lemma_digits_acc(num1, rest);
    lemma_pow10_pos(rest.len());
    assert(num1 * pow10(rest.len()) >= num1) by (nonlinear_arith)
        requires
            num1 >= 0,
            pow10(rest.len()) >= 1,
    ;
    lemma_pow10_step(rest.len());
    assert(s.den * 10 * pow10(rest.len()) == s.den * pow10(d.len())) by (nonlinear_arith)
        requires
            pow10(d.len()) == pow10(rest.len()) * 10,
    ;
    assert(s.den * 10 * pow10(rest.len()) >= s.den * 10) by (nonlinear_arith)
        requires
            s.den >= 1,
            pow10(rest.len()) >= 1,
    ;
    assert(s.den * pow10(1) == s.den * 10);
}

/// Reading a run of digits (before or after the dot) moves the state as
/// `after_digits` says.
proof fn lemma_run_digits(
    v: Seq<u8>,
    explicit: bool,
    base60: bool,
    optional_dot: bool,
    s: FloatScan,
    d: Seq<u8>,
    frac: bool,
)
    requires
        0 <= s.p,
        s.p + d.len() <= v.len(),
        forall|i: int| 0 <= i < d.len() ==> #[trigger] d[i] < 10 && v[s.p + i] == d[i] + 0x30,
        s.f.sign,
        s.f.num,
        !s.f.e,
        s.f.dot == frac,
        s.num >= 0,
        s.den >= 1,
        s.num > u64::MAX ==> s.num_big,
        s.den > u64::MAX ==> s.den_big,
    ensures
        float_run(v, explicit, base60, optional_dot, s) == float_run(v, explicit, base60, optional_dot, after_digits(s, d, frac)),
    decreases d.len(),
{
    if d.len() == 0 {
        assert(digits_acc(s.num, d) == s.num);
        assert(pow10(0) == 1);
        assert(after_digits(s, d, frac).f == s.f);
        assert(after_digits(s, d, frac) == s);
    } else {
        let d0 = d[0];
        assert(d0 < 10 && v[s.p + 0] == d0 + 0x30);
        lemma_digit_step(v, explicit, base60, optional_dot, s, d0, frac);
        let s1 = after_digits(s, seq![d0], frac);
        let rest = d.drop_first();
        assert forall|i: int| 0 <= i < rest.len() implies #[trigger] rest[i] < 10 && v[s1.p + i] == rest[i] + 0x30 by {
            assert(rest[i] == d[i + 1]);
        }
        assert(s1.num >= 0 && s1.den >= 1) by {
            lemma_digits_acc_one(s.num, d0);
            assert(pow10(1) == 10) by {
                assert(pow10(0) == 1);
            }
        }
        lemma_run_digits(v, explicit, base60, optional_dot, s1, rest, frac);
        lemma_after_digits_split(s, d, frac);
    }
}

/// No spelling of not-a-number or of infinity starts with a digit.
proof fn lemma_digit_not_word(x: Seq<u8>)
    requires
        x.len() > 0,
        0x30 <= x[0] <= 0x39,
    ensures
        !starts3(x, seq![0x6eu8, 0x61, 0x6e], seq![0x4eu8, 0x61, 0x4e], seq![0x4eu8, 0x41, 0x4e]),
        !starts3(x, seq![0x69u8, 0x6e, 0x66], seq![0x49u8, 0x6e, 0x66], seq![0x49u8, 0x4e, 0x46]),
{
    if x.len() >= 3 {
        assert(x.subrange(0, 3)[0] == x[0]);
    }
    assert(seq![0x6eu8, 0x61, 0x6e][0] == 0x6e);
    assert(seq![0x4eu8, 0x61, 0x4e][0] == 0x4e);
    assert(seq![0x4eu8, 0x41, 0x4e][0] == 0x4e);
    assert(seq![0x69u8, 0x6e, 0x66][0] == 0x69);
    assert(seq![0x49u8, 0x6e, 0x66][0] == 0x49);
    assert(seq![0x49u8, 0x4e, 0x46][0] == 0x49);
}

/// The state once the sign (if any) is read and a number is known to come.
pub open spec fn signed_start(neg: bool) -> FloatScan {
    let s0 = float_start();
    FloatScan {
        p: if neg { 1 } else { 0 },
        f: FloatFlags { sign: true, neg: neg, num: true, ..s0.f },
        ..s0
    }
}

/// Reading an optional minus and a first digit.
#[verifier::rlimit(40)]
proof fn lemma_start_steps(v: Seq<u8>, explicit: bool, base60: bool, optional_dot: bool, neg: bool)
    requires
        v.len() > (if neg { 1int } else { 0int }),
        neg ==> v[0] == 0x2d,
        0x30 <= v[if neg { 1int } else { 0int }] <= 0x39,
    ensures
        float_run(v, explicit, base60, optional_dot, float_start()) == float_run(
            v,
            explicit,
            base60,
            optional_dot,
            signed_start(neg),
        ),
{
    let s0 = float_start();
    let sp: int = if neg { 1 } else { 0 };
    let s1 = FloatScan { p: sp, f: FloatFlags { sign: true, neg: neg, ..s0.f }, ..s0 };
    let (c1, n1) = float_next(v, explicit, base60, optional_dot, s0);
    assert(c1 == 0 && n1 == s1);
    assert(float_run(v, explicit, base60, optional_dot, s0) == float_run(v, explicit, base60, optional_dot, s1));
    lemma_digit_not_word(v.skip(sp));
    let (c2, n2) = float_next(v, explicit, base60, optional_dot, s1);
    assert(c2 == 0 && n2 == signed_start(neg));
}

/// Reading the dot.
#[verifier::rlimit(40)]
proof fn lemma_dot_step(v: Seq<u8>, explicit: bool, base60: bool, optional_dot: bool, s: FloatScan)
    requires
        0 <= s.p < v.len(),
        v[s.p] == 0x2e,
        s.f.sign,
        !s.f.dot,
    ensures
        float_run(v, explicit, base60, optional_dot, s) == float_run(
            v,
            explicit,
            base60,
            optional_dot,
            FloatScan { p: s.p + 1, f: FloatFlags { dot: true, ..s.f }, ..s },
        ),
{
    let (c, n) = float_next(v, explicit, base60, optional_dot, s);
    assert(c == 0);
}

/// The spelling of digit values.
pub open spec fn ascii_of(d: Seq<u8>) -> Seq<u8> {
    d.map_values(|x: u8| (x + 0x30) as u8)
}

/// The fractional digits that the encoder writes: the expansion without
/// its trailing zeros, or a single zero.
pub open spec fn written_frac(num: nat, den: nat) -> Seq<u8> {
    let t = trim_zeros(frac_digits(num % den, den, float_precision()));
    if t.len() == 0 {
        seq![0u8]
    } else {
        t
    }
}

/// The text of a fraction, piece by piece.
proof fn lemma_text_parts(neg: bool, num: nat, den: nat)
    requires
        den > 0,
    ensures
        ({
            let v = fraction_text(neg, num, den);
            let a = nat_digits(num / den);
            let b = written_frac(num, den);
            let sp: int = if neg { 1 } else { 0 };
            &&& v.len() == sp + a.len() + 1 + b.len()
            &&& neg ==> v[0] == 0x2d
            &&& forall|i: int| 0 <= i < a.len() ==> #[trigger] a[i] < 10 && v[sp + i] == a[i] + 0x30
            &&& v[sp + a.len()] == 0x2e
            &&& forall|i: int| 0 <= i < b.len() ==> #[trigger] b[i] < 10 && v[sp + a.len() + 1 + i] == b[i] + 0x30
            &&& a.len() >= 1
        }),
{
    let v = fraction_text(neg, num, den);
    let a = nat_digits(num / den);
    let r = num % den;
    assert(r < den) by (nonlinear_arith)
        requires
            den > 0,
            r == num % den,
    ;
    let dd = frac_digits(r, den, float_precision());
    let t = trim_zeros(dd);
    let b = written_frac(num, den);
    lemma_nat_digits_small(num / den);
    lemma_frac_digits_small(r, den, float_precision());
    lemma_trim_zeros_value(dd);
    let sign: Seq<u8> = if neg { seq![0x2du8] } else { Seq::empty() };
    let tail: Seq<u8> = if t.len() == 0 { seq![0x30u8] } else { t.map_values(|d: u8| (d + 0x30) as u8) };
    assert(v == sign + nat_decimal(num / den) + seq![0x2eu8] + tail);
    assert(tail =~= ascii_of(b));
    let sp: int = if neg { 1 } else { 0 };
    assert forall|i: int| 0 <= i < b.len() implies #[trigger] b[i] < 10 && v[sp + a.len() + 1 + i] == b[i] + 0x30 by {
        if t.len() > 0 {
            assert(t[i] == dd[i]);
        }
    }
}

/// The written fractional digits stand for what is left of `num / den`
/// after its whole part, over a power of ten.
proof fn lemma_written_frac_value(num: nat, den: nat)
    requires
        den > 0,
        frac_rem(num % den, den, float_precision()) == 0,
    ensures
        (num % den) * pow10(written_frac(num, den).len()) == den * digits_number(written_frac(num, den)),
        written_frac(num, den).len() >= 1,
        forall|i: int| 0 <= i < written_frac(num, den).len() ==> #[trigger] written_frac(num, den)[i] < 10,
{
    let r = num % den;
    assert(r < den) by (nonlinear_arith)
        requires
            den > 0,
            r == num % den,
    ;
    let b = written_frac(num, den);
    let pm = pow10(b.len());
    let dd = frac_digits(r, den, float_precision());
    let t = trim_zeros(dd);
    lemma_frac_digits_small(r, den, float_precision());
    lemma_frac_digits_value(r, den, float_precision());
    lemma_trim_zeros_value(dd);
    let z = (dd.len() - t.len()) as nat;
    lemma_pow10_pos(z);
    lemma_pow10_sum(t.len(), z);
    if t.len() == 0 {
        assert(digits_number(t) == 0);
        assert(digits_number(dd) == 0 * pow10(z));
        assert(digits_number(dd) == 0);
        lemma_pow10_pos(dd.len());
        assert(r == 0) by (nonlinear_arith)
            requires
                r * pow10(dd.len()) == den * 0,
                pow10(dd.len()) >= 1,
        ;
        assert(b == seq![0u8]);
        assert(digits_number(b) == 0) by {
            assert(b.drop_last() =~= Seq::<u8>::empty());
        }
    } else {
        assert(b == t);
        assert forall|i: int| 0 <= i < b.len() implies #[trigger] b[i] < 10 by {
            assert(t[i] == dd[i]);
        }
        assert(r * pm == den * digits_number(t)) by (nonlinear_arith)
            requires
                r * (pm * pow10(z)) == den * (digits_number(t) * pow10(z)),
                pow10(z) >= 1,
        ;
    }
}

/// Digit values, spelled, read as the number they stand for.
proof fn lemma_dec_value_ascii(d: Seq<u8>)
    requires
        forall|i: int| 0 <= i < d.len() ==> #[trigger] d[i] < 10,
    ensures
        dec_value(ascii_of(d)) == digits_number(d),
    decreases d.len(),
{
    if d.len() > 0 {
        assert(ascii_of(d).drop_last() =~= ascii_of(d.drop_last()));
        lemma_dec_value_ascii(d.drop_last());
        assert(ascii_of(d).last() == (d.last() + 0x30) as u8);
    }
}

/// The text of a fraction below one from its dot on: the dot, then digits
/// that spell the fraction over a power of ten, where its expansion ends
/// within the digits that are written.
pub proof fn lemma_fraction_tail(num: nat, den: nat)
    requires
        num < den,
        frac_rem(num % den, den, float_precision()) == 0,
    ensures
        ({
            let t = fraction_text(false, num, den).drop_first();
            &&& t.len() >= 2
            &&& t[0] == 0x2e
            &&& forall|i: int| 1 <= i < t.len() ==> is_dec(#[trigger] t[i])
            &&& dec_value(t.subrange(1, t.len() as int)) * den == num * pow10((t.len() - 1) as nat)
        }),
{
    let v = fraction_text(false, num, den);
    let a = nat_digits(num / den);
    let b = written_frac(num, den);
    assert(num / den == 0 && num % den == num) by (nonlinear_arith)
        requires
            num < den,
    ;
    lemma_text_parts(false, num, den);
    lemma_written_frac_value(num, den);
    assert(a.len() == 1);
    let t = v.drop_first();
    assert(t.subrange(1, t.len() as int) =~= ascii_of(b)) by {
        assert forall|i: int| 0 <= i < b.len() implies t.subrange(1, t.len() as int)[i] == ascii_of(b)[i] by {
            assert(v[1 + 1 + i] == b[i] + 0x30);
        }
    }
    assert forall|i: int| 1 <= i < t.len() implies is_dec(#[trigger] t[i]) by {
        assert(v[1 + 1 + (i - 1)] == b[i - 1] + 0x30);
        assert(b[i - 1] < 10);
    }
    lemma_dec_value_ascii(b);
}

/// The encoder's decimal text of a fraction `num / den` reads back, with
/// or without an explicit tag, in YAML 1.2 and in 1.1, as a fraction `n / d`
/// of the same value, where the decimal expansion of `num / den` ends within
/// the sixteen digits that are written; the sign is kept, but for zero,
/// which reads as not negative.
pub proof fn law_float_roundtrip(neg: bool, num: nat, den: nat, explicit: bool, base60: bool, optional_dot: bool)
    requires
        den > 0,
        frac_rem(num % den, den, float_precision()) == 0,
    ensures
        match float_parse(explicit, fraction_text(neg, num, den), base60, optional_dot) {
            Some(Some((kind, negative, n, d, _))) => kind == 2 && negative == (neg && num != 0) && d > 0 && n * den
                == num * d,
            _ => false,
        },
{
    let v = fraction_text(neg, num, den);
    let a = nat_digits(num / den);
    let b = written_frac(num, den);
    let sp: int = if neg { 1 } else { 0 };
    lemma_text_parts(neg, num, den);
    assert(a[0] < 10 && v[sp + 0] == a[0] + 0x30);
    lemma_start_steps(v, explicit, base60, optional_dot, neg);
    let s2 = signed_start(neg);
    lemma_run_digits(v, explicit, base60, optional_dot, s2, a, false);
    let s3 = after_digits(s2, a, false);
    lemma_dot_step(v, explicit, base60, optional_dot, s3);
    let s4 = FloatScan { p: s3.p + 1, f: FloatFlags { dot: true, ..s3.f }, ..s3 };
    lemma_digits_acc(0, a);
    lemma_nat_digits_number(num / den);
    lemma_pow10_pos(a.len());
    assert(s4.num >= 0);
    assert(s4.num > u64::MAX ==> s4.num_big);
    lemma_run_digits(v, explicit, base60, optional_dot, s4, b, true);
    let s5 = after_digits(s4, b, true);
    assert(s5.p == v.len());
    assert(float_run(v, explicit, base60, optional_dot, s5) == Some(Some(s5)));
    lemma_digits_acc(s4.num, b);
    let ip = num / den;
    let r = num % den;
    let m = b.len();
    let pm = pow10(m);
    lemma_pow10_pos(m);
    assert(s5.num == ip * pm + digits_number(b));
    assert(s5.den == pm);
    assert(r < den && num == ip * den + r) by (nonlinear_arith)
        requires
            den > 0,
            ip == num / den,
            r == num % den,
    ;
    lemma_written_frac_value(num, den);
    assert((ip * pm + digits_number(b)) * den == num * pm) by (nonlinear_arith)
        requires
            r * pm == den * digits_number(b),
            num == ip * den + r,
    ;
    assert(num != 0 <==> s5.num != 0) by (nonlinear_arith)
        requires
            s5.num * den == num * pm,
            den > 0,
            pm >= 1,
    ;
}

/// Powers of ten add their exponents.
proof fn lemma_pow10_sum(a: nat, b: nat)
    ensures
        pow10(a + b) == pow10(a) * pow10(b),
    decreases b,
{
    if b > 0 {
        lemma_pow10_sum(a, (b - 1) as nat);
        lemma_pow10_step((a + b - 1) as nat);
        lemma_pow10_step((b - 1) as nat);
        assert(pow10(a) * pow10((b - 1) as nat) * 10 == pow10(a) * (pow10((b - 1) as nat) * 10)) by (nonlinear_arith);
    } else {
        assert(pow10(0) == 1);
    }
}

} // verus!
