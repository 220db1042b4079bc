//! `!!float`: numbers with a fractional part, held exactly as fractions,
//! with not-a-number and the infinities.
use vstd::prelude::*;
use vstd::string::StringSliceAdditionalSpecFns;
use vstd::utf8::{is_leading_byte_width_1, partial_valid_utf8, partial_valid_utf8_extend_ascii_block, valid_utf8};

use crate::model::bignum::{
    ascii_digits, big_add_small, big_decimal_digits, big_div_rem, big_div_small, big_mul_small, digits_from_u64,
    digits_gt_one, digits_to_u64, digits_value, digits_zero_from, lemma_nat_digits_small, nat_decimal, nat_digits,
};
use crate::model::bytes::{byte_at, lemma_u8_flag, only_blanks_from, spec_byte_at, starts_with_at, string_bytes};
use crate::model::renderer::is_string_node;
use crate::model::style::CommonStyles;
use crate::model::text::utf8_string;
use crate::model::yaml::bool::{starts3, starts_with_any};
use crate::model::yaml::integer::{int_closes, is_dec, sexagesimal_group};
use crate::model::{issued_prefix, model_issue_rope, EncodedString, Model, Node, Renderer, Rope, Tagged, TaggedValue};

verus! {

pub const TAG: &'static str = "tag:yaml.org,2002:float";

/// A natural number of any size that remembers whether it ever outgrew a
/// `u64`.
pub struct Mint {
    digits: Vec<u32>,
    big: bool,
}

impl Mint {
    #[verifier::type_invariant]
    spec fn well_formed(self) -> bool {
        !self.big ==> digits_value(self.digits@) <= u64::MAX
    }

    /// The number.
    pub closed spec fn spec_value(self) -> nat {
        digits_value(self.digits@)
    }

    /// Whether the number ever outgrew a `u64`.
    pub closed spec fn spec_is_big(self) -> bool {
        self.big
    }

    pub fn new() -> (r: Mint)
        ensures
            r.spec_value() == 0,
            !r.spec_is_big(),
    {
        Mint { digits: Vec::new(), big: false }
    }

    pub(crate) fn one() -> (r: Mint)
        ensures
            r.spec_value() == 1,
            !r.spec_is_big(),
    {
        Mint { digits: digits_from_u64(1), big: false }
    }

    /// `self * base + add`.
    pub(crate) fn mul_add(&mut self, base: u32, add: u32)
        ensures
            final(self).spec_value() == old(self).spec_value() * base + add,
            final(self).spec_is_big() == (old(self).spec_is_big() || final(self).spec_value() > u64::MAX),
    {
        let m = big_mul_small(&self.digits, base);
        let a = big_add_small(&m, add);
        let big = self.big || digits_to_u64(&a).is_none();
        *self = Mint { digits: a, big };
    }

    /// `self / 10`.
    fn div10(&mut self)
        ensures
            final(self).spec_value() == old(self).spec_value() / 10,
            final(self).spec_is_big() == old(self).spec_is_big(),
    {
        proof {
            use_type_invariant(&*self);
        }
        let d = big_div_small(&self.digits, 10);
        proof {
            assert(digits_value(d@) <= digits_value(self.digits@));
        }
        self.digits = d;
    }

    fn gt_one(&self) -> (r: bool)
        ensures
            r == (self.spec_value() > 1),
    {
        digits_gt_one(&self.digits)
    }

    fn into_digits(self) -> (r: (Vec<u32>, bool))
        ensures
            digits_value(r.0@) == self.spec_value(),
            r.1 == self.spec_is_big(),
            !r.1 ==> digits_value(r.0@) <= u64::MAX,
    {
        proof {
            use_type_invariant(&self);
        }
        (self.digits, self.big)
    }
}

/// The sign of a number.
#[derive(Clone, Copy, Debug, PartialEq, Eq)]
pub enum Sign {
    Plus,
    Minus,
}

/// What a number is: not a number, an infinity (negative or not), or a
/// fraction with its sign, numerator and denominator.
#[derive(Debug)]
pub enum FractionValue {
    NaN,
    Infinity(bool),
    Rational(bool, Vec<u32>, Vec<u32>),
}

/// A number held as a fraction, of machine words or (`big`) of any size.
#[derive(Debug)]
pub struct MaybeBigFraction {
    big: bool,
    value: FractionValue,
}

/// The first `n` decimal digits of `r / den` (for `r < den`), as values 0 to
/// 9; fewer where the expansion ends before.
pub open spec fn frac_digits(r: nat, den: nat, n: nat) -> Seq<u8>
    decreases n,
{
    if n == 0 || r == 0 || den == 0 {
        Seq::empty()
    } else {
        seq![((r * 10) / den) as u8] + frac_digits((r * 10) % den, den, (n - 1) as nat)
    }
}

/// The digits without their trailing zeros.
pub open spec fn trim_zeros(s: Seq<u8>) -> Seq<u8>
    decreases s.len(),
{
    if s.len() > 0 && s.last() == 0 {
        trim_zeros(s.drop_last())
    } else {
        s
    }
}

/// How many fractional digits a fraction is written with at most.
pub open spec fn float_precision() -> nat {
    16
}

/// The decimal spelling of a fraction: its sign, its integer part, a dot,
/// and the digits of its fractional part, as many as there are up to
/// sixteen, without trailing zeros, or a single zero where there are none.
pub open spec fn fraction_text(neg: bool, num: nat, den: nat) -> Seq<u8> {
    let f = trim_zeros(frac_digits(num % den, den, float_precision()));
    (if neg { seq![0x2du8] } else { Seq::empty() }) + nat_decimal(num / den) + seq![0x2eu8] + (if f.len() == 0 {
        seq![0x30u8]
    } else {
        f.map_values(|d: u8| (d + 0x30) as u8)
    })
}

/// Bytes below 0x80 are valid UTF-8.
proof fn lemma_ascii_valid(b: Seq<u8>)
    requires
        forall|i: int| 0 <= i < b.len() ==> #[trigger] b[i] < 0x80,
    ensures
        valid_utf8(b),
{
    assert(b.subrange(0, 0) =~= Seq::<u8>::empty());
    assert(partial_valid_utf8(b, 0));
    assert forall|i: int| 0 <= 0 <= i < b.len() <= b.len() implies #[trigger] is_leading_byte_width_1(b[i]) by {
        assert(b[i] < 0x80);
    }
    partial_valid_utf8_extend_ascii_block(b, 0, b.len() as int);
    assert(b.subrange(0, b.len() as int) =~= b);
}

pub proof fn lemma_frac_digits_small(r: nat, den: nat, n: nat)
    requires
        r < den,
    ensures
        forall|i: int| 0 <= i < frac_digits(r, den, n).len() ==> #[trigger] frac_digits(r, den, n)[i] < 10,
        frac_digits(r, den, n).len() <= n,
    decreases n,
{
    if n > 0 && r > 0 && den > 0 {
        assert((r * 10) / den < 10) by (nonlinear_arith)
            requires
                r < den,
                den > 0,
        ;
        assert((r * 10) % den < den) by (nonlinear_arith)
            requires
                den > 0,
        ;
        lemma_frac_digits_small((r * 10) % den, den, (n - 1) as nat);
        let rest = frac_digits((r * 10) % den, den, (n - 1) as nat);
        let all = frac_digits(r, den, n);
        assert forall|i: int| 0 <= i < all.len() implies #[trigger] all[i] < 10 by {
            if i > 0 {
                assert(all[i] == rest[i - 1]);
            }
        }
    }
}

/// Writes the fractional digits (see `fraction_text`) of `r / den`.
fn write_frac_digits(r0: &Vec<u32>, den: &Vec<u32>) -> (out: Vec<u8>)
    requires
        digits_value(den@) > 0,
        digits_value(r0@) < digits_value(den@),
    ensures
        out@ == frac_digits(digits_value(r0@), digits_value(den@), float_precision()),
{
    let mut out: Vec<u8> = Vec::new();
    let mut r: Vec<u32> = r0.clone();
    let mut i: usize = 0;
    let ghost d = digits_value(den@);
    assert(out@ + frac_digits(digits_value(r@), d, 16) =~= frac_digits(digits_value(r0@), d, 16));
    while i < 16
        invariant
            i <= 16,
            d == digits_value(den@),
            d > 0,
            digits_value(r@) < d,
            out@ + frac_digits(digits_value(r@), d, (16 - i) as nat) == frac_digits(digits_value(r0@), d, 16),
        decreases 16 - i,
    {
        if digits_zero_from(&r, 0) {
            proof {
                assert(r@.skip(0) =~= r@);
                assert(out@ + frac_digits(digits_value(r@), d, (16 - i) as nat) =~= out@);
            }
            return out;
        }
        proof {
            assert(r@.skip(0) =~= r@);
        }
        let ghost rv = digits_value(r@);
        let r10 = big_mul_small(&r, 10);
        let (q, m) = big_div_rem(&r10, den);
        proof {
            assert((rv * 10) / d < 10) by (nonlinear_arith)
                requires
                    rv < d,
                    d > 0,
            ;
            assert((rv * 10) % d < d) by (nonlinear_arith)
                requires
                    d > 0,
            ;
        }
        let digit = match digits_to_u64(&q) {
            Some(v) => v as u8,
            None => 0,
        };
        out.push(digit);
        r = m;
        proof {
            assert(frac_digits(rv, d, (16 - i) as nat) == seq![((rv * 10) / d) as u8] + frac_digits((rv * 10) % d, d, (16 - i - 1) as nat));
            assert(out@ + frac_digits(digits_value(r@), d, (16 - (i + 1)) as nat) =~= out@.drop_last() + frac_digits(rv, d, (16 - i) as nat));
        }
        i = i + 1;
    }
    proof {
        assert(out@ + frac_digits(digits_value(r@), d, 0) =~= out@);
    }
    out
}

/// The decimal spelling of a fraction (see `fraction_text`).
fn write_fraction(neg: bool, num: &Vec<u32>, den: &Vec<u32>) -> (r: Vec<u8>)
    requires
        digits_value(den@) > 0,
    ensures
        r@ == fraction_text(neg, digits_value(num@), digits_value(den@)),
{
    let ghost n = digits_value(num@);
    let ghost d = digits_value(den@);
    let (q, m) = big_div_rem(num, den);
    proof {
        assert(n % d < d) by (nonlinear_arith)
            requires
                d > 0,
        ;
    }
    let frac = write_frac_digits(&m, den);
    proof {
        lemma_frac_digits_small(n % d, d, float_precision());
    }
    let mut out: Vec<u8> = Vec::new();
    if neg {
        out.push(0x2d);
    }
    let int_digits = big_decimal_digits(&q);
    proof {
        lemma_nat_digits_small(n / d);
    }
    let mut int_text = ascii_digits(&int_digits);
    out.append(&mut int_text);
    out.push(0x2e);
    let mut end = frac.len();
    assert(frac@.take(end as int) =~= frac@);
    while end > 0 && frac[end - 1] == 0
        invariant
            end <= frac@.len(),
            trim_zeros(frac@) == trim_zeros(frac@.take(end as int)),
        decreases end,
    {
        proof {
            assert(frac@.take(end as int).drop_last() =~= frac@.take(end - 1));
        }
        end = end - 1;
    }
    proof {
        assert(trim_zeros(frac@.take(end as int)) == frac@.take(end as int));
    }
    let ghost before = out@;
    if end == 0 {
        out.push(0x30);
    } else {
        let mut k: usize = 0;
        while k < end
            invariant
                k <= end <= frac@.len(),
                forall|i: int| 0 <= i < frac@.len() ==> #[trigger] frac@[i] < 10,
                out@ == before + frac@.take(k as int).map_values(|x: u8| (x + 0x30) as u8),
            decreases end - k,
        {
            out.push(frac[k] + 0x30);
            k = k + 1;
            assert(out@ =~= before + frac@.take(k as int).map_values(|x: u8| (x + 0x30) as u8));
        }
    }
    proof {
        let f = trim_zeros(frac@);
        assert(f == frac@.take(end as int));
        assert(out@ =~= fraction_text(neg, n, d));
    }
    out
}

impl MaybeBigFraction {
    #[verifier::type_invariant]
    spec fn well_formed(self) -> bool {
        match self.value {
            FractionValue::Rational(_, n, d) => digits_value(d@) > 0 && (!self.big ==> digits_value(n@) <= u64::MAX
                && digits_value(d@) <= u64::MAX),
            _ => true,
        }
    }

    pub closed spec fn spec_is_nan(&self) -> bool {
        self.value is NaN
    }

    pub closed spec fn spec_is_infinite(&self) -> bool {
        self.value is Infinity
    }

    /// A fraction, neither not-a-number nor infinite.
    pub closed spec fn spec_is_rational(&self) -> bool {
        self.value is Rational
    }

    /// The sign is minus.
    pub closed spec fn spec_is_negative(&self) -> bool {
        match self.value {
            FractionValue::NaN => false,
            FractionValue::Infinity(neg) => neg,
            FractionValue::Rational(neg, _, _) => neg,
        }
    }

    /// The numerator of a fraction.
    pub closed spec fn spec_num(&self) -> nat {
        match self.value {
            FractionValue::Rational(_, n, _) => digits_value(n@),
            _ => 0,
        }
    }

    /// The denominator of a fraction.
    pub closed spec fn spec_den(&self) -> nat {
        match self.value {
            FractionValue::Rational(_, _, d) => digits_value(d@),
            _ => 1,
        }
    }

    /// Whether it is held with numbers of any size.
    pub closed spec fn spec_is_big(&self) -> bool {
        self.big
    }

    /// The fraction `num / den`, not negative: not-a-number where both are
    /// zero, an infinity where only the denominator is; held with numbers of
    /// any size where either of them ever outgrew a `u64`.
    pub fn new(num: Mint, den: Mint) -> (r: MaybeBigFraction)
        ensures
            den.spec_value() == 0 ==> (if num.spec_value() == 0 { r.spec_is_nan() } else { r.spec_is_infinite()
                && !r.spec_is_negative() }),
            den.spec_value() > 0 ==> r.spec_is_rational() && !r.spec_is_negative() && r.spec_num() == num.spec_value()
                && r.spec_den() == den.spec_value(),
            r.spec_is_big() == (num.spec_is_big() || den.spec_is_big()),
    {
        let (n, nb) = num.into_digits();
        let (d, db) = den.into_digits();
        let big = nb || db;
        if digits_zero_from(&d, 0) {
            proof {
                assert(d@.skip(0) =~= d@);
                assert(n@.skip(0) =~= n@);
            }
            if digits_zero_from(&n, 0) {
                MaybeBigFraction { big, value: FractionValue::NaN }
            } else {
                MaybeBigFraction { big, value: FractionValue::Infinity(false) }
            }
        } else {
            proof {
                assert(d@.skip(0) =~= d@);
            }
            MaybeBigFraction { big, value: FractionValue::Rational(false, n, d) }
        }
    }

    /// Not a number.
    pub fn nan() -> (r: MaybeBigFraction)
        ensures
            r.spec_is_nan(),
            !r.spec_is_big(),
    {
        MaybeBigFraction { big: false, value: FractionValue::NaN }
    }

    /// An infinity.
    pub fn infinity(negative: bool) -> (r: MaybeBigFraction)
        ensures
            r.spec_is_infinite(),
            r.spec_is_negative() == negative,
            !r.spec_is_big(),
    {
        MaybeBigFraction { big: false, value: FractionValue::Infinity(negative) }
    }

    /// The fraction `num / den` with the given sign, held with numbers of
    /// any size where `big`; `None` for a zero denominator.
    pub fn from_parts(negative: bool, num: Vec<u32>, den: Vec<u32>, big: bool) -> (r: Option<MaybeBigFraction>)
        ensures
            r is Some <==> digits_value(den@) > 0,
            r matches Some(f) ==> f.spec_is_rational() && f.spec_is_negative() == negative && f.spec_num() == digits_value(num@)
                && f.spec_den() == digits_value(den@) && f.spec_is_big() == (big || digits_value(num@) > u64::MAX
                || digits_value(den@) > u64::MAX),
    {
        proof {
            assert(den@.skip(0) =~= den@);
        }
        if digits_zero_from(&den, 0) {
            return None;
        }
        let big = big || digits_to_u64(&num).is_none() || digits_to_u64(&den).is_none();
        Some(MaybeBigFraction { big, value: FractionValue::Rational(negative, num, den) })
    }

    pub fn is_nan(&self) -> (r: bool)
        ensures
            r == self.spec_is_nan(),
    {
        match &self.value {
            FractionValue::NaN => true,
            _ => false,
        }
    }

    pub fn is_infinite(&self) -> (r: bool)
        ensures
            r == self.spec_is_infinite(),
    {
        match &self.value {
            FractionValue::Infinity(_) => true,
            _ => false,
        }
    }

    pub fn is_negative(&self) -> (r: bool)
        ensures
            r == self.spec_is_negative(),
    {
        match &self.value {
            FractionValue::NaN => false,
            FractionValue::Infinity(neg) => *neg,
            FractionValue::Rational(neg, _, _) => *neg,
        }
    }

    /// The sign; none for not-a-number.
    pub fn sign(&self) -> (r: Option<Sign>)
        ensures
            r == (if self.spec_is_nan() { None } else if self.spec_is_negative() { Some(Sign::Minus) } else {
                Some(Sign::Plus)
            }),
    {
        match &self.value {
            FractionValue::NaN => None,
            FractionValue::Infinity(neg) => Some(if *neg { Sign::Minus } else { Sign::Plus }),
            FractionValue::Rational(neg, _, _) => Some(if *neg { Sign::Minus } else { Sign::Plus }),
        }
    }

    /// Holds the number with numbers of any size from now on.
    pub fn promote(&mut self)
        ensures
            final(self).spec_is_big(),
            final(self).spec_is_nan() == old(self).spec_is_nan(),
            final(self).spec_is_infinite() == old(self).spec_is_infinite(),
            final(self).spec_is_rational() == old(self).spec_is_rational(),
            final(self).spec_is_negative() == old(self).spec_is_negative(),
            final(self).spec_num() == old(self).spec_num(),
            final(self).spec_den() == old(self).spec_den(),
    {
        proof {
            use_type_invariant(&*self);
        }
        self.big = true;
    }

    /// The number with its sign turned; zero keeps the plus sign.
    fn negate(self) -> (r: MaybeBigFraction)
        ensures
            r.spec_is_nan() == self.spec_is_nan(),
            r.spec_is_infinite() == self.spec_is_infinite(),
            r.spec_is_rational() == self.spec_is_rational(),
            r.spec_num() == self.spec_num(),
            r.spec_den() == self.spec_den(),
            r.spec_is_big() == self.spec_is_big(),
            r.spec_is_negative() == (if self.spec_is_nan() { false } else if self.spec_is_rational() && self.spec_num() == 0 {
                false
            } else {
                !self.spec_is_negative()
            }),
    {
        proof {
            use_type_invariant(&self);
        }
        let big = self.big;
        match self.value {
            FractionValue::NaN => MaybeBigFraction { big, value: FractionValue::NaN },
            FractionValue::Infinity(neg) => MaybeBigFraction { big, value: FractionValue::Infinity(!neg) },
            FractionValue::Rational(neg, n, d) => {
                proof {
                    assert(n@.skip(0) =~= n@);
                }
                let zero = digits_zero_from(&n, 0);
                MaybeBigFraction { big, value: FractionValue::Rational(!neg && !zero, n, d) }
            }
        }
    }

    /// The decimal spelling of a fraction (see `fraction_text`); none for
    /// not-a-number and the infinities.
    pub fn format_as_float(&self) -> (r: Option<String>)
        ensures
            self.spec_is_rational() ==> (r matches Some(s) && string_bytes(s) == fraction_text(
                self.spec_is_negative(),
                self.spec_num(),
                self.spec_den(),
            )),
            !self.spec_is_rational() ==> r is None,
    {
        proof {
            use_type_invariant(self);
        }
        match &self.value {
            FractionValue::Rational(neg, n, d) => {
                let bytes = write_fraction(*neg, n, d);
                proof {
                    lemma_fraction_text_ascii(*neg, digits_value(n@), digits_value(d@));
                    lemma_ascii_valid(bytes@);
                }
                utf8_string(bytes)
            }
            _ => None,
        }
    }
}

/// A fraction's spelling is ASCII.
proof fn lemma_fraction_text_ascii(neg: bool, num: nat, den: nat)
    requires
        den > 0,
    ensures
        forall|i: int| 0 <= i < fraction_text(neg, num, den).len() ==> #[trigger] fraction_text(neg, num, den)[i] < 0x80,
{
    lemma_nat_digits_small(num / den);
    assert(num % den < den) by (nonlinear_arith)
        requires
            den > 0,
    ;
    lemma_frac_digits_small(num % den, den, float_precision());
    let f = trim_zeros(frac_digits(num % den, den, float_precision()));
    lemma_trim_zeros_prefix(frac_digits(num % den, den, float_precision()));
    let t = fraction_text(neg, num, den);
    let a = if neg { seq![0x2du8] } else { Seq::<u8>::empty() };
    let b = nat_decimal(num / den);
    let c = if f.len() == 0 { seq![0x30u8] } else { f.map_values(|d: u8| (d + 0x30) as u8) };
    assert(t =~= a + b + seq![0x2eu8] + c);
    assert forall|i: int| 0 <= i < t.len() implies #[trigger] t[i] < 0x80 by {
        if i < a.len() {
        } else if i < a.len() + b.len() {
            assert(t[i] == b[i - a.len()]);
            assert(b[i - a.len()] == (nat_digits(num / den)[i - a.len()] + 0x30) as u8);
        } else if i == a.len() + b.len() {
        } else {
            let j = i - a.len() - b.len() - 1;
            assert(t[i] == c[j]);
            if f.len() > 0 {
                let fd = frac_digits(num % den, den, float_precision());
                assert(f[j] == fd[j]);
                assert(fd[j] < 10);
                assert(c[j] == (f[j] + 0x30) as u8);
            }
        }
    }
}

/// Trimming trailing zeros keeps a prefix.
proof fn lemma_trim_zeros_prefix(s: Seq<u8>)
    ensures
        trim_zeros(s).len() <= s.len(),
        forall|i: int| 0 <= i < trim_zeros(s).len() ==> trim_zeros(s)[i] == s[i],
    decreases s.len(),
{
    if s.len() > 0 && s.last() == 0 {
        lemma_trim_zeros_prefix(s.drop_last());
        assert forall|i: int| 0 <= i < trim_zeros(s).len() implies trim_zeros(s)[i] == s[i] by {
            assert(trim_zeros(s)[i] == s.drop_last()[i]);
        }
    }
}

/// The flags that reading a float has set.
#[derive(Clone, Copy)]
pub struct FloatFlags {
    pub sign: bool,
    pub neg: bool,
    pub num: bool,
    pub dot: bool,
    pub e: bool,
    pub esign: bool,
    pub eneg: bool,
    pub end: bool,
    pub actual: bool,
    pub nan: bool,
    pub inf: bool,
}

/// Where reading a float stands: the position, the open quote (1 for `'`,
/// 2 for `"`), the flags, the numerator and denominator read so far (and
/// whether either outgrew a `u64`), and the exponent.
pub struct FloatScan {
    pub p: int,
    pub q: int,
    pub f: FloatFlags,
    pub num: int,
    pub den: int,
    pub exp: int,
    pub num_big: bool,
    pub den_big: bool,
}

/// Ten to the power `k`.
pub open spec fn pow10(k: nat) -> int
    decreases k,
{
    if k == 0 {
        1
    } else {
        10 * pow10((k - 1) as nat)
    }
}

/// One step of reading a float from the state `s`: an optional opening
/// quote (explicit values), a sign, digits with underscores skipped, a dot,
/// base 60 groups after colons (YAML 1.1), `nan` or `inf` in three
/// spellings each, and an exponent after `e` where digits came before (and,
/// unless the dot is optional, a dot). Gives 0 and the next state where
/// reading goes on, 1 and the last state where it stops, 2 where the value
/// is rejected, and 3 where the exponent outgrows a `u64`, whose steps the
/// reader could not count.
pub open spec fn float_next(v: Seq<u8>, explicit: bool, base60: bool, optional_dot: bool, s: FloatScan) -> (int, FloatScan)
{
    let f = s.f;
    if s.p < 0 || s.p >= v.len() {
        (1int, s)
    } else {
        let b = v[s.p];
        if b == 0x5f {
            (0int, FloatScan { p: s.p + 1, ..s })
        } else if b == 0x27 || b == 0x22 {
            let qb: int = if b == 0x27 { 1 } else { 2 };
            if explicit && s.q == 0 && !f.end {
                (0int, FloatScan { p: s.p + 1, q: qb, ..s })
            } else if s.q == qb {
                if s.p + 1 == 2 {
                    (2int, s)
                } else {
                    (1int, FloatScan { p: s.p + 1, q: 0, f: FloatFlags { end: true, ..f }, ..s })
                }
            } else {
                (1int, FloatScan { p: s.p + 1, f: FloatFlags { end: true, ..f }, ..s })
            }
        } else if b == 0x2d && !f.sign {
            (0int, FloatScan { p: s.p + 1, f: FloatFlags { sign: true, neg: true, ..f }, ..s })
        } else if b == 0x2b && !f.sign {
            (0int, FloatScan { p: s.p + 1, f: FloatFlags { sign: true, ..f }, ..s })
        } else if !f.sign {
            (0int, FloatScan { f: FloatFlags { sign: true, ..f }, ..s })
        } else if b == 0x2e && !f.dot {
            (0int, FloatScan { p: s.p + 1, f: FloatFlags { dot: true, ..f }, ..s })
        } else if b == 0x3a && base60 && !f.dot {
            match sexagesimal_group(v, s.p + 1) {
                None => (1int, FloatScan { p: s.p + 1, f: FloatFlags { end: true, ..f }, ..s }),
                Some((n, e)) => {
                    let num = s.num * 60 + n;
                    let s2 = FloatScan { p: e, num: num, num_big: s.num_big || num > u64::MAX, ..s };
                    if e >= v.len() {
                        (1int, s2)
                    } else if (v[e] == 0x2e || v[e] == 0x3a) && e > s.p {
                        (0int, s2)
                    } else {
                        (1int, FloatScan { f: FloatFlags { end: true, ..f }, ..s2 })
                    }
                },
            }
        } else if !f.num {
            if starts3(v.skip(s.p), seq![0x6eu8, 0x61, 0x6e], seq![0x4eu8, 0x61, 0x4e], seq![0x4eu8, 0x41, 0x4e]) {
                (1int, FloatScan { p: s.p + 3, f: FloatFlags { nan: true, end: true, ..f }, ..s })
            } else if starts3(v.skip(s.p), seq![0x69u8, 0x6e, 0x66], seq![0x49u8, 0x6e, 0x66], seq![0x49u8, 0x4e, 0x46]) {
                (1int, FloatScan { p: s.p + 3, f: FloatFlags { inf: true, end: true, ..f }, ..s })
            } else {
                (0int, FloatScan { f: FloatFlags { num: true, ..f }, ..s })
            }
        } else if (b == 0x65 || b == 0x45) && f.actual && (optional_dot || f.dot) && !f.e {
            (0int, FloatScan { p: s.p + 1, exp: 0, f: FloatFlags { e: true, ..f }, ..s })
        } else if b == 0x2d && f.e && !f.esign {
            (0int, FloatScan { p: s.p + 1, f: FloatFlags { esign: true, eneg: true, ..f }, ..s })
        } else if b == 0x2b && f.e && !f.esign {
            (0int, FloatScan { p: s.p + 1, f: FloatFlags { esign: true, ..f }, ..s })
        } else if is_dec(b) {
            let d = b - 0x30;
            if f.e {
                let exp = s.exp * 10 + d;
                if exp > u64::MAX {
                    (3int, s)
                } else {
                    (0int, FloatScan { p: s.p + 1, exp: exp, ..s })
                }
            } else if f.dot {
                let num = s.num * 10 + d;
                let den = s.den * 10;
                (0int, FloatScan {
                    p: s.p + 1,
                    num: num,
                    den: den,
                    num_big: s.num_big || num > u64::MAX,
                    den_big: s.den_big || den > u64::MAX,
                    ..s
                })
            } else {
                let num = s.num * 10 + d;
                (0int, FloatScan {
                    p: s.p + 1,
                    num: num,
                    num_big: s.num_big || num > u64::MAX,
                    f: FloatFlags { actual: true, ..f },
                    ..s
                })
            }
        } else {
            (1int, FloatScan { f: FloatFlags { end: true, ..f }, ..s })
        }
    }
}


/// Reads a float from the state `s` on (see `float_next`). Gives the state
/// where reading stopped, `Some(None)` where the value is rejected, and
/// `None` where the exponent outgrows a `u64`.
pub open spec fn float_run(v: Seq<u8>, explicit: bool, base60: bool, optional_dot: bool, s: FloatScan) -> Option<Option<FloatScan>>
    decreases v.len() - s.p, (if s.f.sign { 0int } else { 1int }) + (if s.f.num { 0int } else { 1int }),
{
    if s.p < 0 || s.p >= v.len() {
        Some(Some(s))
    } else {
        let (code, n) = float_next(v, explicit, base60, optional_dot, s);
        if code == 0 {
            if n.p > s.p || (n.p == s.p && (if n.f.sign { 0int } else { 1int }) + (if n.f.num { 0int } else { 1int }) < (if s.f.sign { 0int } else { 1int }) + (if s.f.num { 0int } else { 1int })) {
                if n.p <= v.len() {
                    float_run(v, explicit, base60, optional_dot, n)
                } else {
                    Some(Some(n))
                }
            } else {
                Some(Some(n))
            }
        } else if code == 1 {
            Some(Some(n))
        } else if code == 2 {
            Some(None)
        } else {
            None
        }
    }
}

/// What an exponent does to the fraction, one step at a time: a negative
/// one multiplies the denominator by ten; a positive one divides the
/// denominator by ten while it is above one, and multiplies the numerator
/// by ten after. Keeps track of whether either outgrew a `u64`.
pub open spec fn apply_exp(num: int, den: int, exp: nat, eneg: bool, nb: bool, db: bool) -> (int, int, bool, bool)
    decreases exp,
{
    if exp == 0 {
        (num, den, nb, db)
    } else if eneg {
        apply_exp(num, den * 10, (exp - 1) as nat, eneg, nb, db || den * 10 > u64::MAX)
    } else if den > 1 {
        apply_exp(num, den / 10, (exp - 1) as nat, eneg, nb, db)
    } else {
        apply_exp(num * 10, den, (exp - 1) as nat, eneg, nb || num * 10 > u64::MAX, db)
    }
}

/// The state before reading.
pub open spec fn float_start() -> FloatScan {
    FloatScan {
        p: 0,
        q: 0,
        f: FloatFlags {
            sign: false,
            neg: false,
            num: false,
            dot: false,
            e: false,
            esign: false,
            eneg: false,
            end: false,
            actual: false,
            nan: false,
            inf: false,
        },
        num: 0,
        den: 1,
        exp: 0,
        num_big: false,
        den_big: false,
    }
}

/// Whether a value that is not explicitly tagged may be a float: it starts
/// with a sign, a dot or a digit.
pub open spec fn float_may_start(v: Seq<u8>) -> bool {
    v.len() > 0 && (v[0] == 0x2b || v[0] == 0x2d || v[0] == 0x2e || is_dec(v[0]))
}

/// What `v` reads as: `Some(Some((kind, negative, num, den, big)))` with kind
/// 0 for not-a-number, 1 for an infinity and 2 for the fraction `num / den`;
/// `Some(None)` where it is rejected; `None` where the exponent outgrows a
/// `u64` (see `float_run`). `base60` turns on base 60 groups (YAML 1.1),
/// `optional_dot` lets an exponent follow digits without a dot (YAML 1.2).
pub open spec fn float_parse(explicit: bool, v: Seq<u8>, base60: bool, optional_dot: bool) -> Option<Option<(int, bool, int, int, bool)>> {
    if !explicit && !float_may_start(v) {
        Some(None)
    } else {
        match float_run(v, explicit, base60, optional_dot, float_start()) {
            None => None,
            Some(None) => Some(None),
            Some(Some(s)) => if s.f.end && !int_closes(v, s.p, s.q) {
                Some(None)
            } else if s.f.nan {
                Some(Some((0, false, 0, 1, false)))
            } else if s.f.inf {
                Some(Some((1, s.f.neg, 0, 1, false)))
            } else if !s.f.num {
                Some(None)
            } else {
                let (n, d, nb, db) = if s.f.e && s.exp > 0 {
                    apply_exp(s.num, s.den, s.exp as nat, s.f.eneg, s.num_big, s.den_big)
                } else {
                    (s.num, s.den, s.num_big, s.den_big)
                };
                Some(Some((2, s.f.neg && n != 0, n, d, nb || db)))
            },
        }
    }
}

impl MaybeBigFraction {
    /// Whether this is what `float_parse` describes by `(kind, negative,
    /// num, den, big)`.
    pub open spec fn is_parsed(&self, kind: int, negative: bool, num: int, den: int, big: bool) -> bool {
        &&& kind == 0 ==> self.spec_is_nan()
        &&& kind == 1 ==> self.spec_is_infinite() && self.spec_is_negative() == negative
        &&& kind == 2 ==> self.spec_is_rational() && self.spec_is_negative() == negative && self.spec_num() == num
            && self.spec_den() == den
        &&& self.spec_is_big() == big
    }
}

/// The reading state for given values.
pub open spec fn scan_at(p: usize, q: u8, f: FloatFlags, num: Mint, den: Mint, exp: u64) -> FloatScan {
    FloatScan {
        p: p as int,
        q: q as int,
        f: f,
        num: num.spec_value() as int,
        den: den.spec_value() as int,
        exp: exp as int,
        num_big: num.spec_is_big(),
        den_big: den.spec_is_big(),
    }
}

pub proof fn lemma_pow10_pos(k: nat)
    ensures
        pow10(k) >= 1,
        k > 0 ==> pow10(k) >= 10 && pow10(k) / 10 == pow10((k - 1) as nat),
    decreases k,
{
    if k > 0 {
        lemma_pow10_pos((k - 1) as nat);
    }
}

/// The float model.
#[derive(Clone, Copy)]
pub struct Float;

/// Reads a base 60 group after the colon at `p - 1`.
fn read_group(value: &[u8], p: usize) -> (r: Option<(u32, usize)>)
    ensures
        match sexagesimal_group(value@, p as int) {
            Some((n, e)) => r == Some((n as u32, e as usize)) && n < 60 && p < e <= value@.len(),
            None => r is None,
        },
{
    if p < value.len() && 0x30 <= value[p] && value[p] <= 0x39 {
        let d = (value[p] - 0x30) as u32;
        if d < 6 && p + 1 < value.len() && 0x30 <= value[p + 1] && value[p + 1] <= 0x39 {
            Some((d * 10 + (value[p + 1] - 0x30) as u32, p + 2))
        } else {
            Some((d, p + 1))
        }
    } else {
        None
    }
}

/// Whether `n` is a power of ten.
pub open spec fn is_pow10(n: int) -> bool
    decreases n,
{
    if n == 1 {
        true
    } else if n >= 10 && n % 10 == 0 {
        is_pow10(n / 10)
    } else {
        false
    }
}

proof fn lemma_pow10_facts(n: int)
    requires
        is_pow10(n),
    ensures
        n >= 1,
        is_pow10(n * 10),
        n > 1 ==> is_pow10(n / 10) && n / 10 >= 1,
    decreases n,
{
    assert((n * 10) % 10 == 0 && (n * 10) / 10 == n);
    if n > 1 {
        lemma_pow10_facts(n / 10);
    }
}

/// Where reading a float stands, in values.
pub struct FloatReader {
    p: usize,
    q: u8,
    f: FloatFlags,
    num: Mint,
    den: Mint,
    exp: u64,
}

impl FloatReader {
    pub closed spec fn scan(&self) -> FloatScan {
        FloatScan {
            p: self.p as int,
            q: self.q as int,
            f: self.f,
            num: self.num.spec_value() as int,
            den: self.den.spec_value() as int,
            exp: self.exp as int,
            num_big: self.num.spec_is_big(),
            den_big: self.den.spec_is_big(),
        }
    }

    pub closed spec fn ok(&self, len: nat) -> bool {
        self.p <= len && self.q <= 2 && is_pow10(self.den.spec_value() as int)
    }

    pub closed spec fn measure(&self) -> int {
        (if self.f.sign { 0int } else { 1int }) + (if self.f.num { 0int } else { 1int })
    }
}

/// A step over a quote.
fn float_step_quote(value: &[u8], explicit: bool, base60: bool, optional_dot: bool, st: &mut FloatReader) -> (r: u8)
    requires
        old(st).ok(value@.len()),
        old(st).p < value@.len(),
        float_next(value@, explicit, base60, optional_dot, old(st).scan()).0 != 3,
        ({
            let b = value@[old(st).p as int];
            let f = old(st).f;
            b != 0x5f && (b == 0x27 || b == 0x22)
        }),
    ensures
        final(st).ok(value@.len()),
        r <= 2,
        float_next(value@, explicit, base60, optional_dot, old(st).scan()) == (r as int, final(st).scan()),
        r == 0 ==> (final(st).p > old(st).p || (final(st).p == old(st).p && final(st).measure() < old(st).measure())),
{
    let p = st.p;
    let f = st.f;
    let b = value[p];
    let len = value.len();
    assert(p < len);
    let qb: u8 = if b == 0x27 { 1 } else { 2 };
    if explicit && st.q == 0 && !f.end {
        st.p = p + 1;
        st.q = qb;
        0
    } else if st.q == qb {
        if p + 1 == 2 {
            return 2;
        }
        st.p = p + 1;
        st.q = 0;
        st.f = FloatFlags { end: true, ..f };
        1
    } else {
        st.p = p + 1;
        st.f = FloatFlags { end: true, ..f };
        1
    }
}

/// A step over an underscore, a sign or the dot.
fn float_step_mark(value: &[u8], explicit: bool, base60: bool, optional_dot: bool, st: &mut FloatReader) -> (r: u8)
    requires
        old(st).ok(value@.len()),
        old(st).p < value@.len(),
        float_next(value@, explicit, base60, optional_dot, old(st).scan()).0 != 3,
        ({
            let b = value@[old(st).p as int];
            let f = old(st).f;
            b == 0x5f || (b != 0x27 && b != 0x22 && (!f.sign || (b == 0x2e && !f.dot)))
        }),
    ensures
        final(st).ok(value@.len()),
        r <= 2,
        float_next(value@, explicit, base60, optional_dot, old(st).scan()) == (r as int, final(st).scan()),
        r == 0 ==> (final(st).p > old(st).p || (final(st).p == old(st).p && final(st).measure() < old(st).measure())),
{
    let p = st.p;
    let f = st.f;
    let b = value[p];
    let len = value.len();
    assert(p < len);
    if b == 0x5f {
        st.p = p + 1;
        0
    } else if b == 0x2d && !f.sign {
        st.p = p + 1;
        st.f = FloatFlags { sign: true, neg: true, ..f };
        0
    } else if b == 0x2b && !f.sign {
        st.p = p + 1;
        st.f = FloatFlags { sign: true, ..f };
        0
    } else if !f.sign {
        st.f = FloatFlags { sign: true, ..f };
        0
    } else {
        st.p = p + 1;
        st.f = FloatFlags { dot: true, ..f };
        0
    }
}

/// A step over a base 60 group.
fn float_step_group(value: &[u8], explicit: bool, base60: bool, optional_dot: bool, st: &mut FloatReader) -> (r: u8)
    requires
        old(st).ok(value@.len()),
        old(st).p < value@.len(),
        float_next(value@, explicit, base60, optional_dot, old(st).scan()).0 != 3,
        ({
            let b = value@[old(st).p as int];
            let f = old(st).f;
            !(b == 0x5f || b == 0x27 || b == 0x22 || !f.sign || (b == 0x2e && !f.dot)) && b == 0x3a && base60 && !f.dot
        }),
    ensures
        final(st).ok(value@.len()),
        r <= 2,
        float_next(value@, explicit, base60, optional_dot, old(st).scan()) == (r as int, final(st).scan()),
        r == 0 ==> (final(st).p > old(st).p || (final(st).p == old(st).p && final(st).measure() < old(st).measure())),
{
    let p = st.p;
    let f = st.f;
    let len = value.len();
    assert(p < len);
    match read_group(value, p + 1) {
        None => {
            st.p = p + 1;
            st.f = FloatFlags { end: true, ..f };
            1
        }
        Some((n, e)) => {
            st.num.mul_add(60, n);
            st.p = e;
            if e >= value.len() {
                1
            } else if value[e] == 0x2e || value[e] == 0x3a {
                0
            } else {
                st.f = FloatFlags { end: true, ..f };
                1
            }
        }
    }
}

/// A step where no digit came yet: `nan`, `inf`, or the number begins.
fn float_step_special(value: &[u8], explicit: bool, base60: bool, optional_dot: bool, st: &mut FloatReader) -> (r: u8)
    requires
        old(st).ok(value@.len()),
        old(st).p < value@.len(),
        float_next(value@, explicit, base60, optional_dot, old(st).scan()).0 != 3,
        ({
            let b = value@[old(st).p as int];
            let f = old(st).f;
            !(b == 0x5f || b == 0x27 || b == 0x22 || !f.sign || (b == 0x2e && !f.dot)) && !(b == 0x3a && base60 && !f.dot) && !f.num
        }),
    ensures
        final(st).ok(value@.len()),
        r <= 2,
        float_next(value@, explicit, base60, optional_dot, old(st).scan()) == (r as int, final(st).scan()),
        r == 0 ==> (final(st).p > old(st).p || (final(st).p == old(st).p && final(st).measure() < old(st).measure())),
{
    let p = st.p;
    let f = st.f;
    let len = value.len();
    assert(p < len);
    if starts_with_any(value, p, [0x6eu8, 0x61, 0x6e].as_slice(), [0x4eu8, 0x61, 0x4e].as_slice(), [0x4eu8, 0x41, 0x4e].as_slice()) {
        st.p = p + 3;
        st.f = FloatFlags { nan: true, end: true, ..f };
        1
    } else if starts_with_any(value, p, [0x69u8, 0x6e, 0x66].as_slice(), [0x49u8, 0x6e, 0x66].as_slice(), [0x49u8, 0x4e, 0x46].as_slice()) {
        st.p = p + 3;
        st.f = FloatFlags { inf: true, end: true, ..f };
        1
    } else {
        st.f = FloatFlags { num: true, ..f };
        0
    }
}

/// A step in the number: the exponent letter and sign, or a digit.
fn float_step_number(value: &[u8], explicit: bool, base60: bool, optional_dot: bool, st: &mut FloatReader) -> (r: u8)
    requires
        old(st).ok(value@.len()),
        old(st).p < value@.len(),
        ({
            let b = value@[old(st).p as int];
            let f = old(st).f;
            !(b == 0x5f || b == 0x27 || b == 0x22 || !f.sign || (b == 0x2e && !f.dot)) && !(b == 0x3a && base60 && !f.dot) && f.num
        }),
    ensures
        final(st).ok(value@.len()),
        r <= 3,
        float_next(value@, explicit, base60, optional_dot, old(st).scan()) == (r as int, final(st).scan()),
        r == 0 ==> (final(st).p > old(st).p || (final(st).p == old(st).p && final(st).measure() < old(st).measure())),
{
    let p = st.p;
    let f = st.f;
    let b = value[p];
    let len = value.len();
    assert(p < len);
    proof {
        lemma_pow10_facts(st.den.spec_value() as int);
    }
    if (b == 0x65 || b == 0x45) && f.actual && (optional_dot || f.dot) && !f.e {
        st.p = p + 1;
        st.exp = 0;
        st.f = FloatFlags { e: true, ..f };
        0
    } else if b == 0x2d && f.e && !f.esign {
        st.p = p + 1;
        st.f = FloatFlags { esign: true, eneg: true, ..f };
        0
    } else if b == 0x2b && f.e && !f.esign {
        st.p = p + 1;
        st.f = FloatFlags { esign: true, ..f };
        0
    } else if 0x30 <= b && b <= 0x39 {
        let d = (b - 0x30) as u32;
        if f.e {
            let exp = match st.exp.checked_mul(10) {
                Some(tens) => tens.checked_add(d as u64),
                None => None,
            };
            match exp {
                Some(e) => {
                    st.exp = e;
                },
                None => {
                    return 3;
                },
            }
        } else if f.dot {
            st.num.mul_add(10, d);
            st.den.mul_add(10, 0);
        } else {
            st.num.mul_add(10, d);
            st.f = FloatFlags { actual: true, ..f };
        }
        st.p = p + 1;
        0
    } else {
        st.f = FloatFlags { end: true, ..f };
        1
    }
}

/// One step of reading a float (see `float_next`).
fn float_step(value: &[u8], explicit: bool, base60: bool, optional_dot: bool, st: &mut FloatReader) -> (r: u8)
    requires
        old(st).ok(value@.len()),
        old(st).p < value@.len(),
    ensures
        final(st).ok(value@.len()),
        r <= 3,
        float_next(value@, explicit, base60, optional_dot, old(st).scan()) == (r as int, final(st).scan()),
        r == 0 ==> (final(st).p > old(st).p || (final(st).p == old(st).p && final(st).measure() < old(st).measure())),
{
    let b = value[st.p];
    let f = st.f;
    if b != 0x5f && (b == 0x27 || b == 0x22) {
        float_step_quote(value, explicit, base60, optional_dot, st)
    } else if b == 0x5f || !f.sign || (b == 0x2e && !f.dot) {
        float_step_mark(value, explicit, base60, optional_dot, st)
    } else if b == 0x3a && base60 && !f.dot {
        float_step_group(value, explicit, base60, optional_dot, st)
    } else if !f.num {
        float_step_special(value, explicit, base60, optional_dot, st)
    } else {
        float_step_number(value, explicit, base60, optional_dot, st)
    }
}

impl Float {
    pub fn get_tag() -> (r: &'static str)
        ensures
            r == TAG,
    {
        TAG
    }

    /// Reads a float (see `float_parse`).
    fn base_decode(&self, explicit: bool, value: &[u8], base60: bool, optional_dot: bool) -> (r: Result<MaybeBigFraction, ()>)
        ensures
            match float_parse(explicit, value@, base60, optional_dot) {
                Some(Some((kind, negative, num, den, big))) => r matches Ok(f) && f.is_parsed(kind, negative, num, den, big),
                _ => r is Err,
            },
    {
        if !explicit {
            match byte_at(value, 0) {
                Some(b) => {
                    if !(b == 0x2b || b == 0x2d || b == 0x2e || (0x30 <= b && b <= 0x39)) {
                        return Err(());
                    }
                }
                None => return Err(()),
            }
        }
        let ghost v = value@;
        let mut st = FloatReader {
            p: 0,
            q: 0,
            f: FloatFlags {
                sign: false,
                neg: false,
                num: false,
                dot: false,
                e: false,
                esign: false,
                eneg: false,
                end: false,
                actual: false,
                nan: false,
                inf: false,
            },
            num: Mint::new(),
            den: Mint::one(),
            exp: 0,
        };
        proof {
            assert(st.scan() == float_start());
            assert(is_pow10(1));
        }
        loop
            invariant_except_break
                float_run(v, explicit, base60, optional_dot, float_start()) == float_run(
                    v,
                    explicit,
                    base60,
                    optional_dot,
                    st.scan(),
                ),
            invariant
                v == value@,
                st.ok(v.len()),
            ensures
                float_run(v, explicit, base60, optional_dot, float_start()) == Some(Some(st.scan())),
                st.ok(v.len()),
            decreases v.len() - st.p, st.measure(),
        {
            if st.p >= value.len() {
                break;
            }
            let r = float_step(value, explicit, base60, optional_dot, &mut st);
            if r == 1 {
                break;
            } else if r >= 2 {
                return Err(());
            }
        }
        let FloatReader { p, q, f, num, den, exp } = st;
        let mut p = p;
        if f.end {
            if p == 0 {
                return Err(());
            }
            if q > 0 {
                if p < value.len() && ((value[p] == 0x22 && q == 2) || (value[p] == 0x27 && q == 1)) {
                    p = p + 1;
                } else {
                    return Err(());
                }
            }
            if !only_blanks_from(value, p) {
                return Err(());
            }
        }
        if f.nan {
            return Ok(MaybeBigFraction::nan());
        }
        if f.inf {
            return Ok(MaybeBigFraction::infinity(f.neg));
        }
        if !f.num {
            return Err(());
        }
        let mut num = num;
        let mut den = den;
        let ghost n0 = num.spec_value() as int;
        let ghost d0 = den.spec_value() as int;
        let ghost nb0 = num.spec_is_big();
        let ghost db0 = den.spec_is_big();
        if f.e && exp > 0 {
            let mut i: u64 = 0;
            while i < exp
                invariant
                    i <= exp,
                    is_pow10(den.spec_value() as int),
                    apply_exp(num.spec_value() as int, den.spec_value() as int, (exp - i) as nat, f.eneg, num.spec_is_big(), den.spec_is_big())
                        == apply_exp(n0, d0, exp as nat, f.eneg, nb0, db0),
                decreases exp - i,
            {
                proof {
                    lemma_pow10_facts(den.spec_value() as int);
                }
                if f.eneg {
                    den.mul_add(10, 0);
                } else if den.gt_one() {
                    den.div10();
                } else {
                    num.mul_add(10, 0);
                }
                i = i + 1;
            }
        }
        proof {
            lemma_pow10_facts(den.spec_value() as int);
        }
        let value = MaybeBigFraction::new(num, den);
        if f.neg {
            Ok(value.negate())
        } else {
            Ok(value)
        }
    }
}

/// What a float is written as: `.nan`, `.inf` or `-.inf`, or the decimal
/// spelling of the fraction (see `fraction_text`).
pub open spec fn float_text(f: MaybeBigFraction) -> Seq<u8> {
    if f.spec_is_nan() {
        seq![0x2eu8, 0x6e, 0x61, 0x6e]
    } else if f.spec_is_infinite() {
        if f.spec_is_negative() {
            seq![0x2du8, 0x2e, 0x69, 0x6e, 0x66]
        } else {
            seq![0x2eu8, 0x69, 0x6e, 0x66]
        }
    } else {
        fraction_text(f.spec_is_negative(), f.spec_num(), f.spec_den())
    }
}

impl Float {
    /// Writes the number (see `float_text`), preceded by the tag and anchor
    /// as the value's styles ask.
    pub fn encode(&self, _renderer: &Renderer, value: TaggedValue, tags: &[(String, String)]) -> (r: Result<Rope, TaggedValue>)
        ensures
            match value {
                TaggedValue::Float(v) => r matches Ok(rope) && (issued_prefix(
                    rope@,
                    TAG.spec_bytes(),
                    tags@,
                    v.spec_issue_tag(),
                    v.spec_alias(),
                ) && is_string_node(rope@.last(), float_text(v.spec_value()))),
                _ => r == Err::<Rope, TaggedValue>(value),
            },
    {
        let mut val = match value {
            TaggedValue::Float(v) => v,
            other => return Err(other),
        };
        let issue_tag = val.issue_tag();
        let alias = val.take_alias();
        let bytes: Vec<u8> = if val.value.is_nan() {
            let mut b: Vec<u8> = Vec::new();
            b.push(0x2e);
            b.push(0x6e);
            b.push(0x61);
            b.push(0x6e);
            b
        } else if val.value.is_infinite() {
            let mut b: Vec<u8> = Vec::new();
            if val.value.is_negative() {
                b.push(0x2d);
            }
            b.push(0x2e);
            b.push(0x69);
            b.push(0x6e);
            b.push(0x66);
            b
        } else {
            match &val.value.value {
                FractionValue::Rational(neg, n, d) => {
                    proof {
                        use_type_invariant(&val.value);
                    }
                    write_fraction(*neg, n, d)
                }
                _ => Vec::new(),
            }
        };
        proof {
            assert(bytes@ =~= float_text(val.spec_value()));
        }
        let node = Node::String(EncodedString::String(bytes));
        Ok(model_issue_rope(self, node, issue_tag, alias, tags))
    }

    /// Reads a YAML 1.2 float.
    pub fn decode(&self, explicit: bool, value: &[u8]) -> (r: Result<TaggedValue, ()>)
        ensures
            match float_parse(explicit, value@, false, true) {
                Some(Some((kind, negative, num, den, big))) => r matches Ok(t) && (t matches TaggedValue::Float(v)
                    && v.is_plain() && v.spec_value().is_parsed(kind, negative, num, den, big)),
                _ => r is Err,
            },
    {
        match self.base_decode(explicit, value, false, true) {
            Ok(f) => Ok(TaggedValue::Float(FloatValue::new(f))),
            Err(()) => Err(()),
        }
    }

    /// Reads a YAML 1.1 float: base 60 groups are known, and an exponent
    /// needs a dot before it.
    pub fn decode11(&self, explicit: bool, value: &[u8]) -> (r: Result<TaggedValue, ()>)
        ensures
            match float_parse(explicit, value@, true, false) {
                Some(Some((kind, negative, num, den, big))) => r matches Ok(t) && (t matches TaggedValue::Float(v)
                    && v.is_plain() && v.spec_value().is_parsed(kind, negative, num, den, big)),
                _ => r is Err,
            },
    {
        match self.base_decode(explicit, value, true, false) {
            Ok(f) => Ok(TaggedValue::Float(FloatValue::new(f))),
            Err(()) => Err(()),
        }
    }
}

impl Model for Float {
    fn is_metamodel(&self) -> (r: bool) {
        false
    }

    open spec fn spec_is_decodable(&self) -> bool {
        true
    }

    open spec fn spec_is_encodable(&self) -> bool {
        true
    }

    fn has_default(&self) -> (r: bool) {
        false
    }

    fn is_sequence(&self) -> (r: bool) {
        false
    }

    fn is_dictionary(&self) -> (r: bool) {
        false
    }

    open spec fn spec_tag(&self) -> &'static str {
        TAG
    }

    fn get_tag(&self) -> (r: &'static str) {
        TAG
    }

    fn is_decodable(&self) -> (r: bool)
        ensures
            r,
    {
        true
    }

    fn is_encodable(&self) -> (r: bool)
        ensures
            r,
    {
        true
    }
}

/// A float, with its presentation.
#[derive(Debug)]
pub struct FloatValue {
    style: u8,
    alias: Option<String>,
    value: MaybeBigFraction,
}

impl FloatValue {
    pub closed spec fn spec_issue_tag(&self) -> bool {
        self.style & 1 == 1
    }

    pub closed spec fn spec_alias(&self) -> Option<String> {
        self.alias
    }

    /// The number.
    pub closed spec fn spec_value(&self) -> MaybeBigFraction {
        self.value
    }

    /// No tag issued, no anchor.
    pub open spec fn is_plain(&self) -> bool {
        !self.spec_issue_tag() && self.spec_alias() is None
    }

    fn new(value: MaybeBigFraction) -> (r: FloatValue)
        ensures
            r.is_plain(),
            r.spec_value() == value,
    {
        proof {
            lemma_u8_flag(0, 1, 1);
        }
        FloatValue { style: 0, alias: None, value }
    }

    /// A fraction of machine words: `num / den` with the given sign;
    /// not-a-number where both are zero, an infinity where only the
    /// denominator is.
    pub fn from_fraction(negative: bool, num: u64, den: u64) -> (r: FloatValue)
        ensures
            r.is_plain(),
            !r.spec_value().spec_is_big(),
            den == 0 && num == 0 ==> r.spec_value().spec_is_nan(),
            den == 0 && num != 0 ==> r.spec_value().spec_is_infinite() && r.spec_value().spec_is_negative() == negative,
            den != 0 ==> r.spec_value().spec_is_rational() && r.spec_value().spec_is_negative() == negative
                && r.spec_value().spec_num() == num && r.spec_value().spec_den() == den,
    {
        if den == 0 {
            if num == 0 {
                FloatValue::new(MaybeBigFraction::nan())
            } else {
                FloatValue::new(MaybeBigFraction::infinity(negative))
            }
        } else {
            proof {
                assert(digits_value(seq![1u32].drop_first()) == 0);
            }
            let n = digits_from_u64(num);
            let d = digits_from_u64(den);
            FloatValue::new(MaybeBigFraction { big: false, value: FractionValue::Rational(negative, n, d) })
        }
    }

    /// A fraction of numbers of any size: `num / den` with the given sign;
    /// none for a zero denominator.
    pub fn from_big_fraction(negative: bool, num: Vec<u32>, den: Vec<u32>) -> (r: Option<FloatValue>)
        ensures
            r is Some <==> digits_value(den@) > 0,
            r matches Some(v) ==> v.is_plain() && v.spec_value().spec_is_big() && v.spec_value().spec_is_rational()
                && v.spec_value().spec_is_negative() == negative && v.spec_value().spec_num() == digits_value(num@)
                && v.spec_value().spec_den() == digits_value(den@),
    {
        match MaybeBigFraction::from_parts(negative, num, den, true) {
            Some(f) => Some(FloatValue::new(f)),
            None => None,
        }
    }

    /// Not a number.
    pub fn nan() -> (r: FloatValue)
        ensures
            r.is_plain(),
            r.spec_value().spec_is_nan(),
    {
        FloatValue::new(MaybeBigFraction::nan())
    }

    /// An infinity.
    pub fn infinity(negative: bool) -> (r: FloatValue)
        ensures
            r.is_plain(),
            r.spec_value().spec_is_infinite(),
            r.spec_value().spec_is_negative() == negative,
    {
        FloatValue::new(MaybeBigFraction::infinity(negative))
    }

    pub fn set_alias(&mut self, alias: Option<String>)
        ensures
            final(self).spec_alias() == alias,
            final(self).spec_issue_tag() == old(self).spec_issue_tag(),
            final(self).spec_value() == old(self).spec_value(),
    {
        self.alias = alias;
    }

    pub fn take_alias(&mut self) -> (r: Option<String>)
        ensures
            r == old(self).spec_alias(),
            final(self).spec_alias() is None,
            final(self).spec_issue_tag() == old(self).spec_issue_tag(),
            final(self).spec_value() == old(self).spec_value(),
    {
        self.alias.take()
    }

    /// Takes over the styles that apply to every value: whether the tag is
    /// issued.
    pub fn init_common_styles(&mut self, common_styles: CommonStyles)
        ensures
            final(self).spec_issue_tag() == common_styles.spec_issue_tag(),
            final(self).spec_alias() == old(self).spec_alias(),
            final(self).spec_value() == old(self).spec_value(),
    {
        self.set_issue_tag(common_styles.issue_tag());
    }

    pub fn issue_tag(&self) -> (r: bool)
        ensures
            r == self.spec_issue_tag(),
    {
        self.style & 1 == 1
    }

    pub fn set_issue_tag(&mut self, val: bool)
        ensures
            final(self).spec_issue_tag() == val,
            final(self).spec_alias() == old(self).spec_alias(),
            final(self).spec_value() == old(self).spec_value(),
    {
        let s = self.style;
        proof {
            lemma_u8_flag(s, 1, 1);
        }
        if val {
            self.style = s | 1;
        } else {
            self.style = s & !1;
        }
    }

    /// The sign; none for not-a-number.
    pub fn sign(&self) -> (r: Option<Sign>)
        ensures
            r == (if self.spec_value().spec_is_nan() { None } else if self.spec_value().spec_is_negative() {
                Some(Sign::Minus)
            } else {
                Some(Sign::Plus)
            }),
    {
        self.value.sign()
    }

    /// Holds the number with numbers of any size from now on.
    pub fn promote(&mut self)
        ensures
            final(self).spec_value().spec_is_big(),
            final(self).spec_value().spec_is_nan() == old(self).spec_value().spec_is_nan(),
            final(self).spec_value().spec_is_infinite() == old(self).spec_value().spec_is_infinite(),
            final(self).spec_value().spec_is_rational() == old(self).spec_value().spec_is_rational(),
            final(self).spec_value().spec_is_negative() == old(self).spec_value().spec_is_negative(),
            final(self).spec_value().spec_num() == old(self).spec_value().spec_num(),
            final(self).spec_value().spec_den() == old(self).spec_value().spec_den(),
            final(self).spec_alias() == old(self).spec_alias(),
            final(self).spec_issue_tag() == old(self).spec_issue_tag(),
    {
        self.value.promote();
    }

    pub fn is_nan(&self) -> (r: bool)
        ensures
            r == self.spec_value().spec_is_nan(),
    {
        self.value.is_nan()
    }

    pub fn is_negative(&self) -> (r: bool)
        ensures
            r == self.spec_value().spec_is_negative(),
    {
        self.value.is_negative()
    }

    pub fn is_infinite(&self) -> (r: bool)
        ensures
            r == self.spec_value().spec_is_infinite(),
    {
        self.value.is_infinite()
    }

    /// The decimal spelling of a fraction (see `fraction_text`); none for
    /// not-a-number and the infinities.
    pub fn format_as_float(&self) -> (r: Option<String>)
        ensures
            self.spec_value().spec_is_rational() ==> (r matches Some(s) && string_bytes(s) == fraction_text(
                self.spec_value().spec_is_negative(),
                self.spec_value().spec_num(),
                self.spec_value().spec_den(),
            )),
            !self.spec_value().spec_is_rational() ==> r is None,
    {
        self.value.format_as_float()
    }

    /// The sign, numerator and denominator of a fraction.
    pub fn fraction_parts(&self) -> (r: Option<(bool, Vec<u32>, Vec<u32>)>)
        ensures
            self.spec_value().spec_is_rational() ==> (r matches Some((neg, n, d)) && neg == self.spec_value().spec_is_negative()
                && digits_value(n@) == self.spec_value().spec_num() && digits_value(d@) == self.spec_value().spec_den()
                && digits_value(d@) > 0),
            !self.spec_value().spec_is_rational() ==> r is None,
    {
        proof {
            use_type_invariant(&self.value);
        }
        match &self.value.value {
            FractionValue::Rational(neg, n, d) => Some((*neg, n.clone(), d.clone())),
            _ => None,
        }
    }

    /// The number, where it is a whole one that fits in an `i64`.
    pub fn to_i64(&self) -> (r: Option<i64>)
        ensures
            r == (if self.spec_value().spec_is_rational() && self.spec_value().spec_num() % self.spec_value().spec_den() == 0
                && self.spec_value().spec_num() / self.spec_value().spec_den() <= i64::MAX {
                Some(
                    (if self.spec_value().spec_is_negative() {
                        -(self.spec_value().spec_num() / self.spec_value().spec_den())
                    } else {
                        (self.spec_value().spec_num() / self.spec_value().spec_den()) as int
                    }) as i64,
                )
            } else {
                None::<i64>
            }),
    {
        proof {
            use_type_invariant(&self.value);
        }
        match &self.value.value {
            FractionValue::Rational(neg, n, d) => {
                let (q, m) = big_div_rem(n, d);
                proof {
                    assert(m@.skip(0) =~= m@);
                }
                if !digits_zero_from(&m, 0) {
                    return None;
                }
                match digits_to_u64(&q) {
                    Some(v) => {
                        if v <= 0x7fff_ffff_ffff_ffff {
                            let w = v as i64;
                            if *neg {
                                Some(-w)
                            } else {
                                Some(w)
                            }
                        } else {
                            None
                        }
                    }
                    None => None,
                }
            }
            _ => None,
        }
    }

    /// The number, where it is a whole one, not negative, that fits in a
    /// `u64`.
    pub fn to_u64(&self) -> (r: Option<u64>)
        ensures
            r == (if self.spec_value().spec_is_rational() && !self.spec_value().spec_is_negative()
                && self.spec_value().spec_num() % self.spec_value().spec_den() == 0
                && self.spec_value().spec_num() / self.spec_value().spec_den() <= u64::MAX {
                Some((self.spec_value().spec_num() / self.spec_value().spec_den()) as u64)
            } else {
                None::<u64>
            }),
    {
        proof {
            use_type_invariant(&self.value);
        }
        match &self.value.value {
            FractionValue::Rational(neg, n, d) => {
                if *neg {
                    return None;
                }
                let (q, m) = big_div_rem(n, d);
                proof {
                    assert(m@.skip(0) =~= m@);
                }
                if !digits_zero_from(&m, 0) {
                    return None;
                }
                digits_to_u64(&q)
            }
            _ => None,
        }
    }
}

impl Tagged for FloatValue {
    open spec fn spec_tag(&self) -> &'static str {
        TAG
    }

    fn get_tag(&self) -> (r: &'static str) {
        TAG
    }
}

impl From<MaybeBigFraction> for FloatValue {
    fn from(f: MaybeBigFraction) -> (r: FloatValue)
        ensures
            r.is_plain(),
            r.spec_value() == f,
    {
        proof {
            lemma_u8_flag(0, 1, 1);
        }
        FloatValue { style: 0, alias: None, value: f }
    }
}

impl vstd::std_specs::convert::FromSpecImpl<MaybeBigFraction> for FloatValue {
    open spec fn obeys_from_spec() -> bool {
        true
    }

    closed spec fn from_spec(f: MaybeBigFraction) -> FloatValue {
        FloatValue { style: 0, alias: None, value: f }
    }
}

} // verus!
