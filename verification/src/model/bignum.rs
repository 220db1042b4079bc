//! Natural numbers of any size, held as base 2^32 digits (least significant
//! first), and the arithmetic on them that the `num` crate computes.
use vstd::prelude::*;

verus! {

/// The number that little-endian base 2^32 digits stand for.
pub open spec fn digits_value(d: Seq<u32>) -> nat
    decreases d.len(),
{
    if d.len() == 0 {
        0
    } else {
        d[0] as nat + 0x1_0000_0000 * digits_value(d.drop_first())
    }
}

/// The decimal digits (values 0 to 9, most significant first) of `n`.
pub open spec fn nat_digits(n: nat) -> Seq<u8>
    decreases n,
{
    if n < 10 {
        seq![n as u8]
    } else {
        nat_digits(n / 10).push((n % 10) as u8)
    }
}

/// The decimal spelling of `n`.
pub open spec fn nat_decimal(n: nat) -> Seq<u8> {
    nat_digits(n).map_values(|d: u8| (d + 0x30) as u8)
}

/// `BigUint * u32`: the digits of the product.
#[verifier::external_body]
pub fn big_mul_small(a: &Vec<u32>, m: u32) -> (r: Vec<u32>)
    ensures
        digits_value(r@) == digits_value(a@) * m,
{
    (num::BigUint::from_slice(a.as_slice()) * m).to_u32_digits()
}

/// `BigUint + u32`: the digits of the sum.
#[verifier::external_body]
pub fn big_add_small(a: &Vec<u32>, c: u32) -> (r: Vec<u32>)
    ensures
        digits_value(r@) == digits_value(a@) + c,
{
    (num::BigUint::from_slice(a.as_slice()) + c).to_u32_digits()
}

/// `BigUint / u32` (which panics on zero): the digits of the quotient.
#[verifier::external_body]
pub fn big_div_small(a: &Vec<u32>, m: u32) -> (r: Vec<u32>)
    requires
        m > 0,
    ensures
        digits_value(r@) == digits_value(a@) / (m as nat),
{
    (num::BigUint::from_slice(a.as_slice()) / m).to_u32_digits()
}

/// `BigUint::div_rem` (which panics on a zero divisor): the digits of the
/// quotient and of the remainder.
#[verifier::external_body]
pub fn big_div_rem(a: &Vec<u32>, b: &Vec<u32>) -> (r: (Vec<u32>, Vec<u32>))
    requires
        digits_value(b@) > 0,
    ensures
        digits_value(r.0@) == digits_value(a@) / digits_value(b@),
        digits_value(r.1@) == digits_value(a@) % digits_value(b@),
{
    let (q, m) = num::Integer::div_rem(&num::BigUint::from_slice(a.as_slice()), &num::BigUint::from_slice(b.as_slice()));
    (q.to_u32_digits(), m.to_u32_digits())
}

/// `BigUint::to_radix_be(10)`: the decimal digits, most significant first.
#[verifier::external_body]
pub fn big_decimal_digits(a: &Vec<u32>) -> (r: Vec<u8>)
    ensures
        r@ == nat_digits(digits_value(a@)),
{
    num::BigUint::from_slice(a.as_slice()).to_radix_be(10)
}

/// The digits of a `u64`.
pub fn digits_from_u64(v: u64) -> (r: Vec<u32>)
    ensures
        digits_value(r@) == v,
{
    let lo = (v % 0x1_0000_0000) as u32;
    let hi = (v / 0x1_0000_0000) as u32;
    let mut r: Vec<u32> = Vec::new();
    r.push(lo);
    r.push(hi);
    proof {
        let tail = r@.drop_first();
        assert(tail.drop_first() =~= Seq::<u32>::empty());
        assert(digits_value(tail.drop_first()) == 0);
        assert(tail[0] == hi);
        assert(digits_value(tail) == hi as nat);
        assert(r@[0] == lo);
        assert(v == lo + 0x1_0000_0000 * hi);
    }
    r
}

/// Whether the digits from index `k` on stand for zero.
pub fn digits_zero_from(d: &Vec<u32>, k: usize) -> (r: bool)
    requires
        k <= d@.len(),
    ensures
        r == (digits_value(d@.skip(k as int)) == 0),
{
    let mut i: usize = d.len();
    let mut zero = true;
    proof {
        assert(d@.skip(i as int) =~= Seq::<u32>::empty());
    }
    while i > k
        invariant
            i <= d@.len(),
            k <= i,
            zero == (digits_value(d@.skip(i as int)) == 0),
        decreases i,
    {
        i = i - 1;
        proof {
            assert(d@.skip(i as int).drop_first() =~= d@.skip(i + 1));
        }
        if d[i] != 0 {
            zero = false;
        }
    }
    zero
}

/// Whether the number is greater than one.
pub fn digits_gt_one(d: &Vec<u32>) -> (r: bool)
    ensures
        r == (digits_value(d@) > 1),
{
    if d.len() == 0 {
        return false;
    }
    let high_zero = digits_zero_from(d, 1);
    proof {
        assert(d@.drop_first() =~= d@.skip(1));
    }
    !high_zero || d[0] > 1
}

/// The number as a `u64`, where it fits in one.
pub fn digits_to_u64(d: &Vec<u32>) -> (r: Option<u64>)
    ensures
        r == (if digits_value(d@) <= u64::MAX { Some(digits_value(d@) as u64) } else { None::<u64> }),
{
    if d.len() == 0 {
        return Some(0);
    }
    let lo = d[0] as u64;
    proof {
        assert(d@.drop_first() =~= d@.skip(1));
    }
    if d.len() == 1 {
        proof {
            assert(d@.skip(1) =~= Seq::<u32>::empty());
            assert(digits_value(d@.drop_first()) == 0);
        }
        return Some(lo);
    }
    let ghost tail = d@.drop_first();
    proof {
        assert(tail.drop_first() =~= d@.skip(2));
        assert(tail[0] == d@[1]);
    }
    if !digits_zero_from(d, 2) {
        proof {
            assert(digits_value(tail) >= 0x1_0000_0000 * digits_value(tail.drop_first())) by (nonlinear_arith)
                requires
                    digits_value(tail) == tail[0] as nat + 0x1_0000_0000 * digits_value(tail.drop_first()),
            ;
            assert(digits_value(tail) >= 0x1_0000_0000);
            assert(digits_value(d@) >= 0x1_0000_0000 * digits_value(tail)) by (nonlinear_arith)
                requires
                    digits_value(d@) == d@[0] as nat + 0x1_0000_0000 * digits_value(tail),
            ;
            assert(0x1_0000_0000 * digits_value(tail) >= 0x1_0000_0000 * 0x1_0000_0000) by (nonlinear_arith)
                requires
                    digits_value(tail) >= 0x1_0000_0000,
            ;
        }
        return None;
    }
    let hi = d[1] as u64;
    proof {
        assert(digits_value(tail) == hi);
    }
    Some(lo + hi * 0x1_0000_0000)
}

/// The decimal spelling of a number given by its decimal digits.
pub fn ascii_digits(d: &Vec<u8>) -> (r: Vec<u8>)
    requires
        forall|i: int| 0 <= i < d@.len() ==> d@[i] < 10,
    ensures
        r@ == d@.map_values(|x: u8| (x + 0x30) as u8),
{
    let mut r: Vec<u8> = Vec::new();
    let mut i: usize = 0;
    while i < d.len()
        invariant
            i <= d@.len(),
            forall|k: int| 0 <= k < d@.len() ==> d@[k] < 10,
            r@ == d@.subrange(0, i as int).map_values(|x: u8| (x + 0x30) as u8),
        decreases d@.len() - i,
    {
        r.push(d[i] + 0x30);
        i = i + 1;
        assert(r@ =~= d@.subrange(0, i as int).map_values(|x: u8| (x + 0x30) as u8));
    }
    assert(d@.subrange(0, d@.len() as int) =~= d@);
    r
}

/// The decimal spelling of a `u64`.
pub fn u64_decimal(n: u64) -> (r: Vec<u8>)
    ensures
        r@ == nat_decimal(n as nat),
    decreases n,
{
    if n < 10 {
        let mut v: Vec<u8> = Vec::new();
        v.push((n as u8) + 0x30);
        assert(v@ =~= nat_decimal(n as nat));
        v
    } else {
        let mut v = u64_decimal(n / 10);
        v.push(((n % 10) as u8) + 0x30);
        proof {
            assert(nat_digits(n as nat) == nat_digits((n / 10) as nat).push((n % 10) as u8));
            assert(v@ =~= nat_decimal(n as nat));
        }
        v
    }
}

/// The digits of any number are below ten.
pub proof fn lemma_nat_digits_small(n: nat)
    ensures
        forall|i: int| 0 <= i < nat_digits(n).len() ==> nat_digits(n)[i] < 10,
        nat_digits(n).len() >= 1,
    decreases n,
{
    if n >= 10 {
        lemma_nat_digits_small(n / 10);
    }
}

} // verus!
