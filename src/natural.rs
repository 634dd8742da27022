//! Arbitrary-precision unsigned integers as little-endian base-2^32 limbs.
//!
//! The arithmetic is done by `num_bigint::BigUint`; each operation used by the
//! library is a small wrapper whose contract states the result on the value of
//! its arguments.
use num_bigint::BigUint;
use std::str::FromStr;
use vstd::arithmetic::power2::{lemma2_to64, lemma_pow2_adds, lemma_pow2_pos, pow2};
use vstd::prelude::*;

verus! {

/// The binary digits of `n`, least significant first, with no zero digit at
/// the high end; zero is the single digit `0`.
pub open spec fn binary_digits(n: nat) -> Seq<u8>
    decreases n,
{
    if n < 2 {
        seq![n as u8]
    } else {
        seq![(n % 2) as u8] + binary_digits(n / 2)
    }
}

/// The number of digits in the decimal form of `n` (zero is written `0`).
pub open spec fn decimal_digit_count(n: nat) -> nat
    decreases n,
{
    if n < 10 {
        1
    } else {
        1 + decimal_digit_count(n / 10)
    }
}

pub open spec fn is_decimal_digit(c: char) -> bool {
    '0' <= c && c <= '9'
}

/// The text that stands after an optional leading `+`.
pub open spec fn unsigned_body(s: Seq<char>) -> Seq<char> {
    if s.len() > 0 && s[0] == '+' {
        s.drop_first()
    } else {
        s
    }
}

/// Decimal text: an optional `+`, then a digit, then digits and `_` separators.
pub open spec fn is_decimal_text(s: Seq<char>) -> bool {
    let b = unsigned_body(s);
    &&& b.len() > 0
    &&& b[0] != '_'
    &&& forall|i: int| 0 <= i < b.len() ==> is_decimal_digit(#[trigger] b[i]) || b[i] == '_'
}

/// The value of a run of decimal digits, `_` separators skipped.
pub open spec fn digits_value(b: Seq<char>) -> nat
    decreases b.len(),
{
    if b.len() == 0 {
        0
    } else if b.last() == '_' {
        digits_value(b.drop_last())
    } else {
        10 * digits_value(b.drop_last()) + ((b.last() as u32 - '0' as u32) as nat)
    }
}

/// The value that decimal text `s` stands for.
pub open spec fn decimal_text_value(s: Seq<char>) -> nat {
    digits_value(unsigned_body(s))
}

/// The value of little-endian base-2^32 limbs.
pub open spec fn limbs_value(limbs: Seq<u32>) -> nat
    decreases limbs.len(),
{
    if limbs.len() == 0 {
        0
    } else {
        limbs[0] as nat + 0x1_0000_0000 * limbs_value(limbs.drop_first())
    }
}

/// Limbs are a number below 2^(32 * count).
pub proof fn lemma_limbs_value_bound(limbs: Seq<u32>)
    ensures
        limbs_value(limbs) < pow2(32 * limbs.len()),
    decreases limbs.len(),
{
    if limbs.len() == 0 {
        lemma_pow2_pos(0);
        assert(pow2(0) == 1) by {
            lemma2_to64();
        }
    } else {
        let rest = limbs.drop_first();
        let p = pow2(32 * rest.len());
        lemma_limbs_value_bound(rest);
        lemma_pow2_adds(32, 32 * rest.len());
        assert(32 * limbs.len() == 32 + 32 * rest.len());
        lemma2_to64();
        assert(pow2(32) == 0x1_0000_0000);
        let v = limbs_value(rest);
        assert(0x1_0000_0000 * v <= 0x1_0000_0000 * (p - 1)) by (nonlinear_arith)
            requires
                v <= p - 1,
        ;
    }
}

/// An arbitrary-precision unsigned integer.
///
/// Any sequence of limbs is a valid value; zero limbs at the high end do not
/// change it.
#[derive(Clone, Debug)]
pub struct Natural {
    /// Base-2^32 digits, least significant first.
    pub limbs: Vec<u32>,
}

impl View for Natural {
    type V = nat;

    open spec fn view(&self) -> nat {
        limbs_value(self.limbs@)
    }
}

impl Natural {
    /// The integer `v`.
    pub fn from_u32(v: u32) -> (r: Natural)
        ensures
            r@ == v,
    {
        let r = Natural { limbs: vec![v] };
        proof {
            assert(r.limbs@.drop_first() =~= Seq::<u32>::empty());
            assert(limbs_value(r.limbs@.drop_first()) == 0);
        }
        r
    }

    /// A second value equal to this one.
    pub fn duplicate(&self) -> (r: Natural)
        ensures
            r@ == self@,
    {
        let r = Natural { limbs: self.limbs.clone() };
        proof {
            assert(r.limbs@ =~= self.limbs@);
        }
        r
    }

    /// Reads an unsigned decimal integer: an optional `+`, then a digit, then
    /// digits and `_` separators.
    pub fn from_decimal_str(s: &str) -> (r: Result<Natural, ParseError>)
        ensures
            r is Ok <==> is_decimal_text(s@),
            r matches Ok(v) ==> v@ == decimal_text_value(s@),
            r matches Err(e) ==> e == ParseError::InvalidFormat,
    {
        match parse_decimal(s) {
            Ok(v) => Ok(v),
            Err(_) => Err(ParseError::InvalidFormat),
        }
    }
}

/// The error returned by `BigUint::from_str`.
#[verifier::external_type_specification]
#[verifier::external_body]
pub struct ExParseBigIntError(num_bigint::ParseBigIntError);

/// Why text was not taken as a number.
#[derive(Clone, Copy, Debug, PartialEq, Eq, Structural)]
pub enum ParseError {
    /// The text is not an unsigned decimal integer.
    InvalidFormat,
}

/// Relies on `Shl<u32> for BigUint`: a shift left by `bits` multiplies by 2^bits.
#[verifier::external_body]
pub(crate) fn shl(a: &Natural, bits: u32) -> (r: Natural)
    ensures
        r@ == a@ * pow2(bits as nat),
{
    let p = BigUint::new(a.limbs.clone()) << bits;
    Natural { limbs: p.to_u32_digits() }
}

/// Relies on `Add<usize> for BigUint`: the exact sum.
#[verifier::external_body]
pub(crate) fn add_usize(a: &Natural, k: usize) -> (r: Natural)
    ensures
        r@ == a@ + k,
{
    let p = BigUint::new(a.limbs.clone()) + k;
    Natural { limbs: p.to_u32_digits() }
}

/// Relies on `Sub for BigUint`, which panics when `b` is larger than `a`.
#[verifier::external_body]
pub(crate) fn subtract(a: &Natural, b: &Natural) -> (r: Natural)
    requires
        b@ <= a@,
    ensures
        r@ == a@ - b@,
{
    let p = BigUint::new(a.limbs.clone()) - BigUint::new(b.limbs.clone());
    Natural { limbs: p.to_u32_digits() }
}

/// Relies on `Rem for BigUint`, which panics on a zero divisor.
#[verifier::external_body]
pub(crate) fn rem(a: &Natural, m: &Natural) -> (r: Natural)
    requires
        m@ > 0,
    ensures
        r@ == a@ % m@,
{
    let p = BigUint::new(a.limbs.clone()) % BigUint::new(m.limbs.clone());
    Natural { limbs: p.to_u32_digits() }
}

/// Relies on `Div<u32> for BigUint`: the quotient rounded down; panics on zero.
#[verifier::external_body]
pub(crate) fn div_u32(a: &Natural, d: u32) -> (r: Natural)
    requires
        d > 0,
    ensures
        r@ == a@ / (d as nat),
{
    let p = BigUint::new(a.limbs.clone()) / d;
    Natural { limbs: p.to_u32_digits() }
}

/// Relies on `PartialOrd for BigUint`: `<` orders by value.
#[verifier::external_body]
pub(crate) fn less_than(a: &Natural, b: &Natural) -> (r: bool)
    ensures
        r == (a@ < b@),
{
    BigUint::new(a.limbs.clone()) < BigUint::new(b.limbs.clone())
}

/// Relies on `PartialEq for BigUint`: `==` compares values.
#[verifier::external_body]
pub(crate) fn equals(a: &Natural, b: &Natural) -> (r: bool)
    ensures
        r == (a@ == b@),
{
    BigUint::new(a.limbs.clone()) == BigUint::new(b.limbs.clone())
}

/// Relies on `BigUint::to_radix_le` with radix 2: the binary digits, least
/// significant first (`[0]` for zero).
#[verifier::external_body]
pub(crate) fn to_binary_digits(a: &Natural) -> (r: Vec<u8>)
    ensures
        r@ == binary_digits(a@),
{
    BigUint::new(a.limbs.clone()).to_radix_le(2)
}

/// Relies on `Display for BigUint`: the decimal form, without leading zeros.
#[verifier::external_body]
pub(crate) fn decimal_len(a: &Natural) -> (r: usize)
    ensures
        r == decimal_digit_count(a@),
{
    BigUint::new(a.limbs.clone()).to_string().len()
}

/// Relies on `FromStr for BigUint` (radix 10): it takes an optional `+`, then a
/// digit, then digits and `_` separators, and refuses any other text.
#[verifier::external_body]
fn parse_decimal(s: &str) -> (r: Result<Natural, num_bigint::ParseBigIntError>)
    ensures
        r is Ok <==> is_decimal_text(s@),
        r matches Ok(v) ==> v@ == decimal_text_value(s@),
{
    BigUint::from_str(s).map(|v| Natural { limbs: v.to_u32_digits() })
}

/// Relies on `Mul for BigUint`: the exact product.
#[verifier::external_body]
pub(crate) fn multiply(a: &Natural, b: &Natural) -> (r: Natural)
    ensures
        r@ == a@ * b@,
{
    let p = BigUint::new(a.limbs.clone()) * BigUint::new(b.limbs.clone());
    Natural { limbs: p.to_u32_digits() }
}

} // verus!
