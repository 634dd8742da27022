//! The Miller-Rabin probable-prime test, with a number of witnesses that grows
//! with the decimal length of the candidate.
//!
//! The witnesses are fixed, not drawn at random, so the answer for a given
//! number never changes; they are not a set chosen for cryptographic use.
use crate::modpow::{bmodpow, modpow};
use crate::natural::{
    add_usize, decimal_digit_count, decimal_len, decimal_text_value, div_u32, equals,
    is_decimal_text, lemma_limbs_value_bound, less_than, multiply, rem, subtract, Natural,
    ParseError,
};
use vstd::arithmetic::power::lemma_pow_increases;
use vstd::arithmetic::power2::{lemma2_to64, lemma_pow2, lemma_pow2_unfold, pow2};
use vstd::prelude::*;

verus! {

/// What is left of `m` once every factor two is divided out (zero stays zero).
pub open spec fn odd_part(m: nat) -> nat
    decreases m,
{
    if m > 0 && m % 2 == 0 {
        odd_part(m / 2)
    } else {
        m
    }
}

/// How many times two divides `m` (zero counts none).
pub open spec fn twos(m: nat) -> nat
    decreases m,
{
    if m > 0 && m % 2 == 0 {
        1 + twos(m / 2)
    } else {
        0
    }
}

/// Squaring `x` modulo `n` again and again, at most `rounds` times, reaches
/// `n - 1` before it reaches 1.
pub open spec fn squarings_reach_minus_one(x: nat, n: nat, rounds: nat) -> bool
    decreases rounds,
{
    if rounds == 0 {
        false
    } else {
        let y = (x * x) % n;
        if y == 1 {
            false
        } else if y == n - 1 {
            true
        } else {
            squarings_reach_minus_one(y, n, (rounds - 1) as nat)
        }
    }
}

/// Witness `w` finds no proof that the odd number `n` is composite: with
/// `n - 1 == 2^s * d` and `d` odd, `w^d` is 1 or `n - 1` modulo `n`, or one of
/// the next `s - 1` squarings reaches `n - 1` before it reaches 1.
pub open spec fn witness_passes(n: nat, w: nat) -> bool {
    let d = odd_part((n - 1) as nat);
    let s = twos((n - 1) as nat);
    let x = modpow(w, d, n);
    x == 1 || x == n - 1 || squarings_reach_minus_one(x, n, (s - 1) as nat)
}

/// The largest witness tried on `n`: its decimal length plus three. The
/// witnesses are 3, 4, ... up to it.
pub open spec fn last_witness(n: nat) -> nat {
    decimal_digit_count(n) + 3
}

/// The answer of the test: below 2 no; 2, 3 and 5 yes; other even numbers no;
/// any other number yes exactly when every witness passes.
pub open spec fn is_probable_prime(n: nat) -> bool {
    if n < 2 {
        false
    } else if n == 2 || n == 3 || n == 5 {
        true
    } else if n % 2 == 0 {
        false
    } else {
        forall|w: nat| 3 <= w <= last_witness(n) ==> #[trigger] witness_passes(n, w)
    }
}

/// Numbers below two, and even numbers above two, are never reported prime.
pub proof fn lemma_small_or_even_not_prime(n: nat)
    requires
        n < 2 || (n > 2 && n % 2 == 0),
    ensures
        !is_probable_prime(n),
{
}

/// The answer depends on the value alone: equal values, however written and
/// however often tested, get the same answer, and so do equal arguments of
/// `modpow`.
pub proof fn lemma_answers_depend_on_values_only(
    n1: nat,
    n2: nat,
    base1: nat,
    base2: nat,
    exponent1: nat,
    exponent2: nat,
    modulus1: nat,
    modulus2: nat,
)
    requires
        n1 == n2,
        base1 == base2,
        exponent1 == exponent2,
        modulus1 == modulus2,
    ensures
        is_probable_prime(n1) == is_probable_prime(n2),
        modpow(base1, exponent1, modulus1) == modpow(base2, exponent2, modulus2),
{
}

/// `2^twos(m)` divides into `m`, so it is no larger.
proof fn lemma_twos_bound(m: nat)
    requires
        m > 0,
    ensures
        pow2(twos(m)) <= m,
    decreases m,
{
    if m % 2 == 0 {
        lemma_twos_bound(m / 2);
        lemma_pow2_unfold(twos(m));
    } else {
        lemma2_to64();
    }
}

/// Runs witness `w` against the odd number `n > 5`, given `n - 1`, its odd part
/// and the number of halvings that reach it.
fn witness_passes_exec(n: &Natural, n_sub: &Natural, w: &Natural, exponent: &Natural, trials: u128) -> (r: bool)
    requires
        n@ > 5,
        n@ % 2 == 1,
        n_sub@ == n@ - 1,
        exponent@ == odd_part(n_sub@),
        trials == twos(n_sub@),
    ensures
        r == witness_passes(n@, w@),
{
    let one = Natural::from_u32(1);
    let mut result = bmodpow(w, exponent, n);
    if equals(&result, &one) || equals(&result, n_sub) {
        return true;
    }
    assert(trials >= 1);
    let mut j: u128 = 1;
    while j < trials
        invariant
            1 <= j <= trials,
            n@ > 5,
            n_sub@ == n@ - 1,
            trials == twos(n_sub@),
            one@ == 1,
            witness_passes(n@, w@) == squarings_reach_minus_one(result@, n@, (trials - j) as nat),
        decreases trials - j,
    {
        let sq = multiply(&result, &result);
        result = rem(&sq, n);
        if equals(&result, &one) {
            return false;
        }
        if equals(&result, n_sub) {
            return true;
        }
        j = j + 1;
    }
    false
}

/// Whether `n` is probably prime, by the Miller-Rabin test with witnesses 3, 4,
/// ... up to the decimal length of `n` plus three.
///
/// A `false` answer is certain; a `true` answer may be wrong for a composite
/// that every witness fails to expose.
pub fn is_prime(n: Natural) -> (r: bool)
    ensures
        r == is_probable_prime(n@),
{
    let zero = Natural::from_u32(0);
    let one = Natural::from_u32(1);
    let two = Natural::from_u32(2);
    let three = Natural::from_u32(3);
    let five = Natural::from_u32(5);
    if less_than(&n, &two) {
        return false;
    }
    if equals(&n, &two) || equals(&n, &three) || equals(&n, &five) {
        return true;
    }
    if equals(&rem(&n, &two), &zero) {
        return false;
    }
    let n_sub = subtract(&n, &one);
    let limb_count = n.limbs.len();
    proof {
        lemma_limbs_value_bound(n.limbs@);
        lemma_twos_bound(n_sub@);
        if twos(n_sub@) >= 32 * limb_count {
            lemma_pow2(twos(n_sub@));
            lemma_pow2(32 * limb_count as nat);
            lemma_pow_increases(2, 32 * limb_count as nat, twos(n_sub@));
        }
    }
    let mut exponent = n_sub.duplicate();
    let mut trials: u128 = 0;
    while equals(&rem(&exponent, &two), &zero)
        invariant
            exponent@ > 0,
            two@ == 2,
            zero@ == 0,
            odd_part(exponent@) == odd_part(n_sub@),
            trials + twos(exponent@) == twos(n_sub@),
            twos(n_sub@) < 32 * limb_count,
        decreases exponent@,
    {
        exponent = div_u32(&exponent, 2);
        trials = trials + 1;
    }
    let len = decimal_len(&n);
    let mut k: usize = 0;
    loop
        invariant
            k <= len,
            len == decimal_digit_count(n@),
            three@ == 3,
            n@ > 5,
            n@ % 2 == 1,
            n_sub@ == n@ - 1,
            exponent@ == odd_part(n_sub@),
            trials == twos(n_sub@),
            forall|v: nat| 3 <= v < k + 3 ==> #[trigger] witness_passes(n@, v),
        ensures
            is_probable_prime(n@),
        decreases len - k,
    {
        let w = add_usize(&three, k);
        if !witness_passes_exec(&n, &n_sub, &w, &exponent, trials) {
            return false;
        }
        if k == len {
            break;
        }
        k = k + 1;
    }
    true
}

/// Reads `text` as an unsigned decimal integer and tests it as `is_prime`
/// does; text that is no such number gives `ParseError::InvalidFormat`.
pub fn is_prime_from_str(text: &str) -> (r: Result<bool, ParseError>)
    ensures
        r is Ok <==> is_decimal_text(text@),
        r matches Ok(b) ==> b == is_probable_prime(decimal_text_value(text@)),
        r matches Err(e) ==> e == ParseError::InvalidFormat,
{
    match Natural::from_decimal_str(text) {
        Ok(n) => Ok(is_prime(n)),
        Err(e) => Err(e),
    }
}

} // verus!
