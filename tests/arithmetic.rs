use mersenne_prime_number_miller_rabin::{bmodpow, mersenne_number, Natural, ParseError};
use num_bigint::BigUint;

fn value(n: &Natural) -> BigUint {
    BigUint::new(n.limbs.clone())
}

fn natural_of(v: u64) -> Natural {
    Natural { limbs: BigUint::from(v).to_u32_digits() }
}

#[test]
fn mersenne_small_values() {
    assert_eq!(value(&mersenne_number(0)), BigUint::from(0u32));
    assert_eq!(value(&mersenne_number(1)), BigUint::from(1u32));
    assert_eq!(value(&mersenne_number(5)), BigUint::from(31u32));
}

#[test]
fn mersenne_sixty_one() {
    assert_eq!(value(&mersenne_number(61)), BigUint::from(2305843009213693951u64));
}

#[test]
fn mersenne_matches_shift_up_to_sixty_four() {
    for n in 0u32..=64 {
        let expected = (1u128 << n) - 1;
        assert_eq!(value(&mersenne_number(n)), BigUint::from(expected));
    }
}

#[test]
fn mersenne_beyond_one_limb_pair() {
    let expected = (BigUint::from(1u32) << 200u32) - BigUint::from(1u32);
    assert_eq!(value(&mersenne_number(200)), expected);
}

#[test]
fn bmodpow_example() {
    assert_eq!(value(&bmodpow(&natural_of(4), &natural_of(13), &natural_of(497))), BigUint::from(445u32));
}

#[test]
fn bmodpow_zero_exponent() {
    for base in 1u64..20 {
        for modulus in 2u64..20 {
            assert_eq!(value(&bmodpow(&natural_of(base), &natural_of(0), &natural_of(modulus))), BigUint::from(1u32));
        }
    }
}

#[test]
fn bmodpow_zero_base() {
    assert_eq!(value(&bmodpow(&natural_of(0), &natural_of(0), &natural_of(7))), BigUint::from(1u32));
    assert_eq!(value(&bmodpow(&natural_of(0), &natural_of(0), &natural_of(1))), BigUint::from(1u32));
    assert_eq!(value(&bmodpow(&natural_of(0), &natural_of(0), &natural_of(0))), BigUint::from(1u32));
    for k in 1u64..10 {
        assert_eq!(value(&bmodpow(&natural_of(0), &natural_of(k), &natural_of(7))), BigUint::from(0u32));
    }
}

#[test]
fn bmodpow_modulus_one() {
    for base in 1u64..10 {
        for exponent in 0u64..10 {
            assert_eq!(value(&bmodpow(&natural_of(base), &natural_of(exponent), &natural_of(1))), BigUint::from(0u32));
        }
    }
    assert_eq!(value(&bmodpow(&natural_of(0), &natural_of(3), &natural_of(1))), BigUint::from(0u32));
}

#[test]
fn bmodpow_matches_naive_power() {
    for base in 0u64..12 {
        for exponent in 0u32..12 {
            for modulus in 2u64..30 {
                let expected = BigUint::from(base).pow(exponent) % BigUint::from(modulus);
                let got = bmodpow(&natural_of(base), &natural_of(exponent as u64), &natural_of(modulus));
                assert_eq!(value(&got), expected);
            }
        }
    }
}

#[test]
fn bmodpow_large_operands() {
    let base = BigUint::from(0xDEAD_BEEF_1234_5678u64) << 70u32;
    let exponent = BigUint::from(1_000_003u64) << 40u32;
    let modulus = BigUint::from(2305843009213693951u64) * BigUint::from(1_000_000_007u64);
    let got = bmodpow(
        &Natural { limbs: base.to_u32_digits() },
        &Natural { limbs: exponent.to_u32_digits() },
        &Natural { limbs: modulus.to_u32_digits() },
    );
    assert_eq!(value(&got), base.modpow(&exponent, &modulus));
}

#[test]
fn natural_from_u32_and_duplicate() {
    let n = Natural::from_u32(4_000_000_000);
    assert_eq!(value(&n), BigUint::from(4_000_000_000u32));
    assert_eq!(value(&n.duplicate()), BigUint::from(4_000_000_000u32));
}

#[test]
fn natural_from_decimal_str() {
    let n = Natural::from_decimal_str("2305843009213693951").unwrap();
    assert_eq!(value(&n), BigUint::from(2305843009213693951u64));
    assert_eq!(value(&Natural::from_decimal_str("+1_000").unwrap()), BigUint::from(1000u32));
    assert_eq!(value(&Natural::from_decimal_str("007").unwrap()), BigUint::from(7u32));
}

#[test]
fn natural_from_decimal_str_refusals() {
    for text in ["", "+", "_1", "+_1", "++1", "-1", "12a", "1.5", " 1", "not_a_number"] {
        assert_eq!(Natural::from_decimal_str(text).unwrap_err(), ParseError::InvalidFormat);
    }
}
