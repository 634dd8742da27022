use mersenne_prime_number_miller_rabin::{is_prime, is_prime_from_str, mersenne_number, Natural, ParseError};
use num_bigint::BigUint;

fn natural_of(v: u64) -> Natural {
    Natural { limbs: BigUint::from(v).to_u32_digits() }
}

#[test]
fn known_primes() {
    for p in [2u64, 3, 5, 7, 11, 13, 61, 97, 7919, 1_000_000_007] {
        assert!(is_prime(natural_of(p)), "{} is prime", p);
    }
}

#[test]
fn mersenne_prime_sixty_one() {
    assert!(is_prime(mersenne_number(61)));
    assert!(is_prime(mersenne_number(31)));
}

#[test]
fn mersenne_prime_one_hundred_twenty_seven() {
    assert!(is_prime(mersenne_number(127)));
}

#[test]
fn small_and_even_numbers() {
    for n in [0u64, 1, 4, 6, 100, 1 << 40] {
        assert!(!is_prime(natural_of(n)), "{} is not prime", n);
    }
}

#[test]
fn composite_mersenne_numbers() {
    assert!(!is_prime(mersenne_number(4)));
    assert!(!is_prime(mersenne_number(11)));
    assert!(!is_prime(natural_of(15)));
    assert!(!is_prime(natural_of(21)));
}

#[test]
fn odd_composites() {
    for n in [9u64, 25, 49, 91, 561, 1105, 7917] {
        assert!(!is_prime(natural_of(n)), "{} is composite", n);
    }
}

#[test]
fn unnormalised_limbs_are_the_same_number() {
    assert!(is_prime(Natural { limbs: vec![13, 0, 0] }));
    assert!(!is_prime(Natural { limbs: vec![15, 0] }));
}

#[test]
fn prime_from_str() {
    assert_eq!(is_prime_from_str("13"), Ok(true));
    assert_eq!(is_prime_from_str("15"), Ok(false));
    assert_eq!(is_prime_from_str("2305843009213693951"), Ok(true));
    assert_eq!(is_prime_from_str("+1_3"), Ok(true));
}

#[test]
fn prime_from_str_refuses_bad_text() {
    assert_eq!(is_prime_from_str("not_a_number"), Err(ParseError::InvalidFormat));
    assert_eq!(is_prime_from_str(""), Err(ParseError::InvalidFormat));
    assert_eq!(is_prime_from_str("-13"), Err(ParseError::InvalidFormat));
}

#[test]
fn repeated_calls_agree() {
    for n in [2u64, 13, 15, 561, 2305843009213693951] {
        let first = is_prime(natural_of(n));
        let second = is_prime(natural_of(n));
        assert_eq!(first, second);
    }
    assert_eq!(is_prime_from_str("97"), is_prime_from_str("97"));
}
