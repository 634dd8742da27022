//! Modular exponentiation by square-and-multiply over the binary digits of the
//! exponent.
use crate::natural::{binary_digits, equals, multiply, rem, to_binary_digits, Natural};
use vstd::arithmetic::div_mod::{
    lemma_mod_twice, lemma_mul_mod_noop, lemma_mul_mod_noop_general, lemma_small_mod,
};
use vstd::arithmetic::power::{lemma_pow0, lemma_pow1, lemma_pow_adds, pow};
use vstd::arithmetic::power2::{lemma_pow2_unfold, pow2};
use vstd::prelude::*;

verus! {

/// `base` to the power `exponent`, reduced modulo `modulus`, where zero to the
/// power zero is one (also modulo one) and any other value modulo one is zero.
///
/// Meaningful when `base == 0` or `modulus > 0`.
pub open spec fn modpow(base: nat, exponent: nat, modulus: nat) -> nat {
    if base == 0 {
        if exponent == 0 {
            1
        } else {
            0
        }
    } else if modulus == 1 {
        0
    } else {
        (pow(base as int, exponent) % (modulus as int)) as nat
    }
}

/// The value of the first `k` binary digits of `bits`, least significant first.
pub open spec fn prefix_value(bits: Seq<u8>, k: nat) -> nat
    decreases k,
{
    if k == 0 {
        0
    } else {
        prefix_value(bits, (k - 1) as nat) + bits[k - 1] as nat * pow2((k - 1) as nat)
    }
}

proof fn lemma_prefix_value_prepend(d: u8, t: Seq<u8>, k: nat)
    requires
        k <= t.len(),
    ensures
        prefix_value(seq![d] + t, k + 1) == d + 2 * prefix_value(t, k),
    decreases k,
{
    let s = seq![d] + t;
    if k == 0 {
        assert(prefix_value(s, 0) == 0);
        assert(s[0] == d);
        assert(pow2(0) == 1) by {
            lemma_pow0(2);
        }
    } else {
        lemma_prefix_value_prepend(d, t, (k - 1) as nat);
        assert(s[k as int] == t[k - 1]);
        lemma_pow2_unfold(k);
        let x = t[k - 1] as nat;
        let e = pow2((k - 1) as nat);
        assert(prefix_value(s, k + 1) == prefix_value(s, k) + s[k as int] as nat * pow2(k));
        assert(prefix_value(t, k) == prefix_value(t, (k - 1) as nat) + x * e);
        assert(x * (2 * e) == 2 * (x * e)) by (nonlinear_arith);
    }
}

/// The binary digits of `n` are each 0 or 1, and together they make up `n`.
proof fn lemma_binary_digits(n: nat)
    ensures
        forall|i: int| 0 <= i < binary_digits(n).len() ==> #[trigger] binary_digits(n)[i] < 2,
        prefix_value(binary_digits(n), binary_digits(n).len()) == n,
    decreases n,
{
    let s = binary_digits(n);
    if n < 2 {
        assert(s.len() == 1);
        lemma_prefix_value_prepend(n as u8, Seq::empty(), 0);
        assert(s =~= seq![n as u8] + Seq::<u8>::empty());
    } else {
        let t = binary_digits(n / 2);
        lemma_binary_digits(n / 2);
        lemma_prefix_value_prepend((n % 2) as u8, t, t.len());
        assert forall|i: int| 0 <= i < s.len() implies #[trigger] s[i] < 2 by {
            if i > 0 {
                assert(s[i] == t[i - 1]);
            }
        }
    }
}

/// Multiplying `b^x` and `b^y`, each reduced modulo `m`, and reducing gives
/// `b^(x + y)` modulo `m`.
proof fn lemma_mul_pow_mod(b: int, x: nat, y: nat, m: int)
    requires
        m > 0,
    ensures
        ((pow(b, x) % m) * (pow(b, y) % m)) % m == pow(b, x + y) % m,
{
    lemma_mul_mod_noop(pow(b, x), pow(b, y), m);
    lemma_pow_adds(b, x, y);
}

/// `base` to the power `exponent`, modulo `modulus`, by square-and-multiply over
/// the binary digits of `exponent`, least significant first.
///
/// Zero to the power zero is one; any other value modulo one is zero.
pub fn bmodpow(base: &Natural, exponent: &Natural, modulus: &Natural) -> (r: Natural)
    requires
        base@ == 0 || modulus@ > 0,
    ensures
        r@ == modpow(base@, exponent@, modulus@),
{
    let zero = Natural::from_u32(0);
    let one = Natural::from_u32(1);
    if equals(base, &zero) {
        if equals(exponent, &zero) {
            return one;
        } else {
            return zero;
        }
    }
    if equals(modulus, &one) {
        return zero;
    }
    let bits = to_binary_digits(exponent);
    let ghost b = base@ as int;
    let ghost m = modulus@ as int;
    proof {
        lemma_binary_digits(exponent@);
        lemma_pow0(b);
        lemma_small_mod(1, modulus@);
        lemma_pow0(2);
        lemma_pow1(b);
    }
    let mut my_base = base.duplicate();
    let mut result = Natural::from_u32(1);
    let mut k: usize = 0;
    while k < bits.len()
        invariant
            m > 1,
            bits@ == binary_digits(exponent@),
            forall|i: int| 0 <= i < bits@.len() ==> #[trigger] bits@[i] < 2,
            k <= bits@.len(),
            modulus@ == m,
            result@ == pow(b, prefix_value(bits@, k as nat)) % m,
            my_base@ as int % m == pow(b, pow2(k as nat)) % m,
        decreases bits@.len() - k,
    {
        let ghost p = prefix_value(bits@, k as nat);
        let ghost q = pow2(k as nat);
        assert(prefix_value(bits@, (k + 1) as nat) == p + bits@[k as int] as nat * q);
        if bits[k] == 1 {
            let t = multiply(&result, &my_base);
            proof {
                lemma_mul_mod_noop_general(result@ as int, my_base@ as int, m);
                lemma_mod_twice(pow(b, p), m);
                lemma_mul_pow_mod(b, p, q, m);
                assert(prefix_value(bits@, (k + 1) as nat) == p + q);
            }
            result = rem(&t, modulus);
        } else {
            assert(bits@[k as int] == 0);
            assert(prefix_value(bits@, (k + 1) as nat) == p);
        }
        let sq = multiply(&my_base, &my_base);
        proof {
            lemma_mul_mod_noop(my_base@ as int, my_base@ as int, m);
            lemma_mul_pow_mod(b, q, q, m);
            lemma_mod_twice(pow(b, q + q), m);
            lemma_pow2_unfold((k + 1) as nat);
        }
        my_base = rem(&sq, modulus);
        k = k + 1;
    }
    result
}


/// With exponent zero the result is one, whenever the base is zero or the
/// modulus exceeds one.
pub proof fn lemma_modpow_zero_exponent(base: nat, modulus: nat)
    requires
        base == 0 || modulus > 1,
    ensures
        modpow(base, 0, modulus) == 1,
{
    if base != 0 {
        lemma_pow0(base as int);
        lemma_small_mod(1, modulus);
    }
}

/// Zero to any positive power is zero, whatever the modulus.
pub proof fn lemma_modpow_zero_base(exponent: nat, modulus: nat)
    requires
        exponent > 0,
    ensures
        modpow(0, exponent, modulus) == 0,
{
}

/// Modulo one every result is zero, but for zero to the power zero.
pub proof fn lemma_modpow_modulus_one(base: nat, exponent: nat)
    requires
        base != 0 || exponent != 0,
    ensures
        modpow(base, exponent, 1) == 0,
{
}

/// The result is `base^exponent mod modulus`, but for zero to the power zero
/// modulo one, which is one.
pub proof fn lemma_modpow_is_power_mod(base: nat, exponent: nat, modulus: nat)
    requires
        modulus > 0,
        !(base == 0 && exponent == 0 && modulus == 1),
    ensures
        modpow(base, exponent, modulus) == pow(base as int, exponent) % (modulus as int),
{
    if base == 0 {
        if exponent == 0 {
            lemma_pow0(0);
            lemma_small_mod(1, modulus);
        } else {
            reveal(pow);
            assert(pow(0, exponent) == 0 * pow(0, (exponent - 1) as nat));
        }
    } else if modulus == 1 {
        assert(pow(base as int, exponent) % 1 == 0);
    }
}

} // verus!
