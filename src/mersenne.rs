//! Mersenne numbers, `2^n - 1`.
use crate::natural::{shl, subtract, Natural};
use vstd::arithmetic::power2::{lemma_pow2_pos, pow2};
use vstd::prelude::*;

verus! {

/// The Mersenne number `2^n - 1`: one shifted left by `n` bits, less one.
pub fn mersenne_number(n: u32) -> (r: Natural)
    ensures
        r@ == pow2(n as nat) - 1,
{
    let one = Natural::from_u32(1);
    let p = shl(&one, n);
    proof {
        lemma_pow2_pos(n as nat);
    }
    subtract(&p, &one)
}

} // verus!
