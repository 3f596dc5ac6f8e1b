//! Power-of-two delay-line sizing and mask-based circular indexing.
//!
//! Delay lines are sized to a power of two so that reducing a cursor modulo
//! the line length can be done with a bitmask.

use vstd::arithmetic::power2::{
    lemma2_to64, lemma2_to64_rest, lemma_pow2_pos, lemma_pow2_strictly_increases,
    lemma_pow2_unfold, pow2,
};
use vstd::bits::{lemma_u64_low_bits_mask_is_mod, low_bits_mask};
use vstd::prelude::*;

verus! {

/// `n` is a power of two that fits in a `u64`.
pub open spec fn is_pow2(n: u64) -> bool {
    exists|k: nat| k < 64 && n == pow2(k)
}

/// For a power-of-two modulus, masking with `n - 1` is reduction modulo `n`.
pub proof fn lemma_mask_is_mod(x: u64, n: u64)
    requires
        is_pow2(n),
    ensures
        (x & ((n - 1) as u64)) == x % n,
{
    let k = choose|k: nat| k < 64 && n == pow2(k);
    lemma_pow2_pos(k);
    lemma_u64_low_bits_mask_is_mod(x, k);
    assert(low_bits_mask(k) == (n - 1) as nat);
}

/// Smallest power of two that is at least `target`.
pub fn next_pow2(target: u64) -> (r: u64)
    requires
        1 <= target <= 0x4000_0000_0000_0000,
    ensures
        is_pow2(r),
        r >= target,
        r == 1 || r / 2 < target,
{
    let mut n: u64 = 1;
    let ghost mut k: nat = 0;
    proof {
        lemma2_to64();
    }
    while n < target
        invariant
            k < 64,
            1 <= n,
            n == pow2(k),
            target <= 0x4000_0000_0000_0000,
            n == 1 || n / 2 < target,
        decreases 2 * target - n,
    {
        proof {
            lemma2_to64_rest();
            if k >= 62 {
                if k > 62 {
                    lemma_pow2_strictly_increases(62, k);
                }
                assert(n >= pow2(62));
                assert(false);
            }
            lemma_pow2_unfold((k + 1) as nat);
            k = k + 1;
        }
        n = 2 * n;
    }
    n
}

} // verus!
