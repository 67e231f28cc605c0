//! The integer side of jump consistent hashing: how a key advances from
//! one round to the next, and which buckets a stripe set accepts.

use vstd::prelude::*;

verus! {

/// The multiplier of the generator that advances a key.
pub const MULTIPLIER: u64 = 2862933555777941757;

/// The key that follows `key`: `MULTIPLIER * key + 1`, reduced to 64 bits.
pub open spec fn following(key: u64) -> u64 {
    ((MULTIPLIER as nat * key as nat + 1) % 0x1_0000_0000_0000_0000) as u64
}

/// The key that follows `key`.
pub fn next_key(key: u64) -> (r: u64)
    ensures
        r == following(key),
{
    let product = MULTIPLIER.wrapping_mul(key);
    proof {
        let p = MULTIPLIER as int * key as int;
        assert(0 <= p) by (nonlinear_arith)
            requires
                p == MULTIPLIER as int * key as int,
                0 <= key as int,
                0 <= MULTIPLIER as int,
        ;
        if product as int + 1 < 0x1_0000_0000_0000_0000 {
            vstd::arithmetic::div_mod::lemma_small_mod(
                (product as int + 1) as nat,
                0x1_0000_0000_0000_0000,
            );
        }
    }
    product.wrapping_add(1)
}

/// Offers bucket `b` to the stripe set `buckets`. The set takes it, at its
/// end, unless `distinct` is asked for and the set holds `b` already.
pub fn take_bucket(buckets: &mut Vec<u32>, b: u32, distinct: bool) -> (taken: bool)
    ensures
        taken == (!distinct || !old(buckets)@.contains(b)),
        taken ==> final(buckets)@ == old(buckets)@.push(b),
        !taken ==> final(buckets)@ == old(buckets)@,
{
    if distinct {
        let mut i: usize = 0;
        while i < buckets.len()
            invariant
                distinct,
                i <= buckets@.len(),
                buckets@ == old(buckets)@,
                forall|j: int| 0 <= j < i ==> buckets@[j] != b,
            decreases buckets@.len() - i,
        {
            if buckets[i] == b {
                return false;
            }
            i += 1;
        }
    }
    buckets.push(b);
    true
}

} // verus!
