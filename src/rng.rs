//! A linear-congruential pseudo-random generator over `u64`.

use vstd::prelude::*;

verus! {

/// Multiplier of the generator.
pub const LCG_MULTIPLIER: u64 = 1664525;

/// Increment of the generator.
pub const LCG_INCREMENT: u64 = 1013904223;

/// One step of the generator: `seed * A + C` modulo 2^64.
pub open spec fn lcg_step(seed: u64) -> u64 {
    ((seed * LCG_MULTIPLIER + LCG_INCREMENT) % 0x1_0000_0000_0000_0000int) as u64
}

/// The seed after `k` steps of the generator.
pub open spec fn seed_after(seed: u64, k: nat) -> u64
    decreases k,
{
    if k == 0 {
        seed
    } else {
        lcg_step(seed_after(seed, (k - 1) as nat))
    }
}

/// Advances the generator by one step.
pub fn lcg(seed: u64) -> (r: u64)
    ensures
        r == lcg_step(seed),
{
    let m: u64 = seed.wrapping_mul(LCG_MULTIPLIER);
    let r: u64 = m.wrapping_add(LCG_INCREMENT);
    proof {
        let modulus: int = 0x1_0000_0000_0000_0000int;
        let p: int = seed * LCG_MULTIPLIER;
        assert(m == p % modulus);
        vstd::arithmetic::div_mod::lemma_add_mod_noop(p, LCG_INCREMENT as int, modulus);
        vstd::arithmetic::div_mod::lemma_mod_twice(LCG_INCREMENT as int, modulus);
        vstd::arithmetic::div_mod::lemma_small_mod(LCG_INCREMENT as nat, modulus as nat);
        if m + LCG_INCREMENT > u64::MAX {
            vstd::arithmetic::div_mod::lemma_mod_sub_multiples_vanish(m + LCG_INCREMENT, modulus);
            vstd::arithmetic::div_mod::lemma_small_mod((m + LCG_INCREMENT - modulus) as nat, modulus as nat);
        } else {
            vstd::arithmetic::div_mod::lemma_small_mod((m + LCG_INCREMENT) as nat, modulus as nat);
        }
    }
    r
}

/// The generator is a function of its seed alone: from equal seeds, any
/// number of steps leads to equal values.
pub proof fn lemma_seed_sequence_reproducible(a: u64, b: u64, k: nat)
    requires
        a == b,
    ensures
        seed_after(a, k) == seed_after(b, k),
        seed_after(a, k + 1) == lcg_step(seed_after(a, k)),
{
}

} // verus!
