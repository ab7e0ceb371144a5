//! The scheduler's deterministic pseudo-random generator.

use vstd::prelude::*;

verus! {

/// The multiplier of the 64-bit linear congruential generator.
pub const LCG_MULTIPLIER: u64 = 6364136223846793005;

/// The generator's state after one step from `s`: `s * multiplier + 1` modulo `2^64`.
pub open spec fn lcg_step(s: u64) -> u64 {
    ((s as int * LCG_MULTIPLIER as int + 1) % 0x1_0000_0000_0000_0000) as u64
}

/// The number drawn from a state: its upper 32 bits.
pub open spec fn lcg_output(s: u64) -> u32 {
    (s as int / 0x1_0000_0000) as u32
}

/// A 64-bit linear congruential generator.
#[derive(Debug, Clone, Copy)]
pub struct Rng(u64);

impl Rng {
    /// The current state.
    pub closed spec fn state(&self) -> u64 {
        self.0
    }

    /// A generator that starts from `seed`.
    pub fn new(seed: u64) -> (r: Self)
        ensures
            r.state() == seed,
    {
        Rng(seed)
    }

    /// Steps the generator and returns the upper half of the new state.
    pub fn next_u32(&mut self) -> (r: u32)
        ensures
            final(self).state() == lcg_step(old(self).state()),
            r == lcg_output(final(self).state()),
    {
        let ghost s0 = self.0;
        let product: u64 = self.0.wrapping_mul(LCG_MULTIPLIER);
        let next: u64 = product.wrapping_add(1);
        proof {
            let m: int = 0x1_0000_0000_0000_0000;
            let p: int = s0 as int * LCG_MULTIPLIER as int;
            assert(0 <= p) by (nonlinear_arith)
                requires
                    p == s0 as int * LCG_MULTIPLIER as int,
                    0 <= s0 as int,
                    0 <= LCG_MULTIPLIER as int,
            ;
            assert(product as int == p % m);
            vstd::arithmetic::div_mod::lemma_add_mod_noop(p, 1, m);
            vstd::arithmetic::div_mod::lemma_small_mod(1, m as nat);
            if product as int + 1 >= m {
                vstd::arithmetic::div_mod::lemma_mod_self_0(m);
            } else {
                vstd::arithmetic::div_mod::lemma_small_mod((product as int + 1) as nat, m as nat);
            }
            assert(next == lcg_step(s0));
            assert(next >> 32 == next / 0x1_0000_0000) by (bit_vector);
            assert(next >> 32 <= 0xffff_ffff) by (bit_vector);
        }
        self.0 = next;
        (next >> 32) as u32
    }
}

} // verus!
