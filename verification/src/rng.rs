//! Deterministic pseudo-random number generation.
//!
//! A linear-congruential generator over a single 64-bit state word.  The
//! state transition is `state = state * LCG_MULTIPLIER + 1 (mod 2^64)` and
//! each draw hands out the upper 32 bits of the freshly advanced state, so a
//! fixed seed and a fixed call sequence reproduce the same bits everywhere.

use vstd::prelude::*;

verus! {

/// Multiplier of the linear-congruential state transition.
pub const LCG_MULTIPLIER: u64 = 6364136223846793005;

/// The state that follows `s`: `s * LCG_MULTIPLIER + 1 (mod 2^64)`.
pub open spec fn lcg_next_state(s: u64) -> u64 {
    ((s * LCG_MULTIPLIER + 1) % 0x1_0000_0000_0000_0000) as u64
}

/// The 32 bits handed out after advancing from state `s`: the upper half of
/// the successor state.
pub open spec fn lcg_output(s: u64) -> u32 {
    (lcg_next_state(s) >> 32) as u32
}

/// The state reached from `seed` after `n` draws.
pub open spec fn lcg_state_after(seed: u64, n: nat) -> u64
    decreases n,
{
    if n == 0 {
        seed
    } else {
        lcg_next_state(lcg_state_after(seed, (n - 1) as nat))
    }
}

/// Linear-congruential generator with a single 64-bit word of state.
pub struct Lcg {
    pub state: u64,
}

impl Lcg {
    /// A generator whose state starts at `seed`.
    pub fn new(seed: u64) -> (r: Lcg)
        ensures
            r.state == seed,
    {
        Lcg { state: seed }
    }

    /// Advances the state by one step and returns its upper 32 bits.
    pub fn next_u32(&mut self) -> (r: u32)
        ensures
            final(self).state == lcg_next_state(old(self).state),
            r == lcg_output(old(self).state),
    {
        proof {
            lemma_lcg_wrapping_matches(self.state);
        }
        self.state = self.state.wrapping_mul(LCG_MULTIPLIER).wrapping_add(1);
        (self.state >> 32) as u32
    }
}

/// The wrapping 64-bit machine arithmetic lands exactly on the mathematical
/// `mod 2^64` state transition.
proof fn lemma_lcg_wrapping_matches(s: u64)
    ensures
        vstd::wrapping::u64_specs::wrapping_add(
            vstd::wrapping::u64_specs::wrapping_mul(s, LCG_MULTIPLIER),
            1,
        ) == lcg_next_state(s),
{
    let modulus: int = 0x1_0000_0000_0000_0000;
    let p: int = s * LCG_MULTIPLIER;
    let m: int = p % modulus;
    vstd::arithmetic::div_mod::lemma_mod_bound(p, modulus);
    vstd::arithmetic::div_mod::lemma_add_mod_noop(p, 1, modulus);
    vstd::arithmetic::div_mod::lemma_small_mod(1nat, modulus as nat);
    if m + 1 < modulus {
        vstd::arithmetic::div_mod::lemma_small_mod((m + 1) as nat, modulus as nat);
    } else {
        vstd::arithmetic::div_mod::lemma_mod_self_0(modulus);
    }
}

/// Determinism of the generator: the state after any number of draws, and
/// therefore every bit it hands out, is a function of the seed alone.
pub proof fn lemma_lcg_deterministic(seed_a: u64, seed_b: u64, n: nat)
    requires
        seed_a == seed_b,
    ensures
        lcg_state_after(seed_a, n) == lcg_state_after(seed_b, n),
        lcg_output(lcg_state_after(seed_a, n)) == lcg_output(lcg_state_after(seed_b, n)),
{
}

} // verus!
