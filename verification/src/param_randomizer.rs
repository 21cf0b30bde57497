//! The integer state of deterministic parameter randomization: a 64-bit
//! linear congruential generator and the number of draws since seeding.

use vstd::prelude::*;
use vstd::arithmetic::div_mod::lemma_add_mod_noop;

verus! {

/// The multiplier of the generator.
pub const LCG_MULTIPLIER: u64 = 6364136223846793005u64;

/// The increment of the generator.
pub const LCG_INCREMENT: u64 = 1442695040888963407u64;

/// The seed a new randomizer starts from.
pub const DEFAULT_SEED: u64 = 42u64;

/// The state after `s`: `(LCG_MULTIPLIER * s + LCG_INCREMENT) mod 2^64`.
pub open spec fn lcg_next(s: u64) -> u64 {
    ((s * LCG_MULTIPLIER + LCG_INCREMENT) % 0x1_0000_0000_0000_0000) as u64
}

/// The draw a state yields: its top 31 bits.
pub open spec fn lcg_draw(s: u64) -> u32 {
    (s / 0x2_0000_0000) as u32
}

/// Generator state and draw count of a parameter randomizer.
#[derive(Debug, Clone, Copy, PartialEq, Eq)]
pub struct RandomizerState {
    pub seed: u64,
    pub count: usize,
}

/// A randomizer seeded with the default seed, with no draw made.
pub fn new_randomizer_state() -> (r: RandomizerState)
    ensures
        r.seed == DEFAULT_SEED,
        r.count == 0,
{
    RandomizerState { seed: DEFAULT_SEED, count: 0 }
}

/// Steps the generator once, counts the draw, and returns the new state's
/// top 31 bits (below `2^31`).
pub fn advance_randomizer(r: &mut RandomizerState) -> (draw: u32)
    requires
        old(r).count < usize::MAX,
    ensures
        final(r).seed == lcg_next(old(r).seed),
        final(r).count == old(r).count + 1,
        draw == lcg_draw(final(r).seed),
        draw < 0x8000_0000,
{
    let s = r.seed;
    let next = s.wrapping_mul(LCG_MULTIPLIER).wrapping_add(LCG_INCREMENT);
    proof {
        let m = 0x1_0000_0000_0000_0000int;
        lemma_add_mod_noop(s * LCG_MULTIPLIER, LCG_INCREMENT as int, m);
        assert(LCG_INCREMENT as int % m == LCG_INCREMENT as int);
        assert(next as int == ((s * LCG_MULTIPLIER) % m + LCG_INCREMENT as int) % m);
    }
    r.seed = next;
    r.count = r.count + 1;
    let draw = next >> 33u64;
    assert(draw == next / 0x2_0000_0000 && draw < 0x8000_0000) by (bit_vector)
        requires
            draw == next >> 33u64,
    ;
    draw as u32
}

/// Restarts the generator from `seed` and clears the draw count.
pub fn seed_randomizer(r: &mut RandomizerState, seed: u64)
    ensures
        final(r).seed == seed,
        final(r).count == 0,
{
    r.seed = seed;
    r.count = 0;
}

/// Number of draws since the randomizer was created or last seeded.
pub fn randomized_count(r: &RandomizerState) -> (n: usize)
    ensures
        n == r.count,
{
    r.count
}

} // verus!
