//! The random source consumed by target sampling and crit rolls.
//!
//! One source is threaded through the whole controller.  It either draws
//! from the process random number generator, or steps a deterministic
//! linear-congruential generator from a caller-chosen seed, so that a
//! whole combat can be replayed exactly.

use vstd::prelude::*;

verus! {

pub const LCG_MUL: u64 = 6364136223846793005;
pub const LCG_INC: u64 = 1442695040888963407;

/// The step a seeded source takes between two draws.
pub open spec fn lcg_next(s: u64) -> u64 {
    vstd::wrapping::u64_specs::wrapping_add(
        vstd::wrapping::u64_specs::wrapping_mul(s, LCG_MUL),
        LCG_INC,
    )
}

/// What a seeded source hands out below `bound`, from its stepped state.
pub open spec fn seeded_pick(s: u64, bound: u64) -> u64
    recommends
        1 <= bound,
{
    (s >> 32) % bound
}

/// Relies on `rand::random_range`: the result of sampling `0..bound`
/// lies in that range (the range must not be empty).
#[verifier::external_body]
fn sys_random_below(bound: u64) -> (r: u64)
    requires
        1 <= bound,
    ensures
        r < bound,
{
    rand::random_range(0..bound)
}

/// A random source: either the process generator, or a deterministic
/// seeded one whose every draw is pinned down by the contract.
pub struct RandomSource {
    pub seeded: bool,
    pub state: u64,
}

impl RandomSource {
    /// A deterministic source that replays the same draws for the same seed.
    pub fn from_seed(seed: u64) -> (r: RandomSource)
        ensures
            r.seeded,
            r.state == seed,
    {
        RandomSource { seeded: true, state: seed }
    }

    /// A source backed by the process random number generator.
    pub fn system() -> (r: RandomSource)
        ensures
            !r.seeded,
    {
        RandomSource { seeded: false, state: 0 }
    }

    /// Draw a value uniformly below `bound`.  For a seeded source the
    /// draw and the new state are exact functions of the old state.
    pub fn next_below(&mut self, bound: u64) -> (r: u64)
        requires
            1 <= bound,
        ensures
            r < bound,
            final(self).seeded == old(self).seeded,
            old(self).seeded ==> final(self).state == lcg_next(old(self).state)
                && r == seeded_pick(final(self).state, bound),
            !old(self).seeded ==> final(self).state == old(self).state,
    {
        if self.seeded {
            self.state = self.state.wrapping_mul(LCG_MUL).wrapping_add(LCG_INC);
            let s = self.state;
            (s >> 32) % bound
        } else {
            sys_random_below(bound)
        }
    }
}

} // verus!
