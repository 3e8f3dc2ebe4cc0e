//! Seeded linear-congruential random stream.
//!
//! The generator keeps one integer counter; each draw advances it by the
//! recurrence `state * 9301 + 49297 mod 233280` and hands the new counter
//! back.  Consumers that want a fraction in `[0, 1)` divide the counter by
//! the modulus; the counter itself is the whole of the random state, so the
//! stream is a pure function of the seed.

use vstd::prelude::*;

verus! {

/// Multiplier of the linear-congruential recurrence.
pub const LCG_MUL: i64 = 9301;

/// Increment of the linear-congruential recurrence.
pub const LCG_INC: i64 = 49297;

/// Modulus of the linear-congruential recurrence; every advanced state lies
/// in `[0, LCG_MOD)`.
pub const LCG_MOD: i64 = 233280;

/// Largest counter value for which `state * LCG_MUL + LCG_INC` still fits in
/// an `i64`; states above it cannot be advanced without overflow.
pub const LCG_STATE_MAX: i64 = 991653804629042;

/// The advanced counter after one draw from state `s`.
pub open spec fn lcg_next(s: int) -> int {
    (s * LCG_MUL + LCG_INC) % (LCG_MOD as int)
}

/// Seeded random stream with a single integer counter as its whole state.
pub struct Random {
    seed: i64,
}

impl Random {
    /// The current counter.
    pub closed spec fn state(self) -> int {
        self.seed as int
    }

    /// The counter is non-negative and small enough to be advanced.
    pub open spec fn wf(self) -> bool {
        0 <= self.state() <= LCG_STATE_MAX
    }

    /// Builds a stream from a seed; the magnitude of the seed becomes the
    /// first counter value.
    pub fn create(seed: i64) -> (r: Self)
        requires
            -LCG_STATE_MAX <= seed <= LCG_STATE_MAX,
        ensures
            r.wf(),
            r.state() == if seed < 0 { -(seed as int) } else { seed as int },
    {
        let magnitude: i64 = if seed < 0 { -seed } else { seed };
        Random { seed: magnitude }
    }

    /// Advances the counter by the fixed recurrence and returns it.  The new
    /// counter is a pure function of the old one, so two streams with equal
    /// states stay in lockstep forever.
    pub fn next(&mut self) -> (r: i64)
        requires
            old(self).wf(),
        ensures
            final(self).state() == lcg_next(old(self).state()),
            r == final(self).state(),
            0 <= r < LCG_MOD,
            final(self).wf(),
    {
        self.seed = (self.seed * LCG_MUL + LCG_INC) % LCG_MOD;
        self.seed
    }
}

} // verus!
