//! SplitMix64 — a tiny deterministic generator.
//!
//! Deterministic randomness is a requirement here, not a convenience: procedural decals
//! must be identical for the same seed, otherwise they can't be regression-tested against
//! a hash of their pixels.

use vstd::prelude::*;

verus! {

/// The SplitMix64 increment (the golden-ratio constant), also used as the state for seed 0.
pub const GOLDEN_GAMMA: u64 = 0x9E3779B97F4A7C15;

/// The first multiplier of SplitMix64's output finaliser.
pub const MIX_MUL_1: u64 = 0xBF58476D1CE4E5B9;

/// The second multiplier of SplitMix64's output finaliser.
pub const MIX_MUL_2: u64 = 0x94D049BB133111EB;

/// The state a generator starts in for `seed` — seed 0 would otherwise start the sequence
/// on the all-zero state, so it is replaced by the increment.
pub open spec fn seeded_state(seed: u64) -> u64 {
    if seed == 0 {
        GOLDEN_GAMMA
    } else {
        seed
    }
}

/// The state after one draw: the previous state plus the increment, modulo 2^64.
pub open spec fn next_state(state: u64) -> u64 {
    ((state as nat + GOLDEN_GAMMA as nat) % 0x1_0000_0000_0000_0000nat) as u64
}

/// `x * y` modulo 2^64.
pub open spec fn mul_mod64(x: u64, y: u64) -> u64 {
    ((x as nat * y as nat) % 0x1_0000_0000_0000_0000nat) as u64
}

/// SplitMix64's output finaliser applied to a state.
pub open spec fn mix(z: u64) -> u64 {
    let z1 = mul_mod64(z ^ (z >> 30u64), MIX_MUL_1);
    let z2 = mul_mod64(z1 ^ (z1 >> 27u64), MIX_MUL_2);
    z2 ^ (z2 >> 31u64)
}

/// The value drawn by `next_u64` from a generator in `state`.
pub open spec fn draw(state: u64) -> u64 {
    mix(next_state(state))
}

/// The value `int_range(lo, hi)` returns for a generator in `state`.
pub open spec fn draw_int(state: u64, lo: i64, hi: i64) -> i64 {
    if hi <= lo {
        lo
    } else {
        (lo + (draw(state) as int % (hi - lo))) as i64
    }
}

/// The state `int_range(lo, hi)` leaves behind: it only draws when the range is non-empty.
pub open spec fn state_after_int(state: u64, lo: i64, hi: i64) -> u64 {
    if hi <= lo {
        state
    } else {
        next_state(state)
    }
}

/// What `int_range(lo, hi)` requires: a non-empty range must have a width that fits in `i64`.
pub open spec fn int_range_ok(lo: i64, hi: i64) -> bool {
    hi <= lo || hi - lo <= i64::MAX
}

/// A SplitMix64 generator: the same seed always gives the same sequence.
#[derive(Clone, Debug)]
pub struct SeededRng {
    state: u64,
}

impl View for SeededRng {
    type V = u64;

    /// The generator's whole state.
    closed spec fn view(&self) -> u64 {
        self.state
    }
}

impl SeededRng {
    /// A generator for `seed` (seed 0 starts from the increment instead of the all-zero
    /// state).
    pub fn new(seed: u64) -> (r: Self)
        ensures
            r@ == seeded_state(seed),
            r@ != 0,
    {
        Self { state: if seed == 0 { GOLDEN_GAMMA } else { seed } }
    }

    /// The next 64-bit value: advance the state by the increment, then mix it.
    pub fn next_u64(&mut self) -> (r: u64)
        ensures
            final(self)@ == next_state(old(self)@),
            r == mix(final(self)@),
            r == draw(old(self)@),
    {
        self.state = self.state.wrapping_add(GOLDEN_GAMMA);
        let mut z = self.state;
        z = (z ^ (z >> 30)).wrapping_mul(MIX_MUL_1);
        z = (z ^ (z >> 27)).wrapping_mul(MIX_MUL_2);
        z ^ (z >> 31)
    }

    /// Uniform integer in `[lo, hi)`. An empty or reversed range returns `lo` without
    /// drawing — tools don't guard against calling this with `hi <= lo` themselves.
    pub fn int_range(&mut self, lo: i64, hi: i64) -> (r: i64)
        requires
            int_range_ok(lo, hi),
        ensures
            r == draw_int(old(self)@, lo, hi),
            final(self)@ == state_after_int(old(self)@, lo, hi),
            hi <= lo ==> r == lo,
            lo < hi ==> lo <= r < hi,
    {
        if hi <= lo {
            return lo;
        }
        let width = (hi - lo) as u64;
        let x = self.next_u64();
        let offset = x % width;
        lo + offset as i64
    }
}

/// Two generators in the same state draw the same value and move to the same state —
/// the determinism every procedural decal relies on.
pub proof fn lemma_same_state_same_draw(a: SeededRng, b: SeededRng)
    requires
        a@ == b@,
    ensures
        draw(a@) == draw(b@),
        next_state(a@) == next_state(b@),
{
}

} // verus!
