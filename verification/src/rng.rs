//! A small deterministic pseudo-random generator, used only to seed the
//! initial population with placement and velocity.  The simulation itself
//! is deterministic: randomness enters once, at initialization, from a
//! caller-supplied seed.

use vstd::prelude::*;

use crate::vec2::COORD_LIMIT;

verus! {

/// A 64-bit mixing generator in the SplitMix style: a Weyl-sequence state
/// with two multiply-xorshift finalization rounds per draw.  Any seed is
/// acceptable, including zero.
pub struct SeedRng {
    state: u64,
}

impl SeedRng {
    /// A generator starting from `seed`.
    pub fn new(seed: u64) -> SeedRng {
        SeedRng { state: seed }
    }

    /// The next raw 64-bit draw.
    pub fn next_u64(&mut self) -> u64 {
        let z0 = self.state.wrapping_add(0x9E37_79B9_7F4A_7C15);
        self.state = z0;
        let z1 = (z0 ^ (z0 >> 30)).wrapping_mul(0xBF58_476D_1CE4_E5B9);
        let z2 = (z1 ^ (z1 >> 27)).wrapping_mul(0x94D0_49BB_1331_11EB);
        z2 ^ (z2 >> 31)
    }

    /// A draw reduced into the half-open interval `[lo, hi)`.
    pub fn next_in_range(&mut self, lo: i64, hi: i64) -> (r: i64)
        requires
            lo < hi,
            -COORD_LIMIT <= lo,
            hi <= COORD_LIMIT,
        ensures
            lo <= r < hi,
    {
        let span: u64 = (hi - lo) as u64;
        let x = self.next_u64();
        let off: u64 = x % span;
        proof {
            vstd::arithmetic::div_mod::lemma_mod_division_less_than_divisor(
                x as int,
                span as int,
            );
        }
        lo + (off as i64)
    }
}

} // verus!
