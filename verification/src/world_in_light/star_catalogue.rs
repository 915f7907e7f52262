//! Deterministic pseudo-random source of the fixed star catalogue.

use vstd::prelude::*;
use vstd::wrapping::u64_specs::{wrapping_add, wrapping_mul};

verus! {

pub const SPLITMIX_INCREMENT: u64 = 0x9e37_79b9_7f4a_7c15;

/// SplitMix64 output function applied to an advanced state.
pub open spec fn splitmix_output(state: u64) -> u64 {
    let first = wrapping_mul(state ^ (state >> 30u64), 0xbf58_476d_1ce4_e5b9u64);
    let second = wrapping_mul(first ^ (first >> 27u64), 0x94d0_49bb_1331_11ebu64);
    second ^ (second >> 31u64)
}

/// SplitMix64: a 64-bit state advanced by a fixed odd increment and scrambled on output.
#[derive(Clone, Copy, Debug, PartialEq, Eq)]
pub struct SplitMix64 {
    state: u64,
}

impl SplitMix64 {
    pub closed spec fn spec_state(&self) -> u64 {
        self.state
    }

    pub fn new(seed: u64) -> (r: Self)
        ensures
            r.spec_state() == seed,
    {
        SplitMix64 { state: seed }
    }

    /// Advances the state by the increment (wrapping) and returns its scrambled value.
    pub fn next_u64(&mut self) -> (r: u64)
        ensures
            final(self).spec_state() == wrapping_add(old(self).spec_state(), SPLITMIX_INCREMENT),
            r == splitmix_output(final(self).spec_state()),
    {
        self.state = self.state.wrapping_add(SPLITMIX_INCREMENT);
        let mut value = self.state;
        value = (value ^ (value >> 30)).wrapping_mul(0xbf58_476d_1ce4_e5b9);
        value = (value ^ (value >> 27)).wrapping_mul(0x94d0_49bb_1331_11eb);
        value ^ (value >> 31)
    }

    /// The 24 most significant bits of the next output: a uniformly distributed value below
    /// 2^24, which maps exactly onto the mantissa of an `f32` in `[0, 1)`.
    pub fn next_unit_bits(&mut self) -> (r: u32)
        ensures
            final(self).spec_state() == wrapping_add(old(self).spec_state(), SPLITMIX_INCREMENT),
            r == splitmix_output(final(self).spec_state()) >> 40u64,
            r < 0x100_0000,
    {
        let value = self.next_u64();
        let high = value >> 40;
        assert(high < 0x100_0000) by (bit_vector)
            requires
                high == value >> 40u64,
        ;
        high as u32
    }
}

} // verus!
