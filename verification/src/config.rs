//! The engine's fixed processing configuration.

use vstd::prelude::*;

verus! {

/// The most output channels the engine renders.
pub const MAX_ENGINE_CHANNELS: u16 = 8;

/// Sample rate and channel count the engine renders with.
#[derive(Clone, Copy, Debug, PartialEq, Eq, Structural)]
pub struct AudioEngineConfig {
    pub sample_rate: u32,
    pub num_channels: u16,
}

impl AudioEngineConfig {
    /// A configuration at `sample_rate` with `num_channels` clamped to
    /// `1..=MAX_ENGINE_CHANNELS`.
    pub fn new(sample_rate: u32, num_channels: u16) -> (c: Self)
        ensures
            c.sample_rate == sample_rate,
            c.num_channels == (if num_channels < 1 {
                1
            } else if num_channels > MAX_ENGINE_CHANNELS {
                MAX_ENGINE_CHANNELS
            } else {
                num_channels
            }),
    {
        let num_channels = if num_channels < 1 {
            1
        } else if num_channels > MAX_ENGINE_CHANNELS {
            MAX_ENGINE_CHANNELS
        } else {
            num_channels
        };
        AudioEngineConfig { sample_rate, num_channels }
    }
}

} // verus!
