//! The placeholder that stands in for a plugin that could not be loaded: a
//! missing instrument stays silent, a missing effect passes its main input
//! through unchanged.

use vstd::prelude::*;

verus! {

/// What a plugin is used as.
#[derive(Clone, Copy, Debug, PartialEq, Eq, Structural)]
pub enum PluginCategory {
    Instrument,
    Effect,
}

/// Placeholder for an unavailable instrument or effect.
#[derive(Clone, Copy, Debug, PartialEq, Eq, Structural)]
pub struct MissingPlugin {
    instrument: bool,
}

impl MissingPlugin {
    /// Whether the placeholder stands in for an instrument.
    pub closed spec fn stands_for_instrument(&self) -> bool {
        self.instrument
    }

    /// Placeholder for a missing instrument.
    pub fn instrument() -> (p: Self)
        ensures
            p.stands_for_instrument(),
    {
        MissingPlugin { instrument: true }
    }

    /// Placeholder for a missing effect.
    pub fn effect() -> (p: Self)
        ensures
            !p.stands_for_instrument(),
    {
        MissingPlugin { instrument: false }
    }

    /// Whether the placeholder stands in for an instrument.
    pub fn is_instrument(&self) -> (r: bool)
        ensures
            r == self.stands_for_instrument(),
    {
        self.instrument
    }

    /// The name shown for the placeholder.
    pub fn name(&self) -> (r: &'static str)
        ensures
            r@ == "Unavailable plugin"@,
    {
        "Unavailable plugin"
    }

    /// The category of the plugin the placeholder stands in for.
    pub fn category(&self) -> (c: PluginCategory)
        ensures
            c == (if self.stands_for_instrument() { PluginCategory::Instrument } else { PluginCategory::Effect }),
    {
        if self.instrument {
            PluginCategory::Instrument
        } else {
            PluginCategory::Effect
        }
    }

    /// Whether output channel `channel` of output bus `bus` is a copy of the
    /// same channel of the same input bus; `input_channels[b]` is the channel
    /// count of input bus `b`. Every other output channel is silence.
    pub fn copies_input(&self, bus: usize, channel: usize, input_channels: &[usize]) -> (r: bool)
        ensures
            r == (!self.stands_for_instrument() && bus < input_channels@.len() && channel < input_channels@[bus as int]),
    {
        !self.instrument && bus < input_channels.len() && channel < input_channels[bus]
    }

    /// Whether output bus `bus` is marked silent; `input_silent[b]` tells
    /// whether input bus `b` is.
    pub fn output_is_silent(&self, bus: usize, input_silent: &[bool]) -> (r: bool)
        ensures
            r == (self.stands_for_instrument() || bus >= input_silent@.len() || input_silent@[bus as int]),
    {
        self.instrument || bus >= input_silent.len() || input_silent[bus]
    }

    /// Frames copied into an output channel of `destination` frames from an
    /// input channel of `source` frames.
    pub fn copy_frames(&self, source: usize, destination: usize) -> (r: usize)
        ensures
            r == (if source < destination { source } else { destination }),
    {
        if source < destination { source } else { destination }
    }
}

} // verus!
