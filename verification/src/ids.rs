use vstd::prelude::*;

verus! {

/// Identifier of a project track.
#[derive(Clone, Copy, Debug, PartialEq, Eq, Structural, Hash, PartialOrd, Ord)]
pub struct TrackId(pub u32);

/// Identifier of an auxiliary mixer bus.
#[derive(Clone, Copy, Debug, PartialEq, Eq, Structural, Hash, PartialOrd, Ord)]
pub struct BusId(pub u32);

/// Identifier of a generator (instrument) instance.
#[derive(Clone, Copy, Debug, PartialEq, Eq, Structural, Hash, PartialOrd, Ord)]
pub struct GeneratorId(pub u32);

/// Identifier of an effect instance within a mixer channel.
#[derive(Clone, Copy, Debug, PartialEq, Eq, Structural, Hash, PartialOrd, Ord)]
pub struct EffectId(pub u32);

/// Identifier of a MIDI pattern.
#[derive(Clone, Copy, Debug, PartialEq, Eq, Structural, Hash, PartialOrd, Ord)]
pub struct PatternId(pub u32);

/// Identifier of a note within a pattern.
#[derive(Clone, Copy, Debug, PartialEq, Eq, Structural, Hash, PartialOrd, Ord)]
pub struct NoteId(pub u32);

impl TrackId {
    pub fn to_u32(self) -> (r: u32)
        ensures
            r == self.0,
    {
        self.0
    }
}

impl BusId {
    pub fn to_u32(self) -> (r: u32)
        ensures
            r == self.0,
    {
        self.0
    }
}

impl GeneratorId {
    pub fn to_u32(self) -> (r: u32)
        ensures
            r == self.0,
    {
        self.0
    }
}

impl EffectId {
    pub fn to_u32(self) -> (r: u32)
        ensures
            r == self.0,
    {
        self.0
    }
}

impl PatternId {
    pub fn to_u32(self) -> (r: u32)
        ensures
            r == self.0,
    {
        self.0
    }
}

impl NoteId {
    pub fn to_u32(self) -> (r: u32)
        ensures
            r == self.0,
    {
        self.0
    }
}

} // verus!
