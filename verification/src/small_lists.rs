//! Inline-first lists (`smallvec::SmallVec`) in which voices keep the events
//! queued for a block and the notes that sound, with what the engine relies
//! on of them.

use vstd::prelude::*;

use smallvec::SmallVec;

use crate::voices::{MidiEvent, PlayingNote};

verus! {

/// The events queued for one block, held inline while there are few.
#[verifier::external_body]
pub struct EventList {
    items: SmallVec<[MidiEvent; 4]>,
}

/// The notes that sound on a voice, held inline while there are few.
#[verifier::external_body]
pub struct NoteList {
    items: SmallVec<[PlayingNote; 8]>,
}

/// The events of an event list, in order.
pub uninterp spec fn event_items(v: EventList) -> Seq<MidiEvent>;

/// The notes of a note list, in order.
pub uninterp spec fn note_items(v: NoteList) -> Seq<PlayingNote>;

/// `SmallVec::new`: an empty event list.
#[verifier::external_body]
fn events_new() -> (v: EventList)
    ensures
        event_items(v) == Seq::<MidiEvent>::empty(),
{
    EventList { items: SmallVec::new() }
}

/// `SmallVec::len`: the number of events.
#[verifier::external_body]
fn events_len(v: &EventList) -> (n: usize)
    ensures
        n == event_items(*v).len(),
{
    v.items.len()
}

/// Indexing a `SmallVec`: the event at position `i`.
#[verifier::external_body]
fn events_get(v: &EventList, i: usize) -> (e: MidiEvent)
    requires
        i < event_items(*v).len(),
    ensures
        e == event_items(*v)[i as int],
{
    v.items[i]
}

/// `SmallVec::push`: appends an event.
#[verifier::external_body]
fn events_push(v: &mut EventList, e: MidiEvent)
    ensures
        event_items(*final(v)) == event_items(*old(v)).push(e),
{
    v.items.push(e);
}

/// `SmallVec::clear`: removes every event.
#[verifier::external_body]
fn events_clear(v: &mut EventList)
    ensures
        event_items(*final(v)) == Seq::<MidiEvent>::empty(),
{
    v.items.clear();
}

/// `SmallVec::from_vec`: a list holding the events of `items`, in order.
#[verifier::external_body]
fn events_from_vec(items: Vec<MidiEvent>) -> (v: EventList)
    ensures
        event_items(v) == items@,
{
    EventList { items: SmallVec::from_vec(items) }
}

/// `SmallVec::new`: an empty note list.
#[verifier::external_body]
fn notes_new() -> (v: NoteList)
    ensures
        note_items(v) == Seq::<PlayingNote>::empty(),
{
    NoteList { items: SmallVec::new() }
}

/// `SmallVec::len`: the number of notes.
#[verifier::external_body]
fn notes_len(v: &NoteList) -> (n: usize)
    ensures
        n == note_items(*v).len(),
{
    v.items.len()
}

/// Indexing a `SmallVec`: the note at position `i`.
#[verifier::external_body]
fn notes_get(v: &NoteList, i: usize) -> (n: PlayingNote)
    requires
        i < note_items(*v).len(),
    ensures
        n == note_items(*v)[i as int],
{
    v.items[i]
}

/// `SmallVec::push`: appends a note.
#[verifier::external_body]
fn notes_push(v: &mut NoteList, n: PlayingNote)
    ensures
        note_items(*final(v)) == note_items(*old(v)).push(n),
{
    v.items.push(n);
}

/// `SmallVec::clear`: removes every note.
#[verifier::external_body]
fn notes_clear(v: &mut NoteList)
    ensures
        note_items(*final(v)) == Seq::<PlayingNote>::empty(),
{
    v.items.clear();
}

/// `SmallVec::from_vec`: a list holding the notes of `items`, in order.
#[verifier::external_body]
fn notes_from_vec(items: Vec<PlayingNote>) -> (v: NoteList)
    ensures
        note_items(v) == items@,
{
    NoteList { items: SmallVec::from_vec(items) }
}

impl View for EventList {
    type V = Seq<MidiEvent>;

    open spec fn view(&self) -> Seq<MidiEvent> {
        event_items(*self)
    }
}

impl View for NoteList {
    type V = Seq<PlayingNote>;

    open spec fn view(&self) -> Seq<PlayingNote> {
        note_items(*self)
    }
}

impl EventList {
    /// An empty list.
    pub fn new() -> (v: Self)
        ensures
            v@ == Seq::<MidiEvent>::empty(),
    {
        events_new()
    }

    /// A list holding `items`, in order.
    pub fn from_vec(items: Vec<MidiEvent>) -> (v: Self)
        ensures
            v@ == items@,
    {
        events_from_vec(items)
    }

    /// The number of events.
    pub fn len(&self) -> (n: usize)
        ensures
            n == self@.len(),
    {
        events_len(self)
    }

    /// The event at position `i`.
    pub fn get(&self, i: usize) -> (e: MidiEvent)
        requires
            i < self@.len(),
        ensures
            e == self@[i as int],
    {
        events_get(self, i)
    }

    /// Appends an event.
    pub fn push(&mut self, e: MidiEvent)
        ensures
            final(self)@ == old(self)@.push(e),
    {
        events_push(self, e)
    }

    /// Removes every event.
    pub fn clear(&mut self)
        ensures
            final(self)@ == Seq::<MidiEvent>::empty(),
    {
        events_clear(self)
    }
}

impl NoteList {
    /// An empty list.
    pub fn new() -> (v: Self)
        ensures
            v@ == Seq::<PlayingNote>::empty(),
    {
        notes_new()
    }

    /// A list holding `items`, in order.
    pub fn from_vec(items: Vec<PlayingNote>) -> (v: Self)
        ensures
            v@ == items@,
    {
        notes_from_vec(items)
    }

    /// The number of notes.
    pub fn len(&self) -> (n: usize)
        ensures
            n == self@.len(),
    {
        notes_len(self)
    }

    /// The note at position `i`.
    pub fn get(&self, i: usize) -> (n: PlayingNote)
        requires
            i < self@.len(),
        ensures
            n == self@[i as int],
    {
        notes_get(self, i)
    }

    /// Appends a note.
    pub fn push(&mut self, n: PlayingNote)
        ensures
            final(self)@ == old(self)@.push(n),
    {
        notes_push(self, n)
    }

    /// Removes every note.
    pub fn clear(&mut self)
        ensures
            final(self)@ == Seq::<PlayingNote>::empty(),
    {
        notes_clear(self)
    }
}

} // verus!
