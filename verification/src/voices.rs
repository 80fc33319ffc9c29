use vstd::prelude::*;

use crate::ids::{GeneratorId, NoteId, PatternId, TrackId};
use crate::small_lists::{EventList, NoteList};

verus! {

/// Kind of per-note expression carried by a note-expression message.
#[derive(Clone, Copy, Debug, PartialEq, Eq, Structural)]
pub enum NoteExpressionType {
    Volume,
    Pan,
    Tuning,
    Vibrato,
    Expression,
    Brightness,
    Pressure,
}

/// A MIDI message as far as voice bookkeeping reads it.
#[allow(inconsistent_fields)]
#[derive(Clone, Copy, Debug, PartialEq, Eq, Structural)]
pub enum MidiMessage {
    NoteOn { note_id: Option<u64>, channel: u8, key: u8, velocity: u8 },
    NoteOff { note_id: Option<u64>, channel: u8, key: u8 },
    ControlChange { channel: u8, controller: u8, value: u8 },
    PitchBend { channel: u8, value: i16 },
    NoteExpression { note_id: u64, expression: NoteExpressionType },
}

/// A MIDI message scheduled at a frame offset within the current block.
#[derive(Clone, Copy, Debug, PartialEq, Eq, Structural)]
pub struct MidiEvent {
    pub sample_offset: usize,
    pub data: MidiMessage,
}

/// A sounding note, identified by its note id when it has one and by
/// channel and key otherwise.
#[derive(Clone, Copy, Debug, PartialEq, Eq, Structural)]
pub struct PlayingNote {
    pub note_id: Option<u64>,
    pub channel: u8,
    pub key: u8,
}

/// Controllers that end every note on their channel: All Sound Off (120)
/// and the channel-mode messages 123 to 127.
pub open spec fn ends_all_notes(controller: u8) -> bool {
    controller == 120 || (123 <= controller && controller <= 127)
}

/// Whether a note survives the release (note-off, or note-on with velocity
/// 0) of `note_id` / `channel` / `key`: a release with an id ends the notes
/// with that id, one without ends the notes on that channel and key.
pub open spec fn survives_release(note_id: Option<u64>, channel: u8, key: u8, n: PlayingNote) -> bool {
    match note_id {
        Some(id) => n.note_id != Some(id),
        None => n.channel != channel || n.key != key,
    }
}

/// The sounding notes after a MIDI message.
pub open spec fn notes_after(notes: Seq<PlayingNote>, msg: MidiMessage) -> Seq<PlayingNote> {
    match msg {
        MidiMessage::NoteOn { note_id, channel, key, velocity } => {
            if velocity > 0 {
                let note = PlayingNote { note_id, channel, key };
                if notes.contains(note) {
                    notes
                } else {
                    notes.push(note)
                }
            } else {
                notes.filter(|n: PlayingNote| survives_release(note_id, channel, key, n))
            }
        },
        MidiMessage::NoteOff { note_id, channel, key } => notes.filter(
            |n: PlayingNote| survives_release(note_id, channel, key, n),
        ),
        MidiMessage::ControlChange { channel, controller, .. } => {
            if ends_all_notes(controller) {
                notes.filter(|n: PlayingNote| n.channel != channel)
            } else {
                notes
            }
        },
        _ => notes,
    }
}

/// The held keys after a MIDI message.
pub open spec fn keys_after(keys: Seq<u8>, msg: MidiMessage) -> Seq<u8> {
    match msg {
        MidiMessage::NoteOn { key, velocity, .. } => {
            if velocity > 0 {
                if keys.contains(key) {
                    keys
                } else {
                    keys.push(key)
                }
            } else {
                keys.filter(|k: u8| k != key)
            }
        },
        MidiMessage::NoteOff { key, .. } => keys.filter(|k: u8| k != key),
        MidiMessage::ControlChange { controller, .. } => {
            if ends_all_notes(controller) {
                Seq::empty()
            } else {
                keys
            }
        },
        _ => keys,
    }
}

/// Appending an item that is not in a duplicate-free sequence keeps it
/// duplicate-free.
proof fn lemma_push_distinct<A>(s: Seq<A>, x: A)
    requires
        s.no_duplicates(),
        !s.contains(x),
    ensures
        s.push(x).no_duplicates(),
{
    let t = s.push(x);
    assert forall|i: int, j: int| 0 <= i < t.len() && 0 <= j < t.len() && i != j implies t[i] != t[j] by {
        if i == s.len() {
            assert(s[j] == t[j]);
        } else if j == s.len() {
            assert(s[i] == t[i]);
        } else {
            assert(s[i] == t[i] && s[j] == t[j]);
        }
    }
}

/// Filtering a duplicate-free sequence keeps it duplicate-free.
proof fn lemma_filter_distinct<A>(s: Seq<A>, pred: spec_fn(A) -> bool)
    requires
        s.no_duplicates(),
    ensures
        s.filter(pred).no_duplicates(),
    decreases s.len(),
{
    reveal(Seq::filter);
    if s.len() > 0 {
        let t = s.drop_last();
        assert forall|i: int, j: int| 0 <= i < t.len() && 0 <= j < t.len() && i != j implies t[i] != t[j] by {
            assert(s[i] == t[i] && s[j] == t[j]);
        }
        lemma_filter_distinct(t, pred);
        if pred(s.last()) {
            broadcast use vstd::seq_lib::group_filter_ensures;

            assert(!t.contains(s.last())) by {
                if t.contains(s.last()) {
                    let k = choose|k: int| 0 <= k < t.len() && t[k] == s.last();
                    assert(s[k] == s[s.len() - 1]);
                }
            }
            assert(!t.filter(pred).contains(s.last())) by {
                if t.filter(pred).contains(s.last()) {
                    t.lemma_filter_contains_rev(pred, s.last());
                }
            }
            lemma_push_distinct(t.filter(pred), s.last());
        }
    }
}

/// Tracking never lists a sounding note or a held key twice: lists without
/// duplicates stay without duplicates after any message.
pub proof fn law_tracking_keeps_notes_distinct(notes: Seq<PlayingNote>, keys: Seq<u8>, message: MidiMessage)
    requires
        notes.no_duplicates(),
        keys.no_duplicates(),
    ensures
        notes_after(notes, message).no_duplicates(),
        keys_after(keys, message).no_duplicates(),
{
    match message {
        MidiMessage::NoteOn { note_id, channel, key, velocity } => {
            if velocity > 0 {
                let note = PlayingNote { note_id, channel, key };
                if !notes.contains(note) {
                    lemma_push_distinct(notes, note);
                }
                if !keys.contains(key) {
                    lemma_push_distinct(keys, key);
                }
            } else {
                lemma_filter_distinct(notes, |n: PlayingNote| survives_release(note_id, channel, key, n));
                lemma_filter_distinct(keys, |k: u8| k != key);
            }
        },
        MidiMessage::NoteOff { note_id, channel, key } => {
            lemma_filter_distinct(notes, |n: PlayingNote| survives_release(note_id, channel, key, n));
            lemma_filter_distinct(keys, |k: u8| k != key);
        },
        MidiMessage::ControlChange { channel, controller, .. } => {
            if ends_all_notes(controller) {
                lemma_filter_distinct(notes, |n: PlayingNote| n.channel != channel);
                assert(keys_after(keys, message) =~= Seq::<u8>::empty());
            }
        },
        _ => {},
    }
}

fn same_note(a: &PlayingNote, b: &PlayingNote) -> (r: bool)
    ensures
        r == (*a == *b),
{
    let ids_equal = match (a.note_id, b.note_id) {
        (Some(x), Some(y)) => x == y,
        (None, None) => true,
        _ => false,
    };
    ids_equal && a.channel == b.channel && a.key == b.key
}

fn contains_note(notes: &NoteList, note: &PlayingNote) -> (r: bool)
    ensures
        r == notes@.contains(*note),
{
    let mut i: usize = 0;
    while i < notes.len()
        invariant
            i <= notes@.len(),
            forall|j: int| 0 <= j < i ==> notes@[j] != *note,
        decreases notes@.len() - i,
    {
        if same_note(&notes.get(i), note) {
            return true;
        }
        i = i + 1;
    }
    false
}

fn keep_note(note_id: Option<u64>, channel: u8, key: u8, n: &PlayingNote) -> (r: bool)
    ensures
        r == survives_release(note_id, channel, key, *n),
{
    match note_id {
        Some(id) => match n.note_id {
            Some(other) => other != id,
            None => true,
        },
        None => n.channel != channel || n.key != key,
    }
}

/// Ends the notes that a release of `note_id` / `channel` / `key` ends.
fn release_notes(notes: &mut NoteList, note_id: Option<u64>, channel: u8, key: u8)
    ensures
        final(notes)@ == old(notes)@.filter(
            |n: PlayingNote| survives_release(note_id, channel, key, n),
        ),
{
    let ghost pred = |n: PlayingNote| survives_release(note_id, channel, key, n);
    let mut kept: Vec<PlayingNote> = Vec::new();
    let mut i: usize = 0;
    while i < notes.len()
        invariant
            i <= notes@.len(),
            kept@ == notes@.subrange(0, i as int).filter(pred),
            pred == (|n: PlayingNote| survives_release(note_id, channel, key, n)),
        decreases notes@.len() - i,
    {
        proof {
            reveal(Seq::filter);
            assert(notes@.subrange(0, i + 1).drop_last() =~= notes@.subrange(0, i as int));
        }
        let n = notes.get(i);
        if keep_note(note_id, channel, key, &n) {
            kept.push(n);
        }
        i = i + 1;
    }
    proof {
        assert(notes@.subrange(0, notes@.len() as int) =~= notes@);
    }
    *notes = NoteList::from_vec(kept);
}

/// Ends every note on `channel`.
fn release_channel(notes: &mut NoteList, channel: u8)
    ensures
        final(notes)@ == old(notes)@.filter(|n: PlayingNote| n.channel != channel),
{
    let ghost pred = |n: PlayingNote| n.channel != channel;
    let mut kept: Vec<PlayingNote> = Vec::new();
    let mut i: usize = 0;
    while i < notes.len()
        invariant
            i <= notes@.len(),
            kept@ == notes@.subrange(0, i as int).filter(pred),
            pred == (|n: PlayingNote| n.channel != channel),
        decreases notes@.len() - i,
    {
        proof {
            reveal(Seq::filter);
            assert(notes@.subrange(0, i + 1).drop_last() =~= notes@.subrange(0, i as int));
        }
        let n = notes.get(i);
        if n.channel != channel {
            kept.push(n);
        }
        i = i + 1;
    }
    proof {
        assert(notes@.subrange(0, notes@.len() as int) =~= notes@);
    }
    *notes = NoteList::from_vec(kept);
}

/// Releases `key`.
fn release_key(keys: &mut Vec<u8>, key: u8)
    ensures
        final(keys)@ == old(keys)@.filter(|k: u8| k != key),
{
    let ghost pred = |k: u8| k != key;
    let mut kept: Vec<u8> = Vec::new();
    let mut i: usize = 0;
    while i < keys.len()
        invariant
            i <= keys.len(),
            kept@ == keys@.subrange(0, i as int).filter(pred),
            pred == (|k: u8| k != key),
        decreases keys.len() - i,
    {
        proof {
            reveal(Seq::filter);
            assert(keys@.subrange(0, i + 1).drop_last() =~= keys@.subrange(0, i as int));
        }
        let k = keys[i];
        if k != key {
            kept.push(k);
        }
        i = i + 1;
    }
    proof {
        assert(keys@.subrange(0, keys@.len() as int) =~= keys@);
    }
    *keys = kept;
}

fn contains_key(keys: &Vec<u8>, key: u8) -> (r: bool)
    ensures
        r == keys@.contains(key),
{
    let mut i: usize = 0;
    while i < keys.len()
        invariant
            i <= keys.len(),
            forall|j: int| 0 <= j < i ==> keys@[j] != key,
        decreases keys.len() - i,
    {
        if keys[i] == key {
            return true;
        }
        i = i + 1;
    }
    false
}

fn is_all_notes_controller(controller: u8) -> (r: bool)
    ensures
        r == ends_all_notes(controller),
{
    controller == 120 || (123 <= controller && controller <= 127)
}

/// Tracks which notes sound after `message`.
pub fn update_playing_notes(playing_notes: &mut NoteList, message: &MidiMessage)
    ensures
        final(playing_notes)@ == notes_after(old(playing_notes)@, *message),
{
    match *message {
        MidiMessage::NoteOn { note_id, channel, key, velocity } => {
            if velocity > 0 {
                let note = PlayingNote { note_id, channel, key };
                if !contains_note(playing_notes, &note) {
                    playing_notes.push(note);
                }
            } else {
                release_notes(playing_notes, note_id, channel, key);
            }
        },
        MidiMessage::NoteOff { note_id, channel, key } => {
            release_notes(playing_notes, note_id, channel, key);
        },
        MidiMessage::ControlChange { channel, controller, .. } => {
            if is_all_notes_controller(controller) {
                release_channel(playing_notes, channel);
            }
        },
        _ => {},
    }
}

/// Tracks which keys are held after `message`.
pub fn update_playing_keys(playing_keys: &mut Vec<u8>, message: &MidiMessage)
    ensures
        final(playing_keys)@ == keys_after(old(playing_keys)@, *message),
{
    match *message {
        MidiMessage::NoteOn { key, velocity, .. } => {
            if velocity > 0 {
                if !contains_key(playing_keys, key) {
                    playing_keys.push(key);
                }
            } else {
                release_key(playing_keys, key);
            }
        },
        MidiMessage::NoteOff { key, .. } => {
            release_key(playing_keys, key);
        },
        MidiMessage::ControlChange { controller, .. } => {
            if is_all_notes_controller(controller) {
                playing_keys.clear();
            }
        },
        _ => {},
    }
}

/// Identity of a scheduled note: the pattern id in the high 32 bits and
/// the note id in the low 32 bits.
pub open spec fn spec_note_event_id(pattern_id: PatternId, note_id: NoteId) -> int {
    pattern_id.0 as int * 0x1_0000_0000 + note_id.0 as int
}

/// The note identity sent with scheduled note-on and note-off messages,
/// distinct for equal note ids of different patterns.
pub fn note_event_id(pattern_id: PatternId, note_id: NoteId) -> (r: u64)
    ensures
        r as int == spec_note_event_id(pattern_id, note_id),
{
    let p = pattern_id.0 as u64;
    let n = note_id.0 as u64;
    let r = (p << 32u64) | n;
    assert(r == p * 0x1_0000_0000 + n) by (bit_vector)
        requires
            p < 0x1_0000_0000,
            n < 0x1_0000_0000,
            r == (p << 32u64) | n,
    ;
    r
}

/// Note identities of different (pattern, note) pairs differ.
pub proof fn law_note_event_id_injective(p1: PatternId, n1: NoteId, p2: PatternId, n2: NoteId)
    requires
        spec_note_event_id(p1, n1) == spec_note_event_id(p2, n2),
    ensures
        p1 == p2,
        n1 == n2,
{
    assert(p1.0 == p2.0) by (nonlinear_arith)
        requires
            p1.0 as int * 0x1_0000_0000 + n1.0 as int == p2.0 as int * 0x1_0000_0000 + n2.0 as int,
            n1.0 < 0x1_0000_0000,
            n2.0 < 0x1_0000_0000,
    ;
}

/// Selects the events scheduled at frame offset `v`.
pub open spec fn at_offset(v: usize) -> spec_fn(MidiEvent) -> bool {
    |e: MidiEvent| e.sample_offset == v
}

/// Events are in non-decreasing frame-offset order.
pub open spec fn sorted_by_offset(s: Seq<MidiEvent>) -> bool {
    forall|i: int, j: int| 0 <= i < j < s.len() ==> s[i].sample_offset <= s[j].sample_offset
}

/// `out` is `input` sorted by frame offset, with events at equal offsets in
/// their original order (a stable sort).
pub open spec fn stably_sorted(out: Seq<MidiEvent>, input: Seq<MidiEvent>) -> bool {
    &&& sorted_by_offset(out)
    &&& forall|v: usize| #[trigger] out.filter(at_offset(v)) == input.filter(at_offset(v))
}

proof fn lemma_filter_none(s: Seq<MidiEvent>, pred: spec_fn(MidiEvent) -> bool)
    requires
        forall|i: int| 0 <= i < s.len() ==> !pred(#[trigger] s[i]),
    ensures
        s.filter(pred) == Seq::<MidiEvent>::empty(),
{
    broadcast use vstd::seq_lib::group_filter_ensures;

    if s.filter(pred).len() > 0 {
        let x = s.filter(pred)[0];
        assert(s.filter(pred).contains(x));
        s.lemma_filter_contains_rev(pred, x);
        s.lemma_filter_pred(pred, 0);
    }
    assert(s.filter(pred) =~= Seq::<MidiEvent>::empty());
}

proof fn lemma_filter_single(e: MidiEvent, pred: spec_fn(MidiEvent) -> bool)
    ensures
        seq![e].filter(pred) == (if pred(e) {
            seq![e]
        } else {
            Seq::<MidiEvent>::empty()
        }),
{
    reveal_with_fuel(Seq::filter, 2);
    assert(seq![e].drop_last() =~= Seq::<MidiEvent>::empty());
    assert(Seq::<MidiEvent>::empty().filter(pred) =~= Seq::<MidiEvent>::empty());
}

proof fn lemma_insert_keeps_stable(
    out: Seq<MidiEvent>,
    p: int,
    e: MidiEvent,
    prefix: Seq<MidiEvent>,
)
    requires
        0 <= p <= out.len(),
        sorted_by_offset(out),
        forall|i: int| 0 <= i < p ==> (#[trigger] out[i]).sample_offset <= e.sample_offset,
        forall|i: int| p <= i < out.len() ==> (#[trigger] out[i]).sample_offset > e.sample_offset,
        forall|v: usize| #[trigger] out.filter(at_offset(v)) == prefix.filter(at_offset(v)),
    ensures
        stably_sorted(out.insert(p, e), prefix.push(e)),
{
    let a = out.subrange(0, p);
    let b = out.subrange(p, out.len() as int);
    let res = out.insert(p, e);
    assert(res =~= a + seq![e] + b);
    assert(out =~= a + b);
    assert forall|i: int, j: int| 0 <= i < j < res.len() implies res[i].sample_offset
        <= res[j].sample_offset by {
        if i < p && j > p {
            assert(res[i] == out[i]);
            assert(res[j] == out[j - 1]);
        } else if i < p && j == p {
            assert(res[i] == out[i]);
        } else if i == p {
            assert(res[j] == out[j - 1]);
        } else if i < p {
            assert(res[i] == out[i] && res[j] == out[j]);
        } else {
            assert(res[i] == out[i - 1] && res[j] == out[j - 1]);
        }
    }
    assert forall|v: usize| #[trigger] res.filter(at_offset(v)) == prefix.push(e).filter(
        at_offset(v),
    ) by {
        let f = at_offset(v);
        Seq::filter_distributes_over_add(a + seq![e], b, f);
        Seq::filter_distributes_over_add(a, seq![e], f);
        Seq::filter_distributes_over_add(a, b, f);
        lemma_filter_single(e, f);
        reveal(Seq::filter);
        assert(prefix.push(e).drop_last() =~= prefix);
        if e.sample_offset == v {
            assert forall|i: int| 0 <= i < b.len() implies !f(#[trigger] b[i]) by {
                assert(b[i] == out[p + i]);
            }
            lemma_filter_none(b, f);
            assert(b.filter(f) + Seq::<MidiEvent>::empty() =~= b.filter(f));
        } else {
            assert(a.filter(f) + Seq::<MidiEvent>::empty() =~= a.filter(f));
        }
    }
}

/// Sorts events by frame offset, keeping events at the same offset in
/// their original order.
pub fn sort_events_by_offset(events: &mut EventList)
    ensures
        stably_sorted(final(events)@, old(events)@),
{
    let mut out: Vec<MidiEvent> = Vec::new();
    let mut i: usize = 0;
    proof {
        reveal(Seq::filter);
        assert forall|v: usize| #[trigger] out@.filter(at_offset(v)) == events@.subrange(0, 0).filter(
            at_offset(v),
        ) by {
            assert(out@ =~= events@.subrange(0, 0));
        }
    }
    while i < events.len()
        invariant
            i <= events@.len(),
            sorted_by_offset(out@),
            forall|v: usize| #[trigger] out@.filter(at_offset(v)) == events@.subrange(0, i as int).filter(
                at_offset(v),
            ),
        decreases events@.len() - i,
    {
        let e = events.get(i);
        let mut p: usize = 0;
        while p < out.len() && out[p].sample_offset <= e.sample_offset
            invariant
                p <= out.len(),
                forall|k: int| 0 <= k < p ==> (#[trigger] out@[k]).sample_offset <= e.sample_offset,
            decreases out.len() - p,
        {
            p = p + 1;
        }
        proof {
            assert forall|k: int| p <= k < out@.len() implies (#[trigger] out@[k]).sample_offset
                > e.sample_offset by {
                assert(out@[p as int].sample_offset > e.sample_offset);
                assert(out@[p as int].sample_offset <= out@[k].sample_offset);
            }
            lemma_insert_keeps_stable(out@, p as int, e, events@.subrange(0, i as int));
            assert(events@.subrange(0, i + 1) =~= events@.subrange(0, i as int).push(e));
        }
        out.insert(p, e);
        i = i + 1;
    }
    proof {
        assert(events@.subrange(0, events@.len() as int) =~= events@);
    }
    *events = EventList::from_vec(out);
}

/// Audio-thread reference to one active generator instance.
pub struct GeneratorVoice {
    pub id: GeneratorId,
    pub track_id: TrackId,
    /// Events queued for the current block only.
    pub midi_events: EventList,
    /// Persistent voices stay; a voice whose tail ran out is culled.
    pub active: bool,
    pub playing_keys: Vec<u8>,
    pub playing_notes: NoteList,
    /// Samples of release tail still to render after the last note ended.
    pub tail_remaining: Option<u32>,
}

/// The note-off that ends a sounding note at the start of the block.
pub open spec fn note_off_for(n: PlayingNote) -> MidiEvent {
    MidiEvent {
        sample_offset: 0,
        data: MidiMessage::NoteOff { note_id: n.note_id, channel: n.channel, key: n.key },
    }
}

/// A plugin tail, capped at 20 seconds of audio.
pub open spec fn capped_tail(t: u32, sample_rate: u32) -> u32 {
    if (t as int) < 20 * sample_rate {
        t
    } else {
        (20 * sample_rate) as u32
    }
}

/// Sounding notes after a block's events, in order.
pub open spec fn notes_after_events(notes: Seq<PlayingNote>, events: Seq<MidiEvent>) -> Seq<PlayingNote>
    decreases events.len(),
{
    if events.len() == 0 {
        notes
    } else {
        notes_after(notes_after_events(notes, events.drop_last()), events.last().data)
    }
}

/// Held keys after a block's events, in order.
pub open spec fn keys_after_events(keys: Seq<u8>, events: Seq<MidiEvent>) -> Seq<u8>
    decreases events.len(),
{
    if events.len() == 0 {
        keys
    } else {
        keys_after(keys_after_events(keys, events.drop_last()), events.last().data)
    }
}

/// The tail countdown once every note has ended: an already running one
/// continues, otherwise one starts from the plugin's (capped) tail.
pub open spec fn started_tail(tail: Option<u32>, plugin_tail: Option<u32>, sample_rate: u32) -> Option<u32> {
    match tail {
        Some(t) => Some(t),
        None => match plugin_tail {
            Some(t) => Some(capped_tail(t, sample_rate)),
            None => None,
        },
    }
}

/// A tail after `frames` more frames (saturating at zero; the frame count is
/// taken modulo 2^32).
pub open spec fn counted_down(t: u32, frames: usize) -> int {
    if t >= (frames as u32) {
        t - (frames as u32)
    } else {
        0
    }
}

impl GeneratorVoice {
    pub fn new(id: GeneratorId, track_id: TrackId, active: bool) -> (v: Self)
        ensures
            v.id == id && v.track_id == track_id && v.active == active,
            v.midi_events@.len() == 0 && v.playing_keys@.len() == 0 && v.playing_notes@.len() == 0,
            v.tail_remaining is None,
    {
        GeneratorVoice {
            id,
            track_id,
            midi_events: EventList::new(),
            active,
            playing_keys: Vec::new(),
            playing_notes: NoteList::new(),
            tail_remaining: None,
        }
    }

    /// Queues an event for the current block and marks the voice active.
    pub fn receive(&mut self, event: MidiEvent)
        ensures
            final(self).midi_events@ == old(self).midi_events@.push(event),
            final(self).active,
            final(self).id == old(self).id && final(self).track_id == old(self).track_id,
            final(self).playing_keys@ == old(self).playing_keys@,
            final(self).playing_notes@ == old(self).playing_notes@,
            final(self).tail_remaining == old(self).tail_remaining,
    {
        self.midi_events.push(event);
        self.active = true;
    }

    /// Updates the sounding notes and held keys for one message.
    pub fn track_midi_event(&mut self, message: &MidiMessage)
        ensures
            final(self).playing_notes@ == notes_after(old(self).playing_notes@, *message),
            final(self).playing_keys@ == keys_after(old(self).playing_keys@, *message),
            final(self).midi_events@ == old(self).midi_events@,
            final(self).id == old(self).id && final(self).track_id == old(self).track_id,
            final(self).active == old(self).active,
            final(self).tail_remaining == old(self).tail_remaining,
    {
        update_playing_notes(&mut self.playing_notes, message);
        update_playing_keys(&mut self.playing_keys, message);
    }

    /// Silences the voice: queues a note-off for every sounding note, forgets
    /// held keys and notes and, when the generator is present
    /// (`plugin_tail` is its tail), starts its capped release tail.
    pub fn stop(&mut self, plugin_tail: Option<u32>, sample_rate: u32)
        requires
            20 * sample_rate <= u32::MAX,
        ensures
            final(self).midi_events@ == old(self).midi_events@ + old(self).playing_notes@.map_values(
                |n: PlayingNote| note_off_for(n),
            ),
            final(self).playing_keys@.len() == 0,
            final(self).playing_notes@.len() == 0,
            final(self).tail_remaining == match plugin_tail {
                Some(t) => Some(capped_tail(t, sample_rate)),
                None => old(self).tail_remaining,
            },
            final(self).id == old(self).id && final(self).track_id == old(self).track_id,
            final(self).active == old(self).active,
    {
        let ghost start = self.midi_events@;
        let mut i: usize = 0;
        while i < self.playing_notes.len()
            invariant
                i <= self.playing_notes@.len(),
                self.playing_notes@ == old(self).playing_notes@,
                self.midi_events@ == start + old(self).playing_notes@.subrange(0, i as int).map_values(
                    |n: PlayingNote| note_off_for(n),
                ),
                start == old(self).midi_events@,
                self.id == old(self).id && self.track_id == old(self).track_id,
                self.active == old(self).active,
                self.tail_remaining == old(self).tail_remaining,
            decreases self.playing_notes@.len() - i,
        {
            let n = self.playing_notes.get(i);
            self.midi_events.push(
                MidiEvent {
                    sample_offset: 0,
                    data: MidiMessage::NoteOff { note_id: n.note_id, channel: n.channel, key: n.key },
                },
            );
            proof {
                assert(old(self).playing_notes@.subrange(0, i + 1) =~= old(
                    self,
                ).playing_notes@.subrange(0, i as int).push(n));
                assert(self.midi_events@ =~= start + old(self).playing_notes@.subrange(
                    0,
                    i + 1,
                ).map_values(|n: PlayingNote| note_off_for(n)));
            }
            i = i + 1;
        }
        proof {
            assert(old(self).playing_notes@.subrange(0, old(self).playing_notes@.len() as int)
                =~= old(self).playing_notes@);
        }
        self.playing_keys.clear();
        self.playing_notes.clear();
        match plugin_tail {
            Some(t) => {
                let cap = 20 * sample_rate;
                self.tail_remaining = Some(
                    if t < cap {
                        t
                    } else {
                        cap
                    },
                );
            },
            None => {},
        }
    }

    /// End of a rendered block: applies the block's events to the sounding
    /// notes and held keys and clears them. While notes sound, no tail runs;
    /// once none does, the release tail counts down by `frame_count`, and
    /// when it reaches zero the voice is deactivated and the generator's
    /// plugin must be reset (returns `true`). `plugin_tail` is the
    /// generator's tail when the generator is present.
    pub fn finish_block(&mut self, frame_count: usize, plugin_tail: Option<u32>, sample_rate: u32) -> (reset_plugin: bool)
        requires
            20 * sample_rate <= u32::MAX,
        ensures
            final(self).playing_notes@ == notes_after_events(
                old(self).playing_notes@,
                old(self).midi_events@,
            ),
            final(self).playing_keys@ == keys_after_events(
                old(self).playing_keys@,
                old(self).midi_events@,
            ),
            final(self).midi_events@.len() == 0,
            final(self).id == old(self).id && final(self).track_id == old(self).track_id,
            final(self).playing_notes@.len() > 0 ==> final(self).tail_remaining is None
                && final(self).active == old(self).active && !reset_plugin,
            final(self).playing_notes@.len() == 0 ==> match started_tail(
                old(self).tail_remaining,
                plugin_tail,
                sample_rate,
            ) {
                None => final(self).tail_remaining is None && final(self).active == old(self).active
                    && !reset_plugin,
                Some(t) => if counted_down(t, frame_count) == 0 {
                    final(self).tail_remaining is None && !final(self).active && reset_plugin
                } else {
                    final(self).tail_remaining == Some(counted_down(t, frame_count) as u32)
                        && final(self).active == old(self).active && !reset_plugin
                },
            },
    {
        let ghost events = self.midi_events@;
        let mut i: usize = 0;
        while i < self.midi_events.len()
            invariant
                i <= self.midi_events@.len(),
                self.midi_events@ == events,
                events == old(self).midi_events@,
                self.playing_notes@ == notes_after_events(
                    old(self).playing_notes@,
                    events.subrange(0, i as int),
                ),
                self.playing_keys@ == keys_after_events(
                    old(self).playing_keys@,
                    events.subrange(0, i as int),
                ),
                self.id == old(self).id && self.track_id == old(self).track_id,
                self.active == old(self).active,
                self.tail_remaining == old(self).tail_remaining,
            decreases self.midi_events@.len() - i,
        {
            let ev = self.midi_events.get(i);
            proof {
                assert(events.subrange(0, i + 1).drop_last() =~= events.subrange(0, i as int));
            }
            update_playing_notes(&mut self.playing_notes, &ev.data);
            update_playing_keys(&mut self.playing_keys, &ev.data);
            i = i + 1;
        }
        proof {
            assert(events.subrange(0, events.len() as int) =~= events);
        }
        self.midi_events.clear();
        if self.playing_notes.len() == 0 {
            if self.tail_remaining.is_none() {
                match plugin_tail {
                    Some(t) => {
                        let cap = 20 * sample_rate;
                        self.tail_remaining = Some(
                            if t < cap {
                                t
                            } else {
                                cap
                            },
                        );
                    },
                    None => {},
                }
            }
            match self.tail_remaining {
                Some(tail) => {
                    let frames = frame_count as u32;
                    let new_tail = if tail >= frames {
                        tail - frames
                    } else {
                        0
                    };
                    if new_tail == 0 {
                        self.tail_remaining = None;
                        self.active = false;
                        true
                    } else {
                        self.tail_remaining = Some(new_tail);
                        false
                    }
                },
                None => false,
            }
        } else {
            self.tail_remaining = None;
            false
        }
    }
}

/// Index of the voice of generator `id`, if there is one.
pub fn find_voice(voices: &Vec<GeneratorVoice>, id: GeneratorId) -> (r: Option<usize>)
    ensures
        match r {
            Some(i) => i < voices@.len() && voices@[i as int].id == id && forall|j: int|
                0 <= j < i ==> (#[trigger] voices@[j]).id != id,
            None => forall|j: int| 0 <= j < voices@.len() ==> (#[trigger] voices@[j]).id != id,
        },
{
    let mut i: usize = 0;
    while i < voices.len()
        invariant
            i <= voices@.len(),
            forall|j: int| 0 <= j < i ==> (#[trigger] voices@[j]).id != id,
        decreases voices@.len() - i,
    {
        if voices[i].id.0 == id.0 {
            return Some(i);
        }
        i = i + 1;
    }
    None
}

/// Finds the voice of a generator present in the plugin state (`exists`),
/// creating an active one on `track_id` if it has none yet. `None` when the
/// generator is absent.
pub fn ensure_generator_voice(
    voices: &mut Vec<GeneratorVoice>,
    generator_exists: bool,
    track_id: TrackId,
    generator_id: GeneratorId,
) -> (r: Option<usize>)
    ensures
        match find_voice_spec(old(voices)@, generator_id) {
            Some(i) => r == Some(i as usize) && final(voices)@ == old(voices)@,
            None => if generator_exists {
                &&& r == Some(old(voices)@.len() as usize)
                &&& final(voices)@.len() == old(voices)@.len() + 1
                &&& final(voices)@.subrange(0, old(voices)@.len() as int) == old(voices)@
                &&& final(voices)@.last().id == generator_id
                &&& final(voices)@.last().track_id == track_id
                &&& final(voices)@.last().active
                &&& final(voices)@.last().midi_events@.len() == 0
                &&& final(voices)@.last().playing_notes@.len() == 0
                &&& final(voices)@.last().playing_keys@.len() == 0
                &&& final(voices)@.last().tail_remaining is None
            } else {
                r is None && final(voices)@ == old(voices)@
            },
        },
{
    match find_voice(voices, generator_id) {
        Some(i) => {
            proof {
                lemma_find_voice_spec(voices@, generator_id, i as int);
            }
            Some(i)
        },
        None => {
            proof {
                lemma_find_voice_spec_none(voices@, generator_id);
            }
            if generator_exists {
                let ghost before = voices@;
                voices.push(GeneratorVoice::new(generator_id, track_id, true));
                proof {
                    assert(voices@.subrange(0, before.len() as int) =~= before);
                }
                Some(voices.len() - 1)
            } else {
                None
            }
        }
    }
}

/// Queues `event` for generator `generator_id` when the generator is present
/// (`generator_track` is the track it belongs to), creating its voice if
/// needed, and marks the voice active. Returns whether the generator was
/// present.
pub fn queue_generator_event(
    voices: &mut Vec<GeneratorVoice>,
    generator_track: Option<TrackId>,
    generator_id: GeneratorId,
    event: MidiEvent,
) -> (queued: bool)
    ensures
        queued == generator_track is Some,
        !queued ==> final(voices)@ == old(voices)@,
        queued ==> voice_received(old(voices)@, final(voices)@, generator_id, generator_track->0, event),
{
    match generator_track {
        None => false,
        Some(track_id) => {
            deliver_event(voices, track_id, generator_id, event);
            true
        },
    }
}

/// `after` is `before` with `event` queued on the (first) voice of
/// `generator_id`, made active, or with a new active voice on `track_id`
/// holding just `event` appended when the generator had none.
pub open spec fn voice_received(
    before: Seq<GeneratorVoice>,
    after: Seq<GeneratorVoice>,
    generator_id: GeneratorId,
    track_id: TrackId,
    event: MidiEvent,
) -> bool {
    match find_voice_spec(before, generator_id) {
        Some(i) => {
            &&& after.len() == before.len()
            &&& forall|j: int| 0 <= j < before.len() && j != i ==> #[trigger] after[j] == before[j]
            &&& after[i].id == before[i].id && after[i].track_id == before[i].track_id
            &&& after[i].midi_events@ == before[i].midi_events@.push(event)
            &&& after[i].active
            &&& after[i].playing_keys@ == before[i].playing_keys@
            &&& after[i].playing_notes@ == before[i].playing_notes@
            &&& after[i].tail_remaining == before[i].tail_remaining
        },
        None => {
            &&& after.len() == before.len() + 1
            &&& after.subrange(0, before.len() as int) == before
            &&& after.last().id == generator_id && after.last().track_id == track_id
            &&& after.last().active
            &&& after.last().midi_events@ == seq![event]
            &&& after.last().playing_keys@.len() == 0 && after.last().playing_notes@.len() == 0
            &&& after.last().tail_remaining is None
        },
    }
}

fn deliver_event(voices: &mut Vec<GeneratorVoice>, track_id: TrackId, generator_id: GeneratorId, event: MidiEvent)
    ensures
        voice_received(old(voices)@, final(voices)@, generator_id, track_id, event),
{
    proof {
        lemma_find_voice_spec_range(voices@, generator_id);
    }
    let idx = ensure_generator_voice(voices, true, track_id, generator_id);
    let ghost mid = voices@;
    let len_after = voices.len();
    match idx {
        Some(i) => {
            voices[i].receive(event);
            proof {
                assert(voices@ == mid.update(i as int, voices@[i as int]));
                if find_voice_spec(old(voices)@, generator_id) is None {
                    assert(idx == Some(old(voices)@.len() as usize));
                    assert(mid.len() == old(voices)@.len() + 1);
                    assert(len_after as int == mid.len());
                    assert(i as int == mid.len() - 1);
                    assert(mid.last() == mid[i as int]);
                    assert(mid[i as int].midi_events@.len() == 0);
                    assert(voices@[i as int].midi_events@ == mid[i as int].midi_events@.push(event));
                    assert(mid.last().midi_events@ =~= Seq::<MidiEvent>::empty());
                    assert(voices@.last().midi_events@ =~= seq![event]);
                    assert(voices@.subrange(0, old(voices)@.len() as int) =~= mid.subrange(
                        0,
                        old(voices)@.len() as int,
                    ));
                }
            }
        },
        None => {},
    }
}

/// A key pressed or released by hand (piano roll, keyboard): delivered as
/// a note-on or note-off without note id on channel 0 at the start of the
/// block, to the voice of `generator_id`, which is created on the track
/// that the project graph assigns to the generator (`graph_track`) or else
/// on the generator's own track. Nothing happens when the generator is
/// absent from the plugin state (`plugin_track` is `None`).
pub fn trigger_live_note(
    voices: &mut Vec<GeneratorVoice>,
    graph_track: Option<TrackId>,
    plugin_track: Option<TrackId>,
    generator_id: GeneratorId,
    key: u8,
    velocity: u8,
    is_on: bool,
) -> (delivered: bool)
    ensures
        delivered == plugin_track is Some,
        !delivered ==> final(voices)@ == old(voices)@,
        delivered ==> voice_received(
            old(voices)@,
            final(voices)@,
            generator_id,
            match graph_track {
                Some(t) => t,
                None => plugin_track->0,
            },
            live_note_event(key, velocity, is_on),
        ),
{
    match plugin_track {
        None => false,
        Some(own_track) => {
            let track_id = match graph_track {
                Some(t) => t,
                None => own_track,
            };
            let message = if is_on {
                MidiMessage::NoteOn { note_id: None, channel: 0, key, velocity }
            } else {
                MidiMessage::NoteOff { note_id: None, channel: 0, key }
            };
            deliver_event(voices, track_id, generator_id, MidiEvent { sample_offset: 0, data: message });
            true
        },
    }
}

/// The event that a hand-played key produces.
pub open spec fn live_note_event(key: u8, velocity: u8, is_on: bool) -> MidiEvent {
    MidiEvent {
        sample_offset: 0,
        data: if is_on {
            MidiMessage::NoteOn { note_id: None, channel: 0, key, velocity }
        } else {
            MidiMessage::NoteOff { note_id: None, channel: 0, key }
        },
    }
}

/// `n` is voice `o` silenced (see [`GeneratorVoice::stop`]), `plugin_tail`
/// being the tail of its generator when that generator is present.
pub open spec fn voice_stopped(o: GeneratorVoice, n: GeneratorVoice, plugin_tail: Option<u32>, sample_rate: u32) -> bool {
    &&& n.midi_events@ == o.midi_events@ + o.playing_notes@.map_values(|p: PlayingNote| note_off_for(p))
    &&& n.playing_keys@.len() == 0 && n.playing_notes@.len() == 0
    &&& n.tail_remaining == match plugin_tail {
        Some(t) => Some(capped_tail(t, sample_rate)),
        None => o.tail_remaining,
    }
    &&& n.id == o.id && n.track_id == o.track_id && n.active == o.active
}

/// `after` is `before` with every voice silenced; `plugin_tails[i]` is the
/// tail of voice `i`'s generator when that generator is present.
pub open spec fn voices_stopped(
    before: Seq<GeneratorVoice>,
    after: Seq<GeneratorVoice>,
    plugin_tails: Seq<Option<u32>>,
    sample_rate: u32,
) -> bool {
    &&& after.len() == before.len()
    &&& forall|i: int| 0 <= i < before.len() ==> voice_stopped(before[i], #[trigger] after[i], plugin_tails[i], sample_rate)
}

/// Silences every voice (see [`GeneratorVoice::stop`]); `plugin_tails[i]`
/// is the tail of voice `i`'s generator when that generator is present.
pub fn stop_all_active_generators(
    voices: &mut Vec<GeneratorVoice>,
    plugin_tails: &[Option<u32>],
    sample_rate: u32,
)
    requires
        plugin_tails@.len() == old(voices)@.len(),
        20 * sample_rate <= u32::MAX,
    ensures
        voices_stopped(old(voices)@, final(voices)@, plugin_tails@, sample_rate),
{
    let mut i: usize = 0;
    while i < voices.len()
        invariant
            i <= voices@.len(),
            voices@.len() == old(voices)@.len(),
            plugin_tails@.len() == old(voices)@.len(),
            20 * sample_rate <= u32::MAX,
            forall|j: int| i <= j < voices@.len() ==> #[trigger] voices@[j] == old(voices)@[j],
            forall|j: int|
                #![trigger voices@[j]]
                0 <= j < i ==> {
                    let (o, n) = (old(voices)@[j], voices@[j]);
                    &&& n.midi_events@ == o.midi_events@ + o.playing_notes@.map_values(
                        |p: PlayingNote| note_off_for(p),
                    )
                    &&& n.playing_keys@.len() == 0 && n.playing_notes@.len() == 0
                    &&& n.tail_remaining == match plugin_tails@[j] {
                        Some(t) => Some(capped_tail(t, sample_rate)),
                        None => o.tail_remaining,
                    }
                    &&& n.id == o.id && n.track_id == o.track_id && n.active == o.active
                },
        decreases voices@.len() - i,
    {
        voices[i].stop(plugin_tails[i], sample_rate);
        i = i + 1;
    }
}

/// `n` is `o` with its queued events and held keys forgotten; its sounding
/// notes, activity and tail stay.
pub open spec fn input_forgotten(o: GeneratorVoice, n: GeneratorVoice) -> bool {
    &&& n.midi_events@.len() == 0 && n.playing_keys@.len() == 0
    &&& n.playing_notes@ == o.playing_notes@
    &&& n.id == o.id && n.track_id == o.track_id && n.active == o.active
    &&& n.tail_remaining == o.tail_remaining
}

/// Forgets the queued events and held keys of the (first) voice of
/// generator `id`, when it has one (the generator stops being the one a
/// pattern plays).
pub fn forget_generator_input(voices: &mut Vec<GeneratorVoice>, id: GeneratorId)
    ensures
        final(voices)@.len() == old(voices)@.len(),
        match find_voice_spec(old(voices)@, id) {
            Some(i) => input_forgotten(old(voices)@[i], final(voices)@[i]) && forall|j: int|
                0 <= j < old(voices)@.len() && j != i ==> #[trigger] final(voices)@[j] == old(voices)@[j],
            None => final(voices)@ == old(voices)@,
        },
{
    match find_voice(voices, id) {
        Some(i) => {
            proof {
                lemma_find_voice_spec(voices@, id, i as int);
            }
            voices[i].midi_events.clear();
            voices[i].playing_keys.clear();
        },
        None => {
            proof {
                lemma_find_voice_spec_none(voices@, id);
            }
        },
    }
}

/// `n` is voice `o` after a block of `frame_count` frames (see
/// [`GeneratorVoice::finish_block`]); `reset` tells whether the generator's
/// plugin must be reset.
pub open spec fn voice_block_finished(
    o: GeneratorVoice,
    n: GeneratorVoice,
    frame_count: usize,
    plugin_tail: Option<u32>,
    sample_rate: u32,
    reset: bool,
) -> bool {
    &&& n.playing_notes@ == notes_after_events(o.playing_notes@, o.midi_events@)
    &&& n.playing_keys@ == keys_after_events(o.playing_keys@, o.midi_events@)
    &&& n.midi_events@.len() == 0
    &&& n.id == o.id && n.track_id == o.track_id
    &&& n.playing_notes@.len() > 0 ==> n.tail_remaining is None && n.active == o.active && !reset
    &&& n.playing_notes@.len() == 0 ==> match started_tail(o.tail_remaining, plugin_tail, sample_rate) {
        None => n.tail_remaining is None && n.active == o.active && !reset,
        Some(t) => if counted_down(t, frame_count) == 0 {
            n.tail_remaining is None && !n.active && reset
        } else {
            n.tail_remaining == Some(counted_down(t, frame_count) as u32) && n.active == o.active && !reset
        },
    }
}

/// The ids of the first `k` voices whose flag is set, in order.
pub open spec fn flagged_ids(voices: Seq<GeneratorVoice>, flags: Seq<bool>, k: nat) -> Seq<GeneratorId>
    decreases k,
{
    if k == 0 {
        Seq::empty()
    } else {
        let rest = flagged_ids(voices, flags, (k - 1) as nat);
        if flags[k - 1] {
            rest.push(voices[k - 1].id)
        } else {
            rest
        }
    }
}

/// `mid` is every voice of `before` after its block, `resets[i]` telling
/// whether voice `i`'s plugin must be reset.
pub open spec fn blocks_finished(
    before: Seq<GeneratorVoice>,
    mid: Seq<GeneratorVoice>,
    resets: Seq<bool>,
    frame_count: usize,
    plugin_tails: Seq<Option<u32>>,
    sample_rate: u32,
) -> bool {
    &&& mid.len() == before.len() && resets.len() == before.len()
    &&& forall|i: int| 0 <= i < before.len() ==> voice_block_finished(
        before[i],
        #[trigger] mid[i],
        frame_count,
        plugin_tails[i],
        sample_rate,
        resets[i],
    )
}

/// Ends a rendered block of `frame_count` frames for every voice (see
/// [`GeneratorVoice::finish_block`]) and then drops the voices that are no
/// longer active. Returns the generators whose plugin must be reset, in
/// voice order. `plugin_tails[i]` is the tail of voice `i`'s generator when
/// that generator is present.
pub fn finish_voice_blocks(
    voices: &mut Vec<GeneratorVoice>,
    frame_count: usize,
    plugin_tails: &[Option<u32>],
    sample_rate: u32,
) -> (reset: Vec<GeneratorId>)
    requires
        plugin_tails@.len() == old(voices)@.len(),
        20 * sample_rate <= u32::MAX,
    ensures
        exists|mid: Seq<GeneratorVoice>, flags: Seq<bool>| {
            &&& blocks_finished(old(voices)@, mid, flags, frame_count, plugin_tails@, sample_rate)
            &&& final(voices)@ == mid.filter(|v: GeneratorVoice| v.active)
            &&& reset@ == flagged_ids(mid, flags, mid.len())
        },
{
    let mut reset: Vec<GeneratorId> = Vec::new();
    let ghost mut flags: Seq<bool> = Seq::empty();
    let mut i: usize = 0;
    while i < voices.len()
        invariant
            i <= voices@.len(),
            voices@.len() == old(voices)@.len(),
            plugin_tails@.len() == old(voices)@.len(),
            20 * sample_rate <= u32::MAX,
            flags.len() == i,
            forall|j: int| i <= j < voices@.len() ==> #[trigger] voices@[j] == old(voices)@[j],
            forall|j: int| 0 <= j < i ==> voice_block_finished(
                old(voices)@[j],
                #[trigger] voices@[j],
                frame_count,
                plugin_tails@[j],
                sample_rate,
                flags[j],
            ),
            reset@ == flagged_ids(voices@, flags, i as nat),
        decreases voices@.len() - i,
    {
        let ghost before = voices@;
        let r = voices[i].finish_block(frame_count, plugin_tails[i], sample_rate);
        proof {
            let old_flags = flags;
            assert forall|j: int| 0 <= j < i implies #[trigger] before[j] == voices@[j] by {}
            lemma_flagged_ids_prefix(before, voices@, old_flags, i as nat);
            flags = flags.push(r);
            assert forall|j: int| 0 <= j < i implies #[trigger] old_flags[j] == flags[j] by {}
            lemma_flagged_ids_flags(voices@, old_flags, flags, i as nat);
            assert(flagged_ids(voices@, flags, i as nat) == reset@);
        }
        if r {
            reset.push(voices[i].id);
        }
        i = i + 1;
    }
    let ghost mid = voices@;
    retain_active_voices(voices);
    proof {
        assert(blocks_finished(old(voices)@, mid, flags, frame_count, plugin_tails@, sample_rate));
    }
    reset
}

/// `flagged_ids` over the first `k` voices reads only those voices.
proof fn lemma_flagged_ids_prefix(a: Seq<GeneratorVoice>, b: Seq<GeneratorVoice>, flags: Seq<bool>, k: nat)
    requires
        k <= a.len(),
        k <= b.len(),
        forall|j: int| 0 <= j < k ==> #[trigger] a[j] == b[j],
    ensures
        flagged_ids(a, flags, k) == flagged_ids(b, flags, k),
    decreases k,
{
    if k > 0 {
        lemma_flagged_ids_prefix(a, b, flags, (k - 1) as nat);
        assert(a[k - 1] == b[k - 1]);
    }
}

/// `flagged_ids` over the first `k` voices reads only the first `k` flags.
proof fn lemma_flagged_ids_flags(v: Seq<GeneratorVoice>, f: Seq<bool>, g: Seq<bool>, k: nat)
    requires
        k <= f.len(),
        k <= g.len(),
        forall|j: int| 0 <= j < k ==> #[trigger] f[j] == g[j],
    ensures
        flagged_ids(v, f, k) == flagged_ids(v, g, k),
    decreases k,
{
    if k > 0 {
        lemma_flagged_ids_flags(v, f, g, (k - 1) as nat);
        assert(f[k - 1] == g[k - 1]);
    }
}

/// Drops the voices that are no longer active.
pub fn retain_active_voices(voices: &mut Vec<GeneratorVoice>)
    ensures
        final(voices)@ == old(voices)@.filter(|v: GeneratorVoice| v.active),
{
    let ghost pred = |v: GeneratorVoice| v.active;
    let ghost original = voices@;
    let mut kept: Vec<GeneratorVoice> = Vec::new();
    while voices.len() > 0
        invariant
            pred == (|v: GeneratorVoice| v.active),
            original == old(voices)@,
            voices@.len() <= original.len(),
            voices@ == original.subrange(0, voices@.len() as int),
            kept@.reverse() == original.subrange(voices@.len() as int, original.len() as int).filter(pred),
        decreases voices@.len(),
    {
        let ghost n = voices@.len();
        let v = voices.pop().unwrap();
        proof {
            lemma_filter_prepend(original.subrange(n - 1, original.len() as int), pred);
            assert(original.subrange(n - 1, original.len() as int).first() == v);
            assert(original.subrange(n - 1, original.len() as int).drop_first() =~= original.subrange(
                n as int,
                original.len() as int,
            ));
            assert(voices@ =~= original.subrange(0, n - 1));
        }
        if v.active {
            let ghost kb = kept@;
            kept.push(v);
            proof {
                assert(kept@.reverse() =~= seq![v] + kb.reverse());
            }
        }
    }
    proof {
        assert(original.subrange(0, original.len() as int) =~= original);
    }
    let mut out: Vec<GeneratorVoice> = Vec::new();
    while kept.len() > 0
        invariant
            (out@ + kept@.reverse()) == original.filter(pred),
            pred == (|v: GeneratorVoice| v.active),
        decreases kept@.len(),
    {
        let ghost kb = kept@;
        let v = kept.pop().unwrap();
        proof {
            assert(kb.reverse() =~= seq![v] + kept@.reverse());
        }
        let ghost ob = out@;
        out.push(v);
        proof {
            assert(out@ + kept@.reverse() =~= ob + (seq![v] + kept@.reverse()));
        }
    }
    proof {
        assert(out@ =~= out@ + kept@.reverse());
    }
    *voices = out;
}

/// Whether a voice belongs to a generator other than `id`.
pub open spec fn not_of_generator(id: GeneratorId) -> spec_fn(GeneratorVoice) -> bool {
    |v: GeneratorVoice| v.id != id
}

/// Drops the voices of generator `id` (the generator was removed).
pub fn drop_voices_of(voices: &mut Vec<GeneratorVoice>, id: GeneratorId)
    ensures
        final(voices)@ == old(voices)@.filter(not_of_generator(id)),
{
    let ghost pred = not_of_generator(id);
    let ghost original = voices@;
    let mut kept: Vec<GeneratorVoice> = Vec::new();
    while voices.len() > 0
        invariant
            pred == not_of_generator(id),
            original == old(voices)@,
            voices@.len() <= original.len(),
            voices@ == original.subrange(0, voices@.len() as int),
            kept@.reverse() == original.subrange(voices@.len() as int, original.len() as int).filter(pred),
        decreases voices@.len(),
    {
        let ghost n = voices@.len();
        let v = voices.pop().unwrap();
        proof {
            lemma_filter_prepend(original.subrange(n - 1, original.len() as int), pred);
            assert(original.subrange(n - 1, original.len() as int).first() == v);
            assert(original.subrange(n - 1, original.len() as int).drop_first() =~= original.subrange(
                n as int,
                original.len() as int,
            ));
            assert(voices@ =~= original.subrange(0, n - 1));
        }
        if v.id.0 != id.0 {
            let ghost kb = kept@;
            kept.push(v);
            proof {
                assert(kept@.reverse() =~= seq![v] + kb.reverse());
            }
        }
    }
    proof {
        assert(original.subrange(0, original.len() as int) =~= original);
    }
    let mut out: Vec<GeneratorVoice> = Vec::new();
    while kept.len() > 0
        invariant
            (out@ + kept@.reverse()) == original.filter(pred),
            pred == not_of_generator(id),
        decreases kept@.len(),
    {
        let ghost kb = kept@;
        let v = kept.pop().unwrap();
        proof {
            assert(kb.reverse() =~= seq![v] + kept@.reverse());
        }
        let ghost ob = out@;
        out.push(v);
        proof {
            assert(out@ + kept@.reverse() =~= ob + (seq![v] + kept@.reverse()));
        }
    }
    proof {
        assert(out@ =~= out@ + kept@.reverse());
    }
    *voices = out;
}

/// Moves the voices of generator `id` to track `track_id`.
pub fn retrack_voices(voices: &mut Vec<GeneratorVoice>, id: GeneratorId, track_id: TrackId)
    ensures
        final(voices)@.len() == old(voices)@.len(),
        forall|i: int| 0 <= i < old(voices)@.len() ==> {
            let v = #[trigger] old(voices)@[i];
            let w = final(voices)@[i];
            &&& w.id == v.id
            &&& w.track_id == (if v.id == id { track_id } else { v.track_id })
            &&& w.active == v.active
            &&& w.midi_events == v.midi_events
            &&& w.playing_keys == v.playing_keys
            &&& w.playing_notes == v.playing_notes
            &&& w.tail_remaining == v.tail_remaining
        },
{
    let mut i: usize = 0;
    while i < voices.len()
        invariant
            i <= voices@.len(),
            voices@.len() == old(voices)@.len(),
            forall|j: int| 0 <= j < voices@.len() ==> {
                let v = #[trigger] old(voices)@[j];
                let w = voices@[j];
                &&& w.id == v.id
                &&& w.track_id == (if j < i && v.id == id { track_id } else { v.track_id })
                &&& w.active == v.active
                &&& w.midi_events == v.midi_events
                &&& w.playing_keys == v.playing_keys
                &&& w.playing_notes == v.playing_notes
                &&& w.tail_remaining == v.tail_remaining
            },
        decreases voices@.len() - i,
    {
        if voices[i].id.0 == id.0 {
            voices[i].track_id = track_id;
        }
        i = i + 1;
    }
}

proof fn lemma_filter_prepend(s: Seq<GeneratorVoice>, pred: spec_fn(GeneratorVoice) -> bool)
    requires
        s.len() > 0,
    ensures
        s.filter(pred) == if pred(s.first()) {
            seq![s.first()] + s.drop_first().filter(pred)
        } else {
            s.drop_first().filter(pred)
        },
{
    assert(s =~= seq![s.first()] + s.drop_first());
    Seq::filter_distributes_over_add(seq![s.first()], s.drop_first(), pred);
    reveal_with_fuel(Seq::filter, 2);
    assert(seq![s.first()].drop_last() =~= Seq::<GeneratorVoice>::empty());
    assert(Seq::<GeneratorVoice>::empty().filter(pred) =~= Seq::<GeneratorVoice>::empty());
    if !pred(s.first()) {
        assert(Seq::<GeneratorVoice>::empty() + s.drop_first().filter(pred) =~= s.drop_first().filter(pred));
    }
}

/// A pattern note with its start and duration already converted from ticks
/// to samples at the current tempo.
#[derive(Clone, Copy, Debug, PartialEq, Eq, Structural)]
pub struct NoteSpan {
    pub id: NoteId,
    pub key: u8,
    pub velocity: u8,
    pub start: u32,
    pub duration: u32,
}

/// The event at `at` (a sample position) of a block starting at
/// `buffer_start`, if the block `[buffer_start, buffer_end)` contains it.
pub open spec fn event_in_block(at: int, buffer_start: u32, buffer_end: u32, data: MidiMessage) -> Seq<MidiEvent> {
    if buffer_start <= at && at < buffer_end {
        seq![MidiEvent { sample_offset: (at - buffer_start) as usize, data }]
    } else {
        Seq::empty()
    }
}

/// Events of one pattern note placed in a clip: the note sounds from its
/// start (shifted by the clip start and the clip's offset into the
/// pattern) to its end, cut at the clip end; notes before the offset or at
/// or after the clip end are not played.
pub open spec fn clip_note_events(
    pattern_id: PatternId,
    n: NoteSpan,
    clip_start: u32,
    clip_end: int,
    clip_offset: u32,
    buffer_start: u32,
    buffer_end: u32,
) -> Seq<MidiEvent> {
    if n.start < clip_offset {
        Seq::empty()
    } else {
        let abs_start = clip_start + n.start - clip_offset;
        if abs_start >= clip_end {
            Seq::empty()
        } else {
            let abs_end = if abs_start + n.duration < clip_end {
                abs_start + n.duration
            } else {
                clip_end
            };
            let id = spec_note_event_id(pattern_id, n.id) as u64;
            event_in_block(
                abs_start,
                buffer_start,
                buffer_end,
                MidiMessage::NoteOn { note_id: Some(id), channel: 0, key: n.key, velocity: n.velocity },
            ) + event_in_block(
                abs_end,
                buffer_start,
                buffer_end,
                MidiMessage::NoteOff { note_id: Some(id), channel: 0, key: n.key },
            )
        }
    }
}

pub open spec fn clip_notes_events(
    pattern_id: PatternId,
    notes: Seq<NoteSpan>,
    clip_start: u32,
    clip_end: int,
    clip_offset: u32,
    buffer_start: u32,
    buffer_end: u32,
) -> Seq<MidiEvent>
    decreases notes.len(),
{
    if notes.len() == 0 {
        Seq::empty()
    } else {
        clip_notes_events(
            pattern_id,
            notes.drop_last(),
            clip_start,
            clip_end,
            clip_offset,
            buffer_start,
            buffer_end,
        ) + clip_note_events(
            pattern_id,
            notes.last(),
            clip_start,
            clip_end,
            clip_offset,
            buffer_start,
            buffer_end,
        )
    }
}

/// Where a scheduled event of a clip note lies in the song: its sample
/// position (the block start plus its offset) is at or after the clip start,
/// a note-on lies before the clip end, and a note-off no later than the clip
/// end: a note never sounds past its clip's end. Only note-ons and note-offs
/// are scheduled.
pub proof fn law_clip_notes_stay_in_clip(
    pattern_id: PatternId,
    notes: Seq<NoteSpan>,
    clip_start: u32,
    clip_end: int,
    clip_offset: u32,
    buffer_start: u32,
    buffer_end: u32,
)
    ensures
        forall|i: int|
            0 <= i < clip_notes_events(pattern_id, notes, clip_start, clip_end, clip_offset, buffer_start, buffer_end).len()
                ==> {
                let e = #[trigger] clip_notes_events(
                    pattern_id,
                    notes,
                    clip_start,
                    clip_end,
                    clip_offset,
                    buffer_start,
                    buffer_end,
                )[i];
                let at = buffer_start + e.sample_offset;
                &&& clip_start <= at
                &&& buffer_start <= at < buffer_end
                &&& (e.data is NoteOn || e.data is NoteOff)
                &&& e.data is NoteOn ==> at < clip_end
                &&& e.data is NoteOff ==> at <= clip_end
            },
    decreases notes.len(),
{
    if notes.len() > 0 {
        law_clip_notes_stay_in_clip(
            pattern_id,
            notes.drop_last(),
            clip_start,
            clip_end,
            clip_offset,
            buffer_start,
            buffer_end,
        );
        let prev = clip_notes_events(
            pattern_id,
            notes.drop_last(),
            clip_start,
            clip_end,
            clip_offset,
            buffer_start,
            buffer_end,
        );
        let last = clip_note_events(pattern_id, notes.last(), clip_start, clip_end, clip_offset, buffer_start, buffer_end);
        let all = clip_notes_events(pattern_id, notes, clip_start, clip_end, clip_offset, buffer_start, buffer_end);
        assert(all == prev + last);
        assert forall|i: int| 0 <= i < all.len() implies {
            let e = #[trigger] all[i];
            let at = buffer_start + e.sample_offset;
            &&& clip_start <= at
            &&& buffer_start <= at < buffer_end
            &&& (e.data is NoteOn || e.data is NoteOff)
            &&& e.data is NoteOn ==> at < clip_end
            &&& e.data is NoteOff ==> at <= clip_end
        } by {
            if i < prev.len() {
                assert(all[i] == prev[i]);
            } else {
                assert(all[i] == last[i - prev.len()]);
            }
        }
    }
}

/// The sample arithmetic of placing `n` in the clip stays within `u32`.
pub open spec fn clip_note_fits(n: NoteSpan, clip_start: u32, clip_end: int, clip_offset: u32) -> bool {
    n.start >= clip_offset ==> (clip_start + n.start <= u32::MAX && (clip_start + n.start
        - clip_offset < clip_end ==> clip_start + n.start - clip_offset + n.duration <= u32::MAX))
}

/// Schedules, into `events`, the note-on and note-off messages of the
/// pattern notes of a clip that fall in the block `[buffer_start,
/// buffer_end)`, then orders all events by frame offset (stably). Nothing is
/// scheduled when the pattern is empty in samples (`pattern_frames` is 0).
pub fn schedule_clip_notes(
    events: &mut EventList,
    pattern_id: PatternId,
    notes: &[NoteSpan],
    clip_start: u32,
    clip_length: u32,
    clip_offset: u32,
    pattern_frames: u32,
    buffer_start: u32,
    buffer_end: u32,
)
    requires
        clip_start + clip_length <= u32::MAX,
        forall|i: int|
            0 <= i < notes@.len() ==> clip_note_fits(
                #[trigger] notes@[i],
                clip_start,
                clip_start + clip_length,
                clip_offset,
            ),
    ensures
        pattern_frames == 0 ==> final(events)@ == old(events)@,
        pattern_frames != 0 ==> stably_sorted(
            final(events)@,
            old(events)@ + clip_notes_events(
                pattern_id,
                notes@,
                clip_start,
                clip_start + clip_length,
                clip_offset,
                buffer_start,
                buffer_end,
            ),
        ),
{
    if pattern_frames == 0 {
        return;
    }
    let clip_end = clip_start + clip_length;
    let ghost start = events@;
    let mut i: usize = 0;
    while i < notes.len()
        invariant
            i <= notes@.len(),
            clip_end == clip_start + clip_length,
            forall|k: int|
                0 <= k < notes@.len() ==> clip_note_fits(
                    #[trigger] notes@[k],
                    clip_start,
                    clip_end as int,
                    clip_offset,
                ),
            events@ == start + clip_notes_events(
                pattern_id,
                notes@.subrange(0, i as int),
                clip_start,
                clip_end as int,
                clip_offset,
                buffer_start,
                buffer_end,
            ),
        decreases notes@.len() - i,
    {
        let note = notes[i];
        let ghost before = events@;
        proof {
            assert(notes@.subrange(0, i + 1).drop_last() =~= notes@.subrange(0, i as int));
            assert(clip_note_fits(notes@[i as int], clip_start, clip_end as int, clip_offset));
        }
        if note.start >= clip_offset {
            let abs_start = clip_start + note.start - clip_offset;
            if abs_start < clip_end {
                let end_raw = abs_start + note.duration;
                let abs_end = if end_raw < clip_end {
                    end_raw
                } else {
                    clip_end
                };
                let id = note_event_id(pattern_id, note.id);
                if abs_start >= buffer_start && abs_start < buffer_end {
                    events.push(
                        MidiEvent {
                            sample_offset: (abs_start - buffer_start) as usize,
                            data: MidiMessage::NoteOn {
                                note_id: Some(id),
                                channel: 0,
                                key: note.key,
                                velocity: note.velocity,
                            },
                        },
                    );
                }
                if abs_end >= buffer_start && abs_end < buffer_end {
                    events.push(
                        MidiEvent {
                            sample_offset: (abs_end - buffer_start) as usize,
                            data: MidiMessage::NoteOff { note_id: Some(id), channel: 0, key: note.key },
                        },
                    );
                }
            }
        }
        proof {
            assert(events@ =~= before + clip_note_events(
                pattern_id,
                note,
                clip_start,
                clip_end as int,
                clip_offset,
                buffer_start,
                buffer_end,
            ));
        }
        i = i + 1;
    }
    proof {
        assert(notes@.subrange(0, notes@.len() as int) =~= notes@);
    }
    sort_events_by_offset(events);
}

/// Events of one pattern note played from the pattern's own timeline.
pub open spec fn pattern_note_events(
    pattern_id: PatternId,
    n: NoteSpan,
    buffer_start: u32,
    buffer_end: u32,
) -> Seq<MidiEvent> {
    let id = spec_note_event_id(pattern_id, n.id) as u64;
    event_in_block(
        n.start as int,
        buffer_start,
        buffer_end,
        MidiMessage::NoteOn { note_id: Some(id), channel: 0, key: n.key, velocity: n.velocity },
    ) + event_in_block(
        n.start + n.duration,
        buffer_start,
        buffer_end,
        MidiMessage::NoteOff { note_id: Some(id), channel: 0, key: n.key },
    )
}

pub open spec fn pattern_notes_events(
    pattern_id: PatternId,
    notes: Seq<NoteSpan>,
    buffer_start: u32,
    buffer_end: u32,
) -> Seq<MidiEvent>
    decreases notes.len(),
{
    if notes.len() == 0 {
        Seq::empty()
    } else {
        pattern_notes_events(pattern_id, notes.drop_last(), buffer_start, buffer_end)
            + pattern_note_events(pattern_id, notes.last(), buffer_start, buffer_end)
    }
}

/// Appends the note-on and note-off messages of pattern notes (played from
/// the pattern's own timeline) that fall in the block `[buffer_start,
/// buffer_end)`, in note order.
pub fn schedule_pattern_notes(
    events: &mut EventList,
    pattern_id: PatternId,
    notes: &[NoteSpan],
    buffer_start: u32,
    buffer_end: u32,
)
    requires
        forall|i: int| 0 <= i < notes@.len() ==> (#[trigger] notes@[i]).start + notes@[i].duration <= u32::MAX,
    ensures
        final(events)@ == old(events)@ + pattern_notes_events(pattern_id, notes@, buffer_start, buffer_end),
{
    let ghost start = events@;
    let mut i: usize = 0;
    while i < notes.len()
        invariant
            i <= notes@.len(),
            forall|k: int| 0 <= k < notes@.len() ==> (#[trigger] notes@[k]).start + notes@[k].duration <= u32::MAX,
            events@ == start + pattern_notes_events(pattern_id, notes@.subrange(0, i as int), buffer_start, buffer_end),
            start == old(events)@,
        decreases notes@.len() - i,
    {
        let note = notes[i];
        let ghost before = events@;
        proof {
            assert(notes@.subrange(0, i + 1).drop_last() =~= notes@.subrange(0, i as int));
            assert(notes@[i as int].start + notes@[i as int].duration <= u32::MAX);
        }
        let id = note_event_id(pattern_id, note.id);
        let note_start = note.start;
        let note_end = note.start + note.duration;
        if note_start >= buffer_start && note_start < buffer_end {
            events.push(
                MidiEvent {
                    sample_offset: (note_start - buffer_start) as usize,
                    data: MidiMessage::NoteOn {
                        note_id: Some(id),
                        channel: 0,
                        key: note.key,
                        velocity: note.velocity,
                    },
                },
            );
        }
        if note_end >= buffer_start && note_end < buffer_end {
            events.push(
                MidiEvent {
                    sample_offset: (note_end - buffer_start) as usize,
                    data: MidiMessage::NoteOff { note_id: Some(id), channel: 0, key: note.key },
                },
            );
        }
        proof {
            assert(events@ =~= before + pattern_note_events(pattern_id, note, buffer_start, buffer_end));
        }
        i = i + 1;
    }
    proof {
        assert(notes@.subrange(0, notes@.len() as int) =~= notes@);
    }
}

/// Index of the first voice of generator `id`.
pub open spec fn find_voice_spec(voices: Seq<GeneratorVoice>, id: GeneratorId) -> Option<int>
    decreases voices.len(),
{
    if voices.len() == 0 {
        None
    } else {
        match find_voice_spec(voices.drop_last(), id) {
            Some(i) => Some(i),
            None => if voices.last().id == id {
                Some(voices.len() - 1)
            } else {
                None
            },
        }
    }
}

proof fn lemma_find_voice_spec_range(voices: Seq<GeneratorVoice>, id: GeneratorId)
    ensures
        find_voice_spec(voices, id) matches Some(i) ==> 0 <= i < voices.len() && voices[i].id == id,
    decreases voices.len(),
{
    if voices.len() > 0 {
        lemma_find_voice_spec_range(voices.drop_last(), id);
        match find_voice_spec(voices.drop_last(), id) {
            Some(i) => {
                assert(voices.drop_last()[i] == voices[i]);
            },
            None => {},
        }
    }
}

proof fn lemma_find_voice_spec(voices: Seq<GeneratorVoice>, id: GeneratorId, i: int)
    requires
        0 <= i < voices.len(),
        voices[i].id == id,
        forall|j: int| 0 <= j < i ==> (#[trigger] voices[j]).id != id,
    ensures
        find_voice_spec(voices, id) == Some(i),
    decreases voices.len(),
{
    if i < voices.len() - 1 {
        assert forall|j: int| 0 <= j < i implies (#[trigger] voices.drop_last()[j]).id != id by {
            assert(voices.drop_last()[j] == voices[j]);
        }
        lemma_find_voice_spec(voices.drop_last(), id, i);
    } else {
        assert forall|j: int| 0 <= j < voices.drop_last().len() implies (
        #[trigger] voices.drop_last()[j]).id != id by {
            assert(voices.drop_last()[j] == voices[j]);
        }
        lemma_find_voice_spec_none(voices.drop_last(), id);
    }
}

proof fn lemma_find_voice_spec_none(voices: Seq<GeneratorVoice>, id: GeneratorId)
    requires
        forall|j: int| 0 <= j < voices.len() ==> (#[trigger] voices[j]).id != id,
    ensures
        find_voice_spec(voices, id) is None,
    decreases voices.len(),
{
    if voices.len() > 0 {
        assert forall|j: int| 0 <= j < voices.drop_last().len() implies (
        #[trigger] voices.drop_last()[j]).id != id by {
            assert(voices.drop_last()[j] == voices[j]);
        }
        lemma_find_voice_spec_none(voices.drop_last(), id);
        assert(voices.last() == voices[voices.len() - 1]);
    }
}

} // verus!
