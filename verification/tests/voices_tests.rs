use karbeat_core::{
    note_event_id, schedule_pattern_notes, sort_events_by_offset, update_playing_keys,
    update_playing_notes, EventList, MidiEvent, MidiMessage, NoteExpressionType, NoteId, NoteList,
    NoteSpan, PatternId, PlayingNote,
};

fn events_of(list: &EventList) -> Vec<MidiEvent> {
    (0..list.len()).map(|i| list.get(i)).collect()
}

#[test]
fn tracks_overlapping_notes_by_identity() {
    let mut notes = NoteList::new();
    for note_id in [10, 11] {
        update_playing_notes(
            &mut notes,
            &MidiMessage::NoteOn { note_id: Some(note_id), channel: 2, key: 60, velocity: 100 },
        );
    }

    update_playing_notes(
        &mut notes,
        &MidiMessage::NoteExpression { note_id: 11, expression: NoteExpressionType::Pressure },
    );
    update_playing_notes(&mut notes, &MidiMessage::NoteOff { note_id: Some(10), channel: 2, key: 60 });

    assert_eq!(notes.len(), 1);
    assert_eq!(notes.get(0).note_id, Some(11));
}

#[test]
fn scheduled_identity_includes_pattern() {
    let note_id = NoteId(4);

    assert_ne!(note_event_id(PatternId(1), note_id), note_event_id(PatternId(2), note_id));
}

#[test]
fn note_event_id_packs_pattern_high_and_note_low() {
    assert_eq!(note_event_id(PatternId(1), NoteId(4)), (1u64 << 32) | 4);
}

#[test]
fn non_note_midi_messages_preserve_playing_keys() {
    let messages = [
        MidiMessage::ControlChange { channel: 0, controller: 1, value: 64 },
        MidiMessage::PitchBend { channel: 0, value: 1024 },
        MidiMessage::NoteExpression { note_id: 1, expression: NoteExpressionType::Pressure },
    ];

    for message in messages {
        let mut playing_keys: Vec<u8> = vec![60, 64];
        update_playing_keys(&mut playing_keys, &message);
        assert_eq!(playing_keys, [60, 64]);
    }
}

#[test]
fn channel_mode_midi_messages_clear_playing_keys() {
    for controller in [120, 123, 124, 125, 126, 127] {
        let mut playing_keys: Vec<u8> = vec![60, 64];
        let message = MidiMessage::ControlChange { channel: 0, controller, value: 0 };

        update_playing_keys(&mut playing_keys, &message);
        assert!(playing_keys.is_empty());
    }
}

#[test]
fn note_on_with_zero_velocity_releases_the_key() {
    let mut keys: Vec<u8> = vec![60, 64];
    update_playing_keys(&mut keys, &MidiMessage::NoteOn { note_id: None, channel: 0, key: 60, velocity: 0 });
    assert_eq!(keys, [64]);
    let mut notes = NoteList::from_vec(vec![PlayingNote { note_id: None, channel: 0, key: 60 }]);
    update_playing_notes(&mut notes, &MidiMessage::NoteOn { note_id: None, channel: 0, key: 60, velocity: 0 });
    assert_eq!(notes.len(), 0);
}

#[test]
fn events_are_sorted_stably_by_offset() {
    let on = |offset: usize, key: u8| MidiEvent {
        sample_offset: offset,
        data: MidiMessage::NoteOn { note_id: None, channel: 0, key, velocity: 100 },
    };
    let mut events = EventList::from_vec(vec![on(5, 1), on(2, 2), on(5, 3), on(0, 4)]);
    sort_events_by_offset(&mut events);
    assert_eq!(events_of(&events), vec![on(0, 4), on(2, 2), on(5, 1), on(5, 3)]);
}

#[test]
fn pattern_notes_are_scheduled_inside_the_block() {
    let notes = [
        NoteSpan { id: NoteId(1), key: 60, velocity: 90, start: 100, duration: 50 },
        NoteSpan { id: NoteId(2), key: 62, velocity: 90, start: 300, duration: 50 },
    ];
    let mut events = EventList::new();
    schedule_pattern_notes(&mut events, PatternId(1), &notes, 80, 200);
    let id = note_event_id(PatternId(1), NoteId(1));
    assert_eq!(
        events_of(&events),
        vec![
            MidiEvent {
                sample_offset: 20,
                data: MidiMessage::NoteOn { note_id: Some(id), channel: 0, key: 60, velocity: 90 },
            },
            MidiEvent { sample_offset: 70, data: MidiMessage::NoteOff { note_id: Some(id), channel: 0, key: 60 } },
        ]
    );
}

#[test]
fn repeated_note_on_is_tracked_once() {
    let mut notes = NoteList::new();
    let mut keys: Vec<u8> = Vec::new();
    for _ in 0..3 {
        let on = MidiMessage::NoteOn { note_id: None, channel: 1, key: 62, velocity: 80 };
        update_playing_notes(&mut notes, &on);
        update_playing_keys(&mut keys, &on);
    }
    assert_eq!(notes.len(), 1);
    assert_eq!(keys, [62]);
}
