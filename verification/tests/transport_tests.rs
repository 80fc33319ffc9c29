use karbeat_core::{
    GeneratorId, PatternId, PlaybackMode, SongEndAction, TransportCommand, TransportState,
};

/// Samples per beat for a tempo and a sample rate, as the engine derives it.
fn samples_per_beat(bpm: f32, sample_rate: u32) -> Option<usize> {
    let samples = ((60.0 / bpm) * sample_rate as f32) as usize;
    if samples > 0 {
        Some(samples)
    } else {
        None
    }
}

#[test]
fn recalculates_song_and_pattern_positions() {
    let mut transport = TransportState::new();
    transport.song.playhead_samples = 48_000;
    transport.pattern.playhead_samples = 96_000;

    transport.recalculate_song_position(samples_per_beat(120.0, 48_000));
    transport.recalculate_pattern_position(samples_per_beat(120.0, 48_000));

    assert_eq!((transport.song.current_beat, transport.song.current_bar), (3, 1));
    assert_eq!((transport.pattern.current_beat, transport.pattern.current_bar), (5, 2));
}

#[test]
fn position_is_kept_without_a_usable_tempo() {
    let mut transport = TransportState::new();
    transport.song.playhead_samples = 48_000;
    transport.recalculate_song_position(None);
    assert_eq!((transport.song.current_beat, transport.song.current_bar), (1, 1));
}

#[test]
fn set_playing_then_stop_and_reset_rests_at_zero() {
    let spb = samples_per_beat(120.0, 48_000);
    let mut transport = TransportState::new();
    transport.apply(TransportCommand::SetPlaying(true), spb);
    assert!(transport.is_playing());
    transport.advance_song_playhead(1_000, spb);
    assert_eq!(transport.song.playhead_samples, 1_000);
    let effects = transport.apply(TransportCommand::StopAndReset, spb);
    assert!(!transport.is_playing());
    assert_eq!(transport.song.playhead_samples, 0);
    assert_eq!(transport.pattern.playhead_samples, 0);
    assert!(effects.stop_generators);
}

#[test]
fn toggling_twice_restores_the_stopped_state() {
    let spb = samples_per_beat(120.0, 48_000);
    let mut transport = TransportState::new();
    let before = transport;
    transport.apply(TransportCommand::TogglePlayingWithPlaybackMode(PlaybackMode::Song), spb);
    assert!(transport.is_playing());
    transport.apply(TransportCommand::TogglePlayingWithPlaybackMode(PlaybackMode::Song), spb);
    assert!(!transport.is_playing());
    assert_eq!(transport.mode, before.mode);
}

#[test]
fn toggling_pattern_playback_starts_the_pattern_mode() {
    let spb = samples_per_beat(120.0, 48_000);
    let mut transport = TransportState::new();
    transport.apply(
        TransportCommand::TogglePatternPlayback { pattern_id: PatternId(3), generator_id: GeneratorId(7) },
        spb,
    );
    assert_eq!(transport.mode, PlaybackMode::Pattern { pattern_id: PatternId(3), generator_id: GeneratorId(7) });
    assert!(transport.pattern.is_playing);
}

#[test]
fn song_end_loops_or_stops() {
    let spb = samples_per_beat(120.0, 48_000);
    let mut transport = TransportState::new();
    transport.apply(TransportCommand::SetPlaying(true), spb);
    transport.apply(TransportCommand::SetLooping(true), spb);
    transport.song.playhead_samples = 500;
    assert_eq!(transport.check_song_end(400, spb), SongEndAction::Looped);
    assert_eq!(transport.song.playhead_samples, 0);

    transport.apply(TransportCommand::SetLooping(false), spb);
    transport.song.playhead_samples = 500;
    assert_eq!(transport.check_song_end(400, spb), SongEndAction::Stopped);
    assert!(!transport.is_playing());

    transport.apply(TransportCommand::SetPlaying(true), spb);
    transport.song.playhead_samples = 100;
    assert_eq!(transport.check_song_end(400, spb), SongEndAction::Continue);
}

#[test]
fn pattern_loop_wraps_at_its_length() {
    let mut transport = TransportState::new();
    transport.pattern.playhead_samples = 1_000;
    assert!(transport.wrap_pattern_loop(800));
    assert_eq!(transport.pattern.playhead_samples, 0);
    assert!(!transport.wrap_pattern_loop(800));
    assert_eq!(transport.pattern.playhead_samples, 0);
}

#[test]
fn seeking_moves_the_playhead() {
    let spb = samples_per_beat(120.0, 48_000);
    let mut transport = TransportState::new();
    transport.apply(TransportCommand::SetPlayhead(72_000), spb);
    assert_eq!(transport.song.playhead_samples, 72_000);
    assert_eq!(transport.song.current_beat, 4);
}
