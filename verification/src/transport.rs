use vstd::prelude::*;

use crate::ids::{GeneratorId, PatternId};

verus! {

/// Which timeline owns the playhead.
#[derive(Clone, Copy, Debug, PartialEq, Eq, Structural)]
pub enum PlaybackMode {
    Song,
    Pattern { pattern_id: PatternId, generator_id: GeneratorId },
}

/// Song-timeline playback state.
#[derive(Clone, Copy, Debug, PartialEq, Eq, Structural)]
pub struct SongPlaybackState {
    pub is_playing: bool,
    pub is_looping: bool,
    pub is_recording: bool,
    pub playhead_samples: u32,
    pub current_beat: usize,
    pub current_bar: usize,
    pub last_emitted_samples: u32,
}

impl SongPlaybackState {
    /// Stopped at the start of the song, on beat 1 of bar 1.
    pub fn initial() -> (s: Self)
        ensures
            !s.is_playing && !s.is_looping && !s.is_recording,
            s.playhead_samples == 0 && s.current_beat == 1 && s.current_bar == 1,
            s.last_emitted_samples == 0,
    {
        SongPlaybackState {
            is_playing: false,
            is_looping: false,
            is_recording: false,
            playhead_samples: 0,
            current_beat: 1,
            current_bar: 1,
            last_emitted_samples: 0,
        }
    }
}

impl Default for SongPlaybackState {
    fn default() -> (s: Self)
        ensures
            !s.is_playing && !s.is_looping && !s.is_recording,
            s.playhead_samples == 0 && s.current_beat == 1 && s.current_bar == 1,
            s.last_emitted_samples == 0,
    {
        SongPlaybackState::initial()
    }
}

/// Pattern-timeline playback state.
#[derive(Clone, Copy, Debug, PartialEq, Eq, Structural)]
pub struct PatternPlaybackState {
    pub is_playing: bool,
    pub playhead_samples: u32,
    pub current_beat: usize,
    pub current_bar: usize,
    pub last_emitted_samples: u32,
}

impl PatternPlaybackState {
    /// Stopped at the start of the pattern, on beat 1 of bar 1.
    pub fn initial() -> (s: Self)
        ensures
            !s.is_playing,
            s.playhead_samples == 0 && s.current_beat == 1 && s.current_bar == 1,
            s.last_emitted_samples == 0,
    {
        PatternPlaybackState {
            is_playing: false,
            playhead_samples: 0,
            current_beat: 1,
            current_bar: 1,
            last_emitted_samples: 0,
        }
    }
}

impl Default for PatternPlaybackState {
    fn default() -> (s: Self)
        ensures
            !s.is_playing,
            s.playhead_samples == 0 && s.current_beat == 1 && s.current_bar == 1,
            s.last_emitted_samples == 0,
    {
        PatternPlaybackState::initial()
    }
}

/// A stopped transport in song mode, both timelines at beat 1 of bar 1, in
/// 4/4 time.
pub open spec fn initial_transport() -> TransportState {
    TransportState {
        time_sig_numerator: 4,
        time_sig_denominator: 4,
        song: SongPlaybackState {
            is_playing: false,
            is_looping: false,
            is_recording: false,
            playhead_samples: 0,
            current_beat: 1,
            current_bar: 1,
            last_emitted_samples: 0,
        },
        pattern: PatternPlaybackState {
            is_playing: false,
            playhead_samples: 0,
            current_beat: 1,
            current_bar: 1,
            last_emitted_samples: 0,
        },
        mode: PlaybackMode::Song,
    }
}

/// One-based beat that a playhead position falls in (saturating at the
/// largest `usize`, which only a 32-bit target can reach).
pub open spec fn beat_of(playhead: u32, samples_per_beat: usize) -> int {
    let q = playhead as int / samples_per_beat as int;
    if q < usize::MAX {
        q + 1
    } else {
        usize::MAX as int
    }
}

/// One-based bar of a one-based beat, four beats to the bar.
pub open spec fn bar_of(beat: int) -> int {
    (beat - 1) / 4 + 1
}

/// Transport commands that the engine receives from the control side.
#[derive(Clone, Copy, Debug, PartialEq, Eq, Structural)]
pub enum TransportCommand {
    SetPlaying(bool),
    SetLooping(bool),
    StopAndReset,
    SetPlayhead(u32),
    SetPlaybackMode(PlaybackMode),
    TogglePlayingWithPlaybackMode(PlaybackMode),
    TogglePatternPlayback { pattern_id: PatternId, generator_id: GeneratorId },
    SwitchPatternGenerator(GeneratorId),
}

/// Work the engine must do after a transport command has been applied.
#[derive(Clone, Copy, Debug, PartialEq, Eq, Structural)]
pub struct TransportEffects {
    /// Silence every active generator.
    pub stop_generators: bool,
    /// Reset this generator's plugin and forget its queued events and keys.
    pub reset_generator: Option<GeneratorId>,
    /// Re-evaluate modulation sources at the new playhead.
    pub evaluate_modulations: bool,
    /// Publish the position as stopped (after both playheads were zeroed).
    pub emit_static_position: bool,
    /// Publish the current position.
    pub emit_current_position: bool,
}

/// No work at all.
pub open spec fn no_effects() -> TransportEffects {
    TransportEffects {
        stop_generators: false,
        reset_generator: None,
        evaluate_modulations: false,
        emit_static_position: false,
        emit_current_position: false,
    }
}

/// What happened when the song playhead passed the end of the song.
#[derive(Clone, Copy, Debug, PartialEq, Eq, Structural)]
pub enum SongEndAction {
    /// Still inside the song (or the song is empty): render the block.
    Continue,
    /// Looping: the playhead went back to the start and generators must be
    /// silenced before the block is rendered.
    Looped,
    /// Not looping: playback stopped and was reset.
    Stopped,
}

/// Transport state owned by the audio thread: time signature, both
/// timelines and the playback mode. The tempo stays with the engine.
#[derive(Clone, Copy, Debug, PartialEq, Eq, Structural)]
pub struct TransportState {
    pub time_sig_numerator: u8,
    pub time_sig_denominator: u8,
    pub song: SongPlaybackState,
    pub pattern: PatternPlaybackState,
    pub mode: PlaybackMode,
}

/// Whether the timeline of the current mode is playing.
pub open spec fn spec_is_playing(t: TransportState) -> bool {
    match t.mode {
        PlaybackMode::Song => t.song.is_playing,
        PlaybackMode::Pattern { .. } => t.pattern.is_playing,
    }
}

/// The song timeline after its beat and bar are recomputed.
pub open spec fn song_positioned(s: SongPlaybackState, spb: Option<usize>) -> SongPlaybackState {
    match spb {
        Some(n) if n > 0 => SongPlaybackState {
            current_beat: beat_of(s.playhead_samples, n) as usize,
            current_bar: bar_of(beat_of(s.playhead_samples, n)) as usize,
            ..s
        },
        _ => s,
    }
}

/// The pattern timeline after its beat and bar are recomputed.
pub open spec fn pattern_positioned(p: PatternPlaybackState, spb: Option<usize>) -> PatternPlaybackState {
    match spb {
        Some(n) if n > 0 => PatternPlaybackState {
            current_beat: beat_of(p.playhead_samples, n) as usize,
            current_bar: bar_of(beat_of(p.playhead_samples, n)) as usize,
            ..p
        },
        _ => p,
    }
}

/// The song timeline back at its start (play flags kept).
pub open spec fn song_reset(s: SongPlaybackState) -> SongPlaybackState {
    SongPlaybackState {
        playhead_samples: 0,
        current_beat: 1,
        current_bar: 1,
        last_emitted_samples: 0,
        ..s
    }
}

/// The pattern timeline back at its start (play flag kept).
pub open spec fn pattern_reset(p: PatternPlaybackState) -> PatternPlaybackState {
    PatternPlaybackState {
        playhead_samples: 0,
        current_beat: 1,
        current_bar: 1,
        last_emitted_samples: 0,
        ..p
    }
}

/// `t` with its song timeline replaced.
pub open spec fn with_song(t: TransportState, s: SongPlaybackState) -> TransportState {
    TransportState { song: s, ..t }
}

/// `t` with its pattern timeline replaced.
pub open spec fn with_pattern(t: TransportState, p: PatternPlaybackState) -> TransportState {
    TransportState { pattern: p, ..t }
}

/// Full stop: both timelines stopped and rewound.
pub open spec fn stopped(t: TransportState) -> TransportState {
    TransportState {
        song: song_reset(SongPlaybackState { is_playing: false, ..t.song }),
        pattern: pattern_reset(PatternPlaybackState { is_playing: false, ..t.pattern }),
        ..t
    }
}

/// The transition of the transport for one command: the next state and the
/// work that the engine must do. `spb` is the number of samples per beat at
/// the current tempo, if it is positive.
pub open spec fn transport_step(t: TransportState, cmd: TransportCommand, spb: Option<usize>) -> (
    TransportState,
    TransportEffects,
) {
    let emit = TransportEffects { emit_current_position: true, ..no_effects() };
    match cmd {
        TransportCommand::SetPlaying(v) => {
            let next = match t.mode {
                PlaybackMode::Song => TransportState {
                    song: SongPlaybackState { is_playing: v, ..t.song },
                    ..t
                },
                PlaybackMode::Pattern { .. } => TransportState {
                    pattern: PatternPlaybackState { is_playing: v, ..t.pattern },
                    ..t
                },
            };
            (next, TransportEffects { stop_generators: spec_is_playing(t) && !v, ..emit })
        },
        TransportCommand::SetLooping(v) => (
            TransportState { song: SongPlaybackState { is_looping: v, ..t.song }, ..t },
            emit,
        ),
        TransportCommand::StopAndReset => (
            stopped(t),
            TransportEffects { stop_generators: true, emit_static_position: true, ..no_effects() },
        ),
        TransportCommand::SetPlayhead(samples) => {
            let moved = SongPlaybackState { playhead_samples: samples, ..t.song };
            let positioned = song_positioned(moved, spb);
            (
                TransportState {
                    song: SongPlaybackState { last_emitted_samples: samples, ..positioned },
                    ..t
                },
                TransportEffects { stop_generators: true, evaluate_modulations: true, ..emit },
            )
        },
        TransportCommand::SetPlaybackMode(m) => {
            let rewound = pattern_positioned(
                PatternPlaybackState { playhead_samples: 0, last_emitted_samples: 0, ..t.pattern },
                spb,
            );
            let pattern = match (t.mode, m) {
                (PlaybackMode::Song, PlaybackMode::Pattern { .. }) => PatternPlaybackState {
                    is_playing: true,
                    ..rewound
                },
                (PlaybackMode::Pattern { .. }, PlaybackMode::Song) => PatternPlaybackState {
                    is_playing: false,
                    ..rewound
                },
                _ => t.pattern,
            };
            (
                TransportState { pattern, mode: m, ..t },
                TransportEffects { stop_generators: true, ..emit },
            )
        },
        TransportCommand::TogglePlayingWithPlaybackMode(m) => {
            if t.mode == m {
                let was = spec_is_playing(t);
                let next = match t.mode {
                    PlaybackMode::Song => TransportState {
                        song: SongPlaybackState { is_playing: !was, ..t.song },
                        ..t
                    },
                    PlaybackMode::Pattern { .. } => TransportState {
                        pattern: PatternPlaybackState { is_playing: !was, ..t.pattern },
                        ..t
                    },
                };
                (next, TransportEffects { stop_generators: was, ..emit })
            } else {
                let next = match m {
                    PlaybackMode::Song => TransportState {
                        song: SongPlaybackState { is_playing: true, ..t.song },
                        pattern: PatternPlaybackState { is_playing: false, ..t.pattern },
                        mode: m,
                        ..t
                    },
                    PlaybackMode::Pattern { .. } => TransportState {
                        song: SongPlaybackState { is_playing: false, ..t.song },
                        pattern: pattern_reset(
                            PatternPlaybackState { is_playing: true, ..t.pattern },
                        ),
                        mode: m,
                        ..t
                    },
                };
                (next, TransportEffects { stop_generators: true, ..emit })
            }
        },
        TransportCommand::TogglePatternPlayback { pattern_id, generator_id } => {
            if !(t.mode is Pattern) {
                let s = stopped(t);
                (
                    TransportState {
                        mode: PlaybackMode::Pattern { pattern_id, generator_id },
                        pattern: PatternPlaybackState { is_playing: true, ..s.pattern },
                        ..s
                    },
                    TransportEffects {
                        stop_generators: true,
                        emit_static_position: true,
                        ..emit
                    },
                )
            } else if t.pattern.is_playing {
                (
                    TransportState {
                        pattern: pattern_reset(
                            PatternPlaybackState { is_playing: false, ..t.pattern },
                        ),
                        ..t
                    },
                    TransportEffects { stop_generators: true, ..emit },
                )
            } else {
                (
                    TransportState {
                        pattern: PatternPlaybackState { is_playing: true, ..t.pattern },
                        ..t
                    },
                    emit,
                )
            }
        },
        TransportCommand::SwitchPatternGenerator(new_id) => match t.mode {
            PlaybackMode::Pattern { pattern_id, generator_id } => {
                if generator_id != new_id {
                    (
                        TransportState {
                            mode: PlaybackMode::Pattern { pattern_id, generator_id: new_id },
                            ..t
                        },
                        TransportEffects { reset_generator: Some(generator_id), ..no_effects() },
                    )
                } else {
                    (t, no_effects())
                }
            },
            PlaybackMode::Song => (t, no_effects()),
        },
    }
}

/// `SetPlaying(v)` leaves the current timeline playing exactly when `v`,
/// in the same mode.
pub proof fn law_set_playing(t: TransportState, v: bool, spb: Option<usize>)
    ensures
        spec_is_playing(transport_step(t, TransportCommand::SetPlaying(v), spb).0) == v,
        transport_step(t, TransportCommand::SetPlaying(v), spb).0.mode == t.mode,
{
}

/// After `StopAndReset` nothing plays and both timelines are back at
/// their first beat and bar.
pub proof fn law_stop_and_reset_rests(t: TransportState, spb: Option<usize>)
    ensures
        ({
            let n = transport_step(t, TransportCommand::StopAndReset, spb).0;
            &&& !spec_is_playing(n) && !n.song.is_playing && !n.pattern.is_playing
            &&& n.song.playhead_samples == 0 && n.song.current_beat == 1 && n.song.current_bar == 1
            &&& n.pattern.playhead_samples == 0 && n.pattern.current_beat == 1
            &&& n.pattern.current_bar == 1
            &&& n.mode == t.mode
        }),
{
}

/// Switching the playback mode from song to pattern starts the pattern
/// from its beginning, and switching from pattern to song stops the
/// pattern: the current timeline then plays exactly when the song already
/// did. Either way the song timeline is left alone and every active
/// generator is silenced.
pub proof fn law_mode_switch_starts_or_stops_the_pattern(t: TransportState, m: PlaybackMode, spb: Option<usize>)
    ensures
        ({
            let (next, effects) = transport_step(t, TransportCommand::SetPlaybackMode(m), spb);
            &&& next.mode == m
            &&& next.song == t.song
            &&& effects.stop_generators
            &&& (t.mode is Song && m is Pattern) ==> {
                &&& next.pattern.is_playing
                &&& spec_is_playing(next)
                &&& next.pattern.playhead_samples == 0
                &&& next.pattern.last_emitted_samples == 0
            }
            &&& (t.mode is Pattern && m is Song) ==> {
                &&& !next.pattern.is_playing
                &&& spec_is_playing(next) == t.song.is_playing
                &&& next.pattern.playhead_samples == 0
            }
        }),
{
}

/// Toggling playback twice in the current mode restores the transport.
pub proof fn law_toggle_twice_restores(t: TransportState, spb: Option<usize>)
    ensures
        transport_step(
            transport_step(t, TransportCommand::TogglePlayingWithPlaybackMode(t.mode), spb).0,
            TransportCommand::TogglePlayingWithPlaybackMode(t.mode),
            spb,
        ).0 == t,
{
}

/// Toggling playback with another mode switches to it and starts it, with
/// the other timeline stopped.
pub proof fn law_toggle_other_mode_starts(t: TransportState, m: PlaybackMode, spb: Option<usize>)
    requires
        t.mode != m,
    ensures
        ({
            let n = transport_step(t, TransportCommand::TogglePlayingWithPlaybackMode(m), spb).0;
            &&& n.mode == m
            &&& spec_is_playing(n)
            &&& !(n.song.is_playing && n.pattern.is_playing)
        }),
{
}

/// Whenever a command stops the playing timeline, the engine is asked to
/// silence every active generator, so that no note hangs.
pub proof fn law_stopping_silences_generators(
    t: TransportState,
    cmd: TransportCommand,
    spb: Option<usize>,
)
    requires
        spec_is_playing(t),
        !spec_is_playing(transport_step(t, cmd, spb).0),
    ensures
        transport_step(t, cmd, spb).1.stop_generators,
{
}

/// Seeking puts the song playhead at the requested sample, with a beat and
/// bar that agree with it.
pub proof fn law_seek_positions(t: TransportState, samples: u32, n: usize)
    requires
        n > 0,
    ensures
        ({
            let s = transport_step(t, TransportCommand::SetPlayhead(samples), Some(n)).0.song;
            &&& s.playhead_samples == samples
            &&& s.last_emitted_samples == samples
            &&& s.current_beat == beat_of(samples, n)
            &&& s.current_bar == bar_of(s.current_beat as int)
        }),
{
}

impl TransportState {
    /// Stopped in song mode, in 4/4, both timelines at their start.
    pub fn new() -> (t: Self)
        ensures
            t.time_sig_numerator == 4 && t.time_sig_denominator == 4,
            t.mode == PlaybackMode::Song,
            !t.song.is_playing && !t.song.is_looping && !t.song.is_recording,
            t.song.playhead_samples == 0 && t.song.current_beat == 1 && t.song.current_bar == 1,
            t.song.last_emitted_samples == 0,
            !t.pattern.is_playing,
            t.pattern.playhead_samples == 0 && t.pattern.current_beat == 1,
            t.pattern.current_bar == 1 && t.pattern.last_emitted_samples == 0,
            t == initial_transport(),
    {
        TransportState {
            time_sig_numerator: 4,
            time_sig_denominator: 4,
            song: SongPlaybackState::initial(),
            pattern: PatternPlaybackState::initial(),
            mode: PlaybackMode::Song,
        }
    }

    pub fn is_playing(&self) -> (r: bool)
        ensures
            r == spec_is_playing(*self),
    {
        match self.mode {
            PlaybackMode::Song => self.song.is_playing,
            PlaybackMode::Pattern { .. } => self.pattern.is_playing,
        }
    }

    pub fn reset_song(&mut self)
        ensures
            *final(self) == with_song(*old(self), song_reset(old(self).song)),
    {
        self.song.playhead_samples = 0;
        self.song.current_beat = 1;
        self.song.current_bar = 1;
        self.song.last_emitted_samples = 0;
    }

    pub fn reset_pattern(&mut self)
        ensures
            *final(self) == with_pattern(*old(self), pattern_reset(old(self).pattern)),
    {
        self.pattern.playhead_samples = 0;
        self.pattern.current_beat = 1;
        self.pattern.current_bar = 1;
        self.pattern.last_emitted_samples = 0;
    }

    /// Recomputes the song beat and bar from the playhead. Nothing changes
    /// when the tempo gives no positive number of samples per beat.
    pub fn recalculate_song_position(&mut self, samples_per_beat: Option<usize>)
        ensures
            *final(self) == with_song(*old(self), song_positioned(old(self).song, samples_per_beat)),
    {
        match samples_per_beat {
            Some(n) => {
                if n > 0 {
                    let q = self.song.playhead_samples as usize / n;
                    let beat = if q < usize::MAX {
                        q + 1
                    } else {
                        usize::MAX
                    };
                    self.song.current_beat = beat;
                    self.song.current_bar = (beat - 1) / 4 + 1;
                }
            },
            None => {},
        }
    }

    /// Recomputes the pattern beat and bar from the playhead.
    pub fn recalculate_pattern_position(&mut self, samples_per_beat: Option<usize>)
        ensures
            *final(self) == with_pattern(
                *old(self),
                pattern_positioned(old(self).pattern, samples_per_beat),
            ),
    {
        match samples_per_beat {
            Some(n) => {
                if n > 0 {
                    let q = self.pattern.playhead_samples as usize / n;
                    let beat = if q < usize::MAX {
                        q + 1
                    } else {
                        usize::MAX
                    };
                    self.pattern.current_beat = beat;
                    self.pattern.current_bar = (beat - 1) / 4 + 1;
                }
            },
            None => {},
        }
    }

    /// Stops both timelines and rewinds them.
    pub fn stop_playback(&mut self)
        ensures
            *final(self) == stopped(*old(self)),
    {
        self.song.is_playing = false;
        self.pattern.is_playing = false;
        self.reset_song();
        self.reset_pattern();
    }

    /// Moves the song playhead forward by one rendered block and recomputes
    /// its beat and bar.
    pub fn advance_song_playhead(&mut self, frame_count: u32, samples_per_beat: Option<usize>)
        requires
            old(self).song.playhead_samples + frame_count <= u32::MAX,
        ensures
            *final(self) == with_song(
                *old(self),
                song_positioned(
                    SongPlaybackState {
                        playhead_samples: (old(self).song.playhead_samples + frame_count) as u32,
                        ..old(self).song
                    },
                    samples_per_beat,
                ),
            ),
    {
        self.song.playhead_samples = self.song.playhead_samples + frame_count;
        self.recalculate_song_position(samples_per_beat);
    }

    /// Moves the pattern playhead forward by one rendered block and
    /// recomputes its beat and bar.
    pub fn advance_pattern_playhead(&mut self, frame_count: u32, samples_per_beat: Option<usize>)
        requires
            old(self).pattern.playhead_samples + frame_count <= u32::MAX,
        ensures
            *final(self) == with_pattern(
                *old(self),
                pattern_positioned(
                    PatternPlaybackState {
                        playhead_samples: (old(self).pattern.playhead_samples + frame_count) as u32,
                        ..old(self).pattern
                    },
                    samples_per_beat,
                ),
            ),
    {
        self.pattern.playhead_samples = self.pattern.playhead_samples + frame_count;
        self.recalculate_pattern_position(samples_per_beat);
    }

    /// Decides whether the playhead of the current mode has moved far enough
    /// (a sixtieth of a second) since the last published position to publish
    /// it again; if so, records it as published.
    pub fn take_position_emission(&mut self, sample_rate: u32) -> (emit: bool)
        ensures
            ({
                let interval = sample_rate as int / 60;
                let (current, last) = match old(self).mode {
                    PlaybackMode::Song => (
                        old(self).song.playhead_samples,
                        old(self).song.last_emitted_samples,
                    ),
                    PlaybackMode::Pattern { .. } => (
                        old(self).pattern.playhead_samples,
                        old(self).pattern.last_emitted_samples,
                    ),
                };
                &&& emit == (current >= last + interval)
                &&& !emit ==> *final(self) == *old(self)
                &&& emit ==> *final(self) == match old(self).mode {
                    PlaybackMode::Song => with_song(
                        *old(self),
                        SongPlaybackState { last_emitted_samples: current, ..old(self).song },
                    ),
                    PlaybackMode::Pattern { .. } => with_pattern(
                        *old(self),
                        PatternPlaybackState { last_emitted_samples: current, ..old(self).pattern },
                    ),
                }
            }),
    {
        let interval = sample_rate / 60;
        match self.mode {
            PlaybackMode::Song => {
                let current = self.song.playhead_samples;
                if current as u64 >= self.song.last_emitted_samples as u64 + interval as u64 {
                    self.song.last_emitted_samples = current;
                    true
                } else {
                    false
                }
            },
            PlaybackMode::Pattern { .. } => {
                let current = self.pattern.playhead_samples;
                if current as u64 >= self.pattern.last_emitted_samples as u64 + interval as u64 {
                    self.pattern.last_emitted_samples = current;
                    true
                } else {
                    false
                }
            },
        }
    }

    /// Enforces the end of the song (only when the song has content): past
    /// the end, a looping song goes back to its start and any other song
    /// stops and is rewound.
    pub fn check_song_end(&mut self, song_end: u32, samples_per_beat: Option<usize>) -> (action:
        SongEndAction)
        ensures
            !(song_end > 0 && old(self).song.playhead_samples > song_end) ==> action
                == SongEndAction::Continue && *final(self) == *old(self),
            song_end > 0 && old(self).song.playhead_samples > song_end && old(self).song.is_looping
                ==> action == SongEndAction::Looped && *final(self) == with_song(
                *old(self),
                song_positioned(
                    SongPlaybackState {
                        playhead_samples: 0,
                        last_emitted_samples: 0,
                        ..old(self).song
                    },
                    samples_per_beat,
                ),
            ),
            song_end > 0 && old(self).song.playhead_samples > song_end && !old(self).song.is_looping
                ==> action == SongEndAction::Stopped && *final(self) == stopped(*old(self)),
    {
        if song_end > 0 && self.song.playhead_samples > song_end {
            if self.song.is_looping {
                self.song.playhead_samples = 0;
                self.recalculate_song_position(samples_per_beat);
                self.song.last_emitted_samples = 0;
                SongEndAction::Looped
            } else {
                self.stop_playback();
                SongEndAction::Stopped
            }
        } else {
            SongEndAction::Continue
        }
    }

    /// Wraps the pattern playhead to the start of the pattern loop once it
    /// reaches the loop length; returns whether it wrapped (generators must
    /// then be silenced so that no notes hang).
    pub fn wrap_pattern_loop(&mut self, loop_len_samples: u32) -> (wrapped: bool)
        ensures
            wrapped == (old(self).pattern.playhead_samples >= loop_len_samples),
            wrapped ==> *final(self) == with_pattern(
                *old(self),
                PatternPlaybackState {
                    playhead_samples: 0,
                    last_emitted_samples: 0,
                    ..old(self).pattern
                },
            ),
            !wrapped ==> *final(self) == *old(self),
    {
        if self.pattern.playhead_samples >= loop_len_samples {
            self.pattern.playhead_samples = 0;
            self.pattern.last_emitted_samples = 0;
            true
        } else {
            false
        }
    }

    /// Applies one transport command and reports the work that it asks of the engine.
    pub fn apply(&mut self, cmd: TransportCommand, samples_per_beat: Option<usize>) -> (effects:
        TransportEffects)
        ensures
            *final(self) == transport_step(*old(self), cmd, samples_per_beat).0,
            effects == transport_step(*old(self), cmd, samples_per_beat).1,
    {
        let emit = TransportEffects {
            stop_generators: false,
            reset_generator: None,
            evaluate_modulations: false,
            emit_static_position: false,
            emit_current_position: true,
        };
        match cmd {
            TransportCommand::SetPlaying(v) => {
                let was_playing = self.is_playing();
                match self.mode {
                    PlaybackMode::Song => {
                        self.song.is_playing = v;
                    },
                    PlaybackMode::Pattern { .. } => {
                        self.pattern.is_playing = v;
                    },
                }
                TransportEffects { stop_generators: was_playing && !v, ..emit }
            },
            TransportCommand::SetLooping(v) => {
                self.song.is_looping = v;
                emit
            },
            TransportCommand::StopAndReset => {
                self.stop_playback();
                TransportEffects {
                    stop_generators: true,
                    reset_generator: None,
                    evaluate_modulations: false,
                    emit_static_position: true,
                    emit_current_position: false,
                }
            },
            TransportCommand::SetPlayhead(samples) => {
                self.song.playhead_samples = samples;
                self.recalculate_song_position(samples_per_beat);
                self.song.last_emitted_samples = self.song.playhead_samples;
                TransportEffects { stop_generators: true, evaluate_modulations: true, ..emit }
            },
            TransportCommand::SetPlaybackMode(m) => {
                match (self.mode, m) {
                    (PlaybackMode::Song, PlaybackMode::Pattern { .. }) => {
                        self.pattern.playhead_samples = 0;
                        self.pattern.last_emitted_samples = 0;
                        self.recalculate_pattern_position(samples_per_beat);
                        self.pattern.is_playing = true;
                    },
                    (PlaybackMode::Pattern { .. }, PlaybackMode::Song) => {
                        self.pattern.playhead_samples = 0;
                        self.pattern.last_emitted_samples = 0;
                        self.recalculate_pattern_position(samples_per_beat);
                        self.pattern.is_playing = false;
                    },
                    _ => {},
                }
                self.mode = m;
                TransportEffects { stop_generators: true, ..emit }
            },
            TransportCommand::TogglePlayingWithPlaybackMode(m) => {
                if self.mode == m {
                    let was = self.is_playing();
                    match self.mode {
                        PlaybackMode::Song => {
                            self.song.is_playing = !was;
                        },
                        PlaybackMode::Pattern { .. } => {
                            self.pattern.is_playing = !was;
                        },
                    }
                    TransportEffects { stop_generators: was, ..emit }
                } else {
                    self.song.is_playing = false;
                    self.pattern.is_playing = false;
                    self.mode = m;
                    match self.mode {
                        PlaybackMode::Song => {
                            self.song.is_playing = true;
                        },
                        PlaybackMode::Pattern { .. } => {
                            self.reset_pattern();
                            self.pattern.is_playing = true;
                        },
                    }
                    TransportEffects { stop_generators: true, ..emit }
                }
            },
            TransportCommand::TogglePatternPlayback { pattern_id, generator_id } => {
                match self.mode {
                    PlaybackMode::Song => {
                        self.stop_playback();
                        self.mode = PlaybackMode::Pattern { pattern_id, generator_id };
                        self.reset_pattern();
                        self.pattern.is_playing = true;
                        TransportEffects {
                            stop_generators: true,
                            emit_static_position: true,
                            ..emit
                        }
                    },
                    PlaybackMode::Pattern { .. } => {
                        if self.pattern.is_playing {
                            self.pattern.is_playing = false;
                            self.reset_pattern();
                            TransportEffects { stop_generators: true, ..emit }
                        } else {
                            self.pattern.is_playing = true;
                            emit
                        }
                    },
                }
            },
            TransportCommand::SwitchPatternGenerator(new_id) => {
                match self.mode {
                    PlaybackMode::Pattern { pattern_id, generator_id } => {
                        if generator_id != new_id {
                            self.mode = PlaybackMode::Pattern { pattern_id, generator_id: new_id };
                            TransportEffects {
                                stop_generators: false,
                                reset_generator: Some(generator_id),
                                evaluate_modulations: false,
                                emit_static_position: false,
                                emit_current_position: false,
                            }
                        } else {
                            TransportEffects {
                                stop_generators: false,
                                reset_generator: None,
                                evaluate_modulations: false,
                                emit_static_position: false,
                                emit_current_position: false,
                            }
                        }
                    },
                    PlaybackMode::Song => TransportEffects {
                        stop_generators: false,
                        reset_generator: None,
                        evaluate_modulations: false,
                        emit_static_position: false,
                        emit_current_position: false,
                    },
                }
            },
        }
    }
}

} // verus!
