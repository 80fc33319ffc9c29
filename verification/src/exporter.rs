//! Offline export: its error type, the checks made before rendering starts,
//! and the block-by-block plan that the render loop follows.
//!
//! The render loop alternates work that only the host can do (processing a
//! block, writing it, reporting progress) with decisions; [`ExportPlan`]
//! takes the decisions: the loop asks it for the next step, performs it, and
//! asks again until it is told to finish.

use vstd::prelude::*;

use crate::event::PluginTarget;

verus! {

/// Why an export failed: the stage it failed in and a message.
#[derive(Clone, Debug)]
pub struct AudioExportError {
    pub error_source: String,
    pub message: String,
}

impl AudioExportError {
    /// An error from stage `source` with `message`.
    pub fn new(source: &str, message: String) -> (e: Self)
        ensures
            e.error_source@ == source@,
            e.message@ == message@,
    {
        AudioExportError { error_source: source.to_owned(), message }
    }

    /// The text shown for the error:
    /// `Audio export failed (<source>): <message>`.
    pub fn message(&self) -> (s: String)
        ensures
            s@ == "Audio export failed ("@ + self.error_source@ + "): "@ + self.message@,
    {
        let mut s = String::from_str("Audio export failed (");
        s.append(self.error_source.as_str());
        s.append("): ");
        s.append(self.message.as_str());
        s
    }
}

/// What happens to the audio that rings on past the end of the song.
#[derive(Clone, Copy, Debug, PartialEq, Eq, Structural)]
pub enum TailHandling {
    /// The export stops at the song's end.
    CutRemainder,
    /// Playback stops at the song's end and the tail is rendered after it.
    LeaveRemainder,
    /// The song is rendered once unheard, so that its tail rings into the
    /// start of the exported pass.
    WrapRemainder,
}

impl Default for TailHandling {
    fn default() -> (t: Self)
        ensures
            t == TailHandling::CutRemainder,
    {
        TailHandling::CutRemainder
    }
}

/// Frames rendered per block during export.
pub const EXPORT_BLOCK_SIZE: u32 = 4096;

/// Progress is reported about this many times per second of audio.
pub const EXPORT_PROGRESS_PER_SECOND: u32 = 30;

/// Blocks between two progress reports: one report per
/// 1/[`EXPORT_PROGRESS_PER_SECOND`] s of audio, and at least every block.
pub open spec fn spec_throttle_limit(sample_rate: u32) -> u32 {
    let per = sample_rate / EXPORT_BLOCK_SIZE / EXPORT_PROGRESS_PER_SECOND;
    if per < 1 { 1 } else { per as u32 }
}

/// Blocks between two progress reports at `sample_rate`.
pub fn throttle_limit(sample_rate: u32) -> (r: u32)
    ensures
        r == spec_throttle_limit(sample_rate),
        r >= 1,
{
    let per = sample_rate / EXPORT_BLOCK_SIZE / EXPORT_PROGRESS_PER_SECOND;
    if per < 1 { 1 } else { per }
}

/// Where an export stands.
#[derive(Clone, Copy, Debug, PartialEq, Eq, Structural)]
pub enum ExportPhase {
    /// Rendering the song once without writing it.
    Preroll,
    /// Rendering and writing the song.
    Song,
    /// Rendering and writing the tail after playback stopped.
    Tail,
    /// Nothing is left to render.
    Done,
}

/// The next thing the render loop does.
#[derive(Clone, Copy, Debug, PartialEq, Eq, Structural)]
pub enum ExportStep {
    /// Process `frames` frames; write them when `write`; report progress when `report`.
    Render { frames: u32, write: bool, report: bool },
    /// Move the playhead back to the start of the song.
    RewindPlayhead,
    /// Stop playback (and process one empty block) before the tail.
    StopPlayback,
    /// Report completion and finalize the file.
    Finish,
}

/// The state of an export's render loop.
#[derive(Clone, Copy, Debug, PartialEq, Eq, Structural)]
pub struct ExportPlan {
    pub tail_handling: TailHandling,
    pub phase: ExportPhase,
    /// Frames of the song (the export without its tail).
    pub song_length: u32,
    /// Frames of the tail.
    pub tail_length: u32,
    /// Frames rendered so far in the current phase.
    pub processed: u32,
    /// Blocks rendered in the preroll and song phases, for progress throttling.
    pub loop_counter: u64,
    /// Blocks between two progress reports.
    pub throttle_limit: u32,
}

/// Frames of the next block when `remaining` frames are left in the phase.
pub open spec fn block_frames(remaining: int) -> int {
    if remaining < EXPORT_BLOCK_SIZE { remaining } else { EXPORT_BLOCK_SIZE as int }
}

/// Frames rendered in earlier phases that count towards the progress throttle.
pub open spec fn counted_before(p: ExportPlan) -> int {
    match p.phase {
        ExportPhase::Preroll => 0,
        ExportPhase::Song => if p.tail_handling == TailHandling::WrapRemainder { p.song_length as int } else { 0 },
        _ => if p.tail_handling == TailHandling::WrapRemainder { 2 * p.song_length } else { p.song_length as int },
    }
}

/// One step of the render loop: the step to perform and the plan after it.
pub open spec fn plan_step(p: ExportPlan) -> (ExportPlan, ExportStep) {
    match p.phase {
        ExportPhase::Preroll => if p.processed < p.song_length {
            let frames = block_frames(p.song_length - p.processed) as u32;
            let counter = (p.loop_counter + 1) as u64;
            (ExportPlan { processed: (p.processed + frames) as u32, loop_counter: counter, ..p },
             ExportStep::Render { frames, write: false, report: counter % (p.throttle_limit as u64) == 0 })
        } else {
            (ExportPlan { phase: ExportPhase::Song, processed: 0, ..p }, ExportStep::RewindPlayhead)
        },
        ExportPhase::Song => if p.processed < p.song_length {
            let frames = block_frames(p.song_length - p.processed) as u32;
            let counter = (p.loop_counter + 1) as u64;
            (ExportPlan { processed: (p.processed + frames) as u32, loop_counter: counter, ..p },
             ExportStep::Render { frames, write: true, report: counter % (p.throttle_limit as u64) == 0 })
        } else if p.tail_handling == TailHandling::LeaveRemainder {
            (ExportPlan { phase: ExportPhase::Tail, processed: 0, ..p }, ExportStep::StopPlayback)
        } else {
            (ExportPlan { phase: ExportPhase::Done, processed: 0, ..p }, ExportStep::Finish)
        },
        ExportPhase::Tail => if p.processed < p.tail_length {
            let frames = block_frames(p.tail_length - p.processed) as u32;
            (ExportPlan { processed: (p.processed + frames) as u32, ..p },
             ExportStep::Render { frames, write: true, report: true })
        } else {
            (ExportPlan { phase: ExportPhase::Done, processed: 0, ..p }, ExportStep::Finish)
        },
        ExportPhase::Done => (p, ExportStep::Finish),
    }
}

/// Frames that a step writes to the file.
pub open spec fn written_by(s: ExportStep) -> int {
    match s {
        ExportStep::Render { frames, write, .. } => if write { frames as int } else { 0 },
        _ => 0,
    }
}

/// Frames that the plan will still write before it finishes.
pub open spec fn frames_left_to_write(p: ExportPlan) -> int {
    let tail = if p.tail_handling == TailHandling::LeaveRemainder { p.tail_length as int } else { 0 };
    match p.phase {
        ExportPhase::Preroll => p.song_length + tail,
        ExportPhase::Song => p.song_length - p.processed + tail,
        ExportPhase::Tail => p.tail_length - p.processed,
        ExportPhase::Done => 0,
    }
}

/// A measure that every step before the end decreases.
pub open spec fn steps_left(p: ExportPlan) -> int {
    let tail_steps = p.tail_length + 2;
    match p.phase {
        ExportPhase::Preroll => (p.song_length - p.processed) + 1 + (p.song_length + 1) + tail_steps + 1,
        ExportPhase::Song => (p.song_length - p.processed) + 1 + tail_steps + 1,
        ExportPhase::Tail => (p.tail_length - p.processed) + 1,
        ExportPhase::Done => 0,
    }
}

impl ExportPlan {
    /// The plan's fields are consistent: the phase fits the tail handling,
    /// the frames processed stay within the phase's length, and the progress
    /// counter stays within the blocks rendered.
    pub open spec fn wf(&self) -> bool {
        &&& self.throttle_limit >= 1
        &&& (self.phase == ExportPhase::Preroll ==> self.tail_handling == TailHandling::WrapRemainder)
        &&& (self.phase == ExportPhase::Tail ==> self.tail_handling == TailHandling::LeaveRemainder)
        &&& match self.phase {
            ExportPhase::Preroll | ExportPhase::Song => self.processed <= self.song_length,
            ExportPhase::Tail => self.processed <= self.tail_length,
            ExportPhase::Done => self.processed == 0,
        }
        &&& self.loop_counter <= counted_before(*self) + match self.phase {
            ExportPhase::Preroll | ExportPhase::Song => self.processed as int,
            _ => 0,
        }
    }

    /// The plan for exporting a song of `song_length` frames with a tail of
    /// `tail_length` frames at `sample_rate`.
    pub fn new(tail_handling: TailHandling, sample_rate: u32, song_length: u32, tail_length: u32) -> (p: Self)
        ensures
            p.wf(),
            p.tail_handling == tail_handling,
            p.phase == (if tail_handling == TailHandling::WrapRemainder { ExportPhase::Preroll } else { ExportPhase::Song }),
            p.song_length == song_length,
            p.tail_length == tail_length,
            p.processed == 0,
            p.loop_counter == 0,
            p.throttle_limit == spec_throttle_limit(sample_rate),
    {
        let phase = match tail_handling {
            TailHandling::WrapRemainder => ExportPhase::Preroll,
            _ => ExportPhase::Song,
        };
        ExportPlan {
            tail_handling,
            phase,
            song_length,
            tail_length,
            processed: 0,
            loop_counter: 0,
            throttle_limit: throttle_limit(sample_rate),
        }
    }

    /// Decides the next step of the render loop and advances the plan past it.
    pub fn next_step(&mut self) -> (step: ExportStep)
        requires
            old(self).wf(),
        ensures
            final(self).wf(),
            (*final(self), step) == plan_step(*old(self)),
    {
        match self.phase {
            ExportPhase::Preroll | ExportPhase::Song => {
                if self.processed < self.song_length {
                    let remaining = self.song_length - self.processed;
                    let frames = if remaining < EXPORT_BLOCK_SIZE { remaining } else { EXPORT_BLOCK_SIZE };
                    self.processed = self.processed + frames;
                    self.loop_counter = self.loop_counter + 1;
                    let report = self.loop_counter % (self.throttle_limit as u64) == 0;
                    let write = match self.phase {
                        ExportPhase::Song => true,
                        _ => false,
                    };
                    ExportStep::Render { frames, write, report }
                } else {
                    match self.phase {
                        ExportPhase::Preroll => {
                            self.phase = ExportPhase::Song;
                            self.processed = 0;
                            ExportStep::RewindPlayhead
                        },
                        _ => {
                            self.processed = 0;
                            match self.tail_handling {
                                TailHandling::LeaveRemainder => {
                                    self.phase = ExportPhase::Tail;
                                    ExportStep::StopPlayback
                                },
                                _ => {
                                    self.phase = ExportPhase::Done;
                                    ExportStep::Finish
                                },
                            }
                        },
                    }
                }
            },
            ExportPhase::Tail => {
                if self.processed < self.tail_length {
                    let remaining = self.tail_length - self.processed;
                    let frames = if remaining < EXPORT_BLOCK_SIZE { remaining } else { EXPORT_BLOCK_SIZE };
                    self.processed = self.processed + frames;
                    ExportStep::Render { frames, write: true, report: true }
                } else {
                    self.phase = ExportPhase::Done;
                    self.processed = 0;
                    ExportStep::Finish
                }
            },
            ExportPhase::Done => ExportStep::Finish,
        }
    }

    /// Whether the plan has nothing left to do.
    pub fn is_done(&self) -> (r: bool)
        ensures
            r == (self.phase == ExportPhase::Done),
    {
        match self.phase {
            ExportPhase::Done => true,
            _ => false,
        }
    }
}

/// Every step writes exactly the frames it takes off what is left to write,
/// so a plan writes `song_length` frames, plus the tail when it is left to
/// ring, before it finishes; and each step before the end brings the end
/// closer.
pub proof fn law_export_writes_every_frame_once(p: ExportPlan)
    requires
        p.wf(),
    ensures
        ({
            let (q, s) = plan_step(p);
            &&& q.wf()
            &&& frames_left_to_write(q) + written_by(s) == frames_left_to_write(p)
            &&& (p.phase != ExportPhase::Done ==> 0 <= steps_left(q) < steps_left(p))
            &&& (s is Render ==> 0 < s->frames <= EXPORT_BLOCK_SIZE)
        }),
{
}

/// A fresh plan has the whole song, and the tail when it is left to ring,
/// still to write.
pub proof fn law_export_plan_starts_with_everything(tail_handling: TailHandling, sample_rate: u32, song_length: u32, tail_length: u32, p: ExportPlan)
    requires
        p.tail_handling == tail_handling,
        p.phase == (if tail_handling == TailHandling::WrapRemainder { ExportPhase::Preroll } else { ExportPhase::Song }),
        p.song_length == song_length,
        p.tail_length == tail_length,
        p.processed == 0,
    ensures
        frames_left_to_write(p) == song_length + (if tail_handling == TailHandling::LeaveRemainder { tail_length as int } else { 0 }),
{
}

/// Finds the first external plugin of the project that the engine has no
/// hosted instance for. `externals` lists the targets whose plugin is
/// external, in the order the project is walked (generators, track effects,
/// bus effects, master effects); `hosted` lists the targets the engine hosts.
pub fn first_missing_external(externals: &[PluginTarget], hosted: &[PluginTarget]) -> (r: Option<usize>)
    ensures
        match r {
            Some(i) => i < externals@.len() && !hosted@.contains(externals@[i as int])
                && forall|j: int| 0 <= j < i ==> hosted@.contains(#[trigger] externals@[j]),
            None => forall|j: int| 0 <= j < externals@.len() ==> hosted@.contains(#[trigger] externals@[j]),
        },
{
    let mut i: usize = 0;
    while i < externals.len()
        invariant
            i <= externals@.len(),
            forall|j: int| 0 <= j < i ==> hosted@.contains(#[trigger] externals@[j]),
        decreases externals@.len() - i,
    {
        let target = externals[i];
        let mut k: usize = 0;
        let mut found = false;
        while k < hosted.len()
            invariant
                k <= hosted@.len(),
                target == externals@[i as int],
                found ==> hosted@.contains(target),
                !found ==> forall|m: int| 0 <= m < k ==> hosted@[m] != target,
            decreases hosted@.len() - k,
        {
            if hosted[k] == target {
                found = true;
                assert(hosted@[k as int] == target);
            }
            k = k + 1;
        }
        if !found {
            return Some(i);
        }
        i = i + 1;
    }
    None
}

} // verus!
