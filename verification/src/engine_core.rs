//! The structural state of the audio engine and the commands that change
//! it: the transport, the plugin instances, the generator voices, and the
//! mixer graph (tracks, buses, routing) with its cached processing order.
//!
//! Whatever command is applied, the cached order stays a valid processing
//! order of the current graph.

use vstd::prelude::*;

use crate::event::{EffectTarget, PluginTarget};
use crate::hosted::{
    apply_hosted_install, check_hosted_install, check_hosted_reconfiguration, check_hosted_removal,
    install_applied, install_decision, reconfiguration_decision, removal_decision, EngineProcessing,
    HostedInstallRequest, HostedInstallResult, HostedRemovalResult, HostedReplacementFacts,
    HostedTrackGraph, ProcessingConfigFacts,
};
use crate::ids::{BusId, EffectId, GeneratorId, TrackId};
use crate::plugin_state::{
    chain_has, first_position, moved, pushed_at, AudioEffectInstance, AudioGeneratorInstance,
    AudioPluginState, PluginRef, chain_plugins, cleared_at,
};
use crate::routing::{compute_routing_order, is_routing_order, RoutingConnection, RoutingNode};
use crate::transport::{transport_step, TransportCommand, TransportEffects, TransportState};
use crate::transport::{
    initial_transport, law_stopping_silences_generators, law_toggle_twice_restores, spec_is_playing,
};
use crate::voices::{
    blocks_finished, drop_voices_of, find_voice_spec, finish_voice_blocks, forget_generator_input,
    input_forgotten, live_note_event, not_of_generator, queue_generator_event, retrack_voices,
    stop_all_active_generators, trigger_live_note, voice_received, voices_stopped, flagged_ids,
    note_off_for, GeneratorVoice, MidiEvent, PlayingNote,
};

verus! {

/// A command that changes the engine's structure or transport.
pub enum CoreCommand {
    AddGenerator { generator_id: GeneratorId, track_id: TrackId, registry_id: u32, plugin: PluginRef },
    RemoveGenerator { generator_id: GeneratorId },
    UpdateGeneratorTrack { generator_id: GeneratorId, track_id: TrackId },
    AddEffect { target: EffectTarget, effect_id: EffectId, registry_id: u32, plugin: PluginRef },
    RemoveEffect { target: EffectTarget, effect_id: EffectId },
    MoveEffect { target: EffectTarget, effect_id: EffectId, new_position: usize },
    AddBus { bus_id: BusId },
    RemoveBus { bus_id: BusId },
    UpdateRouting { routing: Vec<RoutingConnection> },
    UpdateTracks { tracks: Vec<TrackId> },
    /// A transport command. When it stops playback or moves the playhead,
    /// every voice is silenced on the spot: `plugin_tails[i]` is the tail of
    /// voice `i`'s generator, present exactly when that generator is, and
    /// `sample_rate` caps it.
    Transport { command: TransportCommand, plugin_tails: Vec<Option<u32>>, sample_rate: u32 },
    /// Silences every voice (the song looped or ended while rendering);
    /// `plugin_tails` and `sample_rate` as for `Transport`.
    StopGenerators { plugin_tails: Vec<Option<u32>>, sample_rate: u32 },
    /// Puts `plugin` in place of the plugin that `target` names (a hosted
    /// processor prepared for a new configuration replaces the running one).
    SwapPlugin { target: PluginTarget, plugin: PluginRef },
    /// Queues `event` for the generator's next block.
    SendMidiEvent { generator_id: GeneratorId, event: MidiEvent },
    /// Plays or releases a note on a generator at once. `graph_track` is the
    /// track that holds the generator in the project graph, when the graph
    /// already shows it.
    PlayPreviewNote { generator_id: GeneratorId, graph_track: Option<TrackId>, key: u8, velocity: u8, is_on: bool },
}

/// A change to the set of plugins whose telemetry is published.
#[derive(Clone, Copy, Debug, PartialEq, Eq, Structural)]
pub enum TelemetryChange {
    Registered(PluginTarget),
    Removed(PluginTarget),
}

/// What the host must do after a command.
pub struct CommandOutcome {
    /// Plugins taken out of the engine, to retire off the audio thread.
    pub retired: Vec<PluginRef>,
    /// Work the transport asks for, after a transport command.
    pub transport: Option<TransportEffects>,
    /// Telemetry to register or remove.
    pub telemetry: Option<TelemetryChange>,
}

/// The engine's structural state.
pub struct EngineCore {
    transport: TransportState,
    plugins: AudioPluginState,
    voices: Vec<GeneratorVoice>,
    tracks: Vec<TrackId>,
    buses: Vec<BusId>,
    routing: Vec<RoutingConnection>,
    order: Vec<RoutingNode>,
}

/// The plugin target an effect on `target` is reached by.
pub open spec fn effect_plugin_target(target: EffectTarget, effect_id: EffectId) -> PluginTarget {
    match target {
        EffectTarget::Track(t) => PluginTarget::TrackEffect(t, effect_id),
        EffectTarget::Bus(b) => PluginTarget::BusEffect(b, effect_id),
        EffectTarget::Master => PluginTarget::MasterEffect(effect_id),
    }
}

/// `plugin_tails` gives a tail for exactly the voices whose generator is
/// present, one entry per voice.
pub open spec fn tails_match_voices(
    voices: Seq<GeneratorVoice>,
    plugins: AudioPluginState,
    plugin_tails: Seq<Option<u32>>,
) -> bool {
    &&& plugin_tails.len() == voices.len()
    &&& forall|i: int| 0 <= i < voices.len() ==> (#[trigger] plugin_tails[i] is Some
        <==> plugins.generator_map().dom().contains(voices[i].id))
}

/// The voices after the work a transport command asks of them: all
/// silenced when playback stops or the playhead moves; the queued input of
/// the generator a pattern stops playing forgotten; otherwise untouched.
pub open spec fn voices_after_transport(
    before: Seq<GeneratorVoice>,
    after: Seq<GeneratorVoice>,
    effects: TransportEffects,
    plugin_tails: Seq<Option<u32>>,
    sample_rate: u32,
) -> bool {
    if effects.stop_generators {
        voices_stopped(before, after, plugin_tails, sample_rate)
    } else {
        match effects.reset_generator {
            Some(g) => {
                &&& after.len() == before.len()
                &&& match find_voice_spec(before, g) {
                    Some(i) => input_forgotten(before[i], after[i]) && forall|j: int|
                        0 <= j < before.len() && j != i ==> #[trigger] after[j] == before[j],
                    None => after == before,
                }
            },
            None => after == before,
        }
    }
}

/// `b` has the same graph (tracks, buses, routing) and transport as `a`.
pub open spec fn graph_and_transport_kept(a: EngineCore, b: EngineCore) -> bool {
    &&& b.track_view() == a.track_view()
    &&& b.bus_view() == a.bus_view()
    &&& b.routing_view() == a.routing_view()
    &&& b.transport_view() == a.transport_view()
}

/// `b` has the same plugin chains as `a`.
pub open spec fn chains_kept(a: AudioPluginState, b: AudioPluginState) -> bool {
    &&& b.track_chains() == a.track_chains()
    &&& b.bus_chains() == a.bus_chains()
    &&& b.master_chain() == a.master_chain()
}

/// Whether `b` is one of `buses`.
fn contains_bus(buses: &Vec<BusId>, b: BusId) -> (r: Option<usize>)
    ensures
        match r {
            Some(i) => i < buses@.len() && buses@[i as int] == b,
            None => !buses@.contains(b),
        },
{
    let mut i: usize = 0;
    while i < buses.len()
        invariant
            i <= buses@.len(),
            forall|j: int| 0 <= j < i ==> buses@[j] != b,
        decreases buses@.len() - i,
    {
        if buses[i] == b {
            return Some(i);
        }
        i = i + 1;
    }
    None
}

/// Whether `cmd` may be applied to `before` (see
/// [`EngineCore::process_command`]).
pub open spec fn command_allowed(before: EngineCore, cmd: CoreCommand) -> bool {
    match cmd {
        CoreCommand::AddEffect { target, .. } => match target {
            EffectTarget::Track(t) => (t.0 as int) < usize::MAX,
            EffectTarget::Bus(b) => (b.0 as int) < usize::MAX,
            EffectTarget::Master => true,
        },
        CoreCommand::AddBus { bus_id } => (bus_id.0 as int) < usize::MAX,
        CoreCommand::Transport { plugin_tails, sample_rate, .. } => tails_match_voices(
            before.voice_view(),
            before.plugin_view(),
            plugin_tails@,
        ) && 20 * sample_rate <= u32::MAX,
        CoreCommand::StopGenerators { plugin_tails, sample_rate } => tails_match_voices(
            before.voice_view(),
            before.plugin_view(),
            plugin_tails@,
        ) && 20 * sample_rate <= u32::MAX,
        _ => true,
    }
}

/// What applying `cmd` to `before` leaves (`after`) and hands back
/// (`out`), `spb` being the samples per beat at the current tempo (see
/// [`EngineCore::process_command`]).
pub open spec fn command_effect(
    before: EngineCore,
    after: EngineCore,
    cmd: CoreCommand,
    spb: Option<usize>,
    out: CommandOutcome,
) -> bool {
    match cmd {
        CoreCommand::AddGenerator { generator_id, track_id, registry_id, plugin } => {
            &&& after.plugin_view().generator_map() == before.plugin_view().generator_map().insert(
                generator_id,
                AudioGeneratorInstance { id: generator_id, track_id, registry_id, plugin },
            )
            &&& out.retired@ == (match before.plugin_view().plugin_at(PluginTarget::Generator(generator_id)) {
                Some(p) => seq![p],
                None => Seq::empty(),
            })
            &&& out.telemetry == Some(TelemetryChange::Registered(PluginTarget::Generator(generator_id)))
            &&& after.voice_view() == before.voice_view()
            &&& chains_kept(before.plugin_view(), after.plugin_view())
            &&& graph_and_transport_kept(before, after)
        },
        CoreCommand::RemoveGenerator { generator_id } => {
            &&& after.plugin_view().generator_map() == before.plugin_view().generator_map().remove(generator_id)
            &&& out.retired@ == (match before.plugin_view().plugin_at(PluginTarget::Generator(generator_id)) {
                Some(p) => seq![p],
                None => Seq::empty(),
            })
            &&& after.voice_view() == before.voice_view().filter(not_of_generator(generator_id))
            &&& out.telemetry == Some(TelemetryChange::Removed(PluginTarget::Generator(generator_id)))
            &&& chains_kept(before.plugin_view(), after.plugin_view())
            &&& graph_and_transport_kept(before, after)
        },
        CoreCommand::UpdateGeneratorTrack { generator_id, track_id } => {
            &&& after.plugin_view().generator_map() == (if before.plugin_view().generator_map().dom().contains(generator_id) {
                before.plugin_view().generator_map().insert(
                    generator_id,
                    AudioGeneratorInstance { track_id, ..before.plugin_view().generator_map()[generator_id] },
                )
            } else {
                before.plugin_view().generator_map()
            })
            &&& after.voice_view().len() == before.voice_view().len()
            &&& forall|i: int| #![trigger before.voice_view()[i]] 0 <= i < before.voice_view().len() ==>
                after.voice_view()[i].id == before.voice_view()[i].id
                && after.voice_view()[i].track_id == (if before.voice_view()[i].id == generator_id {
                    track_id
                } else {
                    before.voice_view()[i].track_id
                })
                && after.voice_view()[i].active == before.voice_view()[i].active
                && after.voice_view()[i].midi_events == before.voice_view()[i].midi_events
                && after.voice_view()[i].playing_keys == before.voice_view()[i].playing_keys
                && after.voice_view()[i].playing_notes == before.voice_view()[i].playing_notes
                && after.voice_view()[i].tail_remaining == before.voice_view()[i].tail_remaining
            &&& out.retired@.len() == 0 && out.telemetry is None
            &&& chains_kept(before.plugin_view(), after.plugin_view())
            &&& graph_and_transport_kept(before, after)
        },
        CoreCommand::AddEffect { target, effect_id, registry_id, plugin } => {
            let e = AudioEffectInstance { id: effect_id, registry_id, plugin };
            &&& match target {
                EffectTarget::Track(t) => after.plugin_view().track_chains()
                    == pushed_at(before.plugin_view().track_chains(), t.0 as int, e),
                EffectTarget::Bus(b) => after.plugin_view().bus_chains()
                    == pushed_at(before.plugin_view().bus_chains(), b.0 as int, e),
                EffectTarget::Master => after.plugin_view().master_chain()
                    == before.plugin_view().master_chain().push(e),
            }
            &&& after.plugin_view().generator_map() == before.plugin_view().generator_map()
            &&& match target {
                EffectTarget::Track(_) => after.plugin_view().bus_chains() == before.plugin_view().bus_chains()
                    && after.plugin_view().master_chain() == before.plugin_view().master_chain(),
                EffectTarget::Bus(_) => after.plugin_view().track_chains() == before.plugin_view().track_chains()
                    && after.plugin_view().master_chain() == before.plugin_view().master_chain(),
                EffectTarget::Master => after.plugin_view().track_chains() == before.plugin_view().track_chains()
                    && after.plugin_view().bus_chains() == before.plugin_view().bus_chains(),
            }
            &&& out.retired@.len() == 0
            &&& out.telemetry == Some(TelemetryChange::Registered(effect_plugin_target(target, effect_id)))
            &&& after.voice_view() == before.voice_view()
            &&& graph_and_transport_kept(before, after)
        },
        CoreCommand::RemoveEffect { target, effect_id } => {
            &&& out.retired@ == (match before.plugin_view().effect_on(target, effect_id) {
                Some(x) => seq![x.plugin],
                None => Seq::empty(),
            })
            &&& match before.plugin_view().effect_chain(target) {
                Some(c) => if chain_has(c, effect_id) {
                    before.plugin_view().chain_replaced(&after.plugin_view(), target, c.remove(first_position(c, effect_id)))
                } else {
                    before.plugin_view().same_plugins(&after.plugin_view())
                },
                None => before.plugin_view().same_plugins(&after.plugin_view()),
            }
            &&& out.telemetry == Some(TelemetryChange::Removed(effect_plugin_target(target, effect_id)))
            &&& after.voice_view() == before.voice_view()
            &&& graph_and_transport_kept(before, after)
        },
        CoreCommand::MoveEffect { target, effect_id, new_position } => {
            &&& match before.plugin_view().effect_chain(target) {
                Some(c) => if chain_has(c, effect_id) {
                    before.plugin_view().chain_replaced(&after.plugin_view(), target,
                        moved(c, first_position(c, effect_id), new_position as int))
                } else {
                    before.plugin_view().same_plugins(&after.plugin_view())
                },
                None => before.plugin_view().same_plugins(&after.plugin_view()),
            }
            &&& out.retired@.len() == 0 && out.telemetry is None
            &&& after.voice_view() == before.voice_view()
            &&& graph_and_transport_kept(before, after)
        },
        CoreCommand::AddBus { bus_id } => {
            &&& after.bus_view() == (if before.bus_view().contains(bus_id) {
                before.bus_view()
            } else {
                before.bus_view().push(bus_id)
            })
            &&& after.plugin_view().bus_chains() == cleared_at(before.plugin_view().bus_chains(), bus_id.0 as int)
            &&& out.retired@ == (if (bus_id.0 as int) < before.plugin_view().bus_chains().len() {
                chain_plugins(before.plugin_view().bus_chains()[bus_id.0 as int])
            } else {
                Seq::empty()
            })
            &&& after.plugin_view().generator_map() == before.plugin_view().generator_map()
            &&& after.plugin_view().track_chains() == before.plugin_view().track_chains()
            &&& after.plugin_view().master_chain() == before.plugin_view().master_chain()
            &&& after.track_view() == before.track_view()
            &&& after.routing_view() == before.routing_view()
            &&& after.transport_view() == before.transport_view()
            &&& after.voice_view() == before.voice_view()
            &&& out.telemetry is None
        },
        CoreCommand::RemoveBus { bus_id } => {
            &&& !after.bus_view().contains(bus_id)
            &&& forall|b: BusId| b != bus_id ==> (after.bus_view().contains(b) <==> before.bus_view().contains(b))
            &&& after.plugin_view().bus_chains() == (if (bus_id.0 as int) < before.plugin_view().bus_chains().len() {
                before.plugin_view().bus_chains().update(bus_id.0 as int, Seq::empty())
            } else {
                before.plugin_view().bus_chains()
            })
            &&& out.retired@ == (if (bus_id.0 as int) < before.plugin_view().bus_chains().len() {
                chain_plugins(before.plugin_view().bus_chains()[bus_id.0 as int])
            } else {
                Seq::empty()
            })
            &&& after.plugin_view().generator_map() == before.plugin_view().generator_map()
            &&& after.plugin_view().track_chains() == before.plugin_view().track_chains()
            &&& after.plugin_view().master_chain() == before.plugin_view().master_chain()
            &&& after.track_view() == before.track_view()
            &&& after.routing_view() == before.routing_view()
            &&& after.transport_view() == before.transport_view()
            &&& after.voice_view() == before.voice_view()
            &&& out.telemetry is None
        },
        CoreCommand::UpdateRouting { routing } => {
            &&& after.routing_view() == routing@
            &&& after.track_view() == before.track_view()
            &&& after.bus_view() == before.bus_view()
            &&& after.plugin_view() == before.plugin_view()
            &&& after.transport_view() == before.transport_view()
            &&& after.voice_view() == before.voice_view()
            &&& out.retired@.len() == 0 && out.telemetry is None
        },
        CoreCommand::UpdateTracks { tracks } => {
            &&& after.track_view() == tracks@
            &&& after.bus_view() == before.bus_view()
            &&& after.routing_view() == before.routing_view()
            &&& after.plugin_view() == before.plugin_view()
            &&& after.transport_view() == before.transport_view()
            &&& after.voice_view() == before.voice_view()
            &&& out.retired@.len() == 0 && out.telemetry is None
        },
        CoreCommand::Transport { command, plugin_tails, sample_rate } => {
            &&& after.transport_view() == transport_step(before.transport_view(), command, spb).0
            &&& out.transport == Some(transport_step(before.transport_view(), command, spb).1)
            &&& voices_after_transport(
                before.voice_view(),
                after.voice_view(),
                transport_step(before.transport_view(), command, spb).1,
                plugin_tails@,
                sample_rate,
            )
            &&& after.plugin_view() == before.plugin_view()
            &&& after.track_view() == before.track_view()
            &&& after.bus_view() == before.bus_view()
            &&& after.routing_view() == before.routing_view()
            &&& out.retired@.len() == 0 && out.telemetry is None
        },
        CoreCommand::StopGenerators { plugin_tails, sample_rate } => {
            &&& voices_stopped(before.voice_view(), after.voice_view(), plugin_tails@, sample_rate)
            &&& after.plugin_view() == before.plugin_view()
            &&& graph_and_transport_kept(before, after)
            &&& out.retired@.len() == 0 && out.telemetry is None && out.transport is None
        },
        CoreCommand::SendMidiEvent { generator_id, event } => {
            &&& (before.plugin_view().generator_map().dom().contains(generator_id) ==> voice_received(
                before.voice_view(),
                after.voice_view(),
                generator_id,
                before.plugin_view().generator_map()[generator_id].track_id,
                event,
            ))
            &&& (!before.plugin_view().generator_map().dom().contains(generator_id)
                ==> after.voice_view() == before.voice_view())
            &&& after.plugin_view() == before.plugin_view()
            &&& graph_and_transport_kept(before, after)
            &&& out.retired@.len() == 0 && out.telemetry is None && out.transport is None
        },
        CoreCommand::PlayPreviewNote { generator_id, graph_track, key, velocity, is_on } => {
            &&& (before.plugin_view().generator_map().dom().contains(generator_id) ==> voice_received(
                before.voice_view(),
                after.voice_view(),
                generator_id,
                match graph_track {
                    Some(t) => t,
                    None => before.plugin_view().generator_map()[generator_id].track_id,
                },
                live_note_event(key, velocity, is_on),
            ))
            &&& (!before.plugin_view().generator_map().dom().contains(generator_id)
                ==> after.voice_view() == before.voice_view())
            &&& after.plugin_view() == before.plugin_view()
            &&& graph_and_transport_kept(before, after)
            &&& out.retired@.len() == 0 && out.telemetry is None && out.transport is None
        },
        CoreCommand::SwapPlugin { target, plugin } => {
            &&& before.plugin_view().plugin_swapped(&after.plugin_view(), target, plugin)
            &&& out.retired@ == (match before.plugin_view().plugin_at(target) {
                Some(p) => seq![p],
                None => Seq::empty(),
            })
            &&& after.voice_view() == before.voice_view()
            &&& graph_and_transport_kept(before, after)
            &&& out.telemetry is None && out.transport is None
        },
    }
}

/// Commands whose application needs nothing of the state they apply to.
pub open spec fn unconditional(cmd: CoreCommand) -> bool {
    match cmd {
        CoreCommand::RemoveGenerator { .. } | CoreCommand::RemoveEffect { .. } | CoreCommand::RemoveBus { .. }
        | CoreCommand::UpdateRouting { .. } | CoreCommand::UpdateTracks { .. } | CoreCommand::SwapPlugin { .. } => true,
        _ => false,
    }
}

/// `states` runs from `before` to `after` through `cmds`: each command
/// leads from one state to the next and hands back its outcome.
pub open spec fn command_run(
    states: Seq<EngineCore>,
    cmds: Seq<CoreCommand>,
    outs: Seq<CommandOutcome>,
) -> bool {
    &&& states.len() == cmds.len() + 1
    &&& outs.len() == cmds.len()
    &&& forall|i: int| 0 <= i < cmds.len() ==> #[trigger] command_effect(states[i], states[i + 1], cmds[i], None, outs[i])
}

/// Applying `cmds` in order to `before` leaves `after` and hands back
/// `outs`, one outcome per command.
pub open spec fn commands_applied(
    before: EngineCore,
    after: EngineCore,
    cmds: Seq<CoreCommand>,
    outs: Seq<CommandOutcome>,
) -> bool {
    exists|states: Seq<EngineCore>|
        #[trigger] command_run(states, cmds, outs) && states[0] == before && states.last() == after
}

/// The command that removes the plugin `target` names.
pub open spec fn removal_command(target: PluginTarget) -> CoreCommand {
    match target {
        PluginTarget::Generator(generator_id) => CoreCommand::RemoveGenerator { generator_id },
        PluginTarget::TrackEffect(t, effect_id) => CoreCommand::RemoveEffect { target: EffectTarget::Track(t), effect_id },
        PluginTarget::BusEffect(b, effect_id) => CoreCommand::RemoveEffect { target: EffectTarget::Bus(b), effect_id },
        PluginTarget::MasterEffect(effect_id) => CoreCommand::RemoveEffect { target: EffectTarget::Master, effect_id },
    }
}

/// The commands a hosted removal applies: the removal of each target, in
/// order, then the removal of the bus, then the tracks and the routing of
/// the graph published with it.
pub open spec fn removal_commands(
    targets: Seq<(PluginTarget, Option<u64>)>,
    bus: Option<BusId>,
    graph: Option<HostedTrackGraph>,
) -> Seq<CoreCommand> {
    targets.map_values(|t: (PluginTarget, Option<u64>)| removal_command(t.0)) + match bus {
        Some(b) => seq![CoreCommand::RemoveBus { bus_id: b }],
        None => Seq::empty(),
    } + match graph {
        Some(g) => seq![CoreCommand::UpdateTracks { tracks: g.tracks }, CoreCommand::UpdateRouting { routing: g.routing }],
        None => Seq::empty(),
    }
}

/// The commands a hosted reconfiguration applies: each prepared processor
/// takes the place of the one its target holds, in order.
pub open spec fn swap_commands(swaps: Seq<(PluginTarget, PluginRef)>) -> Seq<CoreCommand> {
    swaps.map_values(|s: (PluginTarget, PluginRef)| CoreCommand::SwapPlugin { target: s.0, plugin: s.1 })
}

fn removal_command_of(target: PluginTarget) -> (c: CoreCommand)
    ensures
        c == removal_command(target),
{
    match target {
        PluginTarget::Generator(generator_id) => CoreCommand::RemoveGenerator { generator_id },
        PluginTarget::TrackEffect(t, effect_id) => CoreCommand::RemoveEffect { target: EffectTarget::Track(t), effect_id },
        PluginTarget::BusEffect(b, effect_id) => CoreCommand::RemoveEffect { target: EffectTarget::Bus(b), effect_id },
        PluginTarget::MasterEffect(effect_id) => CoreCommand::RemoveEffect { target: EffectTarget::Master, effect_id },
    }
}

impl EngineCore {
    /// The transport.
    pub closed spec fn transport_view(&self) -> TransportState {
        self.transport
    }

    /// The plugin instances.
    pub closed spec fn plugin_view(&self) -> AudioPluginState {
        self.plugins
    }

    /// The generator voices.
    pub closed spec fn voice_view(&self) -> Seq<GeneratorVoice> {
        self.voices@
    }

    /// The tracks of the graph, in order.
    pub closed spec fn track_view(&self) -> Seq<TrackId> {
        self.tracks@
    }

    /// The buses that have a mixer channel, each once.
    pub closed spec fn bus_view(&self) -> Seq<BusId> {
        self.buses@
    }

    /// The routing connections of the graph.
    pub closed spec fn routing_view(&self) -> Seq<RoutingConnection> {
        self.routing@
    }

    /// The cached processing order.
    pub closed spec fn order_view(&self) -> Seq<RoutingNode> {
        self.order@
    }

    /// The plugin state is well formed, the buses occur once each, and the
    /// cached order is a processing order of the current graph.
    pub closed spec fn wf(&self) -> bool {
        &&& self.plugins.wf()
        &&& self.buses@.no_duplicates()
        &&& is_routing_order(self.tracks@, self.buses@, self.routing@, self.order@)
    }

    /// The cached order is a processing order of the current graph.
    pub proof fn lemma_order_matches_graph(&self)
        requires
            self.wf(),
        ensures
            is_routing_order(self.track_view(), self.bus_view(), self.routing_view(), self.order_view()),
            self.plugin_view().wf(),
    {
    }

    /// An engine with the given tracks, no bus, no routing, no plugin and a
    /// stopped transport.
    pub fn new(tracks: Vec<TrackId>) -> (e: Self)
        ensures
            e.wf(),
            e.track_view() == tracks@,
            e.bus_view().len() == 0,
            e.routing_view().len() == 0,
            e.voice_view().len() == 0,
            e.plugin_view().generator_map() == Map::<GeneratorId, AudioGeneratorInstance>::empty(),
            e.plugin_view().track_chains().len() == 0,
            e.plugin_view().bus_chains().len() == 0,
            e.plugin_view().master_chain().len() == 0,
            e.transport_view() == initial_transport(),
    {
        let buses: Vec<BusId> = Vec::new();
        let routing: Vec<RoutingConnection> = Vec::new();
        let order = compute_routing_order(tracks.as_slice(), buses.as_slice(), routing.as_slice());
        EngineCore {
            transport: TransportState::new(),
            plugins: AudioPluginState::new(),
            voices: Vec::new(),
            tracks,
            buses,
            routing,
            order,
        }
    }

    /// The transport.
    pub fn transport(&self) -> (r: &TransportState)
        ensures
            *r == self.transport_view(),
    {
        &self.transport
    }

    /// The cached processing order.
    pub fn routing_order(&self) -> (r: &Vec<RoutingNode>)
        ensures
            r@ == self.order_view(),
    {
        &self.order
    }

    /// The plugin instances.
    pub fn plugin_state(&self) -> (r: &AudioPluginState)
        ensures
            *r == self.plugin_view(),
    {
        &self.plugins
    }

    /// The generator voices.
    pub fn voices(&self) -> (r: &Vec<GeneratorVoice>)
        ensures
            r@ == self.voice_view(),
    {
        &self.voices
    }

    /// Recomputes the cached order from the current graph.
    fn reorder(&mut self)
        ensures
            is_routing_order(final(self).tracks@, final(self).buses@, final(self).routing@, final(self).order@),
            final(self).transport == old(self).transport,
            final(self).plugins == old(self).plugins,
            final(self).voices@ == old(self).voices@,
            final(self).tracks@ == old(self).tracks@,
            final(self).buses@ == old(self).buses@,
            final(self).routing@ == old(self).routing@,
    {
        self.order = compute_routing_order(self.tracks.as_slice(), self.buses.as_slice(), self.routing.as_slice());
    }

    /// Ends a rendered block of `frame_count` frames for every voice, which
    /// consumes the block's queued events, and drops the voices whose
    /// release tail ran out (see [`finish_voice_blocks`]). Returns the
    /// generators whose plugin must be reset. `plugin_tails` and
    /// `sample_rate` as for [`CoreCommand::Transport`].
    pub fn finish_block(&mut self, frame_count: usize, plugin_tails: Vec<Option<u32>>, sample_rate: u32) -> (reset: Vec<GeneratorId>)
        requires
            old(self).wf(),
            tails_match_voices(old(self).voice_view(), old(self).plugin_view(), plugin_tails@),
            20 * sample_rate <= u32::MAX,
        ensures
            final(self).wf(),
            exists|mid: Seq<GeneratorVoice>, flags: Seq<bool>| {
                &&& blocks_finished(old(self).voice_view(), mid, flags, frame_count, plugin_tails@, sample_rate)
                &&& final(self).voice_view() == mid.filter(|v: GeneratorVoice| v.active)
                &&& reset@ == flagged_ids(mid, flags, mid.len())
            },
            final(self).plugin_view() == old(self).plugin_view(),
            graph_and_transport_kept(*old(self), *final(self)),
    {
        finish_voice_blocks(&mut self.voices, frame_count, plugin_tails.as_slice(), sample_rate)
    }

    /// Runs the checks of a hosted installation against the current graph
    /// and plugins (see [`check_hosted_install`]).
    pub fn check_hosted_install(
        &self,
        req: &HostedInstallRequest,
        config: &ProcessingConfigFacts,
        processing: &EngineProcessing,
    ) -> (r: Result<(), HostedInstallResult>)
        requires
            self.wf(),
        ensures
            r == install_decision(*req, *config, *processing, self.plugin_view(), self.track_view(), self.bus_view()),
    {
        check_hosted_install(req, config, processing, &self.plugins, self.tracks.as_slice(), self.buses.as_slice())
    }

    /// Installs a hosted processor whose checks passed and whose endpoint is
    /// ready. An instrument that carries a track graph first publishes it:
    /// its tracks and routing become the engine's, and the processing order
    /// is recomputed. Returns the plugin displaced, which the caller retires.
    pub fn install_hosted(
        &mut self,
        req: HostedInstallRequest,
        config: &ProcessingConfigFacts,
        processing: &EngineProcessing,
        plugin: PluginRef,
    ) -> (retired: Option<PluginRef>)
        requires
            old(self).wf(),
            install_decision(req, *config, *processing, old(self).plugin_view(), old(self).track_view(), old(self).bus_view()) is Ok,
            match req.target {
                PluginTarget::TrackEffect(t, _) => (t.0 as int) < usize::MAX,
                PluginTarget::BusEffect(b, _) => (b.0 as int) < usize::MAX,
                _ => true,
            },
        ensures
            final(self).wf(),
            install_applied(old(self).plugin_view(), final(self).plugin_view(), req, plugin, retired),
            match (req.target, req.graph) {
                (PluginTarget::Generator(_), Some(g)) => {
                    &&& final(self).track_view() == g.tracks@
                    &&& final(self).routing_view() == g.routing@
                },
                _ => {
                    &&& final(self).track_view() == old(self).track_view()
                    &&& final(self).routing_view() == old(self).routing_view()
                },
            },
            final(self).bus_view() == old(self).bus_view(),
            final(self).transport_view() == old(self).transport_view(),
            final(self).voice_view() == old(self).voice_view(),
    {
        let retired = apply_hosted_install(&mut self.plugins, &req, plugin);
        match req.target {
            PluginTarget::Generator(_) => match req.graph {
                Some(g) => {
                    self.tracks = g.tracks;
                    self.routing = g.routing;
                    self.reorder();
                },
                None => {},
            },
            _ => {},
        }
        retired
    }

    /// Applies `cmds` in order, each as [`EngineCore::process_command`]
    /// does, and returns their outcomes.
    pub fn apply_commands(&mut self, cmds: Vec<CoreCommand>) -> (outs: Vec<CommandOutcome>)
        requires
            old(self).wf(),
            forall|i: int| 0 <= i < cmds@.len() ==> unconditional(#[trigger] cmds@[i]),
        ensures
            final(self).wf(),
            commands_applied(*old(self), *final(self), cmds@, outs@),
    {
        let ghost orig = cmds@;
        let mut cmds = cmds;
        let mut outs: Vec<CommandOutcome> = Vec::new();
        let ghost mut states: Seq<EngineCore> = seq![*self];
        let mut k: usize = 0;
        proof {
            assert(orig.len() == cmds.len());
            assert(orig.skip(0) =~= orig);
        }
        while cmds.len() > 0
            invariant
                self.wf(),
                k <= orig.len(),
                orig.len() <= usize::MAX,
                cmds@ == orig.skip(k as int),
                forall|i: int| 0 <= i < orig.len() ==> unconditional(#[trigger] orig[i]),
                outs@.len() == k,
                states.len() == k + 1,
                states[0] == *old(self),
                states[k as int] == *self,
                forall|i: int| 0 <= i < k ==> #[trigger] command_effect(states[i], states[i + 1], orig[i], None, outs@[i]),
            decreases cmds@.len(),
        {
            proof {
                assert(k < orig.len());
            }
            let cmd = cmds.remove(0);
            proof {
                assert(cmd == orig[k as int]);
                assert(unconditional(orig[k as int]));
            }
            let ghost outs_before = outs@;
            let ghost states_before = states;
            let out = self.process_command(cmd, None);
            outs.push(out);
            proof {
                states = states.push(*self);
                assert forall|i: int| 0 <= i < k + 1 implies #[trigger] command_effect(states[i], states[i + 1], orig[i], None, outs@[i]) by {
                    if i < k {
                        assert(states[i] == states_before[i] && states[i + 1] == states_before[i + 1]);
                        assert(outs@[i] == outs_before[i]);
                    }
                }
                assert(cmds@ =~= orig.skip(k + 1));
            }
            k = k + 1;
        }
        proof {
            assert(k == orig.len());
            assert(command_run(states, orig, outs@));
        }
        outs
    }

    /// Checks a hosted removal against the current plugins and buses (see
    /// [`check_hosted_removal`]).
    pub fn check_hosted_removal(&self, bus: Option<BusId>, targets: &[(PluginTarget, Option<u64>)]) -> (r: HostedRemovalResult)
        requires
            self.wf(),
        ensures
            r == removal_decision(self.plugin_view(), bus, self.bus_view(), targets@),
    {
        check_hosted_removal(&self.plugins, bus, self.buses.as_slice(), targets)
    }

    /// Removes hosted plugins: when every target still holds the instance
    /// the request expects (and its bus, if any, still exists), removes each
    /// target, then the bus, then publishes the graph that came with the
    /// request; otherwise nothing changes. Returns the decision and the
    /// outcome of each command applied (plugins to retire, telemetry to
    /// remove).
    pub fn remove_hosted(
        &mut self,
        bus: Option<BusId>,
        targets: Vec<(PluginTarget, Option<u64>)>,
        graph: Option<HostedTrackGraph>,
    ) -> (r: (HostedRemovalResult, Vec<CommandOutcome>))
        requires
            old(self).wf(),
        ensures
            final(self).wf(),
            r.0 == removal_decision(old(self).plugin_view(), bus, old(self).bus_view(), targets@),
            r.0 == HostedRemovalResult::StaleTarget ==> *final(self) == *old(self) && r.1@.len() == 0,
            r.0 == HostedRemovalResult::Removed ==> commands_applied(
                *old(self),
                *final(self),
                removal_commands(targets@, bus, graph),
                r.1@,
            ),
    {
        let decision = check_hosted_removal(&self.plugins, bus, self.buses.as_slice(), targets.as_slice());
        if decision == HostedRemovalResult::StaleTarget {
            return (decision, Vec::new());
        }
        let ghost g = graph;
        let mut cmds: Vec<CoreCommand> = Vec::new();
        let mut i: usize = 0;
        while i < targets.len()
            invariant
                i <= targets@.len(),
                cmds@ == targets@.take(i as int).map_values(|t: (PluginTarget, Option<u64>)| removal_command(t.0)),
            decreases targets@.len() - i,
        {
            let c = removal_command_of(targets[i].0);
            cmds.push(c);
            proof {
                assert(targets@.take(i + 1) =~= targets@.take(i as int).push(targets@[i as int]));
            }
            i = i + 1;
        }
        proof {
            assert(targets@.take(i as int) =~= targets@);
        }
        let ghost after_targets = cmds@;
        match bus {
            Some(b) => {
                cmds.push(CoreCommand::RemoveBus { bus_id: b });
            },
            None => {},
        }
        let ghost after_bus = cmds@;
        match graph {
            Some(gr) => {
                cmds.push(CoreCommand::UpdateTracks { tracks: gr.tracks });
                cmds.push(CoreCommand::UpdateRouting { routing: gr.routing });
            },
            None => {},
        }
        proof {
            assert(cmds@ =~= removal_commands(targets@, bus, g));
            assert forall|k: int| 0 <= k < cmds@.len() implies unconditional(#[trigger] cmds@[k]) by {
                if k < targets@.len() {
                    assert(cmds@[k] == removal_command(targets@[k].0));
                }
            }
        }
        let outs = self.apply_commands(cmds);
        (decision, outs)
    }

    /// Checks a hosted reconfiguration against the current plugins (see
    /// [`check_hosted_reconfiguration`]).
    pub fn check_hosted_reconfiguration(
        &self,
        sample_rate: u32,
        block_size: usize,
        num_channels: u16,
        replacements: &[HostedReplacementFacts],
    ) -> (r: Result<(), HostedInstallResult>)
        requires
            self.wf(),
        ensures
            r == reconfiguration_decision(self.plugin_view(), sample_rate, block_size, num_channels, replacements@),
    {
        check_hosted_reconfiguration(&self.plugins, sample_rate, block_size, num_channels, replacements)
    }

    /// Puts each prepared processor in place of the one its target holds,
    /// in order, once the reconfiguration's checks passed. Returns the
    /// outcome of each swap (the displaced plugin, to retire).
    pub fn reconfigure_hosted(&mut self, swaps: Vec<(PluginTarget, PluginRef)>) -> (outs: Vec<CommandOutcome>)
        requires
            old(self).wf(),
        ensures
            final(self).wf(),
            commands_applied(*old(self), *final(self), swap_commands(swaps@), outs@),
    {
        let mut cmds: Vec<CoreCommand> = Vec::new();
        let mut i: usize = 0;
        while i < swaps.len()
            invariant
                i <= swaps@.len(),
                cmds@ == swap_commands(swaps@.take(i as int)),
            decreases swaps@.len() - i,
        {
            let (target, plugin) = swaps[i];
            cmds.push(CoreCommand::SwapPlugin { target, plugin });
            proof {
                assert(swaps@.take(i + 1) =~= swaps@.take(i as int).push(swaps@[i as int]));
                assert(cmds@ =~= swap_commands(swaps@.take(i + 1)));
            }
            i = i + 1;
        }
        proof {
            assert(swaps@.take(i as int) =~= swaps@);
            assert forall|k: int| 0 <= k < cmds@.len() implies unconditional(#[trigger] cmds@[k]) by {}
        }
        self.apply_commands(cmds)
    }

    /// Applies one command. Structural commands that change the graph
    /// recompute the cached order.
    pub fn process_command(&mut self, cmd: CoreCommand, samples_per_beat: Option<usize>) -> (out: CommandOutcome)
        requires
            old(self).wf(),
            command_allowed(*old(self), cmd),
        ensures
            final(self).wf(),
            command_effect(*old(self), *final(self), cmd, samples_per_beat, out),
    {
        let mut retired: Vec<PluginRef> = Vec::new();
        match cmd {
            CoreCommand::AddGenerator { generator_id, track_id, registry_id, plugin } => {
                proof {
                    self.plugins.lemma_generator_ids();
                }
                let previous = self.plugins.insert_generator(
                    AudioGeneratorInstance { id: generator_id, track_id, registry_id, plugin },
                );
                if let Some(p) = previous {
                    retired.push(p);
                }
                CommandOutcome {
                    retired,
                    transport: None,
                    telemetry: Some(TelemetryChange::Registered(PluginTarget::Generator(generator_id))),
                }
            },
            CoreCommand::RemoveGenerator { generator_id } => {
                if let Some(p) = self.plugins.remove_generator(generator_id) {
                    retired.push(p);
                }
                drop_voices_of(&mut self.voices, generator_id);
                CommandOutcome {
                    retired,
                    transport: None,
                    telemetry: Some(TelemetryChange::Removed(PluginTarget::Generator(generator_id))),
                }
            },
            CoreCommand::UpdateGeneratorTrack { generator_id, track_id } => {
                self.plugins.set_generator_track(generator_id, track_id);
                retrack_voices(&mut self.voices, generator_id, track_id);
                CommandOutcome { retired, transport: None, telemetry: None }
            },
            CoreCommand::AddEffect { target, effect_id, registry_id, plugin } => {
                let e = AudioEffectInstance { id: effect_id, registry_id, plugin };
                let plugin_target = match target {
                    EffectTarget::Track(t) => {
                        self.plugins.add_track_effect(t.0 as usize, e);
                        PluginTarget::TrackEffect(t, effect_id)
                    },
                    EffectTarget::Bus(b) => {
                        self.plugins.add_bus_effect(b.0 as usize, e);
                        PluginTarget::BusEffect(b, effect_id)
                    },
                    EffectTarget::Master => {
                        self.plugins.add_master_effect(e);
                        PluginTarget::MasterEffect(effect_id)
                    },
                };
                CommandOutcome { retired, transport: None, telemetry: Some(TelemetryChange::Registered(plugin_target)) }
            },
            CoreCommand::RemoveEffect { target, effect_id } => {
                if let Some(x) = self.plugins.remove_effect(target, effect_id) {
                    retired.push(x.plugin);
                }
                let plugin_target = match target {
                    EffectTarget::Track(t) => PluginTarget::TrackEffect(t, effect_id),
                    EffectTarget::Bus(b) => PluginTarget::BusEffect(b, effect_id),
                    EffectTarget::Master => PluginTarget::MasterEffect(effect_id),
                };
                CommandOutcome { retired, transport: None, telemetry: Some(TelemetryChange::Removed(plugin_target)) }
            },
            CoreCommand::MoveEffect { target, effect_id, new_position } => {
                self.plugins.move_effect(target, effect_id, new_position);
                CommandOutcome { retired, transport: None, telemetry: None }
            },
            CoreCommand::AddBus { bus_id } => {
                let chain = self.plugins.add_bus(bus_id.0 as usize);
                if contains_bus(&self.buses, bus_id).is_none() {
                    self.buses.push(bus_id);
                    proof {
                        assert forall|i: int, j: int| 0 <= i < self.buses@.len() && 0 <= j < self.buses@.len() && i != j
                            implies self.buses@[i] != self.buses@[j] by {
                            if i == self.buses@.len() - 1 {
                                assert(old(self).buses@.contains(self.buses@[i]) ==> false);
                            }
                            if j == self.buses@.len() - 1 {
                                assert(!old(self).buses@.contains(self.buses@[j]));
                                if self.buses@[i] == self.buses@[j] {
                                    assert(old(self).buses@[i] == self.buses@[i]);
                                }
                            }
                        };
                    }
                }
                self.reorder();
                CommandOutcome { retired: chain, transport: None, telemetry: None }
            },
            CoreCommand::RemoveBus { bus_id } => {
                let chain = self.plugins.remove_bus(bus_id.0 as usize);
                if let Some(i) = contains_bus(&self.buses, bus_id) {
                    let ghost before = self.buses@;
                    self.buses.remove(i);
                    proof {
                        assert(self.buses@ =~= before.remove(i as int));
                        assert forall|b: BusId| b != bus_id implies (self.buses@.contains(b) <==> before.contains(b)) by {
                            if before.contains(b) {
                                let k = choose|k: int| 0 <= k < before.len() && before[k] == b;
                                if k < i {
                                    assert(self.buses@[k] == b);
                                } else {
                                    assert(k != i);
                                    assert(self.buses@[k - 1] == b);
                                }
                            }
                            if self.buses@.contains(b) {
                                let k = choose|k: int| 0 <= k < self.buses@.len() && self.buses@[k] == b;
                                if k < i {
                                    assert(before[k] == b);
                                } else {
                                    assert(before[k + 1] == b);
                                }
                            }
                        };
                        assert(!self.buses@.contains(bus_id)) by {
                            if self.buses@.contains(bus_id) {
                                let k = choose|k: int| 0 <= k < self.buses@.len() && self.buses@[k] == bus_id;
                                if k < i {
                                    assert(before[k] == bus_id);
                                } else {
                                    assert(before[k + 1] == bus_id);
                                }
                            }
                        };
                    }
                }
                self.reorder();
                CommandOutcome { retired: chain, transport: None, telemetry: None }
            },
            CoreCommand::UpdateRouting { routing } => {
                self.routing = routing;
                self.reorder();
                CommandOutcome { retired, transport: None, telemetry: None }
            },
            CoreCommand::UpdateTracks { tracks } => {
                self.tracks = tracks;
                self.reorder();
                CommandOutcome { retired, transport: None, telemetry: None }
            },
            CoreCommand::Transport { command, plugin_tails, sample_rate } => {
                let effects = self.transport.apply(command, samples_per_beat);
                if effects.stop_generators {
                    stop_all_active_generators(&mut self.voices, plugin_tails.as_slice(), sample_rate);
                } else if let Some(g) = effects.reset_generator {
                    forget_generator_input(&mut self.voices, g);
                }
                CommandOutcome { retired, transport: Some(effects), telemetry: None }
            },
            CoreCommand::StopGenerators { plugin_tails, sample_rate } => {
                stop_all_active_generators(&mut self.voices, plugin_tails.as_slice(), sample_rate);
                CommandOutcome { retired, transport: None, telemetry: None }
            },
            CoreCommand::SwapPlugin { target, plugin } => {
                if let Some(p) = self.plugins.swap_plugin(target, plugin) {
                    retired.push(p);
                }
                CommandOutcome { retired, transport: None, telemetry: None }
            },
            CoreCommand::SendMidiEvent { generator_id, event } => {
                let track = match self.plugins.get_generator(generator_id) {
                    Some(g) => Some(g.track_id),
                    None => None,
                };
                queue_generator_event(&mut self.voices, track, generator_id, event);
                CommandOutcome { retired, transport: None, telemetry: None }
            },
            CoreCommand::PlayPreviewNote { generator_id, graph_track, key, velocity, is_on } => {
                let track = match self.plugins.get_generator(generator_id) {
                    Some(g) => Some(g.track_id),
                    None => None,
                };
                trigger_live_note(&mut self.voices, graph_track, track, generator_id, key, velocity, is_on);
                CommandOutcome { retired, transport: None, telemetry: None }
            },
        }
    }
}

/// Whatever command is applied, the cached processing order afterwards is
/// a valid processing order of the graph as the command left it.
pub proof fn law_order_always_matches_graph(after: EngineCore)
    requires
        after.wf(),
    ensures
        is_routing_order(after.track_view(), after.bus_view(), after.routing_view(), after.order_view()),
{
}

/// When a transport command stops the playing timeline, the engine's
/// voices are silenced by that same command: each queues a note-off for
/// every note it sounded, and none keeps a sounding note or a held key.
pub proof fn law_stopping_playback_silences_voices(
    before: EngineCore,
    after: EngineCore,
    command: TransportCommand,
    samples_per_beat: Option<usize>,
    plugin_tails: Seq<Option<u32>>,
    sample_rate: u32,
)
    requires
        spec_is_playing(before.transport_view()),
        after.transport_view() == transport_step(before.transport_view(), command, samples_per_beat).0,
        !spec_is_playing(after.transport_view()),
        voices_after_transport(
            before.voice_view(),
            after.voice_view(),
            transport_step(before.transport_view(), command, samples_per_beat).1,
            plugin_tails,
            sample_rate,
        ),
    ensures
        after.voice_view().len() == before.voice_view().len(),
        forall|i: int| 0 <= i < after.voice_view().len() ==> {
            &&& (#[trigger] after.voice_view()[i]).playing_notes@.len() == 0
            &&& after.voice_view()[i].playing_keys@.len() == 0
            &&& after.voice_view()[i].midi_events@ == before.voice_view()[i].midi_events@
                + before.voice_view()[i].playing_notes@.map_values(|p: PlayingNote| note_off_for(p))
        },
{
    law_stopping_silences_generators(before.transport_view(), command, samples_per_beat);
}

/// Toggling playback twice in the current mode through the engine restores
/// the transport, and the first toggle flips whether it plays.
pub proof fn law_engine_toggle_twice_restores(
    e0: EngineCore,
    e1: EngineCore,
    e2: EngineCore,
    tails1: Vec<Option<u32>>,
    tails2: Vec<Option<u32>>,
    sample_rate: u32,
    spb: Option<usize>,
    out1: CommandOutcome,
    out2: CommandOutcome,
)
    requires
        command_effect(
            e0,
            e1,
            CoreCommand::Transport {
                command: TransportCommand::TogglePlayingWithPlaybackMode(e0.transport_view().mode),
                plugin_tails: tails1,
                sample_rate,
            },
            spb,
            out1,
        ),
        command_effect(
            e1,
            e2,
            CoreCommand::Transport {
                command: TransportCommand::TogglePlayingWithPlaybackMode(e0.transport_view().mode),
                plugin_tails: tails2,
                sample_rate,
            },
            spb,
            out2,
        ),
    ensures
        e1.transport_view().mode == e0.transport_view().mode,
        spec_is_playing(e1.transport_view()) == !spec_is_playing(e0.transport_view()),
        e2.transport_view() == e0.transport_view(),
{
    law_toggle_twice_restores(e0.transport_view(), spb);
}

} // verus!
