use karbeat_core::{
    EngineProcessing, HostedInstallRequest, HostedRemovalResult, HostedTrackGraph, ProcessingConfigFacts,
    BusId, CoreCommand, EffectId, EffectTarget, EngineCore, GeneratorId, PluginRef, PluginTarget,
    MidiEvent, MidiMessage, PatternId, RoutingConnection, RoutingNode, TelemetryChange, TrackId,
    TransportCommand,
};

fn plugin(handle: u64) -> PluginRef {
    PluginRef { handle, hosted_instance: None, missing: false }
}

#[test]
fn buses_join_and_leave_the_processing_order() {
    let mut engine = EngineCore::new(vec![TrackId(1)]);
    assert_eq!(engine.routing_order(), &vec![RoutingNode::Track(TrackId(1)), RoutingNode::Master]);
    engine.process_command(CoreCommand::AddBus { bus_id: BusId(2) }, None);
    engine.process_command(CoreCommand::AddBus { bus_id: BusId(3) }, None);
    engine.process_command(
        CoreCommand::UpdateRouting {
            routing: vec![RoutingConnection {
                source: RoutingNode::Bus(BusId(3)),
                destination: RoutingNode::Bus(BusId(2)),
            }],
        },
        None,
    );
    assert_eq!(
        engine.routing_order(),
        &vec![
            RoutingNode::Track(TrackId(1)),
            RoutingNode::Bus(BusId(3)),
            RoutingNode::Bus(BusId(2)),
            RoutingNode::Master
        ]
    );
    engine.process_command(CoreCommand::RemoveBus { bus_id: BusId(3) }, None);
    assert_eq!(
        engine.routing_order(),
        &vec![RoutingNode::Track(TrackId(1)), RoutingNode::Master]
    );
}

#[test]
fn generators_and_effects_register_and_retire() {
    let mut engine = EngineCore::new(vec![TrackId(1)]);
    let out = engine.process_command(
        CoreCommand::AddGenerator { generator_id: GeneratorId(5), track_id: TrackId(1), registry_id: 2, plugin: plugin(50) },
        None,
    );
    assert_eq!(out.telemetry, Some(TelemetryChange::Registered(PluginTarget::Generator(GeneratorId(5)))));
    assert!(out.retired.is_empty());
    let out = engine.process_command(
        CoreCommand::AddGenerator { generator_id: GeneratorId(5), track_id: TrackId(1), registry_id: 2, plugin: plugin(51) },
        None,
    );
    assert_eq!(out.retired, vec![plugin(50)]);
    engine.process_command(CoreCommand::UpdateGeneratorTrack { generator_id: GeneratorId(5), track_id: TrackId(9) }, None);
    assert_eq!(engine.plugin_state().get_generator(GeneratorId(5)).map(|g| g.track_id), Some(TrackId(9)));
    let out = engine.process_command(
        CoreCommand::AddEffect { target: EffectTarget::Master, effect_id: EffectId(7), registry_id: 3, plugin: plugin(70) },
        None,
    );
    assert_eq!(out.telemetry, Some(TelemetryChange::Registered(PluginTarget::MasterEffect(EffectId(7)))));
    let out = engine.process_command(CoreCommand::RemoveEffect { target: EffectTarget::Master, effect_id: EffectId(7) }, None);
    assert_eq!(out.retired, vec![plugin(70)]);
    let out = engine.process_command(CoreCommand::RemoveGenerator { generator_id: GeneratorId(5) }, None);
    assert_eq!(out.retired, vec![plugin(51)]);
    assert!(engine.plugin_state().get_generator(GeneratorId(5)).is_none());
}

#[test]
fn adding_a_bus_again_empties_its_chain() {
    let mut engine = EngineCore::new(vec![]);
    engine.process_command(CoreCommand::AddBus { bus_id: BusId(1) }, None);
    engine.process_command(
        CoreCommand::AddEffect { target: EffectTarget::Bus(BusId(1)), effect_id: EffectId(1), registry_id: 1, plugin: plugin(9) },
        None,
    );
    let out = engine.process_command(CoreCommand::AddBus { bus_id: BusId(1) }, None);
    assert_eq!(out.retired, vec![plugin(9)]);
    assert_eq!(engine.routing_order(), &vec![RoutingNode::Bus(BusId(1)), RoutingNode::Master]);
}

#[test]
fn transport_commands_reach_the_transport() {
    let mut engine = EngineCore::new(vec![]);
    let out = engine.process_command(CoreCommand::Transport { command: TransportCommand::SetPlaying(true), plugin_tails: vec![], sample_rate: 48_000 }, Some(24_000));
    assert!(out.transport.is_some());
    assert!(engine.transport().is_playing());
    let out = engine.process_command(CoreCommand::Transport { command: TransportCommand::StopAndReset, plugin_tails: vec![], sample_rate: 48_000 }, Some(24_000));
    assert!(out.transport.map(|e| e.stop_generators).unwrap_or(false));
    assert!(!engine.transport().is_playing());
}

#[test]
fn midi_events_reach_only_known_generators() {
    let mut engine = EngineCore::new(vec![TrackId(1)]);
    let event = MidiEvent {
        sample_offset: 3,
        data: MidiMessage::NoteOn { note_id: None, channel: 0, key: 60, velocity: 90 },
    };
    engine.process_command(CoreCommand::SendMidiEvent { generator_id: GeneratorId(5), event }, None);
    assert!(engine.voices().is_empty());

    engine.process_command(
        CoreCommand::AddGenerator { generator_id: GeneratorId(5), track_id: TrackId(1), registry_id: 2, plugin: plugin(50) },
        None,
    );
    let out = engine.process_command(CoreCommand::SendMidiEvent { generator_id: GeneratorId(5), event }, None);
    assert!(out.retired.is_empty());
    assert_eq!(engine.voices().len(), 1);
    let voice = &engine.voices()[0];
    assert_eq!(voice.id, GeneratorId(5));
    assert_eq!(voice.track_id, TrackId(1));
    assert!(voice.active);
    assert_eq!(voice.midi_events.len(), 1);
    assert_eq!(voice.midi_events.get(0), event);
}

#[test]
fn preview_notes_prefer_the_graph_track() {
    let mut engine = EngineCore::new(vec![TrackId(1)]);
    engine.process_command(
        CoreCommand::PlayPreviewNote { generator_id: GeneratorId(5), graph_track: Some(TrackId(4)), key: 60, velocity: 90, is_on: true },
        None,
    );
    assert!(engine.voices().is_empty());
    engine.process_command(
        CoreCommand::AddGenerator { generator_id: GeneratorId(5), track_id: TrackId(1), registry_id: 2, plugin: plugin(50) },
        None,
    );
    engine.process_command(
        CoreCommand::PlayPreviewNote { generator_id: GeneratorId(5), graph_track: Some(TrackId(4)), key: 60, velocity: 90, is_on: true },
        None,
    );
    engine.process_command(
        CoreCommand::PlayPreviewNote { generator_id: GeneratorId(5), graph_track: None, key: 60, velocity: 0, is_on: false },
        None,
    );
    assert_eq!(engine.voices().len(), 1);
    let voice = &engine.voices()[0];
    assert_eq!(voice.track_id, TrackId(4));
    assert_eq!(voice.midi_events.len(), 2);
    assert_eq!(
        voice.midi_events.get(0).data,
        MidiMessage::NoteOn { note_id: None, channel: 0, key: 60, velocity: 90 }
    );
    assert_eq!(voice.midi_events.get(1).data, MidiMessage::NoteOff { note_id: None, channel: 0, key: 60 });
}

fn note_on(key: u8) -> MidiEvent {
    MidiEvent { sample_offset: 0, data: MidiMessage::NoteOn { note_id: None, channel: 0, key, velocity: 90 } }
}

#[test]
fn stopping_playback_silences_the_engine_voices() {
    let mut engine = EngineCore::new(vec![TrackId(1)]);
    engine.process_command(
        CoreCommand::AddGenerator { generator_id: GeneratorId(1), track_id: TrackId(1), registry_id: 2, plugin: plugin(10) },
        None,
    );
    engine.process_command(CoreCommand::SendMidiEvent { generator_id: GeneratorId(1), event: note_on(60) }, None);
    // The block is rendered: the note starts sounding and its event is consumed.
    let reset = engine.finish_block(128, vec![Some(4_800)], 48_000);
    assert!(reset.is_empty());
    assert_eq!(engine.voices()[0].midi_events.len(), 0);
    assert_eq!(engine.voices()[0].playing_notes.len(), 1);

    engine.process_command(
        CoreCommand::Transport { command: TransportCommand::SetPlaying(true), plugin_tails: vec![Some(4_800)], sample_rate: 48_000 },
        Some(24_000),
    );
    assert_eq!(engine.voices()[0].playing_notes.len(), 1);
    let out = engine.process_command(
        CoreCommand::Transport { command: TransportCommand::SetPlaying(false), plugin_tails: vec![Some(4_800)], sample_rate: 48_000 },
        Some(24_000),
    );
    assert!(out.transport.unwrap().stop_generators);
    let voice = &engine.voices()[0];
    assert_eq!(voice.playing_notes.len(), 0);
    assert!(voice.playing_keys.is_empty());
    assert_eq!(voice.tail_remaining, Some(4_800));
    assert_eq!(voice.midi_events.len(), 1);
    assert_eq!(voice.midi_events.get(0).data, MidiMessage::NoteOff { note_id: None, channel: 0, key: 60 });
}

#[test]
fn tails_are_capped_and_finished_voices_are_dropped() {
    let mut engine = EngineCore::new(vec![TrackId(1)]);
    engine.process_command(
        CoreCommand::AddGenerator { generator_id: GeneratorId(1), track_id: TrackId(1), registry_id: 2, plugin: plugin(10) },
        None,
    );
    engine.process_command(CoreCommand::SendMidiEvent { generator_id: GeneratorId(1), event: note_on(60) }, None);
    engine.finish_block(128, vec![Some(100)], 10);
    engine.process_command(CoreCommand::StopGenerators { plugin_tails: vec![Some(1_000)], sample_rate: 10 }, None);
    assert_eq!(engine.voices()[0].tail_remaining, Some(200));
    assert!(engine.finish_block(150, vec![Some(1_000)], 10).is_empty());
    assert_eq!(engine.voices()[0].tail_remaining, Some(50));
    assert_eq!(engine.finish_block(64, vec![Some(1_000)], 10), vec![GeneratorId(1)]);
    assert!(engine.voices().is_empty());
}

#[test]
fn switching_the_pattern_generator_forgets_its_queued_input() {
    let mut engine = EngineCore::new(vec![TrackId(1)]);
    engine.process_command(
        CoreCommand::AddGenerator { generator_id: GeneratorId(1), track_id: TrackId(1), registry_id: 2, plugin: plugin(10) },
        None,
    );
    engine.process_command(
        CoreCommand::Transport {
            command: TransportCommand::TogglePatternPlayback { pattern_id: PatternId(3), generator_id: GeneratorId(1) },
            plugin_tails: vec![],
            sample_rate: 48_000,
        },
        Some(24_000),
    );
    engine.process_command(CoreCommand::SendMidiEvent { generator_id: GeneratorId(1), event: note_on(60) }, None);
    let out = engine.process_command(
        CoreCommand::Transport {
            command: TransportCommand::SwitchPatternGenerator(GeneratorId(2)),
            plugin_tails: vec![Some(0)],
            sample_rate: 48_000,
        },
        Some(24_000),
    );
    assert_eq!(out.transport.unwrap().reset_generator, Some(GeneratorId(1)));
    assert_eq!(engine.voices()[0].midi_events.len(), 0);
    assert!(engine.voices()[0].active);
}

#[test]
fn installing_an_instrument_publishes_its_track_graph() {
    let mut engine = EngineCore::new(vec![TrackId(1)]);
    let processing = EngineProcessing { sample_rate: 48_000, num_channels: 2, buffer_size: 512, offline: false };
    let config = ProcessingConfigFacts {
        valid: true,
        sample_rate: Some(48_000),
        main_output_channels: 2,
        max_block_size: 1024,
        offline: false,
    };
    let request = HostedInstallRequest {
        target: PluginTarget::Generator(GeneratorId(3)),
        generator_track: Some(TrackId(2)),
        registry_id: 7,
        replace_missing: false,
        graph: Some(HostedTrackGraph { tracks: vec![TrackId(1), TrackId(2)], routing: vec![] }),
    };
    assert_eq!(engine.check_hosted_install(&request, &config, &processing), Ok(()));
    assert_eq!(engine.install_hosted(request, &config, &processing, plugin(30)), None);
    assert_eq!(
        engine.routing_order(),
        &vec![RoutingNode::Track(TrackId(1)), RoutingNode::Track(TrackId(2)), RoutingNode::Master]
    );
    assert_eq!(engine.plugin_state().plugin(&PluginTarget::Generator(GeneratorId(3))), Some(plugin(30)));
}

fn hosted_plugin(handle: u64, instance: u64) -> PluginRef {
    PluginRef { handle, hosted_instance: Some(instance), missing: false }
}

fn install_master_effect(engine: &mut EngineCore, plugin: PluginRef) {
    let processing = EngineProcessing { sample_rate: 48_000, num_channels: 2, buffer_size: 512, offline: false };
    let config = ProcessingConfigFacts {
        valid: true,
        sample_rate: Some(48_000),
        main_output_channels: 2,
        max_block_size: 1024,
        offline: false,
    };
    let request = HostedInstallRequest {
        target: PluginTarget::MasterEffect(EffectId(11)),
        generator_track: None,
        registry_id: 9,
        replace_missing: false,
        graph: None,
    };
    assert_eq!(engine.check_hosted_install(&request, &config, &processing), Ok(()));
    assert_eq!(engine.install_hosted(request, &config, &processing, plugin), None);
}

#[test]
fn a_fresh_engine_holds_no_effect_and_removal_returns_the_hosted_one() {
    let mut engine = EngineCore::new(vec![TrackId(1)]);
    assert!(engine.plugin_state().get_master_effects().is_empty());
    install_master_effect(&mut engine, hosted_plugin(5, 1));
    assert_eq!(engine.plugin_state().get_master_effects().len(), 1);
    let out = engine.process_command(
        CoreCommand::RemoveEffect { target: EffectTarget::Master, effect_id: EffectId(11) },
        None,
    );
    assert!(engine.plugin_state().get_master_effects().is_empty());
    assert_eq!(out.retired, vec![hosted_plugin(5, 1)]);
}

#[test]
fn hosted_removal_checks_instances_before_removing() {
    let mut engine = EngineCore::new(vec![TrackId(1)]);
    install_master_effect(&mut engine, hosted_plugin(5, 1));
    let target = PluginTarget::MasterEffect(EffectId(11));
    let (result, outs) = engine.remove_hosted(None, vec![(target, Some(2))], None);
    assert_eq!(result, HostedRemovalResult::StaleTarget);
    assert!(outs.is_empty());
    assert_eq!(engine.plugin_state().get_master_effects().len(), 1);
    let (result, outs) = engine.remove_hosted(
        None,
        vec![(target, Some(1))],
        Some(HostedTrackGraph { tracks: vec![TrackId(1), TrackId(4)], routing: vec![] }),
    );
    assert_eq!(result, HostedRemovalResult::Removed);
    assert_eq!(outs.len(), 3);
    assert_eq!(outs[0].retired, vec![hosted_plugin(5, 1)]);
    assert_eq!(outs[0].telemetry, Some(TelemetryChange::Removed(target)));
    assert!(engine.plugin_state().get_master_effects().is_empty());
    assert_eq!(
        engine.routing_order(),
        &vec![RoutingNode::Track(TrackId(1)), RoutingNode::Track(TrackId(4)), RoutingNode::Master]
    );
}

#[test]
fn hosted_reconfiguration_swaps_in_the_prepared_processor() {
    let mut engine = EngineCore::new(vec![TrackId(1)]);
    install_master_effect(&mut engine, hosted_plugin(5, 1));
    let target = PluginTarget::MasterEffect(EffectId(11));
    let outs = engine.reconfigure_hosted(vec![(target, hosted_plugin(6, 2))]);
    assert_eq!(outs.len(), 1);
    assert_eq!(outs[0].retired, vec![hosted_plugin(5, 1)]);
    assert_eq!(engine.plugin_state().plugin(&target), Some(hosted_plugin(6, 2)));
}
