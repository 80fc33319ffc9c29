use karbeat_core::{
    mixer_param_automation_target, MixerChannelTarget, MixerParamKind,
    wav_layout, AudioFormat, WavLayout, WavSampleEncoding,
    compute_latency_compensation, compute_routing_order, max_of, node_internal_latency,
    project_tail_length, AudioEngineConfig, AutomationTarget, BitDepth, BitPerSample,
    BitPerSecond, BusId, EffectAutomationTarget, EffectId, GeneratorId, MasterAutomationTarget,
    MissingPlugin, MixerChannelParamTarget, PluginCategory, PluginTarget, RoutingConnection,
    RoutingNode, TrackAutomationTarget, TrackId, MAX_ENGINE_CHANNELS,
};

fn bus_edge(from: u32, to: u32) -> RoutingConnection {
    RoutingConnection { source: RoutingNode::Bus(BusId(from)), destination: RoutingNode::Bus(BusId(to)) }
}

#[test]
fn routing_order_puts_tracks_then_fed_buses_then_master() {
    let order = compute_routing_order(
        &[TrackId(1), TrackId(2)],
        &[BusId(10), BusId(20), BusId(30)],
        &[bus_edge(30, 10), bus_edge(10, 20)],
    );
    assert_eq!(
        order,
        vec![
            RoutingNode::Track(TrackId(1)),
            RoutingNode::Track(TrackId(2)),
            RoutingNode::Bus(BusId(30)),
            RoutingNode::Bus(BusId(10)),
            RoutingNode::Bus(BusId(20)),
            RoutingNode::Master,
        ]
    );
}

#[test]
fn routing_order_leaves_out_buses_on_a_feedback_cycle() {
    let order = compute_routing_order(&[], &[BusId(1), BusId(2), BusId(3)], &[bus_edge(1, 2), bus_edge(2, 1)]);
    assert_eq!(order, vec![RoutingNode::Bus(BusId(3)), RoutingNode::Master]);
}

#[test]
fn latency_compensation_aligns_paths_to_the_longest() {
    let order = [RoutingNode::Track(TrackId(1)), RoutingNode::Track(TrackId(2)), RoutingNode::Master];
    let internal = [(RoutingNode::Track(TrackId(1)), 100), (RoutingNode::Track(TrackId(2)), 30)];
    let routing = [
        RoutingConnection { source: RoutingNode::Track(TrackId(1)), destination: RoutingNode::Master },
        RoutingConnection { source: RoutingNode::Track(TrackId(2)), destination: RoutingNode::Master },
    ];
    let plan = compute_latency_compensation(&order, &[TrackId(1), TrackId(2)], &routing, &internal, 5).unwrap();
    assert_eq!(plan.maximum_latency, 105);
    let delay = |node: RoutingNode| plan.compensation.iter().find(|(n, _)| *n == node).map(|(_, d)| *d);
    assert_eq!(delay(RoutingNode::Track(TrackId(1))), Some(0));
    assert_eq!(delay(RoutingNode::Track(TrackId(2))), Some(70));
    assert_eq!(delay(RoutingNode::Master), Some(100));
}

#[test]
fn latency_overflow_is_refused() {
    let order = [RoutingNode::Track(TrackId(1)), RoutingNode::Master];
    let internal = [(RoutingNode::Track(TrackId(1)), u32::MAX)];
    let routing = [RoutingConnection { source: RoutingNode::Track(TrackId(1)), destination: RoutingNode::Master }];
    assert!(compute_latency_compensation(&order, &[TrackId(1)], &routing, &internal, 1).is_none());
    assert!(compute_latency_compensation(&order, &[TrackId(1)], &[], &internal, 1).is_some());
}

#[test]
fn node_latency_sums_generator_and_effects() {
    assert_eq!(node_internal_latency(Some(10), &[5, 7]), Some(22));
    assert_eq!(node_internal_latency(None, &[]), Some(0));
    assert_eq!(node_internal_latency(Some(u32::MAX), &[1]), None);
    assert_eq!(max_of(&[3, 9, 4]), 9);
    assert_eq!(max_of(&[]), 0);
}

#[test]
fn project_tail_is_capped_at_twenty_seconds() {
    assert_eq!(project_tail_length(&[1_000, 500], 48_000, &[64]), 1_064);
    assert_eq!(project_tail_length(&[10_000_000], 48_000, &[0]), 960_000);
}

#[test]
fn engine_config_clamps_channels() {
    assert_eq!(AudioEngineConfig::new(48_000, 0).num_channels, 1);
    assert_eq!(AudioEngineConfig::new(48_000, 2).num_channels, 2);
    assert_eq!(AudioEngineConfig::new(48_000, 64).num_channels, MAX_ENGINE_CHANNELS);
    assert_eq!(AudioEngineConfig::new(44_100, 2).sample_rate, 44_100);
}

#[test]
fn bit_depths_parse_only_supported_values() {
    assert_eq!(BitPerSample::B24.as_u16(), 24);
    assert_eq!(BitPerSecond::Kbps320.as_kbps(), 320);
    assert!(matches!(BitDepth::try_new_bits_per_sample(16), Ok(BitDepth::BitPerSample(BitPerSample::B16))));
    assert!(BitDepth::try_new_bits_per_sample(12).is_err());
    assert!(matches!(BitDepth::try_new_bits_per_secs(192), Ok(BitDepth::BitPerSecond(BitPerSecond::Kbps192))));
    assert!(BitDepth::try_new_bits_per_secs(100).is_err());
}

#[test]
fn plugin_targets_round_trip_through_automation_targets() {
    let targets = [
        PluginTarget::Generator(GeneratorId(1)),
        PluginTarget::TrackEffect(TrackId(2), EffectId(3)),
        PluginTarget::BusEffect(BusId(4), EffectId(5)),
        PluginTarget::MasterEffect(EffectId(6)),
    ];
    for target in targets {
        let automation = target.to_automation_target(9);
        assert_eq!(PluginTarget::try_from_automation_target(&automation), Ok(target));
    }
    assert_eq!(
        PluginTarget::TrackEffect(TrackId(2), EffectId(3)).to_automation_target(9),
        AutomationTarget::Track {
            track_id: TrackId(2),
            track_target: TrackAutomationTarget::MixerChannel(MixerChannelParamTarget::Plugin {
                effect_id: EffectId(3),
                target: EffectAutomationTarget::PluginParam { param_id: 9 },
            }),
        }
    );
    let volume = AutomationTarget::Master(MasterAutomationTarget::MixerChannel(MixerChannelParamTarget::Volume));
    assert!(PluginTarget::try_from_automation_target(&volume).is_err());
}

#[test]
fn missing_instrument_silences_and_effect_copies_only_available_input_channels() {
    for instrument in [true, false] {
        let plugin = if instrument { MissingPlugin::instrument() } else { MissingPlugin::effect() };
        // One input bus with one channel, one output bus with two channels.
        let input_channels = [1usize];
        let left = plugin.copies_input(0, 0, &input_channels);
        let right = plugin.copies_input(0, 1, &input_channels);
        assert_eq!(left, !instrument);
        assert!(!right);
        assert_eq!(plugin.copy_frames(3, 3), 3);
        assert_eq!(plugin.output_is_silent(0, &[false]), instrument);
        assert_eq!(plugin.is_instrument(), instrument);
        assert_eq!(
            plugin.category(),
            if instrument { PluginCategory::Instrument } else { PluginCategory::Effect }
        );
        assert_eq!(plugin.name(), "Unavailable plugin");
    }
    assert!(MissingPlugin::effect().output_is_silent(1, &[false]));
}

#[test]
fn wav_layout_uses_floats_only_for_32_bit_samples() {
    let float = AudioFormat { sample_rate: 44_100, channels: 2, bit_depth: BitDepth::BitPerSample(BitPerSample::B32) };
    assert_eq!(
        wav_layout(float),
        Some(WavLayout { channels: 2, sample_rate: 44_100, bits_per_sample: 32, encoding: WavSampleEncoding::Float })
    );
    let int = AudioFormat { sample_rate: 48_000, channels: 1, bit_depth: BitDepth::BitPerSample(BitPerSample::B16) };
    assert_eq!(wav_layout(int).map(|l| (l.bits_per_sample, l.encoding)), Some((16, WavSampleEncoding::Int)));
    let mp3 = AudioFormat { sample_rate: 48_000, channels: 2, bit_depth: BitDepth::BitPerSecond(BitPerSecond::Kbps320) };
    assert_eq!(wav_layout(mp3), None);
}

#[test]
fn mixer_volume_and_pan_are_automatable() {
    assert_eq!(
        mixer_param_automation_target(MixerChannelTarget::Bus(BusId(2)), MixerParamKind::Volume),
        Some(AutomationTarget::Bus { bus_id: BusId(2), mix_target: MixerChannelParamTarget::Volume })
    );
    assert_eq!(mixer_param_automation_target(MixerChannelTarget::Track(TrackId(1)), MixerParamKind::Mute), None);
    assert_eq!(mixer_param_automation_target(MixerChannelTarget::Master, MixerParamKind::Solo), None);
    let pan = mixer_param_automation_target(MixerChannelTarget::Master, MixerParamKind::Pan).unwrap();
    assert_eq!(pan.mixer_channel(), Some((MixerChannelTarget::Master, MixerChannelParamTarget::Pan)));
    let generator = PluginTarget::Generator(GeneratorId(1)).to_automation_target(3);
    assert_eq!(generator.mixer_channel(), None);
}

#[test]
fn independent_buses_keep_first_seen_order_whatever_the_track_routing() {
    let plain = compute_routing_order(&[TrackId(1)], &[BusId(3), BusId(2), BusId(3)], &[]);
    let fed = compute_routing_order(
        &[TrackId(1)],
        &[BusId(3), BusId(2), BusId(3)],
        &[
            RoutingConnection { source: RoutingNode::Track(TrackId(1)), destination: RoutingNode::Bus(BusId(2)) },
            RoutingConnection { source: RoutingNode::Bus(BusId(3)), destination: RoutingNode::Master },
        ],
    );
    let expected = vec![
        RoutingNode::Track(TrackId(1)),
        RoutingNode::Bus(BusId(3)),
        RoutingNode::Bus(BusId(2)),
        RoutingNode::Master,
    ];
    assert_eq!(plain, expected);
    assert_eq!(fed, expected);
}
