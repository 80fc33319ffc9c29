use karbeat_core::{
    apply_hosted_install, check_hosted_install, check_hosted_reconfiguration, check_hosted_removal,
    AudioEffectInstance, AudioGeneratorInstance, AudioPluginState, BusId, EffectId,
    EngineProcessing, GeneratorId, HostedInstallRequest, HostedInstallResult,
    HostedRemovalResult, HostedReplacementFacts, HostedTrackGraph, PluginRef, PluginTarget, ProcessingConfigFacts,
    TrackId,
};

fn engine() -> EngineProcessing {
    EngineProcessing { sample_rate: 48_000, num_channels: 2, buffer_size: 512, offline: false }
}

fn config(rate: f64) -> ProcessingConfigFacts {
    let whole = rate.fract() == 0.0 && rate >= 0.0 && rate <= u32::MAX as f64;
    ProcessingConfigFacts {
        valid: true,
        sample_rate: if whole { Some(rate as u32) } else { None },
        main_output_channels: 2,
        max_block_size: 65_536,
        offline: false,
    }
}

fn master_request() -> HostedInstallRequest {
    HostedInstallRequest {
        target: PluginTarget::MasterEffect(EffectId(11)),
        generator_track: None,
        registry_id: 123,
        replace_missing: false,
        graph: None,
    }
}

fn hosted(handle: u64, instance: u64) -> PluginRef {
    PluginRef { handle, hosted_instance: Some(instance), missing: false }
}

#[test]
fn installation_is_acknowledged_and_removal_returns_the_endpoint() {
    let mut state = AudioPluginState::new();
    let request = master_request();
    let checked = check_hosted_install(&request, &config(48_000.0), &engine(), &state, &[], &[]);
    assert_eq!(checked, Ok(()));
    assert_eq!(apply_hosted_install(&mut state, &request, hosted(1, 1)), None);
    assert_eq!(state.get_master_effects().len(), 1);
    let removed = state.remove_effect(karbeat_core::EffectTarget::Master, EffectId(11));
    assert_eq!(removed.map(|e| e.plugin), Some(hosted(1, 1)));
    assert!(state.get_master_effects().is_empty());
}

#[test]
fn cancellation_and_changed_configuration_return_uninstalled_endpoints() {
    let state = AudioPluginState::new();
    let checked = check_hosted_install(&master_request(), &config(44_100.0), &engine(), &state, &[], &[]);
    assert_eq!(checked, Err(HostedInstallResult::InvalidConfiguration));
    assert!(state.get_master_effects().is_empty());
}

#[test]
fn duplicate_install_keeps_the_existing_instance_and_shutdown_retires_it() {
    let mut state = AudioPluginState::new();
    let request = master_request();
    assert_eq!(check_hosted_install(&request, &config(48_000.0), &engine(), &state, &[], &[]), Ok(()));
    apply_hosted_install(&mut state, &request, hosted(1, 1));
    assert_eq!(
        check_hosted_install(&request, &config(48_000.0), &engine(), &state, &[], &[]),
        Err(HostedInstallResult::OccupiedTarget)
    );
    assert_eq!(state.get_master_effects().len(), 1);
    let retired = state.clear_effects();
    assert_eq!(retired, vec![hosted(1, 1)]);
}

#[test]
fn removal_rejects_stale_handles_and_cancellation_without_partial_changes() {
    let mut state = AudioPluginState::new();
    apply_hosted_install(&mut state, &master_request(), hosted(1, 1));
    let target = PluginTarget::MasterEffect(EffectId(11));
    assert_eq!(check_hosted_removal(&state, None, &[], &[(target, Some(99))]), HostedRemovalResult::StaleTarget);
    assert_eq!(state.get_master_effects().len(), 1);
    assert_eq!(check_hosted_removal(&state, None, &[], &[(target, Some(1))]), HostedRemovalResult::Removed);
    assert_eq!(state.remove_plugin(target), Some(hosted(1, 1)));
    assert!(state.get_master_effects().is_empty());
}

#[test]
fn removal_of_a_vanished_bus_is_stale() {
    let state = AudioPluginState::new();
    assert_eq!(check_hosted_removal(&state, Some(BusId(3)), &[BusId(1)], &[]), HostedRemovalResult::StaleTarget);
    assert_eq!(check_hosted_removal(&state, Some(BusId(1)), &[BusId(1)], &[]), HostedRemovalResult::Removed);
}

#[test]
fn hosted_reconfiguration_swaps_endpoint_and_updates_engine_rate() {
    let mut state = AudioPluginState::new();
    apply_hosted_install(&mut state, &master_request(), hosted(1, 1));
    let target = PluginTarget::MasterEffect(EffectId(11));
    let replacement = HostedReplacementFacts { target, expected: 1, config: config(96_000.0), has_endpoint: true };
    assert_eq!(check_hosted_reconfiguration(&state, 96_000, 1024, 2, &[replacement]), Ok(()));
    assert_eq!(state.swap_plugin(target, hosted(2, 1)), Some(hosted(1, 1)));
    assert_eq!(state.plugin(&target), Some(hosted(2, 1)));
}

#[test]
fn stale_hosted_reconfiguration_preserves_endpoint_and_engine_rate() {
    let mut state = AudioPluginState::new();
    apply_hosted_install(&mut state, &master_request(), hosted(1, 1));
    let target = PluginTarget::MasterEffect(EffectId(11));
    let stale = HostedReplacementFacts { target, expected: 7, config: config(96_000.0), has_endpoint: true };
    assert_eq!(
        check_hosted_reconfiguration(&state, 96_000, 1024, 2, &[stale]),
        Err(HostedInstallResult::MissingTarget)
    );
    let wrong_rate = HostedReplacementFacts { target, expected: 1, config: config(48_000.0), has_endpoint: true };
    assert_eq!(
        check_hosted_reconfiguration(&state, 96_000, 1024, 2, &[wrong_rate]),
        Err(HostedInstallResult::InvalidConfiguration)
    );
    assert_eq!(check_hosted_reconfiguration(&state, 0, 1024, 2, &[]), Err(HostedInstallResult::InvalidConfiguration));
    assert_eq!(state.plugin(&target), Some(hosted(1, 1)));
}

#[test]
fn generator_install_needs_a_known_track() {
    let mut state = AudioPluginState::new();
    let mut request = HostedInstallRequest {
        target: PluginTarget::Generator(GeneratorId(4)),
        generator_track: None,
        registry_id: 5,
        replace_missing: false,
        graph: None,
    };
    assert_eq!(
        check_hosted_install(&request, &config(48_000.0), &engine(), &state, &[TrackId(1)], &[]),
        Err(HostedInstallResult::MissingTarget)
    );
    request.generator_track = Some(TrackId(2));
    assert_eq!(
        check_hosted_install(&request, &config(48_000.0), &engine(), &state, &[TrackId(1)], &[]),
        Err(HostedInstallResult::MissingTarget)
    );
    request.graph = Some(HostedTrackGraph { tracks: vec![TrackId(2)], routing: vec![] });
    assert_eq!(check_hosted_install(&request, &config(48_000.0), &engine(), &state, &[TrackId(1)], &[]), Ok(()));
    assert_eq!(apply_hosted_install(&mut state, &request, hosted(8, 3)), None);
    assert_eq!(
        state.get_generator(GeneratorId(4)).copied(),
        Some(AudioGeneratorInstance { id: GeneratorId(4), track_id: TrackId(2), registry_id: 5, plugin: hosted(8, 3) })
    );
}

#[test]
fn replacing_a_placeholder_needs_a_placeholder() {
    let mut state = AudioPluginState::new();
    let placeholder = PluginRef { handle: 1, hosted_instance: None, missing: true };
    state.add_bus_effect(2, AudioEffectInstance { id: EffectId(6), registry_id: 4, plugin: placeholder });
    let request = HostedInstallRequest {
        target: PluginTarget::BusEffect(BusId(2), EffectId(6)),
        generator_track: None,
        registry_id: 4,
        replace_missing: true,
        graph: None,
    };
    assert_eq!(
        check_hosted_install(&request, &config(48_000.0), &engine(), &state, &[], &[BusId(1)]),
        Err(HostedInstallResult::MissingTarget)
    );
    assert_eq!(check_hosted_install(&request, &config(48_000.0), &engine(), &state, &[], &[BusId(2)]), Ok(()));
    assert_eq!(apply_hosted_install(&mut state, &request, hosted(2, 9)), Some(placeholder));
    assert_eq!(state.plugin(&request.target), Some(hosted(2, 9)));
    let again = check_hosted_install(&request, &config(48_000.0), &engine(), &state, &[], &[BusId(2)]);
    assert_eq!(again, Err(HostedInstallResult::MissingTarget));
}

#[test]
fn small_blocks_and_offline_mismatch_are_invalid() {
    let state = AudioPluginState::new();
    let mut small = config(48_000.0);
    small.max_block_size = 256;
    assert_eq!(
        check_hosted_install(&master_request(), &small, &engine(), &state, &[], &[]),
        Err(HostedInstallResult::InvalidConfiguration)
    );
    let mut offline = config(48_000.0);
    offline.offline = true;
    assert_eq!(
        check_hosted_install(&master_request(), &offline, &engine(), &state, &[], &[]),
        Err(HostedInstallResult::InvalidConfiguration)
    );
}
