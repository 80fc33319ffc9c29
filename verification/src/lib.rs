//! Verified core of the Karbeat audio engine: the parts of transport,
//! routing, voice bookkeeping, device configuration and export that decide
//! what the engine does, stated as contracts over plain values.

mod writer;

pub use writer::{
    wav_layout, AudioFormat, BitDepth, BitDepthError, BitPerSample, BitPerSampleError,
    BitPerSecond, BitPerSecondError, WavLayout, WavSampleEncoding,
};

mod ids;
mod routing;

pub use ids::{BusId, EffectId, GeneratorId, NoteId, PatternId, TrackId};
pub use routing::{compute_routing_order, RoutingConnection, RoutingNode, SidechainRoute};

mod latency;

pub use latency::{
    compute_latency_compensation, max_of, node_internal_latency, project_tail_length,
    LatencyCompensation,
};

mod transport;

pub use transport::{
    PatternPlaybackState, PlaybackMode, SongEndAction, SongPlaybackState, TransportCommand,
    TransportEffects, TransportState,
};

mod voices;
mod small_lists;
pub use small_lists::{EventList, NoteList};

pub use voices::{
    note_event_id, sort_events_by_offset, update_playing_keys, update_playing_notes, MidiEvent,
    MidiMessage, GeneratorVoice, ensure_generator_voice, find_voice, queue_generator_event,
    retain_active_voices, schedule_clip_notes, schedule_pattern_notes, stop_all_active_generators,
    drop_voices_of, retrack_voices,
    trigger_live_note, NoteSpan,
    NoteExpressionType, PlayingNote,
};

mod event;

pub use event::{
    AutomationTarget, EffectAutomationTarget, EffectTarget, MasterAutomationTarget,
    MixerChannelParamTarget, MixerChannelTarget, MixerParamKind, NotAPluginTarget, PluginTarget,
    TrackAutomationTarget, mixer_param_automation_target,
};

mod backend;

pub use backend::{
    callback_buffer_frames, choose_buffer_size, complete_output_frames, engine_channel_for,
    initial_retry_delay, max_retry_delay, output_frame_layout, UnderrunCounter, OUTPUT_CHANNELS,
    next_retry_delay, output_ring_capacity, stable_stream_duration,
    output_sample_format_priority, prefill_block_count, select_output_config, fallback_range_is_empty, target_sample_rate,
    requested_output_from_config, ActualDeviceStreamConfig, AudioDeviceConfig, AudioDeviceInfo,
    AudioRuntimeSettings, BufferSize, DeviceStreamStatus, OutputDeviceSelection,
    OutputHostSelection, RequestedDspConfig, RequestedOutputConfig, SampleFormat,
    SupportedBufferSize, SupportedStreamConfig,
    SupportedStreamConfigRange, backend_error_response, forced_buffer_size, restart_plan,
    BackendErrorResponse, RestartPlan, RestartReason,
};

mod plugin_state;

pub use plugin_state::{
    AudioEffectInstance, AudioGeneratorInstance, AudioPluginState, GeneratorKeyTable, PluginRef,
};

mod hosted;

pub use hosted::{
    apply_hosted_install, check_hosted_install, check_hosted_reconfiguration, check_hosted_removal,
    install_configuration_accepted, EngineProcessing, HostedInstallRequest, HostedTrackGraph, HostedReplacementFacts,
    HostedInstallResult, HostedRemovalResult, ProcessingConfigFacts, MIN_HOSTED_BLOCK,
};

mod config;

pub use config::{AudioEngineConfig, MAX_ENGINE_CHANNELS};

mod exporter;

pub use exporter::{
    first_missing_external, throttle_limit, AudioExportError, ExportPhase, ExportPlan, ExportStep,
    TailHandling, EXPORT_BLOCK_SIZE, EXPORT_PROGRESS_PER_SECOND,
};

mod missing_plugin;

pub use missing_plugin::{MissingPlugin, PluginCategory};

mod project_state;

pub use project_state::{CaptureAlreadyPending, FeedbackRoute, ProjectStateFeedback};

mod catalog;

pub use catalog::{
    identities_match, ExternalPluginEntry, PluginCatalog, PluginDescriptor, PluginFormat,
    PluginIdentity, PluginInfo, PluginKind,
};

mod engine_core;

pub use engine_core::{CommandOutcome, CoreCommand, EngineCore, TelemetryChange};
