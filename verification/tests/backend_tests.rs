use std::time::Duration;
use karbeat_core::{
    backend_error_response, forced_buffer_size, restart_plan, BackendErrorResponse, RestartReason,
    callback_buffer_frames, choose_buffer_size, complete_output_frames, engine_channel_for,
    initial_retry_delay, max_retry_delay, next_retry_delay, output_frame_layout,
    output_ring_capacity, output_sample_format_priority, prefill_block_count,
    select_output_config, fallback_range_is_empty, target_sample_rate, BufferSize, SampleFormat, SupportedBufferSize,
    SupportedStreamConfigRange, UnderrunCounter,
};

fn supported_config(
    channels: u16,
    sample_format: SampleFormat,
    min_sample_rate: u32,
    max_sample_rate: u32,
) -> SupportedStreamConfigRange {
    SupportedStreamConfigRange {
        channels,
        min_sample_rate,
        max_sample_rate,
        buffer_size: SupportedBufferSize::Unknown,
        sample_format,
    }
}

#[test]
fn stream_retry_delay_is_capped() {
    let mut delay = initial_retry_delay();

    delay = next_retry_delay(delay);
    assert_eq!(delay.as_secs(), 4);
    delay = next_retry_delay(delay);
    assert_eq!(delay.as_secs(), 8);
    delay = next_retry_delay(delay);
    assert_eq!(delay, max_retry_delay());
    assert_eq!(next_retry_delay(delay), max_retry_delay());
}

#[test]
fn stream_config_prefers_f32_over_enumeration_order() {
    let configs = [
        supported_config(2, SampleFormat::U8, 44_100, 96_000),
        supported_config(2, SampleFormat::I16, 44_100, 96_000),
        supported_config(2, SampleFormat::F32, 44_100, 96_000),
    ];

    let (selected, used_fallback_rate) = select_output_config(&configs, 48_000, 48_000).unwrap();

    assert_eq!(selected.sample_format, SampleFormat::F32);
    assert_eq!(selected.sample_rate, 48_000);
    assert!(!used_fallback_rate);
}

#[test]
fn stream_config_keeps_high_precision_when_rate_falls_back() {
    let configs = [
        supported_config(2, SampleFormat::I16, 44_100, 96_000),
        supported_config(2, SampleFormat::F32, 44_100, 96_000),
    ];

    let (selected, used_fallback_rate) = select_output_config(&configs, 192_000, 48_000).unwrap();

    assert_eq!(selected.sample_format, SampleFormat::F32);
    assert_eq!(selected.sample_rate, 48_000);
    assert!(used_fallback_rate);
}

#[test]
fn stream_config_prefers_stereo_then_smallest_multichannel_layout() {
    let configs = [
        supported_config(8, SampleFormat::F32, 44_100, 96_000),
        supported_config(4, SampleFormat::F32, 44_100, 96_000),
        supported_config(2, SampleFormat::I16, 44_100, 96_000),
    ];
    let (selected, _) = select_output_config(&configs, 48_000, 48_000).unwrap();
    assert_eq!(selected.channels, 2);

    let multichannel = [
        supported_config(8, SampleFormat::F32, 44_100, 96_000),
        supported_config(4, SampleFormat::I16, 44_100, 96_000),
    ];
    let (selected, _) = select_output_config(&multichannel, 48_000, 48_000).unwrap();
    assert_eq!(selected.channels, 4);
}

#[test]
fn stream_config_refuses_mono_and_unwritable_formats() {
    let configs = [
        supported_config(1, SampleFormat::F32, 44_100, 96_000),
        supported_config(2, SampleFormat::DsdU8, 44_100, 96_000),
    ];
    assert!(select_output_config(&configs, 48_000, 48_000).is_none());
    assert!(select_output_config(&[], 48_000, 48_000).is_none());
}

#[test]
fn stream_config_clamps_native_rate_into_the_supported_range() {
    let configs = [supported_config(2, SampleFormat::F32, 44_100, 48_000)];
    let (selected, used_fallback_rate) = select_output_config(&configs, 96_000, 192_000).unwrap();
    assert_eq!(selected.sample_rate, 48_000);
    assert!(used_fallback_rate);
}

#[test]
fn sample_format_priorities_follow_precision() {
    assert_eq!(output_sample_format_priority(SampleFormat::F32), 10);
    assert_eq!(output_sample_format_priority(SampleFormat::F64), 9);
    assert_eq!(output_sample_format_priority(SampleFormat::I16), 5);
    assert_eq!(output_sample_format_priority(SampleFormat::DsdU32), 0);
}

#[test]
fn buffer_size_follows_host_and_supported_range() {
    let range = SupportedBufferSize::Range { min: 64, max: 512 };
    assert_eq!(choose_buffer_size(true, range, Some(256)), BufferSize::Default);
    assert_eq!(choose_buffer_size(false, range, Some(256)), BufferSize::Fixed(256));
    assert_eq!(choose_buffer_size(false, range, None), BufferSize::Fixed(512));
    assert_eq!(choose_buffer_size(false, range, Some(16)), BufferSize::Fixed(64));
    assert_eq!(choose_buffer_size(false, SupportedBufferSize::Unknown, Some(256)), BufferSize::Default);
    assert_eq!(callback_buffer_frames(BufferSize::Fixed(128), Some(256)), 128);
}

#[test]
fn target_rate_prefers_the_request() {
    assert_eq!(target_sample_rate(Some(44_100), 48_000), 44_100);
    assert_eq!(target_sample_rate(None, 48_000), 48_000);
}

#[test]
fn ring_capacity_and_prefill_are_consistent() {
    let capacity = output_ring_capacity(512);
    assert_eq!(capacity, 4096);
    assert_eq!(output_ring_capacity(1000), 8192);
    assert_eq!(output_ring_capacity(16), 4096);
    assert_eq!(prefill_block_count(capacity, 512), 4);
    assert_eq!(prefill_block_count(4096, 4096), 1);
}

/// Fills a device callback buffer the way the output callback does, from the
/// library's layout: each whole frame takes the next engine frame (silence
/// when none is queued), and a trailing partial frame stays silent without
/// taking one.
fn fill_output(data: &mut [f32], device_channels: usize, queue: &mut std::collections::VecDeque<[f32; 2]>) {
    let (frames, _tail) = output_frame_layout(data.len(), device_channels);
    for sample in data.iter_mut() {
        *sample = 0.0;
    }
    for f in 0..frames {
        let engine_frame = queue.pop_front().unwrap_or([0.0, 0.0]);
        for c in 0..device_channels {
            if let Some(source) = engine_channel_for(c) {
                data[f * device_channels + c] = engine_frame[source];
            }
        }
    }
}

// The samples themselves are moved by the host's output callback; here the
// library's layout decides how many engine frames a callback takes and where
// their samples go.
#[test]
fn malformed_callback_tail_does_not_shift_stereo_frames() {
    let mut queue = std::collections::VecDeque::from(vec![[0.25, -0.25], [0.5, -0.5]]);

    let mut malformed_output = [1.0_f32; 1];
    fill_output(&mut malformed_output, 2, &mut queue);
    assert_eq!(malformed_output, [0.0]);
    assert_eq!(output_frame_layout(1, 2), (0, 1));

    let mut aligned_output = [0.0_f32; 4];
    fill_output(&mut aligned_output, 2, &mut queue);
    assert_eq!(aligned_output, [0.25, -0.25, 0.5, -0.5]);
}

#[test]
fn device_adapter_writes_stereo_to_first_two_channels_and_silences_the_rest() {
    assert_eq!(output_frame_layout(6, 6), (1, 0));
    let sources: Vec<Option<usize>> = (0..6).map(engine_channel_for).collect();
    assert_eq!(sources, vec![Some(0), Some(1), None, None, None, None]);
}

#[test]
fn engine_output_is_queued_as_complete_frames() {
    assert_eq!(complete_output_frames(4), Some(2));
    assert_eq!(complete_output_frames(1), None);
}

#[test]
fn underrun_counter_counts_both_channels_and_wraps() {
    let mut counter = UnderrunCounter::new();
    assert_eq!(counter.output_underrun_samples(), 0);
    counter.record_underrun_frame();
    counter.record_underrun_frame();
    assert_eq!(counter.output_underrun_samples(), 4);
}

#[test]
fn only_an_empty_fallback_range_blocks_the_selection() {
    // An empty range that is never clamped into does not matter.
    let configs = [
        supported_config(2, SampleFormat::F32, 44_100, 48_000),
        supported_config(2, SampleFormat::I16, 96_000, 44_100),
    ];
    assert!(!fallback_range_is_empty(&configs, 48_000));
    assert_eq!(select_output_config(&configs, 48_000, 48_000).unwrap().0.sample_rate, 48_000);
    // Falling back to the F32 configuration would clamp into an empty range.
    let configs = [supported_config(2, SampleFormat::F32, 96_000, 44_100)];
    assert!(fallback_range_is_empty(&configs, 192_000));
    assert!(!fallback_range_is_empty(&[], 48_000));
}

#[test]
fn early_stream_failures_back_off_and_other_restarts_reset() {
    let plan = restart_plan(RestartReason::StreamError, Duration::from_secs(3), Duration::from_secs(4));
    assert_eq!(plan.wait, Duration::from_secs(4));
    assert_eq!(plan.next_delay, Duration::from_secs(8));
    let plan = restart_plan(RestartReason::StreamError, Duration::from_secs(30), Duration::from_secs(8));
    assert_eq!(plan.wait, Duration::from_millis(500));
    assert_eq!(plan.next_delay, Duration::from_secs(2));
    let plan = restart_plan(RestartReason::DefaultDeviceChanged, Duration::from_secs(1), Duration::from_secs(8));
    assert_eq!(plan.wait, Duration::from_millis(500));
    assert_eq!(plan.next_delay, Duration::from_secs(2));
}

#[test]
fn forced_buffer_sizes_are_read_from_host_errors() {
    assert_eq!(forced_buffer_size("jack: buffer size changed to: 256 frames"), Some(256));
    assert_eq!(forced_buffer_size("buffer size changed to:\t1024"), Some(1024));
    assert_eq!(forced_buffer_size("buffer size changed to: unknown"), None);
    assert_eq!(forced_buffer_size("buffer size changed to: 99999999999"), None);
    assert_eq!(forced_buffer_size("stream stopped"), None);
}

#[test]
fn backend_errors_are_ignored_adopted_or_restarted() {
    assert_eq!(backend_error_response("buffer underrun", None), BackendErrorResponse::Ignore);
    assert_eq!(backend_error_response("xrun: overrun detected", Some(512)), BackendErrorResponse::Ignore);
    assert_eq!(
        backend_error_response("buffer size changed to: 256", Some(512)),
        BackendErrorResponse::RestartWithBufferSize(256)
    );
    assert_eq!(backend_error_response("buffer size changed to: 256", Some(256)), BackendErrorResponse::Ignore);
    assert_eq!(backend_error_response("device removed", Some(256)), BackendErrorResponse::Restart);
}
