use std::time::Duration;
use vstd::prelude::*;

verus! {

// ---------------------------------------------------------------------------
// Stream retry policy.
// ---------------------------------------------------------------------------

/// Total length of a `Duration` in nanoseconds, as `Duration::as_nanos`
/// returns it.
pub uninterp spec fn duration_nanos(d: Duration) -> nat;

/// Nanoseconds in `Duration::MAX` (`u64::MAX` seconds and 999 999 999 ns).
pub open spec fn max_duration_nanos() -> nat {
    18446744073709551615nat * 1_000_000_000nat + 999_999_999nat
}

/// `Duration::as_nanos`: the total number of nanoseconds in `d`.
#[verifier::external_body]
fn duration_as_nanos(d: Duration) -> (r: u128)
    ensures
        r as nat == duration_nanos(d),
{
    d.as_nanos()
}

/// `Duration::from_secs`: a duration of `secs` whole seconds.
#[verifier::external_body]
fn duration_from_secs(secs: u64) -> (r: Duration)
    ensures
        duration_nanos(r) == secs as nat * 1_000_000_000,
{
    Duration::from_secs(secs)
}

/// `Duration::saturating_mul`: `d * k`, or `Duration::MAX` when that overflows.
#[verifier::external_body]
fn duration_saturating_mul(d: Duration, k: u32) -> (r: Duration)
    ensures
        duration_nanos(r) == if duration_nanos(d) * (k as nat) <= max_duration_nanos() {
            duration_nanos(d) * (k as nat)
        } else {
            max_duration_nanos()
        },
{
    d.saturating_mul(k)
}

/// `Duration::from_millis`: a duration of `ms` milliseconds.
#[verifier::external_body]
fn duration_from_millis(ms: u64) -> (r: Duration)
    ensures
        duration_nanos(r) == ms as nat * 1_000_000,
{
    Duration::from_millis(ms)
}

/// Delay before the first attempt to rebuild a failed stream (2 s).
pub fn initial_retry_delay() -> (r: Duration)
    ensures
        duration_nanos(r) == 2_000_000_000,
{
    duration_from_secs(2)
}

/// Longest delay between attempts to rebuild a failed stream (10 s).
pub fn max_retry_delay() -> (r: Duration)
    ensures
        duration_nanos(r) == 10_000_000_000,
{
    duration_from_secs(10)
}

/// How long a stream must run before its failure counts as a new episode
/// rather than a failed restart (10 s).
pub fn stable_stream_duration() -> (r: Duration)
    ensures
        duration_nanos(r) == 10_000_000_000,
{
    duration_from_secs(10)
}

/// The next delay between stream rebuild attempts: double the current
/// delay, capped at [`max_retry_delay`].
pub fn next_retry_delay(delay: Duration) -> (r: Duration)
    ensures
        duration_nanos(r) == if 2 * duration_nanos(delay) < 10_000_000_000 {
            2 * duration_nanos(delay)
        } else {
            10_000_000_000
        },
{
    let doubled = duration_saturating_mul(delay, 2);
    let max = max_retry_delay();
    if duration_as_nanos(doubled) <= duration_as_nanos(max) {
        doubled
    } else {
        max
    }
}

/// Why a running stream was torn down.
#[derive(Clone, Copy, Debug, PartialEq, Eq, Structural)]
pub enum RestartReason {
    /// The stream reported an error (or asked to be rebuilt).
    StreamError,
    /// The requested output configuration changed.
    ConfigurationChanged,
    /// The system's default output device changed.
    DefaultDeviceChanged,
}

/// How long to wait before rebuilding a torn-down stream, and the retry
/// delay to keep for the next failure.
#[derive(Clone, Copy, Debug)]
pub struct RestartPlan {
    pub wait: Duration,
    pub next_delay: Duration,
}

/// Plans the rebuild of a stream that was torn down for `reason` after
/// running for `ran_for`, `delay` being the current retry delay. A stream
/// that failed before it ran [`stable_stream_duration`] waits the current
/// delay and backs off (see [`next_retry_delay`]); any other restart waits
/// half a second and resets the delay to [`initial_retry_delay`].
pub fn restart_plan(reason: RestartReason, ran_for: Duration, delay: Duration) -> (p: RestartPlan)
    ensures
        reason == RestartReason::StreamError && duration_nanos(ran_for) < 10_000_000_000 ==> {
            &&& duration_nanos(p.wait) == duration_nanos(delay)
            &&& duration_nanos(p.next_delay) == if 2 * duration_nanos(delay) < 10_000_000_000 {
                2 * duration_nanos(delay)
            } else {
                10_000_000_000
            }
        },
        !(reason == RestartReason::StreamError && duration_nanos(ran_for) < 10_000_000_000) ==> {
            &&& duration_nanos(p.wait) == 500_000_000
            &&& duration_nanos(p.next_delay) == 2_000_000_000
        },
{
    let failed_early = match reason {
        RestartReason::StreamError => duration_as_nanos(ran_for) < duration_as_nanos(stable_stream_duration()),
        _ => false,
    };
    if failed_early {
        RestartPlan { wait: delay, next_delay: next_retry_delay(delay) }
    } else {
        RestartPlan { wait: duration_from_millis(500), next_delay: initial_retry_delay() }
    }
}

// ---------------------------------------------------------------------------
// Backend stream errors.
// ---------------------------------------------------------------------------

/// `p` occurs in `s` at position `i`.
pub open spec fn occurs_at(s: Seq<char>, p: Seq<char>, i: int) -> bool {
    0 <= i && i + p.len() <= s.len() && s.subrange(i, i + p.len()) == p
}

/// `p` occurs somewhere in `s`.
pub open spec fn has_text(s: Seq<char>, p: Seq<char>) -> bool {
    exists|i: int| occurs_at(s, p, i)
}

/// The first position at which `p` occurs in `s` (meaningful when it does).
pub open spec fn first_occurrence(s: Seq<char>, p: Seq<char>) -> int {
    choose|i: int| occurs_at(s, p, i) && forall|j: int| 0 <= j < i ==> !occurs_at(s, p, j)
}

/// Unicode white space, as `char::is_whitespace` tests it.
pub open spec fn is_white_space(c: char) -> bool {
    let u = c as u32;
    (0x9 <= u && u <= 0xD) || u == 0x20 || u == 0x85 || u == 0xA0 || u == 0x1680 || (0x2000 <= u
        && u <= 0x200A) || u == 0x2028 || u == 0x2029 || u == 0x202F || u == 0x205F || u == 0x3000
}

/// Whether `c` is Unicode white space (as `char::is_whitespace` answers).
fn white_space(c: char) -> (r: bool)
    ensures
        r == is_white_space(c),
{
    let u = c as u32;
    (0x9 <= u && u <= 0xD) || u == 0x20 || u == 0x85 || u == 0xA0 || u == 0x1680 || (0x2000 <= u
        && u <= 0x200A) || u == 0x2028 || u == 0x2029 || u == 0x202F || u == 0x205F || u == 0x3000
}

/// `s` without its leading white space.
pub open spec fn skip_white_space(s: Seq<char>) -> Seq<char>
    decreases s.len(),
{
    if s.len() > 0 && is_white_space(s[0]) {
        skip_white_space(s.drop_first())
    } else {
        s
    }
}

/// The ASCII digits that `s` starts with.
pub open spec fn leading_digits(s: Seq<char>) -> Seq<char>
    decreases s.len(),
{
    if s.len() > 0 && '0' <= s[0] && s[0] <= '9' {
        seq![s[0]] + leading_digits(s.drop_first())
    } else {
        Seq::empty()
    }
}

/// The number that the ASCII digits `d` write in base ten.
pub open spec fn decimal_value(d: Seq<char>) -> nat
    decreases d.len(),
{
    if d.len() == 0 {
        0
    } else {
        decimal_value(d.drop_last()) * 10 + ((d.last() as u32) - ('0' as u32)) as nat
    }
}

/// The text that announces a buffer size the host forced.
pub open spec fn forced_size_marker() -> Seq<char> {
    "buffer size changed to:"@
}

/// The buffer size a host error message forces: the number written right
/// after the first "buffer size changed to:" (past white space), when there
/// is one and it fits a `u32`.
pub open spec fn forced_buffer_size_spec(message: Seq<char>) -> Option<u32> {
    if !has_text(message, forced_size_marker()) {
        None
    } else {
        let digits = leading_digits(skip_white_space(
            message.skip(first_occurrence(message, forced_size_marker()) + forced_size_marker().len()),
        ));
        if digits.len() > 0 && decimal_value(digits) <= u32::MAX {
            Some(decimal_value(digits) as u32)
        } else {
            None
        }
    }
}

/// What the stream does about a backend error.
#[derive(Clone, Copy, Debug, PartialEq, Eq, Structural)]
pub enum BackendErrorResponse {
    /// A glitch (buffer underrun or overrun), or nothing new: keep running.
    Ignore,
    /// The host forced a new buffer size: adopt it and rebuild the stream.
    RestartWithBufferSize(u32),
    /// Rebuild the stream.
    Restart,
}

/// What a backend error whose lower-cased message is `message` asks for,
/// `current` being the configured buffer size.
pub open spec fn backend_error_response_spec(message: Seq<char>, current: Option<u32>) -> BackendErrorResponse {
    if has_text(message, "underrun"@) || has_text(message, "overrun"@) {
        BackendErrorResponse::Ignore
    } else if has_text(message, forced_size_marker()) {
        match forced_buffer_size_spec(message) {
            Some(n) => if current == Some(n) {
                BackendErrorResponse::Ignore
            } else {
                BackendErrorResponse::RestartWithBufferSize(n)
            },
            None => BackendErrorResponse::Ignore,
        }
    } else {
        BackendErrorResponse::Restart
    }
}

/// The first position at which `p` occurs in `s`, if it does.
fn find_text(s: &str, p: &str) -> (r: Option<usize>)
    ensures
        match r {
            Some(i) => occurs_at(s@, p@, i as int) && forall|j: int| 0 <= j < i ==> !occurs_at(s@, p@, j),
            None => !has_text(s@, p@),
        },
{
    let n = s.unicode_len();
    let m = p.unicode_len();
    if m > n {
        proof {
            assert forall|i: int| !occurs_at(s@, p@, i) by {}
        }
        return None;
    }
    let mut i: usize = 0;
    while i <= n - m
        invariant
            n == s@.len(),
            m == p@.len(),
            m <= n,
            i <= n - m + 1,
            forall|j: int| 0 <= j < i ==> !occurs_at(s@, p@, j),
        decreases n - m + 1 - i,
    {
        let mut k: usize = 0;
        let mut same = true;
        while k < m
            invariant
                n == s@.len(),
                m == p@.len(),
                i + m <= n,
                k <= m,
                same == (forall|q: int| 0 <= q < k ==> s@[i + q] == p@[q]),
            decreases m - k,
        {
            if s.get_char(i + k) != p.get_char(k) {
                same = false;
            }
            k = k + 1;
        }
        if same {
            proof {
                assert(s@.subrange(i as int, i + m) =~= p@);
            }
            return Some(i);
        }
        proof {
            assert(!occurs_at(s@, p@, i as int)) by {
                if occurs_at(s@, p@, i as int) {
                    assert forall|q: int| 0 <= q < m implies s@[i + q] == p@[q] by {
                        assert(s@.subrange(i as int, i + m)[q] == p@[q]);
                    }
                }
            }
        }
        i = i + 1;
    }
    proof {
        assert forall|j: int| !occurs_at(s@, p@, j) by {
            if 0 <= j && j + m <= n {
                assert(j < i);
            }
        }
    }
    None
}

proof fn lemma_first_occurrence(s: Seq<char>, p: Seq<char>, i: int)
    requires
        occurs_at(s, p, i),
        forall|j: int| 0 <= j < i ==> !occurs_at(s, p, j),
    ensures
        has_text(s, p),
        first_occurrence(s, p) == i,
{
    let f = first_occurrence(s, p);
    assert(occurs_at(s, p, f) && forall|j: int| 0 <= j < f ==> !occurs_at(s, p, j));
    if f < i {
        assert(!occurs_at(s, p, f));
    }
    if i < f {
        assert(!occurs_at(s, p, i));
    }
}

proof fn lemma_skip_white_space(s: Seq<char>, k: int)
    requires
        0 <= k <= s.len(),
        forall|q: int| 0 <= q < k ==> is_white_space(#[trigger] s[q]),
    ensures
        skip_white_space(s) == skip_white_space(s.skip(k)),
    decreases k,
{
    if k > 0 {
        assert(s.skip(1) =~= s.drop_first());
        assert forall|q: int| 0 <= q < k - 1 implies is_white_space(#[trigger] s.drop_first()[q]) by {
            assert(s.drop_first()[q] == s[q + 1]);
        }
        lemma_skip_white_space(s.drop_first(), k - 1);
        assert(s.drop_first().skip(k - 1) =~= s.skip(k));
    } else {
        assert(s.skip(0) =~= s);
    }
}

proof fn lemma_leading_digits(s: Seq<char>, k: int)
    requires
        0 <= k <= s.len(),
        forall|q: int| 0 <= q < k ==> '0' <= #[trigger] s[q] && s[q] <= '9',
    ensures
        leading_digits(s) == s.subrange(0, k) + leading_digits(s.skip(k)),
    decreases k,
{
    if k > 0 {
        assert forall|q: int| 0 <= q < k - 1 implies '0' <= #[trigger] s.drop_first()[q] && s.drop_first()[q] <= '9' by {
            assert(s.drop_first()[q] == s[q + 1]);
        }
        lemma_leading_digits(s.drop_first(), k - 1);
        assert(s.drop_first().skip(k - 1) =~= s.skip(k));
        assert(s.subrange(0, k) =~= seq![s[0]] + s.drop_first().subrange(0, k - 1));
    } else {
        assert(s.skip(0) =~= s);
        assert(s.subrange(0, 0) =~= Seq::<char>::empty());
    }
}

proof fn lemma_decimal_grows(d: Seq<char>, c: char)
    requires
        '0' <= c && c <= '9',
    ensures
        decimal_value(d.push(c)) >= decimal_value(d),
        decimal_value(d.push(c)) == decimal_value(d) * 10 + ((c as u32) - ('0' as u32)) as nat,
{
    assert(d.push(c).drop_last() =~= d);
}

/// The buffer size the host error `message` forces, if any (see
/// [`forced_buffer_size_spec`]).
pub fn forced_buffer_size(message: &str) -> (r: Option<u32>)
    ensures
        r == forced_buffer_size_spec(message@),
{
    let marker = "buffer size changed to:";
    proof {
        reveal_strlit("buffer size changed to:");
    }
    let at = match find_text(message, marker) {
        Some(at) => at,
        None => {
            return None;
        },
    };
    proof {
        lemma_first_occurrence(message@, marker@, at as int);
    }
    let n = message.unicode_len();
    let start = at + marker.unicode_len();
    let ghost rest = message@.skip(start as int);
    let mut i: usize = start;
    while i < n && white_space(message.get_char(i))
        invariant
            n == message@.len(),
            start <= i <= n,
            rest == message@.skip(start as int),
            forall|q: int| start <= q < i ==> is_white_space(#[trigger] message@[q]),
        decreases n - i,
    {
        i = i + 1;
    }
    proof {
        assert forall|q: int| 0 <= q < i - start implies is_white_space(#[trigger] rest[q]) by {
            assert(rest[q] == message@[start + q]);
        }
        lemma_skip_white_space(rest, i - start);
        assert(rest.skip(i - start) =~= message@.skip(i as int));
        if i < n {
            assert(!is_white_space(message@[i as int]));
        }
        assert(skip_white_space(message@.skip(i as int)) == message@.skip(i as int));
    }
    let ghost tail = message@.skip(i as int);
    let digits_start = i;
    let mut value: u64 = 0;
    let mut overflow = false;
    while i < n && '0' <= message.get_char(i) && message.get_char(i) <= '9'
        invariant
            n == message@.len(),
            digits_start <= i <= n,
            tail == message@.skip(digits_start as int),
            forall|q: int| digits_start <= q < i ==> '0' <= #[trigger] message@[q] && message@[q] <= '9',
            !overflow ==> value == decimal_value(message@.subrange(digits_start as int, i as int)),
            overflow ==> decimal_value(message@.subrange(digits_start as int, i as int)) > u32::MAX,
            value <= u32::MAX,
        decreases n - i,
    {
        let c = message.get_char(i);
        proof {
            let before = message@.subrange(digits_start as int, i as int);
            assert(message@.subrange(digits_start as int, i + 1) =~= before.push(c));
            lemma_decimal_grows(before, c);
        }
        if !overflow {
            let digit = (c as u32 - '0' as u32) as u64;
            let next = value * 10 + digit;
            if next > 0xFFFF_FFFF {
                overflow = true;
            } else {
                value = next;
            }
        }
        i = i + 1;
    }
    proof {
        assert forall|q: int| 0 <= q < i - digits_start implies '0' <= #[trigger] tail[q] && tail[q] <= '9' by {
            assert(tail[q] == message@[digits_start + q]);
        }
        lemma_leading_digits(tail, i - digits_start);
        assert(tail.skip(i - digits_start) =~= message@.skip(i as int));
        assert(tail.subrange(0, i - digits_start) =~= message@.subrange(digits_start as int, i as int));
        if i < n {
            assert(leading_digits(message@.skip(i as int)) =~= Seq::<char>::empty());
        } else {
            assert(message@.skip(i as int) =~= Seq::<char>::empty());
        }
        assert(leading_digits(tail) =~= message@.subrange(digits_start as int, i as int));
    }
    if i == digits_start || overflow {
        None
    } else {
        Some(value as u32)
    }
}

/// What a backend error asks of the stream, `message` being its text in
/// lower case and `current` the configured buffer size: glitches are
/// ignored, a buffer size the host forced is adopted (with a rebuild) unless
/// it is already the configured one, and any other error rebuilds the
/// stream.
pub fn backend_error_response(message: &str, current: Option<u32>) -> (r: BackendErrorResponse)
    ensures
        r == backend_error_response_spec(message@, current),
{
    let glitch = find_text(message, "underrun").is_some() || find_text(message, "overrun").is_some();
    if glitch {
        return BackendErrorResponse::Ignore;
    }
    if find_text(message, "buffer size changed to:").is_none() {
        return BackendErrorResponse::Restart;
    }
    proof {
        reveal_strlit("buffer size changed to:");
    }
    match forced_buffer_size(message) {
        Some(n) => {
            let same = match current {
                Some(c) => c == n,
                None => false,
            };
            if same {
                BackendErrorResponse::Ignore
            } else {
                BackendErrorResponse::RestartWithBufferSize(n)
            }
        },
        None => BackendErrorResponse::Ignore,
    }
}

// ---------------------------------------------------------------------------
// Device and runtime configuration.
// ---------------------------------------------------------------------------

/// Legacy user-selected device configuration, with absent values requesting
/// backend defaults.
#[derive(Clone, Debug, PartialEq, Eq)]
pub struct AudioDeviceConfig {
    /// Name of the audio host (e.g. "ASIO", "WASAPI", "CoreAudio").
    pub host_name: Option<String>,
    /// The specific device name chosen by the user.
    pub device_name: Option<String>,
    /// Backend-stable device identifier, when the selected backend exposes one.
    pub device_id: Option<String>,
    /// The user's desired sample rate (e.g. 44100, 48000, 96000).
    pub sample_rate: Option<u32>,
    /// The desired block/buffer size (e.g. 256, 512, 1024).
    pub buffer_size: Option<u32>,
}

impl Default for AudioDeviceConfig {
    fn default() -> (c: Self)
        ensures
            c.host_name is None && c.device_name is None && c.device_id is None,
            c.sample_rate is None && c.buffer_size is None,
    {
        AudioDeviceConfig {
            host_name: None,
            device_name: None,
            device_id: None,
            sample_rate: None,
            buffer_size: None,
        }
    }
}

/// Output device metadata exposed to the settings UI.
#[derive(Clone, Debug, PartialEq, Eq)]
pub struct AudioDeviceInfo {
    /// Backend-specific stable identifier used to reopen the device.
    pub id: String,
    /// Human-readable device name.
    pub name: String,
    /// Whether this is the selected host's current default output device.
    pub is_default: bool,
}

/// Policy used to select the audio host.
#[derive(Clone, Debug, PartialEq, Eq)]
pub enum OutputHostSelection {
    /// Follow the platform's default host.
    SystemDefault,
    /// Request the host with the contained name.
    Named(String),
}

/// Policy used to select an output device within a host.
#[derive(Clone, Debug, PartialEq, Eq)]
pub enum OutputDeviceSelection {
    /// Follow the host's default output device.
    SystemDefault,
    /// Request a particular device, retaining its name for display and fallback matching.
    Specific { id: String, name: String },
}

/// Persisted output endpoint selection requested by the user.
#[derive(Clone, Debug, PartialEq, Eq)]
pub struct RequestedOutputConfig {
    pub host: OutputHostSelection,
    pub device: OutputDeviceSelection,
}

/// DSP timing requested for the engine independently of device-native timing.
#[derive(Clone, Copy, Debug, PartialEq, Eq, Structural)]
pub struct RequestedDspConfig {
    /// Engine sample rate in frames per second.
    pub sample_rate: u32,
    /// Number of frames rendered per engine block.
    pub block_size: u32,
}

/// Current lifecycle state of the physical output stream.
#[derive(Clone, Debug, PartialEq, Eq)]
pub enum DeviceStreamStatus {
    /// Initial device resolution or stream construction is in progress.
    Starting,
    /// The stream is active and consuming rendered frames.
    Running,
    /// A recoverable failure triggered delayed stream recreation.
    Retrying { reason: String },
    /// No usable stream could currently be established.
    Unavailable { reason: String },
}

/// Concrete configuration negotiated for the active stream.
#[derive(Clone, Debug, PartialEq, Eq)]
pub struct ActualDeviceStreamConfig {
    pub host_name: String,
    pub device_id: String,
    pub device_name: String,
    pub sample_rate: u32,
    pub callback_buffer_size: u32,
    pub channels: u16,
}

/// Shared requested and observed state for the engine's output runtime.
#[derive(Clone, Debug, PartialEq, Eq)]
pub struct AudioRuntimeSettings {
    pub requested_output: RequestedOutputConfig,
    pub requested_dsp: RequestedDspConfig,
    pub actual_stream: Option<ActualDeviceStreamConfig>,
    pub stream_status: DeviceStreamStatus,
}

impl Default for AudioRuntimeSettings {
    /// System default host and device, 48 kHz in blocks of 1024 frames, no
    /// stream yet, starting.
    fn default() -> (s: Self)
        ensures
            s.requested_output.host is SystemDefault,
            s.requested_output.device is SystemDefault,
            s.requested_dsp.sample_rate == 48_000 && s.requested_dsp.block_size == 1_024,
            s.actual_stream is None,
            s.stream_status is Starting,
    {
        AudioRuntimeSettings {
            requested_output: RequestedOutputConfig {
                host: OutputHostSelection::SystemDefault,
                device: OutputDeviceSelection::SystemDefault,
            },
            requested_dsp: RequestedDspConfig { sample_rate: 48_000, block_size: 1_024 },
            actual_stream: None,
            stream_status: DeviceStreamStatus::Starting,
        }
    }
}

/// The endpoint selection that a legacy device configuration expresses: a
/// named host if one is given; a specific device when an id is given (named
/// by its display name, or by the id itself when no name is known),
/// otherwise the system defaults.
pub fn requested_output_from_config(config: &AudioDeviceConfig) -> (r: RequestedOutputConfig)
    ensures
        match config.host_name {
            Some(h) => r.host matches OutputHostSelection::Named(n) && n@ == h@,
            None => r.host is SystemDefault,
        },
        match (config.device_id, config.device_name) {
            (Some(id), Some(name)) => r.device matches OutputDeviceSelection::Specific { id: i, name: n }
                && i@ == id@ && n@ == name@,
            (Some(id), None) => r.device matches OutputDeviceSelection::Specific { id: i, name: n }
                && i@ == id@ && n@ == id@,
            _ => r.device is SystemDefault,
        },
{
    let host = match &config.host_name {
        Some(h) => OutputHostSelection::Named(h.clone()),
        None => OutputHostSelection::SystemDefault,
    };
    let device = match (&config.device_id, &config.device_name) {
        (Some(id), Some(name)) => OutputDeviceSelection::Specific { id: id.clone(), name: name.clone() },
        (Some(id), None) => OutputDeviceSelection::Specific { id: id.clone(), name: id.clone() },
        _ => OutputDeviceSelection::SystemDefault,
    };
    RequestedOutputConfig { host, device }
}

/// Sample representation of a device stream.
#[derive(Clone, Copy, Debug, PartialEq, Eq, Structural, Hash)]
pub enum SampleFormat {
    I8,
    I16,
    I24,
    I32,
    I64,
    U8,
    U16,
    U24,
    U32,
    U64,
    F32,
    F64,
    DsdU8,
    DsdU16,
    DsdU32,
}

/// Preference of an output sample format: the engine renders `f32`, and
/// keeping that representation up to the device avoids quantizing quiet
/// signals; formats the engine cannot write have priority 0.
pub open spec fn format_priority(format: SampleFormat) -> u8 {
    match format {
        SampleFormat::F32 => 10,
        SampleFormat::F64 => 9,
        SampleFormat::I64 | SampleFormat::U64 => 8,
        SampleFormat::I32 | SampleFormat::U32 => 7,
        SampleFormat::I24 | SampleFormat::U24 => 6,
        SampleFormat::I16 | SampleFormat::U16 => 5,
        SampleFormat::I8 | SampleFormat::U8 => 4,
        _ => 0,
    }
}

pub fn output_sample_format_priority(format: SampleFormat) -> (r: u8)
    ensures
        r == format_priority(format),
{
    match format {
        SampleFormat::F32 => 10,
        SampleFormat::F64 => 9,
        SampleFormat::I64 | SampleFormat::U64 => 8,
        SampleFormat::I32 | SampleFormat::U32 => 7,
        SampleFormat::I24 | SampleFormat::U24 => 6,
        SampleFormat::I16 | SampleFormat::U16 => 5,
        SampleFormat::I8 | SampleFormat::U8 => 4,
        _ => 0,
    }
}

/// Callback buffer sizes a device supports.
#[derive(Clone, Copy, Debug, PartialEq, Eq, Structural)]
pub enum SupportedBufferSize {
    Range { min: u32, max: u32 },
    Unknown,
}

/// Callback buffer size requested for a stream.
#[derive(Clone, Copy, Debug, PartialEq, Eq, Structural)]
pub enum BufferSize {
    Default,
    Fixed(u32),
}

/// A family of output stream configurations a device supports.
#[derive(Clone, Copy, Debug, PartialEq, Eq, Structural)]
pub struct SupportedStreamConfigRange {
    pub channels: u16,
    pub min_sample_rate: u32,
    pub max_sample_rate: u32,
    pub buffer_size: SupportedBufferSize,
    pub sample_format: SampleFormat,
}

/// One concrete output stream configuration.
#[derive(Clone, Copy, Debug, PartialEq, Eq, Structural)]
pub struct SupportedStreamConfig {
    pub channels: u16,
    pub sample_rate: u32,
    pub buffer_size: SupportedBufferSize,
    pub sample_format: SampleFormat,
}

/// A configuration the engine can drive: at least stereo, in a format it
/// can write.
pub open spec fn usable(c: SupportedStreamConfigRange) -> bool {
    c.channels >= 2 && format_priority(c.sample_format) > 0
}

/// Channel layout to use among the usable configurations: stereo when
/// offered, otherwise the smallest layout.
pub open spec fn channels_preferred(a: u16, b: u16) -> bool {
    // `a` is at least as good as `b`
    (a == 2 && b != 2) || ((a == 2) == (b == 2) && a <= b)
}

/// Position (in `s`) of the last element whose format priority is the
/// largest; `s` must not be empty.
pub open spec fn last_best_format(s: Seq<SupportedStreamConfigRange>) -> int
    decreases s.len(),
{
    if s.len() <= 1 {
        0
    } else {
        let i = last_best_format(s.drop_last());
        if format_priority(s.last().sample_format) >= format_priority(s[i].sample_format) {
            s.len() - 1
        } else {
            i
        }
    }
}

/// Channel count that the selection settles on (`s` holds the usable configurations).
pub open spec fn preferred_channels(s: Seq<SupportedStreamConfigRange>) -> u16
    decreases s.len(),
{
    if s.len() == 0 {
        0
    } else if s.len() == 1 {
        s[0].channels
    } else {
        let c = preferred_channels(s.drop_last());
        if channels_preferred(s.last().channels, c) && s.last().channels != c {
            s.last().channels
        } else {
            c
        }
    }
}

/// The selection of an output configuration: among the usable
/// configurations with the preferred channel layout, the best format (the
/// last one listed among equals) that supports `target_rate`, at that rate;
/// failing that, the best format at `native_rate` clamped into its range,
/// marked as a fallback. `None` when no configuration is usable.
pub open spec fn select_output_spec(
    configs: Seq<SupportedStreamConfigRange>,
    target_rate: u32,
    native_rate: u32,
) -> Option<(SupportedStreamConfig, bool)> {
    let usable_configs = configs.filter(|c: SupportedStreamConfigRange| usable(c));
    if usable_configs.len() == 0 {
        None
    } else {
        let ch = preferred_channels(usable_configs);
        let layout = usable_configs.filter(|c: SupportedStreamConfigRange| c.channels == ch);
        let at_target = layout.filter(
            |c: SupportedStreamConfigRange| c.min_sample_rate <= target_rate && target_rate <= c.max_sample_rate,
        );
        if at_target.len() > 0 {
            let c = at_target[last_best_format(at_target)];
            Some(
                (
                    SupportedStreamConfig {
                        channels: c.channels,
                        sample_rate: target_rate,
                        buffer_size: c.buffer_size,
                        sample_format: c.sample_format,
                    },
                    false,
                ),
            )
        } else {
            let c = layout[last_best_format(layout)];
            let rate = if native_rate < c.min_sample_rate {
                c.min_sample_rate
            } else if native_rate > c.max_sample_rate {
                c.max_sample_rate
            } else {
                native_rate
            };
            Some(
                (
                    SupportedStreamConfig {
                        channels: c.channels,
                        sample_rate: rate,
                        buffer_size: c.buffer_size,
                        sample_format: c.sample_format,
                    },
                    true,
                ),
            )
        }
    }
}

/// The configuration whose rate range a fallback selection clamps the
/// native rate into (when no preferred configuration supports the target
/// rate) has its minimum at most its maximum. The selection reads no other
/// range as the bounds of a clamp.
pub open spec fn fallback_range_well_formed(configs: Seq<SupportedStreamConfigRange>, target_rate: u32) -> bool {
    let usable_configs = configs.filter(|c: SupportedStreamConfigRange| usable(c));
    usable_configs.len() > 0 ==> {
        let ch = preferred_channels(usable_configs);
        let layout = usable_configs.filter(|c: SupportedStreamConfigRange| c.channels == ch);
        let at_target = layout.filter(
            |c: SupportedStreamConfigRange| c.min_sample_rate <= target_rate && target_rate <= c.max_sample_rate,
        );
        at_target.len() == 0 ==> layout[last_best_format(layout)].min_sample_rate
            <= layout[last_best_format(layout)].max_sample_rate
    }
}

fn filter_usable(configs: &[SupportedStreamConfigRange]) -> (r: Vec<SupportedStreamConfigRange>)
    ensures
        r@ == configs@.filter(|c: SupportedStreamConfigRange| usable(c)),
{
    let ghost pred = |c: SupportedStreamConfigRange| usable(c);
    let mut out: Vec<SupportedStreamConfigRange> = Vec::new();
    let mut i: usize = 0;
    while i < configs.len()
        invariant
            i <= configs@.len(),
            out@ == configs@.subrange(0, i as int).filter(pred),
            pred == (|c: SupportedStreamConfigRange| usable(c)),
        decreases configs@.len() - i,
    {
        proof {
            reveal(Seq::filter);
            assert(configs@.subrange(0, i + 1).drop_last() =~= configs@.subrange(0, i as int));
        }
        let c = configs[i];
        if c.channels >= 2 && output_sample_format_priority(c.sample_format) > 0 {
            out.push(c);
        }
        i = i + 1;
    }
    proof {
        assert(configs@.subrange(0, configs@.len() as int) =~= configs@);
    }
    out
}

fn filter_channels(configs: &Vec<SupportedStreamConfigRange>, ch: u16) -> (r: Vec<SupportedStreamConfigRange>)
    ensures
        r@ == configs@.filter(|c: SupportedStreamConfigRange| c.channels == ch),
{
    let ghost pred = |c: SupportedStreamConfigRange| c.channels == ch;
    let mut out: Vec<SupportedStreamConfigRange> = Vec::new();
    let mut i: usize = 0;
    while i < configs.len()
        invariant
            i <= configs@.len(),
            out@ == configs@.subrange(0, i as int).filter(pred),
            pred == (|c: SupportedStreamConfigRange| c.channels == ch),
        decreases configs@.len() - i,
    {
        proof {
            reveal(Seq::filter);
            assert(configs@.subrange(0, i + 1).drop_last() =~= configs@.subrange(0, i as int));
        }
        let c = configs[i];
        if c.channels == ch {
            out.push(c);
        }
        i = i + 1;
    }
    proof {
        assert(configs@.subrange(0, configs@.len() as int) =~= configs@);
    }
    out
}

fn filter_rate(configs: &Vec<SupportedStreamConfigRange>, rate: u32) -> (r: Vec<SupportedStreamConfigRange>)
    ensures
        r@ == configs@.filter(
            |c: SupportedStreamConfigRange| c.min_sample_rate <= rate && rate <= c.max_sample_rate,
        ),
{
    let ghost pred = |c: SupportedStreamConfigRange|
        c.min_sample_rate <= rate && rate <= c.max_sample_rate;
    let mut out: Vec<SupportedStreamConfigRange> = Vec::new();
    let mut i: usize = 0;
    while i < configs.len()
        invariant
            i <= configs@.len(),
            out@ == configs@.subrange(0, i as int).filter(pred),
            pred == (|c: SupportedStreamConfigRange|
                c.min_sample_rate <= rate && rate <= c.max_sample_rate),
        decreases configs@.len() - i,
    {
        proof {
            reveal(Seq::filter);
            assert(configs@.subrange(0, i + 1).drop_last() =~= configs@.subrange(0, i as int));
        }
        let c = configs[i];
        if c.min_sample_rate <= rate && rate <= c.max_sample_rate {
            out.push(c);
        }
        i = i + 1;
    }
    proof {
        assert(configs@.subrange(0, configs@.len() as int) =~= configs@);
    }
    out
}

fn best_format_index(configs: &Vec<SupportedStreamConfigRange>) -> (r: usize)
    requires
        configs@.len() > 0,
    ensures
        r as int == last_best_format(configs@),
        r < configs@.len(),
{
    let mut best: usize = 0;
    let mut i: usize = 1;
    while i < configs.len()
        invariant
            1 <= i <= configs@.len(),
            best < i,
            best as int == last_best_format(configs@.subrange(0, i as int)),
        decreases configs@.len() - i,
    {
        proof {
            assert(configs@.subrange(0, i + 1).drop_last() =~= configs@.subrange(0, i as int));
            assert(configs@.subrange(0, i as int)[best as int] == configs@[best as int]);
        }
        if output_sample_format_priority(configs[i].sample_format) >= output_sample_format_priority(
            configs[best].sample_format,
        ) {
            best = i;
        }
        i = i + 1;
    }
    proof {
        assert(configs@.subrange(0, configs@.len() as int) =~= configs@);
    }
    best
}

fn pick_channels(configs: &Vec<SupportedStreamConfigRange>) -> (r: u16)
    requires
        configs@.len() > 0,
    ensures
        r == preferred_channels(configs@),
{
    let mut ch: u16 = configs[0].channels;
    let mut i: usize = 1;
    proof {
        assert(configs@.subrange(0, 1).len() == 1);
    }
    while i < configs.len()
        invariant
            1 <= i <= configs@.len(),
            ch == preferred_channels(configs@.subrange(0, i as int)),
        decreases configs@.len() - i,
    {
        proof {
            assert(configs@.subrange(0, i + 1).drop_last() =~= configs@.subrange(0, i as int));
        }
        let c = configs[i].channels;
        let better = (c == 2 && ch != 2) || ((c == 2) == (ch == 2) && c <= ch);
        if better && c != ch {
            ch = c;
        }
        i = i + 1;
    }
    proof {
        assert(configs@.subrange(0, configs@.len() as int) =~= configs@);
    }
    ch
}

/// Chooses the output configuration (see [`select_output_spec`]); the flag
/// reports that the requested rate was unsupported and the device's native
/// rate, clamped, is used instead.
pub fn select_output_config(
    configs: &[SupportedStreamConfigRange],
    target_sample_rate: u32,
    native_sample_rate: u32,
) -> (r: Option<(SupportedStreamConfig, bool)>)
    requires
        fallback_range_well_formed(configs@, target_sample_rate),
    ensures
        r == select_output_spec(configs@, target_sample_rate, native_sample_rate),
{
    let usable_configs = filter_usable(configs);
    if usable_configs.len() == 0 {
        return None;
    }
    let ch = pick_channels(&usable_configs);
    let layout = filter_channels(&usable_configs, ch);
    proof {
        broadcast use vstd::seq_lib::group_filter_ensures;

        // the preferred layout is offered by some usable configuration
        lemma_preferred_channels_offered(usable_configs@);
        let k = choose|k: int| 0 <= k < usable_configs@.len() && usable_configs@[k].channels == ch;
        assert(layout@.contains(usable_configs@[k]));
    }
    let at_target = filter_rate(&layout, target_sample_rate);
    if at_target.len() > 0 {
        let c = at_target[best_format_index(&at_target)];
        Some(
            (
                SupportedStreamConfig {
                    channels: c.channels,
                    sample_rate: target_sample_rate,
                    buffer_size: c.buffer_size,
                    sample_format: c.sample_format,
                },
                false,
            ),
        )
    } else {
        let idx = best_format_index(&layout);
        let c = layout[idx];
        let rate = if native_sample_rate < c.min_sample_rate {
            c.min_sample_rate
        } else if native_sample_rate > c.max_sample_rate {
            c.max_sample_rate
        } else {
            native_sample_rate
        };
        Some(
            (
                SupportedStreamConfig {
                    channels: c.channels,
                    sample_rate: rate,
                    buffer_size: c.buffer_size,
                    sample_format: c.sample_format,
                },
                true,
            ),
        )
    }
}

/// Whether choosing among `configs` for `target_sample_rate` would fall
/// back to a configuration whose rate range is empty (minimum above
/// maximum), which the selection cannot clamp into.
pub fn fallback_range_is_empty(configs: &[SupportedStreamConfigRange], target_sample_rate: u32) -> (r: bool)
    ensures
        r == !fallback_range_well_formed(configs@, target_sample_rate),
{
    let usable_configs = filter_usable(configs);
    if usable_configs.len() == 0 {
        return false;
    }
    let ch = pick_channels(&usable_configs);
    let layout = filter_channels(&usable_configs, ch);
    proof {
        broadcast use vstd::seq_lib::group_filter_ensures;

        lemma_preferred_channels_offered(usable_configs@);
        let k = choose|k: int| 0 <= k < usable_configs@.len() && usable_configs@[k].channels == ch;
        assert(layout@.contains(usable_configs@[k]));
    }
    let at_target = filter_rate(&layout, target_sample_rate);
    if at_target.len() > 0 {
        false
    } else {
        let c = layout[best_format_index(&layout)];
        c.min_sample_rate > c.max_sample_rate
    }
}

proof fn lemma_preferred_channels_offered(s: Seq<SupportedStreamConfigRange>)
    requires
        s.len() > 0,
    ensures
        exists|k: int| 0 <= k < s.len() && s[k].channels == preferred_channels(s),
    decreases s.len(),
{
    if s.len() > 1 {
        lemma_preferred_channels_offered(s.drop_last());
        let k = choose|k: int|
            0 <= k < s.drop_last().len() && s.drop_last()[k].channels == preferred_channels(
                s.drop_last(),
            );
        assert(s[k] == s.drop_last()[k]);
        assert(s[s.len() - 1] == s.last());
    } else {
        assert(s[0].channels == preferred_channels(s));
    }
}

/// Buffer size to request: the JACK server's own size under JACK, the
/// preferred size (1024 frames by default) clamped into a supported range,
/// or the backend default when the range is unknown.
pub fn choose_buffer_size(host_is_jack: bool, supported: SupportedBufferSize, preferred: Option<u32>) -> (r:
    BufferSize)
    requires
        supported matches SupportedBufferSize::Range { min, max } ==> min <= max,
    ensures
        host_is_jack ==> r == BufferSize::Default,
        !host_is_jack ==> r == match supported {
            SupportedBufferSize::Range { min, max } => {
                let desired = match preferred {
                    Some(p) => p,
                    None => 1024,
                };
                BufferSize::Fixed(
                    if desired < min {
                        min
                    } else if desired > max {
                        max
                    } else {
                        desired
                    },
                )
            },
            SupportedBufferSize::Unknown => BufferSize::Default,
        },
{
    if host_is_jack {
        BufferSize::Default
    } else {
        match supported {
            SupportedBufferSize::Range { min, max } => {
                let desired = match preferred {
                    Some(p) => p,
                    None => 1024,
                };
                BufferSize::Fixed(
                    if desired < min {
                        min
                    } else if desired > max {
                        max
                    } else {
                        desired
                    },
                )
            },
            SupportedBufferSize::Unknown => BufferSize::Default,
        }
    }
}

/// Frames per device callback: the fixed size when one was requested,
/// otherwise the preferred size (1024 frames by default).
pub fn callback_buffer_frames(buffer_size: BufferSize, preferred: Option<u32>) -> (r: u32)
    ensures
        r == match buffer_size {
            BufferSize::Fixed(n) => n,
            BufferSize::Default => match preferred {
                Some(p) => p,
                None => 1024u32,
            },
        },
{
    match buffer_size {
        BufferSize::Fixed(n) => n,
        BufferSize::Default => match preferred {
            Some(p) => p,
            None => 1024,
        },
    }
}

/// Sample rate to request: the preferred one, or else the device's native rate.
pub fn target_sample_rate(preferred: Option<u32>, native_sample_rate: u32) -> (r: u32)
    ensures
        r == match preferred {
            Some(p) => p,
            None => native_sample_rate,
        },
{
    match preferred {
        Some(p) => p,
        None => native_sample_rate,
    }
}

/// Smallest power of two at least `n` (1 for 0).
pub open spec fn next_pow2(n: nat) -> nat
    decreases n,
{
    if n <= 1 {
        1
    } else {
        2 * next_pow2(((n + 1) / 2) as nat)
    }
}

proof fn lemma_next_pow2_ge(n: nat)
    ensures
        next_pow2(n) >= n,
        next_pow2(n) >= 1,
    decreases n,
{
    if n > 1 {
        lemma_next_pow2_ge(((n + 1) / 2) as nat);
    }
}

proof fn lemma_next_pow2_mono(a: nat, b: nat)
    requires
        a <= b,
    ensures
        next_pow2(a) <= next_pow2(b),
    decreases b,
{
    if a > 1 {
        lemma_next_pow2_mono(((a + 1) / 2) as nat, ((b + 1) / 2) as nat);
    } else {
        lemma_next_pow2_ge(b);
    }
}

/// `p` is a power of two.
pub open spec fn is_pow2(p: nat) -> bool
    decreases p,
{
    if p == 1 {
        true
    } else if p < 1 || p % 2 != 0 {
        false
    } else {
        is_pow2(p / 2)
    }
}

/// Capacity, in frames, of the ring buffer between the DSP thread and a
/// device stream: room for eight device callbacks, rounded up to a power of
/// two, and at least 4096 frames.
pub fn output_ring_capacity(maximum_device_frames: usize) -> (r: usize)
    requires
        next_pow2(maximum_device_frames as nat * 8) <= usize::MAX,
    ensures
        r as nat == if next_pow2(maximum_device_frames as nat * 8) > 4096 {
            next_pow2(maximum_device_frames as nat * 8)
        } else {
            4096
        },
{
    proof {
        lemma_next_pow2_ge(maximum_device_frames as nat * 8);
    }
    let wanted = maximum_device_frames * 8;
    let p = next_power_of_two(wanted);
    if p > 4096 {
        p
    } else {
        4096
    }
}

fn next_power_of_two(n: usize) -> (r: usize)
    requires
        next_pow2(n as nat) <= usize::MAX,
    ensures
        r as nat == next_pow2(n as nat),
    decreases n,
{
    if n <= 1 {
        1
    } else {
        let half = n / 2 + n % 2;
        proof {
            assert(half as nat == ((n + 1) / 2) as nat);
            lemma_next_pow2_mono(half as nat, n as nat);
        }
        let h = next_power_of_two(half);
        proof {
            assert(2 * next_pow2(half as nat) == next_pow2(n as nat));
        }
        2 * h
    }
}

/// Number of blocks rendered ahead before a stream starts: enough to fill
/// half of the ring, at least one.
pub fn prefill_block_count(ring_capacity: usize, maximum_device_frames: usize) -> (r: usize)
    requires
        maximum_device_frames > 0,
    ensures
        r as int == if (ring_capacity / 2) / maximum_device_frames > 1 {
            (ring_capacity / 2) / maximum_device_frames
        } else {
            1
        },
{
    let blocks = (ring_capacity / 2) / maximum_device_frames;
    if blocks > 1 {
        blocks
    } else {
        1
    }
}

/// Channels in one engine output frame (stereo).
pub const OUTPUT_CHANNELS: usize = 2;

/// Running count of device output samples that were replaced with silence
/// because the engine had no frame ready.
#[derive(Clone, Copy, Debug, PartialEq, Eq, Structural)]
pub struct UnderrunCounter {
    samples: u64,
}

impl UnderrunCounter {
    /// The number of samples counted, as the counter holds it.
    pub closed spec fn count(&self) -> u64 {
        self.samples
    }

    /// A counter at zero.
    pub fn new() -> (c: Self)
        ensures
            c.count() == 0,
    {
        UnderrunCounter { samples: 0 }
    }

    /// Counts one output frame that was filled with silence: both of its
    /// channels, wrapping around like an atomic counter does.
    pub fn record_underrun_frame(&mut self)
        ensures
            final(self).count() == (old(self).count() as int + OUTPUT_CHANNELS as int) % 0x1_0000_0000_0000_0000,
    {
        self.samples = self.samples.wrapping_add(OUTPUT_CHANNELS as u64);
    }

    /// The cumulative number of device output samples replaced with silence
    /// after underruns.
    pub fn output_underrun_samples(&self) -> (r: u64)
        ensures
            r == self.count(),
    {
        self.samples
    }
}

/// How a device callback buffer of `data_len` samples with `device_channels`
/// channels is laid out: the number of whole frames, each filled from one
/// engine frame, and the samples of a trailing partial frame, which stay
/// silent without consuming an engine frame.
pub fn output_frame_layout(data_len: usize, device_channels: usize) -> (r: (usize, usize))
    requires
        device_channels >= OUTPUT_CHANNELS,
    ensures
        r.0 == data_len / device_channels,
        r.1 == data_len % device_channels,
{
    (data_len / device_channels, data_len % device_channels)
}

/// The engine channel that device channel `channel` of a frame plays: the
/// first two device channels play left and right, the others are silent.
pub fn engine_channel_for(channel: usize) -> (r: Option<usize>)
    ensures
        r == (if channel < OUTPUT_CHANNELS { Some(channel) } else { None::<usize> }),
{
    if channel < OUTPUT_CHANNELS { Some(channel) } else { None }
}

/// The number of whole stereo frames in an interleaved block of `len`
/// samples, or `None` when the block does not hold whole frames and is
/// refused.
pub fn complete_output_frames(len: usize) -> (r: Option<usize>)
    ensures
        r == (if len % OUTPUT_CHANNELS == 0 { Some(len / OUTPUT_CHANNELS) } else { None::<usize> }),
{
    if len % OUTPUT_CHANNELS == 0 { Some(len / OUTPUT_CHANNELS) } else { None }
}

} // verus!
