//! Decisions the audio thread takes on externally hosted processors: whether
//! an installation, a removal or a reconfiguration may go ahead, and what it
//! does to the plugin state when it does.

use vstd::prelude::*;

use crate::event::{EffectTarget, PluginTarget};
use crate::ids::{BusId, TrackId};
use crate::routing::RoutingConnection;
use crate::plugin_state::{
    chain_has, first_position, pushed_at, AudioEffectInstance, AudioGeneratorInstance,
    AudioPluginState, PluginRef,
};

verus! {

/// Terminal outcome of one hosted installation or reconfiguration.
#[derive(Clone, Copy, Debug, PartialEq, Eq, Structural)]
pub enum HostedInstallResult {
    Installed,
    InvalidConfiguration,
    MissingTarget,
    OccupiedTarget,
}

/// Terminal outcome of one hosted removal.
#[derive(Clone, Copy, Debug, PartialEq, Eq, Structural)]
pub enum HostedRemovalResult {
    Removed,
    StaleTarget,
}

/// The parts of a prepared processing configuration that the engine checks.
#[derive(Clone, Copy, Debug, PartialEq, Eq, Structural)]
pub struct ProcessingConfigFacts {
    /// Whether the configuration passed its own validation.
    pub valid: bool,
    /// The sample rate, when it is a whole number of hertz that fits in `u32`.
    pub sample_rate: Option<u32>,
    pub main_output_channels: usize,
    pub max_block_size: usize,
    pub offline: bool,
}

/// What the engine currently processes with.
#[derive(Clone, Copy, Debug, PartialEq, Eq, Structural)]
pub struct EngineProcessing {
    pub sample_rate: u32,
    pub num_channels: u16,
    /// Block size of the current graph.
    pub buffer_size: usize,
    /// Whether the engine renders offline.
    pub offline: bool,
}

/// The smallest block size a hosted processor must accept.
pub const MIN_HOSTED_BLOCK: usize = 512;

/// A configuration fits the engine: it is valid, runs at the engine's rate
/// and channel count, takes blocks at least as large as the engine's (and at
/// least [`MIN_HOSTED_BLOCK`]), and matches the engine's offline mode.
pub open spec fn install_config_ok(c: ProcessingConfigFacts, e: EngineProcessing) -> bool {
    &&& c.valid
    &&& c.sample_rate == Some(e.sample_rate)
    &&& c.main_output_channels == e.num_channels as usize
    &&& c.max_block_size >= e.buffer_size
    &&& c.max_block_size >= MIN_HOSTED_BLOCK
    &&& c.offline == e.offline
}

/// Whether configuration `c` fits engine `e` for an installation.
pub fn install_configuration_accepted(c: &ProcessingConfigFacts, e: &EngineProcessing) -> (r: bool)
    ensures
        r == install_config_ok(*c, *e),
{
    c.valid && c.sample_rate == Some(e.sample_rate) && c.main_output_channels == e.num_channels as usize
        && c.max_block_size >= e.buffer_size && c.max_block_size >= MIN_HOSTED_BLOCK && c.offline == e.offline
}

/// A request to install a prepared hosted processor.
#[derive(Clone, Debug)]
pub struct HostedInstallRequest {
    pub target: PluginTarget,
    /// Track that receives a generator's output.
    pub generator_track: Option<TrackId>,
    /// Stable plugin type identifier.
    pub registry_id: u32,
    /// Whether the processor takes the place of an unavailable-plugin placeholder.
    pub replace_missing: bool,
    /// The track graph published together with an instrument, when the
    /// request carries one; it takes effect when the instrument is installed.
    pub graph: Option<HostedTrackGraph>,
}

/// A track graph published together with an instrument: its tracks, in
/// order, and its routing.
#[derive(Clone, Debug)]
pub struct HostedTrackGraph {
    pub tracks: Vec<TrackId>,
    pub routing: Vec<RoutingConnection>,
}

/// Whether the slot holding `existing` may take a new processor: a
/// replacement needs a placeholder there, a plain install an empty slot.
pub open spec fn slot_decision(existing: Option<PluginRef>, replace_missing: bool) -> Result<(), HostedInstallResult> {
    if replace_missing {
        match existing {
            Some(p) => if p.missing { Ok(()) } else { Err(HostedInstallResult::MissingTarget) },
            None => Err(HostedInstallResult::MissingTarget),
        }
    } else {
        match existing {
            Some(_) => Err(HostedInstallResult::OccupiedTarget),
            None => Ok(()),
        }
    }
}

/// The tracks a generator installation checks its track against.
pub open spec fn generator_tracks(req: HostedInstallRequest, tracks: Seq<TrackId>) -> Seq<TrackId> {
    match req.graph {
        Some(g) => g.tracks@,
        None => tracks,
    }
}

/// The outcome of the checks an installation passes before its processor is
/// installed: `Ok` when it may go ahead, else the result to report.
pub open spec fn install_decision(
    req: HostedInstallRequest,
    config: ProcessingConfigFacts,
    engine: EngineProcessing,
    plugins: AudioPluginState,
    tracks: Seq<TrackId>,
    buses: Seq<BusId>,
) -> Result<(), HostedInstallResult> {
    if !install_config_ok(config, engine) {
        Err(HostedInstallResult::InvalidConfiguration)
    } else {
        match req.target {
            PluginTarget::Generator(_) => match req.generator_track {
                None => Err(HostedInstallResult::MissingTarget),
                Some(t) => if !generator_tracks(req, tracks).contains(t) {
                    Err(HostedInstallResult::MissingTarget)
                } else {
                    slot_decision(plugins.plugin_at(req.target), req.replace_missing)
                },
            },
            PluginTarget::TrackEffect(t, _) => if !tracks.contains(t) {
                Err(HostedInstallResult::MissingTarget)
            } else {
                slot_decision(plugins.plugin_at(req.target), req.replace_missing)
            },
            PluginTarget::BusEffect(b, _) => if !buses.contains(b) {
                Err(HostedInstallResult::MissingTarget)
            } else {
                slot_decision(plugins.plugin_at(req.target), req.replace_missing)
            },
            PluginTarget::MasterEffect(_) => slot_decision(plugins.plugin_at(req.target), req.replace_missing),
        }
    }
}

/// Whether `t` is one of `tracks`.
fn has_track(tracks: &[TrackId], t: TrackId) -> (r: bool)
    ensures
        r == tracks@.contains(t),
{
    let mut i: usize = 0;
    while i < tracks.len()
        invariant
            i <= tracks@.len(),
            forall|j: int| 0 <= j < i ==> tracks@[j] != t,
        decreases tracks@.len() - i,
    {
        if tracks[i] == t {
            assert(tracks@[i as int] == t);
            return true;
        }
        i = i + 1;
    }
    false
}

/// Whether `b` is one of `buses`.
fn has_bus(buses: &[BusId], b: BusId) -> (r: bool)
    ensures
        r == buses@.contains(b),
{
    let mut i: usize = 0;
    while i < buses.len()
        invariant
            i <= buses@.len(),
            forall|j: int| 0 <= j < i ==> buses@[j] != b,
        decreases buses@.len() - i,
    {
        if buses[i] == b {
            assert(buses@[i as int] == b);
            return true;
        }
        i = i + 1;
    }
    false
}

/// Whether the slot holding `existing` may take a new processor.
fn check_slot(existing: Option<PluginRef>, replace_missing: bool) -> (r: Result<(), HostedInstallResult>)
    ensures
        r == slot_decision(existing, replace_missing),
{
    if replace_missing {
        match existing {
            Some(p) => if p.missing { Ok(()) } else { Err(HostedInstallResult::MissingTarget) },
            None => Err(HostedInstallResult::MissingTarget),
        }
    } else {
        match existing {
            Some(_) => Err(HostedInstallResult::OccupiedTarget),
            None => Ok(()),
        }
    }
}

/// Runs the checks of an installation, in the engine's order: the
/// configuration, then the target's track or bus, then the target's slot.
/// `tracks` and `buses` are those of the current graph.
pub fn check_hosted_install(
    req: &HostedInstallRequest,
    config: &ProcessingConfigFacts,
    engine: &EngineProcessing,
    plugins: &AudioPluginState,
    tracks: &[TrackId],
    buses: &[BusId],
) -> (r: Result<(), HostedInstallResult>)
    requires
        plugins.wf(),
    ensures
        r == install_decision(*req, *config, *engine, *plugins, tracks@, buses@),
{
    if !install_configuration_accepted(config, engine) {
        return Err(HostedInstallResult::InvalidConfiguration);
    }
    match req.target {
        PluginTarget::Generator(_) => {
            let track = match req.generator_track {
                Some(t) => t,
                None => {
                    return Err(HostedInstallResult::MissingTarget);
                },
            };
            let present = match &req.graph {
                Some(g) => has_track(g.tracks.as_slice(), track),
                None => has_track(tracks, track),
            };
            if !present {
                return Err(HostedInstallResult::MissingTarget);
            }
        },
        PluginTarget::TrackEffect(t, _) => {
            if !has_track(tracks, t) {
                return Err(HostedInstallResult::MissingTarget);
            }
        },
        PluginTarget::BusEffect(b, _) => {
            if !has_bus(buses, b) {
                return Err(HostedInstallResult::MissingTarget);
            }
        },
        PluginTarget::MasterEffect(_) => {},
    }
    check_slot(plugins.plugin(&req.target), req.replace_missing)
}

/// The generator entry an installation creates.
pub open spec fn installed_generator(req: HostedInstallRequest, plugin: PluginRef) -> AudioGeneratorInstance {
    AudioGeneratorInstance {
        id: match req.target {
            PluginTarget::Generator(id) => id,
            _ => arbitrary(),
        },
        track_id: req.generator_track->0,
        registry_id: req.registry_id,
        plugin,
    }
}

/// The effect entry an installation creates for effect `id`.
pub open spec fn installed_effect(req: HostedInstallRequest, id: crate::ids::EffectId, plugin: PluginRef) -> AudioEffectInstance {
    AudioEffectInstance { id, registry_id: req.registry_id, plugin }
}

/// The effect chain an effect target lives on.
pub open spec fn chain_target(target: PluginTarget) -> EffectTarget {
    match target {
        PluginTarget::TrackEffect(t, _) => EffectTarget::Track(t),
        PluginTarget::BusEffect(b, _) => EffectTarget::Bus(b),
        _ => EffectTarget::Master,
    }
}

/// `after` is `before` with an installed processor put in place, `retired`
/// being the plugin it displaced (see [`apply_hosted_install`]).
pub open spec fn install_applied(
    before: AudioPluginState,
    after: AudioPluginState,
    req: HostedInstallRequest,
    plugin: PluginRef,
    retired: Option<PluginRef>,
) -> bool {
    match req.target {
        PluginTarget::Generator(id) => {
            &&& after.generator_map() == before.generator_map().insert(id, installed_generator(req, plugin))
            &&& after.track_chains() == before.track_chains()
            &&& after.bus_chains() == before.bus_chains()
            &&& after.master_chain() == before.master_chain()
            &&& retired == before.plugin_at(req.target)
        },
        PluginTarget::TrackEffect(_, e) | PluginTarget::BusEffect(_, e) | PluginTarget::MasterEffect(e) => {
            let target = chain_target(req.target);
            let effect = installed_effect(req, e, plugin);
            if req.replace_missing {
                &&& retired == before.plugin_at(req.target)
                &&& match before.effect_chain(target) {
                    Some(c) => if chain_has(c, e) {
                        before.chain_replaced(&after, target, c.update(first_position(c, e), effect))
                    } else {
                        before.same_plugins(&after)
                    },
                    None => before.same_plugins(&after),
                }
            } else {
                &&& retired is None
                &&& after.generator_map() == before.generator_map()
                &&& match req.target {
                    PluginTarget::TrackEffect(t, _) => after.track_chains() == pushed_at(before.track_chains(), t.0 as int, effect)
                        && after.bus_chains() == before.bus_chains()
                        && after.master_chain() == before.master_chain(),
                    PluginTarget::BusEffect(b, _) => after.bus_chains() == pushed_at(before.bus_chains(), b.0 as int, effect)
                        && after.track_chains() == before.track_chains()
                        && after.master_chain() == before.master_chain(),
                    _ => after.master_chain() == before.master_chain().push(effect)
                        && after.track_chains() == before.track_chains()
                        && after.bus_chains() == before.bus_chains(),
                }
            }
        },
    }
}

/// Puts an installed processor in place, once the installation's checks
/// have passed and its processor is ready. A generator is inserted (or
/// replaces the one with its id); an effect replaces its placeholder when
/// the request says so, and is otherwise appended to its chain. Returns the
/// plugin it displaced, which the caller retires.
pub fn apply_hosted_install(plugins: &mut AudioPluginState, req: &HostedInstallRequest, plugin: PluginRef) -> (retired: Option<PluginRef>)
    requires
        old(plugins).wf(),
        match req.target {
            PluginTarget::Generator(_) => req.generator_track is Some,
            PluginTarget::TrackEffect(t, _) => (t.0 as int) < usize::MAX,
            PluginTarget::BusEffect(b, _) => (b.0 as int) < usize::MAX,
            PluginTarget::MasterEffect(_) => true,
        },
    ensures
        final(plugins).wf(),
        install_applied(*old(plugins), *final(plugins), *req, plugin, retired),
{
    let (target, effect_id) = match req.target {
        PluginTarget::Generator(id) => {
            let track_id = match req.generator_track {
                Some(t) => t,
                None => {
                    return None;
                },
            };
            let instance = AudioGeneratorInstance { id, track_id, registry_id: req.registry_id, plugin };
            return plugins.insert_generator(instance);
        },
        PluginTarget::TrackEffect(t, e) => (EffectTarget::Track(t), e),
        PluginTarget::BusEffect(b, e) => (EffectTarget::Bus(b), e),
        PluginTarget::MasterEffect(e) => (EffectTarget::Master, e),
    };
    let effect = AudioEffectInstance { id: effect_id, registry_id: req.registry_id, plugin };
    if req.replace_missing {
        match plugins.replace_effect(target, effect_id, effect) {
            Some(previous) => Some(previous.plugin),
            None => None,
        }
    } else {
        match target {
            EffectTarget::Track(t) => plugins.add_track_effect(t.0 as usize, effect),
            EffectTarget::Bus(b) => plugins.add_bus_effect(b.0 as usize, effect),
            EffectTarget::Master => plugins.add_master_effect(effect),
        }
        None
    }
}

/// Whether `target` still holds the hosted instance `expected` (or, for
/// `None`, a plugin that is not hosted).
pub open spec fn target_current(plugins: AudioPluginState, target: PluginTarget, expected: Option<u64>) -> bool {
    match plugins.plugin_at(target) {
        Some(p) => p.hosted_instance == expected,
        None => false,
    }
}

/// A removal goes ahead only when its bus, if any, still exists and every
/// target still holds the instance the request expects.
pub open spec fn removal_decision(
    plugins: AudioPluginState,
    bus: Option<BusId>,
    buses: Seq<BusId>,
    targets: Seq<(PluginTarget, Option<u64>)>,
) -> HostedRemovalResult {
    if bus is Some && !buses.contains(bus->0) {
        HostedRemovalResult::StaleTarget
    } else if forall|i: int| 0 <= i < targets.len() ==> #[trigger] target_current(plugins, targets[i].0, targets[i].1) {
        HostedRemovalResult::Removed
    } else {
        HostedRemovalResult::StaleTarget
    }
}

/// Checks a removal request before anything is removed; `buses` are the
/// buses that have mixer channels.
pub fn check_hosted_removal(
    plugins: &AudioPluginState,
    bus: Option<BusId>,
    buses: &[BusId],
    targets: &[(PluginTarget, Option<u64>)],
) -> (r: HostedRemovalResult)
    requires
        plugins.wf(),
    ensures
        r == removal_decision(*plugins, bus, buses@, targets@),
{
    if let Some(b) = bus {
        if !has_bus(buses, b) {
            return HostedRemovalResult::StaleTarget;
        }
    }
    let mut i: usize = 0;
    while i < targets.len()
        invariant
            plugins.wf(),
            i <= targets@.len(),
            forall|j: int| 0 <= j < i ==> #[trigger] target_current(*plugins, targets@[j].0, targets@[j].1),
        decreases targets@.len() - i,
    {
        let (target, expected) = targets[i];
        let current = match plugins.plugin(&target) {
            Some(p) => p.hosted_instance == expected,
            None => false,
        };
        if !current {
            assert(!target_current(*plugins, targets@[i as int].0, targets@[i as int].1));
            return HostedRemovalResult::StaleTarget;
        }
        i = i + 1;
    }
    HostedRemovalResult::Removed
}

/// One processor of a reconfiguration: the target, the hosted instance it
/// must still hold, and the replacement's configuration.
#[derive(Clone, Copy, Debug, PartialEq, Eq, Structural)]
pub struct HostedReplacementFacts {
    pub target: PluginTarget,
    pub expected: u64,
    pub config: ProcessingConfigFacts,
    /// Whether the replacement still carries its prepared processor.
    pub has_endpoint: bool,
}

/// A replacement fits a reconfiguration to `sample_rate` and `block_size`
/// for an engine with `num_channels` output channels.
pub open spec fn replacement_ok(r: HostedReplacementFacts, sample_rate: u32, block_size: usize, num_channels: u16) -> bool {
    &&& r.config.valid
    &&& r.config.sample_rate == Some(sample_rate)
    &&& r.config.main_output_channels == num_channels as usize
    &&& r.config.max_block_size >= block_size
    &&& r.config.max_block_size >= MIN_HOSTED_BLOCK
    &&& !r.config.offline
    &&& r.has_endpoint
}

/// The outcome of the checks a reconfiguration passes before any processor
/// is swapped: `Ok` when it may go ahead, else the result to report.
pub open spec fn reconfiguration_decision(
    plugins: AudioPluginState,
    sample_rate: u32,
    block_size: usize,
    num_channels: u16,
    replacements: Seq<HostedReplacementFacts>,
) -> Result<(), HostedInstallResult> {
    if !(sample_rate > 0 && block_size > 0
        && forall|i: int| 0 <= i < replacements.len() ==> #[trigger] replacement_ok(replacements[i], sample_rate, block_size, num_channels)) {
        Err(HostedInstallResult::InvalidConfiguration)
    } else if !(forall|i: int| 0 <= i < replacements.len() ==>
        #[trigger] target_current(plugins, replacements[i].target, Some(replacements[i].expected))) {
        Err(HostedInstallResult::MissingTarget)
    } else {
        Ok(())
    }
}

/// Checks a reconfiguration: every replacement must fit the new rate and
/// block size, then every target must still hold the expected instance.
pub fn check_hosted_reconfiguration(
    plugins: &AudioPluginState,
    sample_rate: u32,
    block_size: usize,
    num_channels: u16,
    replacements: &[HostedReplacementFacts],
) -> (r: Result<(), HostedInstallResult>)
    requires
        plugins.wf(),
    ensures
        r == reconfiguration_decision(*plugins, sample_rate, block_size, num_channels, replacements@),
{
    if sample_rate == 0 || block_size == 0 {
        return Err(HostedInstallResult::InvalidConfiguration);
    }
    let mut i: usize = 0;
    while i < replacements.len()
        invariant
            i <= replacements@.len(),
            forall|j: int| 0 <= j < i ==> #[trigger] replacement_ok(replacements@[j], sample_rate, block_size, num_channels),
        decreases replacements@.len() - i,
    {
        let r = replacements[i];
        let ok = r.config.valid && r.config.sample_rate == Some(sample_rate)
            && r.config.main_output_channels == num_channels as usize && r.config.max_block_size >= block_size
            && r.config.max_block_size >= MIN_HOSTED_BLOCK && !r.config.offline && r.has_endpoint;
        if !ok {
            assert(!replacement_ok(replacements@[i as int], sample_rate, block_size, num_channels));
            return Err(HostedInstallResult::InvalidConfiguration);
        }
        i = i + 1;
    }
    let mut i: usize = 0;
    while i < replacements.len()
        invariant
            plugins.wf(),
            sample_rate > 0 && block_size > 0,
            forall|j: int| 0 <= j < replacements@.len() ==> #[trigger] replacement_ok(replacements@[j], sample_rate, block_size, num_channels),
            i <= replacements@.len(),
            forall|j: int| 0 <= j < i ==> #[trigger] target_current(*plugins, replacements@[j].target, Some(replacements@[j].expected)),
        decreases replacements@.len() - i,
    {
        let r = replacements[i];
        let current = match plugins.plugin(&r.target) {
            Some(p) => p.hosted_instance == Some(r.expected),
            None => false,
        };
        if !current {
            assert(!target_current(*plugins, replacements@[i as int].target, Some(replacements@[i as int].expected)));
            return Err(HostedInstallResult::MissingTarget);
        }
        i = i + 1;
    }
    Ok(())
}

/// An installation with a configuration that fits the engine, onto an
/// empty slot whose track or bus is in the graph (an instrument needs its
/// track), is accepted; a configuration that does not fit is refused as
/// invalid; an effect whose track or bus is not in the graph is refused as
/// a missing target, and a plain installation is refused as a missing
/// target only then.
pub proof fn law_fitting_install_onto_known_empty_slot_is_accepted(
    req: HostedInstallRequest,
    config: ProcessingConfigFacts,
    engine: EngineProcessing,
    plugins: AudioPluginState,
    tracks: Seq<TrackId>,
    buses: Seq<BusId>,
)
    ensures
        !install_config_ok(config, engine) ==> install_decision(req, config, engine, plugins, tracks, buses)
            == Err::<(), HostedInstallResult>(HostedInstallResult::InvalidConfiguration),
        install_config_ok(config, engine) && !req.replace_missing && plugins.plugin_at(req.target) is None ==> {
            match req.target {
                PluginTarget::TrackEffect(t, _) => tracks.contains(t) <==> install_decision(
                    req,
                    config,
                    engine,
                    plugins,
                    tracks,
                    buses,
                ) == Ok::<(), HostedInstallResult>(()),
                PluginTarget::BusEffect(b, _) => buses.contains(b) <==> install_decision(
                    req,
                    config,
                    engine,
                    plugins,
                    tracks,
                    buses,
                ) == Ok::<(), HostedInstallResult>(()),
                PluginTarget::MasterEffect(_) => install_decision(req, config, engine, plugins, tracks, buses)
                    == Ok::<(), HostedInstallResult>(()),
                PluginTarget::Generator(_) => (req.generator_track is Some && generator_tracks(
                    req,
                    tracks,
                ).contains(req.generator_track->0)) <==> install_decision(
                    req,
                    config,
                    engine,
                    plugins,
                    tracks,
                    buses,
                ) == Ok::<(), HostedInstallResult>(()),
            }
        },
        install_config_ok(config, engine) ==> match req.target {
            PluginTarget::TrackEffect(t, _) => !tracks.contains(t) ==> install_decision(req, config, engine, plugins, tracks, buses)
                == Err::<(), HostedInstallResult>(HostedInstallResult::MissingTarget),
            PluginTarget::BusEffect(b, _) => !buses.contains(b) ==> install_decision(req, config, engine, plugins, tracks, buses)
                == Err::<(), HostedInstallResult>(HostedInstallResult::MissingTarget),
            _ => true,
        },
        install_config_ok(config, engine) && !req.replace_missing && install_decision(req, config, engine, plugins, tracks, buses)
            == Err::<(), HostedInstallResult>(HostedInstallResult::MissingTarget) ==> match req.target {
            PluginTarget::TrackEffect(t, _) => !tracks.contains(t),
            PluginTarget::BusEffect(b, _) => !buses.contains(b),
            PluginTarget::MasterEffect(_) => false,
            PluginTarget::Generator(_) => !(req.generator_track is Some && generator_tracks(req, tracks).contains(
                req.generator_track->0,
            )),
        },
{
}

/// A target that already holds a plugin refuses a plain installation as
/// occupied, once the configuration and the target's track or bus pass.
pub proof fn law_occupied_target_refuses_install(
    req: HostedInstallRequest,
    config: ProcessingConfigFacts,
    engine: EngineProcessing,
    plugins: AudioPluginState,
    tracks: Seq<TrackId>,
    buses: Seq<BusId>,
)
    requires
        plugins.wf(),
        !req.replace_missing,
        plugins.plugin_at(req.target) is Some,
        install_decision(req, config, engine, plugins, tracks, buses) != Err::<(), HostedInstallResult>(HostedInstallResult::InvalidConfiguration),
        install_decision(req, config, engine, plugins, tracks, buses) != Err::<(), HostedInstallResult>(HostedInstallResult::MissingTarget),
    ensures
        install_decision(req, config, engine, plugins, tracks, buses) == Err::<(), HostedInstallResult>(HostedInstallResult::OccupiedTarget),
{
}

/// After a plain installation of an effect on the master chain, the target
/// holds the installed plugin, so installing it again is refused as occupied.
pub proof fn law_installed_master_effect_is_found(before: AudioPluginState, after: AudioPluginState, req: HostedInstallRequest, plugin: PluginRef)
    requires
        req.target is MasterEffect,
        after.master_chain() == before.master_chain().push(installed_effect(req, req.target->MasterEffect_0, plugin)),
        !chain_has(before.master_chain(), req.target->MasterEffect_0),
    ensures
        after.plugin_at(req.target) == Some(plugin),
{
    let e = req.target->MasterEffect_0;
    let c = after.master_chain();
    let last = c.len() - 1;
    assert(c[last].id == e);
    assert(chain_has(c, e));
    crate::plugin_state::lemma_first_position(c, e);
    let p = first_position(c, e);
    assert(p == last) by {
        if p < last {
            assert(c[p] == before.master_chain()[p]);
            assert(chain_has(before.master_chain(), e));
        }
    };
}

/// After a generator installation, the generator's target holds the
/// installed plugin.
pub proof fn law_installed_generator_is_found(before: AudioPluginState, after: AudioPluginState, req: HostedInstallRequest, plugin: PluginRef)
    requires
        req.target is Generator,
        after.generator_map() == before.generator_map().insert(req.target->Generator_0, installed_generator(req, plugin)),
    ensures
        after.plugin_at(req.target) == Some(plugin),
{
}

} // verus!
