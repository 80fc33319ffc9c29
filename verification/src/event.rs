use vstd::prelude::*;

use crate::ids::{BusId, EffectId, GeneratorId, TrackId};

verus! {

/// Identifies one plugin instance independent of whether it is a generator
/// or a mixer effect.
#[derive(Clone, Copy, Debug, PartialEq, Eq, Structural, Hash)]
pub enum PluginTarget {
    /// Generator plugin in the project generator pool.
    Generator(GeneratorId),
    /// Effect on a track mixer channel.
    TrackEffect(TrackId, EffectId),
    /// Effect on a bus mixer channel.
    BusEffect(BusId, EffectId),
    /// Effect on the master mixer channel.
    MasterEffect(EffectId),
}

/// What an automation lane drives on an effect.
#[derive(Clone, Copy, Debug, PartialEq, Eq, Structural, Hash)]
pub enum EffectAutomationTarget {
    /// A plugin parameter.
    PluginParam { param_id: u32 },
    /// The effect's bypass switch.
    Bypass,
}

/// What an automation lane drives on a mixer channel.
#[derive(Clone, Copy, Debug, PartialEq, Eq, Structural, Hash)]
pub enum MixerChannelParamTarget {
    Volume,
    Pan,
    /// Something on one of the channel's effects.
    Plugin { effect_id: EffectId, target: EffectAutomationTarget },
}

/// What an automation lane drives on a track.
#[derive(Clone, Copy, Debug, PartialEq, Eq, Structural, Hash)]
pub enum TrackAutomationTarget {
    MixerChannel(MixerChannelParamTarget),
}

/// What an automation lane drives on the master channel.
#[derive(Clone, Copy, Debug, PartialEq, Eq, Structural, Hash)]
pub enum MasterAutomationTarget {
    MixerChannel(MixerChannelParamTarget),
}

/// The destination of an automation lane.
#[derive(Clone, Copy, Debug, PartialEq, Eq, Structural, Hash)]
pub enum AutomationTarget {
    Generator { generator_id: GeneratorId, param_id: u32 },
    Track { track_id: TrackId, track_target: TrackAutomationTarget },
    Bus { bus_id: BusId, mix_target: MixerChannelParamTarget },
    Master(MasterAutomationTarget),
}

/// The automation target of parameter `param_id` of plugin `t`.
pub open spec fn spec_automation_target(t: PluginTarget, param_id: u32) -> AutomationTarget {
    match t {
        PluginTarget::Generator(generator_id) => AutomationTarget::Generator { generator_id, param_id },
        PluginTarget::TrackEffect(track_id, effect_id) => AutomationTarget::Track {
            track_id,
            track_target: TrackAutomationTarget::MixerChannel(
                MixerChannelParamTarget::Plugin {
                    effect_id,
                    target: EffectAutomationTarget::PluginParam { param_id },
                },
            ),
        },
        PluginTarget::BusEffect(bus_id, effect_id) => AutomationTarget::Bus {
            bus_id,
            mix_target: MixerChannelParamTarget::Plugin {
                effect_id,
                target: EffectAutomationTarget::PluginParam { param_id },
            },
        },
        PluginTarget::MasterEffect(effect_id) => AutomationTarget::Master(
            MasterAutomationTarget::MixerChannel(
                MixerChannelParamTarget::Plugin {
                    effect_id,
                    target: EffectAutomationTarget::PluginParam { param_id },
                },
            ),
        ),
    }
}

/// The plugin instance that an automation target drives, if it drives one.
pub open spec fn spec_plugin_of(a: AutomationTarget) -> Option<PluginTarget> {
    match a {
        AutomationTarget::Generator { generator_id, .. } => Some(PluginTarget::Generator(generator_id)),
        AutomationTarget::Track {
            track_id,
            track_target: TrackAutomationTarget::MixerChannel(m),
        } => match m {
            MixerChannelParamTarget::Plugin { effect_id, .. } => Some(
                PluginTarget::TrackEffect(track_id, effect_id),
            ),
            _ => None,
        },
        AutomationTarget::Bus { bus_id, mix_target } => match mix_target {
            MixerChannelParamTarget::Plugin { effect_id, .. } => Some(
                PluginTarget::BusEffect(bus_id, effect_id),
            ),
            _ => None,
        },
        AutomationTarget::Master(MasterAutomationTarget::MixerChannel(m)) => match m {
            MixerChannelParamTarget::Plugin { effect_id, .. } => Some(
                PluginTarget::MasterEffect(effect_id),
            ),
            _ => None,
        },
    }
}

impl AutomationTarget {
    /// The plugin instance that this target drives, if it drives one.
    pub fn as_plugin_target(&self) -> (r: Option<PluginTarget>)
        ensures
            r == spec_plugin_of(*self),
    {
        match *self {
            AutomationTarget::Generator { generator_id, .. } => Some(
                PluginTarget::Generator(generator_id),
            ),
            AutomationTarget::Track { track_id, track_target } => match track_target {
                TrackAutomationTarget::MixerChannel(m) => match m {
                    MixerChannelParamTarget::Plugin { effect_id, .. } => Some(
                        PluginTarget::TrackEffect(track_id, effect_id),
                    ),
                    _ => None,
                },
            },
            AutomationTarget::Bus { bus_id, mix_target } => match mix_target {
                MixerChannelParamTarget::Plugin { effect_id, .. } => Some(
                    PluginTarget::BusEffect(bus_id, effect_id),
                ),
                _ => None,
            },
            AutomationTarget::Master(MasterAutomationTarget::MixerChannel(m)) => match m {
                MixerChannelParamTarget::Plugin { effect_id, .. } => Some(
                    PluginTarget::MasterEffect(effect_id),
                ),
                _ => None,
            },
        }
    }
}

/// An automation target that drives no plugin instance.
#[derive(Clone, Copy, Debug, PartialEq, Eq, Structural)]
pub struct NotAPluginTarget;

impl NotAPluginTarget {
    /// The human-readable description of the error.
    pub fn message(&self) -> (s: String)
        ensures
            s@ == "AutomationTarget does not map to a PluginTarget"@,
    {
        String::from_str("AutomationTarget does not map to a PluginTarget")
    }
}

impl PluginTarget {
    /// Builds the automation target for parameter `param_id` on this plugin instance.
    pub fn to_automation_target(&self, param_id: u32) -> (r: AutomationTarget)
        ensures
            r == spec_automation_target(*self, param_id),
    {
        match *self {
            PluginTarget::Generator(generator_id) => AutomationTarget::Generator {
                generator_id,
                param_id,
            },
            PluginTarget::TrackEffect(track_id, effect_id) => AutomationTarget::Track {
                track_id,
                track_target: TrackAutomationTarget::MixerChannel(
                    MixerChannelParamTarget::Plugin {
                        effect_id,
                        target: EffectAutomationTarget::PluginParam { param_id },
                    },
                ),
            },
            PluginTarget::BusEffect(bus_id, effect_id) => AutomationTarget::Bus {
                bus_id,
                mix_target: MixerChannelParamTarget::Plugin {
                    effect_id,
                    target: EffectAutomationTarget::PluginParam { param_id },
                },
            },
            PluginTarget::MasterEffect(effect_id) => AutomationTarget::Master(
                MasterAutomationTarget::MixerChannel(
                    MixerChannelParamTarget::Plugin {
                        effect_id,
                        target: EffectAutomationTarget::PluginParam { param_id },
                    },
                ),
            ),
        }
    }

    /// The plugin instance that an automation target drives; an error for
    /// targets that drive none (mixer volume, pan, ...).
    pub fn try_from_automation_target(target: &AutomationTarget) -> (r: Result<
        PluginTarget,
        NotAPluginTarget,
    >)
        ensures
            match spec_plugin_of(*target) {
                Some(p) => r == Ok::<PluginTarget, NotAPluginTarget>(p),
                None => r == Err::<PluginTarget, NotAPluginTarget>(NotAPluginTarget),
            },
    {
        match target.as_plugin_target() {
            Some(p) => Ok(p),
            None => Err(NotAPluginTarget),
        }
    }
}

/// Converting a plugin's parameter automation target back gives the plugin:
/// every parameter lane of an instance is recognised as belonging to it.
pub proof fn law_automation_target_round_trip(t: PluginTarget, param_id: u32)
    ensures
        spec_plugin_of(spec_automation_target(t, param_id)) == Some(t),
{
}

/// Different parameters, or different instances, have different automation targets.
pub proof fn law_automation_target_injective(t1: PluginTarget, p1: u32, t2: PluginTarget, p2: u32)
    requires
        spec_automation_target(t1, p1) == spec_automation_target(t2, p2),
    ensures
        t1 == t2,
        p1 == p2,
{
    law_automation_target_round_trip(t1, p1);
    law_automation_target_round_trip(t2, p2);
}

/// Identifies which mixer channel a command or snapshot applies to.
#[derive(Clone, Copy, Debug, PartialEq, Eq, Structural, Hash)]
pub enum MixerChannelTarget {
    /// Mixer channel owned by a project track.
    Track(TrackId),
    /// Auxiliary mixer bus channel.
    Bus(BusId),
    /// Final master output channel.
    Master,
}

/// Specifies the location of an effect chain.
#[derive(Clone, Copy, Debug, PartialEq, Eq, Structural, Hash)]
pub enum EffectTarget {
    /// Effect chain belonging to a track.
    Track(TrackId),
    /// Master output effect chain.
    Master,
    /// Effect chain belonging to an auxiliary bus.
    Bus(BusId),
}

/// Which mixer channel parameter a mixer command sets.
#[derive(Clone, Copy, Debug, PartialEq, Eq, Structural, Hash)]
pub enum MixerParamKind {
    Volume,
    Pan,
    Mute,
    InvertedPhase,
    Solo,
}

/// The automation target of a mixer parameter: volume and pan can be
/// automated, the switches cannot.
pub open spec fn spec_mixer_param_target(target: MixerChannelTarget, kind: MixerParamKind) -> Option<AutomationTarget> {
    let mix = match kind {
        MixerParamKind::Volume => Some(MixerChannelParamTarget::Volume),
        MixerParamKind::Pan => Some(MixerChannelParamTarget::Pan),
        _ => None,
    };
    match mix {
        Some(mt) => Some(match target {
            MixerChannelTarget::Track(track_id) => AutomationTarget::Track {
                track_id,
                track_target: TrackAutomationTarget::MixerChannel(mt),
            },
            MixerChannelTarget::Bus(bus_id) => AutomationTarget::Bus { bus_id, mix_target: mt },
            MixerChannelTarget::Master => AutomationTarget::Master(MasterAutomationTarget::MixerChannel(mt)),
        }),
        None => None,
    }
}

/// The automation target that a mixer parameter change on `target` moves,
/// if that parameter can be automated.
pub fn mixer_param_automation_target(target: MixerChannelTarget, kind: MixerParamKind) -> (r: Option<AutomationTarget>)
    ensures
        r == spec_mixer_param_target(target, kind),
{
    let mt = match kind {
        MixerParamKind::Volume => MixerChannelParamTarget::Volume,
        MixerParamKind::Pan => MixerChannelParamTarget::Pan,
        _ => {
            return None;
        },
    };
    Some(match target {
        MixerChannelTarget::Track(track_id) => AutomationTarget::Track {
            track_id,
            track_target: TrackAutomationTarget::MixerChannel(mt),
        },
        MixerChannelTarget::Bus(bus_id) => AutomationTarget::Bus { bus_id, mix_target: mt },
        MixerChannelTarget::Master => AutomationTarget::Master(MasterAutomationTarget::MixerChannel(mt)),
    })
}

/// The mixer channel and channel parameter that an automation target
/// drives, if it drives one (a generator parameter drives none).
pub open spec fn spec_mixer_channel_of(a: AutomationTarget) -> Option<(MixerChannelTarget, MixerChannelParamTarget)> {
    match a {
        AutomationTarget::Generator { .. } => None,
        AutomationTarget::Track { track_id, track_target: TrackAutomationTarget::MixerChannel(m) } => Some(
            (MixerChannelTarget::Track(track_id), m),
        ),
        AutomationTarget::Bus { bus_id, mix_target } => Some((MixerChannelTarget::Bus(bus_id), mix_target)),
        AutomationTarget::Master(MasterAutomationTarget::MixerChannel(m)) => Some((MixerChannelTarget::Master, m)),
    }
}

impl AutomationTarget {
    /// The mixer channel and channel parameter this target drives, if any.
    pub fn mixer_channel(&self) -> (r: Option<(MixerChannelTarget, MixerChannelParamTarget)>)
        ensures
            r == spec_mixer_channel_of(*self),
    {
        match *self {
            AutomationTarget::Generator { .. } => None,
            AutomationTarget::Track { track_id, track_target } => match track_target {
                TrackAutomationTarget::MixerChannel(m) => Some((MixerChannelTarget::Track(track_id), m)),
            },
            AutomationTarget::Bus { bus_id, mix_target } => Some((MixerChannelTarget::Bus(bus_id), mix_target)),
            AutomationTarget::Master(MasterAutomationTarget::MixerChannel(m)) => Some((MixerChannelTarget::Master, m)),
        }
    }
}

/// A mixer parameter's automation target leads back to the same channel and
/// parameter.
pub proof fn law_mixer_param_target_round_trip(target: MixerChannelTarget, kind: MixerParamKind)
    ensures
        spec_mixer_param_target(target, kind) matches Some(a) ==> spec_mixer_channel_of(a) == Some((
            target,
            if kind == MixerParamKind::Volume { MixerChannelParamTarget::Volume } else { MixerChannelParamTarget::Pan },
        )),
        (kind == MixerParamKind::Volume || kind == MixerParamKind::Pan) <==> spec_mixer_param_target(target, kind) is Some,
{
}

} // verus!
