use karbeat_core::{
    AudioEffectInstance, AudioGeneratorInstance, AudioPluginState, BusId, EffectId, EffectTarget,
    GeneratorId, PluginRef, PluginTarget, TrackId,
};

fn plugin(handle: u64) -> PluginRef {
    PluginRef { handle, hosted_instance: None, missing: false }
}

fn generator(id: u32, handle: u64) -> AudioGeneratorInstance {
    AudioGeneratorInstance { id: GeneratorId(id), track_id: TrackId(1), registry_id: 7, plugin: plugin(handle) }
}

fn effect(id: u32, handle: u64) -> AudioEffectInstance {
    AudioEffectInstance { id: EffectId(id), registry_id: 9, plugin: plugin(handle) }
}

#[test]
fn plugins_queued_before_state_drop_are_all_retired() {
    const ROUNDS: usize = 25;
    const PER_ROUND: usize = 16;
    let mut retired = 0;

    for round in 0..ROUNDS {
        let mut state = AudioPluginState::new();
        for i in 0..PER_ROUND {
            let handle = (round * PER_ROUND + i) as u64;
            if i % 2 == 0 {
                assert!(state.insert_generator(generator(i as u32, handle)).is_none());
            } else {
                state.add_master_effect(effect(i as u32, handle));
            }
        }
        retired += state.clear_generators().len();
        retired += state.clear_effects().len();
    }

    assert_eq!(retired, ROUNDS * PER_ROUND);
}

#[test]
fn inserting_a_generator_twice_replaces_it_in_place() {
    let mut state = AudioPluginState::new();
    assert_eq!(state.insert_generator(generator(3, 30)), None);
    assert_eq!(state.insert_generator(generator(3, 31)), Some(plugin(30)));
    assert_eq!(state.get_generator(GeneratorId(3)).map(|g| g.plugin), Some(plugin(31)));
    assert_eq!(state.plugin(&PluginTarget::Generator(GeneratorId(3))), Some(plugin(31)));
}

#[test]
fn removing_a_generator_keeps_the_others() {
    let mut state = AudioPluginState::new();
    state.insert_generator(generator(1, 10));
    state.insert_generator(generator(2, 20));
    state.insert_generator(generator(3, 30));
    assert_eq!(state.remove_generator(GeneratorId(2)), Some(plugin(20)));
    assert_eq!(state.remove_generator(GeneratorId(2)), None);
    assert!(state.get_generator(GeneratorId(2)).is_none());
    assert_eq!(state.get_generator(GeneratorId(1)).map(|g| g.plugin), Some(plugin(10)));
    assert_eq!(state.get_generator(GeneratorId(3)).map(|g| g.plugin), Some(plugin(30)));
    state.insert_generator(generator(4, 40));
    assert_eq!(state.get_generator(GeneratorId(4)).map(|g| g.plugin), Some(plugin(40)));
}

#[test]
fn clearing_generators_hands_back_every_plugin() {
    let mut state = AudioPluginState::new();
    state.insert_generator(generator(1, 10));
    state.insert_generator(generator(2, 20));
    let mut retired: Vec<u64> = state.clear_generators().iter().map(|p| p.handle).collect();
    retired.sort();
    assert_eq!(retired, vec![10, 20]);
    assert!(state.get_generator(GeneratorId(1)).is_none());
}

#[test]
fn track_effects_grow_the_chain_list() {
    let mut state = AudioPluginState::new();
    state.add_track_effect(3, effect(1, 10));
    assert_eq!(state.get_track_effects(0).map(|c| c.len()), Some(0));
    assert_eq!(state.get_track_effects(3).map(|c| c.len()), Some(1));
    assert!(state.get_track_effects(4).is_none());
    assert_eq!(state.plugin(&PluginTarget::TrackEffect(TrackId(3), EffectId(1))), Some(plugin(10)));
    assert_eq!(state.plugin(&PluginTarget::TrackEffect(TrackId(2), EffectId(1))), None);
}

#[test]
fn adding_a_bus_empties_its_chain() {
    let mut state = AudioPluginState::new();
    state.add_bus_effect(1, effect(1, 10));
    state.add_bus_effect(1, effect(2, 20));
    let retired: Vec<u64> = state.add_bus(1).iter().map(|p| p.handle).collect();
    assert_eq!(retired, vec![10, 20]);
    assert_eq!(state.get_bus_effects(1).map(|c| c.len()), Some(0));
    assert!(state.add_bus(5).is_empty());
    assert_eq!(state.get_bus_effects(5).map(|c| c.len()), Some(0));
    assert!(state.remove_bus(9).is_empty());
}

#[test]
fn removing_and_moving_effects() {
    let mut state = AudioPluginState::new();
    for (id, handle) in [(1, 10), (2, 20), (3, 30)] {
        state.add_master_effect(effect(id, handle));
    }
    state.move_effect(EffectTarget::Master, EffectId(1), 10);
    let order: Vec<u32> = state.get_master_effects().iter().map(|e| e.id.0).collect();
    assert_eq!(order, vec![2, 3, 1]);
    state.move_effect(EffectTarget::Master, EffectId(1), 0);
    let order: Vec<u32> = state.get_master_effects().iter().map(|e| e.id.0).collect();
    assert_eq!(order, vec![1, 2, 3]);
    assert_eq!(state.remove_effect(EffectTarget::Master, EffectId(2)), Some(effect(2, 20)));
    assert_eq!(state.remove_effect(EffectTarget::Master, EffectId(2)), None);
    assert_eq!(state.remove_effect(EffectTarget::Bus(BusId(4)), EffectId(1)), None);
    let order: Vec<u32> = state.get_master_effects().iter().map(|e| e.id.0).collect();
    assert_eq!(order, vec![1, 3]);
}

#[test]
fn clearing_effects_hands_back_tracks_then_buses_then_master() {
    let mut state = AudioPluginState::new();
    state.add_master_effect(effect(1, 1));
    state.add_bus_effect(0, effect(2, 2));
    state.add_track_effect(1, effect(3, 3));
    state.add_track_effect(0, effect(4, 4));
    let retired: Vec<u64> = state.clear_effects().iter().map(|p| p.handle).collect();
    assert_eq!(retired, vec![4, 3, 2, 1]);
    assert!(state.get_master_effects().is_empty());
    assert!(state.get_track_effects(0).is_none());
}

#[test]
fn swapping_and_removing_by_target() {
    let mut state = AudioPluginState::new();
    state.insert_generator(generator(1, 10));
    state.add_master_effect(effect(5, 50));
    let target = PluginTarget::MasterEffect(EffectId(5));
    assert_eq!(state.swap_plugin(target, plugin(51)), Some(plugin(50)));
    assert_eq!(state.plugin(&target), Some(plugin(51)));
    assert_eq!(state.get_master_effects()[0].registry_id, 9);
    assert_eq!(state.swap_plugin(PluginTarget::Generator(GeneratorId(1)), plugin(11)), Some(plugin(10)));
    assert_eq!(state.get_generator(GeneratorId(1)).map(|g| g.registry_id), Some(7));
    assert_eq!(state.remove_plugin(target), Some(plugin(51)));
    assert_eq!(state.remove_plugin(target), None);
    assert_eq!(state.remove_plugin(PluginTarget::Generator(GeneratorId(1))), Some(plugin(11)));
}
