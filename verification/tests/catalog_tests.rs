use karbeat_core::{
    PluginCatalog, PluginDescriptor, PluginFormat, PluginIdentity, PluginInfo, PluginKind,
};

fn descriptor() -> PluginDescriptor {
    PluginDescriptor {
        identity: PluginIdentity {
            format: PluginFormat::Vst3,
            native_id: "56535456697461766974616C00000000".into(),
        },
        path: "/old/Vital.vst3".into(),
        name: "Vital".into(),
        vendor: "Vital Audio".into(),
        version: "1".into(),
        kind: PluginKind::Instrument,
    }
}

fn built_ins() -> Vec<PluginInfo> {
    vec![
        PluginInfo { id: 1, name: "Digidaw Delay".into(), is_synth: false },
        PluginInfo { id: 2, name: "Digidaw Synth".into(), is_synth: true },
    ]
}

/// Seed that identity hashing gives the test plugin.
const SEED: u32 = 0x1234_5678;

#[test]
fn reserves_builtin_ids_and_keeps_identity_across_relocation_and_failed_scans() {
    let probe = PluginCatalog::new(built_ins());
    let mut plugin = descriptor();
    let collision = probe.allocate_id(SEED);
    let mut reserved = built_ins();
    reserved.push(PluginInfo { id: collision, name: "Reserved".into(), is_synth: false });
    let mut catalog = PluginCatalog::new(reserved);
    catalog.merge(vec![(plugin.clone(), SEED)]);
    let id = catalog.resolve(&plugin.identity).map(|entry| entry.id);
    assert_ne!(id, Some(collision));
    assert!(built_ins()
        .iter()
        .all(|builtin| catalog.list().iter().any(|p| p.id == builtin.id && p.name == builtin.name)));
    plugin.path = "/new/Vital.vst3".into();
    catalog.merge(vec![(plugin.clone(), SEED)]);
    catalog.merge(vec![]);
    assert_eq!(
        catalog.resolve(&plugin.identity).map(|entry| (entry.id, entry.descriptor.path.clone())),
        id.map(|id| (id, plugin.path.clone()))
    );
    assert_eq!(catalog.external_entries().len(), 1);
    catalog.mark_missing(&plugin.identity);
    assert!(!catalog.list().iter().any(|p| Some(p.id) == id));
    catalog.merge(vec![(plugin.clone(), SEED)]);
    assert!(catalog
        .resolve(&plugin.identity)
        .is_some_and(|entry| entry.available && Some(entry.id) == id));
}

#[test]
fn allocation_probes_past_taken_ids_and_wraps() {
    let catalog = PluginCatalog::new(vec![
        PluginInfo { id: u32::MAX, name: "A".into(), is_synth: false },
        PluginInfo { id: 0, name: "B".into(), is_synth: false },
    ]);
    assert_eq!(catalog.allocate_id(u32::MAX), 1);
    assert_eq!(catalog.allocate_id(7), 7);
    assert!(catalog.is_taken(0));
    assert!(!catalog.is_taken(7));
}

#[test]
fn list_is_sorted_by_name_then_id() {
    let mut catalog = PluginCatalog::new(vec![
        PluginInfo { id: 9, name: "Zeta".into(), is_synth: false },
        PluginInfo { id: 4, name: "Alpha".into(), is_synth: true },
    ]);
    let mut other = descriptor();
    other.identity.native_id = "other".into();
    other.name = "Alpha".into();
    other.kind = PluginKind::Effect;
    catalog.merge(vec![(other, 2)]);
    let listed: Vec<(u32, String, bool)> =
        catalog.list().into_iter().map(|p| (p.id, p.name, p.is_synth)).collect();
    assert_eq!(
        listed,
        vec![(2, "Alpha".to_string(), false), (4, "Alpha".to_string(), true), (9, "Zeta".to_string(), false)]
    );
    assert!(catalog.external(2).is_some());
    assert!(catalog.external(3).is_none());
}

#[test]
fn external_entries_are_sorted_by_name() {
    let mut catalog = PluginCatalog::new(vec![]);
    let mut a = descriptor();
    a.identity.native_id = "a".into();
    a.name = "Beta".into();
    let mut b = descriptor();
    b.identity.native_id = "b".into();
    b.name = "Alpha".into();
    catalog.merge(vec![(a, 10), (b, 10)]);
    let names: Vec<(u32, String)> =
        catalog.external_entries().into_iter().map(|e| (e.id, e.descriptor.name)).collect();
    assert_eq!(names, vec![(11, "Alpha".to_string()), (10, "Beta".to_string())]);
}
