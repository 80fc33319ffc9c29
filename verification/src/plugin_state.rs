//! Plugin instances owned by the audio thread: generators kept in a slab arena
//! with an id-to-key table, and effect chains per track, per bus and on the
//! master channel.
//!
//! Plugin objects themselves live on the host side; here each is a
//! [`PluginRef`] that carries its handle and the facts the engine decides on.
//! Operations that drop a plugin hand its reference back so the caller can
//! retire the object off the audio thread.

use vstd::prelude::*;

use slab::Slab;

use crate::event::{EffectTarget, PluginTarget};
use crate::ids::{EffectId, GeneratorId, TrackId};

verus! {

/// A plugin object held by the host, as the engine sees it.
#[derive(Clone, Copy, Debug, PartialEq, Eq, Structural)]
pub struct PluginRef {
    /// Handle under which the host keeps the plugin object.
    pub handle: u64,
    /// Instance number when the plugin is an externally hosted processor.
    pub hosted_instance: Option<u64>,
    /// Whether the plugin is the placeholder standing in for an unavailable plugin.
    pub missing: bool,
}

/// A generator plugin instance owned by the audio thread.
#[derive(Clone, Copy, Debug, PartialEq, Eq, Structural)]
pub struct AudioGeneratorInstance {
    pub id: GeneratorId,
    pub track_id: TrackId,
    /// Stable plugin type identifier used to create another instance.
    pub registry_id: u32,
    pub plugin: PluginRef,
}

/// An effect plugin instance owned by the audio thread.
#[derive(Clone, Copy, Debug, PartialEq, Eq, Structural)]
pub struct AudioEffectInstance {
    pub id: EffectId,
    /// Stable plugin type identifier used to create another instance.
    pub registry_id: u32,
    pub plugin: PluginRef,
}

// ---------------------------------------------------------------------------
// The generator arena (`slab::Slab`)
// ---------------------------------------------------------------------------

#[verifier::external_type_specification]
#[verifier::external_body]
#[verifier::reject_recursive_types(T)]
pub struct ExSlab<T>(Slab<T>);

/// The occupied entries of a generator arena, by slab key.
pub uninterp spec fn generator_slots(s: Slab<AudioGeneratorInstance>) -> Map<usize, AudioGeneratorInstance>;

/// An arena with no occupied entry.
pub open spec fn no_slots() -> Map<usize, AudioGeneratorInstance> {
    Map::empty()
}

/// `Slab::new`: an arena with no occupied entry.
#[verifier::external_body]
fn slab_new() -> (s: Slab<AudioGeneratorInstance>)
    ensures
        generator_slots(s) == no_slots(),
{
    Slab::new()
}

/// `Slab::insert`: stores `value` under the arena's next vacant key, which
/// was not occupied before, and returns that key. Nothing else changes.
#[verifier::external_body]
fn slab_insert(s: &mut Slab<AudioGeneratorInstance>, value: AudioGeneratorInstance) -> (key: usize)
    ensures
        !generator_slots(*old(s)).dom().contains(key),
        generator_slots(*final(s)) == generator_slots(*old(s)).insert(key, value),
{
    s.insert(value)
}

/// `Slab::get`: the entry under `key`, if that key is occupied.
#[verifier::external_body]
fn slab_get(s: &Slab<AudioGeneratorInstance>, key: usize) -> (r: Option<&AudioGeneratorInstance>)
    ensures
        match r {
            Some(v) => generator_slots(*s).dom().contains(key) && *v == generator_slots(*s)[key],
            None => !generator_slots(*s).dom().contains(key),
        },
{
    s.get(key)
}

/// `Slab::get_mut` followed by `std::mem::replace`: puts `value` under the
/// occupied `key` and returns the entry it displaced.
#[verifier::external_body]
fn slab_replace(s: &mut Slab<AudioGeneratorInstance>, key: usize, value: AudioGeneratorInstance) -> (r: Option<AudioGeneratorInstance>)
    ensures
        match r {
            Some(v) => generator_slots(*old(s)).dom().contains(key)
                && v == generator_slots(*old(s))[key]
                && generator_slots(*final(s)) == generator_slots(*old(s)).insert(key, value),
            None => !generator_slots(*old(s)).dom().contains(key)
                && generator_slots(*final(s)) == generator_slots(*old(s)),
        },
{
    match s.get_mut(key) {
        Some(slot) => Some(std::mem::replace(slot, value)),
        None => None,
    }
}

/// `Slab::try_remove`: takes the entry under `key` out of the arena, if occupied.
#[verifier::external_body]
fn slab_try_remove(s: &mut Slab<AudioGeneratorInstance>, key: usize) -> (r: Option<AudioGeneratorInstance>)
    ensures
        generator_slots(*final(s)) == generator_slots(*old(s)).remove(key),
        match r {
            Some(v) => generator_slots(*old(s)).dom().contains(key) && v == generator_slots(*old(s))[key],
            None => !generator_slots(*old(s)).dom().contains(key),
        },
{
    s.try_remove(key)
}

/// `drained` lists the occupied entries of `slots` in ascending key order,
/// `keys` being their keys: each occupied entry comes out exactly once.
pub open spec fn listed_in_key_order(
    slots: Map<usize, AudioGeneratorInstance>,
    keys: Seq<usize>,
    drained: Seq<AudioGeneratorInstance>,
) -> bool {
    &&& keys.len() == drained.len()
    &&& forall|i: int, j: int| 0 <= i < j < keys.len() ==> keys[i] < keys[j]
    &&& forall|i: int|
        0 <= i < keys.len() ==> slots.dom().contains(#[trigger] keys[i]) && drained[i] == slots[keys[i]]
    &&& forall|k: usize| #[trigger] slots.dom().contains(k) ==> keys.contains(k)
}

/// `Slab::drain`, collected: the arena is left empty, and the drained values
/// are its occupied entries, each once, in ascending key order.
#[verifier::external_body]
fn slab_drain(s: &mut Slab<AudioGeneratorInstance>) -> (r: Vec<AudioGeneratorInstance>)
    ensures
        generator_slots(*final(s)) == no_slots(),
        exists|keys: Seq<usize>| listed_in_key_order(generator_slots(*old(s)), keys, r@),
{
    s.drain().collect()
}

/// `plugins` holds the plugin of each generator of `m` exactly once, in the
/// order of `ids`.
pub open spec fn each_plugin_once(
    m: Map<GeneratorId, AudioGeneratorInstance>,
    ids: Seq<GeneratorId>,
    plugins: Seq<PluginRef>,
) -> bool {
    &&& ids.no_duplicates()
    &&& ids.to_set() == m.dom()
    &&& plugins.len() == ids.len()
    &&& forall|i: int| 0 <= i < ids.len() ==> plugins[i] == m[#[trigger] ids[i]].plugin
}

// ---------------------------------------------------------------------------
// The id-to-key table (`hashbrown::HashMap`)
// ---------------------------------------------------------------------------

/// Maps a generator id to the arena key of its entry.
#[verifier::external_body]
pub struct GeneratorKeyTable {
    table: hashbrown::HashMap<u32, usize>,
}

/// The entries of a [`GeneratorKeyTable`].
pub uninterp spec fn generator_key_entries(t: GeneratorKeyTable) -> Map<u32, usize>;

/// A table with no entry.
pub open spec fn no_key_entries() -> Map<u32, usize> {
    Map::empty()
}

/// `hashbrown::HashMap::new`: an empty table.
#[verifier::external_body]
fn key_table_new() -> (t: GeneratorKeyTable)
    ensures
        generator_key_entries(t) == no_key_entries(),
{
    GeneratorKeyTable { table: hashbrown::HashMap::new() }
}

/// `hashbrown::HashMap::get`, copied: the key stored for `id`, if any.
#[verifier::external_body]
fn key_table_get(t: &GeneratorKeyTable, id: u32) -> (r: Option<usize>)
    ensures
        match r {
            Some(k) => generator_key_entries(*t).dom().contains(id) && k == generator_key_entries(*t)[id],
            None => !generator_key_entries(*t).dom().contains(id),
        },
{
    t.table.get(&id).copied()
}

/// `hashbrown::HashMap::insert`: stores `key` for `id`.
#[verifier::external_body]
fn key_table_insert(t: &mut GeneratorKeyTable, id: u32, key: usize)
    ensures
        generator_key_entries(*final(t)) == generator_key_entries(*old(t)).insert(id, key),
{
    t.table.insert(id, key);
}

/// `hashbrown::HashMap::remove`: takes out the key stored for `id`, if any.
#[verifier::external_body]
fn key_table_remove(t: &mut GeneratorKeyTable, id: u32) -> (r: Option<usize>)
    ensures
        generator_key_entries(*final(t)) == generator_key_entries(*old(t)).remove(id),
        match r {
            Some(k) => generator_key_entries(*old(t)).dom().contains(id) && k == generator_key_entries(*old(t))[id],
            None => !generator_key_entries(*old(t)).dom().contains(id),
        },
{
    t.table.remove(&id)
}

/// `hashbrown::HashMap::clear`: removes every entry.
#[verifier::external_body]
fn key_table_clear(t: &mut GeneratorKeyTable)
    ensures
        generator_key_entries(*final(t)) == no_key_entries(),
{
    t.table.clear();
}

// ---------------------------------------------------------------------------
// Effect chains
// ---------------------------------------------------------------------------

/// The plugins of a chain, in chain order.
pub open spec fn chain_plugins(chain: Seq<AudioEffectInstance>) -> Seq<PluginRef> {
    chain.map_values(|e: AudioEffectInstance| e.plugin)
}

/// The plugins of a list of chains, chain after chain.
pub open spec fn chains_plugins(chains: Seq<Seq<AudioEffectInstance>>) -> Seq<PluginRef>
    decreases chains.len(),
{
    if chains.len() == 0 {
        Seq::empty()
    } else {
        chains_plugins(chains.drop_last()) + chain_plugins(chains.last())
    }
}

/// The chains of a vector of effect chains, as sequences.
pub open spec fn chains_view(chains: Seq<Vec<AudioEffectInstance>>) -> Seq<Seq<AudioEffectInstance>> {
    chains.map_values(|c: Vec<AudioEffectInstance>| c@)
}

/// `chains` grown with empty chains so that `index` is a valid position.
pub open spec fn padded_to(chains: Seq<Seq<AudioEffectInstance>>, index: int) -> Seq<Seq<AudioEffectInstance>> {
    if index < chains.len() {
        chains
    } else {
        chains + Seq::new((index + 1 - chains.len()) as nat, |i: int| Seq::<AudioEffectInstance>::empty())
    }
}

/// `chains` with `e` appended to the chain at `index`, grown as needed.
pub open spec fn pushed_at(chains: Seq<Seq<AudioEffectInstance>>, index: int, e: AudioEffectInstance) -> Seq<Seq<AudioEffectInstance>> {
    padded_to(chains, index).update(index, padded_to(chains, index)[index].push(e))
}

/// `chains` with the chain at `index` emptied, grown as needed.
pub open spec fn cleared_at(chains: Seq<Seq<AudioEffectInstance>>, index: int) -> Seq<Seq<AudioEffectInstance>> {
    padded_to(chains, index).update(index, Seq::empty())
}

/// Grows `chains` with empty chains until `index` is a valid position.
fn pad_chains(chains: &mut Vec<Vec<AudioEffectInstance>>, index: usize)
    requires
        index < usize::MAX,
    ensures
        chains_view(final(chains)@) == padded_to(chains_view(old(chains)@), index as int),
{
    let ghost start = chains_view(chains@);
    while chains.len() <= index
        invariant
            index < usize::MAX,
            start == chains_view(old(chains)@),
            chains@.len() >= start.len(),
            chains@.len() > start.len() ==> chains@.len() <= index + 1,
            chains_view(chains@) =~= start + Seq::new((chains@.len() - start.len()) as nat, |i: int| Seq::<AudioEffectInstance>::empty()),
        decreases index + 1 - chains@.len(),
    {
        let ghost before = chains_view(chains@);
        let empty: Vec<AudioEffectInstance> = Vec::new();
        chains.push(empty);
        assert(chains_view(chains@) =~= before.push(Seq::<AudioEffectInstance>::empty()));
    }
    assert(chains_view(chains@) =~= padded_to(start, index as int));
}

/// Appends `effect` to the chain at `index`, growing the list as needed.
fn push_to_chain(chains: &mut Vec<Vec<AudioEffectInstance>>, index: usize, effect: AudioEffectInstance)
    requires
        index < usize::MAX,
    ensures
        chains_view(final(chains)@) == pushed_at(chains_view(old(chains)@), index as int, effect),
{
    pad_chains(chains, index);
    let ghost padded = chains_view(chains@);
    assert(padded.len() == chains@.len());
    assert(padded_to(chains_view(old(chains)@), index as int).len() > index);
    chains[index].push(effect);
    assert(chains_view(chains@) =~= padded.update(index as int, padded[index as int].push(effect)));
}

/// Appends the plugins of `chain` to `out`.
fn collect_chain_plugins(chain: &Vec<AudioEffectInstance>, out: &mut Vec<PluginRef>)
    ensures
        final(out)@ == old(out)@ + chain_plugins(chain@),
{
    let ghost start = out@;
    let mut i: usize = 0;
    while i < chain.len()
        invariant
            i <= chain@.len(),
            start == old(out)@,
            out@ =~= start + chain_plugins(chain@).take(i as int),
        decreases chain@.len() - i,
    {
        out.push(chain[i].plugin);
        i = i + 1;
        assert(chain_plugins(chain@).take(i as int) =~= chain_plugins(chain@).take(i - 1).push(chain@[i - 1].plugin));
    }
    assert(chain_plugins(chain@).take(i as int) =~= chain_plugins(chain@));
}

/// Appends the plugins of every chain in `chains`, chain after chain, to `out`.
fn collect_chains_plugins(chains: &Vec<Vec<AudioEffectInstance>>, out: &mut Vec<PluginRef>)
    ensures
        final(out)@ == old(out)@ + chains_plugins(chains_view(chains@)),
{
    let ghost start = out@;
    let ghost all = chains_view(chains@);
    let mut i: usize = 0;
    while i < chains.len()
        invariant
            i <= chains@.len(),
            start == old(out)@,
            all == chains_view(chains@),
            out@ =~= start + chains_plugins(all.take(i as int)),
        decreases chains@.len() - i,
    {
        collect_chain_plugins(&chains[i], out);
        proof {
            assert(all.take(i + 1).drop_last() =~= all.take(i as int));
            assert(all.take(i + 1).last() == chains@[i as int]@);
        }
        i = i + 1;
    }
    assert(all.take(i as int) =~= all);
}

/// `chain` with the effect at `from` taken out and put back at `to`, or at
/// the end when `to` is past it.
pub open spec fn moved(chain: Seq<AudioEffectInstance>, from: int, to: int) -> Seq<AudioEffectInstance> {
    let rest = chain.remove(from);
    rest.insert(if to < rest.len() { to } else { rest.len() as int }, chain[from])
}

/// Removes the first effect with id `id` from `chain` and returns it.
fn remove_from_chain(chain: &mut Vec<AudioEffectInstance>, id: EffectId) -> (r: Option<AudioEffectInstance>)
    ensures
        r == chain_lookup(old(chain)@, id),
        final(chain)@ == (if chain_has(old(chain)@, id) {
            old(chain)@.remove(first_position(old(chain)@, id))
        } else {
            old(chain)@
        }),
{
    match find_effect(chain, id) {
        Some(pos) => Some(chain.remove(pos)),
        None => None,
    }
}

/// Removes the first effect with id `id` from the chain at `index`, if that
/// chain exists, and returns it.
fn remove_from_chains(chains: &mut Vec<Vec<AudioEffectInstance>>, index: usize, id: EffectId) -> (r: Option<AudioEffectInstance>)
    ensures
        r == (if (index as int) < old(chains)@.len() { chain_lookup(old(chains)@[index as int]@, id) } else { None }),
        chains_view(final(chains)@) == (if (index as int) < old(chains)@.len() && chain_has(old(chains)@[index as int]@, id) {
            chains_view(old(chains)@).update(index as int, old(chains)@[index as int]@.remove(first_position(old(chains)@[index as int]@, id)))
        } else {
            chains_view(old(chains)@)
        }),
{
    if index >= chains.len() {
        return None;
    }
    let ghost before = chains_view(chains@);
    let r = remove_from_chain(&mut chains[index], id);
    assert(chains_view(chains@) =~= before.update(index as int, chains@[index as int]@));
    r
}

/// Moves the first effect with id `id` in `chain` to `to`, or to the end
/// when `to` is past it.
fn move_in_chain(chain: &mut Vec<AudioEffectInstance>, id: EffectId, to: usize)
    ensures
        final(chain)@ == (if chain_has(old(chain)@, id) {
            moved(old(chain)@, first_position(old(chain)@, id), to as int)
        } else {
            old(chain)@
        }),
{
    let ghost c = chain@;
    if let Some(pos) = find_effect(chain, id) {
        let e = chain.remove(pos);
        let len = chain.len();
        let at = if to < len { to } else { len };
        chain.insert(at, e);
        assert(chain@ =~= moved(c, pos as int, to as int));
    }
}

/// Moves the first effect with id `id` in the chain at `index`, if that
/// chain exists, to `to`, or to the end when `to` is past it.
fn move_in_chains(chains: &mut Vec<Vec<AudioEffectInstance>>, index: usize, id: EffectId, to: usize)
    ensures
        chains_view(final(chains)@) == (if (index as int) < old(chains)@.len() && chain_has(old(chains)@[index as int]@, id) {
            chains_view(old(chains)@).update(index as int, moved(old(chains)@[index as int]@, first_position(old(chains)@[index as int]@, id), to as int))
        } else {
            chains_view(old(chains)@)
        }),
{
    if index >= chains.len() {
        return;
    }
    let ghost before = chains_view(chains@);
    move_in_chain(&mut chains[index], id, to);
    assert(chains_view(chains@) =~= before.update(index as int, chains@[index as int]@));
}

/// Puts `e` in place of the first effect with id `id` in `chain` and
/// returns the effect it displaced.
fn replace_in_chain(chain: &mut Vec<AudioEffectInstance>, id: EffectId, e: AudioEffectInstance) -> (r: Option<AudioEffectInstance>)
    ensures
        r == chain_lookup(old(chain)@, id),
        final(chain)@ == (if chain_has(old(chain)@, id) {
            old(chain)@.update(first_position(old(chain)@, id), e)
        } else {
            old(chain)@
        }),
{
    match find_effect(chain, id) {
        Some(pos) => {
            let previous = chain[pos];
            chain.set(pos, e);
            Some(previous)
        },
        None => None,
    }
}

/// Puts `e` in place of the first effect with id `id` in the chain at
/// `index`, if that chain exists, and returns the effect it displaced.
fn replace_in_chains(chains: &mut Vec<Vec<AudioEffectInstance>>, index: usize, id: EffectId, e: AudioEffectInstance) -> (r: Option<AudioEffectInstance>)
    ensures
        r == (if (index as int) < old(chains)@.len() { chain_lookup(old(chains)@[index as int]@, id) } else { None }),
        chains_view(final(chains)@) == (if (index as int) < old(chains)@.len() && chain_has(old(chains)@[index as int]@, id) {
            chains_view(old(chains)@).update(index as int, old(chains)@[index as int]@.update(first_position(old(chains)@[index as int]@, id), e))
        } else {
            chains_view(old(chains)@)
        }),
{
    if index >= chains.len() {
        return None;
    }
    let ghost before = chains_view(chains@);
    let r = replace_in_chain(&mut chains[index], id, e);
    assert(chains_view(chains@) =~= before.update(index as int, chains@[index as int]@));
    r
}

/// Whether some effect in `chain` has id `id`.
pub open spec fn chain_has(chain: Seq<AudioEffectInstance>, id: EffectId) -> bool {
    exists|i: int| 0 <= i < chain.len() && #[trigger] chain[i].id == id
}

/// Position of the first effect with id `id` in `chain` (meaningful when [`chain_has`]).
pub open spec fn first_position(chain: Seq<AudioEffectInstance>, id: EffectId) -> int {
    choose|i: int| 0 <= i < chain.len() && chain[i].id == id && forall|j: int| 0 <= j < i ==> #[trigger] chain[j].id != id
}

/// The first effect with id `id` in `chain`, if any.
pub open spec fn chain_lookup(chain: Seq<AudioEffectInstance>, id: EffectId) -> Option<AudioEffectInstance> {
    if chain_has(chain, id) {
        Some(chain[first_position(chain, id)])
    } else {
        None
    }
}

/// Some position of `id` at or before `w` has no earlier one.
proof fn lemma_earliest_exists(chain: Seq<AudioEffectInstance>, id: EffectId, w: int)
    requires
        0 <= w < chain.len(),
        chain[w].id == id,
    ensures
        exists|m: int| 0 <= m < chain.len() && chain[m].id == id && forall|j: int| 0 <= j < m ==> #[trigger] chain[j].id != id,
    decreases w,
{
    if exists|j: int| 0 <= j < w && #[trigger] chain[j].id == id {
        let j = choose|j: int| 0 <= j < w && #[trigger] chain[j].id == id;
        lemma_earliest_exists(chain, id, j);
    } else {
        assert(forall|j: int| 0 <= j < w ==> #[trigger] chain[j].id != id);
    }
}

/// When `id` occurs in `chain`, [`first_position`] is its earliest position.
pub proof fn lemma_first_position(chain: Seq<AudioEffectInstance>, id: EffectId)
    requires
        chain_has(chain, id),
    ensures
        0 <= first_position(chain, id) < chain.len(),
        chain[first_position(chain, id)].id == id,
        forall|j: int| 0 <= j < first_position(chain, id) ==> #[trigger] chain[j].id != id,
{
    let w = choose|i: int| 0 <= i < chain.len() && #[trigger] chain[i].id == id;
    lemma_earliest_exists(chain, id, w);
}

/// Finds the first position of an effect with id `id` in `chain`.
fn find_effect(chain: &Vec<AudioEffectInstance>, id: EffectId) -> (r: Option<usize>)
    ensures
        match r {
            Some(i) => chain_has(chain@, id) && i == first_position(chain@, id) && i < chain@.len() && chain@[i as int].id == id,
            None => !chain_has(chain@, id),
        },
{
    let mut i: usize = 0;
    while i < chain.len()
        invariant
            i <= chain@.len(),
            forall|j: int| 0 <= j < i ==> #[trigger] chain@[j].id != id,
        decreases chain@.len() - i,
    {
        if chain[i].id == id {
            proof {
                assert(0 <= i < chain@.len() && chain@[i as int].id == id && forall|j: int| 0 <= j < i ==> #[trigger] chain@[j].id != id);
                let p = first_position(chain@, id);
                assert(0 <= p < chain@.len() && chain@[p].id == id && forall|j: int| 0 <= j < p ==> #[trigger] chain@[j].id != id);
                assert(p == i as int) by {
                    if p < i as int {
                        assert(chain@[p].id != id);
                    } else if p > i as int {
                        assert(chain@[i as int].id != id);
                    }
                };
            }
            return Some(i);
        }
        i = i + 1;
    }
    None
}


// ---------------------------------------------------------------------------
// The plugin state
// ---------------------------------------------------------------------------

/// The audio thread's plugin instances: no lock is needed to reach them.
pub struct AudioPluginState {
    /// Generator plugins stored in a compact arena.
    generators: Slab<AudioGeneratorInstance>,
    /// Maps a generator id to the key of its arena entry.
    generator_keys: GeneratorKeyTable,
    /// Effect chain per track; position = track id.
    track_effects: Vec<Vec<AudioEffectInstance>>,
    /// Master effect chain.
    master_effects: Vec<AudioEffectInstance>,
    /// Effect chain per bus; position = bus id.
    bus_effects: Vec<Vec<AudioEffectInstance>>,
}

impl AudioPluginState {
    /// The arena entries and the id table agree: each id maps to an occupied
    /// key whose entry carries that id, and each entry is reached from its id.
    pub closed spec fn wf(&self) -> bool {
        let slots = generator_slots(self.generators);
        let keys = generator_key_entries(self.generator_keys);
        &&& forall|id: u32| #[trigger] keys.dom().contains(id) ==> slots.dom().contains(keys[id]) && slots[keys[id]].id.0 == id
        &&& forall|k: usize| #[trigger] slots.dom().contains(k) ==> keys.dom().contains(slots[k].id.0) && keys[slots[k].id.0] == k
    }

    /// The generators, by id.
    pub closed spec fn generator_map(&self) -> Map<GeneratorId, AudioGeneratorInstance> {
        let slots = generator_slots(self.generators);
        let keys = generator_key_entries(self.generator_keys);
        Map::new(|g: GeneratorId| keys.dom().contains(g.0), |g: GeneratorId| slots[keys[g.0]])
    }

    /// The effect chains of the tracks; position = track id.
    pub closed spec fn track_chains(&self) -> Seq<Seq<AudioEffectInstance>> {
        chains_view(self.track_effects@)
    }

    /// The master effect chain.
    pub closed spec fn master_chain(&self) -> Seq<AudioEffectInstance> {
        self.master_effects@
    }

    /// The effect chains of the buses; position = bus id.
    pub closed spec fn bus_chains(&self) -> Seq<Seq<AudioEffectInstance>> {
        chains_view(self.bus_effects@)
    }

    /// Every generator is stored under its own id.
    pub proof fn lemma_generator_ids(&self)
        requires
            self.wf(),
        ensures
            forall|g: GeneratorId| #[trigger] self.generator_map().dom().contains(g) ==> self.generator_map()[g].id == g,
    {
    }

    /// A state with no generator and no effect chain.
    pub fn new() -> (s: Self)
        ensures
            s.wf(),
            s.generator_map() == Map::<GeneratorId, AudioGeneratorInstance>::empty(),
            s.track_chains().len() == 0,
            s.master_chain().len() == 0,
            s.bus_chains().len() == 0,
    {
        let s = AudioPluginState {
            generators: slab_new(),
            generator_keys: key_table_new(),
            track_effects: Vec::new(),
            master_effects: Vec::new(),
            bus_effects: Vec::new(),
        };
        assert(s.generator_map() =~= Map::<GeneratorId, AudioGeneratorInstance>::empty());
        s
    }

    /// Inserts a generator, or replaces the one with the same id in place.
    /// Returns the plugin it displaced, which the caller retires.
    pub fn insert_generator(&mut self, instance: AudioGeneratorInstance) -> (retired: Option<PluginRef>)
        requires
            old(self).wf(),
        ensures
            final(self).wf(),
            final(self).generator_map() == old(self).generator_map().insert(instance.id, instance),
            retired == (if old(self).generator_map().dom().contains(instance.id) {
                Some(old(self).generator_map()[instance.id].plugin)
            } else {
                None
            }),
            final(self).track_chains() == old(self).track_chains(),
            final(self).master_chain() == old(self).master_chain(),
            final(self).bus_chains() == old(self).bus_chains(),
    {
        let ghost old_slots = generator_slots(self.generators);
        let ghost keys = generator_key_entries(self.generator_keys);
        let id = instance.id;
        match key_table_get(&self.generator_keys, id.0) {
            Some(key) => {
                let previous = slab_replace(&mut self.generators, key, instance);
                proof {
                    let slots = generator_slots(self.generators);
                    assert forall|k: usize| #[trigger] slots.dom().contains(k) implies keys.dom().contains(slots[k].id.0) && keys[slots[k].id.0] == k by {
                        assert(old_slots.dom().contains(k));
                    };
                    assert(self.generator_map() =~= old(self).generator_map().insert(id, instance));
                }
                match previous {
                    Some(p) => Some(p.plugin),
                    None => None,
                }
            },
            None => {
                let key = slab_insert(&mut self.generators, instance);
                key_table_insert(&mut self.generator_keys, id.0, key);
                proof {
                    let slots = generator_slots(self.generators);
                    let keys2 = generator_key_entries(self.generator_keys);
                    assert forall|g: u32| #[trigger] keys2.dom().contains(g) implies slots.dom().contains(keys2[g]) && slots[keys2[g]].id.0 == g by {
                        if g != id.0 {
                            assert(keys.dom().contains(g));
                            assert(old_slots.dom().contains(keys[g]));
                        }
                    };
                    assert forall|k: usize| #[trigger] slots.dom().contains(k) implies keys2.dom().contains(slots[k].id.0) && keys2[slots[k].id.0] == k by {
                        if k != key {
                            assert(old_slots.dom().contains(k));
                            assert(keys.dom().contains(old_slots[k].id.0));
                        }
                    };
                    assert(self.generator_map() =~= old(self).generator_map().insert(id, instance));
                }
                None
            },
        }
    }

    /// Removes a generator without moving any other arena entry. Returns its
    /// plugin, which the caller retires.
    pub fn remove_generator(&mut self, id: GeneratorId) -> (retired: Option<PluginRef>)
        requires
            old(self).wf(),
        ensures
            final(self).wf(),
            final(self).generator_map() == old(self).generator_map().remove(id),
            retired == (if old(self).generator_map().dom().contains(id) {
                Some(old(self).generator_map()[id].plugin)
            } else {
                None
            }),
            final(self).track_chains() == old(self).track_chains(),
            final(self).master_chain() == old(self).master_chain(),
            final(self).bus_chains() == old(self).bus_chains(),
    {
        let ghost old_slots = generator_slots(self.generators);
        let ghost keys = generator_key_entries(self.generator_keys);
        match key_table_remove(&mut self.generator_keys, id.0) {
            Some(key) => {
                let removed = slab_try_remove(&mut self.generators, key);
                proof {
                    let slots = generator_slots(self.generators);
                    let keys2 = generator_key_entries(self.generator_keys);
                    assert forall|g: u32| #[trigger] keys2.dom().contains(g) implies slots.dom().contains(keys2[g]) && slots[keys2[g]].id.0 == g by {
                        assert(keys.dom().contains(g));
                        assert(old_slots.dom().contains(keys[g]));
                    };
                    assert forall|k: usize| #[trigger] slots.dom().contains(k) implies keys2.dom().contains(slots[k].id.0) && keys2[slots[k].id.0] == k by {
                        assert(old_slots.dom().contains(k));
                        assert(keys.dom().contains(old_slots[k].id.0));
                    };
                    assert(self.generator_map() =~= old(self).generator_map().remove(id));
                }
                match removed {
                    Some(g) => Some(g.plugin),
                    None => None,
                }
            },
            None => {
                proof {
                    assert(self.generator_map() =~= old(self).generator_map().remove(id));
                }
                None
            },
        }
    }

    /// Removes every generator and every id-to-key entry. Returns the plugin
    /// of each removed generator, each exactly once, which the caller retires.
    pub fn clear_generators(&mut self) -> (retired: Vec<PluginRef>)
        requires
            old(self).wf(),
        ensures
            final(self).wf(),
            final(self).generator_map() == Map::<GeneratorId, AudioGeneratorInstance>::empty(),
            exists|ids: Seq<GeneratorId>| each_plugin_once(old(self).generator_map(), ids, retired@),
            final(self).track_chains() == old(self).track_chains(),
            final(self).master_chain() == old(self).master_chain(),
            final(self).bus_chains() == old(self).bus_chains(),
    {
        let drained = slab_drain(&mut self.generators);
        key_table_clear(&mut self.generator_keys);
        let mut retired: Vec<PluginRef> = Vec::new();
        let mut i: usize = 0;
        while i < drained.len()
            invariant
                i <= drained@.len(),
                retired@.len() == i,
                forall|j: int| 0 <= j < i ==> #[trigger] retired@[j] == drained@[j].plugin,
            decreases drained@.len() - i,
        {
            retired.push(drained[i].plugin);
            i = i + 1;
        }
        proof {
            assert(self.generator_map() =~= Map::<GeneratorId, AudioGeneratorInstance>::empty());
            let keys = choose|keys: Seq<usize>|
                listed_in_key_order(generator_slots(old(self).generators), keys, drained@);
            let ids: Seq<GeneratorId> = Self::lemma_drained_plugins(*old(self), keys, drained@, retired@);
        }
        retired
    }

    /// The plugins taken, in order, from the entries of a drained arena name
    /// each generator of the state exactly once.
    proof fn lemma_drained_plugins(
        state: Self,
        keys: Seq<usize>,
        drained: Seq<AudioGeneratorInstance>,
        retired: Seq<PluginRef>,
    ) -> (ids: Seq<GeneratorId>)
        requires
            state.wf(),
            listed_in_key_order(generator_slots(state.generators), keys, drained),
            retired.len() == drained.len(),
            forall|j: int| 0 <= j < drained.len() ==> #[trigger] retired[j] == drained[j].plugin,
        ensures
            each_plugin_once(state.generator_map(), ids, retired),
    {
        let slots = generator_slots(state.generators);
        let table = generator_key_entries(state.generator_keys);
        let m = state.generator_map();
        let ids = keys.map_values(|k: usize| slots[k].id);
        assert forall|i: int| 0 <= i < ids.len() implies m.dom().contains(#[trigger] ids[i])
            && table[ids[i].0] == keys[i] && retired[i] == m[ids[i]].plugin by {
            assert(slots.dom().contains(keys[i]));
        }
        assert forall|i: int, j: int| 0 <= i < ids.len() && 0 <= j < ids.len() && i != j implies ids[i]
            != ids[j] by {
            assert(table[ids[i].0] == keys[i]);
            assert(table[ids[j].0] == keys[j]);
        }
        assert forall|g: GeneratorId| #[trigger] m.dom().contains(g) implies ids.contains(g) by {
            let k = table[g.0];
            assert(slots.dom().contains(k));
            let i = choose|i: int| 0 <= i < keys.len() && keys[i] == k;
            assert(ids[i] == slots[keys[i]].id);
            assert(ids[i] == g);
        }
        assert(ids.to_set() =~= m.dom());
        ids
    }

    /// The generator with id `id`, if any.
    pub fn get_generator(&self, id: GeneratorId) -> (r: Option<&AudioGeneratorInstance>)
        requires
            self.wf(),
        ensures
            match r {
                Some(g) => self.generator_map().dom().contains(id) && *g == self.generator_map()[id],
                None => !self.generator_map().dom().contains(id),
            },
    {
        match key_table_get(&self.generator_keys, id.0) {
            Some(key) => slab_get(&self.generators, key),
            None => None,
        }
    }

    /// Swaps the plugin of generator `id` for `plugin`, keeping its other
    /// fields. Returns the plugin it displaced, which the caller retires;
    /// nothing changes when there is no such generator.
    pub fn replace_generator_plugin(&mut self, id: GeneratorId, plugin: PluginRef) -> (retired: Option<PluginRef>)
        requires
            old(self).wf(),
        ensures
            final(self).wf(),
            final(self).generator_map() == (if old(self).generator_map().dom().contains(id) {
                old(self).generator_map().insert(id, AudioGeneratorInstance { plugin, ..old(self).generator_map()[id] })
            } else {
                old(self).generator_map()
            }),
            retired == (if old(self).generator_map().dom().contains(id) {
                Some(old(self).generator_map()[id].plugin)
            } else {
                None
            }),
            final(self).track_chains() == old(self).track_chains(),
            final(self).master_chain() == old(self).master_chain(),
            final(self).bus_chains() == old(self).bus_chains(),
    {
        let current = match self.get_generator(id) {
            Some(g) => *g,
            None => {
                return None;
            },
        };
        let updated = AudioGeneratorInstance { plugin, ..current };
        self.insert_generator(updated)
    }

    /// The chain that `target` names, if that chain exists.
    pub open spec fn effect_chain(&self, target: EffectTarget) -> Option<Seq<AudioEffectInstance>> {
        match target {
            EffectTarget::Track(t) => if (t.0 as int) < self.track_chains().len() {
                Some(self.track_chains()[t.0 as int])
            } else {
                None
            },
            EffectTarget::Bus(b) => if (b.0 as int) < self.bus_chains().len() {
                Some(self.bus_chains()[b.0 as int])
            } else {
                None
            },
            EffectTarget::Master => Some(self.master_chain()),
        }
    }

    /// The effect `id` on the chain that `target` names, if there is one.
    pub open spec fn effect_on(&self, target: EffectTarget, id: EffectId) -> Option<AudioEffectInstance> {
        match self.effect_chain(target) {
            Some(chain) => chain_lookup(chain, id),
            None => None,
        }
    }

    /// The plugin that `target` names, if there is one.
    pub open spec fn plugin_at(&self, target: PluginTarget) -> Option<PluginRef> {
        match target {
            PluginTarget::Generator(id) => if self.generator_map().dom().contains(id) {
                Some(self.generator_map()[id].plugin)
            } else {
                None
            },
            PluginTarget::TrackEffect(t, e) => match self.effect_on(EffectTarget::Track(t), e) {
                Some(x) => Some(x.plugin),
                None => None,
            },
            PluginTarget::BusEffect(b, e) => match self.effect_on(EffectTarget::Bus(b), e) {
                Some(x) => Some(x.plugin),
                None => None,
            },
            PluginTarget::MasterEffect(e) => match self.effect_on(EffectTarget::Master, e) {
                Some(x) => Some(x.plugin),
                None => None,
            },
        }
    }

    /// The effect chain of track position `index`, if it exists.
    pub fn get_track_effects(&self, index: usize) -> (r: Option<&Vec<AudioEffectInstance>>)
        ensures
            match r {
                Some(c) => index < self.track_chains().len() && c@ == self.track_chains()[index as int],
                None => index >= self.track_chains().len(),
            },
    {
        if index < self.track_effects.len() {
            Some(&self.track_effects[index])
        } else {
            None
        }
    }

    /// The effect chain of bus position `index`, if it exists.
    pub fn get_bus_effects(&self, index: usize) -> (r: Option<&Vec<AudioEffectInstance>>)
        ensures
            match r {
                Some(c) => index < self.bus_chains().len() && c@ == self.bus_chains()[index as int],
                None => index >= self.bus_chains().len(),
            },
    {
        if index < self.bus_effects.len() {
            Some(&self.bus_effects[index])
        } else {
            None
        }
    }

    /// The master effect chain.
    pub fn get_master_effects(&self) -> (r: &Vec<AudioEffectInstance>)
        ensures
            r@ == self.master_chain(),
    {
        &self.master_effects
    }

    /// The effect chain that `target` names, if it exists.
    pub fn effect_list(&self, target: EffectTarget) -> (r: Option<&Vec<AudioEffectInstance>>)
        ensures
            match r {
                Some(c) => self.effect_chain(target) == Some(c@),
                None => self.effect_chain(target) is None,
            },
    {
        match target {
            EffectTarget::Track(t) => self.get_track_effects(t.0 as usize),
            EffectTarget::Bus(b) => self.get_bus_effects(b.0 as usize),
            EffectTarget::Master => Some(&self.master_effects),
        }
    }

    /// The plugin that `target` names, if there is one.
    pub fn plugin(&self, target: &PluginTarget) -> (r: Option<PluginRef>)
        requires
            self.wf(),
        ensures
            r == self.plugin_at(*target),
    {
        let (list, effect) = match *target {
            PluginTarget::Generator(id) => {
                return match self.get_generator(id) {
                    Some(g) => Some(g.plugin),
                    None => None,
                };
            },
            PluginTarget::TrackEffect(t, e) => (self.effect_list(EffectTarget::Track(t)), e),
            PluginTarget::BusEffect(b, e) => (self.effect_list(EffectTarget::Bus(b)), e),
            PluginTarget::MasterEffect(e) => (self.effect_list(EffectTarget::Master), e),
        };
        match list {
            Some(chain) => match find_effect(chain, effect) {
                Some(i) => Some(chain[i].plugin),
                None => None,
            },
            None => None,
        }
    }

    /// `other` is `self` with the chain that `target` names set to `chain`,
    /// and nothing else changed.
    pub open spec fn chain_replaced(&self, other: &Self, target: EffectTarget, chain: Seq<AudioEffectInstance>) -> bool {
        &&& other.generator_map() == self.generator_map()
        &&& match target {
            EffectTarget::Track(t) => other.track_chains() == self.track_chains().update(t.0 as int, chain)
                && other.bus_chains() == self.bus_chains() && other.master_chain() == self.master_chain(),
            EffectTarget::Bus(b) => other.bus_chains() == self.bus_chains().update(b.0 as int, chain)
                && other.track_chains() == self.track_chains() && other.master_chain() == self.master_chain(),
            EffectTarget::Master => other.master_chain() == chain
                && other.track_chains() == self.track_chains() && other.bus_chains() == self.bus_chains(),
        }
    }

    /// `other` holds the same generators and chains as `self`.
    pub open spec fn same_plugins(&self, other: &Self) -> bool {
        &&& other.generator_map() == self.generator_map()
        &&& other.track_chains() == self.track_chains()
        &&& other.bus_chains() == self.bus_chains()
        &&& other.master_chain() == self.master_chain()
    }

    /// Appends an effect to the chain of track position `index`, adding empty
    /// chains up to that position as needed.
    pub fn add_track_effect(&mut self, index: usize, effect: AudioEffectInstance)
        requires
            old(self).wf(),
            index < usize::MAX,
        ensures
            final(self).wf(),
            final(self).track_chains() == pushed_at(old(self).track_chains(), index as int, effect),
            final(self).generator_map() == old(self).generator_map(),
            final(self).bus_chains() == old(self).bus_chains(),
            final(self).master_chain() == old(self).master_chain(),
    {
        push_to_chain(&mut self.track_effects, index, effect);
    }

    /// Appends an effect to the chain of bus position `index`, adding empty
    /// chains up to that position as needed.
    pub fn add_bus_effect(&mut self, index: usize, effect: AudioEffectInstance)
        requires
            old(self).wf(),
            index < usize::MAX,
        ensures
            final(self).wf(),
            final(self).bus_chains() == pushed_at(old(self).bus_chains(), index as int, effect),
            final(self).generator_map() == old(self).generator_map(),
            final(self).track_chains() == old(self).track_chains(),
            final(self).master_chain() == old(self).master_chain(),
    {
        push_to_chain(&mut self.bus_effects, index, effect);
    }

    /// Appends an effect to the master chain.
    pub fn add_master_effect(&mut self, effect: AudioEffectInstance)
        requires
            old(self).wf(),
        ensures
            final(self).wf(),
            final(self).master_chain() == old(self).master_chain().push(effect),
            final(self).generator_map() == old(self).generator_map(),
            final(self).track_chains() == old(self).track_chains(),
            final(self).bus_chains() == old(self).bus_chains(),
    {
        self.master_effects.push(effect);
    }

    /// Prepares an empty chain for bus position `index`: adds empty chains up
    /// to it as needed and empties a chain already there. Returns the plugins
    /// of the effects it removed, in chain order, which the caller retires.
    pub fn add_bus(&mut self, index: usize) -> (retired: Vec<PluginRef>)
        requires
            old(self).wf(),
            index < usize::MAX,
        ensures
            final(self).wf(),
            final(self).bus_chains() == cleared_at(old(self).bus_chains(), index as int),
            retired@ == (if (index as int) < old(self).bus_chains().len() {
                chain_plugins(old(self).bus_chains()[index as int])
            } else {
                Seq::empty()
            }),
            final(self).generator_map() == old(self).generator_map(),
            final(self).track_chains() == old(self).track_chains(),
            final(self).master_chain() == old(self).master_chain(),
    {
        pad_chains(&mut self.bus_effects, index);
        let ghost padded = chains_view(self.bus_effects@);
        assert(padded.len() == self.bus_effects@.len());
        assert(padded_to(old(self).bus_chains(), index as int).len() > index);
        let mut retired: Vec<PluginRef> = Vec::new();
        collect_chain_plugins(&self.bus_effects[index], &mut retired);
        self.bus_effects[index].clear();
        assert(chains_view(self.bus_effects@) =~= padded.update(index as int, Seq::<AudioEffectInstance>::empty()));
        proof {
            if (index as int) < old(self).bus_chains().len() {
                assert(padded[index as int] == old(self).bus_chains()[index as int]);
            } else {
                assert(padded[index as int] =~= Seq::<AudioEffectInstance>::empty());
                assert(chain_plugins(padded[index as int]) =~= Seq::<PluginRef>::empty());
            }
        }
        retired
    }

    /// Empties the chain of bus position `index`, if it exists. Returns the
    /// plugins of the effects it removed, in chain order, which the caller retires.
    pub fn remove_bus(&mut self, index: usize) -> (retired: Vec<PluginRef>)
        requires
            old(self).wf(),
        ensures
            final(self).wf(),
            final(self).bus_chains() == (if (index as int) < old(self).bus_chains().len() {
                old(self).bus_chains().update(index as int, Seq::empty())
            } else {
                old(self).bus_chains()
            }),
            retired@ == (if (index as int) < old(self).bus_chains().len() {
                chain_plugins(old(self).bus_chains()[index as int])
            } else {
                Seq::empty()
            }),
            final(self).generator_map() == old(self).generator_map(),
            final(self).track_chains() == old(self).track_chains(),
            final(self).master_chain() == old(self).master_chain(),
    {
        let mut retired: Vec<PluginRef> = Vec::new();
        if index < self.bus_effects.len() {
            let ghost before = chains_view(self.bus_effects@);
            collect_chain_plugins(&self.bus_effects[index], &mut retired);
            self.bus_effects[index].clear();
            assert(chains_view(self.bus_effects@) =~= before.update(index as int, Seq::<AudioEffectInstance>::empty()));
            assert(retired@ =~= chain_plugins(before[index as int]));
        }
        retired
    }

    /// Removes every effect chain. Returns the plugins of the removed effects,
    /// which the caller retires: track chains in order, then bus chains, then
    /// the master chain.
    pub fn clear_effects(&mut self) -> (retired: Vec<PluginRef>)
        requires
            old(self).wf(),
        ensures
            final(self).wf(),
            final(self).track_chains().len() == 0,
            final(self).bus_chains().len() == 0,
            final(self).master_chain().len() == 0,
            retired@ == chains_plugins(old(self).track_chains()) + chains_plugins(old(self).bus_chains())
                + chain_plugins(old(self).master_chain()),
            final(self).generator_map() == old(self).generator_map(),
    {
        let mut retired: Vec<PluginRef> = Vec::new();
        collect_chains_plugins(&self.track_effects, &mut retired);
        collect_chains_plugins(&self.bus_effects, &mut retired);
        collect_chain_plugins(&self.master_effects, &mut retired);
        self.track_effects.clear();
        self.bus_effects.clear();
        self.master_effects.clear();
        assert(retired@ =~= chains_plugins(old(self).track_chains()) + chains_plugins(old(self).bus_chains())
            + chain_plugins(old(self).master_chain()));
        retired
    }

    /// Removes the first effect with id `id` from the chain that `target`
    /// names and returns it; nothing changes when there is no such effect.
    pub fn remove_effect(&mut self, target: EffectTarget, id: EffectId) -> (removed: Option<AudioEffectInstance>)
        requires
            old(self).wf(),
        ensures
            final(self).wf(),
            removed == old(self).effect_on(target, id),
            match old(self).effect_chain(target) {
                Some(c) => if chain_has(c, id) {
                    old(self).chain_replaced(&*final(self), target, c.remove(first_position(c, id)))
                } else {
                    old(self).same_plugins(&*final(self))
                },
                None => old(self).same_plugins(&*final(self)),
            },
    {
        match target {
            EffectTarget::Track(t) => remove_from_chains(&mut self.track_effects, t.0 as usize, id),
            EffectTarget::Bus(b) => remove_from_chains(&mut self.bus_effects, b.0 as usize, id),
            EffectTarget::Master => remove_from_chain(&mut self.master_effects, id),
        }
    }

    /// Puts `effect` in place of the first effect with id `id` on the chain
    /// that `target` names and returns the effect it displaced; nothing
    /// changes when there is no such effect.
    pub fn replace_effect(&mut self, target: EffectTarget, id: EffectId, effect: AudioEffectInstance) -> (displaced: Option<AudioEffectInstance>)
        requires
            old(self).wf(),
        ensures
            final(self).wf(),
            displaced == old(self).effect_on(target, id),
            match old(self).effect_chain(target) {
                Some(c) => if chain_has(c, id) {
                    old(self).chain_replaced(&*final(self), target, c.update(first_position(c, id), effect))
                } else {
                    old(self).same_plugins(&*final(self))
                },
                None => old(self).same_plugins(&*final(self)),
            },
    {
        match target {
            EffectTarget::Track(t) => replace_in_chains(&mut self.track_effects, t.0 as usize, id, effect),
            EffectTarget::Bus(b) => replace_in_chains(&mut self.bus_effects, b.0 as usize, id, effect),
            EffectTarget::Master => replace_in_chain(&mut self.master_effects, id, effect),
        }
    }

    /// Moves the first effect with id `id` in the chain that `target` names
    /// to `new_position`, or to the end when that is past it; nothing changes
    /// when there is no such effect.
    pub fn move_effect(&mut self, target: EffectTarget, id: EffectId, new_position: usize)
        requires
            old(self).wf(),
        ensures
            final(self).wf(),
            match old(self).effect_chain(target) {
                Some(c) => if chain_has(c, id) {
                    old(self).chain_replaced(&*final(self), target, moved(c, first_position(c, id), new_position as int))
                } else {
                    old(self).same_plugins(&*final(self))
                },
                None => old(self).same_plugins(&*final(self)),
            },
    {
        match target {
            EffectTarget::Track(t) => move_in_chains(&mut self.track_effects, t.0 as usize, id, new_position),
            EffectTarget::Bus(b) => move_in_chains(&mut self.bus_effects, b.0 as usize, id, new_position),
            EffectTarget::Master => move_in_chain(&mut self.master_effects, id, new_position),
        }
    }

    /// Moves generator `id` to track `track_id`, keeping its other fields;
    /// nothing changes when there is no such generator.
    pub fn set_generator_track(&mut self, id: GeneratorId, track_id: TrackId)
        requires
            old(self).wf(),
        ensures
            final(self).wf(),
            final(self).generator_map() == (if old(self).generator_map().dom().contains(id) {
                old(self).generator_map().insert(id, AudioGeneratorInstance { track_id, ..old(self).generator_map()[id] })
            } else {
                old(self).generator_map()
            }),
            final(self).track_chains() == old(self).track_chains(),
            final(self).master_chain() == old(self).master_chain(),
            final(self).bus_chains() == old(self).bus_chains(),
    {
        let current = match self.get_generator(id) {
            Some(g) => *g,
            None => {
                return;
            },
        };
        let updated = AudioGeneratorInstance { track_id, ..current };
        let _ = self.insert_generator(updated);
    }

    /// The chain target of an effect plugin target.
    pub open spec fn chain_of(target: PluginTarget) -> EffectTarget {
        match target {
            PluginTarget::TrackEffect(t, _) => EffectTarget::Track(t),
            PluginTarget::BusEffect(b, _) => EffectTarget::Bus(b),
            _ => EffectTarget::Master,
        }
    }

    /// Removes the plugin that `target` names and returns it: a generator
    /// leaves the arena, an effect leaves its chain. Nothing changes when
    /// there is no such plugin.
    pub fn remove_plugin(&mut self, target: PluginTarget) -> (removed: Option<PluginRef>)
        requires
            old(self).wf(),
        ensures
            final(self).wf(),
            removed == old(self).plugin_at(target),
            match target {
                PluginTarget::Generator(id) => final(self).generator_map() == old(self).generator_map().remove(id)
                    && final(self).track_chains() == old(self).track_chains()
                    && final(self).bus_chains() == old(self).bus_chains()
                    && final(self).master_chain() == old(self).master_chain(),
                PluginTarget::TrackEffect(_, e) | PluginTarget::BusEffect(_, e) | PluginTarget::MasterEffect(e) =>
                    match old(self).effect_chain(Self::chain_of(target)) {
                        Some(c) => if chain_has(c, e) {
                            old(self).chain_replaced(&*final(self), Self::chain_of(target), c.remove(first_position(c, e)))
                        } else {
                            old(self).same_plugins(&*final(self))
                        },
                        None => old(self).same_plugins(&*final(self)),
                    },
            },
    {
        let (chain, effect) = match target {
            PluginTarget::Generator(id) => {
                return self.remove_generator(id);
            },
            PluginTarget::TrackEffect(t, e) => (EffectTarget::Track(t), e),
            PluginTarget::BusEffect(b, e) => (EffectTarget::Bus(b), e),
            PluginTarget::MasterEffect(e) => (EffectTarget::Master, e),
        };
        match self.remove_effect(chain, effect) {
            Some(x) => Some(x.plugin),
            None => None,
        }
    }

    /// `after` is this state with `plugin` in place of the plugin that
    /// `target` names (see [`AudioPluginState::swap_plugin`]).
    pub open spec fn plugin_swapped(&self, after: &Self, target: PluginTarget, plugin: PluginRef) -> bool {
        match target {
            PluginTarget::Generator(id) => after.generator_map() == (if self.generator_map().dom().contains(id) {
                    self.generator_map().insert(id, AudioGeneratorInstance { plugin, ..self.generator_map()[id] })
                } else {
                    self.generator_map()
                })
                && after.track_chains() == self.track_chains()
                && after.bus_chains() == self.bus_chains()
                && after.master_chain() == self.master_chain(),
            PluginTarget::TrackEffect(_, e) | PluginTarget::BusEffect(_, e) | PluginTarget::MasterEffect(e) =>
                match self.effect_chain(Self::chain_of(target)) {
                    Some(c) => if chain_has(c, e) {
                        self.chain_replaced(after, Self::chain_of(target),
                            c.update(first_position(c, e), AudioEffectInstance { plugin, ..c[first_position(c, e)] }))
                    } else {
                        self.same_plugins(after)
                    },
                    None => self.same_plugins(after),
                },
        }
    }

    /// Puts `plugin` in place of the plugin that `target` names, keeping the
    /// entry's other fields, and returns the plugin it displaced. Nothing
    /// changes when there is no such plugin.
    pub fn swap_plugin(&mut self, target: PluginTarget, plugin: PluginRef) -> (displaced: Option<PluginRef>)
        requires
            old(self).wf(),
        ensures
            final(self).wf(),
            displaced == old(self).plugin_at(target),
            old(self).plugin_swapped(&*final(self), target, plugin),
    {
        let (chain, effect) = match target {
            PluginTarget::Generator(id) => {
                return self.replace_generator_plugin(id, plugin);
            },
            PluginTarget::TrackEffect(t, e) => (EffectTarget::Track(t), e),
            PluginTarget::BusEffect(b, e) => (EffectTarget::Bus(b), e),
            PluginTarget::MasterEffect(e) => (EffectTarget::Master, e),
        };
        let current = match self.effect_list(chain) {
            Some(list) => match find_effect(list, effect) {
                Some(i) => list[i],
                None => {
                    return None;
                },
            },
            None => {
                return None;
            },
        };
        let updated = AudioEffectInstance { plugin, ..current };
        match self.replace_effect(chain, effect, updated) {
            Some(x) => Some(x.plugin),
            None => None,
        }
    }

    /// After a generator is inserted, looking up its id finds its plugin, and
    /// every other generator id finds what it found before.
    pub proof fn law_insert_generator_then_lookup(before: Self, after: Self, x: AudioGeneratorInstance, other: GeneratorId)
        requires
            before.wf(),
            after.wf(),
            after.generator_map() == before.generator_map().insert(x.id, x),
        ensures
            after.plugin_at(PluginTarget::Generator(x.id)) == Some(x.plugin),
            other != x.id ==> after.plugin_at(PluginTarget::Generator(other)) == before.plugin_at(PluginTarget::Generator(other)),
    {
    }

    /// After a generator is removed, looking up its id finds nothing, and
    /// every other generator id finds what it found before.
    pub proof fn law_remove_generator_then_lookup(before: Self, after: Self, id: GeneratorId, other: GeneratorId)
        requires
            before.wf(),
            after.wf(),
            after.generator_map() == before.generator_map().remove(id),
        ensures
            after.plugin_at(PluginTarget::Generator(id)) is None,
            other != id ==> after.plugin_at(PluginTarget::Generator(other)) == before.plugin_at(PluginTarget::Generator(other)),
    {
    }

    /// Clearing the generators retires exactly as many plugins as the state
    /// held generators: none is lost and none is retired twice.
    pub proof fn law_cleared_generators_all_retired(
        before: Self,
        ids: Seq<GeneratorId>,
        retired: Seq<PluginRef>,
    )
        requires
            before.wf(),
            each_plugin_once(before.generator_map(), ids, retired),
        ensures
            retired.len() == before.generator_map().dom().len(),
    {
        ids.unique_seq_to_set();
    }

    /// A bus that was just added holds no effect, whatever it held before.
    pub proof fn law_added_bus_is_empty(before: Self, after: Self, index: u32, effect: EffectId)
        requires
            after.bus_chains() == cleared_at(before.bus_chains(), index as int),
        ensures
            after.effect_chain(EffectTarget::Bus(crate::ids::BusId(index))) == Some(Seq::<AudioEffectInstance>::empty()),
            after.effect_on(EffectTarget::Bus(crate::ids::BusId(index)), effect) is None,
    {
        let c = after.bus_chains()[index as int];
        assert(!chain_has(c, effect));
    }

    /// A moved effect lands at the requested position, or last when that
    /// position is past the end of the chain, and the other effects keep
    /// their order around it.
    pub proof fn law_moved_effect_lands_at_position(chain: Seq<AudioEffectInstance>, from: int, to: int)
        requires
            0 <= from < chain.len(),
            0 <= to,
        ensures
            ({
                let p = if to < chain.len() - 1 { to } else { chain.len() - 1 };
                &&& moved(chain, from, to).len() == chain.len()
                &&& moved(chain, from, to)[p] == chain[from]
                &&& moved(chain, from, to).remove(p) == chain.remove(from)
            }),
    {
        let p = if to < chain.len() - 1 { to } else { chain.len() - 1 };
        assert(moved(chain, from, to).remove(p) =~= chain.remove(from));
    }

    /// Moving an effect within a chain keeps exactly the same effects.
    pub proof fn law_move_keeps_effects(chain: Seq<AudioEffectInstance>, from: int, to: int)
        requires
            0 <= from < chain.len(),
            0 <= to,
        ensures
            moved(chain, from, to).to_multiset() == chain.to_multiset(),
            moved(chain, from, to).len() == chain.len(),
    {
        broadcast use vstd::seq_lib::to_multiset_remove, vstd::seq_lib::to_multiset_insert;
        broadcast use vstd::multiset::group_multiset_axioms;
        let rest = chain.remove(from);
        let at = if to < rest.len() { to } else { rest.len() as int };
        assert(rest.insert(at, chain[from]).to_multiset() == rest.to_multiset().insert(chain[from]));
        assert(rest.to_multiset() == chain.to_multiset().remove(chain[from]));
        assert(chain.to_multiset().count(chain[from]) > 0) by {
            vstd::seq_lib::to_multiset_contains(chain, chain[from]);
        };
        assert(moved(chain, from, to).to_multiset() =~= chain.to_multiset());
    }

    /// Removing an effect hands back the effect that the target named, and the
    /// chain loses exactly that one entry.
    pub proof fn law_remove_effect_hands_back_named(chain: Seq<AudioEffectInstance>, id: EffectId)
        requires
            chain_has(chain, id),
        ensures
            chain_lookup(chain, id) == Some(chain[first_position(chain, id)]),
            chain.remove(first_position(chain, id)).len() + 1 == chain.len(),
            chain.remove(first_position(chain, id)).to_multiset() == chain.to_multiset().remove(chain[first_position(chain, id)]),
    {
        lemma_first_position(chain, id);
        vstd::seq_lib::to_multiset_remove(chain, first_position(chain, id));
    }
}

} // verus!
