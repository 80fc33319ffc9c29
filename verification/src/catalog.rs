//! The plugin catalog: first-party plugins with reserved ids, and external
//! plugins found by discovery, each with a process-local id that stays the
//! same for the same plugin identity across rescans and relocations.

use std::collections::HashSet;
use vstd::prelude::*;

use vstd::utf8::encode_utf8;

verus! {

/// Plugin format of an external plugin.
#[derive(Clone, Copy, Debug, PartialEq, Eq, Structural)]
pub enum PluginFormat {
    Vst3,
}

/// What an external plugin is.
#[derive(Clone, Copy, Debug, PartialEq, Eq, Structural)]
pub enum PluginKind {
    Instrument,
    Effect,
}

/// Stable identity of an external plugin: its format and native class id.
#[derive(Debug)]
pub struct PluginIdentity {
    pub format: PluginFormat,
    pub native_id: String,
}

/// What discovery reports about an external plugin.
#[derive(Debug)]
pub struct PluginDescriptor {
    pub identity: PluginIdentity,
    pub path: String,
    pub name: String,
    pub vendor: String,
    pub version: String,
    pub kind: PluginKind,
}

/// An external plugin known to the catalog.
#[derive(Debug)]
pub struct ExternalPluginEntry {
    /// Process-local numeric id used by API calls and project plugin instances.
    pub id: u32,
    /// Identity, path, metadata and kind as discovery reported them.
    pub descriptor: PluginDescriptor,
    /// Whether the descriptor currently resolves to a usable installation.
    pub available: bool,
}

/// A plugin as listed for the user.
#[derive(Debug)]
pub struct PluginInfo {
    pub id: u32,
    pub name: String,
    pub is_synth: bool,
}

impl Clone for PluginIdentity {
    fn clone(&self) -> (r: Self)
        ensures
            r == *self,
    {
        PluginIdentity { format: self.format, native_id: self.native_id.clone() }
    }
}

impl Clone for PluginDescriptor {
    fn clone(&self) -> (r: Self)
        ensures
            r == *self,
    {
        PluginDescriptor {
            identity: self.identity.clone(),
            path: self.path.clone(),
            name: self.name.clone(),
            vendor: self.vendor.clone(),
            version: self.version.clone(),
            kind: self.kind,
        }
    }
}

impl Clone for ExternalPluginEntry {
    fn clone(&self) -> (r: Self)
        ensures
            r == *self,
    {
        ExternalPluginEntry { id: self.id, descriptor: self.descriptor.clone(), available: self.available }
    }
}

impl Clone for PluginInfo {
    fn clone(&self) -> (r: Self)
        ensures
            r == *self,
    {
        PluginInfo { id: self.id, name: self.name.clone(), is_synth: self.is_synth }
    }
}

/// Two identities name the same plugin.
pub open spec fn same_identity(a: PluginIdentity, b: PluginIdentity) -> bool {
    a.format == b.format && a.native_id@ == b.native_id@
}

/// Whether two identities name the same plugin.
pub fn identities_match(a: &PluginIdentity, b: &PluginIdentity) -> (r: bool)
    ensures
        r == same_identity(*a, *b),
{
    a.format == b.format && a.native_id == b.native_id
}

// ---------------------------------------------------------------------------
// Display order: by name (as UTF-8 bytes, the way `String` orders), then id.
// ---------------------------------------------------------------------------

/// `a` and `b` agree on their first `k` bytes.
pub open spec fn agree_upto(a: Seq<u8>, b: Seq<u8>, k: int) -> bool {
    forall|j: int| 0 <= j < k ==> a[j] == b[j]
}

/// `a` comes strictly before `b` in byte-wise lexicographic order.
pub open spec fn bytes_before(a: Seq<u8>, b: Seq<u8>) -> bool {
    exists|k: int| #![trigger agree_upto(a, b, k)]
        0 <= k <= a.len() && k <= b.len() && agree_upto(a, b, k)
        && ((k == a.len() && k < b.len()) || (k < a.len() && k < b.len() && a[k] < b[k]))
}

/// The bytes a name is ordered by.
pub open spec fn name_bytes(name: String) -> Seq<u8> {
    encode_utf8(name@)
}

/// `a` is listed strictly before `b`: by name, then by id.
pub open spec fn info_before(a: PluginInfo, b: PluginInfo) -> bool {
    bytes_before(name_bytes(a.name), name_bytes(b.name))
        || (name_bytes(a.name) == name_bytes(b.name) && a.id < b.id)
}

/// No two neighbours of `s` are out of order.
pub open spec fn listed_in_order(s: Seq<PluginInfo>) -> bool {
    forall|i: int, j: int| #![trigger s[i], s[j]] 0 <= i && j == i + 1 && j < s.len() ==> !info_before(s[j], s[i])
}

/// Byte-wise order cannot hold both ways.
proof fn lemma_bytes_before_asymmetric(a: Seq<u8>, b: Seq<u8>)
    requires
        bytes_before(a, b),
    ensures
        !bytes_before(b, a),
{
    let k = choose|k: int| #![trigger agree_upto(a, b, k)]
        0 <= k <= a.len() && k <= b.len() && agree_upto(a, b, k)
        && ((k == a.len() && k < b.len()) || (k < a.len() && k < b.len() && a[k] < b[k]));
    if bytes_before(b, a) {
        let m = choose|m: int| #![trigger agree_upto(b, a, m)]
            0 <= m <= b.len() && m <= a.len() && agree_upto(b, a, m)
            && ((m == b.len() && m < a.len()) || (m < b.len() && m < a.len() && b[m] < a[m]));
        if m < k {
            assert(a[m] == b[m]);
        } else if k < m {
            assert(b[k] == a[k]);
        }
    }
}

/// Listing order cannot hold both ways.
proof fn lemma_info_before_asymmetric(a: PluginInfo, b: PluginInfo)
    requires
        info_before(a, b),
    ensures
        !info_before(b, a),
{
    if bytes_before(name_bytes(a.name), name_bytes(b.name)) {
        lemma_bytes_before_asymmetric(name_bytes(a.name), name_bytes(b.name));
        if name_bytes(b.name) == name_bytes(a.name) {
            lemma_bytes_before_asymmetric(name_bytes(a.name), name_bytes(a.name));
        }
    } else {
        if bytes_before(name_bytes(b.name), name_bytes(a.name)) {
            lemma_bytes_before_asymmetric(name_bytes(b.name), name_bytes(a.name));
        }
    }
}

/// Whether the bytes `a` come strictly before the bytes `b`.
fn bytes_lt(a: &[u8], b: &[u8]) -> (r: bool)
    ensures
        r == bytes_before(a@, b@),
{
    let n = if a.len() < b.len() { a.len() } else { b.len() };
    let mut k: usize = 0;
    while k < n
        invariant
            k <= n,
            n <= a@.len(),
            n <= b@.len(),
            n == a@.len() || n == b@.len(),
            agree_upto(a@, b@, k as int),
        decreases n - k,
    {
        if a[k] != b[k] {
            let r = a[k] < b[k];
            proof {
                if r {
                    assert(agree_upto(a@, b@, k as int));
                } else {
                    if bytes_before(a@, b@) {
                        let m = choose|m: int| #![trigger agree_upto(a@, b@, m)]
                            0 <= m <= a@.len() && m <= b@.len() && agree_upto(a@, b@, m)
                            && ((m == a@.len() && m < b@.len()) || (m < a@.len() && m < b@.len() && a@[m] < b@[m]));
                        if m < k {
                            assert(a@[m] == b@[m]);
                        } else if m > k {
                            assert(a@[k as int] == b@[k as int]);
                        }
                    }
                }
            }
            return r;
        }
        k = k + 1;
    }
    let r = a.len() < b.len();
    proof {
        if r {
            assert(agree_upto(a@, b@, k as int));
        } else if bytes_before(a@, b@) {
            let m = choose|m: int| #![trigger agree_upto(a@, b@, m)]
                0 <= m <= a@.len() && m <= b@.len() && agree_upto(a@, b@, m)
                && ((m == a@.len() && m < b@.len()) || (m < a@.len() && m < b@.len() && a@[m] < b@[m]));
            if m < k {
                assert(a@[m] == b@[m]);
            }
        }
    }
    r
}

/// Whether `a` is listed strictly before `b`.
fn info_lt(a: &PluginInfo, b: &PluginInfo) -> (r: bool)
    ensures
        r == info_before(*a, *b),
{
    let ab = a.name.as_str().as_bytes();
    let bb = b.name.as_str().as_bytes();
    if bytes_lt(ab, bb) {
        return true;
    }
    if bytes_lt(bb, ab) {
        proof {
            lemma_bytes_before_asymmetric(bb@, ab@);
            if ab@ == bb@ {
                lemma_bytes_before_asymmetric(ab@, ab@);
            }
        }
        return false;
    }
    proof {
        // neither comes first: the names are equal byte for byte
        if ab@ != bb@ {
            if ab@.len() != bb@.len() || exists|j: int| 0 <= j < ab@.len() && ab@[j] != bb@[j] {
                lemma_bytes_total(ab@, bb@);
            }
            assert(ab@ =~= bb@);
        }
    }
    a.id < b.id
}

/// Two different byte strings are ordered one way or the other.
proof fn lemma_bytes_total(a: Seq<u8>, b: Seq<u8>)
    requires
        a != b,
    ensures
        bytes_before(a, b) || bytes_before(b, a),
{
    let n = if a.len() < b.len() { a.len() } else { b.len() };
    if exists|j: int| 0 <= j < n && a[j] != b[j] {
        let w = choose|j: int| 0 <= j < n && a[j] != b[j];
        lemma_first_difference(a, b, w);
        let k = choose|k: int| 0 <= k <= w && a[k] != b[k] && agree_upto(a, b, k);
        if a[k] < b[k] {
            assert(agree_upto(a, b, k));
        } else {
            assert(agree_upto(b, a, k));
        }
    } else {
        assert(agree_upto(a, b, n as int));
        assert(agree_upto(b, a, n as int));
        if a.len() == b.len() {
            assert(a =~= b);
        }
    }
}

/// Below any difference there is a first one.
proof fn lemma_first_difference(a: Seq<u8>, b: Seq<u8>, w: int)
    requires
        0 <= w < a.len(),
        w < b.len(),
        a[w] != b[w],
    ensures
        exists|k: int| 0 <= k <= w && a[k] != b[k] && agree_upto(a, b, k),
    decreases w,
{
    if exists|j: int| 0 <= j < w && a[j] != b[j] {
        let j = choose|j: int| 0 <= j < w && a[j] != b[j];
        lemma_first_difference(a, b, j);
    } else {
        assert(agree_upto(a, b, w));
    }
}

/// Where `x` goes in `sorted`: after every entry it does not come before,
/// in front of the first one it does.
fn insertion_point(sorted: &Vec<PluginInfo>, x: &PluginInfo) -> (p: usize)
    ensures
        p <= sorted@.len(),
        forall|j: int| 0 <= j < p ==> !info_before(*x, #[trigger] sorted@[j]),
        p < sorted@.len() ==> info_before(*x, sorted@[p as int]),
{
    let mut p: usize = 0;
    while p < sorted.len()
        invariant
            p <= sorted@.len(),
            forall|j: int| 0 <= j < p ==> !info_before(*x, #[trigger] sorted@[j]),
        decreases sorted@.len() - p,
    {
        if info_lt(x, &sorted[p]) {
            return p;
        }
        p = p + 1;
    }
    p
}

/// Sorts plugins for display: by name, then by id.
fn sort_infos(v: &mut Vec<PluginInfo>)
    ensures
        final(v)@.to_multiset() == old(v)@.to_multiset(),
        final(v)@.len() == old(v)@.len(),
        listed_in_order(final(v)@),
{
    let mut sorted: Vec<PluginInfo> = Vec::new();
    let ghost original = v@;
    let mut taken: usize = 0;
    proof {
        assert(original.subrange(0, 0) =~= sorted@);
        assert(original.len() == v.len());
    }
    while v.len() > 0
        invariant
            original.len() <= usize::MAX,
            sorted@.len() + v@.len() == original.len(),
            taken == sorted@.len(),
            v@ == original.subrange(taken as int, original.len() as int),
            sorted@.to_multiset() == original.subrange(0, taken as int).to_multiset(),
            listed_in_order(sorted@),
        decreases v@.len(),
    {
        broadcast use vstd::seq_lib::to_multiset_insert;
        let x = v.remove(0);
        let p = insertion_point(&sorted, &x);
        let ghost before = sorted@;
        proof {
            if p < before.len() {
                lemma_info_before_asymmetric(x, before[p as int]);
            }
        }
        sorted.insert(p, x);
        proof {
            let after = sorted@;
            assert forall|i: int, j: int| #![trigger after[i], after[j]] 0 <= i && j == i + 1 && j < after.len() implies !info_before(after[j], after[i]) by {
                if i + 1 < p {
                    assert(after[i] == before[i] && after[i + 1] == before[i + 1]);
                } else if i + 1 == p {
                    assert(after[i] == before[i] && after[i + 1] == x);
                    assert(!info_before(x, before[i]));
                } else if i == p {
                    assert(after[i] == x && after[i + 1] == before[i]);
                    assert(info_before(x, before[i]));
                } else {
                    assert(after[i] == before[i - 1] && after[i + 1] == before[i]);
                }
            };
            assert(original.subrange(0, taken + 1) =~= original.subrange(0, taken as int).push(x));
            vstd::seq_lib::to_multiset_build(original.subrange(0, taken as int), x);
            assert(original.subrange(taken + 1, original.len() as int) =~= original.subrange(taken as int, original.len() as int).drop_first());
        }
        taken = taken + 1;
    }
    proof {
        assert(original.subrange(0, taken as int) =~= original);
    }
    *v = sorted;
}

// ---------------------------------------------------------------------------
// The catalog
// ---------------------------------------------------------------------------

/// First-party plugins with their reserved ids, and the external plugins that
/// discovery has reported.
pub struct PluginCatalog {
    built_in: Vec<PluginInfo>,
    reserved: HashSet<u32>,
    external: Vec<ExternalPluginEntry>,
}

/// The id at probe step `d` from `seed`, wrapping around.
pub open spec fn probe(seed: u32, d: int) -> u32 {
    ((seed as int + d) % 0x1_0000_0000) as u32
}

/// Whether some entry of `entries` has id `id`.
pub open spec fn entry_has_id(entries: Seq<ExternalPluginEntry>, id: u32) -> bool {
    exists|i: int| 0 <= i < entries.len() && #[trigger] entries[i].id == id
}

/// Whether some entry of `entries` has identity `identity`.
pub open spec fn entry_has_identity(entries: Seq<ExternalPluginEntry>, identity: PluginIdentity) -> bool {
    exists|i: int| 0 <= i < entries.len() && same_identity(#[trigger] entries[i].descriptor.identity, identity)
}

/// The ids of a list of plugins.
pub open spec fn info_ids(s: Seq<PluginInfo>) -> Seq<u32> {
    s.map_values(|p: PluginInfo| p.id)
}

/// A position of `e` in `entries` (meaningful when `e` occurs there).
pub open spec fn entry_position(entries: Seq<ExternalPluginEntry>, e: ExternalPluginEntry) -> int {
    choose|m: int| 0 <= m < entries.len() && entries[m] == e
}

/// How an external entry is listed.
pub open spec fn info_of(e: ExternalPluginEntry) -> PluginInfo {
    PluginInfo { id: e.id, name: e.descriptor.name, is_synth: e.descriptor.kind == PluginKind::Instrument }
}

/// How the available entries of `entries` are listed, in entry order.
pub open spec fn available_infos(entries: Seq<ExternalPluginEntry>) -> Seq<PluginInfo>
    decreases entries.len(),
{
    if entries.len() == 0 {
        Seq::empty()
    } else if entries.last().available {
        available_infos(entries.drop_last()).push(info_of(entries.last()))
    } else {
        available_infos(entries.drop_last())
    }
}

/// `info` describes entry `e`: its id and name, and it is a synth exactly
/// when the plugin is an instrument.
pub open spec fn describes(info: PluginInfo, e: ExternalPluginEntry) -> bool {
    &&& info.id == e.id
    &&& info.name == e.descriptor.name
    &&& info.is_synth == (e.descriptor.kind == PluginKind::Instrument)
}

/// `info` lists entry `e`: the entry is available and `info` describes it.
pub open spec fn lists(info: PluginInfo, e: ExternalPluginEntry) -> bool {
    e.available && describes(info, e)
}

/// An entry that the `i`-th listed plugin lists (meaningful when there is one).
pub open spec fn listed_entry(entries: Seq<ExternalPluginEntry>, i: int) -> int {
    choose|j: int| 0 <= j < entries.len() && lists(available_infos(entries)[i], entries[j])
}

/// The available entry that the `i`-th listed plugin describes.
proof fn listed_source(entries: Seq<ExternalPluginEntry>, i: int) -> (j: int)
    requires
        0 <= i < available_infos(entries).len(),
    ensures
        0 <= j < entries.len(),
        entries[j].available,
        describes(available_infos(entries)[i], entries[j]),
    decreases entries.len(),
{
    let prev = entries.drop_last();
    if entries.len() > 0 && entries.last().available && i == available_infos(prev).len() {
        entries.len() - 1
    } else {
        assert(entries.len() > 0);
        let k = listed_source(prev, i);
        assert(entries[k] == prev[k]);
        k
    }
}

/// The position at which available entry `j` is listed.
proof fn listed_position(entries: Seq<ExternalPluginEntry>, j: int) -> (i: int)
    requires
        0 <= j < entries.len(),
        entries[j].available,
    ensures
        0 <= i < available_infos(entries).len(),
        describes(available_infos(entries)[i], entries[j]),
    decreases entries.len(),
{
    let prev = entries.drop_last();
    if j == entries.len() - 1 {
        available_infos(prev).len() as int
    } else {
        assert(prev[j] == entries[j]);
        let k = listed_position(prev, j);
        if entries.last().available {
            assert(available_infos(entries)[k] == available_infos(prev)[k]);
        }
        k
    }
}

/// The external plugins listed are the available entries, each described
/// as it is: with its id and name, and as a synth exactly when it is an
/// instrument. Every available entry is listed.
pub proof fn law_listed_plugins_describe_available_entries(entries: Seq<ExternalPluginEntry>)
    ensures
        forall|i: int|
            #![trigger available_infos(entries)[i]]
            0 <= i < available_infos(entries).len() ==> 0 <= listed_entry(entries, i) < entries.len()
                && lists(available_infos(entries)[i], entries[listed_entry(entries, i)]),
        forall|j: int| 0 <= j < entries.len() && #[trigger] entries[j].available ==> exists|i: int|
            0 <= i < available_infos(entries).len() && #[trigger] describes(available_infos(entries)[i], entries[j]),
{
    assert forall|i: int|
        #![trigger available_infos(entries)[i]]
        0 <= i < available_infos(entries).len() implies 0 <= listed_entry(entries, i) < entries.len()
            && lists(available_infos(entries)[i], entries[listed_entry(entries, i)]) by {
        let j = listed_source(entries, i);
        assert(lists(available_infos(entries)[i], entries[j]));
    }
    assert forall|j: int| 0 <= j < entries.len() && #[trigger] entries[j].available implies exists|i: int|
        0 <= i < available_infos(entries).len() && #[trigger] describes(available_infos(entries)[i], entries[j]) by {
        let i = listed_position(entries, j);
    }
}

/// Whether `id` is reserved or used by one of `entries`.
pub open spec fn taken_in(reserved: Set<u32>, entries: Seq<ExternalPluginEntry>, id: u32) -> bool {
    reserved.contains(id) || entry_has_id(entries, id)
}

/// Position of the entry with `identity` in `entries` (meaningful when there is one).
pub open spec fn identity_position_in(entries: Seq<ExternalPluginEntry>, identity: PluginIdentity) -> int {
    choose|i: int| 0 <= i < entries.len() && same_identity(entries[i].descriptor.identity, identity)
}

/// The first free id on the probe sequence from `seed` (meaningful when some id is free).
pub open spec fn allocated_in(reserved: Set<u32>, entries: Seq<ExternalPluginEntry>, seed: u32) -> u32 {
    probe(seed, choose|d: int| 0 <= d < 0x1_0000_0000 && !taken_in(reserved, entries, probe(seed, d))
        && forall|k: int| 0 <= k < d ==> taken_in(reserved, entries, #[trigger] probe(seed, k)))
}

/// `entries` after `descriptor` is merged: a known identity keeps its id
/// and takes the new descriptor; a new identity gets the allocated id.
/// Either way the plugin is available.
pub open spec fn merged_entries(
    reserved: Set<u32>,
    entries: Seq<ExternalPluginEntry>,
    descriptor: PluginDescriptor,
    seed: u32,
) -> Seq<ExternalPluginEntry> {
    if entry_has_identity(entries, descriptor.identity) {
        let k = identity_position_in(entries, descriptor.identity);
        entries.update(k, ExternalPluginEntry { id: entries[k].id, descriptor, available: true })
    } else {
        entries.push(ExternalPluginEntry { id: allocated_in(reserved, entries, seed), descriptor, available: true })
    }
}

/// `entries` after every result of `batch` is merged, in order.
pub open spec fn batch_entries(
    reserved: Set<u32>,
    entries: Seq<ExternalPluginEntry>,
    batch: Seq<(PluginDescriptor, u32)>,
) -> Seq<ExternalPluginEntry>
    decreases batch.len(),
{
    if batch.len() == 0 {
        entries
    } else {
        merged_entries(reserved, batch_entries(reserved, entries, batch.drop_last()), batch.last().0, batch.last().1)
    }
}

impl PluginCatalog {
    /// The first-party plugins.
    pub closed spec fn built_in_plugins(&self) -> Seq<PluginInfo> {
        self.built_in@
    }

    /// Ids that external plugins never get.
    pub closed spec fn reserved_ids(&self) -> Set<u32> {
        self.reserved@
    }

    /// The external entries, in the order they were first reported.
    pub closed spec fn entries(&self) -> Seq<ExternalPluginEntry> {
        self.external@
    }

    /// Whether `id` is reserved or used by an external entry.
    pub open spec fn id_taken(&self, id: u32) -> bool {
        taken_in(self.reserved_ids(), self.entries(), id)
    }

    /// External entries have distinct ids, none of them reserved, and
    /// distinct identities.
    pub open spec fn wf(&self) -> bool {
        &&& forall|i: int, j: int| 0 <= i < j < self.entries().len() ==> self.entries()[i].id != self.entries()[j].id
        &&& forall|i: int, j: int| 0 <= i < j < self.entries().len()
            ==> !same_identity(self.entries()[i].descriptor.identity, self.entries()[j].descriptor.identity)
        &&& forall|i: int| 0 <= i < self.entries().len() ==> !self.reserved_ids().contains(#[trigger] self.entries()[i].id)
        &&& self.reserved_ids().finite()
    }

    /// A catalog of the first-party plugins `built_in`, whose ids it
    /// reserves, and no external plugin.
    pub fn new(built_in: Vec<PluginInfo>) -> (c: Self)
        ensures
            c.wf(),
            c.built_in_plugins() == built_in@,
            c.reserved_ids() == info_ids(built_in@).to_set(),
            c.entries().len() == 0,
    {
        broadcast use vstd::std_specs::hash::group_hash_axioms;

        let mut reserved: HashSet<u32> = HashSet::new();
        let mut i: usize = 0;
        while i < built_in.len()
            invariant
                i <= built_in@.len(),
                reserved@ == info_ids(built_in@).take(i as int).to_set(),
            decreases built_in@.len() - i,
        {
            let ghost before = info_ids(built_in@).take(i as int);
            reserved.insert(built_in[i].id);
            proof {
                let after = info_ids(built_in@).take(i + 1);
                assert(after =~= before.push(built_in@[i as int].id));
                assert(after.to_set() =~= before.to_set().insert(built_in@[i as int].id)) by {
                    assert forall|x: u32| after.to_set().contains(x) <==> before.to_set().insert(built_in@[i as int].id).contains(x) by {
                        if after.contains(x) {
                            let k = choose|k: int| 0 <= k < after.len() && after[k] == x;
                            if k < before.len() {
                                assert(before[k] == x);
                            }
                        }
                        if before.contains(x) {
                            let k = choose|k: int| 0 <= k < before.len() && before[k] == x;
                            assert(after[k] == x);
                        }
                        if x == built_in@[i as int].id {
                            assert(after[i as int] == x);
                        }
                    }
                }
            }
            i = i + 1;
        }
        assert(info_ids(built_in@).take(i as int) =~= info_ids(built_in@));
        proof {
            vstd::seq_lib::seq_to_set_is_finite(info_ids(built_in@));
        }
        PluginCatalog { built_in, reserved, external: Vec::new() }
    }

    /// Whether `id` is reserved or used by an external entry.
    pub fn is_taken(&self, id: u32) -> (r: bool)
        ensures
            r == self.id_taken(id),
    {
        broadcast use vstd::std_specs::hash::group_hash_axioms;

        if self.reserved.contains(&id) {
            return true;
        }
        let mut k: usize = 0;
        while k < self.external.len()
            invariant
                k <= self.external@.len(),
                !self.reserved@.contains(id),
                forall|j: int| 0 <= j < k ==> (#[trigger] self.external@[j]).id != id,
            decreases self.external@.len() - k,
        {
            if self.external[k].id == id {
                assert(self.external@[k as int].id == id);
                return true;
            }
            k = k + 1;
        }
        false
    }

    /// Position of the entry with id `id`, if any.
    fn position_of_id(&self, id: u32) -> (r: Option<usize>)
        ensures
            match r {
                Some(k) => k < self.entries().len() && self.entries()[k as int].id == id,
                None => !entry_has_id(self.entries(), id),
            },
    {
        let mut k: usize = 0;
        while k < self.external.len()
            invariant
                k <= self.external@.len(),
                forall|j: int| 0 <= j < k ==> (#[trigger] self.external@[j]).id != id,
            decreases self.external@.len() - k,
        {
            if self.external[k].id == id {
                return Some(k);
            }
            k = k + 1;
        }
        None
    }

    /// Position of the entry with identity `identity`, if any.
    fn position_of_identity(&self, identity: &PluginIdentity) -> (r: Option<usize>)
        ensures
            match r {
                Some(k) => k < self.entries().len() && same_identity(self.entries()[k as int].descriptor.identity, *identity),
                None => !entry_has_identity(self.entries(), *identity),
            },
    {
        let mut k: usize = 0;
        while k < self.external.len()
            invariant
                k <= self.external@.len(),
                forall|j: int| 0 <= j < k ==> !same_identity((#[trigger] self.external@[j]).descriptor.identity, *identity),
            decreases self.external@.len() - k,
        {
            if identities_match(&self.external[k].descriptor.identity, identity) {
                return Some(k);
            }
            k = k + 1;
        }
        None
    }

    /// The external entry with id `id`, if any.
    pub fn external(&self, id: u32) -> (r: Option<&ExternalPluginEntry>)
        requires
            self.wf(),
        ensures
            match r {
                Some(e) => e.id == id && exists|i: int| 0 <= i < self.entries().len() && self.entries()[i] == *e,
                None => !entry_has_id(self.entries(), id),
            },
    {
        match self.position_of_id(id) {
            Some(k) => Some(&self.external[k]),
            None => None,
        }
    }

    /// The external entry that a persisted identity currently resolves to.
    pub fn resolve(&self, identity: &PluginIdentity) -> (r: Option<&ExternalPluginEntry>)
        requires
            self.wf(),
        ensures
            match r {
                Some(e) => same_identity(e.descriptor.identity, *identity)
                    && exists|i: int| 0 <= i < self.entries().len() && self.entries()[i] == *e,
                None => !entry_has_identity(self.entries(), *identity),
            },
    {
        match self.position_of_identity(identity) {
            Some(k) => Some(&self.external[k]),
            None => None,
        }
    }

    /// Marks the plugin with `identity` unavailable. Only an explicit
    /// removal or a confirmed unavailable location does this; nothing else
    /// changes, and nothing changes for an unknown identity.
    pub fn mark_missing(&mut self, identity: &PluginIdentity)
        requires
            old(self).wf(),
        ensures
            final(self).wf(),
            final(self).built_in_plugins() == old(self).built_in_plugins(),
            final(self).reserved_ids() == old(self).reserved_ids(),
            final(self).entries().len() == old(self).entries().len(),
            forall|i: int| 0 <= i < old(self).entries().len() ==> {
                let e = #[trigger] old(self).entries()[i];
                final(self).entries()[i] == (if same_identity(e.descriptor.identity, *identity) {
                    ExternalPluginEntry { available: false, ..e }
                } else {
                    e
                })
            },
    {
        if let Some(k) = self.position_of_identity(identity) {
            let ghost before = self.external@;
            let mut entry = self.external.remove(k);
            entry.available = false;
            self.external.insert(k, entry);
            proof {
                assert forall|i: int| 0 <= i < before.len() implies {
                    let e = #[trigger] before[i];
                    self.external@[i] == (if same_identity(e.descriptor.identity, *identity) {
                        ExternalPluginEntry { available: false, ..e }
                    } else {
                        e
                    })
                } by {
                    if i != k && same_identity(before[i].descriptor.identity, *identity) {
                        assert(same_identity(before[i].descriptor.identity, before[k as int].descriptor.identity));
                        if i < k {
                            assert(!same_identity(before[i].descriptor.identity, before[k as int].descriptor.identity));
                        } else {
                            assert(!same_identity(before[k as int].descriptor.identity, before[i].descriptor.identity));
                        }
                    }
                };
            }
        }
    }

    /// The ids that are reserved or used, as a set.
    pub open spec fn taken_set(&self) -> Set<u32> {
        self.reserved_ids().union(self.entries().map_values(|e: ExternalPluginEntry| e.id).to_set())
    }

    proof fn lemma_taken_set(&self)
        requires
            self.wf(),
        ensures
            self.taken_set().finite(),
            self.taken_set().len() <= self.reserved_ids().len() + self.entries().len(),
            forall|id: u32| #[trigger] self.taken_set().contains(id) <==> self.id_taken(id),
    {
        let r = self.reserved_ids();
        let e = self.entries().map_values(|x: ExternalPluginEntry| x.id);
        vstd::seq_lib::seq_to_set_is_finite(e);
        e.lemma_cardinality_of_set();
        vstd::set_lib::lemma_len_union(r, e.to_set());
        assert forall|id: u32| #[trigger] self.taken_set().contains(id) <==> self.id_taken(id) by {
            if e.contains(id) {
                let i = choose|i: int| 0 <= i < e.len() && e[i] == id;
                assert(self.entries()[i].id == id);
            }
            if entry_has_id(self.entries(), id) {
                let i = choose|i: int| 0 <= i < self.entries().len() && #[trigger] self.entries()[i].id == id;
                assert(e[i] == id);
            }
        };
    }

    /// The first id on the probe sequence `seed`, `seed + 1`, ... (wrapping
    /// around) that is neither reserved nor used.
    pub fn allocate_id(&self, seed: u32) -> (id: u32)
        requires
            self.wf(),
            self.reserved_ids().len() + self.entries().len() < 0x1_0000_0000,
        ensures
            !self.id_taken(id),
            exists|d: int| 0 <= d < 0x1_0000_0000 && id == probe(seed, d)
                && forall|k: int| 0 <= k < d ==> self.id_taken(#[trigger] probe(seed, k)),
    {
        proof {
            self.lemma_taken_set();
        }
        let mut id = seed;
        let ghost mut steps: int = 0;
        let ghost mut seen: Set<u32> = Set::empty();
        assert(id == probe(seed, 0));
        while self.is_taken(id)
            invariant
                self.wf(),
                self.taken_set().finite(),
                self.taken_set().len() < 0x1_0000_0000,
                forall|x: u32| #[trigger] self.taken_set().contains(x) <==> self.id_taken(x),
                0 <= steps < 0x1_0000_0000,
                id == probe(seed, steps),
                seen.finite(),
                seen.len() == steps,
                seen.subset_of(self.taken_set()),
                forall|x: u32| #[trigger] seen.contains(x) ==> exists|k: int| 0 <= k < steps && x == probe(seed, k),
                forall|k: int| 0 <= k < steps ==> self.id_taken(#[trigger] probe(seed, k)),
            decreases 0x1_0000_0000 - steps,
        {
            proof {
                if seen.contains(id) {
                    let k = choose|k: int| 0 <= k < steps && id == probe(seed, k);
                    assert(probe(seed, k) != probe(seed, steps));
                }
                let next = seen.insert(id);
                assert(next.subset_of(self.taken_set()));
                vstd::set_lib::lemma_len_subset(next, self.taken_set());
                seen = next;
                steps = steps + 1;
                assert forall|x: u32| #[trigger] seen.contains(x) implies exists|k: int| 0 <= k < steps && x == probe(seed, k) by {
                    if x == id {
                        assert(x == probe(seed, steps - 1));
                    }
                };
            }
            id = id.wrapping_add(1);
            assert(id == probe(seed, steps));
        }
        id
    }

    /// Whether the catalog has an entry for `identity`.
    pub open spec fn knows(&self, identity: PluginIdentity) -> bool {
        entry_has_identity(self.entries(), identity)
    }

    /// Position of the entry with `identity` (meaningful when there is one).
    pub open spec fn identity_position(&self, identity: PluginIdentity) -> int {
        identity_position_in(self.entries(), identity)
    }

    /// The id that allocation gives for `seed` (meaningful when some id is free).
    pub open spec fn allocated_id(&self, seed: u32) -> u32 {
        allocated_in(self.reserved_ids(), self.entries(), seed)
    }

    /// The entries after `descriptor` is merged.
    pub open spec fn entries_after_merge(&self, descriptor: PluginDescriptor, seed: u32) -> Seq<ExternalPluginEntry> {
        merged_entries(self.reserved_ids(), self.entries(), descriptor, seed)
    }

    /// Merges one confirmed discovery result; `seed` is where allocation
    /// starts probing for a new identity's id.
    pub fn merge_one(&mut self, descriptor: PluginDescriptor, seed: u32)
        requires
            old(self).wf(),
            old(self).reserved_ids().len() + old(self).entries().len() < 0x1_0000_0000,
        ensures
            final(self).wf(),
            final(self).built_in_plugins() == old(self).built_in_plugins(),
            final(self).reserved_ids() == old(self).reserved_ids(),
            final(self).entries() == old(self).entries_after_merge(descriptor, seed),
    {
        match self.position_of_identity(&descriptor.identity) {
            Some(k) => {
                let ghost before = self.external@;
                proof {
                    let p = self.identity_position(descriptor.identity);
                    assert(same_identity(before[k as int].descriptor.identity, descriptor.identity));
                    if p != k as int {
                        assert(same_identity(before[p].descriptor.identity, before[k as int].descriptor.identity));
                        if p < k {
                            assert(!same_identity(before[p].descriptor.identity, before[k as int].descriptor.identity));
                        } else {
                            assert(!same_identity(before[k as int].descriptor.identity, before[p].descriptor.identity));
                        }
                    }
                }
                let id = self.external[k].id;
                let entry = ExternalPluginEntry { id, descriptor, available: true };
                self.external.set(k, entry);
                proof {
                    let after = self.external@;
                    assert forall|i: int, j: int| 0 <= i < j < after.len()
                        implies !same_identity(after[i].descriptor.identity, after[j].descriptor.identity) by {
                        if i == k as int {
                            if same_identity(after[i].descriptor.identity, after[j].descriptor.identity) {
                                assert(same_identity(before[i].descriptor.identity, before[j].descriptor.identity));
                            }
                        } else if j == k as int {
                            if same_identity(after[i].descriptor.identity, after[j].descriptor.identity) {
                                assert(same_identity(before[i].descriptor.identity, before[j].descriptor.identity));
                            }
                        }
                    };
                    assert forall|i: int| 0 <= i < after.len() implies !self.reserved@.contains(#[trigger] after[i].id) by {
                        assert(after[i].id == before[i].id);
                    };
                }
            },
            None => {
                let id = self.allocate_id(seed);
                proof {
                    let d = choose|d: int| 0 <= d < 0x1_0000_0000 && id == probe(seed, d)
                        && forall|k: int| 0 <= k < d ==> self.id_taken(#[trigger] probe(seed, k));
                    let c = choose|d: int| 0 <= d < 0x1_0000_0000 && !self.id_taken(probe(seed, d))
                        && forall|k: int| 0 <= k < d ==> self.id_taken(#[trigger] probe(seed, k));
                    if c < d {
                        assert(self.id_taken(probe(seed, c)));
                    } else if d < c {
                        assert(self.id_taken(probe(seed, d)));
                    }
                    assert(self.allocated_id(seed) == id);
                }
                let ghost before = self.external@;
                let ghost ident = descriptor.identity;
                assert(!entry_has_identity(before, ident));
                self.external.push(ExternalPluginEntry { id, descriptor, available: true });
                proof {
                    let after = self.external@;
                    assert forall|i: int, j: int| 0 <= i < j < after.len() implies after[i].id != after[j].id by {
                        if j == before.len() {
                            assert(after[i] == before[i]);
                            assert(entry_has_id(before, id) ==> false);
                            assert(before[i].id != id);
                        }
                    };
                    assert forall|i: int, j: int| 0 <= i < j < after.len()
                        implies !same_identity(after[i].descriptor.identity, after[j].descriptor.identity) by {
                        if j == before.len() {
                            assert(after[i] == before[i]);
                            assert(after[j].descriptor.identity == ident);
                            assert(!same_identity(before[i].descriptor.identity, ident));
                        } else {
                            assert(after[i] == before[i] && after[j] == before[j]);
                            assert(!same_identity(before[i].descriptor.identity, before[j].descriptor.identity));
                        }
                    };
                }
            },
        }
    }


    /// Merges confirmed discovery results, in order; each comes with the
    /// seed where allocation starts probing for a new identity's id.
    /// Entries that the batch omits keep their availability: a cancelled or
    /// failed scan never removes a usable plugin.
    pub fn merge(&mut self, batch: Vec<(PluginDescriptor, u32)>)
        requires
            old(self).wf(),
            old(self).reserved_ids().len() + old(self).entries().len() + batch@.len() < 0x1_0000_0000,
        ensures
            final(self).wf(),
            final(self).built_in_plugins() == old(self).built_in_plugins(),
            final(self).reserved_ids() == old(self).reserved_ids(),
            final(self).entries() == batch_entries(old(self).reserved_ids(), old(self).entries(), batch@),
    {
        let ghost orig = batch@;
        let ghost start = self.entries();
        let mut batch = batch;
        let mut n: usize = 0;
        proof {
            assert(orig.take(0) =~= Seq::<(PluginDescriptor, u32)>::empty());
        }
        while batch.len() > 0
            invariant
                self.wf(),
                self.built_in_plugins() == old(self).built_in_plugins(),
                self.reserved_ids() == old(self).reserved_ids(),
                start == old(self).entries(),
                n <= orig.len(),
                batch@ == orig.skip(n as int),
                self.entries() == batch_entries(self.reserved_ids(), start, orig.take(n as int)),
                self.entries().len() <= start.len() + n,
                self.reserved_ids().len() + start.len() + orig.len() < 0x1_0000_0000,
            decreases batch@.len(),
        {
            let (descriptor, seed) = batch.remove(0);
            proof {
                assert(orig[n as int] == (descriptor, seed));
                assert(orig.take(n + 1).drop_last() =~= orig.take(n as int));
                assert(orig.take(n + 1).last() == orig[n as int]);
                assert(orig.skip(n + 1) =~= orig.skip(n as int).drop_first());
            }
            self.merge_one(descriptor, seed);
            n = n + 1;
        }
        proof {
            assert(orig.take(n as int) =~= orig);
        }
    }

    /// The built-in plugins followed by the available external ones, sorted
    /// by name and then id.
    pub fn list(&self) -> (r: Vec<PluginInfo>)
        ensures
            r@.to_multiset() == (self.built_in_plugins() + available_infos(self.entries())).to_multiset(),
            listed_in_order(r@),
    {
        let mut out: Vec<PluginInfo> = Vec::new();
        let mut i: usize = 0;
        while i < self.built_in.len()
            invariant
                i <= self.built_in@.len(),
                out@ =~= self.built_in@.take(i as int),
            decreases self.built_in@.len() - i,
        {
            out.push(self.built_in[i].clone());
            i = i + 1;
        }
        proof {
            assert(self.built_in@.take(i as int) =~= self.built_in@);
        }
        let mut k: usize = 0;
        while k < self.external.len()
            invariant
                k <= self.external@.len(),
                out@ =~= self.built_in@ + available_infos(self.external@.take(k as int)),
            decreases self.external@.len() - k,
        {
            let e = &self.external[k];
            proof {
                assert(self.external@.take(k + 1).drop_last() =~= self.external@.take(k as int));
                assert(self.external@.take(k + 1).last() == *e);
            }
            if e.available {
                let info = PluginInfo {
                    id: e.id,
                    name: e.descriptor.name.clone(),
                    is_synth: match e.descriptor.kind {
                        PluginKind::Instrument => true,
                        PluginKind::Effect => false,
                    },
                };
                out.push(info);
            }
            k = k + 1;
        }
        proof {
            assert(self.external@.take(k as int) =~= self.external@);
        }
        sort_infos(&mut out);
        out
    }

    /// Every external entry, sorted by name and then id.
    pub fn external_entries(&self) -> (r: Vec<ExternalPluginEntry>)
        requires
            self.wf(),
        ensures
            r@.len() == self.entries().len(),
            forall|j: int| #![trigger r@[j]] 0 <= j < r@.len() ==> {
                let m = entry_position(self.entries(), r@[j]);
                0 <= m < self.entries().len() && self.entries()[m] == r@[j]
            },
            r@.map_values(|e: ExternalPluginEntry| info_of(e)).to_multiset()
                == self.entries().map_values(|e: ExternalPluginEntry| info_of(e)).to_multiset(),
            listed_in_order(r@.map_values(|e: ExternalPluginEntry| info_of(e))),
    {
        let mut keys: Vec<PluginInfo> = Vec::new();
        let mut k: usize = 0;
        while k < self.external.len()
            invariant
                k <= self.external@.len(),
                keys@ =~= self.external@.take(k as int).map_values(|e: ExternalPluginEntry| info_of(e)),
            decreases self.external@.len() - k,
        {
            let e = &self.external[k];
            keys.push(PluginInfo {
                id: e.id,
                name: e.descriptor.name.clone(),
                is_synth: match e.descriptor.kind {
                    PluginKind::Instrument => true,
                    PluginKind::Effect => false,
                },
            });
            k = k + 1;
        }
        proof {
            assert(self.external@.take(k as int) =~= self.external@);
        }
        let ghost unsorted = keys@;
        sort_infos(&mut keys);
        let mut out: Vec<ExternalPluginEntry> = Vec::new();
        let mut i: usize = 0;
        while i < keys.len()
            invariant
                self.wf(),
                i <= keys@.len(),
                keys@.to_multiset() == unsorted.to_multiset(),
                unsorted == self.entries().map_values(|e: ExternalPluginEntry| info_of(e)),
                out@.len() == i,
                forall|j: int| 0 <= j < i ==> info_of(#[trigger] out@[j]) == keys@[j]
                    && exists|m: int| 0 <= m < self.entries().len() && self.entries()[m] == out@[j],
            decreases keys@.len() - i,
        {
            let ghost key = keys@[i as int];
            proof {
                vstd::seq_lib::to_multiset_contains(keys@, key);
                assert(keys@.contains(key));
                vstd::seq_lib::to_multiset_contains(unsorted, key);
            }
            let ghost m0 = choose|m: int| 0 <= m < unsorted.len() && unsorted[m] == key;
            proof {
                assert(unsorted[m0] == info_of(self.entries()[m0]));
            }
            match self.external(keys[i].id) {
                Some(e) => {
                    proof {
                        let m = choose|m: int| 0 <= m < self.entries().len() && self.entries()[m] == *e;
                        if m != m0 {
                            if m < m0 {
                                assert(self.entries()[m].id != self.entries()[m0].id);
                            } else {
                                assert(self.entries()[m0].id != self.entries()[m].id);
                            }
                        }
                    }
                    out.push(e.clone());
                },
                None => {
                    proof {
                        assert(self.entries()[m0].id == key.id);
                        assert(false);
                    }
                    return out;
                },
            }
            i = i + 1;
        }
        proof {
            let mapped = out@.map_values(|e: ExternalPluginEntry| info_of(e));
            assert(mapped =~= keys@);
            assert forall|j: int| #![trigger out@[j]] 0 <= j < out@.len() implies {
                let m = entry_position(self.entries(), out@[j]);
                0 <= m < self.entries().len() && self.entries()[m] == out@[j]
            } by {
                assert(info_of(out@[j]) == keys@[j]);
            };
        }
        out
    }

    /// Merging a result never loses a plugin: every entry keeps its
    /// position, id and identity, and entries of other identities keep
    /// their availability. A result for a known identity (a rescan, or the
    /// plugin moved on disk) keeps that entry's id and makes it available.
    pub proof fn law_merge_keeps_ids(c: Self, descriptor: PluginDescriptor, seed: u32)
        requires
            c.wf(),
        ensures
            c.entries_after_merge(descriptor, seed).len() >= c.entries().len(),
            forall|k: int| #![trigger c.entries()[k]] 0 <= k < c.entries().len() ==> {
                let after = c.entries_after_merge(descriptor, seed)[k];
                &&& after.id == c.entries()[k].id
                &&& same_identity(after.descriptor.identity, c.entries()[k].descriptor.identity)
                &&& (!same_identity(c.entries()[k].descriptor.identity, descriptor.identity) ==> after == c.entries()[k])
            },
            c.knows(descriptor.identity) ==> {
                let k = c.identity_position(descriptor.identity);
                &&& c.entries_after_merge(descriptor, seed)[k].id == c.entries()[k].id
                &&& c.entries_after_merge(descriptor, seed)[k].available
                &&& c.entries_after_merge(descriptor, seed)[k].descriptor == descriptor
                &&& c.entries_after_merge(descriptor, seed).len() == c.entries().len()
            },
    {
        if c.knows(descriptor.identity) {
            let p = c.identity_position(descriptor.identity);
            assert forall|k: int| #![trigger c.entries()[k]] 0 <= k < c.entries().len() implies {
                let after = c.entries_after_merge(descriptor, seed)[k];
                &&& after.id == c.entries()[k].id
                &&& same_identity(after.descriptor.identity, c.entries()[k].descriptor.identity)
                &&& (!same_identity(c.entries()[k].descriptor.identity, descriptor.identity) ==> after == c.entries()[k])
            } by {
                if k == p {
                    assert(same_identity(c.entries()[p].descriptor.identity, descriptor.identity));
                }
            };
        }
    }

    /// A newly discovered plugin is appended, available, under an id that no
    /// built-in plugin reserves and no other external plugin uses.
    pub proof fn law_new_plugin_gets_fresh_id(c: Self, after: Self, descriptor: PluginDescriptor, seed: u32)
        requires
            c.wf(),
            after.wf(),
            !c.knows(descriptor.identity),
            after.reserved_ids() == c.reserved_ids(),
            after.entries() == c.entries_after_merge(descriptor, seed),
        ensures
            after.entries().len() == c.entries().len() + 1,
            after.entries().last().descriptor == descriptor,
            after.entries().last().available,
            !c.reserved_ids().contains(after.entries().last().id),
            forall|k: int| 0 <= k < c.entries().len() ==> #[trigger] c.entries()[k].id != after.entries().last().id,
    {
        let n = c.entries().len() as int;
        assert forall|k: int| 0 <= k < n implies #[trigger] c.entries()[k].id != after.entries().last().id by {
            assert(after.entries()[k] == c.entries()[k]);
            assert(after.entries()[k].id != after.entries()[n].id);
        }
        assert(!after.reserved_ids().contains(after.entries()[n].id));
    }

    /// A plugin marked missing and then reported again by discovery is
    /// available again, under the same id.
    pub proof fn law_rediscovered_plugin_is_available(before: Self, marked: Self, descriptor: PluginDescriptor, seed: u32)
        requires
            before.wf(),
            marked.wf(),
            before.knows(descriptor.identity),
            marked.reserved_ids() == before.reserved_ids(),
            marked.entries().len() == before.entries().len(),
            forall|i: int| 0 <= i < before.entries().len() ==> {
                let e = #[trigger] before.entries()[i];
                marked.entries()[i] == (if same_identity(e.descriptor.identity, descriptor.identity) {
                    ExternalPluginEntry { available: false, ..e }
                } else {
                    e
                })
            },
        ensures
            marked.knows(descriptor.identity),
            ({
                let k = marked.identity_position(descriptor.identity);
                let after = marked.entries_after_merge(descriptor, seed);
                &&& after[k].available
                &&& after[k].id == before.entries()[before.identity_position(descriptor.identity)].id
            }),
    {
        let p = before.identity_position(descriptor.identity);
        assert(same_identity(before.entries()[p].descriptor.identity, descriptor.identity));
        assert(marked.entries()[p] == ExternalPluginEntry { available: false, ..before.entries()[p] });
        assert(same_identity(marked.entries()[p].descriptor.identity, descriptor.identity));
        assert(marked.knows(descriptor.identity));
        let q = marked.identity_position(descriptor.identity);
        if q != p {
            assert(same_identity(marked.entries()[q].descriptor.identity, marked.entries()[p].descriptor.identity));
            if q < p {
                assert(!same_identity(marked.entries()[q].descriptor.identity, marked.entries()[p].descriptor.identity));
            } else {
                assert(!same_identity(marked.entries()[p].descriptor.identity, marked.entries()[q].descriptor.identity));
            }
        }
    }
}

} // verus!
