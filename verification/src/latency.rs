use vstd::prelude::*;

use crate::ids::TrackId;
use crate::routing::{RoutingConnection, RoutingNode};

verus! {

// ---------------------------------------------------------------------------
// Association lists: a sequence of (node, value) pairs read as a map in
// which a later pair overrides an earlier one.
// ---------------------------------------------------------------------------

/// The map that an association list stands for (later pairs win).
pub open spec fn assoc_map(s: Seq<(RoutingNode, u32)>) -> Map<RoutingNode, int>
    decreases s.len(),
{
    if s.len() == 0 {
        Map::empty()
    } else {
        assoc_map(s.drop_last()).insert(s.last().0, s.last().1 as int)
    }
}

/// Some pair at or after position `lo` has key `x`.
pub open spec fn has_key_from(s: Seq<(RoutingNode, u32)>, lo: int, x: RoutingNode) -> bool {
    exists|j: int| lo <= j < s.len() && (#[trigger] s[j]).0 == x
}

/// Some pair has key `x`.
pub open spec fn has_key(s: Seq<(RoutingNode, u32)>, x: RoutingNode) -> bool {
    has_key_from(s, 0, x)
}

/// The keys of an association list occur once each.
pub open spec fn keys_unique(s: Seq<(RoutingNode, u32)>) -> bool {
    forall|i: int, j: int| 0 <= i < j < s.len() ==> s[i].0 != s[j].0
}

proof fn lemma_assoc_dom(s: Seq<(RoutingNode, u32)>, k: RoutingNode)
    ensures
        assoc_map(s).contains_key(k) <==> has_key(s, k),
    decreases s.len(),
{
    if s.len() > 0 {
        lemma_assoc_dom(s.drop_last(), k);
        if assoc_map(s).contains_key(k) && k != s.last().0 {
            let i = choose|i: int| 0 <= i < s.drop_last().len() && (#[trigger] s.drop_last()[i]).0 == k;
            assert(s[i] == s.drop_last()[i]);
        }
        if exists|i: int| 0 <= i < s.len() && (#[trigger] s[i]).0 == k {
            let i = choose|i: int| 0 <= i < s.len() && (#[trigger] s[i]).0 == k;
            if i < s.len() - 1 {
                assert(s.drop_last()[i] == s[i]);
            }
        }
    }
}

/// The value of a key is that of its last pair.
proof fn lemma_assoc_last(s: Seq<(RoutingNode, u32)>, i: int)
    requires
        0 <= i < s.len(),
        forall|j: int| i < j < s.len() ==> (#[trigger] s[j]).0 != s[i].0,
    ensures
        assoc_map(s).contains_key(s[i].0),
        assoc_map(s)[s[i].0] == s[i].1 as int,
    decreases s.len(),
{
    if i < s.len() - 1 {
        assert forall|j: int| i < j < s.drop_last().len() implies (#[trigger] s.drop_last()[j]).0
            != s.drop_last()[i].0 by {
            assert(s.drop_last()[j] == s[j]);
        }
        lemma_assoc_last(s.drop_last(), i);
        assert(s.last() == s[s.len() - 1]);
    }
}

/// Looks up `k`, returning the value of its last pair.
fn assoc_get(s: &Vec<(RoutingNode, u32)>, k: RoutingNode) -> (r: Option<u32>)
    ensures
        match r {
            Some(v) => assoc_map(s@).contains_key(k) && assoc_map(s@)[k] == v as int,
            None => !assoc_map(s@).contains_key(k),
        },
{
    let mut i = s.len();
    while i > 0
        invariant
            i <= s.len(),
            forall|j: int| i <= j < s@.len() ==> (#[trigger] s@[j]).0 != k,
        decreases i,
    {
        i = i - 1;
        if s[i].0 == k {
            proof {
                lemma_assoc_last(s@, i as int);
            }
            return Some(s[i].1);
        }
    }
    proof {
        lemma_assoc_dom(s@, k);
    }
    None
}

// ---------------------------------------------------------------------------
// Path latency.
// ---------------------------------------------------------------------------

/// Largest path latency among the destinations that the first `k` routes
/// lead to from `node` and that already have a path latency in `path`
/// (0 when there is none).
pub open spec fn dest_latency(
    routing: Seq<RoutingConnection>,
    node: RoutingNode,
    path: Map<RoutingNode, int>,
    k: int,
) -> int
    decreases k,
{
    if k <= 0 {
        0
    } else {
        let prev = dest_latency(routing, node, path, k - 1);
        let c = routing[k - 1];
        if c.source == node && path.contains_key(c.destination) && path[c.destination] > prev {
            path[c.destination]
        } else {
            prev
        }
    }
}

/// Latency of a node's own processing chain (0 when none is recorded).
pub open spec fn internal_of(internal: Seq<(RoutingNode, u32)>, node: RoutingNode) -> int {
    if assoc_map(internal).contains_key(node) {
        assoc_map(internal)[node]
    } else {
        0
    }
}

/// The latency from entering `node` to leaving the master channel.
pub open spec fn node_path_value(
    routing: Seq<RoutingConnection>,
    internal: Seq<(RoutingNode, u32)>,
    node: RoutingNode,
    path: Map<RoutingNode, int>,
) -> int {
    internal_of(internal, node) + dest_latency(routing, node, path, routing.len() as int)
}

/// Path latencies after visiting the last `k` nodes of `order` (from the
/// end), starting from the master channel's own latency; only buses are
/// assigned here.
pub open spec fn bus_phase(
    order: Seq<RoutingNode>,
    routing: Seq<RoutingConnection>,
    internal: Seq<(RoutingNode, u32)>,
    master: u32,
    k: int,
) -> Map<RoutingNode, int>
    decreases k,
{
    if k <= 0 {
        Map::empty().insert(RoutingNode::Master, master as int)
    } else {
        let prev = bus_phase(order, routing, internal, master, k - 1);
        let node = order[order.len() - k];
        if node is Bus {
            prev.insert(node, node_path_value(routing, internal, node, prev))
        } else {
            prev
        }
    }
}

/// Path latencies after also visiting the first `k` tracks.
pub open spec fn track_phase(
    tracks: Seq<TrackId>,
    routing: Seq<RoutingConnection>,
    internal: Seq<(RoutingNode, u32)>,
    base: Map<RoutingNode, int>,
    k: int,
) -> Map<RoutingNode, int>
    decreases k,
{
    if k <= 0 {
        base
    } else {
        let prev = track_phase(tracks, routing, internal, base, k - 1);
        let node = RoutingNode::Track(tracks[k - 1]);
        prev.insert(node, node_path_value(routing, internal, node, prev))
    }
}

/// Path latency of every track, bus and the master channel.
pub open spec fn path_latencies(
    order: Seq<RoutingNode>,
    tracks: Seq<TrackId>,
    routing: Seq<RoutingConnection>,
    internal: Seq<(RoutingNode, u32)>,
    master: u32,
) -> Map<RoutingNode, int> {
    track_phase(
        tracks,
        routing,
        internal,
        bus_phase(order, routing, internal, master, order.len() as int),
        tracks.len() as int,
    )
}

/// Every path latency computed on the way, including ones later
/// overwritten, fits in a `u32`.
pub open spec fn bus_phase_fits(
    order: Seq<RoutingNode>,
    routing: Seq<RoutingConnection>,
    internal: Seq<(RoutingNode, u32)>,
    master: u32,
    k: int,
) -> bool
    decreases k,
{
    if k <= 0 {
        true
    } else {
        let prev = bus_phase(order, routing, internal, master, k - 1);
        let node = order[order.len() - k];
        bus_phase_fits(order, routing, internal, master, k - 1) && (node is Bus
            ==> node_path_value(routing, internal, node, prev) <= u32::MAX)
    }
}

pub open spec fn track_phase_fits(
    tracks: Seq<TrackId>,
    routing: Seq<RoutingConnection>,
    internal: Seq<(RoutingNode, u32)>,
    base: Map<RoutingNode, int>,
    k: int,
) -> bool
    decreases k,
{
    if k <= 0 {
        true
    } else {
        let prev = track_phase(tracks, routing, internal, base, k - 1);
        let node = RoutingNode::Track(tracks[k - 1]);
        track_phase_fits(tracks, routing, internal, base, k - 1) && node_path_value(
            routing,
            internal,
            node,
            prev,
        ) <= u32::MAX
    }
}

pub open spec fn latencies_fit(
    order: Seq<RoutingNode>,
    tracks: Seq<TrackId>,
    routing: Seq<RoutingConnection>,
    internal: Seq<(RoutingNode, u32)>,
    master: u32,
) -> bool {
    &&& bus_phase_fits(order, routing, internal, master, order.len() as int)
    &&& track_phase_fits(
        tracks,
        routing,
        internal,
        bus_phase(order, routing, internal, master, order.len() as int),
        tracks.len() as int,
    )
}

/// The delay plan that aligns every signal path to the longest one.
pub struct LatencyCompensation {
    /// Delay, in samples, to add at each node; one entry per node.
    pub compensation: Vec<(RoutingNode, u32)>,
    /// Latency of the longest path, in samples.
    pub maximum_latency: u32,
}

proof fn lemma_dest_latency_nonneg(
    routing: Seq<RoutingConnection>,
    node: RoutingNode,
    path: Map<RoutingNode, int>,
    k: int,
)
    requires
        forall|x: RoutingNode| path.contains_key(x) ==> path[x] >= 0,
    ensures
        dest_latency(routing, node, path, k) >= 0,
    decreases k,
{
    if k > 0 {
        lemma_dest_latency_nonneg(routing, node, path, k - 1);
    }
}

/// Largest path latency among the routes from `node`, as `dest_latency`.
fn compute_dest_latency(
    routing: &[RoutingConnection],
    node: RoutingNode,
    path: &Vec<(RoutingNode, u32)>,
) -> (r: u32)
    ensures
        r as int == dest_latency(routing@, node, assoc_map(path@), routing@.len() as int),
{
    let mut best: u32 = 0;
    let mut k: usize = 0;
    while k < routing.len()
        invariant
            k <= routing.len(),
            best as int == dest_latency(routing@, node, assoc_map(path@), k as int),
        decreases routing.len() - k,
    {
        let c = routing[k];
        if c.source == node {
            match assoc_get(path, c.destination) {
                Some(v) => {
                    if v > best {
                        best = v;
                    }
                },
                None => {},
            }
        }
        k = k + 1;
    }
    best
}

proof fn lemma_assoc_nonneg(s: Seq<(RoutingNode, u32)>)
    ensures
        forall|x: RoutingNode|
            assoc_map(s).contains_key(x) ==> 0 <= #[trigger] assoc_map(s)[x] <= u32::MAX,
    decreases s.len(),
{
    if s.len() > 0 {
        lemma_assoc_nonneg(s.drop_last());
        let m = assoc_map(s.drop_last());
        assert forall|x: RoutingNode| assoc_map(s).contains_key(x) implies 0 <= #[trigger] assoc_map(s)[x]
            <= u32::MAX by {
            if x != s.last().0 {
                assert(m.contains_key(x));
            }
        }
    }
}

proof fn lemma_assoc_push(s: Seq<(RoutingNode, u32)>, e: (RoutingNode, u32))
    ensures
        assoc_map(s.push(e)) == assoc_map(s).insert(e.0, e.1 as int),
{
    assert(s.push(e).drop_last() =~= s);
    assert(s.push(e).last() == e);
}

/// Computes the plugin delay compensation of a routing graph: the latency of
/// the path from every track and bus to the output, the longest of them, and
/// for every node the delay that aligns its path with the longest one.
///
/// `order` is the processing order (tracks, buses, master), `internal` holds
/// each node's own processing latency and `master_latency` that of the
/// master chain. Returns `None` when a path latency does not fit in a `u32`.
pub fn compute_latency_compensation(
    order: &[RoutingNode],
    tracks: &[TrackId],
    routing: &[RoutingConnection],
    internal: &[(RoutingNode, u32)],
    master_latency: u32,
) -> (r: Option<LatencyCompensation>)
    ensures
        r is None <==> !latencies_fit(order@, tracks@, routing@, internal@, master_latency),
        r matches Some(plan) ==> ({
            let path = path_latencies(order@, tracks@, routing@, internal@, master_latency);
            &&& keys_unique(plan.compensation@)
            &&& assoc_map(plan.compensation@).dom() == path.dom()
            &&& forall|n: RoutingNode|
                #![trigger path[n]]
                path.contains_key(n) ==> path[n] <= plan.maximum_latency
                    && assoc_map(plan.compensation@)[n] == plan.maximum_latency - path[n]
            &&& exists|n: RoutingNode| path.contains_key(n) && path[n] == plan.maximum_latency
        }),
{
    let ghost int_s = internal@;
    let mut path: Vec<(RoutingNode, u32)> = Vec::new();
    path.push((RoutingNode::Master, master_latency));
    proof {
        lemma_assoc_push(Seq::empty(), (RoutingNode::Master, master_latency));
        assert(path@ =~= Seq::<(RoutingNode, u32)>::empty().push((RoutingNode::Master, master_latency)));
        assert(assoc_map(Seq::<(RoutingNode, u32)>::empty()) == Map::<RoutingNode, int>::empty());
        assert(assoc_map(path@) =~= bus_phase(order@, routing@, int_s, master_latency, 0));
    }
    // Buses, walking the processing order backwards.
    let mut k: usize = 0;
    while k < order.len()
        invariant
            k <= order.len(),
            assoc_map(path@) == bus_phase(order@, routing@, int_s, master_latency, k as int),
            bus_phase_fits(order@, routing@, int_s, master_latency, k as int),
            int_s == internal@,
            path@.len() >= 1,
        decreases order.len() - k,
    {
        let node = order[order.len() - 1 - k];
        let ghost prev = assoc_map(path@);
        match node {
            RoutingNode::Bus(_) => {
                let own = match assoc_get_slice(internal, node) {
                    Some(v) => v,
                    None => 0,
                };
                let dest = compute_dest_latency(routing, node, &path);
                match own.checked_add(dest) {
                    Some(v) => {
                        proof {
                            lemma_assoc_push(path@, (node, v));
                        }
                        path.push((node, v));
                    },
                    None => {
                        proof {
                            assert(!bus_phase_fits(order@, routing@, int_s, master_latency, k + 1));
                            lemma_bus_fits_prefix(order@, routing@, int_s, master_latency, k + 1, order@.len() as int);
                        }
                        return None;
                    },
                }
            },
            _ => {},
        }
        k = k + 1;
    }
    let ghost base = assoc_map(path@);
    // Tracks.
    let mut t: usize = 0;
    while t < tracks.len()
        invariant
            t <= tracks.len(),
            base == bus_phase(order@, routing@, int_s, master_latency, order@.len() as int),
            assoc_map(path@) == track_phase(tracks@, routing@, int_s, base, t as int),
            track_phase_fits(tracks@, routing@, int_s, base, t as int),
            bus_phase_fits(order@, routing@, int_s, master_latency, order@.len() as int),
            int_s == internal@,
            path@.len() >= 1,
        decreases tracks.len() - t,
    {
        let node = RoutingNode::Track(tracks[t]);
        let own = match assoc_get_slice(internal, node) {
            Some(v) => v,
            None => 0,
        };
        let dest = compute_dest_latency(routing, node, &path);
        match own.checked_add(dest) {
            Some(v) => {
                proof {
                    lemma_assoc_push(path@, (node, v));
                }
                path.push((node, v));
            },
            None => {
                proof {
                    lemma_track_fits_prefix(tracks@, routing@, int_s, base, t + 1, tracks@.len() as int);
                }
                return None;
            },
        }
        t = t + 1;
    }
    let ghost full = assoc_map(path@);
    proof {
        assert(full == path_latencies(order@, tracks@, routing@, internal@, master_latency));
        assert(latencies_fit(order@, tracks@, routing@, internal@, master_latency));
    }
    // Keep the current value of every node, and find the longest path.
    let mut finals: Vec<(RoutingNode, u32)> = Vec::new();
    let mut maximum: u32 = 0;
    let mut i = path.len();
    proof {
        lemma_assoc_nonneg(path@);
    }
    while i > 0
        invariant
            i <= path@.len(),
            path@.len() >= 1,
            full == assoc_map(path@),
            keys_unique(finals@),
            forall|x: RoutingNode|
                #![trigger has_key_from(path@, i as int, x)]
                #![trigger has_key(finals@, x)]
                has_key_from(path@, i as int, x) <==> has_key(finals@, x),
            forall|j: int|
                #![trigger finals@[j]]
                0 <= j < finals@.len() ==> full.contains_key(finals@[j].0) && full[finals@[j].0]
                    == finals@[j].1 as int && finals@[j].1 <= maximum,
            finals@.len() == 0 ==> maximum == 0,
            finals@.len() > 0 ==> exists|j: int|
                0 <= j < finals@.len() && (#[trigger] finals@[j]).1 == maximum,
        decreases i,
    {
        i = i - 1;
        let entry = path[i];
        let ghost fprev = finals@;
        if !assoc_contains(&finals, entry.0) {
            proof {
                assert forall|j: int| i < j < path@.len() implies (#[trigger] path@[j]).0
                    != path@[i as int].0 by {
                    if path@[j].0 == entry.0 {
                        assert(has_key_from(path@, i + 1, entry.0));
                        assert(has_key(fprev, entry.0));
                    }
                }
                lemma_assoc_last(path@, i as int);
            }
            finals.push(entry);
            if entry.1 > maximum {
                maximum = entry.1;
            }
            proof {
                assert forall|a: int, b: int| 0 <= a < b < finals@.len() implies finals@[a].0
                    != finals@[b].0 by {
                    if b == finals@.len() - 1 {
                        assert(fprev[a] == finals@[a]);
                    }
                }
            }
        }
        proof {
            assert forall|x: RoutingNode|
                #![trigger has_key_from(path@, i as int, x)]
                #![trigger has_key(finals@, x)]
                has_key_from(path@, i as int, x) <==> has_key(finals@, x) by {
                if has_key_from(path@, i as int, x) {
                    let j = choose|j: int| i <= j < path@.len() && (#[trigger] path@[j]).0 == x;
                    if j > i {
                        assert(has_key_from(path@, i + 1, x));
                        assert(has_key(fprev, x));
                        let j2 = choose|j2: int| 0 <= j2 < fprev.len() && (#[trigger] fprev[j2]).0 == x;
                        assert(finals@[j2] == fprev[j2]);
                    } else if finals@.len() > fprev.len() {
                        assert(finals@[finals@.len() - 1].0 == x);
                    } else {
                        assert(has_key(fprev, x));
                        let j2 = choose|j2: int| 0 <= j2 < fprev.len() && (#[trigger] fprev[j2]).0 == x;
                        assert(finals@[j2] == fprev[j2]);
                    }
                }
                if has_key(finals@, x) {
                    let j = choose|j: int| 0 <= j < finals@.len() && (#[trigger] finals@[j]).0 == x;
                    if j < fprev.len() {
                        assert(fprev[j] == finals@[j]);
                        assert(has_key(fprev, x));
                        assert(has_key_from(path@, i + 1, x));
                        let j2 = choose|j2: int| i + 1 <= j2 < path@.len() && (#[trigger] path@[j2]).0 == x;
                    } else {
                        assert(path@[i as int].0 == x);
                    }
                }
            }
            assert forall|j: int|
                #![trigger finals@[j]]
                0 <= j < finals@.len() implies full.contains_key(finals@[j].0) && full[finals@[j].0]
                    == finals@[j].1 as int && finals@[j].1 <= maximum by {
                if j < fprev.len() {
                    assert(fprev[j] == finals@[j]);
                }
            }
            if finals@.len() > 0 {
                if finals@.len() > fprev.len() && finals@[finals@.len() - 1].1 == maximum {
                } else {
                    let j = choose|j: int| 0 <= j < fprev.len() && (#[trigger] fprev[j]).1 == maximum;
                    assert(finals@[j] == fprev[j]);
                }
            }
        }
    }
    // Compensation delays.
    let mut compensation: Vec<(RoutingNode, u32)> = Vec::new();
    let mut j: usize = 0;
    while j < finals.len()
        invariant
            j <= finals@.len(),
            compensation@.len() == j,
            forall|a: int|
                #![trigger compensation@[a]]
                0 <= a < j ==> compensation@[a].0 == finals@[a].0 && compensation@[a].1 as int
                    == maximum - finals@[a].1,
            forall|a: int| #![trigger finals@[a]] 0 <= a < finals@.len() ==> finals@[a].1 <= maximum,
        decreases finals@.len() - j,
    {
        let (node, value) = finals[j];
        compensation.push((node, maximum - value));
        j = j + 1;
    }
    proof {
        assert forall|x: RoutingNode|
            #![trigger has_key(path@, x)]
            #![trigger has_key(finals@, x)]
            has_key(path@, x) <==> has_key(finals@, x) by {
            assert(has_key_from(path@, 0, x) <==> has_key(finals@, x));
        }
        lemma_compensation_result(path@, finals@, compensation@, maximum);
    }
    Some(LatencyCompensation { compensation, maximum_latency: maximum })
}


proof fn lemma_compensation_result(
    path: Seq<(RoutingNode, u32)>,
    finals: Seq<(RoutingNode, u32)>,
    compensation: Seq<(RoutingNode, u32)>,
    maximum: u32,
)
    requires
        keys_unique(finals),
        compensation.len() == finals.len(),
        forall|x: RoutingNode|
            #![trigger has_key(path, x)]
            #![trigger has_key(finals, x)]
            has_key(path, x) <==> has_key(finals, x),
        forall|j: int|
            #![trigger finals[j]]
            0 <= j < finals.len() ==> assoc_map(path).contains_key(finals[j].0) && assoc_map(
                path,
            )[finals[j].0] == finals[j].1 as int && finals[j].1 <= maximum,
        finals.len() == 0 ==> maximum == 0,
        finals.len() > 0 ==> exists|j: int| 0 <= j < finals.len() && (#[trigger] finals[j]).1 == maximum,
        forall|a: int|
            #![trigger compensation[a]]
            0 <= a < compensation.len() ==> compensation[a].0 == finals[a].0 && compensation[a].1 as int
                == maximum - finals[a].1,
        path.len() > 0,
    ensures
        keys_unique(compensation),
        assoc_map(compensation).dom() == assoc_map(path).dom(),
        forall|n: RoutingNode|
            #![trigger assoc_map(path)[n]]
            assoc_map(path).contains_key(n) ==> assoc_map(path)[n] <= maximum && assoc_map(
                compensation,
            )[n] == maximum - assoc_map(path)[n],
        exists|n: RoutingNode| assoc_map(path).contains_key(n) && assoc_map(path)[n] == maximum,
{
    assert forall|a: int, b: int| 0 <= a < b < compensation.len() implies compensation[a].0
        != compensation[b].0 by {
        assert(finals[a].0 != finals[b].0);
    }
    assert forall|n: RoutingNode| assoc_map(compensation).contains_key(n) <==> assoc_map(
        path,
    ).contains_key(n) by {
        lemma_assoc_dom(compensation, n);
        lemma_assoc_dom(path, n);
        if assoc_map(compensation).contains_key(n) {
            let a = choose|a: int| 0 <= a < compensation.len() && (#[trigger] compensation[a]).0 == n;
            assert(finals[a].0 == n);
            assert(has_key(finals, n));
        }
        if assoc_map(path).contains_key(n) {
            assert(has_key(finals, n));
            let a = choose|a: int| 0 <= a < finals.len() && (#[trigger] finals[a]).0 == n;
            assert(compensation[a].0 == n);
        }
    }
    assert(assoc_map(compensation).dom() =~= assoc_map(path).dom());
    assert forall|n: RoutingNode|
        #![trigger assoc_map(path)[n]]
        assoc_map(path).contains_key(n) implies assoc_map(path)[n] <= maximum && assoc_map(
            compensation,
        )[n] == maximum - assoc_map(path)[n] by {
        lemma_assoc_dom(path, n);
        assert(has_key(finals, n));
        let a = choose|a: int| 0 <= a < finals.len() && (#[trigger] finals[a]).0 == n;
        assert forall|b: int| a < b < compensation.len() implies (#[trigger] compensation[b]).0
            != compensation[a].0 by {
            assert(finals[a].0 != finals[b].0);
        }
        lemma_assoc_last(compensation, a);
    }
    lemma_assoc_dom(path, path[0].0);
    assert(assoc_map(path).contains_key(path[0].0));
    let a = choose|a: int| 0 <= a < finals.len() && (#[trigger] finals[a]).1 == maximum;
    assert(assoc_map(path).contains_key(finals[a].0) && assoc_map(path)[finals[a].0] == maximum);
}

proof fn lemma_bus_fits_prefix(
    order: Seq<RoutingNode>,
    routing: Seq<RoutingConnection>,
    internal: Seq<(RoutingNode, u32)>,
    master: u32,
    k: int,
    m: int,
)
    requires
        0 <= k <= m,
        !bus_phase_fits(order, routing, internal, master, k),
    ensures
        !bus_phase_fits(order, routing, internal, master, m),
    decreases m - k,
{
    if k < m {
        lemma_bus_fits_prefix(order, routing, internal, master, k, m - 1);
    }
}

proof fn lemma_track_fits_prefix(
    tracks: Seq<TrackId>,
    routing: Seq<RoutingConnection>,
    internal: Seq<(RoutingNode, u32)>,
    base: Map<RoutingNode, int>,
    k: int,
    m: int,
)
    requires
        0 <= k <= m,
        !track_phase_fits(tracks, routing, internal, base, k),
    ensures
        !track_phase_fits(tracks, routing, internal, base, m),
    decreases m - k,
{
    if k < m {
        lemma_track_fits_prefix(tracks, routing, internal, base, k, m - 1);
    }
}

/// Looks up `k` in a slice of pairs, returning the value of its last pair.
fn assoc_get_slice(s: &[(RoutingNode, u32)], k: RoutingNode) -> (r: Option<u32>)
    ensures
        match r {
            Some(v) => assoc_map(s@).contains_key(k) && assoc_map(s@)[k] == v as int,
            None => !assoc_map(s@).contains_key(k),
        },
{
    let mut i = s.len();
    while i > 0
        invariant
            i <= s.len(),
            forall|j: int| i <= j < s@.len() ==> (#[trigger] s@[j]).0 != k,
        decreases i,
    {
        i = i - 1;
        if s[i].0 == k {
            proof {
                lemma_assoc_last(s@, i as int);
            }
            return Some(s[i].1);
        }
    }
    proof {
        lemma_assoc_dom(s@, k);
    }
    None
}

fn assoc_contains(s: &Vec<(RoutingNode, u32)>, k: RoutingNode) -> (r: bool)
    ensures
        r <==> has_key(s@, k),
{
    let mut i: usize = 0;
    while i < s.len()
        invariant
            i <= s.len(),
            forall|j: int| 0 <= j < i ==> (#[trigger] s@[j]).0 != k,
        decreases s.len() - i,
    {
        if s[i].0 == k {
            return true;
        }
        i = i + 1;
    }
    false
}

/// Sum of a sequence of sample counts.
pub open spec fn seq_sum(s: Seq<u32>) -> int
    decreases s.len(),
{
    if s.len() == 0 {
        0
    } else {
        seq_sum(s.drop_last()) + s.last() as int
    }
}

/// Largest element of a sequence of sample counts (0 when empty).
pub open spec fn seq_max(s: Seq<u32>) -> int
    decreases s.len(),
{
    if s.len() == 0 {
        0
    } else {
        let m = seq_max(s.drop_last());
        if s.last() as int > m {
            s.last() as int
        } else {
            m
        }
    }
}

/// Own processing latency of a mixer node: its generator's latency (if it
/// has one) plus the latencies of its effect chain. `None` when the total
/// does not fit in a `u32`.
pub fn node_internal_latency(generator: Option<u32>, effects: &[u32]) -> (r: Option<u32>)
    ensures
        ({
            let total = match generator {
                Some(g) => g as int,
                None => 0,
            } + seq_sum(effects@);
            &&& r is Some <==> total <= u32::MAX
            &&& r matches Some(v) ==> v as int == total
        }),
{
    let mut total: u32 = match generator {
        Some(g) => g,
        None => 0,
    };
    let ghost g0: int = total as int;
    let mut i: usize = 0;
    while i < effects.len()
        invariant
            i <= effects.len(),
            total as int == g0 + seq_sum(effects@.subrange(0, i as int)),
            g0 == match generator {
                Some(g) => g as int,
                None => 0,
            },
        decreases effects.len() - i,
    {
        proof {
            assert(effects@.subrange(0, i + 1).drop_last() =~= effects@.subrange(0, i as int));
        }
        match total.checked_add(effects[i]) {
            Some(v) => {
                total = v;
            },
            None => {
                proof {
                    lemma_seq_sum_prefix(effects@, i + 1);
                    assert(seq_sum(effects@.subrange(0, i + 1)) == seq_sum(effects@.subrange(0, i as int)) + effects@[i as int]);
                    assert(g0 == match generator {
                        Some(g) => g as int,
                        None => 0,
                    });
                }
                return None;
            },
        }
        i = i + 1;
    }
    proof {
        assert(effects@.subrange(0, effects@.len() as int) =~= effects@);
        assert(g0 == match generator {
            Some(g) => g as int,
            None => 0,
        });
    }
    Some(total)
}

proof fn lemma_seq_sum_prefix(s: Seq<u32>, k: int)
    requires
        0 <= k <= s.len(),
    ensures
        seq_sum(s.subrange(0, k)) <= seq_sum(s),
    decreases s.len() - k,
{
    if k < s.len() {
        lemma_seq_sum_prefix(s, k + 1);
        assert(s.subrange(0, k + 1).drop_last() =~= s.subrange(0, k));
    } else {
        assert(s.subrange(0, k) =~= s);
    }
}

/// Largest value of a list of sample counts (0 when empty).
pub fn max_of(values: &[u32]) -> (r: u32)
    ensures
        r as int == seq_max(values@),
{
    let mut best: u32 = 0;
    let mut i: usize = 0;
    while i < values.len()
        invariant
            i <= values.len(),
            best as int == seq_max(values@.subrange(0, i as int)),
        decreases values.len() - i,
    {
        proof {
            assert(values@.subrange(0, i + 1).drop_last() =~= values@.subrange(0, i as int));
        }
        if values[i] > best {
            best = values[i];
        }
        i = i + 1;
    }
    proof {
        assert(values@.subrange(0, values@.len() as int) =~= values@);
    }
    best
}

/// Length of the tail to render after the last clip: the longest plugin
/// tail, capped at 20 seconds so that infinite reverbs do not render
/// forever, plus the longest compensation delay.
pub fn project_tail_length(plugin_tails: &[u32], sample_rate: u32, compensation_delays: &[u32]) -> (r: u32)
    requires
        20 * sample_rate <= u32::MAX,
        ({
            let capped = if seq_max(plugin_tails@) < 20 * sample_rate {
                seq_max(plugin_tails@)
            } else {
                20 * sample_rate
            };
            capped + seq_max(compensation_delays@) <= u32::MAX
        }),
    ensures
        r as int == (if seq_max(plugin_tails@) < 20 * sample_rate {
            seq_max(plugin_tails@)
        } else {
            20 * sample_rate
        }) + seq_max(compensation_delays@),
{
    let max_tail = max_of(plugin_tails);
    let max_allowed_tail = 20 * sample_rate;
    let capped = if max_tail < max_allowed_tail {
        max_tail
    } else {
        max_allowed_tail
    };
    capped + max_of(compensation_delays)
}

/// With the compensation delays applied, every signal path reaches the
/// output with the same total latency: the longest path's.
pub proof fn law_compensated_paths_align(
    order: Seq<RoutingNode>,
    tracks: Seq<TrackId>,
    routing: Seq<RoutingConnection>,
    internal: Seq<(RoutingNode, u32)>,
    master_latency: u32,
    compensation: Seq<(RoutingNode, u32)>,
    maximum_latency: u32,
    a: RoutingNode,
    b: RoutingNode,
)
    requires
        ({
            let path = path_latencies(order, tracks, routing, internal, master_latency);
            forall|n: RoutingNode| #![trigger path[n]] path.contains_key(n) ==> path[n] <= maximum_latency
                && assoc_map(compensation)[n] == maximum_latency - path[n]
        }),
        path_latencies(order, tracks, routing, internal, master_latency).contains_key(a),
        path_latencies(order, tracks, routing, internal, master_latency).contains_key(b),
    ensures
        path_latencies(order, tracks, routing, internal, master_latency)[a] + assoc_map(compensation)[a]
            == path_latencies(order, tracks, routing, internal, master_latency)[b] + assoc_map(compensation)[b],
        path_latencies(order, tracks, routing, internal, master_latency)[a] + assoc_map(compensation)[a] == maximum_latency,
{
    let path = path_latencies(order, tracks, routing, internal, master_latency);
    assert(path[a] == path[a]);
    assert(path[b] == path[b]);
}

} // verus!
