use vstd::prelude::*;

use crate::ids::{BusId, EffectId, GeneratorId, TrackId};

verus! {

/// A plugin input that can receive a sidechain signal.
#[derive(Clone, Copy, Debug, PartialEq, Eq, Structural, Hash)]
pub enum SidechainRoute {
    Generator(GeneratorId),
    TrackEffect(TrackId, EffectId),
    BusEffect(BusId, EffectId),
    MasterEffect(EffectId),
}

/// A node of the mixer routing graph.
#[derive(Clone, Copy, Debug, PartialEq, Eq, Structural, Hash)]
pub enum RoutingNode {
    Track(TrackId),
    Bus(BusId),
    PluginSidechain(SidechainRoute),
    Master,
}

/// A directed signal connection between two routing nodes.
#[derive(Clone, Copy, Debug, PartialEq, Eq, Structural)]
pub struct RoutingConnection {
    pub source: RoutingNode,
    pub destination: RoutingNode,
}

/// The connection `c` feeds bus `s` into bus `d`.
pub open spec fn is_bus_edge(c: RoutingConnection, s: BusId, d: BusId) -> bool {
    c.source == RoutingNode::Bus(s) && c.destination == RoutingNode::Bus(d)
}

/// `order` is a processing order of the buses in `bus_ids` for `routing`:
/// every bus appears once, after every bus that feeds it, and exactly the
/// buses whose feeders can all be processed before them are included (a bus
/// on or behind a feedback cycle, or fed by an unknown bus, is left out).
pub open spec fn valid_bus_order(
    bus_ids: Seq<BusId>,
    routing: Seq<RoutingConnection>,
    order: Seq<BusId>,
) -> bool {
    &&& order.no_duplicates()
    &&& forall|j: int| 0 <= j < order.len() ==> bus_ids.contains(#[trigger] order[j])
    &&& forall|j: int, i: int, s: BusId|
        #![trigger is_bus_edge(routing[i], s, order[j])]
        0 <= j < order.len() && 0 <= i < routing.len() && is_bus_edge(routing[i], s, order[j])
            ==> exists|k: int| 0 <= k < j && #[trigger] order[k] == s
    &&& forall|b: BusId|
        #![trigger order.contains(b)]
        bus_ids.contains(b) && (forall|i: int, s: BusId|
            #![trigger is_bus_edge(routing[i], s, b)]
            0 <= i < routing.len() && is_bus_edge(routing[i], s, b) ==> order.contains(s))
            ==> order.contains(b)
}

/// The bus that a bus node names.
pub open spec fn bus_of(n: RoutingNode) -> BusId {
    match n {
        RoutingNode::Bus(b) => b,
        _ => BusId(0),
    }
}

/// `order` lists every track (in the given order), then the buses in a
/// valid processing order, then the master channel.
pub open spec fn is_routing_order(
    tracks: Seq<TrackId>,
    bus_ids: Seq<BusId>,
    routing: Seq<RoutingConnection>,
    order: Seq<RoutingNode>,
) -> bool {
    let t = tracks.len() as int;
    &&& order.len() >= t + 1
    &&& forall|i: int| 0 <= i < t ==> order[i] == RoutingNode::Track(#[trigger] tracks[i])
    &&& order[order.len() - 1] == RoutingNode::Master
    &&& forall|i: int| t <= i < order.len() - 1 ==> #[trigger] order[i] is Bus
    &&& valid_bus_order(bus_ids, routing, order.subrange(t, order.len() - 1).map_values(|n| bus_of(n)))
}

// ---------------------------------------------------------------------------
// The order the engine computes.
// ---------------------------------------------------------------------------

/// The buses of `ids` in first-seen order, each once.
pub open spec fn distinct_buses(ids: Seq<BusId>) -> Seq<BusId>
    decreases ids.len(),
{
    if ids.len() == 0 {
        Seq::empty()
    } else {
        let prev = distinct_buses(ids.drop_last());
        if prev.contains(ids.last()) {
            prev
        } else {
            prev.push(ids.last())
        }
    }
}

/// The bus-to-bus connections of `routing`, as (source, destination), in
/// order. The order reads the routing through these alone.
pub open spec fn bus_links(routing: Seq<RoutingConnection>) -> Seq<(BusId, BusId)>
    decreases routing.len(),
{
    if routing.len() == 0 {
        Seq::empty()
    } else {
        let prev = bus_links(routing.drop_last());
        match (routing.last().source, routing.last().destination) {
            (RoutingNode::Bus(s), RoutingNode::Bus(d)) => prev.push((s, d)),
            _ => prev,
        }
    }
}

/// The position of `b` in `uniq`, when it is there.
pub open spec fn position_in(uniq: Seq<BusId>, b: BusId) -> Option<usize> {
    if uniq.contains(b) {
        Some((choose|i: int| 0 <= i < uniq.len() && uniq[i] == b) as usize)
    } else {
        None
    }
}

/// The links into a known bus, as positions in `uniq` (the source's
/// position, if it is known, and the destination's).
pub open spec fn link_edges(uniq: Seq<BusId>, links: Seq<(BusId, BusId)>) -> Seq<(Option<usize>, usize)>
    decreases links.len(),
{
    if links.len() == 0 {
        Seq::empty()
    } else {
        let prev = link_edges(uniq, links.drop_last());
        let (s, d) = links.last();
        if uniq.contains(d) {
            prev.push((position_in(uniq, s), position_in(uniq, d)->0))
        } else {
            prev
        }
    }
}

/// A state of Kahn's algorithm: the queue of bus positions, the number of
/// unprocessed feeders of each bus, the queue position being processed and
/// the next edge to look at.
pub type KahnState = (Seq<usize>, Seq<int>, nat, nat);

/// The positions below `d` whose count is zero, ascending.
pub open spec fn zero_positions(deg: Seq<int>, d: nat) -> Seq<usize>
    decreases d,
{
    if d == 0 {
        Seq::empty()
    } else {
        let prev = zero_positions(deg, (d - 1) as nat);
        if deg[d - 1] == 0 {
            prev.push((d - 1) as usize)
        } else {
            prev
        }
    }
}

/// The starting state: each bus counts the edges into it, and the buses
/// with none are queued in position order.
pub open spec fn kahn_start(edges: Seq<(Option<usize>, usize)>, n: nat) -> KahnState {
    let deg = Seq::new(n, |x: int| pending_upto(edges, x, Seq::new(n, |y: int| false), edges.len() as int) as int);
    (zero_positions(deg, n), deg, 0, 0)
}

/// One step: look at the next edge from the bus being processed (an edge
/// from it takes one feeder off its destination, which is queued when none
/// is left), or move on to the next queued bus.
pub open spec fn kahn_step(edges: Seq<(Option<usize>, usize)>, st: KahnState) -> KahnState {
    let (q, deg, h, j) = st;
    if h >= q.len() {
        st
    } else if j < edges.len() {
        let e = edges[j as int];
        if e.0 == Some(q[h as int]) {
            let dst = e.1 as int;
            let deg2 = deg.update(dst, deg[dst] - 1);
            (if deg2[dst] == 0 { q.push(e.1) } else { q }, deg2, h, (j + 1) as nat)
        } else {
            (q, deg, h, (j + 1) as nat)
        }
    } else {
        (q, deg, (h + 1) as nat, 0)
    }
}

/// The state after `k` steps.
pub open spec fn kahn_run(edges: Seq<(Option<usize>, usize)>, st: KahnState, k: nat) -> KahnState
    decreases k,
{
    if k == 0 {
        st
    } else {
        kahn_step(edges, kahn_run(edges, st, (k - 1) as nat))
    }
}

/// The queue once Kahn's algorithm is done (every bus can be processed at
/// most once, each looking at every edge once).
pub open spec fn kahn_order(edges: Seq<(Option<usize>, usize)>, n: nat) -> Seq<usize> {
    kahn_run(edges, kahn_start(edges, n), n * (edges.len() + 1)).0
}

/// The processing order the engine computes: the tracks in order, then the
/// buses in the order Kahn's algorithm takes them over the bus-to-bus links
/// (starting from the buses no known bus feeds, in first-seen order), then
/// the master channel.
pub open spec fn routing_order_spec(
    tracks: Seq<TrackId>,
    bus_ids: Seq<BusId>,
    routing: Seq<RoutingConnection>,
) -> Seq<RoutingNode> {
    let uniq = distinct_buses(bus_ids);
    let q = kahn_order(link_edges(uniq, bus_links(routing)), uniq.len());
    tracks.map_values(|t: TrackId| RoutingNode::Track(t)) + q.map_values(|x: usize| RoutingNode::Bus(uniq[x as int]))
        + seq![RoutingNode::Master]
}

/// Counts as integers.
pub open spec fn as_counts(v: Seq<usize>) -> Seq<int> {
    v.map_values(|x: usize| x as int)
}

/// A finished state stays as it is.
proof fn lemma_kahn_done(edges: Seq<(Option<usize>, usize)>, st: KahnState, k: nat, m: nat)
    requires
        kahn_run(edges, st, k).2 >= kahn_run(edges, st, k).0.len(),
    ensures
        kahn_run(edges, st, k + m) == kahn_run(edges, st, k),
    decreases m,
{
    if m > 0 {
        lemma_kahn_done(edges, st, k, (m - 1) as nat);
        assert(kahn_run(edges, st, k + m) == kahn_step(edges, kahn_run(edges, st, (k + m - 1) as nat)));
    }
}

/// With no duplicates, a bus's position is where it is found.
proof fn lemma_position_in(uniq: Seq<BusId>, k: int)
    requires
        uniq.no_duplicates(),
        0 <= k < uniq.len(),
    ensures
        position_in(uniq, uniq[k]) == Some(k as usize),
{
    let b = uniq[k];
    assert(uniq.contains(b));
    let i = choose|i: int| 0 <= i < uniq.len() && uniq[i] == b;
    assert(i == k);
}

// ---------------------------------------------------------------------------
// Index-level model used by the implementation.
// ---------------------------------------------------------------------------

/// `o` is the index in `uniq` of the source bus `s`, or `None` if `s` is unknown.
spec fn src_matches(o: Option<usize>, s: BusId, uniq: Seq<BusId>) -> bool {
    match o {
        Some(si) => si < uniq.len() && uniq[si as int] == s,
        None => !uniq.contains(s),
    }
}

pub open spec fn src_done(o: Option<usize>, done: Seq<bool>) -> bool {
    match o {
        Some(s) => s < done.len() && done[s as int],
        None => false,
    }
}

/// Number of edges among the first `k` whose destination is `d` and whose
/// source has not been processed yet.
pub open spec fn pending_upto(edges: Seq<(Option<usize>, usize)>, d: int, done: Seq<bool>, k: int) -> nat
    decreases k,
{
    if k <= 0 {
        0
    } else {
        pending_upto(edges, d, done, k - 1) + if edges[k - 1].1 == d && !src_done(
            edges[k - 1].0,
            done,
        ) {
            1nat
        } else {
            0nat
        }
    }
}

/// Number of edges among the first `k` from index `b` to index `d`.
spec fn hits_upto(edges: Seq<(Option<usize>, usize)>, d: int, b: int, k: int) -> nat
    decreases k,
{
    if k <= 0 {
        0
    } else {
        hits_upto(edges, d, b, k - 1) + if edges[k - 1].1 == d && edges[k - 1].0 == Some(
            b as usize,
        ) {
            1nat
        } else {
            0nat
        }
    }
}

proof fn lemma_pending_bounded(edges: Seq<(Option<usize>, usize)>, d: int, done: Seq<bool>, k: int)
    requires
        0 <= k,
    ensures
        pending_upto(edges, d, done, k) <= k,
    decreases k,
{
    if k > 0 {
        lemma_pending_bounded(edges, d, done, k - 1);
    }
}

proof fn lemma_hits_monotone(edges: Seq<(Option<usize>, usize)>, d: int, b: int, k1: int, k2: int)
    requires
        0 <= k1 <= k2,
    ensures
        hits_upto(edges, d, b, k1) <= hits_upto(edges, d, b, k2),
    decreases k2 - k1,
{
    if k1 < k2 {
        lemma_hits_monotone(edges, d, b, k1, k2 - 1);
    }
}

/// Marking `b` processed removes exactly the edges from `b` from the pending count.
proof fn lemma_pending_mark(
    edges: Seq<(Option<usize>, usize)>,
    d: int,
    done: Seq<bool>,
    b: usize,
    k: int,
)
    requires
        b < done.len(),
        !done[b as int],
        0 <= k,
    ensures
        pending_upto(edges, d, done.update(b as int, true), k) + hits_upto(edges, d, b as int, k)
            == pending_upto(edges, d, done, k),
    decreases k,
{
    if k > 0 {
        lemma_pending_mark(edges, d, done, b, k - 1);
        let o = edges[k - 1].0;
        let nd = done.update(b as int, true);
        if o == Some(b) {
            assert(src_done(o, nd));
            assert(!src_done(o, done));
        } else {
            match o {
                Some(si) => {
                    if si < done.len() {
                        assert(nd[si as int] == done[si as int]);
                    }
                },
                None => {},
            }
            assert(src_done(o, nd) == src_done(o, done));
        }
    }
}

/// Nothing is pending exactly when every edge into `d` has a processed source.
proof fn lemma_pending_zero(edges: Seq<(Option<usize>, usize)>, d: int, done: Seq<bool>, k: int)
    requires
        0 <= k <= edges.len(),
    ensures
        pending_upto(edges, d, done, k) == 0 <==> (forall|e: int|
            0 <= e < k && #[trigger] edges[e].1 == d ==> src_done(edges[e].0, done)),
    decreases k,
{
    if k > 0 {
        lemma_pending_zero(edges, d, done, k - 1);
    }
}

proof fn lemma_no_dup_bounded(s: Seq<usize>, n: usize)
    requires
        s.no_duplicates(),
        forall|i: int| 0 <= i < s.len() ==> #[trigger] s[i] < n,
    ensures
        s.len() <= n,
{
    let f = |x: usize| x as int;
    assert(vstd::relations::injective(f));
    s.lemma_no_duplicates_injective(f);
    let m = s.map_values(f);
    m.unique_seq_to_set();
    vstd::set_lib::lemma_int_range(0, n as int);
    assert forall|x: int| m.to_set().contains(x) implies vstd::set_lib::set_int_range(
        0,
        n as int,
    ).contains(x) by {
        let i = choose|i: int| 0 <= i < m.len() && m[i] == x;
        assert(s[i] < n);
    }
    vstd::set_lib::lemma_len_subset(m.to_set(), vstd::set_lib::set_int_range(0, n as int));
}

fn index_of_bus(uniq: &Vec<BusId>, b: BusId) -> (r: Option<usize>)
    ensures
        match r {
            Some(k) => k < uniq.len() && uniq@[k as int] == b,
            None => !uniq@.contains(b),
        },
{
    let mut k: usize = 0;
    while k < uniq.len()
        invariant
            k <= uniq.len(),
            forall|j: int| 0 <= j < k ==> uniq@[j] != b,
        decreases uniq.len() - k,
    {
        if uniq[k].0 == b.0 {
            return Some(k);
        }
        k = k + 1;
    }
    None
}

/// Computes a topologically sorted routing order (tracks, then buses, then
/// master) from plain routing data and the known track and bus ids.
///
/// Buses are ordered with Kahn's algorithm over bus-to-bus connections.
#[verifier::rlimit(50)]
pub fn compute_routing_order(
    track_ids: &[TrackId],
    bus_ids: &[BusId],
    routing: &[RoutingConnection],
) -> (order: Vec<RoutingNode>)
    ensures
        is_routing_order(track_ids@, bus_ids@, routing@, order@),
        order@ == routing_order_spec(track_ids@, bus_ids@, routing@),
{
    // Distinct bus ids, in first-seen order.
    let mut uniq: Vec<BusId> = Vec::new();
    let mut i: usize = 0;
    while i < bus_ids.len()
        invariant
            i <= bus_ids.len(),
            uniq@.no_duplicates(),
            forall|x: BusId| uniq@.contains(x) <==> bus_ids@.subrange(0, i as int).contains(x),
            uniq@ == distinct_buses(bus_ids@.subrange(0, i as int)),
        decreases bus_ids.len() - i,
    {
        let b = bus_ids[i];
        proof {
            assert(bus_ids@.subrange(0, i + 1) =~= bus_ids@.subrange(0, i as int).push(b));
            assert(bus_ids@.subrange(0, i + 1).drop_last() =~= bus_ids@.subrange(0, i as int));
        }
        let ghost old_uniq = uniq@;
        match index_of_bus(&uniq, b) {
            Some(k) => {
                proof {
                    assert(uniq@[k as int] == b);
                    assert(uniq@.contains(b));
                }
            },
            None => {
                uniq.push(b);
                proof {
                    assert(uniq@[uniq@.len() - 1] == b);
                    assert(uniq@.contains(b));
                }
                proof {
                    assert forall|a: int, c: int| 0 <= a < c < uniq@.len() implies uniq@[a]
                        != uniq@[c] by {
                        if c == uniq@.len() - 1 {
                            assert(old_uniq.contains(uniq@[a]));
                        }
                    }
                }
            },
        }
        proof {
            assert forall|x: BusId| uniq@.contains(x) <==> bus_ids@.subrange(
                0,
                i + 1,
            ).contains(x) by {
                if uniq@.contains(x) && !old_uniq.contains(x) {
                    assert(x == b);
                    assert(bus_ids@.subrange(0, i + 1)[i as int] == b);
                }
                if old_uniq.contains(x) {
                    let k = choose|k: int| 0 <= k < old_uniq.len() && old_uniq[k] == x;
                    assert(uniq@[k] == x);
                }
                if bus_ids@.subrange(0, i + 1).contains(x) {
                    let sub = bus_ids@.subrange(0, i + 1);
                    let k = choose|k: int| 0 <= k < sub.len() && sub[k] == x;
                    if k < i {
                        assert(bus_ids@.subrange(0, i as int)[k] == x);
                    } else {
                        assert(x == b);
                        assert(uniq@.contains(b));
                    }
                }
            }
        }
        i = i + 1;
    }
    proof {
        assert(bus_ids@.subrange(0, bus_ids@.len() as int) =~= bus_ids@);
    }
    let n = uniq.len();

    // Bus-to-bus connections whose destination is known, as index pairs.
    let mut edges: Vec<(Option<usize>, usize)> = Vec::new();
    let mut r: usize = 0;
    while r < routing.len()
        invariant
            r <= routing.len(),
            n == uniq.len(),
            uniq@.no_duplicates(),
            edges@ == link_edges(uniq@, bus_links(routing@.subrange(0, r as int))),
            forall|k: int|
                #![trigger edges@[k]]
                0 <= k < edges@.len() ==> edges@[k].1 < n && exists|ri: int, s: BusId|
                    0 <= ri < routing@.len() && #[trigger] is_bus_edge(
                        routing@[ri],
                        s,
                        uniq@[edges@[k].1 as int],
                    ) && src_matches(edges@[k].0, s, uniq@),
            forall|ri: int, s: BusId, d: BusId|
                #![trigger is_bus_edge(routing@[ri], s, d)]
                0 <= ri < r && is_bus_edge(routing@[ri], s, d) && uniq@.contains(d) ==> exists|
                    k: int,
                |
                    0 <= k < edges@.len() && #[trigger] edges@[k].1 < n && uniq@[edges@[k].1 as int]
                        == d && src_matches(edges@[k].0, s, uniq@),
        decreases routing.len() - r,
    {
        let c = routing[r];
        let ghost old_edges = edges@;
        let ghost prev_links = bus_links(routing@.subrange(0, r as int));
        proof {
            assert(routing@.subrange(0, r + 1).drop_last() =~= routing@.subrange(0, r as int));
            assert(routing@.subrange(0, r + 1).last() == c);
        }
        match (c.source, c.destination) {
            (RoutingNode::Bus(s), RoutingNode::Bus(d)) => {
                proof {
                    assert(bus_links(routing@.subrange(0, r + 1)) == prev_links.push((s, d)));
                    assert(prev_links.push((s, d)).drop_last() =~= prev_links);
                }
                match index_of_bus(&uniq, d) {
                    Some(di) => {
                        let si = index_of_bus(&uniq, s);
                        edges.push((si, di));
                        proof {
                            let k = edges@.len() - 1;
                            assert(is_bus_edge(routing@[r as int], s, uniq@[edges@[k].1 as int]));
                            lemma_position_in(uniq@, di as int);
                            match si {
                                Some(sk) => {
                                    lemma_position_in(uniq@, sk as int);
                                },
                                None => {},
                            }
                            assert(edges@ == link_edges(uniq@, bus_links(routing@.subrange(0, r + 1))));
                        }
                    },
                    None => {
                        proof {
                            assert(edges@ == link_edges(uniq@, bus_links(routing@.subrange(0, r + 1))));
                        }
                    },
                }
            },
            _ => {
                proof {
                    assert(bus_links(routing@.subrange(0, r + 1)) == prev_links);
                }
            },
        }
        proof {
            assert forall|ri: int, s: BusId, d: BusId|
                0 <= ri < r + 1 && is_bus_edge(routing@[ri], s, d) && uniq@.contains(
                    d,
                ) implies exists|k: int|
                0 <= k < edges@.len() && #[trigger] edges@[k].1 < n && uniq@[edges@[k].1 as int]
                    == d && src_matches(edges@[k].0, s, uniq@) by {
                if ri == r {
                    let k = edges@.len() - 1;
                    assert(edges@[k].1 < n);
                } else {
                    let k = choose|k: int|
                        0 <= k < old_edges.len() && #[trigger] old_edges[k].1 < n && uniq@[old_edges[k].1 as int]
                            == d && src_matches(old_edges[k].0, s, uniq@);
                    assert(edges@[k] == old_edges[k]);
                }
            }
        }
        r = r + 1;
    }
    let ne = edges.len();
    let ghost done0: Seq<bool> = Seq::new(n as nat, |x: int| false);

    // In-degrees.
    let mut indeg: Vec<usize> = Vec::new();
    let mut d: usize = 0;
    while d < n
        invariant
            d <= n,
            indeg@.len() == d,
            forall|x: int| 0 <= x < d ==> #[trigger] indeg@[x] == 0,
        decreases n - d,
    {
        indeg.push(0);
        d = d + 1;
    }
    let mut e: usize = 0;
    while e < ne
        invariant
            e <= ne,
            ne == edges@.len(),
            n == uniq@.len(),
            indeg@.len() == n,
            done0 == Seq::new(n as nat, |x: int| false),
            forall|k: int| 0 <= k < ne ==> (#[trigger] edges@[k]).1 < n,
            forall|x: int| 0 <= x < n ==> #[trigger] indeg@[x] == pending_upto(edges@, x, done0, e as int),
        decreases ne - e,
    {
        let dst = edges[e].1;
        proof {
            lemma_pending_bounded(edges@, dst as int, done0, e as int);
        }
        indeg.set(dst, indeg[dst] + 1);
        e = e + 1;
        proof {
            assert forall|x: int| 0 <= x < n implies #[trigger] indeg@[x] == pending_upto(
                edges@,
                x,
                done0,
                e as int,
            ) by {
                assert(!src_done(edges@[e - 1].0, done0));
            }
        }
    }

    // Initial queue: buses that nothing feeds.
    let mut queue: Vec<usize> = Vec::new();
    let mut queued: Vec<bool> = Vec::new();
    let mut d: usize = 0;
    while d < n
        invariant
            d <= n,
            n == uniq@.len(),
            ne == edges@.len(),
            indeg@.len() == n,
            queued@.len() == d,
            done0 == Seq::new(n as nat, |x: int| false),
            queue@ == zero_positions(as_counts(indeg@), d as nat),
            queue@.no_duplicates(),
            forall|k: int| 0 <= k < queue@.len() ==> #[trigger] queue@[k] < d,
            forall|x: int| 0 <= x < d ==> (#[trigger] queued@[x] <==> queue@.contains(x as usize)),
            forall|x: int| 0 <= x < d ==> (#[trigger] queued@[x] <==> indeg@[x] == 0),
            forall|x: int| 0 <= x < n ==> #[trigger] indeg@[x] == pending_upto(edges@, x, done0, ne as int),
            forall|k: int, ee: int|
                #![trigger queue@[k], edges@[ee]]
                0 <= k < queue@.len() && 0 <= ee < ne && edges@[ee].1 == queue@[k] ==> false,
        decreases n - d,
    {
        let ghost qprev = queue@;
        if indeg[d] == 0 {
            proof {
                lemma_pending_zero(edges@, d as int, done0, ne as int);
            }
            queue.push(d);
            queued.push(true);
            proof {
                assert forall|k: int, ee: int|
                    0 <= k < queue@.len() && 0 <= ee < ne && edges@[ee].1 == queue@[k] implies false by {
                    if k == queue@.len() - 1 {
                        assert(src_done(edges@[ee].0, done0));
                    } else {
                        assert(queue@[k] == qprev[k]);
                    }
                }
            }
        } else {
            queued.push(false);
        }
        proof {
            assert forall|x: int| 0 <= x < d + 1 implies (#[trigger] queued@[x]
                <==> queue@.contains(x as usize)) by {
                if x < d {
                    if queue@.contains(x as usize) {
                        let k = choose|k: int| 0 <= k < queue@.len() && queue@[k] == x as usize;
                        if k < qprev.len() {
                            assert(qprev[k] == x as usize);
                        }
                    }
                    if qprev.contains(x as usize) {
                        let k = choose|k: int| 0 <= k < qprev.len() && qprev[k] == x as usize;
                        assert(queue@[k] == x as usize);
                    }
                } else {
                    if queued@[x] {
                        assert(queue@[queue@.len() - 1] == d);
                    } else {
                        assert(queue@ == qprev);
                    }
                }
            }
        }
        d = d + 1;
    }

    // Kahn's loop.
    let mut done: Vec<bool> = Vec::new();
    let mut d: usize = 0;
    while d < n
        invariant
            d <= n,
            done@.len() == d,
            forall|x: int| 0 <= x < d ==> !(#[trigger] done@[x]),
        decreases n - d,
    {
        done.push(false);
        d = d + 1;
    }
    proof {
        assert(done@ =~= done0);
    }
    let mut out: Vec<BusId> = Vec::new();
    let mut head: usize = 0;
    let ghost start = kahn_start(edges@, n as nat);
    let ghost mut c: int = 0;
    proof {
        lemma_no_dup_bounded(queue@, n);
        assert(Seq::new(n as nat, |y: int| false) =~= done0);
        assert(as_counts(indeg@) =~= start.1);
        assert(kahn_run(edges@, start, 0) == (queue@, as_counts(indeg@), 0nat, 0nat));
    }
    while head < queue.len()
        invariant
            start == kahn_start(edges@, n as nat),
            kahn_run(edges@, start, c as nat) == (queue@, as_counts(indeg@), head as nat, 0nat),
            c == head * (ne + 1),
            n == uniq@.len(),
            uniq@.no_duplicates(),
            ne == edges@.len(),
            forall|k: int| 0 <= k < ne ==> (#[trigger] edges@[k]).1 < n,
            forall|k: int| #![trigger edges@[k]] 0 <= k < ne ==> match edges@[k].0 {
                Some(si) => si < n,
                None => true,
            },
            indeg@.len() == n,
            queued@.len() == n,
            done@.len() == n,
            head <= queue@.len() <= n,
            queue@.no_duplicates(),
            forall|k: int| 0 <= k < queue@.len() ==> #[trigger] queue@[k] < n,
            forall|x: int| 0 <= x < n ==> (#[trigger] queued@[x] <==> queue@.contains(x as usize)),
            forall|x: int| 0 <= x < n ==> (#[trigger] queued@[x] <==> indeg@[x] == 0),
            forall|x: int| 0 <= x < n ==> (#[trigger] done@[x] <==> queue@.subrange(
                0,
                head as int,
            ).contains(x as usize)),
            forall|x: int| 0 <= x < n ==> #[trigger] indeg@[x] == pending_upto(edges@, x, done@, ne as int),
            forall|k: int, ee: int|
                #![trigger queue@[k], edges@[ee]]
                0 <= k < queue@.len() && 0 <= ee < ne && edges@[ee].1 == queue@[k] ==> exists|
                    k2: int,
                | 0 <= k2 < k && edges@[ee].0 == Some(#[trigger] queue@[k2]),
            out@.len() == head,
            forall|k: int| 0 <= k < head ==> #[trigger] out@[k] == uniq@[queue@[k] as int],
        decreases n - head,
    {
        let b = queue[head];
        let ghost done_old = done@;
        let ghost qold = queue@;
        proof {
            assert(!queue@.subrange(0, head as int).contains(b)) by {
                if queue@.subrange(0, head as int).contains(b) {
                    let k = choose|k: int| 0 <= k < head && queue@.subrange(0, head as int)[k] == b;
                    assert(queue@[k] == queue@[head as int]);
                }
            }
        }
        done.set(b, true);
        out.push(uniq[b]);
        head = head + 1;
        proof {
            assert forall|x: int| 0 <= x < n implies (#[trigger] done@[x] <==> queue@.subrange(
                0,
                head as int,
            ).contains(x as usize)) by {
                let sub_new = queue@.subrange(0, head as int);
                let sub_old = queue@.subrange(0, head - 1);
                assert(sub_new =~= sub_old.push(b));
                if x == b {
                    assert(sub_new[head - 1] == b);
                } else {
                    assert(done@[x] == done_old[x]);
                    if sub_new.contains(x as usize) {
                        let k = choose|k: int| 0 <= k < sub_new.len() && sub_new[k] == x as usize;
                        assert(k < head - 1);
                        assert(sub_old[k] == x as usize);
                    }
                    if sub_old.contains(x as usize) {
                        let k = choose|k: int| 0 <= k < sub_old.len() && sub_old[k] == x as usize;
                        assert(sub_new[k] == x as usize);
                    }
                }
            }
            assert forall|x: int| 0 <= x < n implies pending_upto(edges@, x, done@, ne as int)
                + hits_upto(edges@, x, b as int, ne as int) == pending_upto(
                edges@,
                x,
                done_old,
                ne as int,
            ) by {
                lemma_pending_mark(edges@, x, done_old, b, ne as int);
            }
        }
        let mut j: usize = 0;
        while j < ne
            invariant
                start == kahn_start(edges@, n as nat),
                kahn_run(edges@, start, c as nat) == (queue@, as_counts(indeg@), (head - 1) as nat, j as nat),
                c == (head - 1) * (ne + 1) + j,
                j <= ne,
                n == uniq@.len(),
                ne == edges@.len(),
                b < n,
                head <= queue@.len(),
                head >= 1,
                queue@[head - 1] == b,
                forall|k: int| 0 <= k < ne ==> (#[trigger] edges@[k]).1 < n,
                indeg@.len() == n,
                queued@.len() == n,
                done@.len() == n,
                done@ == done_old.update(b as int, true),
                queue@.subrange(0, qold.len() as int) == qold,
                qold.len() <= queue@.len(),
                queue@.no_duplicates(),
                forall|k: int| 0 <= k < queue@.len() ==> #[trigger] queue@[k] < n,
                forall|x: int| 0 <= x < n ==> (#[trigger] queued@[x] <==> queue@.contains(x as usize)),
                forall|x: int| 0 <= x < n ==> (#[trigger] queued@[x] <==> indeg@[x] == 0),
                forall|x: int| 0 <= x < n ==> (#[trigger] done@[x] <==> queue@.subrange(
                    0,
                    head as int,
                ).contains(x as usize)),
                forall|x: int|
                    0 <= x < n ==> pending_upto(edges@, x, done@, ne as int) + hits_upto(
                        edges@,
                        x,
                        b as int,
                        ne as int,
                    ) == pending_upto(edges@, x, done_old, ne as int),
                forall|x: int|
                    0 <= x < n ==> #[trigger] indeg@[x] + hits_upto(edges@, x, b as int, j as int)
                        == pending_upto(edges@, x, done_old, ne as int),
                forall|k: int, ee: int|
                    #![trigger queue@[k], edges@[ee]]
                    0 <= k < queue@.len() && 0 <= ee < ne && edges@[ee].1 == queue@[k] ==> exists|
                        k2: int,
                    | 0 <= k2 < k && edges@[ee].0 == Some(#[trigger] queue@[k2]),
            decreases ne - j,
        {
            let edge = edges[j];
            let ghost jj = j as int;
            let ghost st = kahn_run(edges@, start, c as nat);
            let ghost indeg_before = indeg@;
            if edge.0 == Some(b) {
                let dst = edge.1;
                proof {
                    lemma_hits_monotone(edges@, dst as int, b as int, jj + 1, ne as int);
                    assert(hits_upto(edges@, dst as int, b as int, jj + 1) == hits_upto(
                        edges@,
                        dst as int,
                        b as int,
                        jj,
                    ) + 1);
                }
                indeg.set(dst, indeg[dst] - 1);
                if indeg[dst] == 0 {
                    proof {
                        // every hit edge is already counted, so nothing is pending for dst
                        lemma_hits_monotone(edges@, dst as int, b as int, jj + 1, ne as int);
                        assert(pending_upto(edges@, dst as int, done@, ne as int) == 0);
                        lemma_pending_zero(edges@, dst as int, done@, ne as int);
                        assert(!queue@.contains(dst)) by {
                            assert(!queued@[dst as int]);
                        }
                    }
                    let ghost qprev = queue@;
                    queue.push(dst);
                    queued.set(dst, true);
                    proof {
                        assert(queue@.subrange(0, qold.len() as int) =~= qold) by {
                            assert(qprev.subrange(0, qold.len() as int) == qold);
                        }
                        assert forall|x: int| 0 <= x < n implies (#[trigger] done@[x]
                            <==> queue@.subrange(0, head as int).contains(x as usize)) by {
                            assert(queue@.subrange(0, head as int) =~= qprev.subrange(
                                0,
                                head as int,
                            ));
                        }
                        assert forall|k: int, ee: int|
                            0 <= k < queue@.len() && 0 <= ee < ne && edges@[ee].1
                                == queue@[k] implies exists|k2: int|
                            0 <= k2 < k && edges@[ee].0 == Some(#[trigger] queue@[k2]) by {
                            if k == queue@.len() - 1 {
                                assert(src_done(edges@[ee].0, done@));
                                let si = edges@[ee].0.unwrap();
                                assert(queue@.subrange(0, head as int).contains(si));
                                let k2 = choose|k2: int|
                                    0 <= k2 < head && queue@.subrange(0, head as int)[k2] == si;
                                assert(queue@[k2] == si);
                            } else {
                                assert(qprev[k] == queue@[k]);
                                let k2 = choose|k2: int|
                                    0 <= k2 < k && edges@[ee].0 == Some(#[trigger] qprev[k2]);
                                assert(queue@[k2] == qprev[k2]);
                            }
                        }
                        assert forall|x: int| 0 <= x < n implies (#[trigger] queued@[x]
                            <==> queue@.contains(x as usize)) by {
                            if x != dst {
                                if queue@.contains(x as usize) {
                                    let k = choose|k: int|
                                        0 <= k < queue@.len() && queue@[k] == x as usize;
                                    assert(k < qprev.len());
                                    assert(qprev[k] == x as usize);
                                }
                                if qprev.contains(x as usize) {
                                    let k = choose|k: int|
                                        0 <= k < qprev.len() && qprev[k] == x as usize;
                                    assert(queue@[k] == x as usize);
                                }
                            } else {
                                assert(queue@[queue@.len() - 1] == dst);
                            }
                        }
                    }
                }
            }
            j = j + 1;
            proof {
                c = c + 1;
                assert(kahn_run(edges@, start, c as nat) == kahn_step(edges@, st));
                assert(st.0[st.2 as int] == b);
                if edge.0 == Some(b) {
                    assert(as_counts(indeg@) =~= as_counts(indeg_before).update(
                        edge.1 as int,
                        as_counts(indeg_before)[edge.1 as int] - 1,
                    ));
                }
                assert(kahn_run(edges@, start, c as nat) == (queue@, as_counts(indeg@), (head - 1) as nat, j as nat));
            }
            proof {
                assert forall|x: int|
                    0 <= x < n implies #[trigger] indeg@[x] + hits_upto(
                    edges@,
                    x,
                    b as int,
                    j as int,
                ) == pending_upto(edges@, x, done_old, ne as int) by {
                    assert(hits_upto(edges@, x, b as int, j as int) == hits_upto(
                        edges@,
                        x,
                        b as int,
                        jj,
                    ) + if edges@[jj].1 == x && edges@[jj].0 == Some(b) {
                        1nat
                    } else {
                        0nat
                    });
                }
            }
            proof {
                lemma_no_dup_bounded(queue@, n);
            }
        }
        proof {
            assert forall|x: int| 0 <= x < n implies #[trigger] indeg@[x] == pending_upto(
                edges@,
                x,
                done@,
                ne as int,
            ) by {}
            assert forall|k: int| 0 <= k < head implies #[trigger] out@[k] == uniq@[queue@[k] as int] by {
                if k < head - 1 {
                    assert(queue@[k] == qold[k]);
                }
            }
            lemma_no_dup_bounded(queue@, n);
            let st = kahn_run(edges@, start, c as nat);
            c = c + 1;
            assert(kahn_run(edges@, start, c as nat) == kahn_step(edges@, st));
            assert((head - 1) * (ne + 1) + ne + 1 == head * (ne + 1)) by (nonlinear_arith)
                requires
                    head >= 1,
            ;
        }
    }
    proof {
        lemma_no_dup_bounded(queue@, n);
        assert(c <= n * (ne + 1)) by (nonlinear_arith)
            requires
                c == head * (ne + 1),
                head <= n,
        ;
        lemma_kahn_done(edges@, start, c as nat, (n * (ne + 1) - c) as nat);
        assert(kahn_order(edges@, n as nat) == queue@);
    }

    // Assemble the order and establish its properties.
    let mut order: Vec<RoutingNode> = Vec::new();
    let mut t: usize = 0;
    while t < track_ids.len()
        invariant
            t <= track_ids.len(),
            order@.len() == t,
            forall|k: int| 0 <= k < t ==> order@[k] == RoutingNode::Track(#[trigger] track_ids@[k]),
        decreases track_ids.len() - t,
    {
        order.push(RoutingNode::Track(track_ids[t]));
        t = t + 1;
    }
    let tl = track_ids.len();
    let mut k: usize = 0;
    while k < out.len()
        invariant
            tl == track_ids@.len(),
            k <= out.len(),
            order@.len() == tl + k,
            forall|x: int| 0 <= x < tl ==> order@[x] == RoutingNode::Track(#[trigger] track_ids@[x]),
            forall|x: int| 0 <= x < k ==> #[trigger] order@[tl + x] == RoutingNode::Bus(out@[x]),
        decreases out.len() - k,
    {
        order.push(RoutingNode::Bus(out[k]));
        k = k + 1;
    }
    order.push(RoutingNode::Master);
    proof {
        let ob = order@.subrange(tl as int, order@.len() - 1).map_values(|n| bus_of(n));
        assert(ob =~= out@) by {
            assert forall|x: int| 0 <= x < out@.len() implies ob[x] == out@[x] by {
                assert(order@[tl + x] == RoutingNode::Bus(out@[x]));
            }
        }
        assert forall|i: int| tl <= i < order@.len() - 1 implies #[trigger] order@[i] is Bus by {
            assert(order@[tl + (i - tl)] == RoutingNode::Bus(out@[i - tl]));
        }
        lemma_out_valid(bus_ids@, routing@, uniq@, edges@, queue@, done@, indeg@, queued@, out@);
        assert(routing@.subrange(0, routing@.len() as int) =~= routing@);
        let spec_order = routing_order_spec(track_ids@, bus_ids@, routing@);
        assert(out@ =~= queue@.map_values(|x: usize| uniq@[x as int]));
        assert(order@ =~= spec_order) by {
            assert forall|x: int| 0 <= x < order@.len() implies order@[x] == spec_order[x] by {
                if x < tl {
                } else if x < order@.len() - 1 {
                    assert(order@[tl + (x - tl)] == RoutingNode::Bus(out@[x - tl]));
                }
            }
        }
    }
    order
}

proof fn lemma_out_valid(
    bus_ids: Seq<BusId>,
    routing: Seq<RoutingConnection>,
    uniq: Seq<BusId>,
    edges: Seq<(Option<usize>, usize)>,
    queue: Seq<usize>,
    done: Seq<bool>,
    indeg: Seq<usize>,
    queued: Seq<bool>,
    out: Seq<BusId>,
)
    requires
        uniq.no_duplicates(),
        uniq.len() <= usize::MAX,
        forall|x: BusId| uniq.contains(x) <==> bus_ids.contains(x),
        forall|k: int|
            #![trigger edges[k]]
            0 <= k < edges.len() ==> edges[k].1 < uniq.len() && exists|ri: int, s: BusId|
                0 <= ri < routing.len() && #[trigger] is_bus_edge(
                    routing[ri],
                    s,
                    uniq[edges[k].1 as int],
                ) && src_matches(edges[k].0, s, uniq),
        forall|ri: int, s: BusId, d: BusId|
            #![trigger is_bus_edge(routing[ri], s, d)]
            0 <= ri < routing.len() && is_bus_edge(routing[ri], s, d) && uniq.contains(d) ==> exists|
                k: int,
            |
                0 <= k < edges.len() && #[trigger] edges[k].1 < uniq.len() && uniq[edges[k].1 as int]
                    == d && src_matches(edges[k].0, s, uniq),
        indeg.len() == uniq.len(),
        queued.len() == uniq.len(),
        done.len() == uniq.len(),
        queue.no_duplicates(),
        forall|k: int| 0 <= k < queue.len() ==> #[trigger] queue[k] < uniq.len(),
        forall|x: int| 0 <= x < uniq.len() ==> (#[trigger] queued[x] <==> queue.contains(x as usize)),
        forall|x: int| 0 <= x < uniq.len() ==> (#[trigger] queued[x] <==> indeg[x] == 0),
        forall|x: int|
            0 <= x < uniq.len() ==> (#[trigger] done[x] <==> queue.subrange(
                0,
                queue.len() as int,
            ).contains(x as usize)),
        forall|x: int|
            0 <= x < uniq.len() ==> #[trigger] indeg[x] == pending_upto(
                edges,
                x,
                done,
                edges.len() as int,
            ),
        forall|k: int, ee: int|
            #![trigger queue[k], edges[ee]]
            0 <= k < queue.len() && 0 <= ee < edges.len() && edges[ee].1 == queue[k] ==> exists|
                k2: int,
            | 0 <= k2 < k && edges[ee].0 == Some(#[trigger] queue[k2]),
        out.len() == queue.len(),
        forall|k: int| 0 <= k < queue.len() ==> #[trigger] out[k] == uniq[queue[k] as int],
    ensures
        valid_bus_order(bus_ids, routing, out),
{
    assert(queue.subrange(0, queue.len() as int) =~= queue);
    // no duplicates
    assert forall|a: int, c: int| 0 <= a < c < out.len() implies out[a] != out[c] by {
        assert(queue[a] != queue[c]);
    }
    // membership
    assert forall|j: int| 0 <= j < out.len() implies bus_ids.contains(#[trigger] out[j]) by {
        assert(uniq.contains(uniq[queue[j] as int]));
    }
    // predecessors come first
    assert forall|j: int, i: int, s: BusId|
        0 <= j < out.len() && 0 <= i < routing.len() && is_bus_edge(
            routing[i],
            s,
            out[j],
        ) implies exists|k: int| 0 <= k < j && #[trigger] out[k] == s by {
        let d = out[j];
        assert(uniq.contains(d));
        let ee = choose|ee: int|
            0 <= ee < edges.len() && #[trigger] edges[ee].1 < uniq.len() && uniq[edges[ee].1 as int]
                == d && src_matches(edges[ee].0, s, uniq);
        assert(edges[ee].1 == queue[j]) by {
            assert(uniq[queue[j] as int] == d);
        }
        let k2 = choose|k2: int| 0 <= k2 < j && edges[ee].0 == Some(#[trigger] queue[k2]);
        assert(out[k2] == s);
    }
    // maximality
    assert forall|b: BusId|
        bus_ids.contains(b) && (forall|i: int, s: BusId|
            #![trigger is_bus_edge(routing[i], s, b)]
            0 <= i < routing.len() && is_bus_edge(routing[i], s, b) ==> out.contains(
                s,
            )) implies out.contains(b) by {
        assert(uniq.contains(b));
        let d = choose|d: int| 0 <= d < uniq.len() && uniq[d] == b;
        assert forall|e: int| 0 <= e < edges.len() && #[trigger] edges[e].1 == d implies src_done(
            edges[e].0,
            done,
        ) by {
            let (ri, s) = choose|ri: int, s: BusId|
                0 <= ri < routing.len() && #[trigger] is_bus_edge(
                    routing[ri],
                    s,
                    uniq[edges[e].1 as int],
                ) && src_matches(edges[e].0, s, uniq);
            assert(is_bus_edge(routing[ri], s, b));
            assert(out.contains(s));
            let k = choose|k: int| 0 <= k < out.len() && out[k] == s;
            assert(uniq.contains(s)) by {
                assert(uniq[queue[k] as int] == s);
            }
            let si = edges[e].0.unwrap();
            assert(uniq[si as int] == uniq[queue[k] as int]);
            assert(si == queue[k]);
            assert(queue.contains(si));
        }
        lemma_pending_zero(edges, d, done, edges.len() as int);
        assert(indeg[d] == 0);
        assert(queued[d]);
        assert(queue.contains(d as usize));
        let k = choose|k: int| 0 <= k < queue.len() && queue[k] == d as usize;
        assert(out[k] == uniq[queue[k] as int]);
        assert(out.contains(b)) by {
            assert(out[k] == b);
        }
    }
}

/// A bus that no other bus feeds is always processed.
pub proof fn law_unfed_bus_is_processed(
    bus_ids: Seq<BusId>,
    routing: Seq<RoutingConnection>,
    order: Seq<BusId>,
    b: BusId,
)
    requires
        valid_bus_order(bus_ids, routing, order),
        bus_ids.contains(b),
        forall|i: int, s: BusId| 0 <= i < routing.len() ==> !#[trigger] is_bus_edge(routing[i], s, b),
    ensures
        order.contains(b),
{
}

/// A bus that feeds itself is never processed: it would have to come after
/// itself.
pub proof fn law_self_fed_bus_is_left_out(
    bus_ids: Seq<BusId>,
    routing: Seq<RoutingConnection>,
    order: Seq<BusId>,
    b: BusId,
    i: int,
)
    requires
        valid_bus_order(bus_ids, routing, order),
        0 <= i < routing.len(),
        is_bus_edge(routing[i], b, b),
    ensures
        !order.contains(b),
{
    if order.contains(b) {
        let j = choose|j: int| 0 <= j < order.len() && order[j] == b;
        assert(is_bus_edge(routing[i], b, order[j]));
        let k = choose|k: int| 0 <= k < j && #[trigger] order[k] == b;
        assert(order[k] == order[j]);
    }
}

/// The routing reaches the processing order only through its bus-to-bus
/// connections: routings with the same bus-to-bus connections, in the same
/// order, give the same order, whatever their track, sidechain or master
/// connections.
pub proof fn law_order_reads_only_bus_links(
    tracks: Seq<TrackId>,
    bus_ids: Seq<BusId>,
    r1: Seq<RoutingConnection>,
    r2: Seq<RoutingConnection>,
)
    requires
        bus_links(r1) == bus_links(r2),
    ensures
        routing_order_spec(tracks, bus_ids, r1) == routing_order_spec(tracks, bus_ids, r2),
{
}

} // verus!
