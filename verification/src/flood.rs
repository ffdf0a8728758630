//! The cluster-level dissemination argument for the broadcast protocol.
//!
//! A cluster is modelled as each node's dissemination view — its fan-out
//! targets and the values it has recorded — together with the multiset of
//! broadcast messages sent but not yet delivered. Delivering a message to
//! a node that has not recorded its value records it and puts one copy per
//! fan-out target in flight; a duplicate delivery only consumes the
//! message. `theorem_flood_reaches` shows that once every copy of a value
//! has been delivered, the value stands recorded at every node reachable
//! from its origin along fan-out edges: flooding loses nothing on a lossless
//! network, and the duplicate check stops it without stopping coverage.

use crate::Message;
use crate::broadcast::{
    BroadcastNode, BroadcastPayload, fanout_of, flood_msgs, step_contract,
};
use vstd::multiset::Multiset;
use vstd::prelude::*;

verus! {

/// One undelivered broadcast message: `value` on its way to `dest`.
pub struct InFlight {
    pub dest: Seq<char>,
    pub value: usize,
}

/// A node as the dissemination argument sees it.
pub struct FloodNode {
    pub fanout: Seq<Seq<char>>,
    pub seen: Seq<usize>,
}

/// The whole cluster: each node's state under its identifier, and the
/// broadcast messages still in flight.
pub struct Cluster {
    pub nodes: Map<Seq<char>, FloodNode>,
    pub inflight: Multiset<InFlight>,
}

/// The names in a stored fan-out list.
pub open spec fn fanout_names(fo: Seq<String>) -> Seq<Seq<char>> {
    fo.map_values(|s: String| s@)
}

/// The dissemination view of a broadcast node: whom it forwards to, and
/// what it has recorded.
pub open spec fn abstraction_of(n: BroadcastNode) -> FloodNode {
    FloodNode { fanout: fanout_names(fanout_of(n.topology@, n.node_id@)), seen: n.seen@ }
}

/// The batch of messages a fresh value `v` puts in flight: one copy per
/// fan-out target (a target listed twice is sent two copies).
pub open spec fn flood_batch(ns: Seq<Seq<char>>, v: usize) -> Multiset<InFlight>
    decreases ns.len(),
{
    if ns.len() == 0 {
        Multiset::empty()
    } else {
        flood_batch(ns.drop_first(), v).insert(InFlight { dest: ns[0], value: v })
    }
}

/// Membership in a non-empty list of names splits into its head and tail.
proof fn lemma_names_contains_split(s: Seq<Seq<char>>, x: Seq<char>)
    requires
        s.len() > 0,
    ensures
        s.contains(x) <==> (s[0] == x || s.drop_first().contains(x)),
{
    if s.contains(x) {
        let i = choose|i: int| 0 <= i < s.len() && s[i] == x;
        if i > 0 {
            assert(s.drop_first()[i - 1] == x);
        }
    }
    if s.drop_first().contains(x) {
        let j = choose|j: int| 0 <= j < s.drop_first().len() && s.drop_first()[j] == x;
        assert(s[j + 1] == x);
    }
}

/// What the fan-out batch holds: copies of `v` for the listed targets and
/// nothing else.
proof fn lemma_flood_batch_count(ns: Seq<Seq<char>>, v: usize, f: InFlight)
    ensures
        flood_batch(ns, v).count(f) > 0 <==> (f.value == v && ns.contains(f.dest)),
    decreases ns.len(),
{
    broadcast use vstd::multiset::group_multiset_axioms;

    if ns.len() > 0 {
        lemma_flood_batch_count(ns.drop_first(), v, f);
        lemma_names_contains_split(ns, f.dest);
    }
}

/// Delivering the message `f`: a node that has not recorded `f.value`
/// records it and puts one copy per fan-out target in flight; a duplicate
/// delivery only consumes the message.
pub open spec fn deliver(c: Cluster, f: InFlight) -> Cluster {
    let n = c.nodes[f.dest];
    if n.seen.contains(f.value) {
        Cluster { nodes: c.nodes, inflight: c.inflight.remove(f) }
    } else {
        Cluster {
            nodes: c.nodes.insert(
                f.dest,
                FloodNode { fanout: n.fanout, seen: n.seen.push(f.value) },
            ),
            inflight: c.inflight.remove(f).add(flood_batch(n.fanout, f.value)),
        }
    }
}

/// A message can be delivered when it is in flight towards a cluster node.
pub open spec fn can_deliver(c: Cluster, f: InFlight) -> bool {
    c.inflight.count(f) > 0 && c.nodes.contains_key(f.dest)
}

/// One cluster step: some deliverable message is delivered.
pub open spec fn cluster_step(c1: Cluster, c2: Cluster) -> bool {
    exists|f: InFlight| can_deliver(c1, f) && c2 == deliver(c1, f)
}

/// A run: consecutive configurations joined by cluster steps.
pub open spec fn run_ok(cs: Seq<Cluster>) -> bool {
    cs.len() >= 1 && (forall|i: int|
        0 <= i < cs.len() - 1 ==> #[trigger] cluster_step(cs[i], cs[i + 1]))
}

/// Either `k` has recorded `v`, or a copy of `v` is still on its way to `k`.
pub open spec fn holds_or_pending(c: Cluster, k: Seq<char>, v: usize) -> bool {
    (c.nodes.contains_key(k) && c.nodes[k].seen.contains(v)) || c.inflight.count(
        InFlight { dest: k, value: v },
    ) > 0
}

/// The coverage invariant: wherever `v` stands recorded, each fan-out
/// target of that node has recorded it too or has a copy on the way.
pub open spec fn coverage(c: Cluster, v: usize) -> bool {
    forall|id: Seq<char>, i: int|
        (c.nodes.contains_key(id) && c.nodes[id].seen.contains(v) && 0 <= i
            < c.nodes[id].fanout.len()) ==> holds_or_pending(
            c,
            #[trigger] c.nodes[id].fanout[i],
            v,
        )
}

/// No copy of `v` is in flight any more.
pub open spec fn quiescent(c: Cluster, v: usize) -> bool {
    forall|k: Seq<char>| #[trigger] c.inflight.count(InFlight { dest: k, value: v }) == 0
}

/// A delivery never takes `holds_or_pending` away: the recorded values only
/// grow, and the one copy a delivery consumes leaves its value recorded at
/// its destination.
proof fn lemma_holds_or_pending_preserved(c: Cluster, f: InFlight, k: Seq<char>, v: usize)
    requires
        can_deliver(c, f),
        holds_or_pending(c, k, v),
    ensures
        holds_or_pending(deliver(c, f), k, v),
{
    broadcast use vstd::multiset::group_multiset_axioms;

    let c2 = deliver(c, f);
    let n = c.nodes[f.dest];
    let fk = InFlight { dest: k, value: v };
    if c.nodes.contains_key(k) && c.nodes[k].seen.contains(v) {
        if f.dest == k && !n.seen.contains(f.value) {
            assert(c2.nodes[k].seen == n.seen.push(f.value));
            assert(c2.nodes[k].seen.contains(v)) by {
                let i = choose|i: int| 0 <= i < n.seen.len() && n.seen[i] == v;
                assert(c2.nodes[k].seen[i] == v);
            }
        }
    } else {
        assert(c.inflight.count(fk) > 0);
        if fk == f {
            if n.seen.contains(f.value) {
                assert(c2.nodes[k].seen.contains(v));
            } else {
                assert(c2.nodes[k].seen == n.seen.push(v));
                assert(c2.nodes[k].seen[n.seen.len() as int] == v);
                assert(c2.nodes[k].seen.contains(v));
            }
        } else {
            assert(c2.inflight.count(fk) >= c.inflight.count(fk) - (if fk == f {
                1int
            } else {
                0int
            }));
            assert(c2.inflight.count(fk) > 0);
        }
    }
}

/// A delivery preserves the coverage invariant.
proof fn lemma_deliver_preserves_coverage(c: Cluster, f: InFlight, v: usize)
    requires
        can_deliver(c, f),
        coverage(c, v),
    ensures
        coverage(deliver(c, f), v),
{
    broadcast use vstd::multiset::group_multiset_axioms;

    let c2 = deliver(c, f);
    let n = c.nodes[f.dest];
    assert forall|id: Seq<char>, i: int|
        (c2.nodes.contains_key(id) && c2.nodes[id].seen.contains(v) && 0 <= i
            < c2.nodes[id].fanout.len()) implies holds_or_pending(
        c2,
        #[trigger] c2.nodes[id].fanout[i],
        v,
    ) by {
        let k = c2.nodes[id].fanout[i];
        if id == f.dest && !n.seen.contains(f.value) {
            // the delivered node: its fan-out is unchanged, its seen grew by f.value
            assert(c2.nodes[id].fanout == n.fanout);
            assert(c2.nodes[id].seen == n.seen.push(f.value));
            if n.seen.contains(v) {
                // v stood recorded here before: use the old invariant
                assert(c.nodes[id].fanout[i] == k);
                assert(holds_or_pending(c, k, v));
                lemma_holds_or_pending_preserved(c, f, k, v);
            } else {
                // v == f.value was recorded by this very delivery: its copy
                // towards k is in the batch just sent
                assert(c2.nodes[id].seen[n.seen.len() as int] == v || n.seen.contains(v));
                assert(v == f.value) by {
                    let j = choose|j: int|
                        0 <= j < c2.nodes[id].seen.len() && c2.nodes[id].seen[j] == v;
                    if j < n.seen.len() {
                        assert(n.seen[j] == v);
                    }
                }
                assert(n.fanout.contains(k));
                lemma_flood_batch_count(n.fanout, f.value, InFlight { dest: k, value: v });
                assert(flood_batch(n.fanout, f.value).count(InFlight { dest: k, value: v }) > 0);
                assert(c2.inflight.count(InFlight { dest: k, value: v }) > 0);
            }
        } else {
            // an untouched node (or a duplicate delivery): the antecedent
            // already held before the step
            assert(c.nodes.contains_key(id));
            assert(c.nodes[id].seen.contains(v));
            assert(c.nodes[id].fanout[i] == k);
            assert(holds_or_pending(c, k, v));
            lemma_holds_or_pending_preserved(c, f, k, v);
        }
    }
}

/// A whole run preserves the coverage invariant and `holds_or_pending` at
/// the origin.
proof fn lemma_run_preserves(cs: Seq<Cluster>, v: usize, origin: Seq<char>)
    requires
        run_ok(cs),
        coverage(cs[0], v),
        holds_or_pending(cs[0], origin, v),
    ensures
        coverage(cs.last(), v),
        holds_or_pending(cs.last(), origin, v),
    decreases cs.len(),
{
    if cs.len() > 1 {
        assert(cluster_step(cs[0int], cs[0int + 1]));
        assert(cluster_step(cs[0], cs[1]));
        let f = choose|f: InFlight| can_deliver(cs[0], f) && cs[1] == deliver(cs[0], f);
        lemma_deliver_preserves_coverage(cs[0], f, v);
        lemma_holds_or_pending_preserved(cs[0], f, origin, v);
        let rest = cs.drop_first();
        assert(run_ok(rest)) by {
            assert forall|i: int| 0 <= i < rest.len() - 1 implies #[trigger] cluster_step(
                rest[i],
                rest[i + 1],
            ) by {
                assert(rest[i] == cs[i + 1]);
                assert(rest[i + 1] == cs[i + 2]);
                assert(cluster_step(cs[i + 1], cs[i + 2]));
            }
        }
        assert(rest[0] == cs[1]);
        lemma_run_preserves(rest, v, origin);
        assert(rest.last() == cs.last());
    }
}

/// A run never changes which nodes exist or whom they forward to: a
/// delivery only grows the recorded values of its destination.
proof fn lemma_run_keeps_topology(cs: Seq<Cluster>)
    requires
        run_ok(cs),
    ensures
        cs.last().nodes.dom() == cs[0].nodes.dom(),
        forall|id: Seq<char>|
            #[trigger] cs[0].nodes.contains_key(id) ==> cs.last().nodes[id].fanout
                == cs[0].nodes[id].fanout,
    decreases cs.len(),
{
    if cs.len() > 1 {
        assert(cluster_step(cs[0int], cs[0int + 1]));
        assert(cluster_step(cs[0], cs[1]));
        let f = choose|f: InFlight| can_deliver(cs[0], f) && cs[1] == deliver(cs[0], f);
        assert(cs[1].nodes.dom() =~= cs[0].nodes.dom());
        let rest = cs.drop_first();
        assert(run_ok(rest)) by {
            assert forall|i: int| 0 <= i < rest.len() - 1 implies #[trigger] cluster_step(
                rest[i],
                rest[i + 1],
            ) by {
                assert(rest[i] == cs[i + 1]);
                assert(rest[i + 1] == cs[i + 2]);
                assert(cluster_step(cs[i + 1], cs[i + 2]));
            }
        }
        assert(rest[0] == cs[1]);
        lemma_run_keeps_topology(rest);
        assert(rest.last() == cs.last());
    }
}

/// A fan-out edge: `b` stands in `a`'s fan-out list.
pub open spec fn edge(c: Cluster, a: Seq<char>, b: Seq<char>) -> bool {
    c.nodes.contains_key(a) && c.nodes[a].fanout.contains(b)
}

/// A path along fan-out edges through cluster nodes.
pub open spec fn path_ok(c: Cluster, p: Seq<Seq<char>>) -> bool {
    &&& p.len() >= 1
    &&& forall|i: int| 0 <= i < p.len() ==> c.nodes.contains_key(#[trigger] p[i])
    &&& forall|i: int| 0 <= i < p.len() - 1 ==> edge(c, #[trigger] p[i], p[i + 1])
}

/// `b` can be reached from `a` along fan-out edges.
pub open spec fn reachable(c: Cluster, a: Seq<char>, b: Seq<char>) -> bool {
    exists|p: Seq<Seq<char>>| path_ok(c, p) && p.first() == a && p.last() == b
}

/// A path through the initial configuration is a path through the final
/// one: the run keeps nodes and fan-out lists.
proof fn lemma_run_keeps_paths(cs: Seq<Cluster>, p: Seq<Seq<char>>)
    requires
        run_ok(cs),
        path_ok(cs[0], p),
    ensures
        path_ok(cs.last(), p),
{
    lemma_run_keeps_topology(cs);
    let last = cs.last();
    assert forall|i: int| 0 <= i < p.len() implies last.nodes.contains_key(#[trigger] p[i]) by {
        assert(cs[0].nodes.contains_key(p[i]));
        assert(last.nodes.dom().contains(p[i]));
    }
    assert forall|i: int| 0 <= i < p.len() - 1 implies edge(last, #[trigger] p[i], p[i + 1]) by {
        assert(edge(cs[0], p[i], p[i + 1]));
        assert(last.nodes[p[i]].fanout == cs[0].nodes[p[i]].fanout);
    }
}

/// Once nothing is in flight, coverage carries a recorded value along any
/// fan-out path.
proof fn lemma_path_covered(c: Cluster, v: usize, p: Seq<Seq<char>>)
    requires
        coverage(c, v),
        quiescent(c, v),
        path_ok(c, p),
        c.nodes[p.first()].seen.contains(v),
    ensures
        c.nodes[p.last()].seen.contains(v),
    decreases p.len(),
{
    if p.len() > 1 {
        assert(edge(c, p[0], p[1]));
        let n0 = c.nodes[p[0]];
        let i = choose|i: int| 0 <= i < n0.fanout.len() && n0.fanout[i] == p[1];
        assert(c.nodes[p[0]].fanout[i] == p[1]);
        assert(holds_or_pending(c, p[1], v));
        assert(c.inflight.count(InFlight { dest: p[1], value: v }) == 0);
        assert(c.nodes[p[1]].seen.contains(v));
        let rest = p.drop_first();
        assert(path_ok(c, rest)) by {
            assert forall|j: int| 0 <= j < rest.len() implies c.nodes.contains_key(
                #[trigger] rest[j],
            ) by {
                assert(rest[j] == p[j + 1]);
            }
            assert forall|j: int| 0 <= j < rest.len() - 1 implies edge(
                c,
                #[trigger] rest[j],
                rest[j + 1],
            ) by {
                assert(rest[j] == p[j + 1]);
                assert(rest[j + 1] == p[j + 2]);
            }
        }
        assert(rest[0] == p[1]);
        lemma_path_covered(c, v, rest);
        assert(rest.last() == p.last());
    }
}

/// Dissemination reachability: in any run that starts with no node having
/// recorded `v` and one copy of `v` on its way to the origin, and that ends
/// with every copy of `v` delivered, `v` stands recorded at every node
/// reachable from the origin along fan-out edges. No retry exists, so the
/// claim assumes every sent message is eventually delivered — which is
/// exactly what a run ending in quiescence says.
pub proof fn theorem_flood_reaches(
    cs: Seq<Cluster>,
    v: usize,
    origin: Seq<char>,
    target: Seq<char>,
)
    requires
        run_ok(cs),
        forall|id: Seq<char>|
            #[trigger] cs[0].nodes.contains_key(id) ==> !cs[0].nodes[id].seen.contains(v),
        cs[0].inflight.count(InFlight { dest: origin, value: v }) > 0,
        quiescent(cs.last(), v),
        reachable(cs[0], origin, target),
    ensures
        cs.last().nodes.contains_key(target),
        cs.last().nodes[target].seen.contains(v),
{
    assert(coverage(cs[0], v)) by {
        assert forall|id: Seq<char>, i: int|
            (cs[0].nodes.contains_key(id) && cs[0].nodes[id].seen.contains(v) && 0 <= i
                < cs[0].nodes[id].fanout.len()) implies holds_or_pending(
            cs[0],
            #[trigger] cs[0].nodes[id].fanout[i],
            v,
        ) by {
            assert(!cs[0].nodes[id].seen.contains(v));
        }
    }
    assert(holds_or_pending(cs[0], origin, v));
    lemma_run_preserves(cs, v, origin);
    let last = cs.last();
    assert(last.inflight.count(InFlight { dest: origin, value: v }) == 0);
    assert(last.nodes.contains_key(origin) && last.nodes[origin].seen.contains(v));
    let p = choose|p: Seq<Seq<char>>|
        path_ok(cs[0], p) && p.first() == origin && p.last() == target;
    lemma_run_keeps_paths(cs, p);
    assert(last.nodes.contains_key(target));
    lemma_path_covered(last, v, p);
}

/// One verified broadcast step refines one cluster delivery: under the
/// dissemination view, the node moves exactly as `deliver` says, and when
/// the value is fresh the forwarded copies in `out` target exactly the
/// model's fan-out list, in order, followed by the acknowledgement.
pub proof fn lemma_step_refines_deliver(
    pre: BroadcastNode,
    m: Message<BroadcastPayload>,
    post: BroadcastNode,
    out: Vec<Message<BroadcastPayload>>,
    v: usize,
    c: Cluster,
    f: InFlight,
)
    requires
        m.body.payload == (BroadcastPayload::Broadcast { message: v }),
        step_contract(pre, m, post, Ok(out)),
        can_deliver(c, f),
        f.dest == pre.node_id@,
        f.value == v,
        c.nodes[f.dest] == abstraction_of(pre),
    ensures
        deliver(c, f).nodes =~= c.nodes.insert(f.dest, abstraction_of(post)),
        !pre.seen@.contains(v) ==> deliver(c, f).inflight == c.inflight.remove(f).add(
            flood_batch(abstraction_of(pre).fanout, v),
        ),
        pre.seen@.contains(v) ==> deliver(c, f).inflight == c.inflight.remove(f),
        !pre.seen@.contains(v) ==> {
            let fo = abstraction_of(pre).fanout;
            &&& out@.len() == fo.len() + 1
            &&& forall|i: int|
                0 <= i < fo.len() ==> out@[i].dest@ == fo[i] && out@[i].body.payload == (
                BroadcastPayload::Broadcast { message: v })
        },
{
    let n = abstraction_of(pre);
    if pre.seen@.contains(v) {
        assert(post == pre);
        assert(abstraction_of(post) == c.nodes[f.dest]);
        assert(deliver(c, f).nodes =~= c.nodes.insert(f.dest, abstraction_of(post)));
    } else {
        assert(post.topology == pre.topology && post.node_id == pre.node_id);
        assert(abstraction_of(post).fanout == n.fanout);
        assert(abstraction_of(post).seen == n.seen.push(v));
        let fo_str = fanout_of(pre.topology@, pre.node_id@);
        let flood = flood_msgs(m, v, fo_str);
        assert(out@ == flood.push(crate::reply_to(m, BroadcastPayload::BroadcastOk)));
        assert forall|i: int| 0 <= i < n.fanout.len() implies out@[i].dest@ == n.fanout[i]
            && out@[i].body.payload == (BroadcastPayload::Broadcast { message: v }) by {
            assert(out@[i] == flood[i]);
            assert(flood[i].dest == fo_str[i]);
            assert(n.fanout[i] == fo_str[i]@);
        }
    }
}

} // verus!
