//! The flood/dissemination protocol handler.
//!
//! A broadcast node owns the set of values it has seen and a statically
//! assigned neighbor topology. A new value is forwarded once to every
//! neighbor listed under the node's own identifier and appended to `seen`;
//! a value already seen triggers no forwarding, which terminates the flood
//! in cyclic topologies. `Read` answers with everything seen so far, and
//! `Topology` replaces the stored topology in full.

use crate::{Body, Error, Message, Node, reply_to};
use vstd::prelude::*;

verus! {

/// The payload variants of the broadcast protocol. The three request
/// variants are answered with their `..Ok` counterparts; an inbound `..Ok`
/// is a protocol violation.
#[derive(Debug, Clone)]
pub enum BroadcastPayload {
    Broadcast { message: usize },
    BroadcastOk,
    Read,
    ReadOk { messages: Vec<usize> },
    Topology { topology: Vec<(String, Vec<String>)> },
    TopologyOk,
}

/// The broadcast protocol handler. The topology is kept as the list of
/// `(node, neighbors)` pairs it arrived as; a node's fan-out list is the
/// one under the first pair naming it (a well-formed topology names each
/// node at most once).
#[derive(Debug, Clone)]
pub struct BroadcastNode {
    pub node_id: String,
    pub node_ids: Vec<String>,
    pub topology: Vec<(String, Vec<String>)>,
    pub seen: Vec<usize>,
}

/// The fan-out list stored under `id`: the neighbor list of the first pair
/// whose key is `id`, or empty when no pair names `id` (the flood step is
/// then a no-op).
pub open spec fn fanout_of(t: Seq<(String, Vec<String>)>, id: Seq<char>) -> Seq<String>
    decreases t.len(),
{
    if t.len() == 0 {
        Seq::empty()
    } else if t[0].0@ == id {
        t[0].1@
    } else {
        fanout_of(t.drop_first(), id)
    }
}

/// The forwarded copies of `Broadcast { v }` that answer `m`: one to each
/// neighbor, each framed with the correlation pair of the triggering
/// message itself. Reusing the inbound `msg_id` on the forwarded copies
/// reproduces the protocol's observable wire behaviour exactly.
pub open spec fn flood_msgs(
    m: Message<BroadcastPayload>,
    v: usize,
    neighbors: Seq<String>,
) -> Seq<Message<BroadcastPayload>> {
    neighbors.map_values(
        |k: String|
            Message {
                src: m.dest,
                dest: k,
                body: Body {
                    in_reply_to: m.body.msg_id,
                    msg_id: m.body.msg_id,
                    payload: BroadcastPayload::Broadcast { message: v },
                },
            },
    )
}

/// The payload variants a broadcast node refuses.
pub open spec fn rejects(m: Message<BroadcastPayload>) -> bool {
    ||| m.body.payload is BroadcastOk
    ||| m.body.payload is ReadOk
    ||| m.body.payload is TopologyOk
}

/// The accepted transitions: how one delivered message changes the node
/// and which messages leave, in order.
pub open spec fn step_transition(
    pre: BroadcastNode,
    m: Message<BroadcastPayload>,
    post: BroadcastNode,
    out: Seq<Message<BroadcastPayload>>,
) -> bool {
    match m.body.payload {
        BroadcastPayload::Broadcast { message: v } => if pre.seen@.contains(v) {
            &&& post == pre
            &&& out == seq![reply_to(m, BroadcastPayload::BroadcastOk)]
        } else {
            &&& post.node_id == pre.node_id
            &&& post.node_ids == pre.node_ids
            &&& post.topology == pre.topology
            &&& post.seen@ == pre.seen@.push(v)
            &&& out == flood_msgs(m, v, fanout_of(pre.topology@, pre.node_id@)).push(
                reply_to(m, BroadcastPayload::BroadcastOk),
            )
        },
        BroadcastPayload::Read => {
            &&& post == pre
            &&& out.len() == 1
            &&& out[0].src == m.dest
            &&& out[0].dest == m.src
            &&& out[0].body.in_reply_to == m.body.msg_id
            &&& out[0].body.msg_id == m.body.msg_id
            &&& (out[0].body.payload matches BroadcastPayload::ReadOk { messages }
                && messages@ == pre.seen@)
        },
        BroadcastPayload::Topology { topology } => {
            &&& post.node_id == pre.node_id
            &&& post.node_ids == pre.node_ids
            &&& post.seen == pre.seen
            &&& post.topology == topology
            &&& out == seq![reply_to(m, BroadcastPayload::TopologyOk)]
        },
        _ => false,
    }
}

/// The full contract of one delivery: a request is carried out as
/// `step_transition` says; an inbound reply variant is refused as a
/// protocol violation and changes nothing.
pub open spec fn step_contract(
    pre: BroadcastNode,
    m: Message<BroadcastPayload>,
    post: BroadcastNode,
    r: Result<Vec<Message<BroadcastPayload>>, Error>,
) -> bool {
    match r {
        Ok(out) => step_transition(pre, m, post, out@) && !rejects(m),
        Err(e) => e == Error::ProtocolViolation && rejects(m) && post == pre,
    }
}

/// Whether `x` occurs among the values of `v`.
fn contains_value(v: &Vec<usize>, x: usize) -> (r: bool)
    ensures
        r == v@.contains(x),
{
    let mut i: usize = 0;
    while i < v.len()
        invariant
            i <= v.len(),
            forall|j: int| 0 <= j < i ==> v@[j] != x,
        decreases v.len() - i,
    {
        if v[i] == x {
            assert(v@[i as int] == x);
            return true;
        }
        i += 1;
    }
    false
}

/// Copies a value list, element for element.
fn copy_values(v: &Vec<usize>) -> (r: Vec<usize>)
    ensures
        r@ == v@,
{
    let mut r: Vec<usize> = Vec::new();
    let mut i: usize = 0;
    while i < v.len()
        invariant
            i <= v.len(),
            r@ == v@.take(i as int),
        decreases v.len() - i,
    {
        r.push(v[i]);
        proof {
            assert(r@ =~= v@.take(i + 1 as int));
        }
        i += 1;
    }
    proof {
        assert(v@.take(v@.len() as int) =~= v@);
    }
    r
}

/// The index of the first pair naming `id`, if any; every earlier pair
/// names something else.
fn find_entry(t: &Vec<(String, Vec<String>)>, id: &String) -> (r: Option<usize>)
    ensures
        match r {
            Some(i) => i < t@.len() && t@[i as int].0@ == id@ && (forall|j: int|
                0 <= j < i ==> t@[j].0@ != id@),
            None => forall|j: int| 0 <= j < t@.len() ==> t@[j].0@ != id@,
        },
{
    let mut i: usize = 0;
    while i < t.len()
        invariant
            i <= t.len(),
            forall|j: int| 0 <= j < i ==> t@[j].0@ != id@,
        decreases t.len() - i,
    {
        if t[i].0 == *id {
            return Some(i);
        }
        i += 1;
    }
    None
}

/// A prefix of pairs that all miss `id` does not change the fan-out lookup.
proof fn lemma_fanout_of_skip(t: Seq<(String, Vec<String>)>, id: Seq<char>, i: int)
    requires
        0 <= i <= t.len(),
        forall|j: int| 0 <= j < i ==> t[j].0@ != id,
    ensures
        fanout_of(t, id) == fanout_of(t.skip(i), id),
    decreases i,
{
    if i > 0 {
        lemma_fanout_of_skip(t, id, i - 1);
        assert(t.skip(i - 1).drop_first() =~= t.skip(i));
        assert(t.skip(i - 1)[0] == t[i - 1]);
    } else {
        assert(t.skip(0) =~= t);
    }
}

impl Node<BroadcastPayload> for BroadcastNode {
    open spec fn init_ens(node_id: String, node_ids: Vec<String>, s: Self) -> bool {
        &&& s.node_id == node_id
        &&& s.node_ids == node_ids
        &&& s.seen@ == Seq::<usize>::empty()
        &&& s.topology@ == Seq::<(String, Vec<String>)>::empty()
    }

    open spec fn step_req(pre: Self, message: Message<BroadcastPayload>) -> bool {
        true
    }

    open spec fn step_ens(
        pre: Self,
        message: Message<BroadcastPayload>,
        post: Self,
        r: Result<Vec<Message<BroadcastPayload>>, Error>,
    ) -> bool {
        step_contract(pre, message, post, r)
    }

    fn init(node_id: String, node_ids: Vec<String>) -> (s: Self) {
        BroadcastNode { node_id, node_ids, topology: Vec::new(), seen: Vec::new() }
    }

    fn step(&mut self, message: Message<BroadcastPayload>) -> (r: Result<
        Vec<Message<BroadcastPayload>>,
        Error,
    >) {
        let ghost m = message;
        let ghost pre = *old(self);
        let Message { src, dest, body } = message;
        let Body { in_reply_to: _, msg_id, payload } = body;
        match payload {
            BroadcastPayload::Broadcast { message: v } => {
                let mut out: Vec<Message<BroadcastPayload>> = Vec::new();
                let already = contains_value(&self.seen, v);
                if !already {
                    let ghost fo = fanout_of(pre.topology@, pre.node_id@);
                    match find_entry(&self.topology, &self.node_id) {
                        Some(i) => {
                            proof {
                                lemma_fanout_of_skip(pre.topology@, pre.node_id@, i as int);
                                assert(pre.topology@.skip(i as int)[0] == pre.topology@[i as int]);
                                assert(fo == pre.topology@[i as int].1@);
                            }
                            let ns = &self.topology[i].1;
                            let mut k: usize = 0;
                            while k < ns.len()
                                invariant
                                    k <= ns.len(),
                                    ns@ == fo,
                                    out@ == flood_msgs(m, v, fo).take(k as int),
                                    m.dest == dest,
                                    m.body.msg_id == msg_id,
                                decreases ns.len() - k,
                            {
                                let fm = Message {
                                    src: dest.clone(),
                                    dest: ns[k].clone(),
                                    body: Body {
                                        in_reply_to: msg_id,
                                        msg_id,
                                        payload: BroadcastPayload::Broadcast { message: v },
                                    },
                                };
                                out.push(fm);
                                proof {
                                    assert(out@ =~= flood_msgs(m, v, fo).take(k + 1 as int));
                                }
                                k += 1;
                            }
                            proof {
                                assert(flood_msgs(m, v, fo).take(ns@.len() as int) =~= flood_msgs(
                                    m,
                                    v,
                                    fo,
                                ));
                            }
                        },
                        None => {
                            proof {
                                lemma_fanout_of_skip(
                                    pre.topology@,
                                    pre.node_id@,
                                    pre.topology@.len() as int,
                                );
                                assert(fo =~= Seq::<String>::empty());
                                assert(out@ =~= flood_msgs(m, v, fo));
                            }
                        },
                    }
                    self.seen.push(v);
                    let reply = Message {
                        src: dest,
                        dest: src,
                        body: Body {
                            in_reply_to: msg_id,
                            msg_id,
                            payload: BroadcastPayload::BroadcastOk,
                        },
                    };
                    out.push(reply);
                    Ok(out)
                } else {
                    let reply = Message {
                        src: dest,
                        dest: src,
                        body: Body {
                            in_reply_to: msg_id,
                            msg_id,
                            payload: BroadcastPayload::BroadcastOk,
                        },
                    };
                    out.push(reply);
                    proof {
                        assert(out@ =~= seq![reply_to(m, BroadcastPayload::BroadcastOk)]);
                    }
                    Ok(out)
                }
            },
            BroadcastPayload::Read => {
                let messages = copy_values(&self.seen);
                let reply = Message {
                    src: dest,
                    dest: src,
                    body: Body {
                        in_reply_to: msg_id,
                        msg_id,
                        payload: BroadcastPayload::ReadOk { messages },
                    },
                };
                let mut out: Vec<Message<BroadcastPayload>> = Vec::new();
                out.push(reply);
                Ok(out)
            },
            BroadcastPayload::Topology { topology } => {
                self.topology = topology;
                let reply = Message {
                    src: dest,
                    dest: src,
                    body: Body {
                        in_reply_to: msg_id,
                        msg_id,
                        payload: BroadcastPayload::TopologyOk,
                    },
                };
                let mut out: Vec<Message<BroadcastPayload>> = Vec::new();
                out.push(reply);
                proof {
                    assert(out@ =~= seq![reply_to(m, BroadcastPayload::TopologyOk)]);
                }
                Ok(out)
            },
            _ => Err(Error::ProtocolViolation),
        }
    }
}

/// Idempotent broadcast: delivering `Broadcast { v }` twice to a node that
/// had not seen `v` leaves `seen` holding `v` exactly once, and the second
/// delivery sends nothing but the acknowledgement — no forwarding.
pub proof fn lemma_broadcast_idempotent(
    pre: BroadcastNode,
    m1: Message<BroadcastPayload>,
    mid: BroadcastNode,
    out1: Vec<Message<BroadcastPayload>>,
    m2: Message<BroadcastPayload>,
    post: BroadcastNode,
    out2: Vec<Message<BroadcastPayload>>,
    v: usize,
)
    requires
        !pre.seen@.contains(v),
        m1.body.payload == (BroadcastPayload::Broadcast { message: v }),
        m2.body.payload == (BroadcastPayload::Broadcast { message: v }),
        step_contract(pre, m1, mid, Ok(out1)),
        step_contract(mid, m2, post, Ok(out2)),
    ensures
        mid.seen@.to_multiset().count(v) == 1,
        post == mid,
        out2@ == seq![reply_to(m2, BroadcastPayload::BroadcastOk)],
{
    broadcast use vstd::multiset::group_multiset_axioms;

    pre.seen@.to_multiset_ensures();
    assert(pre.seen@.to_multiset().count(v) == 0);
    assert(mid.seen@ == pre.seen@.push(v));
    assert(mid.seen@.to_multiset() =~= pre.seen@.to_multiset().insert(v));
    assert(mid.seen@.to_multiset().count(v) == 1);
    mid.seen@.to_multiset_ensures();
    assert(mid.seen@.to_multiset().count(v) > 0);
    assert(mid.seen@.contains(v));
}

/// How one delivered broadcast value changes the seen list: appended when
/// new, ignored when already present.
pub open spec fn record_value(seen: Seq<usize>, v: usize) -> Seq<usize> {
    if seen.contains(v) {
        seen
    } else {
        seen.push(v)
    }
}

/// The seen list after a whole sequence of broadcast deliveries, in order.
pub open spec fn record_values(seen: Seq<usize>, vals: Seq<usize>) -> Seq<usize>
    decreases vals.len(),
{
    if vals.len() == 0 {
        seen
    } else {
        record_values(record_value(seen, vals[0]), vals.drop_first())
    }
}

/// A delivered `Broadcast { v }` changes `seen` exactly as `record_value`
/// says, whatever else the step sends.
pub proof fn lemma_step_records(
    pre: BroadcastNode,
    m: Message<BroadcastPayload>,
    post: BroadcastNode,
    out: Vec<Message<BroadcastPayload>>,
    v: usize,
)
    requires
        m.body.payload == (BroadcastPayload::Broadcast { message: v }),
        step_contract(pre, m, post, Ok(out)),
    ensures
        post.seen@ == record_value(pre.seen@, v),
{
}

/// Appending a fresh value keeps a list duplicate-free.
proof fn lemma_push_fresh_no_duplicates(s: Seq<usize>, v: usize)
    requires
        s.no_duplicates(),
        !s.contains(v),
    ensures
        s.push(v).no_duplicates(),
{
    assert forall|i: int, j: int| 0 <= i < j < s.push(v).len() implies s.push(v)[i] != s.push(
        v,
    )[j] by {
        if j == s.len() {
            if s.push(v)[i] == v {
                assert(s[i] == v);
                assert(s.contains(v));
            }
        }
    }
}

/// Every delivery keeps the seen list duplicate-free: values are appended
/// only after the membership check, so the counting law applies along any
/// run of deliveries.
pub proof fn lemma_step_preserves_no_duplicates(
    pre: BroadcastNode,
    m: Message<BroadcastPayload>,
    post: BroadcastNode,
    r: Result<Vec<Message<BroadcastPayload>>, Error>,
)
    requires
        pre.seen@.no_duplicates(),
        step_contract(pre, m, post, r),
    ensures
        post.seen@.no_duplicates(),
{
    if r is Ok {
        match m.body.payload {
            BroadcastPayload::Broadcast { message: v } => {
                if !pre.seen@.contains(v) {
                    lemma_push_fresh_no_duplicates(pre.seen@, v);
                }
            },
            _ => {},
        }
    }
}

/// Membership in a non-empty sequence splits into its head and its tail.
proof fn lemma_contains_split(s: Seq<usize>, x: usize)
    requires
        s.len() > 0,
    ensures
        s.contains(x) <==> (s[0] == x || s.drop_first().contains(x)),
{
    if s.contains(x) {
        let i = choose|i: int| 0 <= i < s.len() && s[i] == x;
        if i > 0 {
            assert(s.drop_first()[i - 1] == x);
        }
    }
    if s.drop_first().contains(x) {
        let j = choose|j: int| 0 <= j < s.drop_first().len() && s.drop_first()[j] == x;
        assert(s[j + 1] == x);
    }
}

/// Read consistency, the counting half: starting from a duplicate-free
/// seen list, any sequence of broadcast deliveries keeps it duplicate-free
/// and leaves it holding exactly the old values and the delivered ones, so
/// its length is the number of distinct values.
pub proof fn lemma_record_values_distinct(seen: Seq<usize>, vals: Seq<usize>)
    requires
        seen.no_duplicates(),
    ensures
        record_values(seen, vals).no_duplicates(),
        record_values(seen, vals).to_set() == seen.to_set().union(vals.to_set()),
        record_values(seen, vals).len() == record_values(seen, vals).to_set().len(),
    decreases vals.len(),
{
    broadcast use vstd::set::group_set_axioms;

    if vals.len() == 0 {
        assert(seen.to_set().union(vals.to_set()) =~= seen.to_set());
        seen.unique_seq_to_set();
    } else {
        let v = vals[0];
        let s1 = record_value(seen, v);
        if !seen.contains(v) {
            lemma_push_fresh_no_duplicates(seen, v);
        }
        assert(s1.to_set() =~= seen.to_set().insert(v)) by {
            assert forall|x: usize| s1.to_set().contains(x) <==> seen.to_set().insert(v).contains(
                x,
            ) by {
                if !seen.contains(v) {
                    assert(s1.contains(x) <==> (seen.contains(x) || x == v)) by {
                        if s1.contains(x) {
                            let i = choose|i: int| 0 <= i < s1.len() && s1[i] == x;
                            if i < seen.len() {
                                assert(seen[i] == x);
                            }
                        }
                        if seen.contains(x) {
                            let i = choose|i: int| 0 <= i < seen.len() && seen[i] == x;
                            assert(s1[i] == x);
                        }
                        if x == v {
                            assert(s1[s1.len() - 1] == x);
                        }
                    }
                }
            }
        }
        lemma_record_values_distinct(s1, vals.drop_first());
        assert(vals.to_set() =~= vals.drop_first().to_set().insert(v)) by {
            assert forall|x: usize|
                vals.to_set().contains(x) <==> vals.drop_first().to_set().insert(v).contains(
                    x,
                ) by {
                lemma_contains_split(vals, x);
            }
        }
        assert(record_values(seen, vals).to_set() =~= seen.to_set().union(vals.to_set()));
    }
}

/// Read consistency for a fresh node: after any sequence of broadcast
/// deliveries, the seen list a read returns has exactly one entry per
/// distinct value delivered.
pub proof fn lemma_read_counts_distinct(vals: Seq<usize>)
    ensures
        record_values(Seq::empty(), vals).no_duplicates(),
        record_values(Seq::empty(), vals).to_set() == vals.to_set(),
        record_values(Seq::empty(), vals).len() == vals.to_set().len(),
{
    broadcast use vstd::set::group_set_axioms;

    lemma_record_values_distinct(Seq::empty(), vals);
    assert(Seq::<usize>::empty().to_set() =~= Set::empty());
    assert(Set::<usize>::empty().union(vals.to_set()) =~= vals.to_set());
}

/// Topology overwrite: a second topology message replaces the first in
/// full; the node's stored topology and fan-out lookup afterwards are
/// those of the second message alone.
pub proof fn lemma_topology_overwrite(
    pre: BroadcastNode,
    m1: Message<BroadcastPayload>,
    mid: BroadcastNode,
    r1: Result<Vec<Message<BroadcastPayload>>, Error>,
    m2: Message<BroadcastPayload>,
    post: BroadcastNode,
    r2: Result<Vec<Message<BroadcastPayload>>, Error>,
    ta: Vec<(String, Vec<String>)>,
    tb: Vec<(String, Vec<String>)>,
)
    requires
        m1.body.payload == (BroadcastPayload::Topology { topology: ta }),
        m2.body.payload == (BroadcastPayload::Topology { topology: tb }),
        step_contract(pre, m1, mid, r1),
        step_contract(mid, m2, post, r2),
    ensures
        post.topology == tb,
        fanout_of(post.topology@, post.node_id@) == fanout_of(tb@, pre.node_id@),
{
}

/// Correlation round-trip: every message a step sends — the reply proper,
/// which comes last and is addressed to the requester, and any forwarded
/// copies — carries the request's `msg_id` as its `in_reply_to`.
pub proof fn lemma_correlation_round_trip(
    pre: BroadcastNode,
    m: Message<BroadcastPayload>,
    post: BroadcastNode,
    out: Vec<Message<BroadcastPayload>>,
    req_id: usize,
)
    requires
        step_contract(pre, m, post, Ok(out)),
        m.body.msg_id == Some(req_id),
    ensures
        out@.len() >= 1,
        out@[out@.len() - 1].body.in_reply_to == Some(req_id),
        out@[out@.len() - 1].dest == m.src,
        forall|i: int| 0 <= i < out@.len() ==> out@[i].body.in_reply_to == Some(req_id),
{
}

} // verus!
