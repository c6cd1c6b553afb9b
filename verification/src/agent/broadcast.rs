//! Flood broadcast over a declared neighbor topology with receiver-side
//! deduplication: the one stateful algorithm of this crate.
//!
//! A re-received `init` is acknowledged again without touching state
//! (idempotent re-acknowledgment). A `broadcast` that arrives before any
//! `topology` is recorded as seen but forwarded nowhere, since no neighbors
//! have been declared. The sender of a broadcast is deliberately not
//! excluded from the fanout: a node may forward a value straight back to
//! the peer it came from.
use vstd::prelude::*;

use crate::codec::{clone_bytes, clone_nums};
use crate::error::ErrorV;
use crate::node::{
    counter_exhausted_err, counter_exhausted_error, not_initialized_err, not_initialized_error,
    reply_envelope, reply_view, unsupported_err, unsupported_error, Node,
};
use crate::protocol::{clone_ids, ids_view, msgs_view, Body, BodyV, Message, MessageId, MessageV, NodeId};

verus! {

/// The gossiping node: identity and roster once initialized, the neighbor
/// list once a topology arrives, a strictly increasing request-id counter,
/// and the dedup memory of broadcast values already seen.
pub struct BroadcastAgent {
    pub node_id: Option<NodeId>,
    pub node_ids: Option<Vec<NodeId>>,
    pub neighbors: Option<Vec<NodeId>>,
    pub msg_id: MessageId,
    pub messages: Vec<u64>,
}

/// Mathematical shape of a [`BroadcastAgent`].
pub struct BroadcastAgentV {
    pub node_id: Option<Seq<u8>>,
    pub node_ids: Option<Seq<Seq<u8>>>,
    pub neighbors: Option<Seq<Seq<u8>>>,
    pub msg_id: u64,
    pub messages: Seq<u64>,
}

impl View for BroadcastAgent {
    type V = BroadcastAgentV;

    open spec fn view(&self) -> BroadcastAgentV {
        BroadcastAgentV {
            node_id: match self.node_id {
                Some(ref id) => Some(id@),
                None => None,
            },
            node_ids: match self.node_ids {
                Some(ref ids) => Some(ids_view(ids@)),
                None => None,
            },
            neighbors: match self.neighbors {
                Some(ref ids) => Some(ids_view(ids@)),
                None => None,
            },
            msg_id: self.msg_id,
            messages: self.messages@,
        }
    }
}

/// The state of a node that has not seen anything yet.
pub open spec fn bc_fresh() -> BroadcastAgentV {
    BroadcastAgentV {
        node_id: None,
        node_ids: None,
        neighbors: None,
        msg_id: 0,
        messages: Seq::empty(),
    }
}

/// Well-formed state: the dedup memory holds each value once.
pub open spec fn bc_wf(s: BroadcastAgentV) -> bool {
    s.messages.no_duplicates()
}

/// How many forwards one newly-seen value triggers: one per declared
/// neighbor, none while no topology entry has arrived.
pub open spec fn bc_fanout(s: BroadcastAgentV) -> nat {
    match s.neighbors {
        Some(ns) => ns.len(),
        None => 0,
    }
}

/// First topology entry for `key`, if any.
pub open spec fn topo_lookup(t: Seq<(Seq<u8>, Seq<Seq<u8>>)>, key: Seq<u8>) -> Option<
    Seq<Seq<u8>>,
>
    decreases t.len(),
{
    if t.len() == 0 {
        None
    } else if t[0].0 == key {
        Some(t[0].1)
    } else {
        topo_lookup(t.drop_first(), key)
    }
}

/// The forwards a newly-seen `value` triggers: one fresh `broadcast` per
/// neighbor, in neighbor order, each with the next counter value.
pub open spec fn bc_forwards(s: BroadcastAgentV, value: u64) -> Seq<MessageV> {
    match (s.node_id, s.neighbors) {
        (Some(me), Some(ns)) => Seq::new(
            ns.len(),
            |k: int| MessageV {
                src: me,
                dest: ns[k],
                body: BodyV::Broadcast { msg_id: (s.msg_id + k) as u64, message: value },
            },
        ),
        _ => Seq::empty(),
    }
}

/// State transition of the broadcast agent for one inbound message.
pub open spec fn bc_next(s: BroadcastAgentV, m: MessageV) -> BroadcastAgentV {
    match m.body {
        BodyV::Init { node_id, node_ids, .. } => {
            if s.node_id is Some {
                s
            } else {
                BroadcastAgentV { node_id: Some(node_id), node_ids: Some(node_ids), ..s }
            }
        },
        _ => {
            match s.node_id {
                None => s,
                Some(me) => match m.body {
                    BodyV::Topology { topology, .. } => match topo_lookup(topology, me) {
                        Some(ns) => BroadcastAgentV { neighbors: Some(ns), ..s },
                        None => s,
                    },
                    BodyV::Broadcast { message, .. } => {
                        if s.messages.contains(message) {
                            s
                        } else if s.msg_id + bc_fanout(s) > u64::MAX {
                            s
                        } else {
                            BroadcastAgentV {
                                msg_id: (s.msg_id + bc_fanout(s)) as u64,
                                messages: s.messages.push(message),
                                ..s
                            }
                        }
                    },
                    _ => s,
                },
            }
        },
    }
}

/// Output of the broadcast agent for one inbound message.
pub open spec fn bc_out(s: BroadcastAgentV, m: MessageV) -> Result<Seq<MessageV>, ErrorV> {
    match m.body {
        BodyV::Init { msg_id, .. } => Ok(
            seq![reply_view(m, BodyV::InitOk { in_reply_to: msg_id })],
        ),
        _ => {
            match s.node_id {
                None => Err(not_initialized_err(m)),
                Some(me) => match m.body {
                    BodyV::Topology { msg_id, .. } => Ok(
                        seq![reply_view(m, BodyV::TopologyOk { in_reply_to: msg_id })],
                    ),
                    BodyV::Broadcast { msg_id, message } => {
                        if s.messages.contains(message) {
                            Ok(seq![reply_view(m, BodyV::BroadcastOk { in_reply_to: msg_id })])
                        } else if s.msg_id + bc_fanout(s) > u64::MAX {
                            Err(counter_exhausted_err())
                        } else {
                            Ok(
                                seq![
                                    reply_view(m, BodyV::BroadcastOk { in_reply_to: msg_id }),
                                ] + bc_forwards(s, message),
                            )
                        }
                    },
                    BodyV::BroadcastOk { .. } => Ok(Seq::empty()),
                    BodyV::Read { msg_id } => Ok(
                        seq![
                            reply_view(
                                m,
                                BodyV::ReadOk { in_reply_to: msg_id, messages: s.messages },
                            ),
                        ],
                    ),
                    _ => Err(unsupported_err(m)),
                },
            }
        },
    }
}

proof fn lemma_push_to_set(s: Seq<u64>, v: u64)
    ensures
        s.push(v).to_set() =~= s.to_set().insert(v),
{
    assert forall|x: u64| s.push(v).to_set().contains(x) implies s.to_set().insert(v).contains(
        x,
    ) by {
        let i = choose|i: int| 0 <= i < s.push(v).len() && s.push(v)[i] == x;
        if i < s.len() {
            assert(s[i] == x);
        } else {
            assert(x == v);
        }
    }
    assert forall|x: u64| s.to_set().insert(v).contains(x) implies s.push(v).to_set().contains(
        x,
    ) by {
        if x == v {
            assert(s.push(v)[s.len() as int] == x);
        } else {
            let i = choose|i: int| 0 <= i < s.len() && s[i] == x;
            assert(s.push(v)[i] == x);
        }
    }
}

proof fn lemma_push_no_dup(s: Seq<u64>, v: u64)
    requires
        s.no_duplicates(),
        !s.contains(v),
    ensures
        s.push(v).no_duplicates(),
{
    assert forall|i: int, j: int|
        0 <= i < s.push(v).len() && 0 <= j < s.push(v).len() && i != j implies s.push(v)[i]
        != s.push(v)[j] by {
        if i < s.len() && j < s.len() {
        } else if i == s.len() {
            if s.push(v)[j] == v {
                assert(s[j] == v);
            }
        } else {
            if s.push(v)[i] == v {
                assert(s[i] == v);
            }
        }
    }
}

/// Initialization gating: a fresh node answers every non-`Init` message
/// with the canonical not-initialized error and changes no state.
pub proof fn lemma_initialization_gating(s: BroadcastAgentV, m: MessageV)
    requires
        s.node_id is None,
        !(m.body is Init),
    ensures
        bc_next(s, m) == s,
        bc_out(s, m) == Err::<Seq<MessageV>, ErrorV>(not_initialized_err(m)),
{
}

/// Dedup idempotence: after a value has been delivered once, delivering it
/// again is acknowledged with a lone `broadcast_ok` and changes nothing —
/// at most one round of forwarding ever happens per value.
pub proof fn lemma_dedup_idempotence(
    s: BroadcastAgentV,
    m1: MessageV,
    m2: MessageV,
    id1: u64,
    id2: u64,
    v: u64,
)
    requires
        s.node_id is Some,
        m1.body == (BodyV::Broadcast { msg_id: id1, message: v }),
        m2.body == (BodyV::Broadcast { msg_id: id2, message: v }),
        s.msg_id + bc_fanout(s) <= u64::MAX,
    ensures
        bc_out(s, m1) is Ok,
        bc_out(s, m1)->Ok_0[0] == reply_view(m1, BodyV::BroadcastOk { in_reply_to: id1 }),
        bc_out(bc_next(s, m1), m2) == Ok::<Seq<MessageV>, ErrorV>(
            seq![reply_view(m2, BodyV::BroadcastOk { in_reply_to: id2 })],
        ),
        bc_next(bc_next(s, m1), m2) == bc_next(s, m1),
{
    let s1 = bc_next(s, m1);
    if !s.messages.contains(v) {
        assert(s1.messages == s.messages.push(v));
        assert(s1.messages[s.messages.len() as int] == v);
        assert(s1.messages.contains(v));
    }
}

/// Fanout count: a newly-seen value at a node with declared neighbors
/// produces exactly one `broadcast_ok` plus one forward per neighbor, the
/// forwards carrying distinct, strictly increasing fresh request ids.
pub proof fn lemma_fanout_count(s: BroadcastAgentV, m: MessageV, id: u64, v: u64)
    requires
        s.node_id is Some,
        s.neighbors is Some,
        m.body == (BodyV::Broadcast { msg_id: id, message: v }),
        !s.messages.contains(v),
        s.msg_id + bc_fanout(s) <= u64::MAX,
    ensures
        bc_out(s, m) == Ok::<Seq<MessageV>, ErrorV>(
            seq![reply_view(m, BodyV::BroadcastOk { in_reply_to: id })] + bc_forwards(s, v),
        ),
        bc_forwards(s, v).len() == bc_fanout(s),
        forall|k: int|
            0 <= k < bc_fanout(s) ==> bc_forwards(s, v)[k] == (MessageV {
                src: s.node_id->0,
                dest: s.neighbors->0[k],
                body: BodyV::Broadcast { msg_id: (s.msg_id + k) as u64, message: v },
            }),
        forall|a: int, b: int|
            0 <= a < b < bc_fanout(s) ==> bc_forwards(s, v)[a].body->Broadcast_msg_id
                < bc_forwards(s, v)[b].body->Broadcast_msg_id,
{
}

/// One broadcast delivery, seen only through the value it carries: the
/// state transition ignores the envelope.
pub open spec fn apply_broadcast(s: BroadcastAgentV, v: u64) -> BroadcastAgentV {
    if s.messages.contains(v) {
        s
    } else if s.msg_id + bc_fanout(s) > u64::MAX {
        s
    } else {
        BroadcastAgentV {
            msg_id: (s.msg_id + bc_fanout(s)) as u64,
            messages: s.messages.push(v),
            ..s
        }
    }
}

/// For an initialized node, dispatching any `broadcast` message moves the
/// state exactly as [`apply_broadcast`] of its value does.
pub proof fn lemma_next_broadcast(s: BroadcastAgentV, m: MessageV, id: u64, v: u64)
    requires
        s.node_id is Some,
        m.body == (BodyV::Broadcast { msg_id: id, message: v }),
    ensures
        bc_next(s, m) == apply_broadcast(s, v),
{
}

/// The state after a whole sequence of broadcast deliveries.
pub open spec fn deliver_all(s: BroadcastAgentV, vals: Seq<u64>) -> BroadcastAgentV
    decreases vals.len(),
{
    if vals.len() == 0 {
        s
    } else {
        apply_broadcast(deliver_all(s, vals.drop_last()), vals.last())
    }
}

/// No delivery along the way runs the request-id counter out.
pub open spec fn deliver_ok(s: BroadcastAgentV, vals: Seq<u64>) -> bool
    decreases vals.len(),
{
    if vals.len() == 0 {
        true
    } else {
        deliver_ok(s, vals.drop_last()) && (deliver_all(s, vals.drop_last()).messages.contains(
            vals.last(),
        ) || deliver_all(s, vals.drop_last()).msg_id + bc_fanout(deliver_all(s, vals.drop_last()))
            <= u64::MAX)
    }
}

proof fn lemma_deliver_all_seen(s: BroadcastAgentV, vals: Seq<u64>)
    requires
        deliver_ok(s, vals),
    ensures
        deliver_all(s, vals).messages.to_set() == s.messages.to_set() + vals.to_set(),
        deliver_all(s, vals).node_id == s.node_id,
        deliver_all(s, vals).neighbors == s.neighbors,
        s.messages.no_duplicates() ==> deliver_all(s, vals).messages.no_duplicates(),
    decreases vals.len(),
{
    if vals.len() == 0 {
        assert(vals.to_set() =~= Set::<u64>::empty());
        assert(s.messages.to_set() + vals.to_set() =~= s.messages.to_set());
    } else {
        let prefix = vals.drop_last();
        let v = vals.last();
        lemma_deliver_all_seen(s, prefix);
        let t = deliver_all(s, prefix);
        assert(prefix.push(v) =~= vals);
        lemma_push_to_set(prefix, v);
        assert(vals.to_set() == prefix.to_set().insert(v));
        if t.messages.contains(v) {
            assert(t.messages.to_set().contains(v));
            assert(t.messages.to_set() =~= s.messages.to_set() + prefix.to_set().insert(v));
        } else {
            lemma_push_to_set(t.messages, v);
            assert(t.messages.to_set().insert(v) =~= s.messages.to_set()
                + prefix.to_set().insert(v));
            if s.messages.no_duplicates() {
                lemma_push_no_dup(t.messages, v);
            }
        }
    }
}

/// Read completeness and idempotence: after any sequence of broadcast
/// deliveries, in any order and with any duplication, `read` answers with
/// exactly the set of distinct values delivered (joined with whatever was
/// seen before), and the dedup memory still holds each value once.
pub proof fn lemma_read_completeness(s: BroadcastAgentV, vals: Seq<u64>, m: MessageV, id: u64)
    requires
        s.node_id is Some,
        deliver_ok(s, vals),
        m.body == (BodyV::Read { msg_id: id }),
    ensures
        ({
            let t = deliver_all(s, vals);
            bc_out(t, m) == Ok::<Seq<MessageV>, ErrorV>(
                seq![reply_view(m, BodyV::ReadOk { in_reply_to: id, messages: t.messages })],
            ) && t.messages.to_set() == s.messages.to_set() + vals.to_set() && (bc_wf(s)
                ==> bc_wf(t))
        }),
{
    lemma_deliver_all_seen(s, vals);
}

/// The lifecycle invariants: the request-id counter never decreases, the
/// dedup memory only grows, and well-formedness is preserved.
pub proof fn lemma_state_monotone(s: BroadcastAgentV, m: MessageV)
    ensures
        bc_next(s, m).msg_id >= s.msg_id,
        forall|x: u64|
            s.messages.to_set().contains(x) ==> bc_next(s, m).messages.to_set().contains(x),
        bc_wf(s) ==> bc_wf(bc_next(s, m)),
{
    let t = bc_next(s, m);
    if t.messages != s.messages {
        match m.body {
            BodyV::Broadcast { message, .. } => {
                assert(t.messages == s.messages.push(message));
                assert forall|x: u64| s.messages.to_set().contains(x) implies t
                    .messages.to_set().contains(x) by {
                    let i = choose|i: int| 0 <= i < s.messages.len() && s.messages[i] == x;
                    assert(t.messages[i] == x);
                }
                if bc_wf(s) {
                    lemma_push_no_dup(s.messages, message);
                }
            },
            _ => {},
        }
    }
}

/// Whether the dedup memory already holds `x`.
fn contains_val(v: &Vec<u64>, x: u64) -> (r: bool)
    ensures
        r == v@.contains(x),
{
    let mut k: usize = 0;
    while k < v.len()
        invariant
            k <= v@.len(),
            forall|i: int| 0 <= i < k ==> v@[i] != x,
        decreases v@.len() - k,
    {
        if v[k] == x {
            proof {
                assert(v@[k as int] == x);
            }
            return true;
        }
        k += 1;
    }
    proof {
        assert(forall|i: int| 0 <= i < v@.len() ==> v@[i] != x);
    }
    false
}

/// First topology entry for `key`, as a fresh list.
fn lookup_topo(t: &Vec<(NodeId, Vec<NodeId>)>, key: &Vec<u8>) -> (r: Option<Vec<NodeId>>)
    ensures
        match r {
            Some(ns) => topo_lookup(crate::protocol::topo_view(t@), key@) == Some(ids_view(ns@)),
            None => topo_lookup(crate::protocol::topo_view(t@), key@) is None,
        },
{
    let ghost tv = crate::protocol::topo_view(t@);
    proof {
        assert(tv.skip(0) =~= tv);
    }
    let mut k: usize = 0;
    while k < t.len()
        invariant
            k <= t@.len(),
            tv == crate::protocol::topo_view(t@),
            tv.len() == t@.len(),
            forall|i: int| 0 <= i < t@.len() ==> tv[i] == (t@[i].0@, ids_view(t@[i].1@)),
            forall|i: int| 0 <= i < k ==> tv[i].0 != key@,
            topo_lookup(tv, key@) == topo_lookup(tv.skip(k as int), key@),
        decreases t@.len() - k,
    {
        if crate::codec::bytes_eq(&t[k].0, key) {
            let ns = clone_ids(&t[k].1);
            proof {
                let rest = tv.skip(k as int);
                assert(rest[0] == tv[k as int]);
                assert(topo_lookup(rest, key@) == Some(tv[k as int].1));
            }
            return Some(ns);
        }
        proof {
            let rest = tv.skip(k as int);
            assert(rest[0] == tv[k as int]);
            assert(rest.drop_first() =~= tv.skip(k as int + 1));
        }
        k += 1;
    }
    proof {
        assert(tv.skip(k as int) =~= Seq::<(Seq<u8>, Seq<Seq<u8>>)>::empty());
    }
    None
}

impl BroadcastAgent {
    /// A node that has not seen anything yet.
    pub fn new() -> (s: Self)
        ensures
            s@ == bc_fresh(),
            bc_wf(s@),
    {
        let s = BroadcastAgent {
            node_id: None,
            node_ids: None,
            neighbors: None,
            msg_id: 0,
            messages: Vec::new(),
        };
        proof {
            assert(s@.messages =~= bc_fresh().messages);
        }
        s
    }

    /// Hands out the next request id and advances the counter.
    pub fn generate_msg_id(&mut self) -> (out: MessageId)
        requires
            old(self).msg_id < u64::MAX,
        ensures
            out == old(self)@.msg_id,
            final(self)@ == (BroadcastAgentV { msg_id: (old(self)@.msg_id + 1) as u64, ..old(self)@ }),
    {
        let out = self.msg_id;
        self.msg_id = out + 1;
        out
    }
}

impl Node for BroadcastAgent {
    open spec fn next_state(pre: BroadcastAgentV, m: MessageV) -> BroadcastAgentV {
        bc_next(pre, m)
    }

    open spec fn next_output(pre: BroadcastAgentV, m: MessageV) -> Result<Seq<MessageV>, ErrorV> {
        bc_out(pre, m)
    }

    fn handler(&mut self, msg: &Message) -> (r: Result<Vec<Message>, crate::error::Error>) {
        match &msg.body {
            Body::Init { msg_id, node_id, node_ids } => {
                if self.node_id.is_none() {
                    self.node_id = Some(clone_bytes(node_id));
                    self.node_ids = Some(clone_ids(node_ids));
                }
                let reply = reply_envelope(msg, Body::InitOk { in_reply_to: *msg_id });
                let mut out: Vec<Message> = Vec::new();
                out.push(reply);
                proof {
                    assert(msgs_view(out@) =~= bc_out(old(self)@, msg@)->Ok_0);
                }
                Ok(out)
            },
            Body::Topology { msg_id, topology } => {
                match &self.node_id {
                    None => Err(not_initialized_error(msg)),
                    Some(me) => {
                        let hit = lookup_topo(topology, me);
                        if let Some(ns) = hit {
                            self.neighbors = Some(ns);
                        }
                        let reply = reply_envelope(
                            msg,
                            Body::TopologyOk { in_reply_to: *msg_id },
                        );
                        let mut out: Vec<Message> = Vec::new();
                        out.push(reply);
                        proof {
                            assert(msgs_view(out@) =~= bc_out(old(self)@, msg@)->Ok_0);
                        }
                        Ok(out)
                    },
                }
            },
            Body::Broadcast { msg_id, message } => {
                if self.node_id.is_none() {
                    return Err(not_initialized_error(msg));
                }
                let mut out: Vec<Message> = Vec::new();
                out.push(reply_envelope(msg, Body::BroadcastOk { in_reply_to: *msg_id }));
                if !contains_val(&self.messages, *message) {
                    let count: usize = match &self.neighbors {
                        Some(ns) => ns.len(),
                        None => 0,
                    };
                    if self.msg_id > u64::MAX - (count as u64) {
                        return Err(counter_exhausted_error());
                    }
                    self.messages.push(*message);
                    let me = match &self.node_id {
                        Some(id) => clone_bytes(id),
                        None => Vec::new(),
                    };
                    let ghost pre = old(self)@;
                    let ghost fwd = bc_forwards(pre, *message);
                    let mut k: usize = 0;
                    while k < count
                        invariant
                            pre == old(self)@,
                            k <= count,
                            count == bc_fanout(pre),
                            pre.msg_id + count <= u64::MAX,
                            (pre.node_id is Some),
                            me@ == pre.node_id->0,
                            self.node_id == old(self).node_id,
                            self.node_ids == old(self).node_ids,
                            self.neighbors == old(self).neighbors,
                            self.messages@ == pre.messages.push(*message),
                            self.msg_id == pre.msg_id + k,
                            fwd == bc_forwards(pre, *message),
                            fwd.len() == count,
                            out@.len() == 1 + k,
                            msgs_view(out@) =~= seq![
                                reply_view(
                                    msg@,
                                    BodyV::BroadcastOk { in_reply_to: msg@.body->Broadcast_msg_id },
                                ),
                            ] + fwd.take(k as int),
                        decreases count - k,
                    {
                        proof {
                            assert(self@.neighbors == pre.neighbors);
                            assert(self.neighbors is Some);
                        }
                        let ns = self.neighbors.as_ref().unwrap();
                        proof {
                            assert(self@.neighbors == Some(ids_view(ns@)));
                            assert(ids_view(ns@).len() == ns@.len());
                            assert(ns@.len() == count);
                        }
                        let dest_k: Vec<u8> = clone_bytes(&ns[k]);
                        proof {
                            assert(dest_k@ == ids_view(ns@)[k as int]);
                            assert(dest_k@ == (match pre.neighbors {
                                Some(x) => x[k as int],
                                None => Seq::empty(),
                            }));
                        }
                        let id = self.msg_id;
                        self.msg_id = id + 1;
                        out.push(
                            Message {
                                src: clone_bytes(&me),
                                dest: dest_k,
                                body: Body::Broadcast { msg_id: id, message: *message },
                            },
                        );
                        proof {
                            assert(fwd[k as int] == MessageV {
                                src: pre.node_id->0,
                                dest: match pre.neighbors {
                                    Some(ns) => ns[k as int],
                                    None => Seq::empty(),
                                },
                                body: BodyV::Broadcast {
                                    msg_id: (pre.msg_id + k) as u64,
                                    message: *message,
                                },
                            });
                            let ghost head = seq![
                                reply_view(
                                    msg@,
                                    BodyV::BroadcastOk { in_reply_to: msg@.body->Broadcast_msg_id },
                                ),
                            ];
                            let ghost prev = out@.drop_last();
                            assert(out@ =~= prev.push(out@.last()));
                            crate::protocol::lemma_msgs_view_push(prev, out@.last());
                            assert(msgs_view(prev) =~= head + fwd.take(k as int));
                            assert(out@.last()@ == fwd[k as int]);
                            assert(fwd.take(k as int + 1) =~= fwd.take(k as int).push(
                                fwd[k as int],
                            ));
                            assert((head + fwd.take(k as int)).push(fwd[k as int]) =~= head
                                + fwd.take(k as int + 1));
                            assert(msgs_view(out@) =~= head + fwd.take(k as int + 1));
                        }
                        k += 1;
                    }
                    proof {
                        assert(fwd.take(count as int) =~= fwd);
                    }
                }
                proof {
                    assert(msgs_view(out@) =~= bc_out(old(self)@, msg@)->Ok_0);
                }
                Ok(out)
            },
            Body::BroadcastOk { .. } => {
                if self.node_id.is_none() {
                    return Err(not_initialized_error(msg));
                }
                let out: Vec<Message> = Vec::new();
                proof {
                    assert(msgs_view(out@) =~= Seq::<MessageV>::empty());
                }
                Ok(out)
            },
            Body::Read { msg_id } => {
                match &self.node_id {
                    None => Err(not_initialized_error(msg)),
                    Some(_) => {
                        let reply = reply_envelope(
                            msg,
                            Body::ReadOk {
                                in_reply_to: *msg_id,
                                messages: clone_nums(&self.messages),
                            },
                        );
                        let mut out: Vec<Message> = Vec::new();
                        out.push(reply);
                        proof {
                            assert(msgs_view(out@) =~= bc_out(old(self)@, msg@)->Ok_0);
                        }
                        Ok(out)
                    },
                }
            },
            _ => {
                if self.node_id.is_none() {
                    Err(not_initialized_error(msg))
                } else {
                    Err(unsupported_error(msg))
                }
            },
        }
    }
}

} // verus!
