//! The message envelope and the closed set of payload variants that travel
//! on the wire, together with their mathematical views and the request/reply
//! correlation accessors.
use vstd::prelude::*;

verus! {

/// Correlation identifier: unique per originating node, strictly increasing.
pub type MessageId = u64;

/// Opaque node identifier, carried as the raw bytes of its wire spelling.
pub type NodeId = Vec<u8>;

/// One envelope: who sent it, whom it is for, and the payload.
#[derive(Debug, PartialEq)]
pub struct Message {
    pub src: NodeId,
    pub dest: NodeId,
    pub body: Body,
}

/// The closed tagged union of payloads. Request-shaped variants carry a
/// `msg_id`; reply-shaped variants carry `in_reply_to` instead (`EchoOk`
/// carries both, answering with a fresh request id of its own).
#[derive(Debug, PartialEq)]
pub enum Body {
    Broadcast { msg_id: MessageId, message: u64 },
    BroadcastOk { in_reply_to: MessageId },
    Echo { msg_id: MessageId, echo: Vec<u8> },
    EchoOk { msg_id: MessageId, in_reply_to: MessageId, echo: Vec<u8> },
    Error { in_reply_to: MessageId, code: u64, text: Vec<u8> },
    Generate { msg_id: MessageId },
    GenerateOk { in_reply_to: MessageId, id: Vec<u8> },
    Init { msg_id: MessageId, node_id: NodeId, node_ids: Vec<NodeId> },
    InitOk { in_reply_to: MessageId },
    Read { msg_id: MessageId },
    ReadOk { in_reply_to: MessageId, messages: Vec<u64> },
    Topology { msg_id: MessageId, topology: Vec<(NodeId, Vec<NodeId>)> },
    TopologyOk { in_reply_to: MessageId },
}

/// Mathematical shape of a [`Message`].
pub struct MessageV {
    pub src: Seq<u8>,
    pub dest: Seq<u8>,
    pub body: BodyV,
}

/// Mathematical shape of a [`Body`].
pub enum BodyV {
    Broadcast { msg_id: MessageId, message: u64 },
    BroadcastOk { in_reply_to: MessageId },
    Echo { msg_id: MessageId, echo: Seq<u8> },
    EchoOk { msg_id: MessageId, in_reply_to: MessageId, echo: Seq<u8> },
    Error { in_reply_to: MessageId, code: u64, text: Seq<u8> },
    Generate { msg_id: MessageId },
    GenerateOk { in_reply_to: MessageId, id: Seq<u8> },
    Init { msg_id: MessageId, node_id: Seq<u8>, node_ids: Seq<Seq<u8>> },
    InitOk { in_reply_to: MessageId },
    Read { msg_id: MessageId },
    ReadOk { in_reply_to: MessageId, messages: Seq<u64> },
    Topology { msg_id: MessageId, topology: Seq<(Seq<u8>, Seq<Seq<u8>>)> },
    TopologyOk { in_reply_to: MessageId },
}

/// View of a roster or neighbor list.
pub open spec fn ids_view(v: Seq<NodeId>) -> Seq<Seq<u8>> {
    v.map_values(|id: NodeId| id@)
}

/// View of a topology adjacency list.
pub open spec fn topo_view(v: Seq<(NodeId, Vec<NodeId>)>) -> Seq<(Seq<u8>, Seq<Seq<u8>>)> {
    v.map_values(|e: (NodeId, Vec<NodeId>)| (e.0@, ids_view(e.1@)))
}

impl View for Body {
    type V = BodyV;

    open spec fn view(&self) -> BodyV {
        match *self {
            Body::Broadcast { msg_id, message } => BodyV::Broadcast { msg_id, message },
            Body::BroadcastOk { in_reply_to } => BodyV::BroadcastOk { in_reply_to },
            Body::Echo { msg_id, ref echo } => BodyV::Echo { msg_id, echo: echo@ },
            Body::EchoOk { msg_id, in_reply_to, ref echo } => BodyV::EchoOk {
                msg_id,
                in_reply_to,
                echo: echo@,
            },
            Body::Error { in_reply_to, code, ref text } => BodyV::Error {
                in_reply_to,
                code,
                text: text@,
            },
            Body::Generate { msg_id } => BodyV::Generate { msg_id },
            Body::GenerateOk { in_reply_to, ref id } => BodyV::GenerateOk {
                in_reply_to,
                id: id@,
            },
            Body::Init { msg_id, ref node_id, ref node_ids } => BodyV::Init {
                msg_id,
                node_id: node_id@,
                node_ids: ids_view(node_ids@),
            },
            Body::InitOk { in_reply_to } => BodyV::InitOk { in_reply_to },
            Body::Read { msg_id } => BodyV::Read { msg_id },
            Body::ReadOk { in_reply_to, ref messages } => BodyV::ReadOk {
                in_reply_to,
                messages: messages@,
            },
            Body::Topology { msg_id, ref topology } => BodyV::Topology {
                msg_id,
                topology: topo_view(topology@),
            },
            Body::TopologyOk { in_reply_to } => BodyV::TopologyOk { in_reply_to },
        }
    }
}

impl View for Message {
    type V = MessageV;

    open spec fn view(&self) -> MessageV {
        MessageV { src: self.src@, dest: self.dest@, body: self.body@ }
    }
}

/// View of a batch of outbound messages.
pub open spec fn msgs_view(v: Seq<Message>) -> Seq<MessageV> {
    v.map_values(|m: Message| m@)
}

impl BodyV {
    /// The request id a request-shaped payload carries, if any.
    pub open spec fn req_id(self) -> Option<MessageId> {
        match self {
            BodyV::Broadcast { msg_id, .. } => Some(msg_id),
            BodyV::Echo { msg_id, .. } => Some(msg_id),
            BodyV::Generate { msg_id } => Some(msg_id),
            BodyV::Init { msg_id, .. } => Some(msg_id),
            BodyV::Read { msg_id } => Some(msg_id),
            BodyV::Topology { msg_id, .. } => Some(msg_id),
            _ => None,
        }
    }

    /// The correlation id a reply-shaped payload carries, if any.
    pub open spec fn reply_to(self) -> Option<MessageId> {
        match self {
            BodyV::BroadcastOk { in_reply_to } => Some(in_reply_to),
            BodyV::EchoOk { in_reply_to, .. } => Some(in_reply_to),
            BodyV::GenerateOk { in_reply_to, .. } => Some(in_reply_to),
            BodyV::InitOk { in_reply_to } => Some(in_reply_to),
            BodyV::ReadOk { in_reply_to, .. } => Some(in_reply_to),
            BodyV::TopologyOk { in_reply_to } => Some(in_reply_to),
            BodyV::Error { in_reply_to, .. } => Some(in_reply_to),
            _ => None,
        }
    }
}

/// Appending one message appends its view.
pub proof fn lemma_msgs_view_push(s: Seq<Message>, m: Message)
    ensures
        msgs_view(s.push(m)) =~= msgs_view(s).push(m@),
{
}

/// A fresh copy of a roster or neighbor list.
pub fn clone_ids(v: &Vec<NodeId>) -> (r: Vec<NodeId>)
    ensures
        ids_view(r@) == ids_view(v@),
        r@.len() == v@.len(),
{
    let mut out: Vec<NodeId> = Vec::new();
    let mut k: usize = 0;
    while k < v.len()
        invariant
            k <= v@.len(),
            out@.len() == k,
            forall|i: int| 0 <= i < k ==> out@[i]@ == v@[i]@,
        decreases v@.len() - k,
    {
        out.push(crate::codec::clone_bytes(&v[k]));
        k += 1;
    }
    proof {
        assert(ids_view(out@) =~= ids_view(v@));
    }
    out
}

/// The wire spelling of a payload's `type` tag.
pub open spec fn tag_lit(b: BodyV) -> Seq<char> {
    match b {
        BodyV::Broadcast { .. } => "broadcast"@,
        BodyV::BroadcastOk { .. } => "broadcast_ok"@,
        BodyV::Echo { .. } => "echo"@,
        BodyV::EchoOk { .. } => "echo_ok"@,
        BodyV::Error { .. } => "error"@,
        BodyV::Generate { .. } => "generate"@,
        BodyV::GenerateOk { .. } => "generate_ok"@,
        BodyV::Init { .. } => "init"@,
        BodyV::InitOk { .. } => "init_ok"@,
        BodyV::Read { .. } => "read"@,
        BodyV::ReadOk { .. } => "read_ok"@,
        BodyV::Topology { .. } => "topology"@,
        BodyV::TopologyOk { .. } => "topology_ok"@,
    }
}

impl Body {
    /// The `type` tag this payload is written with on the wire.
    pub fn tag(&self) -> (r: &'static str)
        ensures
            r@ == tag_lit(self@),
            vstd::string::is_ascii(r),
    {
        match *self {
            Body::Broadcast { .. } => {
                proof {
                    reveal_strlit("broadcast");
                }
                "broadcast"
            },
            Body::BroadcastOk { .. } => {
                proof {
                    reveal_strlit("broadcast_ok");
                }
                "broadcast_ok"
            },
            Body::Echo { .. } => {
                proof {
                    reveal_strlit("echo");
                }
                "echo"
            },
            Body::EchoOk { .. } => {
                proof {
                    reveal_strlit("echo_ok");
                }
                "echo_ok"
            },
            Body::Error { .. } => {
                proof {
                    reveal_strlit("error");
                }
                "error"
            },
            Body::Generate { .. } => {
                proof {
                    reveal_strlit("generate");
                }
                "generate"
            },
            Body::GenerateOk { .. } => {
                proof {
                    reveal_strlit("generate_ok");
                }
                "generate_ok"
            },
            Body::Init { .. } => {
                proof {
                    reveal_strlit("init");
                }
                "init"
            },
            Body::InitOk { .. } => {
                proof {
                    reveal_strlit("init_ok");
                }
                "init_ok"
            },
            Body::Read { .. } => {
                proof {
                    reveal_strlit("read");
                }
                "read"
            },
            Body::ReadOk { .. } => {
                proof {
                    reveal_strlit("read_ok");
                }
                "read_ok"
            },
            Body::Topology { .. } => {
                proof {
                    reveal_strlit("topology");
                }
                "topology"
            },
            Body::TopologyOk { .. } => {
                proof {
                    reveal_strlit("topology_ok");
                }
                "topology_ok"
            },
        }
    }
}

impl Message {
    /// Returns the `msg_id` for request-shaped payloads, `None` for
    /// reply-shaped ones.
    pub fn msg_id(&self) -> (r: Option<MessageId>)
        ensures
            r == self@.body.req_id(),
    {
        match self.body {
            Body::Broadcast { msg_id, .. } => Some(msg_id),
            Body::Echo { msg_id, .. } => Some(msg_id),
            Body::Generate { msg_id } => Some(msg_id),
            Body::Init { msg_id, .. } => Some(msg_id),
            Body::Read { msg_id } => Some(msg_id),
            Body::Topology { msg_id, .. } => Some(msg_id),
            Body::Error { .. } => None,
            Body::BroadcastOk { .. } => None,
            Body::EchoOk { .. } => None,
            Body::GenerateOk { .. } => None,
            Body::InitOk { .. } => None,
            Body::ReadOk { .. } => None,
            Body::TopologyOk { .. } => None,
        }
    }

    /// Returns `in_reply_to` for reply-shaped payloads, `None` otherwise.
    pub fn in_reply_to(&self) -> (r: Option<MessageId>)
        ensures
            r == self@.body.reply_to(),
    {
        match self.body {
            Body::BroadcastOk { in_reply_to } => Some(in_reply_to),
            Body::EchoOk { in_reply_to, .. } => Some(in_reply_to),
            Body::GenerateOk { in_reply_to, .. } => Some(in_reply_to),
            Body::InitOk { in_reply_to } => Some(in_reply_to),
            Body::ReadOk { in_reply_to, .. } => Some(in_reply_to),
            Body::TopologyOk { in_reply_to } => Some(in_reply_to),
            Body::Error { in_reply_to, .. } => Some(in_reply_to),
            Body::Echo { .. } => None,
            Body::Broadcast { .. } => None,
            Body::Generate { .. } => None,
            Body::Init { .. } => None,
            Body::Read { .. } => None,
            Body::Topology { .. } => None,
        }
    }
}

} // verus!
