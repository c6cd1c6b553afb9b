//! The unique-id generator: hands out identifiers that no other node can
//! produce, by pairing the node's own name with its strictly increasing
//! request-id counter. As with the other algorithms, a re-received
//! `init` is acknowledged again without touching state.
use vstd::prelude::*;

use crate::codec::{clone_bytes, dec_rep, push_u64_dec};
use crate::error::ErrorV;
use crate::node::{
    counter_exhausted_err, counter_exhausted_error, not_initialized_err, not_initialized_error,
    reply_envelope, reply_view, unsupported_err, unsupported_error, Node,
};
use crate::protocol::{msgs_view, Body, BodyV, Message, MessageId, MessageV, NodeId};

verus! {

/// The id generator: just an identity and a request-id counter.
pub struct UniqueIdAgent {
    pub node_id: Option<NodeId>,
    pub msg_id: MessageId,
}

/// Mathematical shape of a [`UniqueIdAgent`].
pub struct UniqueIdAgentV {
    pub node_id: Option<Seq<u8>>,
    pub msg_id: u64,
}

impl View for UniqueIdAgent {
    type V = UniqueIdAgentV;

    open spec fn view(&self) -> UniqueIdAgentV {
        UniqueIdAgentV {
            node_id: match self.node_id {
                Some(ref id) => Some(id@),
                None => None,
            },
            msg_id: self.msg_id,
        }
    }
}

/// The state of an id-generator node that has not seen anything yet.
pub open spec fn uid_fresh() -> UniqueIdAgentV {
    UniqueIdAgentV { node_id: None, msg_id: 0 }
}

/// The generated identifier: the node's name, a dash, and the decimal
/// spelling of the counter value. Distinct nodes or distinct counter values
/// give distinct identifiers.
pub open spec fn uid_value(me: Seq<u8>, counter: u64) -> Seq<u8> {
    me + seq![45u8] + dec_rep(counter as nat)
}

/// State transition of the id generator for one inbound message.
pub open spec fn uid_next(s: UniqueIdAgentV, m: MessageV) -> UniqueIdAgentV {
    match m.body {
        BodyV::Init { node_id, .. } => {
            if s.node_id is Some {
                s
            } else {
                UniqueIdAgentV { node_id: Some(node_id), ..s }
            }
        },
        _ => {
            match s.node_id {
                None => s,
                Some(_) => match m.body {
                    BodyV::Generate { .. } => {
                        if s.msg_id == u64::MAX {
                            s
                        } else {
                            UniqueIdAgentV { msg_id: (s.msg_id + 1) as u64, ..s }
                        }
                    },
                    _ => s,
                },
            }
        },
    }
}

/// Output of the id generator for one inbound message.
pub open spec fn uid_out(s: UniqueIdAgentV, m: MessageV) -> Result<Seq<MessageV>, ErrorV> {
    match m.body {
        BodyV::Init { msg_id, .. } => Ok(
            seq![reply_view(m, BodyV::InitOk { in_reply_to: msg_id })],
        ),
        _ => {
            match s.node_id {
                None => Err(not_initialized_err(m)),
                Some(me) => match m.body {
                    BodyV::Generate { msg_id } => {
                        if s.msg_id == u64::MAX {
                            Err(counter_exhausted_err())
                        } else {
                            Ok(
                                seq![
                                    reply_view(
                                        m,
                                        BodyV::GenerateOk {
                                            in_reply_to: msg_id,
                                            id: uid_value(me, s.msg_id),
                                        },
                                    ),
                                ],
                            )
                        }
                    },
                    _ => Err(unsupported_err(m)),
                },
            }
        },
    }
}

/// Initialization gating for the id generator.
pub proof fn lemma_unique_id_gating(s: UniqueIdAgentV, m: MessageV)
    requires
        s.node_id is None,
        !(m.body is Init),
    ensures
        uid_next(s, m) == s,
        uid_out(s, m) == Err::<Seq<MessageV>, ErrorV>(not_initialized_err(m)),
{
}

impl UniqueIdAgent {
    /// An id-generator node that has not seen anything yet.
    pub fn new() -> (s: Self)
        ensures
            s@ == uid_fresh(),
    {
        UniqueIdAgent { node_id: None, msg_id: 0 }
    }

    /// Hands out the next request id and advances the counter.
    pub fn generate_msg_id(&mut self) -> (out: MessageId)
        requires
            old(self).msg_id < u64::MAX,
        ensures
            out == old(self)@.msg_id,
            final(self)@ == (UniqueIdAgentV {
                msg_id: (old(self)@.msg_id + 1) as u64,
                ..old(self)@
            }),
    {
        let out = self.msg_id;
        self.msg_id = out + 1;
        out
    }
}

impl Node for UniqueIdAgent {
    open spec fn next_state(pre: UniqueIdAgentV, m: MessageV) -> UniqueIdAgentV {
        uid_next(pre, m)
    }

    open spec fn next_output(pre: UniqueIdAgentV, m: MessageV) -> Result<Seq<MessageV>, ErrorV> {
        uid_out(pre, m)
    }

    fn handler(&mut self, msg: &Message) -> (r: Result<Vec<Message>, crate::error::Error>) {
        match &msg.body {
            Body::Init { msg_id, node_id, .. } => {
                if self.node_id.is_none() {
                    self.node_id = Some(clone_bytes(node_id));
                }
                let reply = reply_envelope(msg, Body::InitOk { in_reply_to: *msg_id });
                let mut out: Vec<Message> = Vec::new();
                out.push(reply);
                proof {
                    assert(msgs_view(out@) =~= uid_out(old(self)@, msg@)->Ok_0);
                }
                Ok(out)
            },
            Body::Generate { msg_id } => {
                if self.node_id.is_none() {
                    return Err(not_initialized_error(msg));
                }
                if self.msg_id == u64::MAX {
                    return Err(counter_exhausted_error());
                }
                let mut id_bytes: Vec<u8> = match &self.node_id {
                    Some(me) => clone_bytes(me),
                    None => Vec::new(),
                };
                id_bytes.push(45);
                let fresh = self.generate_msg_id();
                push_u64_dec(&mut id_bytes, fresh);
                proof {
                    assert(id_bytes@ =~= uid_value(old(self)@.node_id->0, old(self)@.msg_id));
                }
                let reply = reply_envelope(
                    msg,
                    Body::GenerateOk { in_reply_to: *msg_id, id: id_bytes },
                );
                let mut out: Vec<Message> = Vec::new();
                out.push(reply);
                proof {
                    assert(msgs_view(out@) =~= uid_out(old(self)@, msg@)->Ok_0);
                }
                Ok(out)
            },
            _ => {
                if self.node_id.is_none() {
                    Err(not_initialized_error(msg))
                } else {
                    Err(unsupported_error(msg))
                }
            },
        }
    }
}

} // verus!
