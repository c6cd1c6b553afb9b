//! The stateless echo responder: repeats whatever a peer sends, stamped
//! with a fresh request id. As with the other algorithms, a re-received
//! `init` is acknowledged again without touching state.
use vstd::prelude::*;

use crate::codec::clone_bytes;
use crate::error::ErrorV;
use crate::node::{
    counter_exhausted_err, counter_exhausted_error, not_initialized_err, not_initialized_error,
    reply_envelope, reply_view, unsupported_err, unsupported_error, Node,
};
use crate::protocol::{msgs_view, Body, BodyV, Message, MessageId, MessageV, NodeId};

verus! {

/// The echo responder: just an identity and a request-id counter.
pub struct EchoAgent {
    pub node_id: Option<NodeId>,
    pub msg_id: MessageId,
}

/// Mathematical shape of an [`EchoAgent`].
pub struct EchoAgentV {
    pub node_id: Option<Seq<u8>>,
    pub msg_id: u64,
}

impl View for EchoAgent {
    type V = EchoAgentV;

    open spec fn view(&self) -> EchoAgentV {
        EchoAgentV {
            node_id: match self.node_id {
                Some(ref id) => Some(id@),
                None => None,
            },
            msg_id: self.msg_id,
        }
    }
}

/// The state of an echo node that has not seen anything yet.
pub open spec fn echo_fresh() -> EchoAgentV {
    EchoAgentV { node_id: None, msg_id: 0 }
}

/// State transition of the echo agent for one inbound message.
pub open spec fn echo_next(s: EchoAgentV, m: MessageV) -> EchoAgentV {
    match m.body {
        BodyV::Init { node_id, .. } => {
            if s.node_id is Some {
                s
            } else {
                EchoAgentV { node_id: Some(node_id), ..s }
            }
        },
        _ => {
            match s.node_id {
                None => s,
                Some(_) => match m.body {
                    BodyV::Echo { .. } => {
                        if s.msg_id == u64::MAX {
                            s
                        } else {
                            EchoAgentV { msg_id: (s.msg_id + 1) as u64, ..s }
                        }
                    },
                    _ => s,
                },
            }
        },
    }
}

/// Output of the echo agent for one inbound message.
pub open spec fn echo_out(s: EchoAgentV, m: MessageV) -> Result<Seq<MessageV>, ErrorV> {
    match m.body {
        BodyV::Init { msg_id, .. } => Ok(
            seq![reply_view(m, BodyV::InitOk { in_reply_to: msg_id })],
        ),
        _ => {
            match s.node_id {
                None => Err(not_initialized_err(m)),
                Some(_) => match m.body {
                    BodyV::Echo { msg_id, echo } => {
                        if s.msg_id == u64::MAX {
                            Err(counter_exhausted_err())
                        } else {
                            Ok(
                                seq![
                                    reply_view(
                                        m,
                                        BodyV::EchoOk {
                                            msg_id: s.msg_id,
                                            in_reply_to: msg_id,
                                            echo,
                                        },
                                    ),
                                ],
                            )
                        }
                    },
                    _ => Err(unsupported_err(m)),
                },
            }
        },
    }
}

/// Initialization gating for the echo agent.
pub proof fn lemma_echo_gating(s: EchoAgentV, m: MessageV)
    requires
        s.node_id is None,
        !(m.body is Init),
    ensures
        echo_next(s, m) == s,
        echo_out(s, m) == Err::<Seq<MessageV>, ErrorV>(not_initialized_err(m)),
{
}

impl EchoAgent {
    /// An echo node that has not seen anything yet.
    pub fn new() -> (s: Self)
        ensures
            s@ == echo_fresh(),
    {
        EchoAgent { node_id: None, msg_id: 0 }
    }

    /// Hands out the next request id and advances the counter.
    pub fn generate_msg_id(&mut self) -> (out: MessageId)
        requires
            old(self).msg_id < u64::MAX,
        ensures
            out == old(self)@.msg_id,
            final(self)@ == (EchoAgentV { msg_id: (old(self)@.msg_id + 1) as u64, ..old(self)@ }),
    {
        let out = self.msg_id;
        self.msg_id = out + 1;
        out
    }
}

impl Node for EchoAgent {
    open spec fn next_state(pre: EchoAgentV, m: MessageV) -> EchoAgentV {
        echo_next(pre, m)
    }

    open spec fn next_output(pre: EchoAgentV, m: MessageV) -> Result<Seq<MessageV>, ErrorV> {
        echo_out(pre, m)
    }

    fn handler(&mut self, msg: &Message) -> (r: Result<Vec<Message>, crate::error::Error>) {
        match &msg.body {
            Body::Init { msg_id, node_id, .. } => {
                if self.node_id.is_none() {
                    self.node_id = Some(clone_bytes(node_id));
                }
                let reply = reply_envelope(msg, Body::InitOk { in_reply_to: *msg_id });
                let mut out: Vec<Message> = Vec::new();
                out.push(reply);
                proof {
                    assert(msgs_view(out@) =~= echo_out(old(self)@, msg@)->Ok_0);
                }
                Ok(out)
            },
            Body::Echo { msg_id, echo } => {
                if self.node_id.is_none() {
                    return Err(not_initialized_error(msg));
                }
                if self.msg_id == u64::MAX {
                    return Err(counter_exhausted_error());
                }
                let fresh = self.generate_msg_id();
                let reply = reply_envelope(
                    msg,
                    Body::EchoOk {
                        msg_id: fresh,
                        in_reply_to: *msg_id,
                        echo: clone_bytes(echo),
                    },
                );
                let mut out: Vec<Message> = Vec::new();
                out.push(reply);
                proof {
                    assert(msgs_view(out@) =~= echo_out(old(self)@, msg@)->Ok_0);
                }
                Ok(out)
            },
            _ => {
                if self.node_id.is_none() {
                    Err(not_initialized_error(msg))
                } else {
                    Err(unsupported_error(msg))
                }
            },
        }
    }
}

} // verus!
