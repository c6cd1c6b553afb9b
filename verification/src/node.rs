//! The dispatch contract every algorithm plugs into: one inbound message in,
//! an ordered batch of outbound messages (or a structured node error) out,
//! plus the canonical error replies shared by all algorithms.
use vstd::prelude::*;

use crate::codec::{ascii_bytes, push_lit};
use crate::error::{Error, ErrorV, CODE_NOT_INITIALIZED, CODE_UNSUPPORTED};
use crate::protocol::{msgs_view, tag_lit, Body, BodyV, Message, MessageV};

verus! {

/// The correlation id an error reply answers with: the offending message's
/// request id, or zero where it carried none.
pub open spec fn err_reply_id(m: MessageV) -> u64 {
    match m.body.req_id() {
        Some(id) => id,
        None => 0,
    }
}

/// Diagnostic for a message type an algorithm does not handle.
pub open spec fn unsupported_text(b: BodyV) -> Seq<u8> {
    ascii_bytes("This node does not handle messages with body type: '"@) + ascii_bytes(
        tag_lit(b),
    ) + ascii_bytes("'"@)
}

/// Diagnostic for traffic that arrives before initialization.
pub open spec fn not_initialized_text() -> Seq<u8> {
    ascii_bytes("This node has not received an init message yet"@)
}

/// The canonical error for a message type an algorithm does not handle:
/// a well-formed `Error` reply for the peer plus the same text for the log.
pub open spec fn unsupported_err(m: MessageV) -> ErrorV {
    ErrorV::NodeError {
        msg: Some(
            MessageV {
                src: m.dest,
                dest: m.src,
                body: BodyV::Error {
                    in_reply_to: err_reply_id(m),
                    code: CODE_UNSUPPORTED,
                    text: unsupported_text(m.body),
                },
            },
        ),
        detail: unsupported_text(m.body),
    }
}

/// The canonical error for any non-`Init` message reaching a fresh node.
pub open spec fn not_initialized_err(m: MessageV) -> ErrorV {
    ErrorV::NodeError {
        msg: Some(
            MessageV {
                src: m.dest,
                dest: m.src,
                body: BodyV::Error {
                    in_reply_to: err_reply_id(m),
                    code: CODE_NOT_INITIALIZED,
                    text: not_initialized_text(),
                },
            },
        ),
        detail: not_initialized_text(),
    }
}

fn reply_id_of(msg: &Message) -> (r: u64)
    ensures
        r == err_reply_id(msg@),
{
    match msg.msg_id() {
        Some(id) => id,
        None => 0,
    }
}

/// Builds the canonical `Unsupported` node error for `msg`.
pub fn unsupported_error(msg: &Message) -> (e: Error)
    ensures
        e@ == unsupported_err(msg@),
{
    let mut text: Vec<u8> = Vec::new();
    proof {
        reveal_strlit("This node does not handle messages with body type: '");
        reveal_strlit("'");
    }
    push_lit(&mut text, "This node does not handle messages with body type: '");
    push_lit(&mut text, msg.body.tag());
    push_lit(&mut text, "'");
    let mut detail: Vec<u8> = Vec::new();
    crate::codec::push_bytes(&mut detail, &text);
    let reply = Message {
        src: msg.dest.clone(),
        dest: msg.src.clone(),
        body: Body::Error {
            in_reply_to: reply_id_of(msg),
            code: CODE_UNSUPPORTED,
            text,
        },
    };
    Error::NodeError { msg: Some(reply), detail }
}

/// Builds the canonical `NotInitialized` node error for `msg`.
pub fn not_initialized_error(msg: &Message) -> (e: Error)
    ensures
        e@ == not_initialized_err(msg@),
{
    let mut text: Vec<u8> = Vec::new();
    proof {
        reveal_strlit("This node has not received an init message yet");
    }
    push_lit(&mut text, "This node has not received an init message yet");
    let mut detail: Vec<u8> = Vec::new();
    crate::codec::push_bytes(&mut detail, &text);
    let reply = Message {
        src: msg.dest.clone(),
        dest: msg.src.clone(),
        body: Body::Error {
            in_reply_to: reply_id_of(msg),
            code: CODE_NOT_INITIALIZED,
            text,
        },
    };
    Error::NodeError { msg: Some(reply), detail }
}

/// Diagnostic for a node whose request-id counter has run out.
pub open spec fn counter_exhausted_text() -> Seq<u8> {
    ascii_bytes("This node's message id counter is exhausted"@)
}

/// The error for a dispatch that would need more request ids than the
/// counter has left: a machine limit, so there is no peer to blame and no
/// peer-facing reply.
pub open spec fn counter_exhausted_err() -> ErrorV {
    ErrorV::NodeError { msg: None, detail: counter_exhausted_text() }
}

/// Builds the canonical counter-exhaustion node error.
pub fn counter_exhausted_error() -> (e: Error)
    ensures
        e@ == counter_exhausted_err(),
{
    let mut detail: Vec<u8> = Vec::new();
    proof {
        reveal_strlit("This node's message id counter is exhausted");
    }
    push_lit(&mut detail, "This node's message id counter is exhausted");
    Error::NodeError { msg: None, detail }
}

/// The envelope of a reply: source and destination swapped.
pub open spec fn reply_view(m: MessageV, b: BodyV) -> MessageV {
    MessageV { src: m.dest, dest: m.src, body: b }
}

/// Builds a reply to `msg` carrying `body`.
pub fn reply_envelope(msg: &Message, body: Body) -> (r: Message)
    ensures
        r@ == reply_view(msg@, body@),
{
    Message {
        src: crate::codec::clone_bytes(&msg.dest),
        dest: crate::codec::clone_bytes(&msg.src),
        body,
    }
}

/// View of a dispatch result.
pub open spec fn out_view(r: Result<Vec<Message>, Error>) -> Result<Seq<MessageV>, ErrorV> {
    match r {
        Ok(v) => Ok(msgs_view(v@)),
        Err(e) => Err(e@),
    }
}

/// One algorithm a node can run. Each implementation pins its whole
/// behaviour down in two transition functions: dispatching a message moves
/// the state to `next_state` and produces exactly `next_output`.
pub trait Node: Sized + View {
    /// The state after dispatching one inbound message.
    spec fn next_state(pre: Self::V, m: MessageV) -> Self::V;

    /// The ordered outbound batch (or structured error) one inbound message
    /// produces.
    spec fn next_output(pre: Self::V, m: MessageV) -> Result<Seq<MessageV>, ErrorV>;

    /// Dispatches one inbound message.
    fn handler(&mut self, msg: &Message) -> (r: Result<Vec<Message>, Error>)
        ensures
            final(self)@ == Self::next_state(old(self)@, msg@),
            out_view(r) == Self::next_output(old(self)@, msg@),
    ;
}

} // verus!
