//! Structured failures. A node error bundles an optional ready-to-send
//! peer-facing message with a free-text diagnostic for the local log, since
//! the runtime routes those to two different sinks.
use vstd::prelude::*;

use crate::protocol::{Message, MessageV};

verus! {

/// Wire error codes the protocol reserves.
pub const CODE_UNSUPPORTED: u64 = 10;

/// Canonical code for traffic that arrives before initialization.
pub const CODE_NOT_INITIALIZED: u64 = 11;

/// What can go wrong while reading, parsing or dispatching one line.
#[derive(Debug, PartialEq)]
pub enum Error {
    /// A transport stream failed; fatal, described for the local log only.
    IoError(Vec<u8>),
    /// A line was not a well-formed message; non-fatal, log only.
    JsonError(Vec<u8>),
    /// Dispatch refused the message: an optional reply for the peer plus a
    /// diagnostic for the local log.
    NodeError { msg: Option<Message>, detail: Vec<u8> },
}

/// Mathematical shape of an [`Error`].
pub enum ErrorV {
    IoError(Seq<u8>),
    JsonError(Seq<u8>),
    NodeError { msg: Option<MessageV>, detail: Seq<u8> },
}

impl View for Error {
    type V = ErrorV;

    open spec fn view(&self) -> ErrorV {
        match *self {
            Error::IoError(ref t) => ErrorV::IoError(t@),
            Error::JsonError(ref t) => ErrorV::JsonError(t@),
            Error::NodeError { ref msg, ref detail } => ErrorV::NodeError {
                msg: match *msg {
                    Some(ref m) => Some(m@),
                    None => None,
                },
                detail: detail@,
            },
        }
    }
}

} // verus!
