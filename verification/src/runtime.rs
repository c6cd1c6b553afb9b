//! The per-line step of the runtime pump: parse one inbound line, dispatch
//! it to the node, and route what comes out — replies and forwards as
//! serialized lines for the output stream, diagnostics for the error
//! stream. The blocking read/write loop itself is plain I/O and stays with
//! the caller; everything it forwards between the streams and the node
//! goes through [`Runtime::process_line`], which is verified.
use vstd::prelude::*;

use crate::codec::{ascii_bytes, parse, push_lit, serialize, spec_parse, spec_serialize, ParseError};
use crate::error::{Error, ErrorV};
use crate::node::Node;
use crate::protocol::{ids_view, msgs_view, Message, MessageV};

verus! {

/// What one inbound line produces: serialized reply lines for the output
/// stream (without trailing newlines), in order, and free-text diagnostics
/// for the error stream.
pub struct LineOutcome {
    pub outputs: Vec<Vec<u8>>,
    pub diagnostics: Vec<Vec<u8>>,
}

/// Diagnostic for a line that could not be parsed.
pub open spec fn parse_diag(e: ParseError) -> Seq<u8> {
    match e {
        ParseError::Syntax => ascii_bytes("discarded a line that is not well-formed JSON"@),
        ParseError::UnknownType => ascii_bytes(
            "discarded a message with an unrecognized type tag"@,
        ),
        ParseError::BadField => ascii_bytes(
            "discarded a message with a missing or mistyped field"@,
        ),
    }
}

/// The node state after one inbound line: parse failures change nothing.
pub open spec fn next_node<N: Node>(pre: N::V, line: Seq<u8>) -> N::V {
    match spec_parse(line) {
        Ok(m) => N::next_state(pre, m),
        Err(_) => pre,
    }
}

/// The serialized lines one inbound line puts on the output stream.
pub open spec fn line_outputs<N: Node>(pre: N::V, line: Seq<u8>) -> Seq<Seq<u8>> {
    match spec_parse(line) {
        Err(_) => Seq::empty(),
        Ok(m) => match N::next_output(pre, m) {
            Ok(outs) => outs.map_values(|mv: MessageV| spec_serialize(mv)),
            Err(ErrorV::NodeError { msg: Some(em), .. }) => seq![spec_serialize(em)],
            Err(_) => Seq::empty(),
        },
    }
}

/// The diagnostics one inbound line puts on the error stream.
pub open spec fn line_diags<N: Node>(pre: N::V, line: Seq<u8>) -> Seq<Seq<u8>> {
    match spec_parse(line) {
        Err(e) => seq![parse_diag(e)],
        Ok(m) => match N::next_output(pre, m) {
            Ok(_) => Seq::empty(),
            Err(ErrorV::NodeError { detail, .. }) => seq![detail],
            Err(ErrorV::IoError(t)) => seq![t],
            Err(ErrorV::JsonError(t)) => seq![t],
        },
    }
}

fn parse_diag_text(e: ParseError) -> (r: Vec<u8>)
    ensures
        r@ == parse_diag(e),
{
    let mut out: Vec<u8> = Vec::new();
    match e {
        ParseError::Syntax => {
            proof {
                reveal_strlit("discarded a line that is not well-formed JSON");
            }
            push_lit(&mut out, "discarded a line that is not well-formed JSON");
        },
        ParseError::UnknownType => {
            proof {
                reveal_strlit("discarded a message with an unrecognized type tag");
            }
            push_lit(&mut out, "discarded a message with an unrecognized type tag");
        },
        ParseError::BadField => {
            proof {
                reveal_strlit("discarded a message with a missing or mistyped field");
            }
            push_lit(&mut out, "discarded a message with a missing or mistyped field");
        },
    }
    out
}

/// One node together with the per-line step of the pump that drives it.
pub struct Runtime<N: Node> {
    pub node: N,
}

impl<N: Node> Runtime<N> {
    /// Wraps a node for the pump.
    pub fn new(node: N) -> (r: Self)
        ensures
            r.node@ == node@,
    {
        Runtime { node }
    }

    /// The line an outbound message is written as: its canonical
    /// serialization plus the terminating newline. The newline at the end
    /// is the only control byte in it, so the line framing holds for
    /// every message.
    pub fn send(msg: &Message) -> (line: Vec<u8>)
        ensures
            line@ == spec_serialize(msg@) + seq![10u8],
            line@.len() >= 1,
            line@[line@.len() - 1] == 10,
            forall|k: int| 0 <= k < line@.len() - 1 ==> line@[k] >= 32,
    {
        let mut line = serialize(msg);
        line.push(10);
        proof {
            assert(line@ =~= spec_serialize(msg@) + seq![10u8]);
        }
        line
    }

    /// Handles one inbound line: parse, dispatch, route. Parse failures
    /// and node errors are contained to this line; the outcome says
    /// exactly what goes to each stream.
    pub fn process_line(&mut self, line: &[u8]) -> (r: LineOutcome)
        ensures
            final(self).node@ == next_node::<N>(old(self).node@, line@),
            ids_view(r.outputs@) == line_outputs::<N>(old(self).node@, line@),
            ids_view(r.diagnostics@) == line_diags::<N>(old(self).node@, line@),
    {
        let mut outputs: Vec<Vec<u8>> = Vec::new();
        let mut diagnostics: Vec<Vec<u8>> = Vec::new();
        match parse(line) {
            Err(e) => {
                diagnostics.push(parse_diag_text(e));
                proof {
                    assert(ids_view(outputs@) =~= line_outputs::<N>(old(self).node@, line@));
                    assert(ids_view(diagnostics@) =~= line_diags::<N>(old(self).node@, line@));
                }
            },
            Ok(m) => {
                let ghost pre = self.node@;
                match self.node.handler(&m) {
                    Ok(msgs) => {
                        let ghost outs = line_outputs::<N>(pre, line@);
                        let mut k: usize = 0;
                        while k < msgs.len()
                            invariant
                                k <= msgs@.len(),
                                outs == msgs_view(msgs@).map_values(
                                    |mv: MessageV| spec_serialize(mv),
                                ),
                                outputs@.len() == k,
                                forall|i: int|
                                    0 <= i < k ==> (#[trigger] outputs@[i])@ == outs[i],
                            decreases msgs@.len() - k,
                        {
                            outputs.push(serialize(&msgs[k]));
                            k += 1;
                        }
                        proof {
                            assert(ids_view(outputs@) =~= outs);
                            assert(ids_view(diagnostics@) =~= Seq::<Seq<u8>>::empty());
                        }
                    },
                    Err(err) => {
                        match err {
                            Error::NodeError { msg: peer, detail } => {
                                if let Some(em) = &peer {
                                    outputs.push(serialize(em));
                                }
                                diagnostics.push(detail);
                            },
                            Error::IoError(t) => {
                                diagnostics.push(t);
                            },
                            Error::JsonError(t) => {
                                diagnostics.push(t);
                            },
                        }
                        proof {
                            assert(ids_view(outputs@) =~= line_outputs::<N>(
                                old(self).node@,
                                line@,
                            ));
                            assert(ids_view(diagnostics@) =~= line_diags::<N>(
                                old(self).node@,
                                line@,
                            ));
                        }
                    },
                }
            },
        }
        LineOutcome { outputs, diagnostics }
    }
}

} // verus!
