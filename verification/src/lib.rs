//! A minimal framework for a distributed-systems node that talks to its
//! peers and to a test harness through envelope messages: an envelope names
//! a source node, a destination node, and carries a body with an optional
//! request/reply correlation pair and a protocol-specific payload.
//!
//! The framework proper is the handshake (`start_node`) and the `Node`
//! interface; the protocol handlers live in the `broadcast`, `echo` and
//! `unique_id` modules. All I/O (reading and writing the newline-delimited
//! wire form of the envelopes) is left to the surrounding program: every
//! function here computes plain values from plain values.

use vstd::prelude::*;

pub mod broadcast;
pub mod echo;
pub mod flood;
pub mod unique_id;

verus! {

/// The ways a node run can fail. All of them are fatal to the node: the
/// surrounding program stops on the first one.
#[derive(Debug, Clone, Copy, PartialEq, Eq, Structural)]
pub enum Error {
    /// An input line is not a valid envelope of the expected shape.
    MalformedMessage,
    /// The payload variant is not one the active handler recognizes.
    ProtocolViolation,
    /// Writing to the output stream failed.
    TransportFailure,
}

/// The body of an envelope: an optional correlation pair and the payload.
///
/// `in_reply_to` correlates this message to a prior request's `msg_id`;
/// `msg_id` identifies this message for correlation by the receiver's
/// eventual reply. Either may be absent (fire-and-forget).
#[derive(Debug, Clone)]
pub struct Body<P> {
    pub in_reply_to: Option<usize>,
    pub msg_id: Option<usize>,
    pub payload: P,
}

/// The wire-level envelope every message is wrapped in.
#[derive(Debug, Clone)]
pub struct Message<P> {
    pub src: String,
    pub dest: String,
    pub body: Body<P>,
}

/// The handshake payload: the harness assigns the node its identity and the
/// full roster of node identifiers, and the node acknowledges.
#[derive(Debug, Clone)]
pub enum Init {
    Init { node_id: String, node_ids: Vec<String> },
    InitOk,
}

/// The reply that answers the message `m` with payload `p`: addressed back
/// to `m`'s sender, with both correlation fields copied from `m`'s `msg_id`.
///
/// Copying `msg_id` into the reply's own `msg_id` (rather than minting a
/// fresh id) reproduces the protocol's observable behaviour exactly.
pub open spec fn reply_to<P>(m: Message<P>, p: P) -> Message<P> {
    Message {
        src: m.dest,
        dest: m.src,
        body: Body { in_reply_to: m.body.msg_id, msg_id: m.body.msg_id, payload: p },
    }
}

/// A protocol handler: constructed once from the handshake, then fed every
/// following message in arrival order. `step` returns the messages to send,
/// in the order they must be written to the output stream.
///
/// Each implementation fixes its own contract through the three spec
/// functions: `init_ens` describes the freshly constructed handler,
/// `step_req` states when a message may be delivered (a machine limit at
/// most), and `step_ens` relates the handler's state before and after a
/// delivery to the messages sent.
pub trait Node<T>: Sized {
    spec fn init_ens(node_id: String, node_ids: Vec<String>, s: Self) -> bool;

    spec fn step_req(pre: Self, message: Message<T>) -> bool;

    spec fn step_ens(
        pre: Self,
        message: Message<T>,
        post: Self,
        r: Result<Vec<Message<T>>, Error>,
    ) -> bool;

    fn init(node_id: String, node_ids: Vec<String>) -> (s: Self)
        ensures
            Self::init_ens(node_id, node_ids, s),
    ;

    fn step(&mut self, message: Message<T>) -> (r: Result<Vec<Message<T>>, Error>)
        requires
            Self::step_req(*old(self), message),
        ensures
            Self::step_ens(*old(self), message, *final(self), r),
    ;
}

/// The bootstrap step: the first message a node receives must be the
/// handshake request. On `Init` the handler is constructed from the assigned
/// identity and roster, and the handshake acknowledgement is returned beside
/// it; any other first message is a protocol violation and the node never
/// starts.
pub fn start_node<T, S: Node<T>>(message: Message<Init>) -> (r: Result<
    (S, Message<Init>),
    Error,
>)
    ensures
        match r {
            Ok(p) => {
                &&& (message.body.payload matches Init::Init { node_id, node_ids }
                    && S::init_ens(node_id, node_ids, p.0))
                &&& p.1 == reply_to(message, Init::InitOk)
            },
            Err(e) => {
                &&& e == Error::ProtocolViolation
                &&& message.body.payload is InitOk
            },
        },
{
    let Message { src, dest, body } = message;
    let Body { in_reply_to: _, msg_id, payload } = body;
    match payload {
        Init::Init { node_id, node_ids } => {
            let node = S::init(node_id, node_ids);
            let reply = Message {
                src: dest,
                dest: src,
                body: Body { in_reply_to: msg_id, msg_id, payload: Init::InitOk },
            };
            Ok((node, reply))
        },
        Init::InitOk => Err(Error::ProtocolViolation),
    }
}

} // verus!
