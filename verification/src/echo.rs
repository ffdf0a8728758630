//! The echo handler: a stateless reference protocol that answers every
//! `Echo { echo }` request with `EchoOk { echo }`, verbatim.

use crate::{Body, Error, Message, Node, reply_to};
use vstd::prelude::*;

verus! {

#[derive(Debug, Clone)]
pub enum EchoPayload {
    EchoOk { echo: String },
    Echo { echo: String },
}

#[derive(Debug, Clone)]
pub struct EchoNode {
    pub node_id: String,
    pub node_ids: Vec<String>,
}

/// The contract of one delivery: an `Echo` is answered with the same text
/// in an `EchoOk` reply; an inbound `EchoOk` is a protocol violation. The
/// node itself never changes.
pub open spec fn echo_step_contract(
    pre: EchoNode,
    m: Message<EchoPayload>,
    post: EchoNode,
    r: Result<Vec<Message<EchoPayload>>, Error>,
) -> bool {
    &&& post == pre
    &&& match r {
        Ok(out) => m.body.payload matches EchoPayload::Echo { echo } && out@ == seq![
            reply_to(m, EchoPayload::EchoOk { echo }),
        ],
        Err(e) => e == Error::ProtocolViolation && m.body.payload is EchoOk,
    }
}

impl Node<EchoPayload> for EchoNode {
    open spec fn init_ens(node_id: String, node_ids: Vec<String>, s: Self) -> bool {
        s.node_id == node_id && s.node_ids == node_ids
    }

    open spec fn step_req(pre: Self, message: Message<EchoPayload>) -> bool {
        true
    }

    open spec fn step_ens(
        pre: Self,
        message: Message<EchoPayload>,
        post: Self,
        r: Result<Vec<Message<EchoPayload>>, Error>,
    ) -> bool {
        echo_step_contract(pre, message, post, r)
    }

    fn init(node_id: String, node_ids: Vec<String>) -> (s: Self) {
        EchoNode { node_id, node_ids }
    }

    fn step(&mut self, message: Message<EchoPayload>) -> (r: Result<
        Vec<Message<EchoPayload>>,
        Error,
    >) {
        let ghost m = message;
        let Message { src, dest, body } = message;
        let Body { in_reply_to: _, msg_id, payload } = body;
        match payload {
            EchoPayload::Echo { echo } => {
                let ghost e = echo;
                let reply = Message {
                    src: dest,
                    dest: src,
                    body: Body {
                        in_reply_to: msg_id,
                        msg_id,
                        payload: EchoPayload::EchoOk { echo },
                    },
                };
                let mut out: Vec<Message<EchoPayload>> = Vec::new();
                out.push(reply);
                proof {
                    assert(out@ =~= seq![reply_to(m, EchoPayload::EchoOk { echo: e })]);
                }
                Ok(out)
            },
            EchoPayload::EchoOk { echo: _ } => Err(Error::ProtocolViolation),
        }
    }
}

} // verus!
