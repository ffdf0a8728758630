//! The unique-id handler: answers every `Generate` request with an
//! identifier built from a per-node counter (starting at 1, incremented
//! after each use) and the node's own identifier. Ids are unique across
//! the cluster as long as node identifiers are.

use crate::{Body, Error, Message, Node, reply_to};
use vstd::prelude::*;

verus! {

#[derive(Debug, Clone)]
pub enum IdPayload {
    Generate,
    GenerateOk { id: String },
}

#[derive(Debug, Clone)]
pub struct IdNode {
    pub node_id: String,
    pub node_ids: Vec<String>,
    pub count: usize,
}

/// The decimal digit `d` (`0 <= d <= 9`) as a character.
pub open spec fn digit_char(d: nat) -> char {
    if d == 0 {
        '0'
    } else if d == 1 {
        '1'
    } else if d == 2 {
        '2'
    } else if d == 3 {
        '3'
    } else if d == 4 {
        '4'
    } else if d == 5 {
        '5'
    } else if d == 6 {
        '6'
    } else if d == 7 {
        '7'
    } else if d == 8 {
        '8'
    } else {
        '9'
    }
}

/// The decimal rendering of `n`, most significant digit first, with no
/// leading zeros (and `0` itself rendered as one digit).
pub open spec fn decimal_of(n: nat) -> Seq<char>
    decreases n,
{
    if n < 10 {
        seq![digit_char(n)]
    } else {
        decimal_of(n / 10).push(digit_char(n % 10))
    }
}

/// The generated identifier for counter value `count` at node `id`: the
/// counter in decimal, a dash, then the node identifier.
pub open spec fn generated_id(count: nat, id: Seq<char>) -> Seq<char> {
    decimal_of(count) + seq!['-'] + id
}

/// Relies on std's `format!` with the `Display` of `usize` and of `String`:
/// the decimal digits of the number, most significant first, then the
/// literal text, then the string's own characters.
#[verifier::external_body]
fn render_id(count: usize, node_id: &String) -> (r: String)
    ensures
        r@ == generated_id(count as nat, node_id@),
{
    format!("{}-{}", count, node_id)
}

/// The contract of one delivery: `Generate` is answered with the id built
/// from the current counter, and the counter advances by one; an inbound
/// `GenerateOk` is a protocol violation and changes nothing.
pub open spec fn id_step_contract(
    pre: IdNode,
    m: Message<IdPayload>,
    post: IdNode,
    r: Result<Vec<Message<IdPayload>>, Error>,
) -> bool {
    &&& post.node_id == pre.node_id
    &&& post.node_ids == pre.node_ids
    &&& match r {
        Ok(out) => {
            &&& m.body.payload is Generate
            &&& post.count == pre.count + 1
            &&& out.len() == 1
            &&& out[0].src == m.dest
            &&& out[0].dest == m.src
            &&& out[0].body.in_reply_to == m.body.msg_id
            &&& out[0].body.msg_id == m.body.msg_id
            &&& (out[0].body.payload matches IdPayload::GenerateOk { id }
                && id@ == generated_id(pre.count as nat, pre.node_id@))
        },
        Err(e) => {
            &&& e == Error::ProtocolViolation
            &&& m.body.payload is GenerateOk
            &&& post == pre
        },
    }
}

impl Node<IdPayload> for IdNode {
    open spec fn init_ens(node_id: String, node_ids: Vec<String>, s: Self) -> bool {
        s.node_id == node_id && s.node_ids == node_ids && s.count == 1usize
    }

    open spec fn step_req(pre: Self, message: Message<IdPayload>) -> bool {
        pre.count < usize::MAX
    }

    open spec fn step_ens(
        pre: Self,
        message: Message<IdPayload>,
        post: Self,
        r: Result<Vec<Message<IdPayload>>, Error>,
    ) -> bool {
        id_step_contract(pre, message, post, r)
    }

    fn init(node_id: String, node_ids: Vec<String>) -> (s: Self) {
        IdNode { node_id, node_ids, count: 1 }
    }

    fn step(&mut self, message: Message<IdPayload>) -> (r: Result<
        Vec<Message<IdPayload>>,
        Error,
    >) {
        let Message { src, dest, body } = message;
        let Body { in_reply_to: _, msg_id, payload } = body;
        match payload {
            IdPayload::Generate => {
                let id = render_id(self.count, &self.node_id);
                let reply = Message {
                    src: dest,
                    dest: src,
                    body: Body {
                        in_reply_to: msg_id,
                        msg_id,
                        payload: IdPayload::GenerateOk { id },
                    },
                };
                self.count = self.count + 1;
                let mut out: Vec<Message<IdPayload>> = Vec::new();
                out.push(reply);
                Ok(out)
            },
            IdPayload::GenerateOk { id: _ } => Err(Error::ProtocolViolation),
        }
    }
}

} // verus!
