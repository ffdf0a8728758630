use echo::broadcast::{BroadcastNode, BroadcastPayload};
use echo::echo::{EchoNode, EchoPayload};
use echo::unique_id::{IdNode, IdPayload};
use echo::{Body, Error, Init, Message, Node, start_node};

fn envelope<P>(src: &str, dest: &str, msg_id: Option<usize>, payload: P) -> Message<P> {
    Message {
        src: src.to_string(),
        dest: dest.to_string(),
        body: Body { in_reply_to: None, msg_id, payload },
    }
}

fn topology_message(
    src: &str,
    dest: &str,
    entries: &[(&str, &[&str])],
) -> Message<BroadcastPayload> {
    let topology: Vec<(String, Vec<String>)> = entries
        .iter()
        .map(|(k, vs)| (k.to_string(), vs.iter().map(|v| v.to_string()).collect()))
        .collect();
    envelope(src, dest, Some(0), BroadcastPayload::Topology { topology })
}

fn broadcast_node_with_topology(entries: &[(&str, &[&str])]) -> BroadcastNode {
    let mut node = BroadcastNode::init("n1".to_string(), vec!["n1".to_string(), "n2".to_string()]);
    let out = node
        .step(topology_message("c1", "n1", entries))
        .expect("topology must be accepted");
    assert_eq!(out.len(), 1);
    assert!(matches!(out[0].body.payload, BroadcastPayload::TopologyOk));
    node
}

#[test]
fn broadcast_floods_to_neighbor_and_acks() {
    let mut node = broadcast_node_with_topology(&[("n1", &["n2"])]);
    let out = node
        .step(envelope("c1", "n1", Some(1), BroadcastPayload::Broadcast { message: 5 }))
        .expect("broadcast must be accepted");
    assert_eq!(out.len(), 2);
    let fanout = &out[0];
    assert_eq!(fanout.src, "n1");
    assert_eq!(fanout.dest, "n2");
    assert_eq!(fanout.body.msg_id, Some(1));
    assert_eq!(fanout.body.in_reply_to, Some(1));
    assert!(matches!(fanout.body.payload, BroadcastPayload::Broadcast { message: 5 }));
    let ack = &out[1];
    assert_eq!(ack.src, "n1");
    assert_eq!(ack.dest, "c1");
    assert_eq!(ack.body.in_reply_to, Some(1));
    assert!(matches!(ack.body.payload, BroadcastPayload::BroadcastOk));
}

#[test]
fn broadcast_then_read_scenario() {
    let mut node = broadcast_node_with_topology(&[("n1", &["n2"])]);
    node.step(envelope("c1", "n1", Some(1), BroadcastPayload::Broadcast { message: 5 }))
        .expect("broadcast must be accepted");
    let out = node
        .step(envelope("c1", "n1", Some(2), BroadcastPayload::Read))
        .expect("read must be accepted");
    assert_eq!(out.len(), 1);
    assert_eq!(out[0].dest, "c1");
    assert_eq!(out[0].body.in_reply_to, Some(2));
    match &out[0].body.payload {
        BroadcastPayload::ReadOk { messages } => assert_eq!(messages, &vec![5]),
        _ => panic!("expected read_ok"),
    }
}

#[test]
fn duplicate_broadcast_not_reforwarded() {
    let mut node = broadcast_node_with_topology(&[("n1", &["n2"])]);
    let first = node
        .step(envelope("c1", "n1", Some(1), BroadcastPayload::Broadcast { message: 5 }))
        .expect("broadcast must be accepted");
    assert_eq!(first.len(), 2);
    let second = node
        .step(envelope("c1", "n1", Some(2), BroadcastPayload::Broadcast { message: 5 }))
        .expect("duplicate broadcast must still be acknowledged");
    assert_eq!(second.len(), 1);
    assert_eq!(second[0].dest, "c1");
    assert_eq!(second[0].body.in_reply_to, Some(2));
    assert!(matches!(second[0].body.payload, BroadcastPayload::BroadcastOk));
    let read = node
        .step(envelope("c1", "n1", Some(3), BroadcastPayload::Read))
        .expect("read must be accepted");
    match &read[0].body.payload {
        BroadcastPayload::ReadOk { messages } => assert_eq!(messages, &vec![5]),
        _ => panic!("expected read_ok"),
    }
}

#[test]
fn topology_overwrite_changes_fanout() {
    let mut node = broadcast_node_with_topology(&[("n1", &["n2"])]);
    let out = node
        .step(topology_message("c1", "n1", &[("n1", &["n3"])]))
        .expect("second topology must be accepted");
    assert!(matches!(out[0].body.payload, BroadcastPayload::TopologyOk));
    let flood = node
        .step(envelope("c1", "n1", Some(1), BroadcastPayload::Broadcast { message: 9 }))
        .expect("broadcast must be accepted");
    assert_eq!(flood.len(), 2);
    assert_eq!(flood[0].dest, "n3");
    assert!(matches!(flood[0].body.payload, BroadcastPayload::Broadcast { message: 9 }));
}

#[test]
fn read_counts_distinct_values() {
    let mut node = broadcast_node_with_topology(&[("n1", &["n2"])]);
    for (i, v) in [1usize, 2, 2, 3].iter().enumerate() {
        node.step(envelope("c1", "n1", Some(i), BroadcastPayload::Broadcast { message: *v }))
            .expect("broadcast must be accepted");
    }
    let out = node
        .step(envelope("c1", "n1", Some(9), BroadcastPayload::Read))
        .expect("read must be accepted");
    match &out[0].body.payload {
        BroadcastPayload::ReadOk { messages } => assert_eq!(messages, &vec![1, 2, 3]),
        _ => panic!("expected read_ok"),
    }
}

#[test]
fn read_on_fresh_node_is_empty() {
    let mut node = BroadcastNode::init("n1".to_string(), vec!["n1".to_string()]);
    let out = node
        .step(envelope("c1", "n1", Some(1), BroadcastPayload::Read))
        .expect("read must be accepted");
    match &out[0].body.payload {
        BroadcastPayload::ReadOk { messages } => assert!(messages.is_empty()),
        _ => panic!("expected read_ok"),
    }
}

#[test]
fn broadcast_without_topology_entry_only_acks() {
    let mut node = broadcast_node_with_topology(&[("n2", &["n1"])]);
    let out = node
        .step(envelope("c1", "n1", Some(1), BroadcastPayload::Broadcast { message: 7 }))
        .expect("broadcast must be accepted");
    assert_eq!(out.len(), 1);
    assert!(matches!(out[0].body.payload, BroadcastPayload::BroadcastOk));
}

#[test]
fn correlation_ids_round_trip() {
    let mut node = broadcast_node_with_topology(&[("n1", &["n2", "n3"])]);
    let out = node
        .step(envelope("c1", "n1", Some(7), BroadcastPayload::Broadcast { message: 4 }))
        .expect("broadcast must be accepted");
    assert_eq!(out.len(), 3);
    for m in &out {
        assert_eq!(m.body.in_reply_to, Some(7));
        assert_eq!(m.body.msg_id, Some(7));
    }
    assert_eq!(out[2].dest, "c1");
}

#[test]
fn broadcast_rejects_reply_payload() {
    let mut node = broadcast_node_with_topology(&[("n1", &["n2"])]);
    let r = node.step(envelope("c1", "n1", Some(1), BroadcastPayload::BroadcastOk));
    assert_eq!(r.unwrap_err(), Error::ProtocolViolation);
}

#[test]
fn echo_replies_verbatim() {
    let mut node = EchoNode::init("n1".to_string(), vec!["n1".to_string()]);
    let out = node
        .step(envelope("c1", "n1", Some(3), EchoPayload::Echo { echo: "hello".to_string() }))
        .expect("echo must be accepted");
    assert_eq!(out.len(), 1);
    assert_eq!(out[0].src, "n1");
    assert_eq!(out[0].dest, "c1");
    assert_eq!(out[0].body.in_reply_to, Some(3));
    match &out[0].body.payload {
        EchoPayload::EchoOk { echo } => assert_eq!(echo, "hello"),
        _ => panic!("expected echo_ok"),
    }
}

#[test]
fn echo_rejects_reply_payload() {
    let mut node = EchoNode::init("n1".to_string(), vec!["n1".to_string()]);
    let r = node.step(envelope("c1", "n1", Some(3), EchoPayload::EchoOk {
        echo: "hello".to_string(),
    }));
    assert_eq!(r.unwrap_err(), Error::ProtocolViolation);
}

#[test]
fn generated_ids_count_up_from_one() {
    let mut node = IdNode::init("n1".to_string(), vec!["n1".to_string()]);
    let first = node
        .step(envelope("c1", "n1", Some(1), IdPayload::Generate))
        .expect("generate must be accepted");
    match &first[0].body.payload {
        IdPayload::GenerateOk { id } => assert_eq!(id, "1-n1"),
        _ => panic!("expected generate_ok"),
    }
    let second = node
        .step(envelope("c1", "n1", Some(2), IdPayload::Generate))
        .expect("generate must be accepted");
    assert_eq!(second[0].body.in_reply_to, Some(2));
    match &second[0].body.payload {
        IdPayload::GenerateOk { id } => assert_eq!(id, "2-n1"),
        _ => panic!("expected generate_ok"),
    }
}

#[test]
fn unique_id_rejects_reply_payload() {
    let mut node = IdNode::init("n1".to_string(), vec!["n1".to_string()]);
    let r = node.step(envelope("c1", "n1", Some(1), IdPayload::GenerateOk {
        id: "1-n1".to_string(),
    }));
    assert_eq!(r.unwrap_err(), Error::ProtocolViolation);
}

#[test]
fn handshake_builds_node_and_acknowledges() {
    let init = envelope("c0", "n1", Some(1), Init::Init {
        node_id: "n1".to_string(),
        node_ids: vec!["n1".to_string(), "n2".to_string()],
    });
    let (mut node, reply): (BroadcastNode, Message<Init>) =
        start_node(init).expect("handshake must be accepted");
    assert_eq!(reply.src, "n1");
    assert_eq!(reply.dest, "c0");
    assert_eq!(reply.body.in_reply_to, Some(1));
    assert!(matches!(reply.body.payload, Init::InitOk));
    let out = node
        .step(envelope("c1", "n1", Some(2), BroadcastPayload::Read))
        .expect("read must be accepted");
    match &out[0].body.payload {
        BroadcastPayload::ReadOk { messages } => assert!(messages.is_empty()),
        _ => panic!("expected read_ok"),
    }
}

#[test]
fn handshake_rejects_non_init_first_message() {
    let bad = envelope("c0", "n1", Some(1), Init::InitOk);
    let r: Result<(BroadcastNode, Message<Init>), Error> = start_node(bad);
    assert_eq!(r.unwrap_err(), Error::ProtocolViolation);
}
