//! End-to-end protocol scenarios driven through the dispatcher.

use gossip_glommers::events::{
    Body, BroadcastEvent, CommitOffsetsEvent, EchoEvent, ErrorEvent, Event, EventResponse,
    InitEvent, ListCommittedOffsets, ListCommittedOffsetsOk, Message, PollEvent, ReadEvent,
    SendEvent, SendOkEvent, SharedEvent, TopologyEvent,
};
use gossip_glommers::node::Node;
use gossip_glommers::value::Val;

fn msg(src: &str, dest: &str, typ: Event) -> Message {
    Message { src: src.to_string(), dest: dest.to_string(), body: Body { typ } }
}

/// What the I/O shell does before emitting a reply: fill empty origins by
/// swapping the request's source and destination.
fn route(node: &mut Node, message: Message) -> Option<Message> {
    let src = message.src.clone();
    let dest = message.dest.clone();
    let mut reply = node.runner(message)?;
    if reply.dest.is_empty() {
        reply.dest = src;
        reply.src = dest;
    }
    Some(reply)
}

fn init_node(node: &mut Node, node_id: &str) {
    let reply = route(
        node,
        msg(
            "c1",
            node_id,
            Event::Init {
                init: InitEvent {
                    node_id: node_id.to_string(),
                    node_ids: vec![node_id.to_string(), "n2".to_string()],
                },
                shared: SharedEvent { msg_id: 1 },
            },
        ),
    );
    assert!(reply.is_some());
}

#[test]
fn init_handshake() {
    let mut node = Node::new();
    let reply = route(
        &mut node,
        msg(
            "c1",
            "n1",
            Event::Init {
                init: InitEvent {
                    node_id: "n1".to_string(),
                    node_ids: vec!["n1".to_string(), "n2".to_string()],
                },
                shared: SharedEvent { msg_id: 1 },
            },
        ),
    );
    let expected = msg(
        "n1",
        "c1",
        Event::InitOk { event_response: EventResponse { in_reply_to: 1 } },
    );
    assert_eq!(reply, Some(expected));
    assert_eq!(node.node_id, "n1".to_string());
}

#[test]
fn echo() {
    let mut node = Node::new();
    init_node(&mut node, "n1");
    let reply = route(
        &mut node,
        msg(
            "c1",
            "n1",
            Event::Echo {
                echo: EchoEvent { echo: "hi".to_string() },
                shared: SharedEvent { msg_id: 7 },
            },
        ),
    );
    let expected = msg(
        "n1",
        "c1",
        Event::EchoOk {
            event_response: EventResponse { in_reply_to: 7 },
            echo: EchoEvent { echo: "hi".to_string() },
        },
    );
    assert_eq!(reply, Some(expected));
}

#[test]
fn generate_ids_are_distinct() {
    let mut node = Node::new();
    init_node(&mut node, "n1");
    let mut ids = Vec::new();
    for i in 0..5u64 {
        let reply = route(
            &mut node,
            msg("c1", "n1", Event::Generate { shared: SharedEvent { msg_id: 4 + i } }),
        )
        .expect("a generate reply is owed");
        match reply.body.typ {
            Event::GenerateOk { event_response, generate_ok } => {
                assert_eq!(event_response.in_reply_to, 4 + i);
                ids.push(generate_ok.id);
            },
            other => panic!("expected generate_ok, got {:?}", other),
        }
    }
    for a in 0..ids.len() {
        for b in 0..ids.len() {
            if a != b {
                assert_ne!(ids[a], ids[b]);
            }
        }
    }
    // "{unix_millis}-{node_id}-{counter}": three segments, the middle one the
    // node, the last the counter, which starts at 0.
    for (i, id) in ids.iter().enumerate() {
        let parts: Vec<&str> = id.split('-').collect();
        assert_eq!(parts.len(), 3);
        assert!(parts[0].parse::<u64>().is_ok());
        assert_eq!(parts[1], "n1");
        assert_eq!(parts[2], format!("{}", i));
    }
}

fn set_topology(node: &mut Node, own: &str, peers: &[&str]) {
    let reply = route(
        node,
        msg(
            "c1",
            own,
            Event::Topology {
                topology: TopologyEvent {
                    topology: vec![(
                        own.to_string(),
                        peers.iter().map(|p| p.to_string()).collect(),
                    )],
                },
                shared: SharedEvent { msg_id: 2 },
            },
        ),
    );
    let expected = msg(
        own,
        "c1",
        Event::TopologyOk { event_response: EventResponse { in_reply_to: 2 } },
    );
    assert_eq!(reply, Some(expected));
}

fn gossip_payload(value: Val, dist_id: &str) -> Val {
    Val::Obj(vec![
        ("d".to_string(), value),
        ("d_id".to_string(), Val::Text(dist_id.to_string())),
    ])
}

#[test]
fn broadcast_fanout_two_peers() {
    let mut node = Node::new();
    init_node(&mut node, "n1");
    set_topology(&mut node, "n1", &["n2", "n3"]);
    let reply = route(
        &mut node,
        msg(
            "c1",
            "n1",
            Event::Broadcast {
                broadcast: BroadcastEvent { message: Val::Num(42) },
                shared: SharedEvent { msg_id: 9 },
            },
        ),
    );
    let expected = msg(
        "n1",
        "c1",
        Event::BroadcastOk { event_response: EventResponse { in_reply_to: 9 } },
    );
    assert_eq!(reply, Some(expected));

    let out = node.worker_tick();
    assert_eq!(out.len(), 2);
    let mut dests = Vec::new();
    let mut dist_ids = Vec::new();
    let mut msg_ids = Vec::new();
    for m in &out {
        assert_eq!(m.src, "n1".to_string());
        dests.push(m.dest.clone());
        match &m.body.typ {
            Event::Broadcast { broadcast, shared } => {
                msg_ids.push(shared.msg_id);
                match &broadcast.message {
                    Val::Obj(fields) => {
                        assert_eq!(fields.len(), 2);
                        assert_eq!(fields[0].0, "d".to_string());
                        assert_eq!(fields[0].1, Val::Num(42));
                        assert_eq!(fields[1].0, "d_id".to_string());
                        match &fields[1].1 {
                            Val::Text(id) => dist_ids.push(id.clone()),
                            other => panic!("d_id should be a string, got {:?}", other),
                        }
                    },
                    other => panic!("gossip should be an object, got {:?}", other),
                }
            },
            other => panic!("expected a broadcast message, got {:?}", other),
        }
    }
    dests.sort();
    assert_eq!(dests, vec!["n2".to_string(), "n3".to_string()]);
    assert_eq!(dist_ids[0], dist_ids[1]);
    assert_ne!(msg_ids[0], msg_ids[1]);

    // Unacknowledged entries are re-emitted on the next tick, with the same
    // distributed id and the same transport ids.
    let again = node.worker_tick();
    assert_eq!(again.len(), 2);
    assert_eq!(again, out);
}

#[test]
fn broadcast_ok_removes_pending() {
    let mut node = Node::new();
    init_node(&mut node, "n1");
    set_topology(&mut node, "n1", &["n2", "n3"]);
    route(
        &mut node,
        msg(
            "c1",
            "n1",
            Event::Broadcast {
                broadcast: BroadcastEvent { message: Val::Num(42) },
                shared: SharedEvent { msg_id: 9 },
            },
        ),
    );
    let out = node.worker_tick();
    assert_eq!(out.len(), 2);
    let acked = match &out[0].body.typ {
        Event::Broadcast { broadcast: _, shared } => shared.msg_id,
        other => panic!("expected a broadcast message, got {:?}", other),
    };
    let reply = route(
        &mut node,
        msg(
            &out[0].dest.clone(),
            "n1",
            Event::BroadcastOk { event_response: EventResponse { in_reply_to: acked } },
        ),
    );
    assert_eq!(reply, None);
    let rest = node.worker_tick();
    assert_eq!(rest.len(), 1);
    assert_eq!(rest[0], out[1]);

    // An unknown transport id is silently ignored.
    let reply = route(
        &mut node,
        msg(
            "n2",
            "n1",
            Event::BroadcastOk { event_response: EventResponse { in_reply_to: 999_999 } },
        ),
    );
    assert_eq!(reply, None);
    assert_eq!(node.worker_tick().len(), 1);
}

#[test]
fn broadcast_dedup() {
    let mut node = Node::new();
    init_node(&mut node, "n1");
    set_topology(&mut node, "n1", &["n2"]);
    let gossip = Event::Broadcast {
        broadcast: BroadcastEvent { message: gossip_payload(Val::Num(42), "remote-id-1") },
        shared: SharedEvent { msg_id: 5 },
    };
    let gossip_again = Event::Broadcast {
        broadcast: BroadcastEvent { message: gossip_payload(Val::Num(42), "remote-id-1") },
        shared: SharedEvent { msg_id: 6 },
    };
    let first = route(&mut node, msg("n3", "n1", gossip));
    assert_eq!(
        first,
        Some(msg(
            "n1",
            "n3",
            Event::BroadcastOk { event_response: EventResponse { in_reply_to: 5 } }
        ))
    );
    let pending_after_first = node.worker_tick().len();
    assert_eq!(pending_after_first, 1);

    // The duplicate is still acknowledged, but no further fan-out is
    // scheduled and `read` shows no duplicate.
    let second = route(&mut node, msg("n3", "n1", gossip_again));
    assert_eq!(
        second,
        Some(msg(
            "n1",
            "n3",
            Event::BroadcastOk { event_response: EventResponse { in_reply_to: 6 } }
        ))
    );
    assert_eq!(node.worker_tick().len(), pending_after_first);

    let read = route(&mut node, msg("c1", "n1", Event::Read { read: ReadEvent { msg_id: 8 } }));
    match read.expect("a read reply is owed").body.typ {
        Event::ReadOk { event_response, read_ok } => {
            assert_eq!(event_response.in_reply_to, 8);
            assert_eq!(read_ok.messages, vec![Val::Num(42)]);
        },
        other => panic!("expected read_ok, got {:?}", other),
    }
}

#[test]
fn broadcast_before_topology() {
    let mut node = Node::new();
    init_node(&mut node, "n1");
    let reply = route(
        &mut node,
        msg(
            "c1",
            "n1",
            Event::Broadcast {
                broadcast: BroadcastEvent { message: Val::Num(7) },
                shared: SharedEvent { msg_id: 3 },
            },
        ),
    );
    assert_eq!(
        reply,
        Some(msg(
            "n1",
            "c1",
            Event::BroadcastOk { event_response: EventResponse { in_reply_to: 3 } }
        ))
    );
    assert_eq!(node.worker_tick().len(), 0);
}

#[test]
fn read_before_broadcast() {
    let mut node = Node::new();
    init_node(&mut node, "n1");
    let read = route(&mut node, msg("c1", "n1", Event::Read { read: ReadEvent { msg_id: 2 } }));
    match read.expect("a read reply is owed").body.typ {
        Event::ReadOk { event_response, read_ok } => {
            assert_eq!(event_response.in_reply_to, 2);
            assert_eq!(read_ok.messages, Vec::<Val>::new());
        },
        other => panic!("expected read_ok, got {:?}", other),
    }
}

#[test]
fn read_sorts_numbers() {
    let mut node = Node::new();
    init_node(&mut node, "n1");
    for (i, v) in [5u64, 3, 9].iter().enumerate() {
        route(
            &mut node,
            msg(
                "c1",
                "n1",
                Event::Broadcast {
                    broadcast: BroadcastEvent { message: Val::Num(*v) },
                    shared: SharedEvent { msg_id: 10 + i as u64 },
                },
            ),
        );
    }
    let read = route(&mut node, msg("c1", "n1", Event::Read { read: ReadEvent { msg_id: 20 } }));
    match read.expect("a read reply is owed").body.typ {
        Event::ReadOk { event_response: _, read_ok } => {
            assert_eq!(read_ok.messages, vec![Val::Num(3), Val::Num(5), Val::Num(9)]);
        },
        other => panic!("expected read_ok, got {:?}", other),
    }
}

#[test]
fn log_round_trip() {
    let mut node = Node::new();
    init_node(&mut node, "n1");
    let first = route(
        &mut node,
        msg(
            "c1",
            "n1",
            Event::Send {
                send: SendEvent { key: "k1".to_string(), msg: Val::Num(100) },
                shared: SharedEvent { msg_id: 11 },
            },
        ),
    );
    assert_eq!(
        first,
        Some(msg(
            "n1",
            "c1",
            Event::SendOk {
                event_response: EventResponse { in_reply_to: 11 },
                send_ok: SendOkEvent { offset: 0 },
            }
        ))
    );
    let second = route(
        &mut node,
        msg(
            "c1",
            "n1",
            Event::Send {
                send: SendEvent { key: "k1".to_string(), msg: Val::Num(101) },
                shared: SharedEvent { msg_id: 12 },
            },
        ),
    );
    assert_eq!(
        second,
        Some(msg(
            "n1",
            "c1",
            Event::SendOk {
                event_response: EventResponse { in_reply_to: 12 },
                send_ok: SendOkEvent { offset: 1 },
            }
        ))
    );
    let poll = route(
        &mut node,
        msg(
            "c1",
            "n1",
            Event::Poll {
                poll: PollEvent { offsets: vec![("k1".to_string(), 0)] },
                shared: SharedEvent { msg_id: 13 },
            },
        ),
    );
    match poll.expect("a poll reply is owed").body.typ {
        Event::PollOk { event_response, poll_ok } => {
            assert_eq!(event_response.in_reply_to, 13);
            assert_eq!(
                poll_ok.msgs,
                vec![("k1".to_string(), vec![(0, Val::Num(100)), (1, Val::Num(101))])]
            );
        },
        other => panic!("expected poll_ok, got {:?}", other),
    }
}

#[test]
fn poll_unseen_key() {
    let mut node = Node::new();
    init_node(&mut node, "n1");
    let poll = route(
        &mut node,
        msg(
            "c1",
            "n1",
            Event::Poll {
                poll: PollEvent { offsets: vec![("nope".to_string(), 0)] },
                shared: SharedEvent { msg_id: 14 },
            },
        ),
    );
    match poll.expect("a poll reply is owed").body.typ {
        Event::PollOk { event_response, poll_ok } => {
            assert_eq!(event_response.in_reply_to, 14);
            assert_eq!(poll_ok.msgs, vec![("nope".to_string(), vec![])]);
        },
        other => panic!("expected poll_ok, got {:?}", other),
    }
}

#[test]
fn poll_returns_at_most_ten() {
    let mut node = Node::new();
    init_node(&mut node, "n1");
    for i in 0..12u64 {
        route(
            &mut node,
            msg(
                "c1",
                "n1",
                Event::Send {
                    send: SendEvent { key: "k".to_string(), msg: Val::Num(1000 + i) },
                    shared: SharedEvent { msg_id: 30 + i },
                },
            ),
        );
    }
    let poll = route(
        &mut node,
        msg(
            "c1",
            "n1",
            Event::Poll {
                poll: PollEvent { offsets: vec![("k".to_string(), 0)] },
                shared: SharedEvent { msg_id: 50 },
            },
        ),
    );
    match poll.expect("a poll reply is owed").body.typ {
        Event::PollOk { event_response: _, poll_ok } => {
            let batch = &poll_ok.msgs[0].1;
            assert_eq!(batch.len(), 10);
            for (j, entry) in batch.iter().enumerate() {
                assert_eq!(*entry, (j as u64, Val::Num(1000 + j as u64)));
            }
        },
        other => panic!("expected poll_ok, got {:?}", other),
    }
}

#[test]
fn commit_then_list() {
    let mut node = Node::new();
    init_node(&mut node, "n1");
    let commit = route(
        &mut node,
        msg(
            "c1",
            "n1",
            Event::CommitOffsets {
                commit_offsets: CommitOffsetsEvent { offsets: vec![("k1".to_string(), 5)] },
                shared: SharedEvent { msg_id: 15 },
            },
        ),
    );
    assert_eq!(
        commit,
        Some(msg(
            "n1",
            "c1",
            Event::CommitOffsetsOk { event_response: EventResponse { in_reply_to: 15 } }
        ))
    );
    let list = route(
        &mut node,
        msg(
            "c1",
            "n1",
            Event::ListCommittedOffsets {
                list_committed_offsets: ListCommittedOffsets { keys: vec!["k1".to_string()] },
                shared: SharedEvent { msg_id: 16 },
            },
        ),
    );
    assert_eq!(
        list,
        Some(msg(
            "n1",
            "c1",
            Event::ListCommittedOffsetsOk {
                event_response: EventResponse { in_reply_to: 16 },
                list_committed_offsets_ok: ListCommittedOffsetsOk {
                    offsets: vec![("k1".to_string(), 5)],
                },
            }
        ))
    );
}

#[test]
fn list_unknown_key_reports_zero() {
    let mut node = Node::new();
    init_node(&mut node, "n1");
    let list = route(
        &mut node,
        msg(
            "c1",
            "n1",
            Event::ListCommittedOffsets {
                list_committed_offsets: ListCommittedOffsets { keys: vec!["kx".to_string()] },
                shared: SharedEvent { msg_id: 17 },
            },
        ),
    );
    match list.expect("a list reply is owed").body.typ {
        Event::ListCommittedOffsetsOk { event_response: _, list_committed_offsets_ok } => {
            assert_eq!(list_committed_offsets_ok.offsets, vec![("kx".to_string(), 0)]);
        },
        other => panic!("expected list_committed_offsets_ok, got {:?}", other),
    }
}

#[test]
fn unsupported_event_reports_not_supported() {
    let mut node = Node::new();
    init_node(&mut node, "n1");
    let reply = route(
        &mut node,
        msg("c1", "n1", Event::Unsupported { shared: SharedEvent { msg_id: 21 } }),
    );
    assert_eq!(
        reply,
        Some(msg(
            "n1",
            "c1",
            Event::Error {
                event_response: EventResponse { in_reply_to: 21 },
                error: ErrorEvent {
                    code: 10,
                    text: "Message not supported on this version.".to_string(),
                },
            }
        ))
    );
}

#[test]
fn inbound_error_passes_through() {
    let mut node = Node::new();
    init_node(&mut node, "n1");
    let error = msg(
        "n2",
        "n1",
        Event::Error {
            event_response: EventResponse { in_reply_to: 4 },
            error: ErrorEvent { code: 10, text: "nope".to_string() },
        },
    );
    let expected = msg(
        "n2",
        "n1",
        Event::Error {
            event_response: EventResponse { in_reply_to: 4 },
            error: ErrorEvent { code: 10, text: "nope".to_string() },
        },
    );
    // Origins are already set on the inbound message, so the shell keeps
    // them as they are.
    let reply = route(&mut node, error);
    assert_eq!(reply, Some(expected));
}

#[test]
fn decode_failure_reply() {
    let mut node = Node::new();
    let reply = node.handle_deserialization_error("bad line".to_string());
    assert_eq!(
        reply,
        msg(
            "",
            "",
            Event::Error {
                event_response: EventResponse { in_reply_to: 0 },
                error: ErrorEvent {
                    code: 1000,
                    text: "Cannot deserialize the message: bad line".to_string(),
                },
            }
        )
    );
}

#[test]
fn encode_failure_reply() {
    let mut node = Node::new();
    let about = msg(
        "n1",
        "c1",
        Event::Echo {
            echo: EchoEvent { echo: "hi".to_string() },
            shared: SharedEvent { msg_id: 31 },
        },
    );
    let reply = node.handle_serialization_error("oops".to_string(), about);
    assert_eq!(
        reply,
        msg(
            "n1",
            "c1",
            Event::Error {
                event_response: EventResponse { in_reply_to: 31 },
                error: ErrorEvent {
                    code: 1001,
                    text: "Cannot serialize the message: oops".to_string(),
                },
            }
        )
    );
}

#[test]
fn gossip_hop_is_readable_at_receiver() {
    // A value submitted at one node travels to a peer as emitted by the
    // retry worker, and the peer's own read then shows it.
    let mut n1 = Node::new();
    init_node(&mut n1, "n1");
    set_topology(&mut n1, "n1", &["n2"]);
    route(
        &mut n1,
        msg(
            "c1",
            "n1",
            Event::Broadcast {
                broadcast: BroadcastEvent { message: Val::Num(77) },
                shared: SharedEvent { msg_id: 40 },
            },
        ),
    );
    let mut out = n1.worker_tick();
    assert_eq!(out.len(), 1);
    assert_eq!(out[0].dest, "n2".to_string());
    let transport_id = match &out[0].body.typ {
        Event::Broadcast { broadcast: _, shared } => shared.msg_id,
        other => panic!("expected a broadcast message, got {:?}", other),
    };
    let hop = out.remove(0);

    let mut n2 = Node::new();
    init_node(&mut n2, "n2");
    let ack = route(&mut n2, hop);
    match ack.expect("gossip is acknowledged").body.typ {
        Event::BroadcastOk { event_response } => {
            assert_eq!(event_response.in_reply_to, transport_id);
        },
        other => panic!("expected broadcast_ok, got {:?}", other),
    }
    let read = route(&mut n2, msg("c1", "n2", Event::Read { read: ReadEvent { msg_id: 41 } }));
    match read.expect("a read reply is owed").body.typ {
        Event::ReadOk { event_response: _, read_ok } => {
            assert_eq!(read_ok.messages, vec![Val::Num(77)]);
        },
        other => panic!("expected read_ok, got {:?}", other),
    }
}
