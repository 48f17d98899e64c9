//! The node: event dispatch, reply construction and the node state.
//!
//! `runner` routes one inbound message to its handler and returns the reply
//! the handler owes, with empty origins for the I/O shell to fill by swapping
//! the request's source and destination. Every request is answered: with its
//! `*_ok` reply, or with an `error` carrying a stable code. Responses that
//! carry no correlatable pending state are absorbed silently.

use crate::broadcast::{
    classify_gossip, fanout, gossip_of, topo_insert_all, BMessageV, Broadcast,
};
use crate::db::{
    assoc_contains, assoc_get, assoc_put, assoc_remove, lemma_assoc_absent_get,
    lemma_assoc_get_found, DB,
};
use crate::events::{
    blank_origins, Body, BroadcastEvent, CommitOffsetsEvent, EchoEvent, ErrorEvent, Event,
    EventResponse, GenerateOk, InitEvent, ListCommittedOffsets, ListCommittedOffsetsOk, Message,
    PollEvent, PollOkEvent, ReadEvent, ReadOkEvent, SendEvent, SendOkEvent, SharedEvent,
    TopologyEvent,
};
use crate::events::{reply_in_reply_to, request_msg_id};
use crate::klog::{
    commit_all, ensure_keys, key_views, log_append, log_of, log_poll, pairs_view, req_keys,
    req_views, KLog, LogV,
};
use crate::uid::{uid_str, UID};
use crate::value::{Val, ValV};
use vstd::multiset::Multiset;
use vstd::prelude::*;
use vstd::relations::sorted_by;
use vstd::string::StringExecFns;

verus! {

/// The node state: identity, ID counter, broadcast store, seen values and
/// the keyed logs.
pub struct Node {
    pub node_id: String,
    uid: UID,
    broadcast: Broadcast,
    db: DB<String, Val>,
    klog: KLog,
}

/// The values a `read` reports, in insertion order.
pub open spec fn seen_values(seen: Seq<(Seq<char>, ValV)>) -> Seq<ValV> {
    seen.map(|i: int, p: (Seq<char>, ValV)| p.1)
}

pub open spec fn all_nums(vs: Seq<ValV>) -> bool {
    forall|i: int| 0 <= i < vs.len() ==> (#[trigger] vs[i]) matches ValV::Num(_)
}

pub open spec fn nums_of(vs: Seq<ValV>) -> Seq<u64> {
    vs.map(|i: int, v: ValV| v->Num_0)
}

pub open spec fn u64_leq() -> spec_fn(u64, u64) -> bool {
    |x: u64, y: u64| x <= y
}

/// What a `read` returns: the seen values, sorted numerically when they are
/// all numbers, in insertion order otherwise.
pub open spec fn read_result(seen: Seq<(Seq<char>, ValV)>, out: Seq<ValV>) -> bool {
    read_result_values(seen_values(seen), out)
}

pub open spec fn vals_view(s: Seq<Val>) -> Seq<ValV> {
    s.map(|i: int, v: Val| v@)
}

pub open spec fn topo_event_view(t: Seq<(String, Vec<String>)>) -> Seq<(Seq<char>, Seq<Seq<char>>)> {
    t.map(|i: int, p: (String, Vec<String>)| (p.0@, crate::broadcast::node_views(p.1@)))
}

pub open spec fn poll_msgs_view(s: Seq<(String, Vec<(u64, Val)>)>) -> Seq<
    (Seq<char>, Seq<(u64, ValV)>),
> {
    s.map(|i: int, p: (String, Vec<(u64, Val)>)| (p.0@, pairs_view(p.1@)))
}

/// The broadcast store, seen set, counter and logs are as before the call.
pub open spec fn stores_unchanged(pre: Node, post: Node) -> bool {
    &&& post.seen() == pre.seen()
    &&& post.pending() == pre.pending()
    &&& post.topology_view() == pre.topology_view()
    &&& post.counter() == pre.counter()
    &&& post.logs() == pre.logs()
}

pub open spec fn id_unchanged(pre: Node, post: Node) -> bool {
    post.id_view() == pre.id_view()
}

pub open spec fn is_init_ok(m: Message, mid: u64) -> bool {
    &&& blank_origins(m)
    &&& m.body.typ == (Event::InitOk { event_response: EventResponse { in_reply_to: mid } })
}

pub open spec fn is_echo_ok(m: Message, mid: u64, echo: Seq<char>) -> bool {
    &&& blank_origins(m)
    &&& (m.body.typ matches Event::EchoOk { event_response, echo: e }
        && event_response.in_reply_to == mid && e.echo@ == echo)
}

pub open spec fn is_error_reply(m: Message, mid: u64, code: u64, text: Seq<char>) -> bool {
    &&& blank_origins(m)
    &&& (m.body.typ matches Event::Error { event_response, error }
        && event_response.in_reply_to == mid && error.code == code && error.text@ == text)
}

pub open spec fn is_topology_ok(m: Message, mid: u64) -> bool {
    &&& blank_origins(m)
    &&& m.body.typ == (Event::TopologyOk { event_response: EventResponse { in_reply_to: mid } })
}

pub open spec fn is_broadcast_ok(m: Message, mid: u64) -> bool {
    &&& blank_origins(m)
    &&& m.body.typ == (Event::BroadcastOk { event_response: EventResponse { in_reply_to: mid } })
}

pub open spec fn is_generate_ok(m: Message, mid: u64, id: Seq<char>) -> bool {
    &&& blank_origins(m)
    &&& (m.body.typ matches Event::GenerateOk { event_response, generate_ok }
        && event_response.in_reply_to == mid && generate_ok.id@ == id)
}

pub open spec fn is_read_ok(m: Message, mid: u64, seen: Seq<(Seq<char>, ValV)>) -> bool {
    &&& blank_origins(m)
    &&& (m.body.typ matches Event::ReadOk { event_response, read_ok }
        && event_response.in_reply_to == mid && read_result(seen, vals_view(read_ok.messages@)))
}

pub open spec fn is_send_ok(m: Message, mid: u64, offset: u64) -> bool {
    &&& blank_origins(m)
    &&& m.body.typ == (Event::SendOk {
        event_response: EventResponse { in_reply_to: mid },
        send_ok: SendOkEvent { offset },
    })
}

pub open spec fn is_poll_ok(m: Message, mid: u64, logs: Seq<(Seq<char>, LogV)>, reqs: Seq<
    (Seq<char>, u64),
>) -> bool {
    &&& blank_origins(m)
    &&& (m.body.typ matches Event::PollOk { event_response, poll_ok }
        && event_response.in_reply_to == mid && poll_msgs_view(poll_ok.msgs@).len() == reqs.len()
        && (forall|i: int|
        0 <= i < reqs.len() ==> #[trigger] poll_msgs_view(poll_ok.msgs@)[i] == (
        reqs[i].0,
        log_poll(log_of(logs, reqs[i].0), reqs[i].1),
        )))
}

pub open spec fn is_commit_offsets_ok(m: Message, mid: u64) -> bool {
    &&& blank_origins(m)
    &&& m.body.typ == (Event::CommitOffsetsOk {
        event_response: EventResponse { in_reply_to: mid },
    })
}

pub open spec fn is_list_committed_ok(
    m: Message,
    mid: u64,
    logs: Seq<(Seq<char>, LogV)>,
    keys: Seq<Seq<char>>,
) -> bool {
    &&& blank_origins(m)
    &&& (m.body.typ matches Event::ListCommittedOffsetsOk {
        event_response,
        list_committed_offsets_ok,
    } && event_response.in_reply_to == mid && req_views(list_committed_offsets_ok.offsets@).len()
        == keys.len() && (forall|i: int|
        0 <= i < keys.len() ==> #[trigger] req_views(list_committed_offsets_ok.offsets@)[i] == (
        keys[i],
        log_of(logs, keys[i]).committed,
        )))
}

/// `init` assigns the node its identity and is acknowledged.
pub open spec fn init_step(pre: Node, post: Node, data: InitEvent, shared: SharedEvent, r: Option<
    Message,
>) -> bool {
    &&& post.id_view() == data.node_id@
    &&& stores_unchanged(pre, post)
    &&& (r matches Some(m) && is_init_ok(m, shared.msg_id))
}

/// `echo` returns its payload.
pub open spec fn echo_step(pre: Node, post: Node, data: EchoEvent, shared: SharedEvent, r: Option<
    Message,
>) -> bool {
    &&& id_unchanged(pre, post)
    &&& stores_unchanged(pre, post)
    &&& (r matches Some(m) && is_echo_ok(m, shared.msg_id, data.echo@))
}

/// An unknown event type is answered with the `NOT_SUPPORTED` error.
pub open spec fn unsupported_step(pre: Node, post: Node, shared: SharedEvent, r: Option<
    Message,
>) -> bool {
    &&& id_unchanged(pre, post)
    &&& stores_unchanged(pre, post)
    &&& (r matches Some(m) && is_error_reply(
        m,
        shared.msg_id,
        10,
        "Message not supported on this version."@,
    ))
}

/// `generate` mints a fresh string identifier, or reports the
/// `ID_GENERATE_FAILED` error when the clock cannot be read or the counter is
/// exhausted.
pub open spec fn generate_step(pre: Node, post: Node, shared: SharedEvent, r: Option<
    Message,
>) -> bool {
    &&& id_unchanged(pre, post)
    &&& post.seen() == pre.seen()
    &&& post.pending() == pre.pending()
    &&& post.topology_view() == pre.topology_view()
    &&& post.logs() == pre.logs()
    &&& (r matches Some(m) && ({
        ||| (pre.counter() < u64::MAX && post.counter() == pre.counter() + 1 && (exists|ts: u64|
            is_generate_ok(m, shared.msg_id, uid_str(ts, pre.id_view(), pre.counter()))))
        ||| (post.counter() == pre.counter() && is_error_reply(
            m,
            shared.msg_id,
            1003,
            "failed to generate id"@,
        ))
    }))
}

/// `topology` takes this node's own entry of the peer map, if present, into
/// the peer set; an absent entry leaves it as it was.
pub open spec fn topology_step(
    pre: Node,
    post: Node,
    data: TopologyEvent,
    shared: SharedEvent,
    r: Option<Message>,
) -> bool {
    &&& id_unchanged(pre, post)
    &&& post.seen() == pre.seen()
    &&& post.pending() == pre.pending()
    &&& post.counter() == pre.counter()
    &&& post.logs() == pre.logs()
    &&& post.topology_view() == (match assoc_get(topo_event_view(data.topology@), pre.id_view()) {
        Some(ns) => topo_insert_all(pre.topology_view(), ns),
        None => pre.topology_view(),
    })
    &&& (r matches Some(m) && is_topology_ok(m, shared.msg_id))
}

/// `broadcast`: an internal gossip hop (an object carrying `d_id` and `d`)
/// already seen is only acknowledged; a new one is recorded and fanned out
/// under its distributed id. Anything else is a fresh client submission: a
/// new distributed id is minted for it, it is recorded and fanned out, and
/// failure to mint the id is reported as `ID_GENERATE_FAILED`. In every case
/// the sender gets its acknowledgement; fan-out never targets the sender.
pub open spec fn broadcast_step(
    pre: Node,
    post: Node,
    data: BroadcastEvent,
    shared: SharedEvent,
    src: Seq<char>,
    r: Option<Message>,
) -> bool {
    &&& id_unchanged(pre, post)
    &&& post.topology_view() == pre.topology_view()
    &&& post.logs() == pre.logs()
    &&& (match classify_gossip(data.message@) {
        Some((dist, d)) => {
            if assoc_contains(pre.seen(), dist) {
                &&& stores_unchanged(pre, post)
                &&& (r matches Some(m) && is_broadcast_ok(m, shared.msg_id))
            } else {
                &&& post.seen() == assoc_put(pre.seen(), dist, d)
                &&& (exists|ts: u64|
                    (post.pending(), post.counter()) == fanout(
                        pre.pending(),
                        pre.topology_view(),
                        src,
                        pre.id_view(),
                        d,
                        dist,
                        pre.counter(),
                        ts,
                    ))
                &&& (r matches Some(m) && is_broadcast_ok(m, shared.msg_id))
            }
        },
        None => {
            ||| (pre.counter() < u64::MAX && (exists|ts_id: u64, ts: u64|
                {
                    &&& post.seen() == assoc_put(
                        pre.seen(),
                        uid_str(ts_id, pre.id_view(), pre.counter()),
                        data.message@,
                    )
                    &&& (post.pending(), post.counter()) == #[trigger] fanout(
                        pre.pending(),
                        pre.topology_view(),
                        src,
                        pre.id_view(),
                        data.message@,
                        uid_str(ts_id, pre.id_view(), pre.counter()),
                        (pre.counter() + 1) as u64,
                        ts,
                    )
                }) && (r matches Some(m) && is_broadcast_ok(m, shared.msg_id)))
            ||| (stores_unchanged(pre, post) && (r matches Some(m) && is_error_reply(
                m,
                shared.msg_id,
                1003,
                "failed to generate id"@,
            )))
        },
    })
}

/// `broadcast_ok` removes the acknowledged pending entry; an unknown
/// transport id is silently ignored, and no reply is produced.
pub open spec fn broadcast_ok_step(pre: Node, post: Node, data: EventResponse, r: Option<
    Message,
>) -> bool {
    &&& id_unchanged(pre, post)
    &&& post.seen() == pre.seen()
    &&& post.pending() == assoc_remove(pre.pending(), data.in_reply_to)
    &&& post.topology_view() == pre.topology_view()
    &&& post.counter() == pre.counter()
    &&& post.logs() == pre.logs()
    &&& r is None
}

/// `read` reports the seen values without consuming them.
pub open spec fn read_step(pre: Node, post: Node, read: ReadEvent, r: Option<Message>) -> bool {
    &&& id_unchanged(pre, post)
    &&& stores_unchanged(pre, post)
    &&& (r matches Some(m) && is_read_ok(m, read.msg_id, pre.seen()))
}

/// `send` appends to the key's log and returns the assigned offset.
pub open spec fn send_step(pre: Node, post: Node, send: SendEvent, shared: SharedEvent, r: Option<
    Message,
>) -> bool {
    &&& id_unchanged(pre, post)
    &&& post.seen() == pre.seen()
    &&& post.pending() == pre.pending()
    &&& post.topology_view() == pre.topology_view()
    &&& post.counter() == pre.counter()
    &&& post.logs() == assoc_put(
        pre.logs(),
        send.key@,
        log_append(log_of(pre.logs(), send.key@), send.msg@).0,
    )
    &&& (r matches Some(m) && is_send_ok(
        m,
        shared.msg_id,
        log_append(log_of(pre.logs(), send.key@), send.msg@).1,
    ))
}

/// `poll` returns, per requested key, a batch from the requested offset on.
pub open spec fn poll_step(pre: Node, post: Node, poll: PollEvent, shared: SharedEvent, r: Option<
    Message,
>) -> bool {
    &&& id_unchanged(pre, post)
    &&& post.seen() == pre.seen()
    &&& post.pending() == pre.pending()
    &&& post.topology_view() == pre.topology_view()
    &&& post.counter() == pre.counter()
    &&& post.logs() == ensure_keys(pre.logs(), req_keys(poll.offsets@))
    &&& (r matches Some(m) && is_poll_ok(
        m,
        shared.msg_id,
        pre.logs(),
        req_views(poll.offsets@),
    ))
}

/// `commit_offsets` records each requested committed marker.
pub open spec fn commit_offsets_step(
    pre: Node,
    post: Node,
    data: CommitOffsetsEvent,
    shared: SharedEvent,
    r: Option<Message>,
) -> bool {
    &&& id_unchanged(pre, post)
    &&& post.seen() == pre.seen()
    &&& post.pending() == pre.pending()
    &&& post.topology_view() == pre.topology_view()
    &&& post.counter() == pre.counter()
    &&& post.logs() == commit_all(pre.logs(), req_views(data.offsets@))
    &&& (r matches Some(m) && is_commit_offsets_ok(m, shared.msg_id))
}

/// `list_committed_offsets` reports each requested key's committed marker.
pub open spec fn list_committed_step(
    pre: Node,
    post: Node,
    data: ListCommittedOffsets,
    shared: SharedEvent,
    r: Option<Message>,
) -> bool {
    &&& id_unchanged(pre, post)
    &&& post.seen() == pre.seen()
    &&& post.pending() == pre.pending()
    &&& post.topology_view() == pre.topology_view()
    &&& post.counter() == pre.counter()
    &&& post.logs() == ensure_keys(pre.logs(), key_views(data.keys@))
    &&& (r matches Some(m) && is_list_committed_ok(
        m,
        shared.msg_id,
        pre.logs(),
        key_views(data.keys@),
    ))
}

/// The correlation identifier an error reply about `m` carries: the request's
/// `msg_id`; a response's `in_reply_to` for `error` and `read_ok`; 0
/// otherwise.
pub open spec fn correlation_of(m: Message) -> u64 {
    match m.body.typ {
        Event::Init { init: _, shared } => shared.msg_id,
        Event::Echo { echo: _, shared } => shared.msg_id,
        Event::Error { event_response, error: _ } => event_response.in_reply_to,
        Event::Unsupported { shared } => shared.msg_id,
        Event::Topology { topology: _, shared } => shared.msg_id,
        Event::Broadcast { broadcast: _, shared } => shared.msg_id,
        Event::ReadOk { event_response, read_ok: _ } => event_response.in_reply_to,
        Event::Generate { shared } => shared.msg_id,
        Event::Send { send: _, shared } => shared.msg_id,
        Event::Poll { poll: _, shared } => shared.msg_id,
        Event::CommitOffsets { commit_offsets: _, shared } => shared.msg_id,
        Event::ListCommittedOffsets { list_committed_offsets: _, shared } => shared.msg_id,
        _ => 0,
    }
}

impl Node {
    /// The node's identity, as assigned at `init`.
    pub closed spec fn id_view(&self) -> Seq<char> {
        self.node_id@
    }

    /// The seen set: distributed message id to value, in insertion order.
    pub closed spec fn seen(&self) -> Seq<(Seq<char>, ValV)> {
        self.db.entries()
    }

    /// The pending fan-out attempts.
    pub closed spec fn pending(&self) -> Seq<(u64, BMessageV)> {
        self.broadcast.pending()
    }

    /// The topology peers.
    pub closed spec fn topology_view(&self) -> Seq<Seq<char>> {
        self.broadcast.topology_view()
    }

    /// The ID counter.
    pub closed spec fn counter(&self) -> u64 {
        self.uid.counter()
    }

    /// The keyed logs.
    pub closed spec fn logs(&self) -> Seq<(Seq<char>, LogV)> {
        self.klog.logs_view()
    }

    pub closed spec fn wf(&self) -> bool {
        &&& self.db.wf()
        &&& self.broadcast.wf()
        &&& self.klog.wf()
    }

    pub fn new() -> (r: Node)
        ensures
            r.wf(),
            r.id_view() == Seq::<char>::empty(),
            r.seen() == Seq::<(Seq<char>, ValV)>::empty(),
            r.pending() == Seq::<(u64, BMessageV)>::empty(),
            r.topology_view() == Seq::<Seq<char>>::empty(),
            r.counter() == 0,
            r.logs() == Seq::<(Seq<char>, LogV)>::empty(),
    {
        Node {
            node_id: String::new(),
            uid: UID::new(),
            broadcast: Broadcast::new(),
            db: DB::new(),
            klog: KLog::new(),
        }
    }

    /// Routes one inbound message. Every request is answered (dedup included),
    /// and every reply to a request carrying `msg_id = m` carries
    /// `in_reply_to = m`. Inbound responses are absorbed; an inbound `error`
    /// is passed back unchanged.
    pub fn runner(&mut self, message: Message) -> (r: Option<Message>)
        requires
            old(self).wf(),
        ensures
            final(self).wf(),
            request_msg_id(message) is Some ==> r is Some,
            request_msg_id(message) matches Some(mid) ==> (r matches Some(m)
                ==> reply_in_reply_to(m) == Some(mid)),
            match message.body.typ {
                Event::Init { init, shared } => init_step(
                    *old(self),
                    *final(self),
                    init,
                    shared,
                    r,
                ),
                Event::Echo { echo, shared } => echo_step(*old(self), *final(self), echo, shared, r),
                Event::Error { event_response: _, error: _ } => stores_unchanged(
                    *old(self),
                    *final(self),
                ) && id_unchanged(*old(self), *final(self)) && r == Some(message),
                Event::Unsupported { shared } => unsupported_step(
                    *old(self),
                    *final(self),
                    shared,
                    r,
                ),
                Event::Topology { topology, shared } => topology_step(
                    *old(self),
                    *final(self),
                    topology,
                    shared,
                    r,
                ),
                Event::Broadcast { broadcast, shared } => broadcast_step(
                    *old(self),
                    *final(self),
                    broadcast,
                    shared,
                    message.src@,
                    r,
                ),
                Event::BroadcastOk { event_response } => broadcast_ok_step(
                    *old(self),
                    *final(self),
                    event_response,
                    r,
                ),
                Event::Read { read } => read_step(*old(self), *final(self), read, r),
                Event::Generate { shared } => generate_step(*old(self), *final(self), shared, r),
                Event::Send { send, shared } => send_step(*old(self), *final(self), send, shared, r),
                Event::Poll { poll, shared } => poll_step(*old(self), *final(self), poll, shared, r),
                Event::CommitOffsets { commit_offsets, shared } => commit_offsets_step(
                    *old(self),
                    *final(self),
                    commit_offsets,
                    shared,
                    r,
                ),
                Event::ListCommittedOffsets { list_committed_offsets, shared } => {
                    list_committed_step(
                        *old(self),
                        *final(self),
                        list_committed_offsets,
                        shared,
                        r,
                    )
                },
                _ => stores_unchanged(*old(self), *final(self)) && id_unchanged(
                    *old(self),
                    *final(self),
                ) && r is None,
            },
    {
        let Message { src, dest, body } = message;
        let Body { typ } = body;
        match typ {
            Event::Init { init, shared } => self.handle_init(init, shared),
            Event::InitOk { .. } => None,
            Event::Echo { echo, shared } => self.handle_echo(echo, shared),
            Event::EchoOk { .. } => None,
            Event::Error { event_response, error } => Some(
                Message { src, dest, body: Body { typ: Event::Error { event_response, error } } },
            ),
            Event::Unsupported { shared } => self.handle_unsupported_error(shared),
            Event::Topology { topology, shared } => self.handle_topology(topology, shared),
            Event::TopologyOk { .. } => None,
            Event::Broadcast { broadcast, shared } => self.handle_broadcast(
                broadcast,
                shared,
                &src,
            ),
            Event::BroadcastOk { event_response } => self.handle_broadcast_ok(event_response),
            Event::Read { read } => self.handle_read(read),
            Event::ReadOk { event_response, read_ok } => self.handle_read_ok(
                event_response,
                read_ok,
            ),
            Event::Generate { shared } => self.handle_generate(shared),
            Event::GenerateOk { .. } => None,
            Event::Send { send, shared } => self.handle_send(shared, send),
            Event::SendOk { .. } => None,
            Event::Poll { poll, shared } => self.handle_poll(poll, shared),
            Event::PollOk { .. } => None,
            Event::CommitOffsets { commit_offsets, shared } => self.handle_commit_offsets(
                commit_offsets,
                shared,
            ),
            Event::CommitOffsetsOk { .. } => None,
            Event::ListCommittedOffsets { list_committed_offsets, shared } => self
                .handle_list_committed_offsets(list_committed_offsets, shared),
            Event::ListCommittedOffsetsOk { .. } => None,
        }
    }

    fn handle_init(&mut self, data: InitEvent, shared: SharedEvent) -> (r: Option<Message>)
        requires
            old(self).wf(),
        ensures
            final(self).wf(),
            init_step(*old(self), *final(self), data, shared, r),
    {
        self.node_id = data.node_id;
        Some(
            Message {
                dest: String::new(),
                src: String::new(),
                body: Body {
                    typ: Event::InitOk {
                        event_response: EventResponse { in_reply_to: shared.msg_id },
                    },
                },
            },
        )
    }

    fn handle_echo(&mut self, data: EchoEvent, shared: SharedEvent) -> (r: Option<Message>)
        requires
            old(self).wf(),
        ensures
            final(self).wf(),
            echo_step(*old(self), *final(self), data, shared, r),
    {
        Some(
            Message {
                src: String::new(),
                dest: String::new(),
                body: Body {
                    typ: Event::EchoOk {
                        event_response: EventResponse { in_reply_to: shared.msg_id },
                        echo: EchoEvent { echo: data.echo },
                    },
                },
            },
        )
    }

    fn handle_unsupported_error(&mut self, shared: SharedEvent) -> (r: Option<Message>)
        requires
            old(self).wf(),
        ensures
            final(self).wf(),
            unsupported_step(*old(self), *final(self), shared, r),
    {
        Some(
            Message {
                dest: String::new(),
                src: String::new(),
                body: Body {
                    typ: Event::Error {
                        event_response: EventResponse { in_reply_to: shared.msg_id },
                        error: ErrorEvent {
                            code: 10,
                            text: String::from_str("Message not supported on this version."),
                        },
                    },
                },
            },
        )
    }

    /// The `ID_GENERATE_FAILED` reply for a request whose identifier could
    /// not be minted.
    fn handle_error(&self, shared: SharedEvent) -> (r: Option<Message>)
        ensures
            r matches Some(m) && is_error_reply(
                m,
                shared.msg_id,
                1003,
                "failed to generate id"@,
            ),
    {
        Some(
            Message {
                dest: String::new(),
                src: String::new(),
                body: Body {
                    typ: Event::Error {
                        event_response: EventResponse { in_reply_to: shared.msg_id },
                        error: ErrorEvent {
                            code: 1003,
                            text: String::from_str("failed to generate id"),
                        },
                    },
                },
            },
        )
    }

    fn handle_generate(&mut self, shared: SharedEvent) -> (r: Option<Message>)
        requires
            old(self).wf(),
        ensures
            final(self).wf(),
            generate_step(*old(self), *final(self), shared, r),
    {
        let ghost c0 = self.uid.counter();
        match self.uid.generate_unique_id(self.node_id.as_str()) {
            Ok(id) => {
                let ghost ts = choose|ts: u64| id@ == uid_str(ts, self.node_id@, c0);
                let m = Message {
                    src: String::new(),
                    dest: String::new(),
                    body: Body {
                        typ: Event::GenerateOk {
                            event_response: EventResponse { in_reply_to: shared.msg_id },
                            generate_ok: GenerateOk { id },
                        },
                    },
                };
                proof {
                    assert(is_generate_ok(
                        m,
                        shared.msg_id,
                        uid_str(ts, old(self).id_view(), old(self).counter()),
                    ));
                }
                Some(m)
            },
            Err(_) => self.handle_error(shared),
        }
    }

    fn handle_topology(&mut self, data: TopologyEvent, shared: SharedEvent) -> (r: Option<Message>)
        requires
            old(self).wf(),
        ensures
            final(self).wf(),
            topology_step(*old(self), *final(self), data, shared, r),
    {
        let ghost tv = topo_event_view(data.topology@);
        let mut topology = data.topology;
        let mut i: usize = 0;
        #[verifier::loop_isolation(false)]
        while i < topology.len()
            invariant
                i <= topology.len(),
                self == old(self),
                topo_event_view(topology@) == tv,
                tv.len() == topology@.len(),
                forall|j: int| 0 <= j < i ==> (#[trigger] tv[j]).0 != self.node_id@,
            decreases topology.len() - i,
        {
            if self.node_id.eq(&topology[i].0) {
                proof {
                    lemma_assoc_get_found(tv, self.node_id@, i as int);
                    assert(tv[i as int] == (topology@[i as int].0@, crate::broadcast::node_views(
                        topology@[i as int].1@,
                    )));
                }
                let entry = topology.remove(i);
                self.broadcast.set_topology(entry.1);
                return Some(
                    Message {
                        dest: String::new(),
                        src: String::new(),
                        body: Body {
                            typ: Event::TopologyOk {
                                event_response: EventResponse { in_reply_to: shared.msg_id },
                            },
                        },
                    },
                );
            }
            i = i + 1;
        }
        proof {
            lemma_assoc_absent_get(tv, self.node_id@);
        }
        Some(
            Message {
                dest: String::new(),
                src: String::new(),
                body: Body {
                    typ: Event::TopologyOk {
                        event_response: EventResponse { in_reply_to: shared.msg_id },
                    },
                },
            },
        )
    }

    fn broadcast_ok_reply(mid: u64) -> (m: Message)
        ensures
            is_broadcast_ok(m, mid),
    {
        Message {
            dest: String::new(),
            src: String::new(),
            body: Body {
                typ: Event::BroadcastOk { event_response: EventResponse { in_reply_to: mid } },
            },
        }
    }

    fn handle_broadcast(&mut self, data: BroadcastEvent, shared: SharedEvent, msg_src: &String) -> (r:
        Option<Message>)
        requires
            old(self).wf(),
        ensures
            final(self).wf(),
            broadcast_step(*old(self), *final(self), data, shared, msg_src@, r),
    {
        match gossip_of(&data.message) {
            Some(payload) => {
                let existing = self.db.get_message(&payload.dist_message_id);
                if existing.is_some() {
                    return Some(Self::broadcast_ok_reply(shared.msg_id));
                }
                self.db.add_message(payload.dist_message_id.clone(), payload.data.dup());
                let ghost mid_pending = self.pending();
                let ghost mid_counter = self.counter();
                let ghost dist = payload.dist_message_id@;
                let ghost d = payload.data@;
                self.broadcast.handle_broadcast(
                    self.node_id.as_str(),
                    payload.data,
                    msg_src.as_str(),
                    &mut self.uid,
                    payload.dist_message_id,
                );
                proof {
                    let ts = choose|ts: u64|
                        (self.broadcast.pending(), self.uid.counter()) == fanout(
                            mid_pending,
                            old(self).topology_view(),
                            msg_src@,
                            old(self).id_view(),
                            d,
                            dist,
                            mid_counter,
                            ts,
                        );
                    assert((self.pending(), self.counter()) == fanout(
                        old(self).pending(),
                        old(self).topology_view(),
                        msg_src@,
                        old(self).id_view(),
                        d,
                        dist,
                        old(self).counter(),
                        ts,
                    ));
                }
                Some(Self::broadcast_ok_reply(shared.msg_id))
            },
            None => {
                let ghost c0 = self.uid.counter();
                let id = match self.uid.generate_unique_id(self.node_id.as_str()) {
                    Ok(id) => id,
                    Err(_) => {
                        return self.handle_error(shared);
                    },
                };
                let ghost ts_id = choose|ts: u64| id@ == uid_str(ts, self.node_id@, c0);
                proof {
                    assert(id@ == uid_str(ts_id, self.node_id@, c0));
                }
                self.db.add_message(id.clone(), data.message.dup());
                let ghost mid_pending = self.pending();
                let ghost mid_counter = self.counter();
                let ghost dist = id@;
                self.broadcast.handle_broadcast(
                    self.node_id.as_str(),
                    data.message,
                    msg_src.as_str(),
                    &mut self.uid,
                    id,
                );
                proof {
                    let ts = choose|ts: u64|
                        (self.broadcast.pending(), self.uid.counter()) == fanout(
                            mid_pending,
                            old(self).topology_view(),
                            msg_src@,
                            old(self).id_view(),
                            data.message@,
                            dist,
                            mid_counter,
                            ts,
                        );
                    assert(mid_counter == (c0 + 1) as u64);
                    assert(dist == uid_str(ts_id, old(self).id_view(), old(self).counter()));
                    assert((self.pending(), self.counter()) == fanout(
                        old(self).pending(),
                        old(self).topology_view(),
                        msg_src@,
                        old(self).id_view(),
                        data.message@,
                        uid_str(ts_id, old(self).id_view(), old(self).counter()),
                        (old(self).counter() + 1) as u64,
                        ts,
                    ));
                }
                Some(Self::broadcast_ok_reply(shared.msg_id))
            },
        }
    }

    fn handle_broadcast_ok(&mut self, data: EventResponse) -> (r: Option<Message>)
        requires
            old(self).wf(),
        ensures
            final(self).wf(),
            broadcast_ok_step(*old(self), *final(self), data, r),
    {
        self.broadcast.handle_broadcast_ok(data.in_reply_to);
        None
    }

    fn handle_read(&mut self, read: ReadEvent) -> (r: Option<Message>)
        requires
            old(self).wf(),
        ensures
            final(self).wf(),
            read_step(*old(self), *final(self), read, r),
    {
        let snapshot = self.db.get_messages_as_value();
        proof {
            assert(vals_view(snapshot@) =~= seen_values(self.seen()));
        }
        let messages = sort_read_values(snapshot);
        Some(
            Message {
                dest: String::new(),
                src: String::new(),
                body: Body {
                    typ: Event::ReadOk {
                        event_response: EventResponse { in_reply_to: read.msg_id },
                        read_ok: ReadOkEvent { messages },
                    },
                },
            },
        )
    }

    fn handle_read_ok(&mut self, event_response: EventResponse, data: ReadOkEvent) -> (r: Option<
        Message,
    >)
        requires
            old(self).wf(),
        ensures
            final(self).wf(),
            *final(self) == *old(self),
            r is None,
    {
        let _sender = event_response.in_reply_to;
        let _messages = data.messages;
        None
    }

    fn handle_send(&mut self, shared: SharedEvent, send: SendEvent) -> (r: Option<Message>)
        requires
            old(self).wf(),
        ensures
            final(self).wf(),
            send_step(*old(self), *final(self), send, shared, r),
    {
        let offset = self.klog.handle_append(send.key, send.msg);
        Some(
            Message {
                src: String::new(),
                dest: String::new(),
                body: Body {
                    typ: Event::SendOk {
                        event_response: EventResponse { in_reply_to: shared.msg_id },
                        send_ok: SendOkEvent { offset },
                    },
                },
            },
        )
    }

    fn handle_poll(&mut self, data: PollEvent, shared: SharedEvent) -> (r: Option<Message>)
        requires
            old(self).wf(),
        ensures
            final(self).wf(),
            poll_step(*old(self), *final(self), data, shared, r),
    {
        let ghost reqs0 = data.offsets@;
        let ghost logs0 = self.logs();
        let msgs = self.klog.handle_poll(data.offsets);
        proof {
            assert(poll_msgs_view(msgs@).len() == req_views(reqs0).len());
            assert forall|i: int| 0 <= i < req_views(reqs0).len() implies #[trigger] poll_msgs_view(
                msgs@,
            )[i] == (
                req_views(reqs0)[i].0,
                log_poll(log_of(logs0, req_views(reqs0)[i].0), req_views(reqs0)[i].1),
            ) by {
                assert(msgs@[i].0@ == reqs0[i].0@);
                assert(pairs_view(msgs@[i].1@) == log_poll(log_of(logs0, reqs0[i].0@), reqs0[i].1));
            }
        }
        Some(
            Message {
                src: String::new(),
                dest: String::new(),
                body: Body {
                    typ: Event::PollOk {
                        event_response: EventResponse { in_reply_to: shared.msg_id },
                        poll_ok: PollOkEvent { msgs },
                    },
                },
            },
        )
    }

    fn handle_commit_offsets(&mut self, data: CommitOffsetsEvent, shared: SharedEvent) -> (r:
        Option<Message>)
        requires
            old(self).wf(),
        ensures
            final(self).wf(),
            commit_offsets_step(*old(self), *final(self), data, shared, r),
    {
        self.klog.handle_commit_offsets(data.offsets);
        Some(
            Message {
                src: String::new(),
                dest: String::new(),
                body: Body {
                    typ: Event::CommitOffsetsOk {
                        event_response: EventResponse { in_reply_to: shared.msg_id },
                    },
                },
            },
        )
    }

    fn handle_list_committed_offsets(
        &mut self,
        data: ListCommittedOffsets,
        shared: SharedEvent,
    ) -> (r: Option<Message>)
        requires
            old(self).wf(),
        ensures
            final(self).wf(),
            list_committed_step(*old(self), *final(self), data, shared, r),
    {
        let offsets = self.klog.handle_list_committed_offsets(data.keys);
        Some(
            Message {
                src: String::new(),
                dest: String::new(),
                body: Body {
                    typ: Event::ListCommittedOffsetsOk {
                        event_response: EventResponse { in_reply_to: shared.msg_id },
                        list_committed_offsets_ok: ListCommittedOffsetsOk { offsets },
                    },
                },
            },
        )
    }

    /// The correlation identifier to use when reporting a failure about `m`.
    fn in_reply_to(&self, message: &Message) -> (r: u64)
        ensures
            r == correlation_of(*message),
    {
        match &message.body.typ {
            Event::Init { init: _, shared } => shared.msg_id,
            Event::Echo { echo: _, shared } => shared.msg_id,
            Event::Error { event_response, error: _ } => event_response.in_reply_to,
            Event::Unsupported { shared } => shared.msg_id,
            Event::Topology { topology: _, shared } => shared.msg_id,
            Event::Broadcast { broadcast: _, shared } => shared.msg_id,
            Event::ReadOk { event_response, read_ok: _ } => event_response.in_reply_to,
            Event::Generate { shared } => shared.msg_id,
            Event::Send { send: _, shared } => shared.msg_id,
            Event::Poll { poll: _, shared } => shared.msg_id,
            Event::CommitOffsets { commit_offsets: _, shared } => shared.msg_id,
            Event::ListCommittedOffsets { list_committed_offsets: _, shared } => shared.msg_id,
            _ => 0,
        }
    }

    /// The `error` reply reporting that `message` could not be serialized.
    /// The shell logs it; the reply keeps the origins of the message it is
    /// about.
    pub fn handle_serialization_error(&mut self, error_text: String, message: Message) -> (r:
        Message)
        ensures
            r.src@ == message.src@,
            r.dest@ == message.dest@,
            (r.body.typ matches Event::Error { event_response, error }
                && event_response.in_reply_to == correlation_of(message) && error.code == 1001
                && error.text@ == "Cannot serialize the message: "@ + error_text@),
    {
        let corr = self.in_reply_to(&message);
        let mut text = String::from_str("Cannot serialize the message: ");
        text.append(error_text.as_str());
        let Message { src, dest, body: _ } = message;
        Message {
            src,
            dest,
            body: Body {
                typ: Event::Error {
                    event_response: EventResponse { in_reply_to: corr },
                    error: ErrorEvent { code: 1001, text },
                },
            },
        }
    }

    /// The `error` reply reporting that an input line could not be decoded:
    /// code `DECODE_FAILED`, correlated to no request.
    pub fn handle_deserialization_error(&mut self, error_text: String) -> (r: Message)
        ensures
            blank_origins(r),
            (r.body.typ matches Event::Error { event_response, error }
                && event_response.in_reply_to == 0 && error.code == 1000 && error.text@
                == "Cannot deserialize the message: "@ + error_text@),
    {
        let mut text = String::from_str("Cannot deserialize the message: ");
        text.append(error_text.as_str());
        Message {
            dest: String::new(),
            src: String::new(),
            body: Body {
                typ: Event::Error {
                    event_response: EventResponse { in_reply_to: 0 },
                    error: ErrorEvent { code: 1000, text },
                },
            },
        }
    }

    /// One tick of the retry worker: every pending gossip attempt, rendered
    /// for emission. The shell writes these out each retry interval.
    pub fn worker_tick(&self) -> (msgs: Vec<Message>)
        ensures
            msgs@.len() == self.pending().len(),
            forall|i: int|
                0 <= i < msgs@.len() ==> crate::broadcast::is_gossip_message(
                    #[trigger] msgs@[i],
                    self.pending()[i].1,
                ),
    {
        self.broadcast.worker_tick()
    }
}

/// Sorts the seen values for a `read`: numerically when all are numbers,
/// insertion order otherwise.
fn sort_read_values(values: Vec<Val>) -> (r: Vec<Val>)
    ensures
        read_result_values(vals_view(values@), vals_view(r@)),
{
    let ghost vs = vals_view(values@);
    let mut nums: Vec<u64> = Vec::new();
    let mut i: usize = 0;
    #[verifier::loop_isolation(false)]
    while i < values.len()
        invariant
            i <= values.len(),
            nums@.len() == i,
            forall|j: int| 0 <= j < i ==> (#[trigger] vs[j]) matches ValV::Num(_),
            forall|j: int| 0 <= j < i ==> (#[trigger] nums@[j]) == vs[j]->Num_0,
        decreases values.len() - i,
    {
        match &values[i] {
            Val::Num(n) => {
                nums.push(*n);
            },
            _ => {
                proof {
                    assert(!(values@[i as int] matches Val::Num(_)));
                    assert(vs[i as int] == values@[i as int]@);
                    assert(!(vs[i as int] matches ValV::Num(_)));
                    assert(!all_nums(vs));
                    assert(vals_view(values@) =~= vs);
                }
                return values;
            },
        }
        i = i + 1;
    }
    proof {
        assert(all_nums(vs));
        assert(nums@ =~= nums_of(vs));
    }
    let sorted = sort_nums(nums);
    let mut out: Vec<Val> = Vec::new();
    let mut w: usize = 0;
    #[verifier::loop_isolation(false)]
    while w < sorted.len()
        invariant
            w <= sorted.len(),
            out@.len() == w,
            forall|j: int| 0 <= j < w ==> (#[trigger] out@[j]) == Val::Num(sorted@[j]),
        decreases sorted.len() - w,
    {
        out.push(Val::Num(sorted[w]));
        w = w + 1;
    }
    proof {
        assert(all_nums(vals_view(out@)));
        assert(nums_of(vals_view(out@)) =~= sorted@);
    }
    out
}

/// `read_result` phrased over value sequences.
pub open spec fn read_result_values(vs: Seq<ValV>, out: Seq<ValV>) -> bool {
    if all_nums(vs) {
        &&& all_nums(out)
        &&& sorted_by(nums_of(out), u64_leq())
        &&& nums_of(out).to_multiset() == nums_of(vs).to_multiset()
    } else {
        out == vs
    }
}

/// Selection sort.
fn sort_nums(v: Vec<u64>) -> (r: Vec<u64>)
    ensures
        sorted_by(r@, u64_leq()),
        r@.to_multiset() == v@.to_multiset(),
{
    broadcast use vstd::seq_lib::group_to_multiset_ensures;

    let ghost orig = v@;
    let mut rest = v;
    let mut out: Vec<u64> = Vec::new();
    #[verifier::loop_isolation(false)]
    while rest.len() > 0
        invariant
            out@.to_multiset().add(rest@.to_multiset()) == orig.to_multiset(),
            sorted_by(out@, u64_leq()),
            forall|a: int, b: int|
                0 <= a < out@.len() && 0 <= b < rest@.len() ==> #[trigger] out@[a]
                    <= #[trigger] rest@[b],
        decreases rest.len(),
    {
        let mut m: usize = 0;
        let mut i: usize = 1;
        #[verifier::loop_isolation(false)]
        while i < rest.len()
            invariant
                m < i <= rest.len(),
                forall|j: int| 0 <= j < i ==> rest@[m as int] <= #[trigger] rest@[j],
            decreases rest.len() - i,
        {
            if rest[i] < rest[m] {
                m = i;
            }
            i = i + 1;
        }
        let ghost rest0 = rest@;
        let ghost out0 = out@;
        let x = rest.remove(m);
        out.push(x);
        proof {
            assert(out@ == out0.push(x));
            assert(rest@ == rest0.remove(m as int));
            assert(out@.to_multiset() =~= out0.to_multiset().insert(x));
            assert(rest@.to_multiset() =~= rest0.to_multiset().remove(x));
            assert(rest0.to_multiset().count(x) > 0);
            assert(out@.to_multiset().add(rest@.to_multiset()) =~= orig.to_multiset());
            assert forall|a: int, b: int|
                0 <= a < out@.len() && 0 <= b < rest@.len() implies #[trigger] out@[a]
                <= #[trigger] rest@[b] by {
                rest0.remove_ensures(m as int);
                if b < m {
                    assert(rest@[b] == rest0[b]);
                } else {
                    assert(rest@[b] == rest0[b + 1]);
                }
                if a < out0.len() {
                    assert(out@[a] == out0[a]);
                } else {
                    assert(out@[a] == x);
                }
            }
            assert forall|a: int, b: int| 0 <= a < b < out@.len() implies u64_leq()(
                out@[a],
                out@[b],
            ) by {
                if b < out0.len() {
                } else {
                    assert(out@[b] == x);
                    if a < out0.len() {
                        assert(out0[a] <= rest0[m as int]);
                    }
                }
            }
        }
    }
    proof {
        assert(rest@.to_multiset() =~= Multiset::<u64>::empty());
        assert(out@.to_multiset() =~= orig.to_multiset());
    }
    out
}

/// Before any broadcast the seen set is empty, and a `read` then reports an
/// empty list.
pub proof fn lemma_read_before_broadcast(out: Seq<ValV>)
    requires
        read_result(Seq::empty(), out),
    ensures
        out == Seq::<ValV>::empty(),
{
    broadcast use vstd::seq_lib::group_to_multiset_ensures;

    let vs = seen_values(Seq::empty());
    assert(vs =~= Seq::<ValV>::empty());
    assert(all_nums(vs));
    assert(nums_of(vs) =~= Seq::<u64>::empty());
    assert(nums_of(out).len() == nums_of(out).to_multiset().len());
    assert(nums_of(vs).len() == nums_of(vs).to_multiset().len());
    assert(out.len() == 0);
    assert(out =~= Seq::<ValV>::empty());
}

/// Dedup: delivering the same gossip payload twice leaves the seen set as
/// the first delivery left it — same contents, so same size — and the second
/// delivery is still acknowledged.
pub proof fn lemma_broadcast_dedup(
    pre: Node,
    mid: Node,
    post: Node,
    data: BroadcastEvent,
    sh1: SharedEvent,
    sh2: SharedEvent,
    src1: Seq<char>,
    src2: Seq<char>,
    r1: Option<Message>,
    r2: Option<Message>,
)
    requires
        classify_gossip(data.message@) is Some,
        broadcast_step(pre, mid, data, sh1, src1, r1),
        broadcast_step(mid, post, data, sh2, src2, r2),
    ensures
        post.seen() == mid.seen(),
        post.seen().len() == mid.seen().len(),
        r2 matches Some(m) ==> is_broadcast_ok(m, sh2.msg_id),
{
    let p = classify_gossip(data.message@)->0;
    let dist = p.0;
    let d = p.1;
    if assoc_contains(pre.seen(), dist) {
        assert(mid.seen() == pre.seen());
    } else {
        crate::db::lemma_assoc_put_get(pre.seen(), dist, d, dist);
    }
    assert(assoc_contains(mid.seen(), dist));
}

/// Unique IDs: two consecutive `generate` requests that both succeed return
/// distinct identifiers — each consumes its own counter value, and the
/// counter segment makes the rendered strings differ whatever the clock
/// read. Chaining this argument, all IDs minted in one process are pairwise
/// distinct.
pub proof fn lemma_generate_ids_distinct(
    pre: Node,
    mid: Node,
    post: Node,
    sh1: SharedEvent,
    sh2: SharedEvent,
    r1: Option<Message>,
    r2: Option<Message>,
)
    requires
        generate_step(pre, mid, sh1, r1),
        generate_step(mid, post, sh2, r2),
    ensures
        r1 matches Some(m1) ==> (r2 matches Some(m2) ==> (m1.body.typ matches Event::GenerateOk {
            event_response: e1,
            generate_ok: g1,
        } ==> (m2.body.typ matches Event::GenerateOk { event_response: e2, generate_ok: g2 }
            ==> g1.id@ != g2.id@))),
{
    if let Some(m1) = r1 {
        if let Some(m2) = r2 {
            match (m1.body.typ, m2.body.typ) {
                (
                    Event::GenerateOk { event_response: e1, generate_ok: g1 },
                    Event::GenerateOk { event_response: e2, generate_ok: g2 },
                ) => {
                    assert(!is_error_reply(m1, sh1.msg_id, 1003, "failed to generate id"@));
                    assert(!is_error_reply(m2, sh2.msg_id, 1003, "failed to generate id"@));
                    let ts1 = choose|ts: u64|
                        is_generate_ok(m1, sh1.msg_id, uid_str(ts, pre.id_view(), pre.counter()));
                    let ts2 = choose|ts: u64|
                        is_generate_ok(m2, sh2.msg_id, uid_str(ts, mid.id_view(), mid.counter()));
                    assert(g1.id@ == uid_str(ts1, pre.id_view(), pre.counter()));
                    assert(g2.id@ == uid_str(ts2, pre.id_view(), mid.counter()));
                    assert(mid.counter() == pre.counter() + 1);
                    crate::uid::lemma_uid_str_injective(
                        ts1,
                        ts2,
                        pre.id_view(),
                        pre.counter(),
                        mid.counter(),
                    );
                },
                _ => {},
            }
        }
    }
}

} // verus!
