//! Broadcast gossip.
//!
//! A submitted value is recorded under its distributed message id and fanned
//! out to every topology peer except the immediate sender. Each fan-out
//! attempt takes a fresh transport id from the shared counter and leaves a
//! pending entry keyed by it; the retry worker re-emits every pending entry
//! each tick, and a `broadcast_ok` whose `in_reply_to` names the transport id
//! deletes the entry. There is no terminal failure state: an unacknowledged
//! entry is retried forever.
//!
//! On the wire an internal gossip hop wraps the value as the object
//! `{"d": value, "d_id": id}`; a first-hop client submission carries the raw
//! value.

use crate::db::{
    assoc_get, assoc_put, assoc_remove, assoc_unique, lemma_assoc_put_get, DbValue, DB,
};
use crate::events::{Body, BroadcastEvent, Event, Message, SharedEvent};
use crate::uid::{unix_millis, UID};
use crate::value::{obj_lookup, Val, ValV};
use vstd::prelude::*;
use vstd::string::StringExecFns;

verus! {

/// The abstract state of one pending fan-out attempt.
#[verifier::ext_equal]
pub struct BMessageV {
    /// The gossiped value.
    pub data: ValV,
    /// The peer the attempt is addressed to.
    pub dest: Seq<char>,
    /// This node, the sender.
    pub src: Seq<char>,
    /// The transport id: the attempt's `msg_id`, which the peer's
    /// `broadcast_ok` will name.
    pub id: u64,
    /// The distributed message id, stable across nodes.
    pub dist: Seq<char>,
    /// The clock reading when the entry was created.
    pub first_seen_at: u64,
}

/// One pending fan-out attempt.
struct BMessage {
    data: Val,
    dest: String,
    src: String,
    broadcast_event_message_id: u64,
    dist_message_id: String,
    first_seen_at: u64,
}

impl View for BMessage {
    type V = BMessageV;

    closed spec fn view(&self) -> BMessageV {
        BMessageV {
            data: self.data@,
            dest: self.dest@,
            src: self.src@,
            id: self.broadcast_event_message_id,
            dist: self.dist_message_id@,
            first_seen_at: self.first_seen_at,
        }
    }
}

impl DbValue for BMessage {
    fn clone_value(&self) -> (r: Self) {
        BMessage {
            data: self.data.dup(),
            dest: self.dest.clone(),
            src: self.src.clone(),
            broadcast_event_message_id: self.broadcast_event_message_id,
            dist_message_id: self.dist_message_id.clone(),
            first_seen_at: self.first_seen_at,
        }
    }
}

/// A gossip payload as it rides in a `broadcast` body: the value and its
/// distributed message id.
pub struct BroadCastMessage {
    pub dist_message_id: String,
    pub data: Val,
}

/// The wire shape of an internal gossip hop: `{"d": value, "d_id": id}`.
pub open spec fn gossip_wire(data: ValV, dist: Seq<char>) -> ValV {
    ValV::Obj(seq![("d"@, data), ("d_id"@, ValV::Text(dist))])
}

/// Reads a `broadcast` payload structurally: an object carrying a string
/// `d_id` and a `d` is an internal gossip hop; anything else is a fresh
/// client submission.
pub open spec fn classify_gossip(v: ValV) -> Option<(Seq<char>, ValV)> {
    match v {
        ValV::Obj(fields) => match (obj_lookup(fields, "d_id"@), obj_lookup(fields, "d"@)) {
            (Some(ValV::Text(id)), Some(d)) => Some((id, d)),
            _ => None,
        },
        _ => None,
    }
}

/// Splits a gossip payload off a `broadcast` body, by structural inspection
/// and not by sender identity.
pub fn gossip_of(message: &Val) -> (r: Option<BroadCastMessage>)
    ensures
        match r {
            Some(b) => classify_gossip(message@) == Some((b.dist_message_id@, b.data@)),
            None => classify_gossip(message@) is None,
        },
{
    match message {
        Val::Obj(fields) => {
            let key_id = String::from_str("d_id");
            let key_d = String::from_str("d");
            let id = match crate::value::lookup_field(fields, &key_id) {
                Some(Val::Text(id)) => id.clone(),
                _ => {
                    return None;
                },
            };
            match crate::value::lookup_field(fields, &key_d) {
                Some(d) => Some(BroadCastMessage { dist_message_id: id, data: d.dup() }),
                None => None,
            }
        },
        _ => None,
    }
}

/// One fan-out pass over the topology: every peer other than the sender gets
/// a pending entry under a fresh transport id drawn from the counter. A peer
/// whose id cannot be minted (the counter is exhausted) is skipped, as the
/// failed attempt is in the original control flow.
pub open spec fn fanout(
    pending: Seq<(u64, BMessageV)>,
    topology: Seq<Seq<char>>,
    src: Seq<char>,
    me: Seq<char>,
    data: ValV,
    dist: Seq<char>,
    ctr: u64,
    ts: u64,
) -> (Seq<(u64, BMessageV)>, u64)
    decreases topology.len(),
{
    if topology.len() == 0 {
        (pending, ctr)
    } else if topology[0] == src {
        fanout(pending, topology.drop_first(), src, me, data, dist, ctr, ts)
    } else if ctr == u64::MAX {
        fanout(pending, topology.drop_first(), src, me, data, dist, ctr, ts)
    } else {
        let entry = BMessageV { data, dest: topology[0], src: me, id: ctr, dist, first_seen_at: ts };
        fanout(
            assoc_put(pending, ctr, entry),
            topology.drop_first(),
            src,
            me,
            data,
            dist,
            (ctr + 1) as u64,
            ts,
        )
    }
}

/// The abstract view of a node-name list.
pub open spec fn node_views(s: Seq<String>) -> Seq<Seq<char>> {
    s.map(|i: int, n: String| n@)
}

/// Adding a node to the topology set.
pub open spec fn topo_insert(t: Seq<Seq<char>>, n: Seq<char>) -> Seq<Seq<char>> {
    if t.contains(n) {
        t
    } else {
        t.push(n)
    }
}

/// Adding each node in order.
pub open spec fn topo_insert_all(t: Seq<Seq<char>>, nodes: Seq<Seq<char>>) -> Seq<Seq<char>>
    decreases nodes.len(),
{
    if nodes.len() == 0 {
        t
    } else {
        topo_insert_all(topo_insert(t, nodes[0]), nodes.drop_first())
    }
}

/// A reply built for one pending entry: a `broadcast` message to its peer
/// carrying the gossip wire shape and the transport id as `msg_id`.
pub open spec fn is_gossip_message(m: Message, e: BMessageV) -> bool {
    &&& m.src@ == e.src
    &&& m.dest@ == e.dest
    &&& (m.body.typ matches Event::Broadcast { broadcast, shared } && broadcast.message@
        == gossip_wire(e.data, e.dist) && shared.msg_id == e.id)
}

struct Store {
    topology: Vec<String>,
    db: DB<u64, BMessage>,
}

/// The broadcast store: the peer set and the pending fan-out attempts,
/// shared by the dispatcher and the retry worker.
pub struct Service {
    store: Store,
}

impl Service {
    /// The topology peers, in insertion order.
    pub closed spec fn topology_view(&self) -> Seq<Seq<char>> {
        node_views(self.store.topology@)
    }

    /// The pending fan-out attempts, keyed by transport id, in creation
    /// order.
    pub closed spec fn pending(&self) -> Seq<(u64, BMessageV)> {
        self.store.db.entries()
    }

    /// Pending keys are unique and the topology is a set.
    pub open spec fn wf(&self) -> bool {
        &&& assoc_unique(self.pending())
        &&& forall|i: int, j: int|
            0 <= i < j < self.topology_view().len() ==> self.topology_view()[i]
                != self.topology_view()[j]
    }

    fn new() -> (r: Service)
        ensures
            r.wf(),
            r.pending() == Seq::<(u64, BMessageV)>::empty(),
            r.topology_view() == Seq::<Seq<char>>::empty(),
    {
        let r = Service { store: Store { topology: Vec::new(), db: DB::new() } };
        proof {
            assert(r.topology_view() =~= Seq::<Seq<char>>::empty());
        }
        r
    }

    /// Adds each node to the peer set, skipping those already present.
    pub fn set_topology(&mut self, nodes: Vec<String>)
        requires
            old(self).wf(),
        ensures
            final(self).wf(),
            final(self).topology_view() == topo_insert_all(
                old(self).topology_view(),
                node_views(nodes@),
            ),
            final(self).pending() == old(self).pending(),
    {
        let ghost t0 = self.topology_view();
        let ghost ns = node_views(nodes@);
        proof {
            assert(ns.skip(0) =~= ns);
        }
        let mut i: usize = 0;
        #[verifier::loop_isolation(false)]
        while i < nodes.len()
            invariant
                i <= nodes.len(),
                self.wf(),
                self.pending() == old(self).pending(),
                topo_insert_all(t0, ns) == topo_insert_all(self.topology_view(), ns.skip(i as int)),
            decreases nodes.len() - i,
        {
            proof {
                assert(ns.skip(i as int)[0] == ns[i as int]);
                assert(ns.skip(i as int).drop_first() =~= ns.skip(i as int + 1));
            }
            let node = nodes[i].clone();
            let present = topo_contains(&self.store.topology, &node);
            if !present {
                let ghost tv = self.topology_view();
                self.store.topology.push(node);
                proof {
                    assert(self.topology_view() =~= tv.push(ns[i as int]));
                    assert forall|a: int, b: int|
                        0 <= a < b < self.topology_view().len() implies self.topology_view()[a]
                        != self.topology_view()[b] by {
                        if b == self.topology_view().len() - 1 {
                            assert(!tv.contains(self.topology_view()[b]));
                        }
                    }
                }
            }
            i = i + 1;
        }
        proof {
            assert(ns.skip(i as int) =~= Seq::<Seq<char>>::empty());
        }
    }

    /// Creates one pending fan-out entry per topology peer other than the
    /// sender, each under a fresh transport id. Emission is left to the
    /// retry worker: the submission itself sends nothing.
    pub fn handle_broadcast(
        &mut self,
        parent_node_id: &str,
        message: Val,
        src: &str,
        uid: &mut UID,
        message_id: String,
    )
        requires
            old(self).wf(),
        ensures
            final(self).wf(),
            final(self).topology_view() == old(self).topology_view(),
            exists|ts: u64|
                (final(self).pending(), final(uid).counter()) == fanout(
                    old(self).pending(),
                    old(self).topology_view(),
                    src@,
                    parent_node_id@,
                    message@,
                    message_id@,
                    old(uid).counter(),
                    ts,
                ),
    {
        let ts = match unix_millis() {
            Some(t) => t,
            None => 0,
        };
        let src_own = src.to_owned();
        let ghost p0 = self.pending();
        let ghost topo = self.topology_view();
        let ghost c0 = uid.counter();
        proof {
            assert(topo.skip(0) =~= topo);
        }
        let mut i: usize = 0;
        #[verifier::loop_isolation(false)]
        while i < self.store.topology.len()
            invariant
                i <= self.store.topology.len(),
                self.wf(),
                src_own@ == src@,
                self.topology_view() == topo,
                fanout(p0, topo, src@, parent_node_id@, message@, message_id@, c0, ts) == fanout(
                    self.pending(),
                    topo.skip(i as int),
                    src@,
                    parent_node_id@,
                    message@,
                    message_id@,
                    uid.counter(),
                    ts,
                ),
            decreases self.store.topology.len() - i,
        {
            proof {
                assert(topo.skip(i as int)[0] == topo[i as int]);
                assert(topo.skip(i as int).drop_first() =~= topo.skip(i as int + 1));
            }
            if !self.store.topology[i].eq(&src_own) {
                match uid.generate_int_unique_id() {
                    Ok(id) => {
                        let entry = BMessage {
                            data: message.dup(),
                            dest: self.store.topology[i].clone(),
                            src: parent_node_id.to_owned(),
                            broadcast_event_message_id: id,
                            dist_message_id: message_id.clone(),
                            first_seen_at: ts,
                        };
                        self.store.db.add_message(id, entry);
                    },
                    Err(_) => {},
                }
            }
            i = i + 1;
        }
        proof {
            assert(topo.skip(i as int) =~= Seq::<Seq<char>>::empty());
        }
    }

    /// Builds the wire message for one pending entry.
    fn render_gossip(&self, data: &BMessage) -> (m: Message)
        ensures
            is_gossip_message(m, data@),
    {
        let mut fields: Vec<(String, Val)> = Vec::new();
        fields.push((String::from_str("d"), data.data.dup()));
        fields.push((String::from_str("d_id"), Val::Text(data.dist_message_id.clone())));
        let wire = Val::Obj(fields);
        proof {
            crate::value::lemma_fields_view_index(wire->Obj_0@);
            assert(wire@->Obj_0 =~= gossip_wire(data.data@, data.dist_message_id@)->Obj_0);
            assert(wire@ == gossip_wire(data.data@, data.dist_message_id@));
        }
        Message {
            src: data.src.clone(),
            dest: data.dest.clone(),
            body: Body {
                typ: Event::Broadcast {
                    broadcast: BroadcastEvent { message: wire },
                    shared: SharedEvent { msg_id: data.broadcast_event_message_id },
                },
            },
        }
    }

    /// One tick of the retry worker: a `broadcast` message for every pending
    /// entry, each re-emitted exactly once per tick until acknowledged.
    pub fn worker_tick(&self) -> (msgs: Vec<Message>)
        ensures
            msgs@.len() == self.pending().len(),
            forall|i: int|
                0 <= i < msgs@.len() ==> is_gossip_message(
                    #[trigger] msgs@[i],
                    self.pending()[i].1,
                ),
    {
        let snapshot = self.store.db.get_messages_as_value();
        let mut msgs: Vec<Message> = Vec::new();
        let mut i: usize = 0;
        #[verifier::loop_isolation(false)]
        while i < snapshot.len()
            invariant
                i <= snapshot.len(),
                msgs@.len() == i,
                forall|j: int|
                    0 <= j < i ==> is_gossip_message(#[trigger] msgs@[j], self.pending()[j].1),
            decreases snapshot.len() - i,
        {
            msgs.push(self.render_gossip(&snapshot[i]));
            i = i + 1;
        }
        msgs
    }

    /// Deletes the pending entry the peer acknowledged; an unknown transport
    /// id is ignored.
    pub fn handle_broadcast_ok(&mut self, message_id: u64)
        requires
            old(self).wf(),
        ensures
            final(self).wf(),
            final(self).pending() == assoc_remove(old(self).pending(), message_id),
            final(self).topology_view() == old(self).topology_view(),
    {
        self.store.db.delete_message(&message_id);
        proof {
            crate::db::lemma_assoc_remove_get(old(self).pending(), message_id, message_id);
            assert(assoc_unique(self.pending()));
            assert(self.topology_view() == old(self).topology_view());
        }
    }
}

/// Whether the peer set holds `n`.
fn topo_contains(t: &Vec<String>, n: &String) -> (r: bool)
    ensures
        r <==> node_views(t@).contains(n@),
{
    let ghost tv = node_views(t@);
    let mut i: usize = 0;
    #[verifier::loop_isolation(false)]
    while i < t.len()
        invariant
            i <= t.len(),
            forall|j: int| 0 <= j < i ==> tv[j] != n@,
        decreases t.len() - i,
    {
        if t[i].eq(n) {
            proof {
                assert(tv[i as int] == n@);
            }
            return true;
        }
        i = i + 1;
    }
    false
}

/// The broadcast subsystem as the dispatcher sees it. The original runs a
/// background task over the same store; here the store is sequential and the
/// I/O shell drives `worker_tick` on its own schedule.
pub struct Broadcast {
    service: Service,
}

impl Broadcast {
    pub closed spec fn topology_view(&self) -> Seq<Seq<char>> {
        self.service.topology_view()
    }

    pub closed spec fn pending(&self) -> Seq<(u64, BMessageV)> {
        self.service.pending()
    }

    pub closed spec fn wf(&self) -> bool {
        self.service.wf()
    }

    pub fn new() -> (r: Broadcast)
        ensures
            r.wf(),
            r.pending() == Seq::<(u64, BMessageV)>::empty(),
            r.topology_view() == Seq::<Seq<char>>::empty(),
    {
        Broadcast { service: Service::new() }
    }

    pub fn handle_broadcast(
        &mut self,
        parent_node_id: &str,
        message: Val,
        src: &str,
        uid: &mut UID,
        message_id: String,
    )
        requires
            old(self).wf(),
        ensures
            final(self).wf(),
            final(self).topology_view() == old(self).topology_view(),
            exists|ts: u64|
                (final(self).pending(), final(uid).counter()) == fanout(
                    old(self).pending(),
                    old(self).topology_view(),
                    src@,
                    parent_node_id@,
                    message@,
                    message_id@,
                    old(uid).counter(),
                    ts,
                ),
    {
        let ghost c0 = uid.counter();
        self.service.handle_broadcast(parent_node_id, message, src, uid, message_id);
        proof {
            let ts = choose|ts: u64|
                (self.service.pending(), uid.counter()) == fanout(
                    old(self).service.pending(),
                    old(self).service.topology_view(),
                    src@,
                    parent_node_id@,
                    message@,
                    message_id@,
                    c0,
                    ts,
                );
            assert((self.pending(), uid.counter()) == fanout(
                old(self).pending(),
                old(self).topology_view(),
                src@,
                parent_node_id@,
                message@,
                message_id@,
                c0,
                ts,
            ));
        }
    }

    pub fn set_topology(&mut self, nodes: Vec<String>)
        requires
            old(self).wf(),
        ensures
            final(self).wf(),
            final(self).topology_view() == topo_insert_all(
                old(self).topology_view(),
                node_views(nodes@),
            ),
            final(self).pending() == old(self).pending(),
    {
        self.service.set_topology(nodes)
    }

    pub fn handle_broadcast_ok(&mut self, message_id: u64)
        requires
            old(self).wf(),
        ensures
            final(self).wf(),
            final(self).pending() == assoc_remove(old(self).pending(), message_id),
            final(self).topology_view() == old(self).topology_view(),
    {
        self.service.handle_broadcast_ok(message_id)
    }

    /// See `Service::worker_tick`.
    pub fn worker_tick(&self) -> (msgs: Vec<Message>)
        ensures
            msgs@.len() == self.pending().len(),
            forall|i: int|
                0 <= i < msgs@.len() ==> is_gossip_message(
                    #[trigger] msgs@[i],
                    self.pending()[i].1,
                ),
    {
        self.service.worker_tick()
    }
}

/// Fan-out coverage: with enough counter space, every topology peer other
/// than the sender ends with a pending entry carrying the value, the
/// distributed id and a fresh transport id, and no pre-existing entry under
/// a smaller transport id is touched. This is the local step behind
/// at-least-once delivery: the retry worker re-emits each of these entries
/// until the peer acknowledges it.
pub proof fn lemma_fanout_covers(
    pending: Seq<(u64, BMessageV)>,
    topology: Seq<Seq<char>>,
    src: Seq<char>,
    me: Seq<char>,
    data: ValV,
    dist: Seq<char>,
    ctr: u64,
    ts: u64,
)
    requires
        ctr as int + topology.len() <= u64::MAX,
    ensures
        ({
            let (p2, c2) = fanout(pending, topology, src, me, data, dist, ctr, ts);
            &&& ctr <= c2
            &&& c2 as int <= ctr as int + topology.len()
            &&& forall|k: u64| k < ctr ==> assoc_get(p2, k) == assoc_get(pending, k)
            &&& forall|j: int|
                0 <= j < topology.len() && topology[j] != src ==> exists|c: u64|
                    ctr <= c < c2 && assoc_get(p2, c) == Some(
                        BMessageV {
                            data,
                            dest: #[trigger] topology[j],
                            src: me,
                            id: c,
                            dist,
                            first_seen_at: ts,
                        },
                    )
        }),
    decreases topology.len(),
{
    let (p2, c2) = fanout(pending, topology, src, me, data, dist, ctr, ts);
    if topology.len() == 0 {
    } else {
        let rest = topology.drop_first();
        assert(forall|i: int| 0 <= i < rest.len() ==> #[trigger] rest[i] == topology[i + 1]);
        if topology[0] == src {
            lemma_fanout_covers(pending, rest, src, me, data, dist, ctr, ts);
            assert forall|j: int| 0 <= j < topology.len() && topology[j] != src implies exists|
                c: u64,
            |
                ctr <= c < c2 && assoc_get(p2, c) == Some(
                    BMessageV {
                        data,
                        dest: #[trigger] topology[j],
                        src: me,
                        id: c,
                        dist,
                        first_seen_at: ts,
                    },
                ) by {
                assert(j > 0);
                assert(rest[j - 1] == topology[j]);
                let c = choose|c: u64|
                    ctr <= c < c2 && assoc_get(p2, c) == Some(
                        BMessageV {
                            data,
                            dest: rest[j - 1],
                            src: me,
                            id: c,
                            dist,
                            first_seen_at: ts,
                        },
                    );
                assert(ctr <= c < c2 && assoc_get(p2, c) == Some(
                    BMessageV { data, dest: topology[j], src: me, id: c, dist, first_seen_at: ts },
                ));
            }
        } else {
            assert(ctr < u64::MAX);
            let entry = BMessageV {
                data,
                dest: topology[0],
                src: me,
                id: ctr,
                dist,
                first_seen_at: ts,
            };
            let p1 = assoc_put(pending, ctr, entry);
            let next = (ctr + 1) as u64;
            lemma_fanout_covers(p1, rest, src, me, data, dist, next, ts);
            assert forall|k: u64| k < ctr implies assoc_get(p2, k) == assoc_get(pending, k) by {
                lemma_assoc_put_get(pending, ctr, entry, k);
            }
            assert(assoc_get(p2, ctr) == Some(entry)) by {
                lemma_assoc_put_get(pending, ctr, entry, ctr);
            }
            assert forall|j: int| 0 <= j < topology.len() && topology[j] != src implies exists|
                c: u64,
            |
                ctr <= c < c2 && assoc_get(p2, c) == Some(
                    BMessageV {
                        data,
                        dest: #[trigger] topology[j],
                        src: me,
                        id: c,
                        dist,
                        first_seen_at: ts,
                    },
                ) by {
                if j == 0 {
                    assert(ctr <= ctr < c2 && assoc_get(p2, ctr) == Some(
                        BMessageV {
                            data,
                            dest: topology[0],
                            src: me,
                            id: ctr,
                            dist,
                            first_seen_at: ts,
                        },
                    ));
                } else {
                    assert(rest[j - 1] == topology[j]);
                    let c = choose|c: u64|
                        next <= c < c2 && assoc_get(p2, c) == Some(
                            BMessageV {
                                data,
                                dest: rest[j - 1],
                                src: me,
                                id: c,
                                dist,
                                first_seen_at: ts,
                            },
                        );
                    assert(ctr <= c < c2 && assoc_get(p2, c) == Some(
                        BMessageV {
                            data,
                            dest: topology[j],
                            src: me,
                            id: c,
                            dist,
                            first_seen_at: ts,
                        },
                    ));
                }
            }
        }
    }
}

/// What the retry worker emits is recognized at the receiver: the gossip
/// wire shape for value `data` under distributed id `dist` classifies as an
/// internal gossip hop carrying exactly `dist` and `data`. Together with
/// `lemma_fanout_covers` this is the local step behind every node eventually
/// seeing a submitted value: each peer receives the value under the same
/// distributed id and deduplicates repeats by it.
pub proof fn lemma_classify_gossip_wire(data: ValV, dist: Seq<char>)
    ensures
        classify_gossip(gossip_wire(data, dist)) == Some((dist, data)),
{
    reveal_strlit("d");
    reveal_strlit("d_id");
    let fields = gossip_wire(data, dist)->Obj_0;
    assert(fields.len() == 2);
    assert(fields[0] == ("d"@, data));
    assert(fields[1] == ("d_id"@, ValV::Text(dist)));
    assert("d"@.len() == 1);
    assert("d_id"@.len() == 4);
    assert("d"@ != "d_id"@);
    reveal_with_fuel(obj_lookup, 3);
    assert(fields.drop_first() =~= seq![("d_id"@, ValV::Text(dist))]);
    assert(fields.drop_first().drop_first() =~= Seq::<(Seq<char>, ValV)>::empty());
    assert(obj_lookup(fields, "d_id"@) == Some(ValV::Text(dist)));
    assert(obj_lookup(fields, "d"@) == Some(data));
}

/// Before any topology is received the peer set is empty, and a fan-out over
/// an empty peer set creates no pending entry and consumes no counter value:
/// the submission is still acknowledged, only nothing is forwarded.
pub proof fn lemma_fanout_no_peers(
    pending: Seq<(u64, BMessageV)>,
    src: Seq<char>,
    me: Seq<char>,
    data: ValV,
    dist: Seq<char>,
    ctr: u64,
    ts: u64,
)
    ensures
        fanout(pending, Seq::empty(), src, me, data, dist, ctr, ts) == (pending, ctr),
{
}

} // verus!
