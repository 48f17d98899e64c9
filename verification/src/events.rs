//! The wire taxonomy: one `Message` per line on the wire, whose body is one
//! `Event`. Request kinds carry a `msg_id`; response kinds carry the
//! request's `msg_id` as `in_reply_to`.
//!
//! Payload maps that ride in bodies (topology, poll offsets) are field lists
//! in wire order, as an object's fields stand on the wire.

use crate::value::Val;
use vstd::prelude::*;

verus! {

#[derive(Debug, PartialEq, Eq)]
pub struct Message {
    pub src: String,
    pub dest: String,
    pub body: Body,
}

#[derive(Debug, PartialEq, Eq)]
pub struct Body {
    pub typ: Event,
}

#[derive(Debug, PartialEq, Eq)]
pub enum Event {
    Init { init: InitEvent, shared: SharedEvent },
    InitOk { event_response: EventResponse },
    Echo { echo: EchoEvent, shared: SharedEvent },
    EchoOk { event_response: EventResponse, echo: EchoEvent },
    Error { event_response: EventResponse, error: ErrorEvent },
    Topology { topology: TopologyEvent, shared: SharedEvent },
    TopologyOk { event_response: EventResponse },
    Broadcast { broadcast: BroadcastEvent, shared: SharedEvent },
    BroadcastOk { event_response: EventResponse },
    Read { read: ReadEvent },
    ReadOk { event_response: EventResponse, read_ok: ReadOkEvent },
    Unsupported { shared: SharedEvent },
    Generate { shared: SharedEvent },
    GenerateOk { event_response: EventResponse, generate_ok: GenerateOk },
    Send { send: SendEvent, shared: SharedEvent },
    SendOk { event_response: EventResponse, send_ok: SendOkEvent },
    Poll { poll: PollEvent, shared: SharedEvent },
    PollOk { event_response: EventResponse, poll_ok: PollOkEvent },
    CommitOffsets { commit_offsets: CommitOffsetsEvent, shared: SharedEvent },
    CommitOffsetsOk { event_response: EventResponse },
    ListCommittedOffsets { list_committed_offsets: ListCommittedOffsets, shared: SharedEvent },
    ListCommittedOffsetsOk {
        event_response: EventResponse,
        list_committed_offsets_ok: ListCommittedOffsetsOk,
    },
}

/// Fields shared by every request: its correlation identifier.
#[derive(Debug, PartialEq, Eq, Structural)]
pub struct SharedEvent {
    pub msg_id: u64,
}

/// Fields shared by every response: the request it answers.
#[derive(Debug, PartialEq, Eq, Structural)]
pub struct EventResponse {
    pub in_reply_to: u64,
}

#[derive(Debug, PartialEq, Eq)]
pub struct ErrorEvent {
    pub code: u64,
    pub text: String,
}

#[derive(Debug, PartialEq, Eq)]
pub struct GenerateOk {
    pub id: String,
}

#[derive(Debug, PartialEq, Eq)]
pub struct InitEvent {
    pub node_id: String,
    pub node_ids: Vec<String>,
}

#[derive(Debug, PartialEq, Eq)]
pub struct TopologyEvent {
    pub topology: Vec<(String, Vec<String>)>,
}

#[derive(Debug, PartialEq, Eq)]
pub struct EchoEvent {
    pub echo: String,
}

#[derive(Debug, PartialEq, Eq)]
pub struct BroadcastEvent {
    pub message: Val,
}

#[derive(Debug, PartialEq, Eq)]
pub struct ReadEvent {
    pub msg_id: u64,
}

#[derive(Debug, PartialEq, Eq)]
pub struct ReadOkEvent {
    pub messages: Vec<Val>,
}

#[derive(Debug, PartialEq, Eq)]
pub struct SendEvent {
    pub key: String,
    pub msg: Val,
}

#[derive(Debug, PartialEq, Eq, Structural)]
pub struct SendOkEvent {
    pub offset: u64,
}

#[derive(Debug, PartialEq, Eq)]
pub struct PollEvent {
    pub offsets: Vec<(String, u64)>,
}

#[derive(Debug, PartialEq, Eq)]
pub struct PollOkEvent {
    pub msgs: Vec<(String, Vec<(u64, Val)>)>,
}

#[derive(Debug, PartialEq, Eq)]
pub struct CommitOffsetsEvent {
    pub offsets: Vec<(String, u64)>,
}

#[derive(Debug, PartialEq, Eq)]
pub struct ListCommittedOffsets {
    pub keys: Vec<String>,
}

#[derive(Debug, PartialEq, Eq)]
pub struct ListCommittedOffsetsOk {
    pub offsets: Vec<(String, u64)>,
}

/// The correlation identifier a request carries; `None` for responses and
/// for `error`, which answer rather than ask.
pub open spec fn request_msg_id(m: Message) -> Option<u64> {
    match m.body.typ {
        Event::Init { init: _, shared } => Some(shared.msg_id),
        Event::Echo { echo: _, shared } => Some(shared.msg_id),
        Event::Topology { topology: _, shared } => Some(shared.msg_id),
        Event::Broadcast { broadcast: _, shared } => Some(shared.msg_id),
        Event::Read { read } => Some(read.msg_id),
        Event::Unsupported { shared } => Some(shared.msg_id),
        Event::Generate { shared } => Some(shared.msg_id),
        Event::Send { send: _, shared } => Some(shared.msg_id),
        Event::Poll { poll: _, shared } => Some(shared.msg_id),
        Event::CommitOffsets { commit_offsets: _, shared } => Some(shared.msg_id),
        Event::ListCommittedOffsets { list_committed_offsets: _, shared } => Some(shared.msg_id),
        _ => None,
    }
}

/// The request a response answers; `None` for requests.
pub open spec fn reply_in_reply_to(m: Message) -> Option<u64> {
    match m.body.typ {
        Event::InitOk { event_response } => Some(event_response.in_reply_to),
        Event::EchoOk { event_response, echo: _ } => Some(event_response.in_reply_to),
        Event::Error { event_response, error: _ } => Some(event_response.in_reply_to),
        Event::TopologyOk { event_response } => Some(event_response.in_reply_to),
        Event::BroadcastOk { event_response } => Some(event_response.in_reply_to),
        Event::ReadOk { event_response, read_ok: _ } => Some(event_response.in_reply_to),
        Event::GenerateOk { event_response, generate_ok: _ } => Some(event_response.in_reply_to),
        Event::SendOk { event_response, send_ok: _ } => Some(event_response.in_reply_to),
        Event::PollOk { event_response, poll_ok: _ } => Some(event_response.in_reply_to),
        Event::CommitOffsetsOk { event_response } => Some(event_response.in_reply_to),
        Event::ListCommittedOffsetsOk { event_response, list_committed_offsets_ok: _ } => Some(
            event_response.in_reply_to,
        ),
        _ => None,
    }
}

/// A reply built by a handler: origins left empty for the dispatcher to fill
/// by swapping the request's source and destination.
pub open spec fn blank_origins(m: Message) -> bool {
    m.src@ == Seq::<char>::empty() && m.dest@ == Seq::<char>::empty()
}

} // verus!
