//! How a node's entities come to exist on the agent: the step functions
//! behind node, publisher, subscription, service-client and service-server
//! creation.
//!
//! Each creation is a short sequence of exchanges. A step function takes the
//! session, the phase reached so far and the outcome of the last exchange
//! (the STATUS of a CREATE, or whether a registration in the dispatch table
//! succeeded), and returns the next phase and what the runtime has to do:
//! send a CREATE frame and wait for its STATUS, register a slot, send a
//! READ_DATA frame, or stop (done, or failed with an error). The first
//! failure ends the creation; a failed exchange leaves the session as it
//! was.

use vstd::prelude::*;
use vstd::string::StringSliceAdditionalSpecFns;
use crate::bounded::{text128_as_str, text256_as_str, text320_as_str, text448_as_str, text96_as_str};
use crate::error::Error;
use crate::node::{
    datareader_xml, datawriter_xml, participant_xml, spec_datareader_xml, spec_datawriter_xml,
    spec_participant_xml, spec_topic_xml, topic_xml, PUBLISHER_XML, SUBSCRIBER_XML,
};
use crate::protocol::{
    object_id, spec_object_id, ENTITY_DATAREADER, ENTITY_DATAWRITER, ENTITY_PARTICIPANT, ENTITY_PUBLISHER,
    ENTITY_REPLIER, ENTITY_REQUESTER, ENTITY_SUBSCRIBER, ENTITY_TOPIC,
};
use crate::rt::encode::{
    ros2_replier_xml, ros2_requester_xml, ros2_topic_name, spec_concat, spec_create_participant,
    spec_create_with_parent, spec_len_field, spec_msg_header_len, spec_session_header, spec_participant_payload, spec_read_data,
    spec_read_data_payload, spec_service_xml_pieces, spec_strip_slash, spec_with_parent_payload, SERVICE_XML_MAX, TOPIC_NAME_MAX,
};
use crate::rt::inner::{
    spec_req_out, spec_zero_frame, CreateRequest, Frame, SessionState, SessionView, FRAME_BUF_SIZE, MAX_SUBS,
};
use crate::wire::{be16, lemma_overwrite_index, overwrite};

verus! {

// ── Actions ──────────────────────────────────────────────────────────────────

/// What a creation step asks of the runtime.
pub enum CreationAction {
    /// Send `frame` (a CREATE) and report the STATUS answering `req_id`.
    SendCreate { frame: Frame, req_id: u16 },
    /// Put the slot of the entity `oid` in the dispatch table and report
    /// whether that succeeded.
    Register { oid: u16 },
    /// Send `frame` (a READ_DATA); no reply is awaited.
    SendReadData { frame: Frame },
    /// The creation is complete.
    Done,
    /// The creation stops with `error`.
    Fail { error: Error },
}

impl CreationAction {
    /// Whether the action sends a CREATE.
    pub fn is_send_create(&self) -> (b: bool)
        ensures
            b == (*self is SendCreate),
    {
        match self {
            CreationAction::SendCreate { .. } => true,
            _ => false,
        }
    }
}

/// The CREATE frame of an entity of kind `kind` under `parent`, described by
/// `xml`, built from the session `s`.
pub open spec fn spec_child_frame(s: SessionView, oid: u16, kind: u8, xml: Seq<u8>, parent: u16) -> Seq<u8> {
    let q = spec_req_out(s.req_id);
    spec_create_with_parent(s.session_id, s.seq, s.client_key, q, oid, kind, xml, parent,
        spec_len_field(spec_with_parent_payload(q, oid, kind, xml, parent)))
}

/// The CREATE frame of a participant (domain 0) described by `xml`, built
/// from the session `s`.
pub open spec fn spec_participant_frame(s: SessionView, oid: u16, xml: Seq<u8>) -> Seq<u8> {
    let q = spec_req_out(s.req_id);
    spec_create_participant(s.session_id, s.seq, s.client_key, q, oid, xml, 0,
        spec_len_field(spec_participant_payload(q, oid, xml, 0)))
}

/// Sending the CREATE whose complete frame is `full`: refused before the
/// session has started; otherwise a sequence number and a request id are
/// taken, and the frame is sent unless it does not fit or the transport is
/// down, in which cases the creation fails.
pub open spec fn spec_create_action(before: SessionView, full: Seq<u8>, a: CreationAction, after: SessionView) -> bool {
    if before.session_id == 0 {
        a == (CreationAction::Fail { error: Error::NotStarted }) && after == before
    } else {
        let q = spec_req_out(before.req_id);
        let advanced = SessionView { seq: before.seq.wrapping_add(1), req_id: q.wrapping_add(1), ..before };
        if full.len() > FRAME_BUF_SIZE {
            a == (CreationAction::Fail { error: Error::BufferTooSmall }) && after == advanced
        } else if before.disconnected {
            a == (CreationAction::Fail { error: Error::Disconnected }) && after == (SessionView {
                pending_req: 0,
                ..advanced
            })
        } else {
            a matches CreationAction::SendCreate { frame, req_id } && req_id == q && frame.len == full.len()
                && frame.bytes@ == overwrite(spec_zero_frame(), 0, full)
                && after == (SessionView { pending_req: q, ..advanced })
        }
    }
}

/// Sending the READ_DATA for `oid`: a sequence number and a request id are
/// taken.
pub open spec fn spec_read_data_action(before: SessionView, oid: u16, a: CreationAction, after: SessionView) -> bool {
    let q = spec_req_out(before.req_id);
    let full = spec_read_data(before.session_id, before.seq, before.client_key, q, oid);
    a matches CreationAction::SendReadData { frame } && frame.len == full.len()
        && frame.bytes@ == overwrite(spec_zero_frame(), 0, full)
        && after == (SessionView { seq: before.seq.wrapping_add(1), req_id: q.wrapping_add(1), ..before })
}

/// A CREATE step: the phase moves to `next` when the frame goes out and
/// stays at `stay` when the creation fails.
pub open spec fn spec_create_step<P>(before: SessionView, full: Seq<u8>, next: P, stay: P, r: (P, CreationAction),
    after: SessionView) -> bool {
    &&& spec_create_action(before, full, r.1, after)
    &&& r.0 == if r.1 is SendCreate { next } else { stay }
}

/// A step after an exchange: when the exchange failed the creation stops
/// with its error and nothing changes.
pub open spec fn spec_failed_exchange<P>(s: SessionView, phase: P, outcome: Result<(), Error>, r: (P, CreationAction),
    after: SessionView) -> bool {
    outcome matches Err(e) ==> (r == (phase, CreationAction::Fail { error: e }) && after == s)
}

/// Send a CREATE for `req`.
fn create_action(state: &mut SessionState, req: &CreateRequest) -> (a: CreationAction)
    requires
        req.xml_bytes().len() + 64 <= u32::MAX,
    ensures
        spec_create_action(old(state)@, req.spec_frame(old(state)@.session_id, old(state)@.seq,
            old(state)@.client_key, spec_req_out(old(state)@.req_id)), a, final(state)@),
{
    match state.prepare_create(req) {
        Ok((frame, req_id)) => CreationAction::SendCreate { frame, req_id },
        Err(error) => CreationAction::Fail { error },
    }
}

/// Send a CREATE for the entity `oid` of kind `kind` under `parent`.
fn create_child(state: &mut SessionState, oid: u16, kind: u8, xml: &str, parent: u16) -> (a: CreationAction)
    requires
        xml.spec_bytes().len() <= 448,
    ensures
        spec_create_action(old(state)@, spec_child_frame(old(state)@, oid, kind, xml.spec_bytes(), parent), a,
            final(state)@),
{
    create_action(state, &CreateRequest::WithParent { oid, kind, xml, parent })
}

/// Send the READ_DATA for `oid`.
fn read_data_action(state: &mut SessionState, oid: u16) -> (a: CreationAction)
    ensures
        spec_read_data_action(old(state)@, oid, a, final(state)@),
{
    CreationAction::SendReadData { frame: state.read_data_frame(oid) }
}

/// The DDS name of the ROS2 topic `topic`, and whether it fits.
pub open spec fn spec_dds_topic(topic: Seq<u8>) -> Seq<u8> {
    "rt/".spec_bytes() + spec_strip_slash(topic)
}

/// Whether the DDS name of `topic` fits in [`TOPIC_NAME_MAX`] bytes.
pub open spec fn spec_topic_fits(topic: Seq<u8>) -> bool {
    3 + spec_strip_slash(topic).len() <= TOPIC_NAME_MAX
}

// ── Node ─────────────────────────────────────────────────────────────────────

/// The entity indices of a node.
#[derive(Clone, Copy, PartialEq, Eq, Structural)]
pub struct NodeIds {
    pub participant_idx: u16,
    pub publisher_idx: u16,
    pub subscriber_idx: u16,
}

/// How far the creation of a node has come.
#[derive(Clone, Copy, PartialEq, Eq, Structural)]
pub enum NodePhase {
    Start,
    ParticipantSent { ids: NodeIds },
    PublisherSent { ids: NodeIds },
    SubscriberSent { ids: NodeIds },
}

/// One step of creating a node named `name`: its three indices are taken
/// at the start; then its participant, its default publisher under the
/// participant and its default subscriber under the participant are
/// created, in that order.
pub open spec fn spec_node_step(s: SessionView, phase: NodePhase, outcome: Result<(), Error>, name: Seq<u8>,
    r: (NodePhase, CreationAction), after: SessionView) -> bool {
    match phase {
        NodePhase::Start => {
            let ids = NodeIds {
                participant_idx: s.next_participant,
                publisher_idx: s.next_publisher,
                subscriber_idx: s.next_subscriber,
            };
            let s1 = SessionView {
                next_participant: s.next_participant.wrapping_add(1),
                next_publisher: s.next_publisher.wrapping_add(1),
                next_subscriber: s.next_subscriber.wrapping_add(1),
                ..s
            };
            spec_create_step(s1, spec_participant_frame(s1, spec_object_id(ids.participant_idx, ENTITY_PARTICIPANT),
                spec_participant_xml(name)), NodePhase::ParticipantSent { ids }, NodePhase::Start, r, after)
        },
        NodePhase::ParticipantSent { ids } => {
            &&& spec_failed_exchange(s, phase, outcome, r, after)
            &&& outcome is Ok ==> spec_create_step(s, spec_child_frame(s,
                spec_object_id(ids.publisher_idx, ENTITY_PUBLISHER), ENTITY_PUBLISHER, PUBLISHER_XML.spec_bytes(),
                spec_object_id(ids.participant_idx, ENTITY_PARTICIPANT)), NodePhase::PublisherSent { ids }, phase, r,
                after)
        },
        NodePhase::PublisherSent { ids } => {
            &&& spec_failed_exchange(s, phase, outcome, r, after)
            &&& outcome is Ok ==> spec_create_step(s, spec_child_frame(s,
                spec_object_id(ids.subscriber_idx, ENTITY_SUBSCRIBER), ENTITY_SUBSCRIBER, SUBSCRIBER_XML.spec_bytes(),
                spec_object_id(ids.participant_idx, ENTITY_PARTICIPANT)), NodePhase::SubscriberSent { ids }, phase, r,
                after)
        },
        NodePhase::SubscriberSent { ids } => {
            &&& spec_failed_exchange(s, phase, outcome, r, after)
            &&& outcome is Ok ==> (r == (phase, CreationAction::Done) && after == s)
        },
    }
}

/// One step of creating a node named `name` (see [`spec_node_step`]).
pub fn node_step(state: &mut SessionState, phase: NodePhase, outcome: Result<(), Error>, name: &str)
    -> (r: (NodePhase, CreationAction))
    ensures
        spec_node_step(old(state)@, phase, outcome, name.spec_bytes(), r, final(state)@),
{
    proof {
        reveal_strlit("<dds><publisher><name>default</name></publisher></dds>");
        reveal_strlit("<dds><subscriber><name>default</name></subscriber></dds>");
        vstd::string::is_ascii_spec_bytes(PUBLISHER_XML);
        vstd::string::is_ascii_spec_bytes(SUBSCRIBER_XML);
    }
    match phase {
        NodePhase::Start => {
            let participant_idx = state.alloc_participant();
            let publisher_idx = state.alloc_publisher();
            let subscriber_idx = state.alloc_subscriber();
            let ids = NodeIds { participant_idx, publisher_idx, subscriber_idx };
            let xml = participant_xml(name);
            let text = text128_as_str(&xml);
            let oid = object_id(participant_idx, ENTITY_PARTICIPANT);
            let a = create_action(state, &CreateRequest::Participant { oid, xml: text });
            if a.is_send_create() {
                (NodePhase::ParticipantSent { ids }, a)
            } else {
                (NodePhase::Start, a)
            }
        },
        NodePhase::ParticipantSent { ids } => {
            if let Err(error) = outcome {
                return (phase, CreationAction::Fail { error });
            }
            let a = create_child(state, object_id(ids.publisher_idx, ENTITY_PUBLISHER), ENTITY_PUBLISHER,
                PUBLISHER_XML, object_id(ids.participant_idx, ENTITY_PARTICIPANT));
            if a.is_send_create() {
                (NodePhase::PublisherSent { ids }, a)
            } else {
                (phase, a)
            }
        },
        NodePhase::PublisherSent { ids } => {
            if let Err(error) = outcome {
                return (phase, CreationAction::Fail { error });
            }
            let a = create_child(state, object_id(ids.subscriber_idx, ENTITY_SUBSCRIBER), ENTITY_SUBSCRIBER,
                SUBSCRIBER_XML, object_id(ids.participant_idx, ENTITY_PARTICIPANT));
            if a.is_send_create() {
                (NodePhase::SubscriberSent { ids }, a)
            } else {
                (phase, a)
            }
        },
        NodePhase::SubscriberSent { ids } => {
            if let Err(error) = outcome {
                return (phase, CreationAction::Fail { error });
            }
            (phase, CreationAction::Done)
        },
    }
}

// ── Publisher ────────────────────────────────────────────────────────────────

/// How far the creation of a publisher has come.
#[derive(Clone, Copy, PartialEq, Eq, Structural)]
pub enum PublisherPhase {
    Start,
    TopicSent,
    WriterSent { dw_oid: u16 },
}

/// One step of creating a publisher of `dds_type` on the ROS2 topic `topic`
/// for the node with indices `participant_idx` / `publisher_idx`: refused
/// when the DDS name does not fit; then the topic (next topic index, under
/// the participant) and the DataWriter (next writer index, under the
/// publisher) are created, the writer's index taken only once the topic
/// exists.
pub open spec fn spec_publisher_step(s: SessionView, phase: PublisherPhase, outcome: Result<(), Error>,
    participant_idx: u16, publisher_idx: u16, topic: Seq<u8>, dds_type: Seq<u8>, r: (PublisherPhase, CreationAction),
    after: SessionView) -> bool {
    let dds = spec_dds_topic(topic);
    match phase {
        PublisherPhase::Start => {
            &&& !spec_topic_fits(topic) ==> (r == (phase, CreationAction::Fail { error: Error::BufferTooSmall })
                && after == s)
            &&& spec_topic_fits(topic) ==> {
                let s1 = SessionView { next_topic: s.next_topic.wrapping_add(1), ..s };
                spec_create_step(s1, spec_child_frame(s1, spec_object_id(s.next_topic, ENTITY_TOPIC), ENTITY_TOPIC,
                    spec_topic_xml(dds, dds_type), spec_object_id(participant_idx, ENTITY_PARTICIPANT)),
                    PublisherPhase::TopicSent, phase, r, after)
            }
        },
        PublisherPhase::TopicSent => {
            &&& spec_failed_exchange(s, phase, outcome, r, after)
            &&& outcome is Ok && !spec_topic_fits(topic) ==> (r == (phase, CreationAction::Fail {
                error: Error::BufferTooSmall,
            }) && after == s)
            &&& outcome is Ok && spec_topic_fits(topic) ==> {
                let dw_oid = spec_object_id(s.next_dw, ENTITY_DATAWRITER);
                let s1 = SessionView { next_dw: s.next_dw.wrapping_add(1), ..s };
                spec_create_step(s1, spec_child_frame(s1, dw_oid, ENTITY_DATAWRITER, spec_datawriter_xml(dds, dds_type),
                    spec_object_id(publisher_idx, ENTITY_PUBLISHER)), PublisherPhase::WriterSent { dw_oid }, phase, r,
                    after)
            }
        },
        PublisherPhase::WriterSent { .. } => {
            &&& spec_failed_exchange(s, phase, outcome, r, after)
            &&& outcome is Ok ==> (r == (phase, CreationAction::Done) && after == s)
        },
    }
}

/// One step of creating a publisher (see [`spec_publisher_step`]).
pub fn publisher_step(
    state: &mut SessionState,
    phase: PublisherPhase,
    outcome: Result<(), Error>,
    participant_idx: u16,
    publisher_idx: u16,
    topic: &str,
    dds_type: &str,
) -> (r: (PublisherPhase, CreationAction))
    ensures
        spec_publisher_step(old(state)@, phase, outcome, participant_idx, publisher_idx, topic.spec_bytes(),
            dds_type.spec_bytes(), r, final(state)@),
{
    if let PublisherPhase::WriterSent { .. } = phase {
        if let Err(error) = outcome {
            return (phase, CreationAction::Fail { error });
        }
        return (phase, CreationAction::Done);
    }
    if let PublisherPhase::TopicSent = phase {
        if let Err(error) = outcome {
            return (phase, CreationAction::Fail { error });
        }
    }
    let dds = match ros2_topic_name(topic) {
        Ok(d) => d,
        Err(error) => return (phase, CreationAction::Fail { error }),
    };
    let dds_text = text96_as_str(&dds);
    match phase {
        PublisherPhase::Start => {
            let topic_oid = object_id(state.alloc_topic(), ENTITY_TOPIC);
            let xml = topic_xml(dds_text, dds_type);
            let a = create_child(state, topic_oid, ENTITY_TOPIC, text256_as_str(&xml),
                object_id(participant_idx, ENTITY_PARTICIPANT));
            if a.is_send_create() {
                (PublisherPhase::TopicSent, a)
            } else {
                (phase, a)
            }
        },
        _ => {
            let dw_oid = object_id(state.alloc_dw(), ENTITY_DATAWRITER);
            let xml = datawriter_xml(dds_text, dds_type);
            let a = create_child(state, dw_oid, ENTITY_DATAWRITER, text320_as_str(&xml),
                object_id(publisher_idx, ENTITY_PUBLISHER));
            if a.is_send_create() {
                (PublisherPhase::WriterSent { dw_oid }, a)
            } else {
                (phase, a)
            }
        },
    }
}

// ── Subscription ─────────────────────────────────────────────────────────────

/// How far the creation of a subscription has come.
#[derive(Clone, Copy, PartialEq, Eq, Structural)]
pub enum SubPhase {
    Start,
    TopicSent,
    ReaderSent { dr_oid: u16 },
    Registered { dr_oid: u16 },
    Streaming { dr_oid: u16 },
}

/// One step of creating a subscription of `dds_type` on the ROS2 topic
/// `topic` for the node with indices `participant_idx` / `subscriber_idx`,
/// while the dispatch table holds `table_len` slots: refused with
/// `TooManySubscriptions` when the table is full and with `BufferTooSmall`
/// when the DDS name does not fit, before anything is sent; then the topic
/// (next topic index, under the participant) and the DataReader (next reader
/// index, under the subscriber) are created, the reader's slot is
/// registered, and READ_DATA is sent for the reader.
pub open spec fn spec_subscription_step(s: SessionView, phase: SubPhase, table_len: usize, outcome: Result<(), Error>,
    participant_idx: u16, subscriber_idx: u16, topic: Seq<u8>, dds_type: Seq<u8>, r: (SubPhase, CreationAction),
    after: SessionView) -> bool {
    let dds = spec_dds_topic(topic);
    match phase {
        SubPhase::Start => {
            &&& table_len >= MAX_SUBS ==> (r == (phase, CreationAction::Fail { error: Error::TooManySubscriptions })
                && after == s)
            &&& table_len < MAX_SUBS && !spec_topic_fits(topic) ==> (r == (phase, CreationAction::Fail {
                error: Error::BufferTooSmall,
            }) && after == s)
            &&& table_len < MAX_SUBS && spec_topic_fits(topic) ==> {
                let s1 = SessionView { next_topic: s.next_topic.wrapping_add(1), ..s };
                spec_create_step(s1, spec_child_frame(s1, spec_object_id(s.next_topic, ENTITY_TOPIC), ENTITY_TOPIC,
                    spec_topic_xml(dds, dds_type), spec_object_id(participant_idx, ENTITY_PARTICIPANT)),
                    SubPhase::TopicSent, phase, r, after)
            }
        },
        SubPhase::TopicSent => {
            &&& spec_failed_exchange(s, phase, outcome, r, after)
            &&& outcome is Ok && !spec_topic_fits(topic) ==> (r == (phase, CreationAction::Fail {
                error: Error::BufferTooSmall,
            }) && after == s)
            &&& outcome is Ok && spec_topic_fits(topic) ==> {
                let dr_oid = spec_object_id(s.next_dr, ENTITY_DATAREADER);
                let s1 = SessionView { next_dr: s.next_dr.wrapping_add(1), ..s };
                spec_create_step(s1, spec_child_frame(s1, dr_oid, ENTITY_DATAREADER, spec_datareader_xml(dds, dds_type),
                    spec_object_id(subscriber_idx, ENTITY_SUBSCRIBER)), SubPhase::ReaderSent { dr_oid }, phase, r,
                    after)
            }
        },
        SubPhase::ReaderSent { dr_oid } => {
            &&& spec_failed_exchange(s, phase, outcome, r, after)
            &&& outcome is Ok ==> (r == (SubPhase::Registered { dr_oid }, CreationAction::Register { oid: dr_oid })
                && after == s)
        },
        SubPhase::Registered { dr_oid } => {
            &&& spec_failed_exchange(s, phase, outcome, r, after)
            &&& outcome is Ok ==> (r.0 == SubPhase::Streaming { dr_oid } && spec_read_data_action(s, dr_oid, r.1,
                after))
        },
        SubPhase::Streaming { .. } => r == (phase, CreationAction::Done) && after == s,
    }
}

/// One step of creating a subscription (see [`spec_subscription_step`]).
pub fn subscription_step(
    state: &mut SessionState,
    phase: SubPhase,
    table_len: usize,
    outcome: Result<(), Error>,
    participant_idx: u16,
    subscriber_idx: u16,
    topic: &str,
    dds_type: &str,
) -> (r: (SubPhase, CreationAction))
    ensures
        spec_subscription_step(old(state)@, phase, table_len, outcome, participant_idx, subscriber_idx,
            topic.spec_bytes(), dds_type.spec_bytes(), r, final(state)@),
{
    match phase {
        SubPhase::Streaming { .. } => {
            return (phase, CreationAction::Done);
        },
        SubPhase::Start => {
            if table_len >= MAX_SUBS {
                return (phase, CreationAction::Fail { error: Error::TooManySubscriptions });
            }
        },
        _ => {
            if let Err(error) = outcome {
                return (phase, CreationAction::Fail { error });
            }
        },
    }
    match phase {
        SubPhase::ReaderSent { dr_oid } => {
            return (SubPhase::Registered { dr_oid }, CreationAction::Register { oid: dr_oid });
        },
        SubPhase::Registered { dr_oid } => {
            return (SubPhase::Streaming { dr_oid }, read_data_action(state, dr_oid));
        },
        _ => {},
    }
    let dds = match ros2_topic_name(topic) {
        Ok(d) => d,
        Err(error) => return (phase, CreationAction::Fail { error }),
    };
    let dds_text = text96_as_str(&dds);
    match phase {
        SubPhase::Start => {
            let topic_oid = object_id(state.alloc_topic(), ENTITY_TOPIC);
            let xml = topic_xml(dds_text, dds_type);
            let a = create_child(state, topic_oid, ENTITY_TOPIC, text256_as_str(&xml),
                object_id(participant_idx, ENTITY_PARTICIPANT));
            if a.is_send_create() {
                (SubPhase::TopicSent, a)
            } else {
                (phase, a)
            }
        },
        _ => {
            let dr_oid = object_id(state.alloc_dr(), ENTITY_DATAREADER);
            let xml = datareader_xml(dds_text, dds_type);
            let a = create_child(state, dr_oid, ENTITY_DATAREADER, text320_as_str(&xml),
                object_id(subscriber_idx, ENTITY_SUBSCRIBER));
            if a.is_send_create() {
                (SubPhase::ReaderSent { dr_oid }, a)
            } else {
                (phase, a)
            }
        },
    }
}

// ── Service client and server ────────────────────────────────────────────────

/// How far the creation of a service client or server has come.
#[derive(Clone, Copy, PartialEq, Eq, Structural)]
pub enum ServicePhase {
    Start,
    EntitySent { oid: u16 },
    Registered { oid: u16 },
    Streaming { oid: u16 },
}

/// The description of a requester (`server` false) or replier (`server`
/// true) of `service_name`.
pub open spec fn spec_service_entity_xml(server: bool, service_name: Seq<u8>, request_type: Seq<u8>,
    reply_type: Seq<u8>) -> Seq<u8> {
    spec_concat(spec_service_xml_pieces(if server { "replier".spec_bytes() } else { "requester".spec_bytes() },
        service_name, request_type, reply_type))
}

/// One step of creating a service client (`server` false: a REQUESTER) or
/// server (`server` true: a REPLIER) for the node with participant index
/// `participant_idx`, while the dispatch table holds `table_len` slots:
/// refused with `TooManySubscriptions` when the table is full, before
/// anything is sent; then the next reader index is taken for the entity,
/// its description is refused with `BufferTooSmall` when it is longer than
/// [`SERVICE_XML_MAX`], the entity is created under the participant and its
/// slot registered; a server then sends READ_DATA for the entity.
pub open spec fn spec_service_step(s: SessionView, server: bool, phase: ServicePhase, table_len: usize,
    outcome: Result<(), Error>, participant_idx: u16, service_name: Seq<u8>, request_type: Seq<u8>,
    reply_type: Seq<u8>, r: (ServicePhase, CreationAction), after: SessionView) -> bool {
    match phase {
        ServicePhase::Start => {
            let kind = if server { ENTITY_REPLIER } else { ENTITY_REQUESTER };
            let oid = spec_object_id(s.next_dr, kind);
            let s1 = SessionView { next_dr: s.next_dr.wrapping_add(1), ..s };
            let xml = spec_service_entity_xml(server, service_name, request_type, reply_type);
            &&& table_len >= MAX_SUBS ==> (r == (phase, CreationAction::Fail { error: Error::TooManySubscriptions })
                && after == s)
            &&& table_len < MAX_SUBS && xml.len() > SERVICE_XML_MAX ==> (r == (phase, CreationAction::Fail {
                error: Error::BufferTooSmall,
            }) && after == s1)
            &&& table_len < MAX_SUBS && xml.len() <= SERVICE_XML_MAX ==> spec_create_step(s1, spec_child_frame(s1, oid,
                kind, xml, spec_object_id(participant_idx, ENTITY_PARTICIPANT)), ServicePhase::EntitySent { oid }, phase,
                r, after)
        },
        ServicePhase::EntitySent { oid } => {
            &&& spec_failed_exchange(s, phase, outcome, r, after)
            &&& outcome is Ok ==> (r == (ServicePhase::Registered { oid }, CreationAction::Register { oid })
                && after == s)
        },
        ServicePhase::Registered { oid } => {
            &&& spec_failed_exchange(s, phase, outcome, r, after)
            &&& outcome is Ok && !server ==> (r == (phase, CreationAction::Done) && after == s)
            &&& outcome is Ok && server ==> (r.0 == ServicePhase::Streaming { oid } && spec_read_data_action(s, oid,
                r.1, after))
        },
        ServicePhase::Streaming { .. } => r == (phase, CreationAction::Done) && after == s,
    }
}

fn service_step(
    state: &mut SessionState,
    server: bool,
    phase: ServicePhase,
    table_len: usize,
    outcome: Result<(), Error>,
    participant_idx: u16,
    service_name: &str,
    request_type: &str,
    reply_type: &str,
) -> (r: (ServicePhase, CreationAction))
    ensures
        spec_service_step(old(state)@, server, phase, table_len, outcome, participant_idx, service_name.spec_bytes(),
            request_type.spec_bytes(), reply_type.spec_bytes(), r, final(state)@),
{
    match phase {
        ServicePhase::Start => {
            if table_len >= MAX_SUBS {
                return (phase, CreationAction::Fail { error: Error::TooManySubscriptions });
            }
            let kind = if server { ENTITY_REPLIER } else { ENTITY_REQUESTER };
            let oid = object_id(state.alloc_dr(), kind);
            let xml = if server {
                ros2_replier_xml(service_name, request_type, reply_type)
            } else {
                ros2_requester_xml(service_name, request_type, reply_type)
            };
            let xml = match xml {
                Ok(x) => x,
                Err(error) => return (phase, CreationAction::Fail { error }),
            };
            let a = create_child(state, oid, kind, text448_as_str(&xml), object_id(participant_idx, ENTITY_PARTICIPANT));
            if a.is_send_create() {
                (ServicePhase::EntitySent { oid }, a)
            } else {
                (phase, a)
            }
        },
        ServicePhase::EntitySent { oid } => {
            if let Err(error) = outcome {
                return (phase, CreationAction::Fail { error });
            }
            (ServicePhase::Registered { oid }, CreationAction::Register { oid })
        },
        ServicePhase::Registered { oid } => {
            if let Err(error) = outcome {
                return (phase, CreationAction::Fail { error });
            }
            if server {
                (ServicePhase::Streaming { oid }, read_data_action(state, oid))
            } else {
                (phase, CreationAction::Done)
            }
        },
        ServicePhase::Streaming { .. } => (phase, CreationAction::Done),
    }
}

/// One step of creating a service client (see [`spec_service_step`] with
/// `server` false).
pub fn service_client_step(
    state: &mut SessionState,
    phase: ServicePhase,
    table_len: usize,
    outcome: Result<(), Error>,
    participant_idx: u16,
    service_name: &str,
    request_type: &str,
    reply_type: &str,
) -> (r: (ServicePhase, CreationAction))
    ensures
        spec_service_step(old(state)@, false, phase, table_len, outcome, participant_idx, service_name.spec_bytes(),
            request_type.spec_bytes(), reply_type.spec_bytes(), r, final(state)@),
{
    service_step(state, false, phase, table_len, outcome, participant_idx, service_name, request_type, reply_type)
}

/// One step of creating a service server (see [`spec_service_step`] with
/// `server` true).
pub fn service_server_step(
    state: &mut SessionState,
    phase: ServicePhase,
    table_len: usize,
    outcome: Result<(), Error>,
    participant_idx: u16,
    service_name: &str,
    request_type: &str,
    reply_type: &str,
) -> (r: (ServicePhase, CreationAction))
    ensures
        spec_service_step(old(state)@, true, phase, table_len, outcome, participant_idx, service_name.spec_bytes(),
            request_type.spec_bytes(), reply_type.spec_bytes(), r, final(state)@),
{
    service_step(state, true, phase, table_len, outcome, participant_idx, service_name, request_type, reply_type)
}

// ── What the CREATE frames of a creation name ─────────────────────────────────

/// `frame` is a CREATE (submessage id 1) in session `session_id` for the
/// entity `oid` of kind `kind` whose parent is `parent`: read straight from
/// its bytes (after the message header: submessage header, request id,
/// object id, kind, ..., and the parent's object id in the last two bytes).
pub open spec fn frame_creates(frame: Frame, session_id: u8, oid: u16, kind: u8, parent: u16) -> bool {
    let h = spec_msg_header_len(session_id);
    &&& h + 12 <= frame.len <= FRAME_BUF_SIZE
    &&& frame.bytes@[h] == 1u8
    &&& frame.bytes@.subrange(h + 6, h + 8) == be16(oid)
    &&& frame.bytes@[h + 8] == kind
    &&& frame.bytes@.subrange(frame.len - 2, frame.len as int) == be16(parent)
}

/// The layout of a create-with-parent frame.
proof fn lemma_child_frame_fields(s: SessionView, oid: u16, kind: u8, xml: Seq<u8>, parent: u16)
    requires
        s.client_key.len() == 4,
    ensures
        ({
            let full = spec_child_frame(s, oid, kind, xml, parent);
            let h = spec_msg_header_len(s.session_id);
            &&& full.len() >= h + 12
            &&& full[h] == 1u8
            &&& full.subrange(h + 6, h + 8) == be16(oid)
            &&& full[h + 8] == kind
            &&& full.subrange(full.len() - 2, full.len() as int) == be16(parent)
        }),
{
    let q = spec_req_out(s.req_id);
    let hdr = spec_session_header(s.session_id, 1, s.seq, s.client_key);
    let h = spec_msg_header_len(s.session_id);
    assert(hdr.len() == h);
    let payload = spec_with_parent_payload(q, oid, kind, xml, parent);
    let full = spec_child_frame(s, oid, kind, xml, parent);
    let lf = spec_len_field(payload);
    let sub = seq![1u8, 7u8] + crate::wire::le16(lf);
    assert(full =~= hdr + sub + payload);
    let head = be16(q) + be16(oid) + seq![kind, 2u8];
    assert(payload.len() >= 8);
    assert(full[h] == 1u8);
    assert(full.subrange(h + 6, h + 8) =~= be16(oid)) by {
        assert(full[h + 6] == payload[2]);
        assert(full[h + 7] == payload[3]);
    }
    assert(full[h + 8] == payload[4]);
    assert(full.subrange(full.len() - 2, full.len() as int) =~= be16(parent)) by {
        assert(full[full.len() - 2] == payload[payload.len() - 2]);
        assert(full[full.len() - 1] == payload[payload.len() - 1]);
    }
}

/// A sent CREATE action carries the bytes of `full`.
proof fn lemma_sent_frame(before: SessionView, full: Seq<u8>, a: CreationAction, after: SessionView)
    requires
        spec_create_action(before, full, a, after),
        a is SendCreate,
    ensures
        a->SendCreate_frame.len == full.len(),
        full.len() <= FRAME_BUF_SIZE,
        forall|i: int| 0 <= i < full.len() ==> #[trigger] a->SendCreate_frame.bytes@[i] == full[i],
{
    lemma_overwrite_index(spec_zero_frame(), 0, full);
}

/// A sent create-with-parent action names `oid`, `kind` and `parent` in its
/// bytes.
proof fn lemma_sent_child(before: SessionView, oid: u16, kind: u8, xml: Seq<u8>, parent: u16, a: CreationAction,
    after: SessionView)
    requires
        before.client_key.len() == 4,
        spec_create_action(before, spec_child_frame(before, oid, kind, xml, parent), a, after),
        a is SendCreate,
    ensures
        frame_creates(a->SendCreate_frame, before.session_id, oid, kind, parent),
{
    let full = spec_child_frame(before, oid, kind, xml, parent);
    lemma_child_frame_fields(before, oid, kind, xml, parent);
    lemma_sent_frame(before, full, a, after);
    let f = a->SendCreate_frame;
    let h = spec_msg_header_len(before.session_id);
    assert(f.bytes@.subrange(h + 6, h + 8) =~= full.subrange(h + 6, h + 8));
    assert(f.bytes@.subrange(f.len - 2, f.len as int) =~= full.subrange(full.len() - 2, full.len() as int));
}

/// A node's default publisher and default subscriber are both created under
/// the node's participant: the CREATE sent after the participant names the
/// publisher (kind PUBLISHER) and the one sent after the publisher names the
/// subscriber (kind SUBSCRIBER), each with the participant's object id as
/// parent.
pub proof fn lemma_node_children_under_participant(s: SessionView, phase: NodePhase, name: Seq<u8>,
    r: (NodePhase, CreationAction), after: SessionView)
    requires
        s.client_key.len() == 4,
        spec_node_step(s, phase, Ok(()), name, r, after),
        r.1 is SendCreate,
    ensures
        phase matches NodePhase::ParticipantSent { ids } ==> frame_creates(r.1->SendCreate_frame, s.session_id,
            spec_object_id(ids.publisher_idx, ENTITY_PUBLISHER), ENTITY_PUBLISHER,
            spec_object_id(ids.participant_idx, ENTITY_PARTICIPANT)),
        phase matches NodePhase::PublisherSent { ids } ==> frame_creates(r.1->SendCreate_frame, s.session_id,
            spec_object_id(ids.subscriber_idx, ENTITY_SUBSCRIBER), ENTITY_SUBSCRIBER,
            spec_object_id(ids.participant_idx, ENTITY_PARTICIPANT)),
{
    match phase {
        NodePhase::ParticipantSent { ids } => {
            lemma_sent_child(s, spec_object_id(ids.publisher_idx, ENTITY_PUBLISHER), ENTITY_PUBLISHER,
                PUBLISHER_XML.spec_bytes(), spec_object_id(ids.participant_idx, ENTITY_PARTICIPANT), r.1, after);
        },
        NodePhase::PublisherSent { ids } => {
            lemma_sent_child(s, spec_object_id(ids.subscriber_idx, ENTITY_SUBSCRIBER), ENTITY_SUBSCRIBER,
                SUBSCRIBER_XML.spec_bytes(), spec_object_id(ids.participant_idx, ENTITY_PARTICIPANT), r.1, after);
        },
        _ => {},
    }
}

/// A publisher's topic is created under the node's participant with the
/// next topic index, and its DataWriter under the node's publisher with the
/// next writer index.
pub proof fn lemma_publisher_entities_parents(s: SessionView, phase: PublisherPhase, participant_idx: u16,
    publisher_idx: u16, topic: Seq<u8>, dds_type: Seq<u8>, r: (PublisherPhase, CreationAction), after: SessionView)
    requires
        s.client_key.len() == 4,
        spec_publisher_step(s, phase, Ok(()), participant_idx, publisher_idx, topic, dds_type, r, after),
        r.1 is SendCreate,
    ensures
        phase is Start ==> frame_creates(r.1->SendCreate_frame, s.session_id, spec_object_id(s.next_topic, ENTITY_TOPIC),
            ENTITY_TOPIC, spec_object_id(participant_idx, ENTITY_PARTICIPANT)),
        phase is TopicSent ==> frame_creates(r.1->SendCreate_frame, s.session_id, spec_object_id(s.next_dw, ENTITY_DATAWRITER),
            ENTITY_DATAWRITER, spec_object_id(publisher_idx, ENTITY_PUBLISHER)),
{
    let dds = spec_dds_topic(topic);
    match phase {
        PublisherPhase::Start => {
            let s1 = SessionView { next_topic: s.next_topic.wrapping_add(1), ..s };
            lemma_sent_child(s1, spec_object_id(s.next_topic, ENTITY_TOPIC), ENTITY_TOPIC,
                spec_topic_xml(dds, dds_type), spec_object_id(participant_idx, ENTITY_PARTICIPANT), r.1, after);
        },
        PublisherPhase::TopicSent => {
            let s1 = SessionView { next_dw: s.next_dw.wrapping_add(1), ..s };
            lemma_sent_child(s1, spec_object_id(s.next_dw, ENTITY_DATAWRITER), ENTITY_DATAWRITER,
                spec_datawriter_xml(dds, dds_type), spec_object_id(publisher_idx, ENTITY_PUBLISHER), r.1, after);
        },
        _ => {},
    }
}

/// A subscription's topic is created under the node's participant with the
/// next topic index, and its DataReader under the node's subscriber with
/// the next reader index.
pub proof fn lemma_subscription_entities_parents(s: SessionView, phase: SubPhase, table_len: usize,
    participant_idx: u16, subscriber_idx: u16, topic: Seq<u8>, dds_type: Seq<u8>, r: (SubPhase, CreationAction),
    after: SessionView)
    requires
        s.client_key.len() == 4,
        spec_subscription_step(s, phase, table_len, Ok(()), participant_idx, subscriber_idx, topic, dds_type, r,
            after),
        r.1 is SendCreate,
    ensures
        phase is Start ==> frame_creates(r.1->SendCreate_frame, s.session_id, spec_object_id(s.next_topic, ENTITY_TOPIC),
            ENTITY_TOPIC, spec_object_id(participant_idx, ENTITY_PARTICIPANT)),
        phase is TopicSent ==> frame_creates(r.1->SendCreate_frame, s.session_id, spec_object_id(s.next_dr, ENTITY_DATAREADER),
            ENTITY_DATAREADER, spec_object_id(subscriber_idx, ENTITY_SUBSCRIBER)),
{
    let dds = spec_dds_topic(topic);
    match phase {
        SubPhase::Start => {
            let s1 = SessionView { next_topic: s.next_topic.wrapping_add(1), ..s };
            lemma_sent_child(s1, spec_object_id(s.next_topic, ENTITY_TOPIC), ENTITY_TOPIC,
                spec_topic_xml(dds, dds_type), spec_object_id(participant_idx, ENTITY_PARTICIPANT), r.1, after);
        },
        SubPhase::TopicSent => {
            let s1 = SessionView { next_dr: s.next_dr.wrapping_add(1), ..s };
            lemma_sent_child(s1, spec_object_id(s.next_dr, ENTITY_DATAREADER), ENTITY_DATAREADER,
                spec_datareader_xml(dds, dds_type), spec_object_id(subscriber_idx, ENTITY_SUBSCRIBER), r.1, after);
        },
        _ => {},
    }
}

/// A service client's REQUESTER and a service server's REPLIER are created
/// under the node's participant with the next reader index.
pub proof fn lemma_service_entity_parent(s: SessionView, server: bool, table_len: usize, participant_idx: u16,
    service_name: Seq<u8>, request_type: Seq<u8>, reply_type: Seq<u8>, r: (ServicePhase, CreationAction),
    after: SessionView)
    requires
        s.client_key.len() == 4,
        spec_service_step(s, server, ServicePhase::Start, table_len, Ok(()), participant_idx, service_name,
            request_type, reply_type, r, after),
        r.1 is SendCreate,
    ensures
        frame_creates(r.1->SendCreate_frame, s.session_id, spec_object_id(s.next_dr, if server { ENTITY_REPLIER } else {
            ENTITY_REQUESTER }), if server { ENTITY_REPLIER } else { ENTITY_REQUESTER },
            spec_object_id(participant_idx, ENTITY_PARTICIPANT)),
{
    let kind = if server { ENTITY_REPLIER } else { ENTITY_REQUESTER };
    let s1 = SessionView { next_dr: s.next_dr.wrapping_add(1), ..s };
    lemma_sent_child(s1, spec_object_id(s.next_dr, kind), kind, spec_service_entity_xml(server, service_name,
        request_type, reply_type), spec_object_id(participant_idx, ENTITY_PARTICIPANT), r.1, after);
}

/// `frame` is a READ_DATA (submessage id 8) in session `session_id` asking
/// the agent to stream samples of `oid` (the object id after the request
/// id).
pub open spec fn frame_reads(frame: Frame, session_id: u8, oid: u16) -> bool {
    let h = spec_msg_header_len(session_id);
    &&& h + 8 <= frame.len <= FRAME_BUF_SIZE
    &&& frame.bytes@[h] == 8u8
    &&& frame.bytes@.subrange(h + 6, h + 8) == be16(oid)
}

/// A sent READ_DATA action asks for `oid`.
proof fn lemma_sent_read_data(before: SessionView, oid: u16, a: CreationAction, after: SessionView)
    requires
        before.client_key.len() == 4,
        spec_read_data_action(before, oid, a, after),
    ensures
        frame_reads(a->SendReadData_frame, before.session_id, oid),
{
    let q = spec_req_out(before.req_id);
    let full = spec_read_data(before.session_id, before.seq, before.client_key, q, oid);
    let hdr = spec_session_header(before.session_id, 1, before.seq, before.client_key);
    let h = spec_msg_header_len(before.session_id);
    assert(hdr.len() == h);
    let payload = spec_read_data_payload(q, oid);
    assert(full =~= hdr + (seq![8u8, 1u8] + crate::wire::le16(16)) + payload);
    lemma_overwrite_index(spec_zero_frame(), 0, full);
    let f = a->SendReadData_frame;
    assert(f.bytes@[h] == full[h]);
    assert(f.bytes@.subrange(h + 6, h + 8) =~= be16(oid)) by {
        assert(f.bytes@[h + 6] == full[h + 6]);
        assert(f.bytes@[h + 7] == full[h + 7]);
        assert(full[h + 6] == payload[2]);
        assert(full[h + 7] == payload[3]);
    }
}

/// A subscription registers, and asks the agent to stream, the very
/// DataReader it created: the phase after the reader's CREATE holds the
/// object id that CREATE names, the next step registers exactly that id,
/// and the one after sends READ_DATA for it.
pub proof fn lemma_subscription_serves_its_reader(s: SessionView, phase: SubPhase, table_len: usize,
    participant_idx: u16, subscriber_idx: u16, topic: Seq<u8>, dds_type: Seq<u8>, r: (SubPhase, CreationAction),
    after: SessionView)
    requires
        s.client_key.len() == 4,
        spec_subscription_step(s, phase, table_len, Ok(()), participant_idx, subscriber_idx, topic, dds_type, r,
            after),
    ensures
        phase is TopicSent && r.1 is SendCreate ==> r.0 == (SubPhase::ReaderSent {
            dr_oid: spec_object_id(s.next_dr, ENTITY_DATAREADER),
        }),
        phase matches SubPhase::ReaderSent { dr_oid } ==> r.1 == (CreationAction::Register { oid: dr_oid }),
        phase matches SubPhase::Registered { dr_oid } ==> frame_reads(r.1->SendReadData_frame, s.session_id, dr_oid),
{
    if let SubPhase::Registered { dr_oid } = phase {
        lemma_sent_read_data(s, dr_oid, r.1, after);
    }
}

/// A service server registers, and asks the agent to stream requests of,
/// the very REPLIER it created.
pub proof fn lemma_service_server_serves_its_replier(s: SessionView, phase: ServicePhase, table_len: usize,
    participant_idx: u16, service_name: Seq<u8>, request_type: Seq<u8>, reply_type: Seq<u8>,
    r: (ServicePhase, CreationAction), after: SessionView)
    requires
        s.client_key.len() == 4,
        spec_service_step(s, true, phase, table_len, Ok(()), participant_idx, service_name, request_type, reply_type,
            r, after),
    ensures
        phase is Start && r.1 is SendCreate ==> r.0 == (ServicePhase::EntitySent {
            oid: spec_object_id(s.next_dr, ENTITY_REPLIER),
        }),
        phase matches ServicePhase::EntitySent { oid } ==> r.1 == (CreationAction::Register { oid }),
        phase matches ServicePhase::Registered { oid } ==> frame_reads(r.1->SendReadData_frame, s.session_id, oid),
{
    if let ServicePhase::Registered { oid } = phase {
        lemma_sent_read_data(s, oid, r.1, after);
    }
}

} // verus!
