//! Entity creation step by step, and the client side of a service call.

use micro_xrce_dds_rs::{
    creation::{
        node_step, publisher_step, service_client_step, service_server_step, subscription_step, CreationAction,
        NodePhase, PublisherPhase, ServicePhase, SubPhase,
    },
    msg::std_msgs::Int32,
    protocol::{object_id, ENTITY_DATAREADER, ENTITY_DATAWRITER, ENTITY_REPLIER, ENTITY_REQUESTER},
    rt::inner::SessionState,
    service::{begin_call, end_call, CallState},
    Error,
};

const KEY: [u8; 4] = [0xBA, 0xCE, 0xA1, 0x05];

fn started() -> SessionState {
    let mut s = SessionState::new();
    s.set_session_identity(0x81, KEY);
    s
}

/// The request id of a CREATE action, or `None` for any other action.
fn create_req(a: &CreationAction) -> Option<u16> {
    match a {
        CreationAction::SendCreate { req_id, .. } => Some(*req_id),
        _ => None,
    }
}

/// Whether the frame of a CREATE action contains `needle`.
fn create_contains(a: &CreationAction, needle: &[u8]) -> bool {
    match a {
        CreationAction::SendCreate { frame, .. } => {
            frame.bytes[..frame.len].windows(needle.len()).any(|w| w == needle)
        }
        _ => false,
    }
}

#[test]
fn subscription_refused_when_table_full() {
    let mut s = started();
    let (phase, a) = subscription_step(&mut s, SubPhase::Start, 8, Ok(()), 1, 1, "/chatter", "T_");
    assert!(phase == SubPhase::Start);
    assert!(matches!(a, CreationAction::Fail { error: Error::TooManySubscriptions }));
    // Nothing was taken: the next CREATE still gets request id 1.
    let (_, a) = subscription_step(&mut s, SubPhase::Start, 7, Ok(()), 1, 1, "/chatter", "T_");
    assert_eq!(create_req(&a), Some(1));
}

#[test]
fn subscription_runs_topic_reader_register_read_data() {
    let mut s = started();
    let (phase, a) = subscription_step(&mut s, SubPhase::Start, 0, Ok(()), 1, 1, "/chatter", "std_msgs::msg::dds_::String_");
    assert!(phase == SubPhase::TopicSent);
    assert_eq!(create_req(&a), Some(1));
    assert!(create_contains(&a, b"<dds><topic><name>rt/chatter</name>"));

    let (phase, a) = subscription_step(&mut s, phase, 0, Ok(()), 1, 1, "/chatter", "std_msgs::msg::dds_::String_");
    let dr_oid = object_id(1, ENTITY_DATAREADER);
    assert!(phase == SubPhase::ReaderSent { dr_oid });
    assert_eq!(create_req(&a), Some(2));
    assert!(create_contains(&a, b"<dds><data_reader>"));

    let (phase, a) = subscription_step(&mut s, phase, 0, Ok(()), 1, 1, "/chatter", "std_msgs::msg::dds_::String_");
    assert!(phase == SubPhase::Registered { dr_oid });
    assert!(matches!(a, CreationAction::Register { oid } if oid == dr_oid));

    let (phase, a) = subscription_step(&mut s, phase, 1, Ok(()), 1, 1, "/chatter", "std_msgs::msg::dds_::String_");
    assert!(phase == SubPhase::Streaming { dr_oid });
    match a {
        CreationAction::SendReadData { frame } => {
            // READ_DATA submessage (id 8) for the reader.
            assert_eq!(frame.bytes[4], 8);
            assert_eq!(frame.len, 24);
        }
        _ => panic!("expected READ_DATA"),
    }

    let (_, a) = subscription_step(&mut s, phase, 1, Ok(()), 1, 1, "/chatter", "std_msgs::msg::dds_::String_");
    assert!(matches!(a, CreationAction::Done));
}

#[test]
fn failed_exchange_stops_creation() {
    let mut s = started();
    let (phase, _) = subscription_step(&mut s, SubPhase::Start, 0, Ok(()), 1, 1, "/t", "T_");
    let (phase2, a) = subscription_step(&mut s, phase, 0, Err(Error::AgentRejected(0x80)), 1, 1, "/t", "T_");
    assert!(phase2 == phase);
    assert!(matches!(a, CreationAction::Fail { error: Error::AgentRejected(0x80) }));
}

#[test]
fn creation_before_start_is_refused() {
    let mut s = SessionState::new();
    let (phase, a) = publisher_step(&mut s, PublisherPhase::Start, Ok(()), 1, 1, "/t", "T_");
    assert!(phase == PublisherPhase::Start);
    assert!(matches!(a, CreationAction::Fail { error: Error::NotStarted }));
}

#[test]
fn publisher_runs_topic_then_writer() {
    let mut s = started();
    let (phase, a) = publisher_step(&mut s, PublisherPhase::Start, Ok(()), 1, 1, "t", "T_");
    assert!(phase == PublisherPhase::TopicSent);
    assert!(create_contains(&a, b"rt/t"));
    let (phase, a) = publisher_step(&mut s, phase, Ok(()), 1, 1, "t", "T_");
    assert!(phase == PublisherPhase::WriterSent { dw_oid: object_id(1, ENTITY_DATAWRITER) });
    assert!(create_contains(&a, b"<dds><data_writer>"));
    let (_, a) = publisher_step(&mut s, phase, Ok(()), 1, 1, "t", "T_");
    assert!(matches!(a, CreationAction::Done));
}

#[test]
fn publisher_refuses_long_topic_name() {
    let mut s = started();
    let long = "x".repeat(94);
    let (_, a) = publisher_step(&mut s, PublisherPhase::Start, Ok(()), 1, 1, &long, "T_");
    assert!(matches!(a, CreationAction::Fail { error: Error::BufferTooSmall }));
}

#[test]
fn node_creates_participant_publisher_subscriber() {
    let mut s = started();
    let (phase, a) = node_step(&mut s, NodePhase::Start, Ok(()), "talker");
    assert!(create_contains(&a, b"<name>talker</name>"));
    let (phase, a) = node_step(&mut s, phase, Ok(()), "talker");
    assert!(create_contains(&a, b"<dds><publisher>"));
    let (phase, a) = node_step(&mut s, phase, Ok(()), "talker");
    assert!(create_contains(&a, b"<dds><subscriber>"));
    let (phase, a) = node_step(&mut s, phase, Ok(()), "talker");
    assert!(matches!(a, CreationAction::Done));
    match phase {
        NodePhase::SubscriberSent { ids } => {
            assert_eq!((ids.participant_idx, ids.publisher_idx, ids.subscriber_idx), (1, 1, 1));
        }
        _ => panic!("unexpected phase"),
    }
}

#[test]
fn service_client_and_server_entities() {
    let mut s = started();
    let (phase, a) = service_client_step(&mut s, ServicePhase::Start, 0, Ok(()), 1, "/add", "Rq_", "Rp_");
    let oid = object_id(1, ENTITY_REQUESTER);
    assert!(phase == ServicePhase::EntitySent { oid });
    assert!(create_contains(&a, b"<dds><requester "));
    let (phase, a) = service_client_step(&mut s, phase, 0, Ok(()), 1, "/add", "Rq_", "Rp_");
    assert!(matches!(a, CreationAction::Register { oid: o } if o == oid));
    let (_, a) = service_client_step(&mut s, phase, 1, Ok(()), 1, "/add", "Rq_", "Rp_");
    assert!(matches!(a, CreationAction::Done));

    let (phase, a) = service_server_step(&mut s, ServicePhase::Start, 1, Ok(()), 1, "/add", "Rq_", "Rp_");
    let oid = object_id(2, ENTITY_REPLIER);
    assert!(phase == ServicePhase::EntitySent { oid });
    assert!(create_contains(&a, b"<dds><replier "));
    let (phase, _) = service_server_step(&mut s, phase, 1, Ok(()), 1, "/add", "Rq_", "Rp_");
    let (phase, a) = service_server_step(&mut s, phase, 2, Ok(()), 1, "/add", "Rq_", "Rp_");
    assert!(phase == ServicePhase::Streaming { oid });
    assert!(matches!(a, CreationAction::SendReadData { .. }));
}

#[test]
fn service_entity_refused_when_table_full_or_xml_too_long() {
    let mut s = started();
    let (_, a) = service_client_step(&mut s, ServicePhase::Start, 8, Ok(()), 1, "/add", "Rq_", "Rp_");
    assert!(matches!(a, CreationAction::Fail { error: Error::TooManySubscriptions }));
    let long = "n".repeat(400);
    let (_, a) = service_server_step(&mut s, ServicePhase::Start, 0, Ok(()), 1, &long, "Rq_", "Rp_");
    assert!(matches!(a, CreationAction::Fail { error: Error::BufferTooSmall }));
}

#[test]
fn call_takes_nonzero_sequence_and_ends() {
    let mut s = started();
    let mut call = CallState::new();
    let guid = [3u8; 16];
    let frame = begin_call(&mut call, &mut s, 0x17, guid, &Int32(5)).unwrap();
    assert_eq!((call.last_seq, call.pending), (1, 1));
    // Identity (GUID then sequence number 1) right after the headers.
    assert_eq!(&frame.bytes[12..28], &guid);
    assert_eq!(&frame.bytes[28..36], &1i64.to_le_bytes());
    end_call(&mut call);
    assert_eq!((call.last_seq, call.pending), (1, 0));

    // After a wrap the sequence number skips 0.
    call.last_seq = -1;
    begin_call(&mut call, &mut s, 0x17, guid, &Int32(5)).unwrap();
    assert_eq!((call.last_seq, call.pending), (1, 1));
}

#[test]
fn call_refused_while_disconnected() {
    let mut s = started();
    s.set_disconnected();
    let mut call = CallState::new();
    assert!(matches!(begin_call(&mut call, &mut s, 0x17, [0u8; 16], &Int32(5)), Err(Error::Disconnected)));
    assert_eq!((call.last_seq, call.pending), (0, 0));
}
