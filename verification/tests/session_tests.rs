//! Session bookkeeping, CREATE / READ_DATA / WRITE_DATA frames, incoming
//! frame decoding and the length prefix of the TCP stream.

use micro_xrce_dds_rs::{
    cdr::CdrWriter,
    cdr_reader::CdrReader,
    client_key_from_app_id,
    framing::{frame_prefix, incoming_len, incoming_len16},
    msg::std_msgs::Int32,
    publisher::publish_frame,
    rt::executor::{decode_frame, parse_status, FrameEvent},
    rt::inner::{CreateRequest, Frame, SessionState, FRAME_BUF_SIZE},
    Error, Message, RuntimeConfig,
};

const KEY: [u8; 4] = [0xBA, 0xCE, 0xA1, 0x05];

/// A message whose body is `n` raw bytes of value 7.
struct Blob(usize);

impl Message for Blob {
    const TYPE_NAME: &'static str = "test::msg::dds_::Blob_";
    const MAX_SERIALIZED_SIZE: usize = 1024;

    fn serialize(&self, w: &mut CdrWriter) {
        for _ in 0..self.0 {
            w.u8_val(7);
        }
    }

    fn deserialize(_r: &mut CdrReader<'_>) -> Result<Self, Error> {
        Err(Error::Deserialization)
    }
}

fn started() -> SessionState {
    let mut s = SessionState::new();
    s.set_session_identity(0x81, KEY);
    s
}

#[test]
fn frame_zero_is_empty() {
    let f = Frame::zero();
    assert_eq!(f.len, 0);
    assert!(f.bytes.iter().all(|&b| b == 0));
    assert_eq!(f.bytes.len(), FRAME_BUF_SIZE);
}

#[test]
fn counters_start_and_wrap() {
    let mut s = SessionState::new();
    assert_eq!(s.session_id(), 0);
    assert_eq!(s.next_seq(), 0);
    assert_eq!(s.next_seq(), 1);
    assert_eq!(s.next_req(), 1);
    assert_eq!(s.next_req(), 2);
    assert_eq!(s.alloc_participant(), 1);
    assert_eq!(s.alloc_participant(), 2);
    assert_eq!(s.alloc_topic(), 1);
    assert_eq!(s.alloc_publisher(), 1);
    assert_eq!(s.alloc_subscriber(), 1);
    assert_eq!(s.alloc_dw(), 1);
    assert_eq!(s.alloc_dr(), 1);
    // Request ids never hand out 0: after 65535 comes 1.
    let mut last = 0u16;
    for _ in 0..70_000 {
        last = s.next_req();
        assert_ne!(last, 0);
    }
    assert_eq!(last, ((2u32 + 70_000 - 1) % 65_535 + 1) as u16);
}

#[test]
fn create_before_start_is_refused() {
    let mut s = SessionState::new();
    let req = CreateRequest::Participant { oid: 0x0011, xml: "my_node" };
    assert_eq!(s.prepare_create(&req).err(), Some(Error::NotStarted));
    // Nothing was consumed.
    assert_eq!(s.next_seq(), 0);
}

#[test]
fn create_arms_for_its_request() {
    let mut s = started();
    let req = CreateRequest::Participant { oid: 0x0011, xml: "my_node" };
    let (frame, req_id) = s.prepare_create(&req).unwrap();
    assert_eq!(req_id, 1);
    assert_eq!(frame.len, 30);
    assert_eq!(&frame.bytes[0..8], &[0x81, 0x01, 0x00, 0x00, 0x01, 0x07, 0x16, 0x00]);
    assert!(s.status_is_awaited(1));
    assert!(!s.status_is_awaited(2));
    assert!(!s.status_is_awaited(0));
    s.disarm_creation();
    assert!(!s.status_is_awaited(1));

    let topic = CreateRequest::WithParent { oid: 0x0012, kind: 0x02, xml: "<dds/>", parent: 0x0011 };
    let (frame, req_id) = s.prepare_create(&topic).unwrap();
    assert_eq!(req_id, 2);
    // Sequence number 1 in the header, parent id at the end.
    assert_eq!(&frame.bytes[0..4], &[0x81, 0x01, 0x01, 0x00]);
    assert_eq!(&frame.bytes[frame.len - 2..frame.len], &[0x00, 0x11]);
}

#[test]
fn create_while_disconnected_is_refused_and_disarmed() {
    let mut s = started();
    s.set_disconnected();
    let req = CreateRequest::Participant { oid: 0x0011, xml: "n" };
    assert_eq!(s.prepare_create(&req).err(), Some(Error::Disconnected));
    assert!(!s.status_is_awaited(1));
    // The sequence number and request id were taken.
    assert_eq!(s.next_seq(), 1);
    assert_eq!(s.next_req(), 2);
}

#[test]
fn create_too_large_for_a_frame() {
    let mut s = started();
    let long = "x".repeat(600);
    let req = CreateRequest::Participant { oid: 0x0011, xml: &long };
    assert_eq!(s.prepare_create(&req).err(), Some(Error::BufferTooSmall));
}

#[test]
fn read_data_frame_bytes() {
    let mut s = started();
    let f = s.read_data_frame(0x0016);
    assert_eq!(f.len, 24);
    assert_eq!(
        &f.bytes[..24],
        &[0x81, 0x01, 0x00, 0x00, 0x08, 0x01, 0x10, 0x00, 0x00, 0x01, 0x00, 0x16, 0x01, 0x00, 0x00, 0x01, 0xFF, 0xFF,
            0xFF, 0xFF, 0xFF, 0xFF, 0x00, 0x00]
    );
}

#[test]
fn publish_frame_bytes() {
    let mut s = started();
    let f = publish_frame(&mut s, 0x0015, &Int32(-2)).unwrap();
    assert_eq!(f.len, 16);
    assert_eq!(
        &f.bytes[..16],
        &[0x81, 0x01, 0x00, 0x00, 0x07, 0x01, 0x08, 0x00, 0x00, 0x00, 0x00, 0x15, 0xFE, 0xFF, 0xFF, 0xFF]
    );
    // The next frame carries sequence number 1.
    let f = publish_frame(&mut s, 0x0015, &Int32(1)).unwrap();
    assert_eq!(&f.bytes[2..4], &[0x01, 0x00]);
}

#[test]
fn publish_frame_limits() {
    let mut s = started();
    // 12 bytes of headers leave 500 for the body.
    assert_eq!(publish_frame(&mut s, 0x0015, &Blob(500)).unwrap().len, 512);
    assert_eq!(publish_frame(&mut s, 0x0015, &Blob(501)).err(), Some(Error::BufferTooSmall));
    // The refused frame took no sequence number.
    assert_eq!(s.next_seq(), 1);
    s.set_disconnected();
    assert_eq!(publish_frame(&mut s, 0x0015, &Int32(1)).err(), Some(Error::Disconnected));
}

#[test]
fn incoming_frame_events() {
    // Header (4), DATA for 0x0016 with a 4-byte body, padding to 4, STATUS
    // for request 3 with OK_MATCHED, then a STATUS rejected with 0x80.
    let msg = [
        0x81, 0x01, 0x00, 0x00, //
        0x09, 0x01, 0x08, 0x00, 0x00, 0x00, 0x00, 0x16, 1, 2, 3, 4, //
        0x05, 0x01, 0x06, 0x00, 0x00, 0x03, 0x00, 0x11, 0x01, 0x00, //
        0x00, 0x00, //
        0x05, 0x01, 0x06, 0x00, 0x00, 0x04, 0x00, 0x12, 0x80, 0x00,
    ];
    let events = decode_frame(&msg, 0x81);
    assert_eq!(
        events,
        vec![
            FrameEvent::Data { dr_oid: 0x0016, body_start: 12, body_end: 16 },
            FrameEvent::Status { req_id: 3, result: Ok(()) },
            FrameEvent::Status { req_id: 4, result: Err(Error::AgentRejected(0x80)) },
        ]
    );
    assert_eq!(parse_status(&[0, 7, 0, 0]), None);
    assert_eq!(parse_status(&[0, 7, 0, 0, 0]), Some((7, Ok(()))));
}

#[test]
fn length_prefixes() {
    assert_eq!(frame_prefix(24), [24, 0, 0, 0]);
    assert_eq!(frame_prefix(0x0102_0304), [4, 3, 2, 1]);
    assert_eq!(incoming_len([24, 0, 0, 0], 128), Ok(24));
    assert_eq!(incoming_len([129, 0, 0, 0], 128), Err(Error::BufferTooSmall));
    assert_eq!(incoming_len16([0x00, 0x02], 512), Ok(512));
    assert_eq!(incoming_len16([0x01, 0x02], 512), Err(Error::BufferTooSmall));
    // What the writer announces, the reader takes back.
    assert_eq!(incoming_len(frame_prefix(300), 512), Ok(300));
    assert_eq!(incoming_len(frame_prefix(512), 512), Ok(512));
}

#[test]
fn client_key_is_fnv1a() {
    // FNV-1a 32-bit of "" is the offset basis 0x811c9dc5, of "a" 0xe40c292c.
    assert_eq!(client_key_from_app_id(""), [0xC5, 0x9D, 0x1C, 0x81]);
    assert_eq!(client_key_from_app_id("a"), [0x2C, 0x29, 0x0C, 0xE4]);
    assert_eq!(client_key_from_app_id("microros_hello"), client_key_from_app_id("microros_hello"));
    assert_ne!(client_key_from_app_id("microros_hello"), client_key_from_app_id("microros_hellp"));
}

#[test]
fn runtime_config_keeps_values() {
    let c = RuntimeConfig::new(0x81, KEY);
    assert_eq!(c.session_id, 0x81);
    assert_eq!(c.client_key, KEY);
}
