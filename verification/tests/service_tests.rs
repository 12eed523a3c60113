//! Service-layer tests: SampleIdentity CDR, the decoding of reply and
//! request samples, and the reply frame.

use micro_xrce_dds_rs::{
    cdr::CdrWriter,
    cdr_reader::CdrReader,
    rt::inner::SessionState,
    service::{decode_reply, decode_request, derive_writer_guid, next_sample_seq, reply_frame},
    Error, Message, SampleIdentity, Service,
};

/// `std_msgs/Float32`, carried as the bits of its IEEE-754 value.
struct Float32(f32);

impl Message for Float32 {
    const TYPE_NAME: &'static str = "std_msgs::msg::dds_::Float32_";
    const MAX_SERIALIZED_SIZE: usize = 4;

    fn serialize(&self, w: &mut CdrWriter) {
        w.u32_val(self.0.to_bits());
    }

    fn deserialize(r: &mut CdrReader<'_>) -> Result<Self, Error> {
        Ok(Float32(f32::from_bits(r.u32_val()?)))
    }
}

struct PingPong;
impl Service for PingPong {
    type Request = Float32;
    type Response = Float32;
    const SERVICE_NAME: &'static str = "/pingpong";
    const REQUEST_TYPE_NAME: &'static str = "test::srv::dds_::PingPong_Request_";
    const RESPONSE_TYPE_NAME: &'static str = "test::srv::dds_::PingPong_Response_";
}

/// A service body: SampleIdentity + Float32.
fn service_body(seq: i64, payload: f32) -> [u8; 28] {
    let mut buf = [0u8; 28];
    let mut w = CdrWriter::new(&mut buf);
    SampleIdentity { writer_guid: *b"GUID-0123456789X", sequence_number: seq }.serialize(&mut w);
    Float32(payload).serialize(&mut w);
    let n = w.bytes_written();
    assert_eq!(n, 28, "body should be 16 GUID + 8 i64 + 4 f32");
    buf
}

#[test]
fn sample_identity_round_trip() {
    let id = SampleIdentity {
        writer_guid: [
            0x01, 0x02, 0x03, 0x04, 0x05, 0x06, 0x07, 0x08, 0x09, 0x0A, 0x0B, 0x0C, 0x0D, 0x0E, 0x0F, 0x10,
        ],
        sequence_number: 0x1122_3344_5566_7788,
    };
    let mut buf = [0u8; 32];
    let n = {
        let mut w = CdrWriter::new(&mut buf);
        id.serialize(&mut w);
        w.bytes_written()
    };
    assert_eq!(n, SampleIdentity::SERIALIZED_LEN);
    assert_eq!(n, 24);
    assert_eq!(&buf[0..16], &id.writer_guid);
    assert_eq!(&buf[16..24], &(0x1122_3344_5566_7788i64).to_le_bytes());

    let mut r = CdrReader::from_body(&buf[..n]);
    let id2 = SampleIdentity::deserialize(&mut r).unwrap();
    assert_eq!(id2, id);
}

#[test]
fn service_client_slot_matches_sequence() {
    // No pending call yet → the reply is dropped.
    let body = service_body(42, 3.5);
    assert!(matches!(decode_reply::<PingPong>(&body, 0), Ok(None)));

    // Pending call 42: a reply with sequence 7 is stale and dropped.
    let stale = service_body(7, 1.0);
    assert!(matches!(decode_reply::<PingPong>(&stale, 42), Ok(None)));

    // The reply with sequence 42 is delivered.
    let resp = decode_reply::<PingPong>(&body, 42).unwrap().unwrap();
    assert_eq!(resp.0, 3.5);
}

#[test]
fn service_server_slot_delivers_request_with_identity() {
    let body = service_body(99, 7.25);
    let req = decode_request::<PingPong>(&body).unwrap();
    assert_eq!(req.identity.sequence_number, 99);
    assert_eq!(&req.identity.writer_guid, b"GUID-0123456789X");
    assert_eq!(req.payload.0, 7.25);
}

#[test]
fn truncated_samples_are_refused() {
    let body = service_body(5, 1.0);
    assert_eq!(decode_request::<PingPong>(&body[..20]).err(), Some(Error::Deserialization));
    assert_eq!(decode_reply::<PingPong>(&body[..20], 5).err(), Some(Error::Deserialization));
    // Identity complete, response cut short.
    assert_eq!(decode_reply::<PingPong>(&body[..26], 5).err(), Some(Error::Deserialization));
    // A reply to no call is dropped before its response is looked at.
    assert!(matches!(decode_reply::<PingPong>(&body[..26], 0), Ok(None)));
}

#[test]
fn writer_guid_layout() {
    let g = derive_writer_guid(&[1, 2, 3, 4], 0x0017);
    assert_eq!(g, [1, 2, 3, 4, 0x00, 0x17, 0, 0, 0, 0, b'X', b'R', b'C', b'E', b'C', b'L']);
}

#[test]
fn call_sequence_skips_zero() {
    assert_eq!(next_sample_seq(0), Some(1));
    assert_eq!(next_sample_seq(-1), None);
    assert_eq!(next_sample_seq(i64::MAX), Some(i64::MIN));
}

#[test]
fn reply_frame_echoes_identity() {
    let mut state = SessionState::new();
    state.set_session_identity(0x81, [0xBA, 0xCE, 0xA1, 0x05]);
    let id = SampleIdentity { writer_guid: *b"GUID-0123456789X", sequence_number: 42 };
    let frame = reply_frame(&mut state, 0x0018, &id, &Float32(3.5)).unwrap();
    // 4 header + 4 submessage header + 4 BaseObjectRequest + 24 identity + 4 body.
    assert_eq!(frame.len, 40);
    assert_eq!(&frame.bytes[0..12], &[0x81, 0x01, 0x00, 0x00, 0x07, 0x01, 0x20, 0x00, 0x00, 0x00, 0x00, 0x18]);
    // What the client decodes of the reply's body.
    let resp = decode_reply::<PingPong>(&frame.bytes[12..40], 42).unwrap().unwrap();
    assert_eq!(resp.0, 3.5);
    // The frame took sequence number 0; the next one is 1.
    assert_eq!(state.next_seq(), 1);

    state.set_disconnected();
    assert_eq!(reply_frame(&mut state, 0x0018, &id, &Float32(3.5)).err(), Some(Error::Disconnected));
}
