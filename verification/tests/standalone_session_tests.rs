//! The standalone session helpers: CREATE_CLIENT, WRITE_DATA, STATUS and
//! the XML written into caller buffers.

use micro_xrce_dds_rs::{
    session::{
        create_client_msg, encode_write_data, fmt_datawriter_xml, fmt_participant_xml, fmt_topic_xml,
        parse_status, DataWriterId, ObjectId, SessionCounters, DEFAULT_MTU,
    },
    Error,
};

const KEY: [u8; 4] = [0xBA, 0xCE, 0xA1, 0x05];

#[test]
fn create_client_uses_default_mtu() {
    let mut buf = [0u8; 64];
    let n = create_client_msg(&mut buf, 0x81, &KEY);
    assert_eq!(n, 24);
    assert_eq!(DEFAULT_MTU, 512);
    assert_eq!(&buf[22..24], &[0x00, 0x02]);
}

#[test]
fn entity_handles_hold_ids() {
    let o = ObjectId(0x0011);
    let d = DataWriterId(0x0015);
    assert_eq!(o.0, 0x0011);
    assert_eq!(d.0, 0x0015);
}

#[test]
fn counters_skip_zero_request_id() {
    let mut c = SessionCounters::new(0x81, KEY);
    assert_eq!(c.next_req(), 1);
    assert_eq!(c.next_seq(), 0);
    c.req_id = u16::MAX;
    assert_eq!(c.next_req(), u16::MAX);
    assert_eq!(c.next_req(), 1);
    c.seq = u16::MAX;
    assert_eq!(c.next_seq(), u16::MAX);
    assert_eq!(c.next_seq(), 0);
}

#[test]
fn write_data_message() {
    let mut buf = [0u8; 64];
    let n = encode_write_data(&mut buf, 0x81, 2, &KEY, 0x0015, &[0x00, 0x00, 0x80, 0x3F]).unwrap();
    assert_eq!(n, 16);
    assert_eq!(
        &buf[..16],
        &[0x81, 0x01, 0x02, 0x00, 0x07, 0x01, 0x08, 0x00, 0x00, 0x00, 0x00, 0x15, 0x00, 0x00, 0x80, 0x3F]
    );
    // Client key in the header below session 0x80.
    let n = encode_write_data(&mut buf, 0x01, 0, &KEY, 0x0015, &[9]).unwrap();
    assert_eq!(n, 17);
    assert_eq!(&buf[..8], &[0x01, 0x01, 0x00, 0x00, 0xBA, 0xCE, 0xA1, 0x05]);
    let mut small = [0u8; 15];
    assert_eq!(encode_write_data(&mut small, 0x81, 0, &KEY, 0x0015, &[1, 2, 3, 4]).err(), Some(Error::BufferTooSmall));
}

#[test]
fn status_reply_checks() {
    // Header, STATUS submessage header, req 7, obj, status, impl status.
    let ok = [0x81, 0x01, 0x00, 0x00, 0x05, 0x01, 0x06, 0x00, 0x00, 0x07, 0x00, 0x11, 0x00, 0x00];
    assert_eq!(parse_status(&ok, 0x81, 7), Ok(()));
    assert_eq!(parse_status(&ok, 0x81, 8), Err(Error::StatusReqMismatch));
    let matched = [0x81, 0x01, 0x00, 0x00, 0x05, 0x01, 0x06, 0x00, 0x00, 0x07, 0x00, 0x11, 0x01, 0x00];
    assert_eq!(parse_status(&matched, 0x81, 7), Ok(()));
    let rejected = [0x81, 0x01, 0x00, 0x00, 0x05, 0x01, 0x06, 0x00, 0x00, 0x07, 0x00, 0x11, 0x80, 0x00];
    assert_eq!(parse_status(&rejected, 0x81, 7), Err(Error::AgentRejected(0x80)));
    let other = [0x81, 0x01, 0x00, 0x00, 0x04, 0x01, 0x06, 0x00, 0x00, 0x07, 0x00, 0x11, 0x00, 0x00];
    assert_eq!(parse_status(&other, 0x81, 7), Err(Error::UnexpectedReply));
    assert_eq!(parse_status(&ok[..13], 0x81, 7), Err(Error::UnexpectedReply));
}

#[test]
fn xml_in_caller_buffers() {
    let mut buf = [0u8; 192];
    assert_eq!(
        fmt_participant_xml(&mut buf, "my_node"),
        "<dds><participant><rtps><name>my_node</name></rtps></participant></dds>"
    );
    let mut buf = [0u8; 256];
    assert_eq!(
        fmt_topic_xml(&mut buf, "rt/x", "T"),
        "<dds><topic><name>rt/x</name><dataType>T</dataType></topic></dds>"
    );
    let mut buf = [0u8; 320];
    assert_eq!(
        fmt_datawriter_xml(&mut buf, "rt/x", "T"),
        "<dds><data_writer><topic><kind>NO_KEY</kind><name>rt/x</name><dataType>T</dataType></topic></data_writer></dds>"
    );
    // A short buffer keeps what fits.
    let mut buf = [0u8; 10];
    assert_eq!(fmt_participant_xml(&mut buf, "my_node"), "<dds><part");
    // A cut inside a multi-byte character leaves nothing.
    let mut buf = [0u8; 32];
    assert_eq!(fmt_participant_xml(&mut buf, "é"), "<dds><participant><rtps><name>\u{e9}");
    let mut buf = [0u8; 31];
    assert_eq!(fmt_participant_xml(&mut buf, "é"), "");
}
