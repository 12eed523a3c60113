//! Wire-format fixture tests: the exact bytes of each XRCE-DDS frame type.

use micro_xrce_dds_rs::{
    cdr::CdrWriter,
    cdr_reader::CdrReader,
    protocol::{object_id, ENTITY_DATAREADER, ENTITY_DATAWRITER, ENTITY_PARTICIPANT},
    rt::encode::{
        build_create_client, encode_create_participant, encode_read_data, finalize_write_data_headers,
        msg_header_len,
    },
    Error, Message,
};

const SESSION_ID: u8 = 0x81;
const CLIENT_KEY: [u8; 4] = [0xBA, 0xCE, 0xA1, 0x05];

/// `std_msgs/Float32`, carried as the bits of its IEEE-754 value.
struct Float32(f32);

impl Message for Float32 {
    const TYPE_NAME: &'static str = "std_msgs::msg::dds_::Float32_";
    const MAX_SERIALIZED_SIZE: usize = 4;

    fn serialize(&self, w: &mut CdrWriter) {
        w.u32_val(self.0.to_bits());
    }

    fn deserialize(r: &mut CdrReader<'_>) -> Result<Self, Error> {
        Ok(Float32(f32::from_bits(r.u32_val()?)))
    }
}

// ── Helper: build a WRITE_DATA frame the same way a publisher does ────────────

fn write_data_frame(
    session_id: u8,
    seq: u16,
    client_key: &[u8; 4],
    dw_oid: u16,
    body: &[u8],
) -> ([u8; 64], usize) {
    let prefix = msg_header_len(session_id) + 4 /* submsg hdr */ + 4 /* BaseObjReq */;
    let total = prefix + body.len();
    assert!(total <= 64, "test frame exceeds scratch buffer");
    let mut buf = [0u8; 64];
    buf[prefix..prefix + body.len()].copy_from_slice(body);
    finalize_write_data_headers(&mut buf[..total], session_id, seq, client_key, dw_oid);
    (buf, total)
}

#[test]
fn create_client_wire_bytes() {
    let mut buf = [0u8; 64];
    let n = build_create_client(&mut buf, SESSION_ID, &CLIENT_KEY, 512);
    assert_eq!(n, 24);
    let expected: [u8; 24] = [
        0x80, 0x00, 0x00, 0x00,
        0x00, 0x01, 0x10, 0x00,
        0x58, 0x52, 0x43, 0x45,
        0x01, 0x00,
        0x01, 0x0F,
        0xBA, 0xCE, 0xA1, 0x05,
        0x81,
        0x00,
        0x00, 0x02,
    ];
    assert_eq!(&buf[..n], &expected[..]);
}

#[test]
fn create_participant_wire_bytes() {
    let obj_id = object_id(1, ENTITY_PARTICIPANT);
    assert_eq!(obj_id, 0x0011);

    let mut buf = [0u8; 64];
    let n = encode_create_participant(&mut buf, SESSION_ID, 0, &CLIENT_KEY, 1, obj_id, "my_node", 0).unwrap();
    assert_eq!(n, 30);
    let expected: [u8; 30] = [
        0x81, 0x01, 0x00, 0x00,
        0x01, 0x07, 0x16, 0x00,
        0x00, 0x01,
        0x00, 0x11,
        0x01,
        0x02,
        0x00, 0x00,
        0x08, 0x00, 0x00, 0x00,
        0x6D, 0x79, 0x5F, 0x6E, 0x6F, 0x64, 0x65,
        0x00,
        0x00, 0x00,
    ];
    assert_eq!(&buf[..n], &expected[..]);
}

#[test]
fn write_data_float32_wire_bytes() {
    let dw_oid = object_id(1, ENTITY_DATAWRITER);
    assert_eq!(dw_oid, 0x0015);

    let mut body = [0u8; 4];
    let body_len = {
        let mut w = CdrWriter::new(&mut body);
        Float32(1.0).serialize(&mut w);
        w.bytes_written()
    };
    assert_eq!(body_len, 4);

    let (frame, total) = write_data_frame(SESSION_ID, 0, &CLIENT_KEY, dw_oid, &body[..body_len]);
    assert_eq!(total, 16);
    let expected: [u8; 16] = [
        0x81, 0x01, 0x00, 0x00,
        0x07, 0x01, 0x08, 0x00,
        0x00, 0x00,
        0x00, 0x15,
        0x00, 0x00, 0x80, 0x3F,
    ];
    assert_eq!(&frame[..total], &expected[..]);
}

#[test]
fn read_data_wire_bytes() {
    let dr_oid = object_id(1, ENTITY_DATAREADER);
    assert_eq!(dr_oid, 0x0016);

    let mut buf = [0u8; 64];
    let n = encode_read_data(&mut buf, SESSION_ID, 0, &CLIENT_KEY, 1, dr_oid).unwrap();
    assert_eq!(n, 24);
    let expected: [u8; 24] = [
        0x81, 0x01, 0x00, 0x00,
        0x08, 0x01, 0x10, 0x00,
        0x00, 0x01,
        0x00, 0x16,
        0x01,
        0x00,
        0x00,
        0x01,
        0xFF, 0xFF,
        0xFF, 0xFF,
        0xFF, 0xFF,
        0x00, 0x00,
    ];
    assert_eq!(&buf[..n], &expected[..]);
}
