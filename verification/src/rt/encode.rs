//! Wire-level encoders for XRCE-DDS frames.
//!
//! Every encoder writes into a caller-supplied buffer. Bytes that do not fit
//! are dropped (never written out of bounds) and reported as
//! [`Error::BufferTooSmall`] where the encoder returns a `Result`.

use vstd::prelude::*;
use vstd::string::StringSliceAdditionalSpecFns;
use heapless::String as HString;
use crate::node::spec_piece_bytes;
use crate::bounded::{text448, text448_new, text448_push_str, text96, text96_new, text96_push_str};
use crate::error::Error;
use crate::protocol::{
    object_id_be_bytes, request_id_be_bytes, ENTITY_PARTICIPANT, FLAGS_CREATE, FLAG_LE, FORMAT_DATA,
    REPR_AS_XML, SESSION_ID_WITHOUT_CLIENT_KEY, STREAM_BEST_EFFORT, STREAM_NONE, SUBMSG_CREATE,
    SUBMSG_CREATE_CLIENT, SUBMSG_READ_DATA, SUBMSG_STATUS_AGENT, SUBMSG_WRITE_DATA, STATUS_OK, VENDOR_ID_EPROSIMA, XRCE_COOKIE,
    XRCE_VERSION,
};
use crate::wire::{
    be16, le16, le16_bytes, le32, le32_bytes, overwrite, pad, zeros, lemma_overwrite_append,
    lemma_overwrite_empty, lemma_overwrite_truncate,
};

verus! {

// ── Header length helper ──────────────────────────────────────────────────────

/// Byte length of the XRCE-DDS message header for `session_id`: sessions
/// below `0x80` carry the 4-byte client key in the header.
pub open spec fn spec_msg_header_len(session_id: u8) -> int {
    if session_id < 0x80 { 8 } else { 4 }
}

/// Byte length of the XRCE-DDS message header for a given `session_id`.
pub fn msg_header_len(session_id: u8) -> (n: usize)
    ensures
        n == spec_msg_header_len(session_id),
{
    if session_id < SESSION_ID_WITHOUT_CLIENT_KEY {
        8
    } else {
        4
    }
}

// ── DDS names ─────────────────────────────────────────────────────────────────

/// Maximum byte length of a DDS topic name (after the `rt/` prefix).
pub const TOPIC_NAME_MAX: usize = 96;

/// Capacity of a requester / replier XML description.
pub const SERVICE_XML_MAX: usize = 448;

/// `name` without its leading `/`, if it has one.
pub open spec fn spec_strip_slash(name: Seq<u8>) -> Seq<u8> {
    if name.len() > 0 && name[0] == 0x2Fu8 { name.drop_first() } else { name }
}

/// A leading `/` makes no difference to the names derived from a ROS name:
/// `/foo` and `foo` both become `rt/foo` (and `rq/fooRequest`, ...).
pub proof fn lemma_leading_slash_optional(name: Seq<u8>)
    requires
        name.len() == 0 || name[0] != 0x2Fu8,
    ensures
        spec_strip_slash(seq![0x2Fu8] + name) == spec_strip_slash(name),
{
    assert((seq![0x2Fu8] + name).drop_first() =~= name);
}

/// `str::strip_prefix('/')`: the rest of the string after a leading `/`, or
/// `None` when it does not start with one. (`/` is the single byte 0x2F in
/// UTF-8 and never part of a longer character.)
#[verifier::external_body]
fn strip_slash<'a>(s: &'a str) -> (r: Option<&'a str>)
    ensures
        r is Some <==> (s.spec_bytes().len() > 0 && s.spec_bytes()[0] == 0x2Fu8),
        r matches Some(t) ==> t.spec_bytes() == s.spec_bytes().drop_first(),
{
    s.strip_prefix('/')
}

/// `name` without its leading `/`, if it has one.
fn without_slash<'a>(name: &'a str) -> (r: &'a str)
    ensures
        r.spec_bytes() == spec_strip_slash(name.spec_bytes()),
{
    match strip_slash(name) {
        Some(t) => t,
        None => name,
    }
}

/// Convert a ROS2 topic name (`/foo/bar`) to its DDS form (`rt/foo/bar`);
/// `BufferTooSmall` when that is longer than [`TOPIC_NAME_MAX`].
pub fn ros2_topic_name(topic: &str) -> (r: Result<HString<96>, Error>)
    ensures
        r is Ok <==> 3 + spec_strip_slash(topic.spec_bytes()).len() <= TOPIC_NAME_MAX,
        r matches Ok(s) ==> text96(s) == "rt/".spec_bytes() + spec_strip_slash(topic.spec_bytes()),
        r matches Err(e) ==> e == Error::BufferTooSmall,
{
    let mut s = text96_new();
    let body = without_slash(topic);
    proof {
        reveal_strlit("rt/");
        vstd::string::is_ascii_spec_bytes("rt/");
        assert("rt/".spec_bytes().len() == 3);
    }
    if text96_push_str(&mut s, "rt/").is_err() {
        return Err(Error::BufferTooSmall);
    }
    if text96_push_str(&mut s, body).is_err() {
        return Err(Error::BufferTooSmall);
    }
    Ok(s)
}

/// The pieces, one after another.
pub open spec fn spec_concat(pieces: Seq<Seq<u8>>) -> Seq<u8>
    decreases pieces.len(),
{
    if pieces.len() == 0 { Seq::empty() } else { spec_concat(pieces.drop_last()) + pieces.last() }
}

/// The first pieces never make more bytes than all of them.
proof fn lemma_concat_prefix_len(pieces: Seq<Seq<u8>>, k: int)
    requires
        0 <= k <= pieces.len(),
    ensures
        spec_concat(pieces.take(k)).len() <= spec_concat(pieces).len(),
    decreases pieces.len(),
{
    if k < pieces.len() {
        assert(pieces.take(k) =~= pieces.drop_last().take(k));
        lemma_concat_prefix_len(pieces.drop_last(), k);
    } else {
        assert(pieces.take(k) =~= pieces);
    }
}

/// The pieces of a requester (`kind` = "requester") or replier XML for the
/// service `name` with the given request and reply types: the request topic
/// is `rq/<name>Request`, the reply topic `rr/<name>Reply`, `<name>` taken
/// without its leading `/`.
pub open spec fn spec_service_xml_pieces(kind: Seq<u8>, name: Seq<u8>, request_type: Seq<u8>, reply_type: Seq<u8>) -> Seq<Seq<u8>> {
    seq![
        "<dds><".spec_bytes(), kind, " profile_name=\"\" service_name=\"".spec_bytes(), name,
        "\" request_type=\"".spec_bytes(), request_type, "\" reply_type=\"".spec_bytes(), reply_type,
        "\"><request_topic_name>rq/".spec_bytes(), spec_strip_slash(name),
        "Request</request_topic_name><reply_topic_name>rr/".spec_bytes(), spec_strip_slash(name),
        "Reply</reply_topic_name></".spec_bytes(), kind, "></dds>".spec_bytes()
    ]
}

/// Write all of `pieces` into `x`; fails (`false`) at the first piece that
/// does not fit.
fn write_all_pieces448(x: &mut HString<448>, pieces: &[&str]) -> (r: bool)
    requires
        text448(*old(x)) == Seq::<u8>::empty(),
    ensures
        r <==> spec_concat(spec_piece_bytes(pieces@)).len() <= SERVICE_XML_MAX,
        r ==> text448(*final(x)) == spec_concat(spec_piece_bytes(pieces@)),
{
    let ghost all = spec_piece_bytes(pieces@);
    assert(all.take(0) =~= Seq::<Seq<u8>>::empty());
    let mut i: usize = 0;
    while i < pieces.len()
        invariant
            i <= pieces@.len(),
            all == spec_piece_bytes(pieces@),
            text448(*x) == spec_concat(all.take(i as int)),
            text448(*x).len() <= SERVICE_XML_MAX,
        decreases pieces@.len() - i,
    {
        assert(all.take(i + 1).drop_last() =~= all.take(i as int));
        assert(spec_concat(all.take(i + 1)) == spec_concat(all.take(i as int)) + all[i as int]);
        if text448_push_str(x, pieces[i]).is_err() {
            proof { lemma_concat_prefix_len(all, i + 1); }
            return false;
        }
        i += 1;
    }
    proof {
        assert(all.take(all.len() as int) =~= all);
    }
    true
}

fn service_xml(kind: &str, name: &str, request_type: &str, reply_type: &str) -> (r: Result<HString<448>, Error>)
    ensures
        ({
            let all = spec_concat(spec_service_xml_pieces(kind.spec_bytes(), name.spec_bytes(),
                request_type.spec_bytes(), reply_type.spec_bytes()));
            &&& r is Ok <==> all.len() <= SERVICE_XML_MAX
            &&& r matches Ok(x) ==> text448(x) == all
            &&& r matches Err(e) ==> e == Error::BufferTooSmall
        }),
{
    let body = without_slash(name);
    let pieces = [
        "<dds><", kind, " profile_name=\"\" service_name=\"", name, "\" request_type=\"", request_type,
        "\" reply_type=\"", reply_type, "\"><request_topic_name>rq/", body,
        "Request</request_topic_name><reply_topic_name>rr/", body, "Reply</reply_topic_name></", kind, "></dds>",
    ];
    assert(spec_piece_bytes(pieces@) =~= spec_service_xml_pieces(kind.spec_bytes(), name.spec_bytes(),
        request_type.spec_bytes(), reply_type.spec_bytes()));
    let mut x = text448_new();
    if !write_all_pieces448(&mut x, &pieces) {
        return Err(Error::BufferTooSmall);
    }
    Ok(x)
}

/// Requester XML for the service `service_name`; `BufferTooSmall` when it
/// is longer than [`SERVICE_XML_MAX`].
pub fn ros2_requester_xml(service_name: &str, request_type: &str, reply_type: &str) -> (r: Result<HString<448>, Error>)
    ensures
        ({
            let all = spec_concat(spec_service_xml_pieces("requester".spec_bytes(), service_name.spec_bytes(),
                request_type.spec_bytes(), reply_type.spec_bytes()));
            &&& r is Ok <==> all.len() <= SERVICE_XML_MAX
            &&& r matches Ok(x) ==> text448(x) == all
            &&& r matches Err(e) ==> e == Error::BufferTooSmall
        }),
{
    service_xml("requester", service_name, request_type, reply_type)
}

/// Replier XML for the service `service_name`; `BufferTooSmall` when it is
/// longer than [`SERVICE_XML_MAX`].
pub fn ros2_replier_xml(service_name: &str, request_type: &str, reply_type: &str) -> (r: Result<HString<448>, Error>)
    ensures
        ({
            let all = spec_concat(spec_service_xml_pieces("replier".spec_bytes(), service_name.spec_bytes(),
                request_type.spec_bytes(), reply_type.spec_bytes()));
            &&& r is Ok <==> all.len() <= SERVICE_XML_MAX
            &&& r matches Ok(x) ==> text448(x) == all
            &&& r matches Err(e) ==> e == Error::BufferTooSmall
        }),
{
    service_xml("replier", service_name, request_type, reply_type)
}

// ── Frame layouts ─────────────────────────────────────────────────────────────

/// Message header used by every frame except CREATE_CLIENT:
/// `session_id, stream_id, seq (LE)` and, below `0x80`, the client key.
pub open spec fn spec_session_header(session_id: u8, stream_id: u8, seq: u16, key: Seq<u8>) -> Seq<u8> {
    seq![session_id, stream_id] + le16(seq) + if session_id < 0x80 { key } else { Seq::<u8>::empty() }
}

/// The CREATE_CLIENT frame, with `len_field` in the submessage length slot.
///
/// The header carries `session_id & 0x80` (and the key only when that is
/// below `0x80`); the payload is the CLIENT_Representation: cookie, version,
/// vendor id, key, the real session id, `optional_properties = false` and the
/// MTU.
pub open spec fn spec_create_client(session_id: u8, key: Seq<u8>, mtu: u16, len_field: u16) -> Seq<u8> {
    let masked = session_id & 0x80u8;
    seq![masked, 0u8] + le16(0) + (if masked < 0x80 { key } else { Seq::<u8>::empty() })
        + seq![0u8, 1u8] + le16(len_field)
        + seq![0x58u8, 0x52u8, 0x43u8, 0x45u8] + seq![0x01u8, 0x00u8] + seq![0x01u8, 0x0Fu8]
        + key + seq![session_id, 0u8] + le16(mtu)
}

/// Offset of the submessage header inside a CREATE_CLIENT frame.
pub open spec fn spec_create_client_hdr_off(session_id: u8) -> int {
    if session_id & 0x80u8 < 0x80 { 8 } else { 4 }
}

/// CDR string written at payload offset `off`: padding to 4, the u32 length
/// including the terminator, the bytes, and the zero terminator.
pub open spec fn spec_cdr_string(s: Seq<u8>, off: int) -> Seq<u8> {
    zeros(pad(off, 4)) + le32((s.len() + 1) as u32) + s + seq![0u8]
}

// ── CREATE_CLIENT ─────────────────────────────────────────────────────────────

/// Build a `CREATE_CLIENT` message into `buf`. Returns the length of the
/// complete message; when `buf` is shorter, only the bytes that fit are
/// written (and the payload length is only filled in when its slot fits).
pub fn build_create_client(buf: &mut [u8], session_id: u8, client_key: &[u8; 4], mtu: u16) -> (n: usize)
    ensures
        n == spec_create_client(session_id, client_key@, mtu, 16).len(),
        final(buf)@ == overwrite(
            old(buf)@,
            0,
            if spec_create_client_hdr_off(session_id) + 4 <= old(buf)@.len() {
                spec_create_client(session_id, client_key@, mtu, 16)
            } else {
                spec_create_client(session_id, client_key@, mtu, 0)
            },
        ),
{
    let mut b = MsgWriter::new(buf);
    let masked_sid = session_id & SESSION_ID_WITHOUT_CLIENT_KEY;
    b.u8(buf, masked_sid);
    b.u8(buf, STREAM_NONE);
    b.u16_raw(buf, 0);
    if masked_sid < SESSION_ID_WITHOUT_CLIENT_KEY {
        b.bytes(buf, client_key);
    }
    b.align_buf(buf, 4);
    let hdr_off = b.pos(Ghost(buf@));
    b.u8(buf, SUBMSG_CREATE_CLIENT);
    b.u8(buf, FLAG_LE);
    b.u16_raw(buf, 0);
    let payload_origin = b.pos(Ghost(buf@));

    b.bytes(buf, &XRCE_COOKIE);
    b.bytes(buf, &XRCE_VERSION);
    b.bytes(buf, &VENDOR_ID_EPROSIMA);
    b.bytes(buf, client_key);
    b.u8(buf, session_id);
    b.u8(buf, 0); // optional_properties = false
    b.cdr_u16(buf, mtu, payload_origin);

    let payload_len = b.pos(Ghost(buf@)) - payload_origin;
    proof {
        let w = b.written();
        assert(XRCE_COOKIE@ =~= seq![0x58u8, 0x52u8, 0x43u8, 0x45u8]);
        assert(XRCE_VERSION@ =~= seq![0x01u8, 0x00u8]);
        assert(VENDOR_ID_EPROSIMA@ =~= seq![0x01u8, 0x0Fu8]);
        assert(zeros(0) =~= Seq::<u8>::empty());
        assert(w =~= spec_create_client(session_id, client_key@, mtu, 0));
        assert(payload_len == 16);
        assert(w.take(hdr_off + 2) + le16(16) + w.skip(hdr_off + 4)
            =~= spec_create_client(session_id, client_key@, mtu, 16));
    }
    b.patch_u16_at(buf, hdr_off + 2, payload_len as u16);
    b.pos(Ghost(buf@))
}

// ── Common frame shape ───────────────────────────────────────────────────────

/// A message with one submessage: the message header, the submessage header
/// (`id`, `flags`, `len_field` LE) and the payload.
pub open spec fn spec_frame(header: Seq<u8>, id: u8, flags: u8, len_field: u16, payload: Seq<u8>) -> Seq<u8> {
    header + seq![id, flags] + le16(len_field) + payload
}

/// The payload length as written in the submessage header.
pub open spec fn spec_len_field(payload: Seq<u8>) -> u16 {
    payload.len() as u16
}

/// BaseObjectRequest: request id and object id, both big-endian.
pub open spec fn spec_base_request(req_id: u16, obj_id: u16) -> Seq<u8> {
    be16(req_id) + be16(obj_id)
}

// ── CREATE_PARTICIPANT ────────────────────────────────────────────────────────

/// CREATE payload for a participant: BaseObjectRequest, kind PARTICIPANT,
/// XML representation, the XML as a CDR string and the domain id (i16,
/// 2-aligned from the payload start).
pub open spec fn spec_participant_payload(req_id: u16, obj_id: u16, xml: Seq<u8>, domain_id: i16) -> Seq<u8> {
    let head = spec_base_request(req_id, obj_id) + seq![1u8, 2u8] + spec_cdr_string(xml, 6);
    head + zeros(pad(head.len() as int, 2)) + le16(domain_id as u16)
}

/// The CREATE_PARTICIPANT frame with `len_field` in the length slot.
pub open spec fn spec_create_participant(
    session_id: u8, seq: u16, key: Seq<u8>, req_id: u16, obj_id: u16, xml: Seq<u8>, domain_id: i16, len_field: u16,
) -> Seq<u8> {
    spec_frame(spec_session_header(session_id, 1, seq, key), 1, 7, len_field,
        spec_participant_payload(req_id, obj_id, xml, domain_id))
}

/// Where the CDR string of a CREATE frame ends: header, submessage header,
/// 6 payload bytes, 2 bytes of padding, the length word, the text and its
/// terminator.
pub open spec fn spec_create_string_end(session_id: u8, xml: Seq<u8>) -> int {
    spec_msg_header_len(session_id) + 4 + 13 + xml.len()
}

/// What an encoder that fails with `BufferTooSmall` leaves in the buffer: the
/// frame with its length slot still zero when the failure was detected right
/// after the XML string, the complete frame otherwise; truncated to the
/// buffer either way.
pub open spec fn spec_failed_create(buf: Seq<u8>, string_end: int, unpatched: Seq<u8>, full: Seq<u8>) -> Seq<u8> {
    overwrite(buf, 0, if string_end > buf.len() { unpatched } else { full })
}

/// Build a CREATE submessage for a DomainParticipant with the given XML
/// description and domain id.
///
/// `Ok(n)` exactly when the whole frame fits in `buf`; then `buf` starts with
/// the frame and `n` is its length. Otherwise `Err(BufferTooSmall)` and the
/// bytes that fit are written.
#[allow(clippy::too_many_arguments)]
pub fn encode_create_participant(
    buf: &mut [u8],
    session_id: u8,
    seq: u16,
    client_key: &[u8; 4],
    req_id: u16,
    obj_id: u16,
    xml: &str,
    domain_id: i16,
) -> (r: Result<usize, Error>)
    requires
        xml.spec_bytes().len() + 64 <= u32::MAX,
    ensures
        ({
            let payload = spec_participant_payload(req_id, obj_id, xml.spec_bytes(), domain_id);
            let full = spec_create_participant(session_id, seq, client_key@, req_id, obj_id, xml.spec_bytes(), domain_id,
                spec_len_field(payload));
            let unpatched = spec_create_participant(session_id, seq, client_key@, req_id, obj_id, xml.spec_bytes(), domain_id, 0);
            &&& r is Ok <==> full.len() <= old(buf)@.len()
            &&& r matches Ok(n) ==> n == full.len() && final(buf)@ == overwrite(old(buf)@, 0, full)
            &&& r is Err ==> r == Err::<usize, Error>(Error::BufferTooSmall) && final(buf)@ == spec_failed_create(
                old(buf)@, spec_create_string_end(session_id, xml.spec_bytes()), unpatched, full)
        }),
{
    encode_create_participant_raw(buf, session_id, seq, client_key, req_id, obj_id, xml.as_bytes(), domain_id)
}

/// [`encode_create_participant`] with the XML given as bytes.
#[allow(clippy::too_many_arguments)]
#[verifier::rlimit(40)]
pub fn encode_create_participant_raw(
    buf: &mut [u8],
    session_id: u8,
    seq: u16,
    client_key: &[u8; 4],
    req_id: u16,
    obj_id: u16,
    xml: &[u8],
    domain_id: i16,
) -> (r: Result<usize, Error>)
    requires
        xml@.len() + 64 <= u32::MAX,
    ensures
        ({
            let payload = spec_participant_payload(req_id, obj_id, xml@, domain_id);
            let full = spec_create_participant(session_id, seq, client_key@, req_id, obj_id, xml@, domain_id,
                spec_len_field(payload));
            let unpatched = spec_create_participant(session_id, seq, client_key@, req_id, obj_id, xml@, domain_id, 0);
            &&& r is Ok <==> full.len() <= old(buf)@.len()
            &&& r matches Ok(n) ==> n == full.len() && final(buf)@ == overwrite(old(buf)@, 0, full)
            &&& r is Err ==> r == Err::<usize, Error>(Error::BufferTooSmall) && final(buf)@ == spec_failed_create(
                old(buf)@, spec_create_string_end(session_id, xml@), unpatched, full)
        }),
{
    let mut b = MsgWriter::new(buf);
    write_session_header(&mut b, buf, session_id, STREAM_BEST_EFFORT, seq, client_key);

    b.align_buf(buf, 4);
    proof {
        assert(zeros(0) =~= Seq::<u8>::empty());
        assert(b.written() =~= spec_session_header(session_id, 1, seq, client_key@));
    }
    let hdr_off = b.pos(Ghost(buf@));
    b.u8(buf, SUBMSG_CREATE);
    b.u8(buf, FLAGS_CREATE);
    b.u16_raw(buf, 0);
    let origin = b.pos(Ghost(buf@));
    let ghost head = b.written();
    assert(head =~= spec_session_header(session_id, 1, seq, client_key@) + seq![1u8, 7u8] + le16(0));

    let rq = request_id_be_bytes(req_id);
    b.bytes(buf, &rq);
    let oq = object_id_be_bytes(obj_id);
    b.bytes(buf, &oq);
    b.u8(buf, ENTITY_PARTICIPANT);
    b.u8(buf, REPR_AS_XML);
    let ghost mid = b.written();
    proof {
        assert(mid =~= head + spec_base_request(req_id, obj_id) + seq![1u8, 2u8]);
        assert(mid.len() == origin + 6);
    }
    let res = b.cdr_string(buf, xml, origin);
    proof {
        assert(b.written() == mid + spec_cdr_string(xml@, 6));
        assert(b.written() =~= head + (spec_base_request(req_id, obj_id) + seq![1u8, 2u8] + spec_cdr_string(xml@, 6)));
    }
    if res.is_err() {
        proof {
            let unpatched = spec_create_participant(session_id, seq, client_key@, req_id, obj_id, xml@, domain_id, 0);
            assert(unpatched.take(b.written().len() as int) =~= b.written());
            lemma_overwrite_truncate(b.init(), unpatched, b.written().len() as int);
        }
        return Err(Error::BufferTooSmall);
    }
    b.cdr_i16(buf, domain_id, origin);

    let payload_len = b.pos(Ghost(buf@)) - origin;
    proof {
        let w = b.written();
        let payload = spec_participant_payload(req_id, obj_id, xml@, domain_id);
        assert(head =~= spec_session_header(session_id, 1, seq, client_key@) + seq![1u8, 7u8] + le16(0));
        assert(w =~= head + payload);
        assert(w =~= spec_create_participant(session_id, seq, client_key@, req_id, obj_id, xml@, domain_id, 0));
        assert(w.take(hdr_off + 2) + le16(payload_len as u16) + w.skip(hdr_off + 4)
            =~= spec_create_participant(session_id, seq, client_key@, req_id, obj_id, xml@, domain_id, spec_len_field(payload)));
    }
    b.patch_u16_at(buf, hdr_off + 2, payload_len as u16);
    if b.overflow(buf) {
        return Err(Error::BufferTooSmall);
    }
    Ok(b.pos(Ghost(buf@)))
}

// ── CREATE with parent (Publisher / Subscriber / Topic / DataWriter / DataReader) ──

/// CREATE payload for an entity with a parent: BaseObjectRequest, the
/// entity kind, XML representation, the XML as a CDR string and the parent's
/// ObjectId (2 raw bytes, no alignment).
pub open spec fn spec_with_parent_payload(req_id: u16, obj_id: u16, obj_kind: u8, xml: Seq<u8>, parent_obj_id: u16) -> Seq<u8> {
    spec_base_request(req_id, obj_id) + seq![obj_kind, 2u8] + spec_cdr_string(xml, 6) + be16(parent_obj_id)
}

/// The CREATE frame for an entity with a parent, with `len_field` in the
/// length slot.
pub open spec fn spec_create_with_parent(
    session_id: u8, seq: u16, key: Seq<u8>, req_id: u16, obj_id: u16, obj_kind: u8, xml: Seq<u8>,
    parent_obj_id: u16, len_field: u16,
) -> Seq<u8> {
    spec_frame(spec_session_header(session_id, 1, seq, key), 1, 7, len_field,
        spec_with_parent_payload(req_id, obj_id, obj_kind, xml, parent_obj_id))
}

/// Build a CREATE submessage for an entity that names its parent
/// (Topic → Participant, Publisher → Participant, DataWriter → Publisher,
/// ...).
///
/// `Ok(n)` exactly when the whole frame fits in `buf`; then `buf` starts with
/// the frame and `n` is its length. Otherwise `Err(BufferTooSmall)` and the
/// bytes that fit are written.
#[allow(clippy::too_many_arguments)]
pub fn encode_create_with_parent(
    buf: &mut [u8],
    session_id: u8,
    seq: u16,
    client_key: &[u8; 4],
    req_id: u16,
    obj_id: u16,
    obj_kind: u8,
    xml: &str,
    parent_obj_id: u16,
) -> (r: Result<usize, Error>)
    requires
        xml.spec_bytes().len() + 64 <= u32::MAX,
    ensures
        ({
            let payload = spec_with_parent_payload(req_id, obj_id, obj_kind, xml.spec_bytes(), parent_obj_id);
            let full = spec_create_with_parent(session_id, seq, client_key@, req_id, obj_id, obj_kind, xml.spec_bytes(),
                parent_obj_id, spec_len_field(payload));
            let unpatched = spec_create_with_parent(session_id, seq, client_key@, req_id, obj_id, obj_kind, xml.spec_bytes(),
                parent_obj_id, 0);
            &&& r is Ok <==> full.len() <= old(buf)@.len()
            &&& r matches Ok(n) ==> n == full.len() && final(buf)@ == overwrite(old(buf)@, 0, full)
            &&& r is Err ==> r == Err::<usize, Error>(Error::BufferTooSmall) && final(buf)@ == spec_failed_create(
                old(buf)@, spec_create_string_end(session_id, xml.spec_bytes()), unpatched, full)
        }),
{
    encode_create_with_parent_raw(buf, session_id, seq, client_key, req_id, obj_id, obj_kind, xml.as_bytes(), parent_obj_id)
}

/// [`encode_create_with_parent`] with the XML given as bytes.
#[allow(clippy::too_many_arguments)]
#[verifier::rlimit(40)]
pub fn encode_create_with_parent_raw(
    buf: &mut [u8],
    session_id: u8,
    seq: u16,
    client_key: &[u8; 4],
    req_id: u16,
    obj_id: u16,
    obj_kind: u8,
    xml: &[u8],
    parent_obj_id: u16,
) -> (r: Result<usize, Error>)
    requires
        xml@.len() + 64 <= u32::MAX,
    ensures
        ({
            let payload = spec_with_parent_payload(req_id, obj_id, obj_kind, xml@, parent_obj_id);
            let full = spec_create_with_parent(session_id, seq, client_key@, req_id, obj_id, obj_kind, xml@,
                parent_obj_id, spec_len_field(payload));
            let unpatched = spec_create_with_parent(session_id, seq, client_key@, req_id, obj_id, obj_kind, xml@,
                parent_obj_id, 0);
            &&& r is Ok <==> full.len() <= old(buf)@.len()
            &&& r matches Ok(n) ==> n == full.len() && final(buf)@ == overwrite(old(buf)@, 0, full)
            &&& r is Err ==> r == Err::<usize, Error>(Error::BufferTooSmall) && final(buf)@ == spec_failed_create(
                old(buf)@, spec_create_string_end(session_id, xml@), unpatched, full)
        }),
{
    let mut b = MsgWriter::new(buf);
    write_session_header(&mut b, buf, session_id, STREAM_BEST_EFFORT, seq, client_key);

    b.align_buf(buf, 4);
    proof {
        assert(zeros(0) =~= Seq::<u8>::empty());
        assert(b.written() =~= spec_session_header(session_id, 1, seq, client_key@));
    }
    let hdr_off = b.pos(Ghost(buf@));
    b.u8(buf, SUBMSG_CREATE);
    b.u8(buf, FLAGS_CREATE);
    b.u16_raw(buf, 0);
    let origin = b.pos(Ghost(buf@));
    let ghost head = b.written();
    assert(head =~= spec_session_header(session_id, 1, seq, client_key@) + seq![1u8, 7u8] + le16(0));

    let rq = request_id_be_bytes(req_id);
    b.bytes(buf, &rq);
    let oq = object_id_be_bytes(obj_id);
    b.bytes(buf, &oq);
    b.u8(buf, obj_kind);
    b.u8(buf, REPR_AS_XML);
    let ghost mid = b.written();
    proof {
        assert(mid =~= head + spec_base_request(req_id, obj_id) + seq![obj_kind, 2u8]);
        assert(mid.len() == origin + 6);
    }
    let res = b.cdr_string(buf, xml, origin);
    proof {
        assert(b.written() == mid + spec_cdr_string(xml@, 6));
    }
    if res.is_err() {
        proof {
            let unpatched = spec_create_with_parent(session_id, seq, client_key@, req_id, obj_id, obj_kind, xml@,
                parent_obj_id, 0);
            assert(unpatched.take(b.written().len() as int) =~= b.written());
            lemma_overwrite_truncate(b.init(), unpatched, b.written().len() as int);
        }
        return Err(Error::BufferTooSmall);
    }
    // ObjectId trailer is 2 raw bytes (no CDR alignment).
    let pq = object_id_be_bytes(parent_obj_id);
    b.bytes(buf, &pq);

    let payload_len = b.pos(Ghost(buf@)) - origin;
    proof {
        let w = b.written();
        let payload = spec_with_parent_payload(req_id, obj_id, obj_kind, xml@, parent_obj_id);
        assert(w =~= head + payload);
        assert(w =~= spec_create_with_parent(session_id, seq, client_key@, req_id, obj_id, obj_kind, xml@, parent_obj_id, 0));
        assert(w.take(hdr_off + 2) + le16(payload_len as u16) + w.skip(hdr_off + 4)
            =~= spec_create_with_parent(session_id, seq, client_key@, req_id, obj_id, obj_kind, xml@, parent_obj_id,
                spec_len_field(payload)));
    }
    b.patch_u16_at(buf, hdr_off + 2, payload_len as u16);
    if b.overflow(buf) {
        return Err(Error::BufferTooSmall);
    }
    Ok(b.pos(Ghost(buf@)))
}

// ── READ_DATA ─────────────────────────────────────────────────────────────────

/// READ_DATA payload: BaseObjectRequest, the best-effort delivery stream,
/// FORMAT_DATA, no content filter, and a delivery control asking for an
/// unlimited number of samples, unlimited elapsed time and bandwidth and no
/// minimum pace.
pub open spec fn spec_read_data_payload(req_id: u16, dr_oid: u16) -> Seq<u8> {
    spec_base_request(req_id, dr_oid) + seq![1u8, 0u8, 0u8, 1u8]
        + le16(0xFFFF) + le16(0xFFFF) + le16(0xFFFF) + le16(0)
}

/// The READ_DATA frame.
pub open spec fn spec_read_data(session_id: u8, seq: u16, key: Seq<u8>, req_id: u16, dr_oid: u16) -> Seq<u8> {
    spec_frame(spec_session_header(session_id, 1, seq, key), 8, 1, 16, spec_read_data_payload(req_id, dr_oid))
}

/// Build a READ_DATA request asking the agent to stream samples of the
/// DataReader (or replier) `dr_oid` continuously.
///
/// `Ok(n)` exactly when the frame fits in `buf`; then `buf` starts with the
/// frame and `n` is its length. Otherwise `Err(BufferTooSmall)`, with the
/// bytes that fit written (the length slot only when it fits).
pub fn encode_read_data(
    buf: &mut [u8],
    session_id: u8,
    seq: u16,
    client_key: &[u8; 4],
    req_id: u16,
    dr_oid: u16,
) -> (r: Result<usize, Error>)
    ensures
        ({
            let full = spec_read_data(session_id, seq, client_key@, req_id, dr_oid);
            let unpatched = spec_frame(spec_session_header(session_id, 1, seq, client_key@), 8, 1, 0,
                spec_read_data_payload(req_id, dr_oid));
            &&& r is Ok <==> full.len() <= old(buf)@.len()
            &&& r matches Ok(n) ==> n == full.len() && final(buf)@ == overwrite(old(buf)@, 0, full)
            &&& r is Err ==> r == Err::<usize, Error>(Error::BufferTooSmall) && final(buf)@ == overwrite(old(buf)@, 0,
                if spec_msg_header_len(session_id) + 4 <= old(buf)@.len() { full } else { unpatched })
        }),
{
    let mut b = MsgWriter::new(buf);
    write_session_header(&mut b, buf, session_id, STREAM_BEST_EFFORT, seq, client_key);

    b.align_buf(buf, 4);
    proof {
        assert(zeros(0) =~= Seq::<u8>::empty());
        assert(b.written() =~= spec_session_header(session_id, 1, seq, client_key@));
    }
    let hdr_off = b.pos(Ghost(buf@));
    b.u8(buf, SUBMSG_READ_DATA);
    b.u8(buf, FLAG_LE);
    b.u16_raw(buf, 0);
    let origin = b.pos(Ghost(buf@));
    let ghost head = b.written();

    let rq = request_id_be_bytes(req_id);
    b.bytes(buf, &rq);
    let oq = object_id_be_bytes(dr_oid);
    b.bytes(buf, &oq);
    b.u8(buf, STREAM_BEST_EFFORT);
    b.u8(buf, FORMAT_DATA);
    b.u8(buf, 0); // optional_content_filter_expression = false
    b.u8(buf, 1); // optional_delivery_control = true
    b.u16_raw(buf, 0xFFFF); // max_samples = unlimited
    b.u16_raw(buf, 0xFFFF); // max_elapsed_time = unlimited
    b.u16_raw(buf, 0xFFFF); // max_bytes_per_second = unlimited
    b.u16_raw(buf, 0); // min_pace_period = 0

    let payload_len = b.pos(Ghost(buf@)) - origin;
    proof {
        let w = b.written();
        let unpatched = spec_frame(spec_session_header(session_id, 1, seq, client_key@), 8, 1, 0,
            spec_read_data_payload(req_id, dr_oid));
        assert(w =~= unpatched);
        assert(payload_len == 16);
        assert(w.take(hdr_off + 2) + le16(payload_len as u16) + w.skip(hdr_off + 4)
            =~= spec_read_data(session_id, seq, client_key@, req_id, dr_oid));
    }
    b.patch_u16_at(buf, hdr_off + 2, payload_len as u16);
    if b.overflow(buf) {
        return Err(Error::BufferTooSmall);
    }
    Ok(b.pos(Ghost(buf@)))
}

// ── WRITE_DATA header finalizer ───────────────────────────────────────────────

/// Header of a WRITE_DATA frame whose total length is `total`: message
/// header, submessage header (payload length `total - header - 4`, cut to
/// 16 bits) and the BaseObjectRequest with request id 0.
pub open spec fn spec_write_data_header(session_id: u8, seq: u16, key: Seq<u8>, dw_oid: u16, total: int) -> Seq<u8> {
    spec_frame(spec_session_header(session_id, 1, seq, key), 7, 1,
        (total - spec_msg_header_len(session_id) - 4) as u16, spec_base_request(0, dw_oid))
}

/// Fill in the WRITE_DATA session and submessage headers for a buffer whose
/// CDR body is already present after the header bytes.
///
/// `buf` must span the whole frame; everything after the header is kept.
pub fn finalize_write_data_headers(
    buf: &mut [u8],
    session_id: u8,
    seq: u16,
    client_key: &[u8; 4],
    dw_oid: u16,
)
    requires
        old(buf)@.len() >= spec_msg_header_len(session_id) + 4,
    ensures
        final(buf)@ == overwrite(old(buf)@, 0,
            spec_write_data_header(session_id, seq, client_key@, dw_oid, old(buf)@.len() as int)),
{
    let total = buf.len();
    let mut b = MsgWriter::new(buf);
    write_session_header(&mut b, buf, session_id, STREAM_BEST_EFFORT, seq, client_key);

    let hdr_off = b.pos(Ghost(buf@));
    b.u8(buf, SUBMSG_WRITE_DATA);
    b.u8(buf, FLAG_LE | FORMAT_DATA);
    let payload_len = (total - hdr_off - 4) as u16;
    b.u16_raw(buf, payload_len);

    // req_id = 0: WRITE_DATA is fire-and-forget.
    let rq = request_id_be_bytes(0);
    b.bytes(buf, &rq);
    let oq = object_id_be_bytes(dw_oid);
    b.bytes(buf, &oq);
    proof {
        assert(FLAG_LE | FORMAT_DATA == 1u8) by (bit_vector);
        assert(b.written() =~= spec_write_data_header(session_id, seq, client_key@, dw_oid, total as int));
    }
}

/// Identical wire format to [`finalize_write_data_headers`]: service
/// requests and replies are ordinary WRITE_DATA submessages addressed to the
/// requester / replier object id.
pub fn finalize_service_write_data(
    buf: &mut [u8],
    session_id: u8,
    seq: u16,
    client_key: &[u8; 4],
    requester_or_replier_oid: u16,
)
    requires
        old(buf)@.len() >= spec_msg_header_len(session_id) + 4,
    ensures
        final(buf)@ == overwrite(old(buf)@, 0,
            spec_write_data_header(session_id, seq, client_key@, requester_or_replier_oid, old(buf)@.len() as int)),
{
    finalize_write_data_headers(buf, session_id, seq, client_key, requester_or_replier_oid);
}

// ── STATUS_AGENT parser ───────────────────────────────────────────────────────

/// Outcome of a STATUS_AGENT reply: too short (shorter than the header, the
/// submessage header and two payload bytes) or another submessage →
/// `UnexpectedReply`; a non-zero result status → `AgentRejected(status)`;
/// otherwise success.
pub open spec fn spec_status_agent_result(msg: Seq<u8>, session_id: u8) -> Result<(), Error> {
    let h = spec_msg_header_len(session_id);
    if msg.len() < h + 6 {
        Err(Error::UnexpectedReply)
    } else if msg[h] != 4 {
        Err(Error::UnexpectedReply)
    } else if msg[h + 4] != 0 {
        Err(Error::AgentRejected(msg[h + 4]))
    } else {
        Ok(())
    }
}

/// Parse the STATUS_AGENT reply to CREATE_CLIENT.
pub fn parse_status_agent(msg: &[u8], session_id: u8) -> (r: Result<(), Error>)
    ensures
        r == spec_status_agent_result(msg@, session_id),
{
    let hdr_len = msg_header_len(session_id);
    if msg.len() < hdr_len + 4 + 2 {
        return Err(Error::UnexpectedReply);
    }
    let submsg_id = msg[hdr_len];
    if submsg_id != SUBMSG_STATUS_AGENT {
        return Err(Error::UnexpectedReply);
    }
    let status = msg[hdr_len + 4];
    if status != STATUS_OK {
        return Err(Error::AgentRejected(status));
    }
    Ok(())
}

/// Write the standard message header (everything except CREATE_CLIENT).
pub(crate) fn write_session_header(
    b: &mut MsgWriter,
    buf: &mut [u8],
    session_id: u8,
    stream_id: u8,
    seq: u16,
    client_key: &[u8; 4],
)
    requires
        old(b).inv(old(buf)@),
        old(b).written().len() == 0,
    ensures
        final(b).inv(final(buf)@),
        final(b).init() == old(b).init(),
        final(b).written() == spec_session_header(session_id, stream_id, seq, client_key@),
{
    b.u8(buf, session_id);
    b.u8(buf, stream_id);
    b.u16_raw(buf, seq);
    if session_id < SESSION_ID_WITHOUT_CLIENT_KEY {
        b.bytes(buf, client_key);
    }
    assert(b.written() =~= spec_session_header(session_id, stream_id, seq, client_key@));
}

// ── MsgWriter ─────────────────────────────────────────────────────────────────

/// Cursor for building XRCE-DDS wire frames into a buffer that each call is
/// handed.
///
/// Tracks overflow instead of panicking: bytes past the end are dropped and
/// the cursor keeps counting, so callers check [`MsgWriter::overflow`] at the
/// end to detect buffer exhaustion. `written` is the message as it would
/// stand in an unbounded buffer; the real buffer holds its prefix over the
/// buffer's original contents.
pub(crate) struct MsgWriter {
    pos: usize,
    overflow: bool,
    init: Ghost<Seq<u8>>,
    written: Ghost<Seq<u8>>,
}

impl MsgWriter {
    /// The buffer's contents before the first write.
    pub(crate) closed spec fn init(&self) -> Seq<u8> {
        self.init@
    }

    /// The whole message emitted so far, including bytes that did not fit.
    pub(crate) closed spec fn written(&self) -> Seq<u8> {
        self.written@
    }

    /// `buf` is the buffer this writer has been writing into.
    pub(crate) closed spec fn inv(&self, buf: Seq<u8>) -> bool {
        &&& buf.len() == self.init@.len()
        &&& buf == overwrite(self.init@, 0, self.written@)
        &&& self.pos == self.written@.len()
        &&& self.overflow == (self.written@.len() > self.init@.len())
    }

    pub(crate) fn new(buf: &[u8]) -> (w: Self)
        ensures
            w.inv(buf@),
            w.init() == buf@,
            w.written() == Seq::<u8>::empty(),
    {
        proof { lemma_overwrite_empty(buf@, 0); }
        MsgWriter { pos: 0, overflow: false, init: Ghost(buf@), written: Ghost(Seq::empty()) }
    }

    /// The buffer holds what was written over what it held at the start.
    pub(crate) proof fn lemma_buffer(&self, buf: Seq<u8>)
        requires
            self.inv(buf),
        ensures
            buf == overwrite(self.init(), 0, self.written()),
            buf.len() == self.init().len(),
    {
    }

    pub(crate) fn pos(&self, Ghost(buf): Ghost<Seq<u8>>) -> (p: usize)
        requires
            self.inv(buf),
        ensures
            p == self.written().len(),
    {
        self.pos
    }

    pub(crate) fn overflow(&self, buf: &[u8]) -> (o: bool)
        requires
            self.inv(buf@),
        ensures
            o == (self.written().len() > self.init().len()),
    {
        self.overflow || self.pos > buf.len()
    }

    /// Append `data` at the cursor.
    pub(crate) fn bytes(&mut self, buf: &mut [u8], data: &[u8])
        requires
            old(self).inv(old(buf)@),
            old(self).written().len() + data@.len() <= usize::MAX,
        ensures
            final(self).inv(final(buf)@),
            final(self).init() == old(self).init(),
            final(self).written() == old(self).written() + data@,
    {
        let ghost w0 = self.written@;
        let ghost b0 = buf@;
        let len = buf.len();
        let n: usize = if self.pos >= len {
            0
        } else if data.len() < len - self.pos {
            data.len()
        } else {
            len - self.pos
        };
        if data.len() > n {
            self.overflow = true;
        }
        let mut i: usize = 0;
        while i < n
            invariant
                n <= data@.len(),
                len == b0.len(),
                n == 0 || old(self).pos + n <= len,
                n == data@.len() || old(self).pos + n == len || n == 0,
                self.pos == old(self).pos,
                i <= n,
                buf@.len() == len,
                forall|k: int| 0 <= k < len ==> buf@[k] == (
                    if old(self).pos <= k < old(self).pos + i { data@[k - old(self).pos] } else { b0[k] }),
            decreases n - i,
        {
            buf[self.pos + i] = data[i];
            i += 1;
        }
        proof {
            reveal(overwrite);
            assert(buf@ =~= overwrite(b0, w0.len() as int, data@));
            lemma_overwrite_append(self.init@, 0, w0, data@);
        }
        self.pos += data.len();
        self.written = Ghost(w0 + data@);
        proof {
            if data@.len() == 0 {
                assert(w0 + data@ =~= w0);
            }
        }
    }

    /// Append one byte.
    pub(crate) fn u8(&mut self, buf: &mut [u8], v: u8)
        requires
            old(self).inv(old(buf)@),
            old(self).written().len() + 1 <= usize::MAX,
        ensures
            final(self).inv(final(buf)@),
            final(self).init() == old(self).init(),
            final(self).written() == old(self).written() + seq![v],
    {
        let b = [v];
        assert(b@ =~= seq![v]);
        self.bytes(buf, &b);
    }

    /// Append a u16 little-endian without aligning.
    pub(crate) fn u16_raw(&mut self, buf: &mut [u8], v: u16)
        requires
            old(self).inv(old(buf)@),
            old(self).written().len() + 2 <= usize::MAX,
        ensures
            final(self).inv(final(buf)@),
            final(self).init() == old(self).init(),
            final(self).written() == old(self).written() + le16(v),
    {
        let b = le16_bytes(v);
        self.bytes(buf, &b);
    }

    /// Append `k` zero bytes.
    fn zero_fill(&mut self, buf: &mut [u8], k: usize)
        requires
            old(self).inv(old(buf)@),
            old(self).written().len() + k <= usize::MAX,
        ensures
            final(self).inv(final(buf)@),
            final(self).init() == old(self).init(),
            final(self).written() == old(self).written() + zeros(k as int),
    {
        let ghost w0 = self.written@;
        let mut j: usize = 0;
        assert(w0 + zeros(0) =~= w0);
        while j < k
            invariant
                j <= k,
                w0.len() + k <= usize::MAX,
                self.inv(buf@),
                self.init() == old(self).init(),
                self.written() == w0 + zeros(j as int),
            decreases k - j,
        {
            self.u8(buf, 0);
            assert(w0 + zeros(j as int) + seq![0u8] =~= w0 + zeros(j + 1));
            j += 1;
        }
    }

    /// Pad with zeros to a buffer-relative `n`-byte boundary.
    pub(crate) fn align_buf(&mut self, buf: &mut [u8], n: usize)
        requires
            old(self).inv(old(buf)@),
            n > 0,
            old(self).written().len() + n <= usize::MAX,
        ensures
            final(self).inv(final(buf)@),
            final(self).init() == old(self).init(),
            final(self).written() == old(self).written() + zeros(pad(old(self).written().len() as int, n as int)),
    {
        let rem = self.pos % n;
        if rem != 0 {
            self.zero_fill(buf, n - rem);
        } else {
            assert(self.written@ + zeros(0) =~= self.written@);
        }
    }

    /// Pad with zeros so that `(pos - origin) % n == 0`.
    fn cdr_align(&mut self, buf: &mut [u8], origin: usize, n: usize)
        requires
            old(self).inv(old(buf)@),
            n > 0,
            origin <= old(self).written().len(),
            old(self).written().len() + n <= usize::MAX,
        ensures
            final(self).inv(final(buf)@),
            final(self).init() == old(self).init(),
            final(self).written() == old(self).written() + zeros(pad(old(self).written().len() - origin, n as int)),
    {
        let rem = (self.pos - origin) % n;
        if rem != 0 {
            self.zero_fill(buf, n - rem);
        } else {
            assert(self.written@ + zeros(0) =~= self.written@);
        }
    }

    pub(crate) fn cdr_u16(&mut self, buf: &mut [u8], v: u16, origin: usize)
        requires
            old(self).inv(old(buf)@),
            origin <= old(self).written().len(),
            old(self).written().len() + 4 <= usize::MAX,
        ensures
            final(self).inv(final(buf)@),
            final(self).init() == old(self).init(),
            final(self).written() == old(self).written() + zeros(pad(old(self).written().len() - origin, 2)) + le16(v),
    {
        self.cdr_align(buf, origin, 2);
        self.u16_raw(buf, v);
    }

    pub(crate) fn cdr_i16(&mut self, buf: &mut [u8], v: i16, origin: usize)
        requires
            old(self).inv(old(buf)@),
            origin <= old(self).written().len(),
            old(self).written().len() + 4 <= usize::MAX,
        ensures
            final(self).inv(final(buf)@),
            final(self).init() == old(self).init(),
            final(self).written() == old(self).written() + zeros(pad(old(self).written().len() - origin, 2)) + le16(v as u16),
    {
        self.cdr_u16(buf, v as u16, origin);
    }

    fn cdr_u32(&mut self, buf: &mut [u8], v: u32, origin: usize)
        requires
            old(self).inv(old(buf)@),
            origin <= old(self).written().len(),
            old(self).written().len() + 8 <= usize::MAX,
        ensures
            final(self).inv(final(buf)@),
            final(self).init() == old(self).init(),
            final(self).written() == old(self).written() + zeros(pad(old(self).written().len() - origin, 4)) + le32(v),
    {
        self.cdr_align(buf, origin, 4);
        let b = le32_bytes(v);
        self.bytes(buf, &b);
    }

    /// CDR string: u32 length (including the null terminator), the bytes, and
    /// the terminating zero byte. Fails once anything has fallen outside the
    /// buffer.
    pub(crate) fn cdr_string(&mut self, buf: &mut [u8], s: &[u8], origin: usize) -> (r: Result<(), Error>)
        requires
            old(self).inv(old(buf)@),
            origin <= old(self).written().len(),
            s@.len() < u32::MAX,
            old(self).written().len() + s@.len() + 9 <= usize::MAX,
        ensures
            final(self).inv(final(buf)@),
            final(self).init() == old(self).init(),
            final(self).written() == old(self).written() + spec_cdr_string(s@, old(self).written().len() - origin),
            r == (if final(self).written().len() > final(self).init().len() {
                Err::<(), Error>(Error::BufferTooSmall)
            } else {
                Ok(())
            }),
    {
        let ghost w0 = self.written@;
        let len_with_null = s.len() as u32 + 1;
        self.cdr_u32(buf, len_with_null, origin);
        self.bytes(buf, s);
        self.u8(buf, 0);
        assert(self.written@ =~= w0 + spec_cdr_string(s@, w0.len() - origin));
        if self.overflow(buf) {
            return Err(Error::BufferTooSmall);
        }
        Ok(())
    }

    /// Overwrite two already-emitted bytes at `offset` with `value` (LE);
    /// flags overflow instead when they do not fit in the buffer.
    pub(crate) fn patch_u16_at(&mut self, buf: &mut [u8], offset: usize, value: u16)
        requires
            old(self).inv(old(buf)@),
            offset + 2 <= old(self).written().len(),
        ensures
            final(self).inv(final(buf)@),
            final(self).init() == old(self).init(),
            final(self).written() == if offset + 2 <= old(self).init().len() {
                old(self).written().take(offset as int) + le16(value) + old(self).written().skip(offset + 2)
            } else {
                old(self).written()
            },
    {
        let ghost w0 = self.written@;
        if offset + 2 <= buf.len() {
            let b = le16_bytes(value);
            buf[offset] = b[0];
            buf[offset + 1] = b[1];
            let ghost w1 = w0.take(offset as int) + le16(value) + w0.skip(offset + 2);
            self.written = Ghost(w1);
            proof {
                reveal(overwrite);
                assert(buf@ =~= overwrite(self.init@, 0, w1));
            }
        } else {
            self.overflow = true;
        }
    }
}

/// What a STATUS_AGENT reply says of the handshake: for a reply made of the
/// message header, a STATUS_AGENT submessage header (id 4) and a payload
/// whose first byte is the result status `status`, the handshake succeeds
/// exactly when `status` is 0 and is otherwise rejected with `status`,
/// whatever follows it (the implementation status and the agent's
/// representation); a reply whose submessage is anything else is
/// unexpected.
pub proof fn lemma_status_agent_verdict(hdr: Seq<u8>, session_id: u8, id: u8, flags: u8, len_slot: Seq<u8>,
    status: u8, rest: Seq<u8>)
    requires
        hdr.len() == spec_msg_header_len(session_id),
        len_slot.len() == 2,
        rest.len() >= 1,
    ensures
        ({
            let msg = hdr + seq![id, flags] + len_slot + seq![status] + rest;
            &&& id == 4 && status == 0 ==> spec_status_agent_result(msg, session_id) == Ok::<(), Error>(())
            &&& id == 4 && status != 0 ==> spec_status_agent_result(msg, session_id) == Err::<(), Error>(
                Error::AgentRejected(status))
            &&& id != 4 ==> spec_status_agent_result(msg, session_id) == Err::<(), Error>(Error::UnexpectedReply)
        }),
{
    let h = hdr.len() as int;
    let msg = hdr + seq![id, flags] + len_slot + seq![status] + rest;
    assert(msg[h] == id);
    assert(msg[h + 4] == status);
}

} // verus!
