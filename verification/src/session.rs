//! The standalone, blocking-style XRCE-DDS session: entity handles, the
//! CREATE_CLIENT builder, the sequence / request-id counters of a session,
//! the WRITE_DATA encoder, the STATUS check and the XML descriptions of its
//! entities.
//!
//! The XML here is written byte by byte into a caller-supplied buffer: what
//! does not fit is cut off, and a cut that leaves invalid UTF-8 yields an
//! empty description.

use vstd::prelude::*;
use vstd::string::StringSliceAdditionalSpecFns;
use vstd::utf8::valid_utf8;
use crate::error::Error;
use crate::node::spec_piece_bytes;
use crate::protocol::{
    object_id_be_bytes, request_id_be_bytes, FLAG_LE, FORMAT_DATA, STATUS_OK, STATUS_OK_MATCHED,
    STREAM_BEST_EFFORT, SUBMSG_STATUS, SUBMSG_WRITE_DATA,
};
use crate::rt::encode::{
    build_create_client, msg_header_len, spec_base_request, spec_concat, spec_create_client,
    spec_create_client_hdr_off, spec_frame, spec_len_field, spec_msg_header_len, spec_session_header,
    write_session_header, MsgWriter,
};
use crate::wire::{be16, le16, overwrite, str_from_utf8, u16_from_be, zeros};

verus! {

/// An XRCE-DDS entity ID, in its packed `(idx << 4) | kind` form.
#[derive(Clone, Copy)]
pub struct ObjectId(pub u16);

/// Opaque DataWriter handle, for writing data.
#[derive(Clone, Copy)]
pub struct DataWriterId(pub u16);

/// MTU announced in CREATE_CLIENT.
pub const DEFAULT_MTU: u16 = 512;

/// Build a CREATE_CLIENT message into `buf` (without the TCP length
/// prefix) with the default MTU. Returns the length of the whole message;
/// when `buf` is shorter only the bytes that fit are written.
pub fn create_client_msg(buf: &mut [u8], session_id: u8, client_key: &[u8; 4]) -> (n: usize)
    ensures
        n == spec_create_client(session_id, client_key@, 512, 16).len(),
        final(buf)@ == overwrite(
            old(buf)@,
            0,
            if spec_create_client_hdr_off(session_id) + 4 <= old(buf)@.len() {
                spec_create_client(session_id, client_key@, 512, 16)
            } else {
                spec_create_client(session_id, client_key@, 512, 0)
            },
        ),
{
    build_create_client(buf, session_id, client_key, DEFAULT_MTU)
}

// ── Counters ──────────────────────────────────────────────────────────────────

/// Identity and counters of a standalone session.
pub struct SessionCounters {
    pub session_id: u8,
    pub client_key: [u8; 4],
    /// The next sequence number to hand out.
    pub seq: u16,
    /// The next request id to hand out.
    pub req_id: u16,
}

impl SessionCounters {
    /// A freshly established session: sequence numbers from 0, request ids
    /// from 1.
    pub fn new(session_id: u8, client_key: [u8; 4]) -> (c: Self)
        ensures
            c.session_id == session_id,
            c.client_key == client_key,
            c.seq == 0,
            c.req_id == 1,
    {
        Self { session_id, client_key, seq: 0, req_id: 1 }
    }

    /// Hand out a request id; the counter wraps around to 1, never to 0.
    pub fn next_req(&mut self) -> (r: u16)
        ensures
            r == old(self).req_id,
            final(self).req_id == if r == u16::MAX { 1 } else { r + 1 },
            final(self).seq == old(self).seq,
            final(self).session_id == old(self).session_id,
            final(self).client_key == old(self).client_key,
    {
        let r = self.req_id;
        let n = self.req_id.wrapping_add(1);
        self.req_id = if n > 1 { n } else { 1 };
        r
    }

    /// Hand out a sequence number; the counter wraps around.
    pub fn next_seq(&mut self) -> (r: u16)
        ensures
            r == old(self).seq,
            final(self).seq == r.wrapping_add(1),
            final(self).req_id == old(self).req_id,
            final(self).session_id == old(self).session_id,
            final(self).client_key == old(self).client_key,
    {
        let s = self.seq;
        self.seq = self.seq.wrapping_add(1);
        s
    }
}

// ── WRITE_DATA ────────────────────────────────────────────────────────────────

/// The WRITE_DATA payload: request id 0, the DataWriter, then the sample.
pub open spec fn spec_write_data_payload(dw_id: u16, payload: Seq<u8>) -> Seq<u8> {
    spec_base_request(0, dw_id) + payload
}

/// Build a WRITE_DATA message (FORMAT_DATA, best effort) carrying
/// `cdr_payload` for the DataWriter `dw_id`.
///
/// `Ok(n)` exactly when the message fits in `buf`; then `buf` starts with it
/// and `n` is its length. Otherwise `Err(BufferTooSmall)` and the bytes that
/// fit are written (the length slot only when it fits).
pub fn encode_write_data(
    buf: &mut [u8],
    session_id: u8,
    seq: u16,
    client_key: &[u8; 4],
    dw_id: u16,
    cdr_payload: &[u8],
) -> (r: Result<usize, Error>)
    requires
        cdr_payload@.len() + 32 <= usize::MAX,
    ensures
        ({
            let payload = spec_write_data_payload(dw_id, cdr_payload@);
            let header = spec_session_header(session_id, 1, seq, client_key@);
            let full = spec_frame(header, 7, 1, spec_len_field(payload), payload);
            let unpatched = spec_frame(header, 7, 1, 0, payload);
            &&& r is Ok <==> full.len() <= old(buf)@.len()
            &&& r matches Ok(n) ==> n == full.len() && final(buf)@ == overwrite(old(buf)@, 0, full)
            &&& r is Err ==> r == Err::<usize, Error>(Error::BufferTooSmall) && final(buf)@ == overwrite(old(buf)@, 0,
                if spec_msg_header_len(session_id) + 4 <= old(buf)@.len() { full } else { unpatched })
        }),
{
    let mut b = MsgWriter::new(buf);
    write_session_header(&mut b, buf, session_id, STREAM_BEST_EFFORT, seq, client_key);

    b.align_buf(buf, 4);
    proof {
        assert(zeros(0) =~= Seq::<u8>::empty());
        assert(b.written() =~= spec_session_header(session_id, 1, seq, client_key@));
    }
    let hdr_off = b.pos(Ghost(buf@));
    b.u8(buf, SUBMSG_WRITE_DATA);
    b.u8(buf, FLAG_LE | FORMAT_DATA);
    b.u16_raw(buf, 0);
    let payload_origin = b.pos(Ghost(buf@));

    // BaseObjectRequest; the request id is unused for best-effort writes.
    let rq = request_id_be_bytes(0);
    b.bytes(buf, &rq);
    let oq = object_id_be_bytes(dw_id);
    b.bytes(buf, &oq);
    // The CDR sample is appended raw.
    b.bytes(buf, cdr_payload);

    let payload_len = b.pos(Ghost(buf@)) - payload_origin;
    proof {
        assert(FLAG_LE | FORMAT_DATA == 1u8) by (bit_vector);
        let w = b.written();
        let payload = spec_write_data_payload(dw_id, cdr_payload@);
        let header = spec_session_header(session_id, 1, seq, client_key@);
        assert(w =~= spec_frame(header, 7, 1, 0, payload));
        assert(hdr_off == spec_msg_header_len(session_id));
        assert(payload_len == payload.len());
        assert(w.take(hdr_off + 2) + le16(payload_len as u16) + w.skip(hdr_off + 4)
            =~= spec_frame(header, 7, 1, spec_len_field(payload), payload));
    }
    b.patch_u16_at(buf, hdr_off + 2, payload_len as u16);
    proof { b.lemma_buffer(buf@); }
    if b.overflow(buf) {
        return Err(Error::BufferTooSmall);
    }
    Ok(b.pos(Ghost(buf@)))
}

// ── STATUS ────────────────────────────────────────────────────────────────────

/// Outcome of the STATUS reply to the CREATE with request id `expected_req`:
/// too short (under header + submessage header + 6 bytes) or another
/// submessage → `UnexpectedReply`; a STATUS for another request →
/// `StatusReqMismatch`; a status other than OK / OK_MATCHED →
/// `AgentRejected(status)`.
pub open spec fn spec_session_status(msg: Seq<u8>, session_id: u8, expected_req: u16) -> Result<(), Error> {
    let h = spec_msg_header_len(session_id);
    if msg.len() < h + 10 {
        Err(Error::UnexpectedReply)
    } else if msg[h] != 5 {
        Err(Error::UnexpectedReply)
    } else if u16_from_be(msg[h + 4], msg[h + 5]) != expected_req {
        Err(Error::StatusReqMismatch)
    } else if msg[h + 8] != 0 && msg[h + 8] != 1 {
        Err(Error::AgentRejected(msg[h + 8]))
    } else {
        Ok(())
    }
}

/// Check the STATUS reply to the CREATE with request id `expected_req`.
pub fn parse_status(msg: &[u8], session_id: u8, expected_req: u16) -> (r: Result<(), Error>)
    ensures
        r == spec_session_status(msg@, session_id, expected_req),
{
    let hdr = msg_header_len(session_id);
    if msg.len() < hdr + 4 + 6 {
        return Err(Error::UnexpectedReply);
    }
    if msg[hdr] != SUBMSG_STATUS {
        return Err(Error::UnexpectedReply);
    }
    let got_req = ((msg[hdr + 4] as u16) << 8) | (msg[hdr + 5] as u16);
    if got_req != expected_req {
        return Err(Error::StatusReqMismatch);
    }
    let status = msg[hdr + 8];
    if status != STATUS_OK && status != STATUS_OK_MATCHED {
        return Err(Error::AgentRejected(status));
    }
    Ok(())
}

// ── XML descriptions ──────────────────────────────────────────────────────────

/// What writing `pieces` into a buffer of `cap` bytes leaves as text: all
/// of them, cut off at the buffer's end, or nothing when the cut leaves
/// invalid UTF-8.
pub open spec fn spec_cut_text(pieces: Seq<Seq<u8>>, cap: int) -> Seq<u8> {
    let all = spec_concat(pieces);
    let kept = all.take(if all.len() < cap { all.len() as int } else { cap });
    if valid_utf8(kept) { kept } else { Seq::empty() }
}

/// Write the pieces one after another into `buf`, cutting off what does not
/// fit, and read back what landed as text.
fn write_cut_text<'b>(buf: &'b mut [u8], pieces: &[&str]) -> (r: &'b str)
    requires
        spec_concat(spec_piece_bytes(pieces@)).len() <= usize::MAX,
    ensures
        r.spec_bytes() == spec_cut_text(spec_piece_bytes(pieces@), old(buf)@.len() as int),
{
    let ghost all = spec_piece_bytes(pieces@);
    let mut b = MsgWriter::new(buf);
    let mut i: usize = 0;
    proof { lemma_concat_take_len(all, 0); }
    assert(all.take(0) =~= Seq::<Seq<u8>>::empty());
    while i < pieces.len()
        invariant
            i <= pieces@.len(),
            all == spec_piece_bytes(pieces@),
            spec_concat(all).len() <= usize::MAX,
            b.inv(buf@),
            b.init() == old(buf)@,
            b.written() == spec_concat(all.take(i as int)),
        decreases pieces@.len() - i,
    {
        proof {
            assert(all.take(i + 1).drop_last() =~= all.take(i as int));
            lemma_concat_take_len(all, i + 1);
        }
        b.bytes(buf, pieces[i].as_bytes());
        i += 1;
    }
    proof { assert(all.take(all.len() as int) =~= all); }
    let total = b.pos(Ghost(buf@));
    let len = buf.len();
    let end = if total < len { total } else { len };
    let ghost init = b.init();
    proof {
        b.lemma_buffer(buf@);
        crate::wire::lemma_overwrite_index(init, 0, spec_concat(all));
    }
    let out: &'b [u8] = buf;
    assert(out@.take(end as int) =~= spec_concat(all).take(end as int));
    let kept = &out[0..end];
    assert(kept@ =~= spec_concat(all).take(end as int));
    assert(end == (if spec_concat(all).len() < old(buf)@.len() { spec_concat(all).len() as int } else { old(buf)@.len() as int }));
    match str_from_utf8(kept) {
        Some(s) => {
            assert(s.spec_bytes() == spec_cut_text(all, old(buf)@.len() as int));
            s
        }
        None => {
            let empty: &'b str = "";
            proof {
                reveal_strlit("");
                vstd::string::is_ascii_spec_bytes("");
                assert(empty.spec_bytes() =~= Seq::<u8>::empty());
                assert(spec_cut_text(all, old(buf)@.len() as int) =~= Seq::<u8>::empty());
            }
            empty
        }
    }
}

/// Three pieces one after another.
proof fn lemma_concat3(a: Seq<u8>, b: Seq<u8>, c: Seq<u8>)
    ensures
        spec_concat(seq![a, b, c]) == a + b + c,
{
    assert(seq![a].drop_last() =~= Seq::<Seq<u8>>::empty());
    assert(spec_concat(Seq::<Seq<u8>>::empty()) == Seq::<u8>::empty());
    assert(seq![a].last() == a);
    assert(Seq::<u8>::empty() + a =~= a);
    assert(spec_concat(seq![a]) == a);
    assert(seq![a, b].drop_last() =~= seq![a]);
    assert(spec_concat(seq![a, b]) == a + b);
    assert(seq![a, b, c].drop_last() =~= seq![a, b]);
}

/// Five pieces one after another.
proof fn lemma_concat5(a: Seq<u8>, b: Seq<u8>, c: Seq<u8>, d: Seq<u8>, e: Seq<u8>)
    ensures
        spec_concat(seq![a, b, c, d, e]) == a + b + c + d + e,
{
    lemma_concat3(a, b, c);
    assert(seq![a, b, c, d].drop_last() =~= seq![a, b, c]);
    assert(spec_concat(seq![a, b, c, d]) == a + b + c + d);
    assert(seq![a, b, c, d, e].drop_last() =~= seq![a, b, c, d]);
}

/// The first `k` pieces never make more bytes than all of them.
proof fn lemma_concat_take_len(pieces: Seq<Seq<u8>>, k: int)
    requires
        0 <= k <= pieces.len(),
    ensures
        spec_concat(pieces.take(k)).len() <= spec_concat(pieces).len(),
    decreases pieces.len(),
{
    if k < pieces.len() {
        assert(pieces.take(k) =~= pieces.drop_last().take(k));
        lemma_concat_take_len(pieces.drop_last(), k);
    } else {
        assert(pieces.take(k) =~= pieces);
    }
}

/// Participant XML naming the node `name`, written into `buf`.
pub fn fmt_participant_xml<'b>(buf: &'b mut [u8], name: &str) -> (r: &'b str)
    requires
        name.spec_bytes().len() + 128 <= usize::MAX,
    ensures
        r.spec_bytes() == spec_cut_text(seq!["<dds><participant><rtps><name>".spec_bytes(), name.spec_bytes(),
            "</name></rtps></participant></dds>".spec_bytes()], old(buf)@.len() as int),
{
    let pieces = ["<dds><participant><rtps><name>", name, "</name></rtps></participant></dds>"];
    proof {
        reveal_strlit("<dds><participant><rtps><name>");
        reveal_strlit("</name></rtps></participant></dds>");
        vstd::string::is_ascii_spec_bytes("<dds><participant><rtps><name>");
        vstd::string::is_ascii_spec_bytes("</name></rtps></participant></dds>");
        lemma_concat3("<dds><participant><rtps><name>".spec_bytes(), name.spec_bytes(),
            "</name></rtps></participant></dds>".spec_bytes());
        assert(spec_piece_bytes(pieces@) =~= seq!["<dds><participant><rtps><name>".spec_bytes(), name.spec_bytes(),
            "</name></rtps></participant></dds>".spec_bytes()]);
    }
    write_cut_text(buf, &pieces)
}


/// Topic XML for the DDS topic `dds_name` of type `dds_type`, written into
/// `buf`.
pub fn fmt_topic_xml<'b>(buf: &'b mut [u8], dds_name: &str, dds_type: &str) -> (r: &'b str)
    requires
        dds_name.spec_bytes().len() + dds_type.spec_bytes().len() + 128 <= usize::MAX,
    ensures
        r.spec_bytes() == spec_cut_text(seq!["<dds><topic><name>".spec_bytes(), dds_name.spec_bytes(),
            "</name><dataType>".spec_bytes(), dds_type.spec_bytes(), "</dataType></topic></dds>".spec_bytes()],
            old(buf)@.len() as int),
{
    let pieces = ["<dds><topic><name>", dds_name, "</name><dataType>", dds_type, "</dataType></topic></dds>"];
    proof {
        reveal_strlit("<dds><topic><name>");
        reveal_strlit("</name><dataType>");
        reveal_strlit("</dataType></topic></dds>");
        vstd::string::is_ascii_spec_bytes("<dds><topic><name>");
        vstd::string::is_ascii_spec_bytes("</name><dataType>");
        vstd::string::is_ascii_spec_bytes("</dataType></topic></dds>");
        lemma_concat5("<dds><topic><name>".spec_bytes(), dds_name.spec_bytes(), "</name><dataType>".spec_bytes(),
            dds_type.spec_bytes(), "</dataType></topic></dds>".spec_bytes());
        assert(spec_piece_bytes(pieces@) =~= seq!["<dds><topic><name>".spec_bytes(), dds_name.spec_bytes(),
            "</name><dataType>".spec_bytes(), dds_type.spec_bytes(), "</dataType></topic></dds>".spec_bytes()]);
    }
    write_cut_text(buf, &pieces)
}

/// DataWriter XML for the DDS topic `dds_name` of type `dds_type`, written
/// into `buf`.
pub fn fmt_datawriter_xml<'b>(buf: &'b mut [u8], dds_name: &str, dds_type: &str) -> (r: &'b str)
    requires
        dds_name.spec_bytes().len() + dds_type.spec_bytes().len() + 128 <= usize::MAX,
    ensures
        r.spec_bytes() == spec_cut_text(seq!["<dds><data_writer><topic><kind>NO_KEY</kind><name>".spec_bytes(),
            dds_name.spec_bytes(), "</name><dataType>".spec_bytes(), dds_type.spec_bytes(),
            "</dataType></topic></data_writer></dds>".spec_bytes()], old(buf)@.len() as int),
{
    let pieces = ["<dds><data_writer><topic><kind>NO_KEY</kind><name>", dds_name, "</name><dataType>", dds_type,
        "</dataType></topic></data_writer></dds>"];
    proof {
        reveal_strlit("<dds><data_writer><topic><kind>NO_KEY</kind><name>");
        reveal_strlit("</name><dataType>");
        reveal_strlit("</dataType></topic></data_writer></dds>");
        vstd::string::is_ascii_spec_bytes("<dds><data_writer><topic><kind>NO_KEY</kind><name>");
        vstd::string::is_ascii_spec_bytes("</name><dataType>");
        vstd::string::is_ascii_spec_bytes("</dataType></topic></data_writer></dds>");
        lemma_concat5("<dds><data_writer><topic><kind>NO_KEY</kind><name>".spec_bytes(), dds_name.spec_bytes(),
            "</name><dataType>".spec_bytes(), dds_type.spec_bytes(),
            "</dataType></topic></data_writer></dds>".spec_bytes());
        assert(spec_piece_bytes(pieces@) =~= seq!["<dds><data_writer><topic><kind>NO_KEY</kind><name>".spec_bytes(),
            dds_name.spec_bytes(), "</name><dataType>".spec_bytes(), dds_type.spec_bytes(),
            "</dataType></topic></data_writer></dds>".spec_bytes()]);
    }
    write_cut_text(buf, &pieces)
}

/// What a STATUS reply says of a CREATE: for a reply made of the message
/// header, a STATUS submessage header (id 5) and a payload holding the
/// related request id `req` (big-endian), an object id, then the result
/// status `status`, the CREATE waited for as `expected_req` succeeds
/// exactly when the request ids agree and `status` is OK (0) or OK_MATCHED
/// (1); a reply to another request is a mismatch, any other status a
/// rejection with that status, and any other submessage unexpected.
pub proof fn lemma_status_verdict(hdr: Seq<u8>, session_id: u8, id: u8, flags: u8, len_slot: Seq<u8>, req: u16,
    obj: Seq<u8>, status: u8, rest: Seq<u8>, expected_req: u16)
    requires
        hdr.len() == spec_msg_header_len(session_id),
        len_slot.len() == 2,
        obj.len() == 2,
        rest.len() >= 1,
    ensures
        ({
            let msg = hdr + seq![id, flags] + len_slot + be16(req) + obj + seq![status] + rest;
            let r = spec_session_status(msg, session_id, expected_req);
            &&& id != 5 ==> r == Err::<(), Error>(Error::UnexpectedReply)
            &&& id == 5 && req != expected_req ==> r == Err::<(), Error>(Error::StatusReqMismatch)
            &&& id == 5 && req == expected_req && (status == 0 || status == 1) ==> r == Ok::<(), Error>(())
            &&& id == 5 && req == expected_req && status != 0 && status != 1 ==> r == Err::<(), Error>(
                Error::AgentRejected(status))
        }),
{
    let h = hdr.len() as int;
    let msg = hdr + seq![id, flags] + len_slot + be16(req) + obj + seq![status] + rest;
    assert(msg[h] == id);
    assert(msg[h + 4] == be16(req)[0]);
    assert(msg[h + 5] == be16(req)[1]);
    assert(msg[h + 8] == status);
    assert(((((req >> 8u16) as u8) as u16) << 8u16) | ((req as u8) as u16) == req) by (bit_vector);
}

} // verus!
