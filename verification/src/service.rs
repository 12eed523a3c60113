//! ROS2-style service support — the [`Service`] trait, the 24-byte
//! [`SampleIdentity`] correlation prefix, and the decoding of incoming
//! request / reply samples.
//!
//! Each ROS service body starts with a `SampleIdentity` (16-byte writer GUID
//! + 8-byte i64 sequence number) which the agent echoes from request to
//! reply. A client uses the sequence number to correlate a reply with the
//! pending call; a server echoes the identity back in its reply.

use vstd::prelude::*;
use crate::action::{lemma_array16, spec_array16};
use crate::cdr::{cdr_i64, CdrWriter};
use crate::cdr_reader::{
    holds_at, lemma_read_bytes_written, lemma_read_i64_written, spec_read_bytes, spec_read_i64,
    CdrReader,
};
use crate::error::Error;
use crate::message::{reads_back, Message};
use crate::publisher::{spec_sample_body, spec_write_data_outcome, spec_write_data_prefix, write_data_frame};
use crate::rt::encode::spec_write_data_header;
use crate::rt::inner::{spec_zero_frame, Frame, SessionState, SessionView, FRAME_BUF_SIZE};
use crate::wire::{be16, lemma_overwrite_append, overwrite};

verus! {

// ── Service trait ─────────────────────────────────────────────────────────────

/// Defines a ROS2 service by its request / response message types and DDS
/// type names (`<pkg>::srv::dds_::<Service>_Request_` / `..._Response_`).
pub trait Service: 'static {
    type Request: Message + Send + 'static;
    type Response: Message + Send + 'static;

    /// ROS service name, e.g. `"/add_two_ints"`.
    const SERVICE_NAME: &'static str;
    /// rosidl-generated DDS type name for the request half.
    const REQUEST_TYPE_NAME: &'static str;
    /// rosidl-generated DDS type name for the response half.
    const RESPONSE_TYPE_NAME: &'static str;
}

// ── SampleIdentity ────────────────────────────────────────────────────────────

/// 24-byte RPC correlation prefix carried at the start of every service
/// request / reply CDR body.
#[derive(Clone, Copy, Debug, PartialEq, Eq)]
pub struct SampleIdentity {
    pub writer_guid: [u8; 16],
    pub sequence_number: i64,
}

/// Reading a SampleIdentity: 16 raw GUID bytes, then an 8-aligned `i64`.
pub open spec fn spec_read_identity(buf: Seq<u8>, at: int) -> Option<(SampleIdentity, int)> {
    match spec_read_bytes(buf, at, 16) {
        Some((g, p)) => match spec_read_i64(buf, p) {
            Some((n, e)) => Some((SampleIdentity { writer_guid: spec_array16(g), sequence_number: n }, e)),
            None => None,
        },
        None => None,
    }
}

impl SampleIdentity {
    /// Length of the CDR-serialised form (16 + 8 bytes, naturally aligned).
    pub const SERIALIZED_LEN: usize = 24;

    /// The bytes written at offset `at`.
    pub open spec fn spec_encoding(&self, at: int) -> Seq<u8> {
        self.writer_guid@ + cdr_i64(at + 16, self.sequence_number)
    }

    pub fn serialize(&self, w: &mut CdrWriter)
        requires
            old(w).position() + self.spec_encoding(old(w).position()).len() <= usize::MAX,
        ensures
            final(w).data() == overwrite(old(w).data(), old(w).position(), self.spec_encoding(old(w).position())),
            final(w).position() == old(w).position() + self.spec_encoding(old(w).position()).len(),
    {
        let ghost p = w.position();
        let ghost d = w.data();
        w.bytes_raw(&self.writer_guid);
        w.i64_val(self.sequence_number);
        proof { lemma_overwrite_append(d, p, self.writer_guid@, cdr_i64(p + 16, self.sequence_number)); }
    }

    pub fn deserialize(r: &mut CdrReader) -> (res: Result<Self, Error>)
        requires
            old(r).wf(),
        ensures
            final(r).wf(),
            final(r).body() == old(r).body(),
            match spec_read_identity(old(r).body(), old(r).cursor()) {
                Some((id, e)) => res == Ok::<SampleIdentity, Error>(id) && final(r).cursor() == e,
                None => res == Err::<SampleIdentity, Error>(Error::Deserialization),
            },
    {
        let writer_guid = r.bytes_array::<16>()?;
        proof { lemma_array16(writer_guid@, writer_guid); }
        let sequence_number = r.i64_val()?;
        Ok(Self { writer_guid, sequence_number })
    }
}

/// What a read gives back of a written SampleIdentity.
pub proof fn lemma_identity_round_trip(id: SampleIdentity, buf: Seq<u8>, at: int)
    requires
        holds_at(buf, at, id.spec_encoding(at)),
    ensures
        spec_read_identity(buf, at) == Some((id, at + id.spec_encoding(at).len())),
{
    let enc = id.spec_encoding(at);
    assert(buf.subrange(at, at + 16) =~= id.writer_guid@) by {
        assert(buf.subrange(at, at + enc.len()).subrange(0, 16) =~= id.writer_guid@);
    }
    lemma_read_bytes_written(buf, at, id.writer_guid@);
    lemma_array16(id.writer_guid@, id.writer_guid);
    let t = cdr_i64(at + 16, id.sequence_number);
    assert(buf.subrange(at + 16, at + 16 + t.len()) =~= t) by {
        assert(buf.subrange(at, at + enc.len()).subrange(16, enc.len() as int) =~= t);
    }
    lemma_read_i64_written(buf, at + 16, id.sequence_number);
}

// ── Writer GUIDs ──────────────────────────────────────────────────────────────

/// A client's writer GUID: the client key, the requester oid big-endian,
/// four zero bytes and `"XRCECL"`.
pub open spec fn spec_writer_guid(client_key: Seq<u8>, requester_oid: u16) -> Seq<u8> {
    client_key + be16(requester_oid) + seq![0u8, 0u8, 0u8, 0u8] + seq![0x58u8, 0x52u8, 0x43u8, 0x45u8, 0x43u8, 0x4Cu8]
}

/// Derive a stable 16-byte client GUID from `client_key + requester_oid`.
pub fn derive_writer_guid(client_key: &[u8; 4], requester_oid: u16) -> (g: [u8; 16])
    ensures
        g@ == spec_writer_guid(client_key@, requester_oid),
{
    let g = [
        client_key[0], client_key[1], client_key[2], client_key[3],
        (requester_oid >> 8) as u8, requester_oid as u8,
        0, 0, 0, 0,
        0x58, 0x52, 0x43, 0x45, 0x43, 0x4C, // "XRCECL"
    ];
    assert(g@ =~= spec_writer_guid(client_key@, requester_oid));
    g
}


// ── Sequence numbers ──────────────────────────────────────────────────────────

/// The sample sequence number after `prev`, wrapping around; `None` where
/// that would be 0, which is reserved ("no call pending") and must be
/// skipped.
pub fn next_sample_seq(prev: i64) -> (r: Option<i64>)
    ensures
        r == if prev.wrapping_add(1) == 0 { None::<i64> } else { Some(prev.wrapping_add(1)) },
{
    let n = prev.wrapping_add(1);
    if n != 0 { Some(n) } else { None }
}

// ── Incoming samples ──────────────────────────────────────────────────────────

/// A request received by a service server: the identity to echo in the
/// reply, and the request itself.
pub struct IncomingRequest<S: Service> {
    pub identity: SampleIdentity,
    pub payload: S::Request,
}

/// Decode a request sample (a raw CDR body): the identity, then the request.
pub fn decode_request<S: Service>(payload: &[u8]) -> (r: Result<IncomingRequest<S>, Error>)
    ensures
        spec_read_identity(payload@, 0) is None ==> r == Err::<IncomingRequest<S>, Error>(Error::Deserialization),
        r matches Ok(req) ==> (spec_read_identity(payload@, 0) matches Some((id, _)) && req.identity == id),
        S::Request::obeys_message_spec() ==> (r is Ok <==> (spec_read_identity(payload@, 0) matches Some((_, e))
            && S::Request::spec_decodable(payload@, e))),
        S::Request::obeys_message_spec() ==> (r matches Ok(req) ==> (spec_read_identity(payload@, 0) matches Some((
            id, e)) && req.identity == id && exists|end: int| #[trigger] S::Request::spec_decodes(payload@, e,
            req.payload, end))),
        r matches Err(err) ==> err == Error::Deserialization,
{
    let mut r = CdrReader::from_body(payload);
    let identity = SampleIdentity::deserialize(&mut r)?;
    let ghost e = r.cursor();
    let request = S::Request::deserialize(&mut r)?;
    proof {
        assert(spec_read_identity(payload@, 0) == Some((identity, e)));
        assert(S::Request::obeys_message_spec() ==> exists|end: int| #[trigger] S::Request::spec_decodes(payload@, e,
            request, end)) by {
            if S::Request::obeys_message_spec() {
                assert(S::Request::spec_decodes(payload@, e, request, r.cursor()));
            }
        }
    }
    let out = IncomingRequest::<S> { identity, payload: request };
    assert(out.payload == request);
    Ok(out)
}

/// `v` holds a value that decodes from `buf` at `at`.
pub open spec fn spec_decoded_some<M: Message>(buf: Seq<u8>, at: int, v: Option<M>) -> bool {
    match v {
        Some(m) => exists|end: int| #[trigger] M::spec_decodes(buf, at, m, end),
        None => false,
    }
}

/// Decode a reply sample (a raw CDR body) for a client whose pending call
/// has sequence number `pending` (0: none). A reply for no call or for
/// another call is dropped (`Ok(None)`); a matching one is decoded.
pub fn decode_reply<S: Service>(payload: &[u8], pending: i64) -> (r: Result<Option<S::Response>, Error>)
    ensures
        spec_read_identity(payload@, 0) is None ==> r == Err::<Option<S::Response>, Error>(Error::Deserialization),
        spec_read_identity(payload@, 0) matches Some((id, _)) && (pending == 0 || id.sequence_number != pending)
            ==> r == Ok::<Option<S::Response>, Error>(None),
        spec_read_identity(payload@, 0) matches Some((id, _)) ==> (pending != 0 && id.sequence_number == pending
            ==> (r matches Ok(v) ==> v is Some)),
        S::Response::obeys_message_spec() ==> (spec_read_identity(payload@, 0) matches Some((id, e)) ==> (pending != 0
            && id.sequence_number == pending ==> (r is Ok <==> S::Response::spec_decodable(payload@, e)))),
        S::Response::obeys_message_spec() ==> (spec_read_identity(payload@, 0) matches Some((id, e)) ==> (pending != 0
            && id.sequence_number == pending ==> (r matches Ok(v) ==> spec_decoded_some(payload@, e, v)))),
        r matches Err(err) ==> err == Error::Deserialization,
{
    let mut r = CdrReader::from_body(payload);
    let id = SampleIdentity::deserialize(&mut r)?;
    if pending == 0 || id.sequence_number != pending {
        // Stale or mismatched reply: dropped.
        return Ok(None);
    }
    let ghost e = r.cursor();
    let resp = S::Response::deserialize(&mut r)?;
    proof {
        assert(S::Response::obeys_message_spec() ==> exists|end: int| #[trigger] S::Response::spec_decodes(payload@,
            e, resp, end)) by {
            if S::Response::obeys_message_spec() {
                assert(S::Response::spec_decodes(payload@, e, resp, r.cursor()));
            }
        }
    }
    let out: Option<S::Response> = Some(resp);
    assert(out is Some);
    assert(out->0 == resp);
    assert(S::Response::obeys_message_spec() ==> spec_decoded_some(payload@, e, out));
    Ok(out)
}

// ── Outgoing samples ──────────────────────────────────────────────────────────

/// The WRITE_DATA frame of a service reply: `identity` echoed, then `resp`,
/// addressed to the replier `replier_oid`. Refused with `Disconnected` while
/// the transport is down and with `BufferTooSmall` when it would not fit;
/// both leave the session as it was.
pub fn reply_frame<M: Message>(
    state: &mut SessionState,
    replier_oid: u16,
    identity: &SampleIdentity,
    resp: &M,
) -> (r: Result<Frame, Error>)
    requires
        M::obeys_message_spec() ==> resp.spec_writable(),
        spec_sample_body(Some(*identity), *resp).len() <= usize::MAX,
    ensures
        old(state)@.disconnected ==> r == Err::<Frame, Error>(Error::Disconnected) && final(state)@ == old(state)@,
        !old(state)@.disconnected ==> spec_write_data_outcome(old(state)@, replier_oid, r, final(state)@),
        M::obeys_message_spec() ==> ({
            let s = old(state)@;
            let body = spec_sample_body(Some(*identity), *resp);
            let total = spec_write_data_prefix(s.session_id) + body.len();
            &&& !s.disconnected && total > FRAME_BUF_SIZE ==> r == Err::<Frame, Error>(Error::BufferTooSmall)
                && final(state)@ == s
            &&& !s.disconnected && total <= FRAME_BUF_SIZE ==> (r matches Ok(f) && {
                &&& f.len == total
                &&& f.bytes@ == overwrite(spec_zero_frame(), 0,
                    spec_write_data_header(s.session_id, s.seq, s.client_key, replier_oid, total) + body)
                &&& final(state)@ == (SessionView { seq: s.seq.wrapping_add(1), ..s })
            })
        }),
{
    state.require_connected()?;
    write_data_frame(state, replier_oid, Some(identity), resp)
}


/// What a service sample carries is what its receiver decodes: where a body
/// holds `identity` followed by `msg` (as [`reply_frame`] and a client's
/// request frame write them), reading it back yields `identity` and then a
/// message with the same encoding as `msg`, ending right after it.
pub proof fn lemma_sample_round_trip<M: Message>(identity: SampleIdentity, msg: M, body: Seq<u8>)
    requires
        reads_back(msg),
        holds_at(body, 0, spec_sample_body(Some(identity), msg)),
    ensures
        spec_read_identity(body, 0) == Some((identity, 24int)),
        M::spec_decodable(body, 24),
        forall|v: M, end: int| #[trigger] M::spec_decodes(body, 24, v, end) ==>
            end == 24 + msg.spec_encoding(24).len() && v.spec_encoding(24) == msg.spec_encoding(24),
{
    let id_enc = identity.spec_encoding(0);
    assert(id_enc.len() == 24);
    crate::action::lemma_split(body, 0, id_enc, msg.spec_encoding(24));
    lemma_identity_round_trip(identity, body, 0);
    assert(holds_at(body, 24, msg.spec_encoding(24)));
}

// ── The client side of a call ─────────────────────────────────────────────────

/// The next sequence number a client hands out after `prev`: one more,
/// skipping 0 (which marks "no call") after a wrap.
pub open spec fn spec_next_call_seq(prev: i64) -> i64 {
    if prev.wrapping_add(1) == 0 { 1 } else { prev.wrapping_add(1) }
}

/// The calls of one service client: the last sequence number handed out and
/// the sequence number of the call waiting for its reply (0 when none).
pub struct CallState {
    pub last_seq: i64,
    pub pending: i64,
}

impl CallState {
    /// No call made yet, none pending.
    pub fn new() -> (c: Self)
        ensures
            c.last_seq == 0,
            c.pending == 0,
    {
        Self { last_seq: 0, pending: 0 }
    }
}

/// Start a call of a service client through the requester `requester_oid`:
/// refused with `Disconnected` while the transport is down (nothing
/// changes); otherwise the next nonzero sequence number `s` after the last
/// one is taken, and the request frame carries the identity
/// `{writer_guid, s}` followed by `req`. When that frame does not fit the
/// call fails with `BufferTooSmall` and nothing is left pending; otherwise
/// `s` is the pending call and the frame is returned.
pub fn begin_call<M: Message>(
    call: &mut CallState,
    state: &mut SessionState,
    requester_oid: u16,
    writer_guid: [u8; 16],
    req: &M,
) -> (r: Result<Frame, Error>)
    requires
        M::obeys_message_spec() ==> req.spec_writable(),
        req.spec_encoding(24).len() + 24 <= usize::MAX,
    ensures
        ({
            let st = old(state)@;
            let s = spec_next_call_seq(old(call).last_seq);
            let body = spec_sample_body(Some(SampleIdentity { writer_guid, sequence_number: s }), *req);
            let total = spec_write_data_prefix(st.session_id) + body.len();
            &&& st.disconnected ==> r == Err::<Frame, Error>(Error::Disconnected) && final(state)@ == st
                && *final(call) == *old(call)
            &&& !st.disconnected ==> final(call).last_seq == s
            &&& !st.disconnected ==> spec_write_data_outcome(st, requester_oid, r, final(state)@)
            &&& !st.disconnected && final(call).pending != 0 ==> r is Ok && final(call).pending == s
            &&& !st.disconnected && r is Err ==> final(call).pending == 0
            &&& M::obeys_message_spec() && !st.disconnected && total > FRAME_BUF_SIZE ==> r == Err::<Frame, Error>(Error::BufferTooSmall)
                && final(state)@ == st && final(call).pending == 0
            &&& M::obeys_message_spec() && !st.disconnected && total <= FRAME_BUF_SIZE ==> (r matches Ok(f) && {
                &&& f.len == total
                &&& f.bytes@ == overwrite(spec_zero_frame(), 0,
                    spec_write_data_header(st.session_id, st.seq, st.client_key, requester_oid, total) + body)
                &&& final(state)@ == (SessionView { seq: st.seq.wrapping_add(1), ..st })
                &&& final(call).pending == s
            })
        }),
{
    if let Err(e) = state.require_connected() {
        return Err(e);
    }
    let n = call.last_seq.wrapping_add(1);
    let s = if n == 0 { 1 } else { n };
    call.last_seq = s;
    call.pending = s;
    let identity = SampleIdentity { writer_guid, sequence_number: s };
    assert(identity.spec_encoding(0).len() == 24);
    match write_data_frame(state, requester_oid, Some(&identity), req) {
        Ok(frame) => Ok(frame),
        Err(e) => {
            call.pending = 0;
            Err(e)
        },
    }
}

/// A call's sequence number never marks "no call".
pub proof fn lemma_call_seq_nonzero(prev: i64)
    ensures
        spec_next_call_seq(prev) != 0,
{
}

/// End the pending call, whether its reply came or it failed: nothing is
/// pending any more.
pub fn end_call(call: &mut CallState)
    ensures
        final(call).pending == 0,
        final(call).last_seq == old(call).last_seq,
{
    call.pending = 0;
}

} // verus!
