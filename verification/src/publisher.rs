//! Outgoing WRITE_DATA frames: a message (or a service sample) serialized as
//! a CDR body behind the WRITE_DATA headers, ready for the TX queue.

use vstd::prelude::*;
use crate::cdr::CdrWriter;
use crate::error::Error;
use crate::message::Message;
use crate::rt::encode::{finalize_write_data_headers, msg_header_len, spec_msg_header_len, spec_write_data_header};
use crate::rt::inner::{spec_zero_frame, Frame, SessionState, SessionView, FRAME_BUF_SIZE};
use crate::service::SampleIdentity;
use crate::wire::{copy_at, lemma_overwrite_append, lemma_overwrite_index, lemma_overwrite_join, lemma_overwrite_prefix, overwrite};

verus! {

/// The CDR body of a WRITE_DATA sample: the service identity, when there is
/// one, then the message (aligned from the start of the body).
pub open spec fn spec_sample_body<M: Message>(identity: Option<SampleIdentity>, msg: M) -> Seq<u8> {
    match identity {
        Some(id) => id.spec_encoding(0) + msg.spec_encoding(24),
        None => msg.spec_encoding(0),
    }
}

/// Bytes in front of the CDR body of a WRITE_DATA frame: message header,
/// submessage header and BaseObjectRequest.
pub open spec fn spec_write_data_prefix(session_id: u8) -> int {
    spec_msg_header_len(session_id) + 8
}

/// What every WRITE_DATA frame built from the session `s` for `oid` is,
/// whatever its payload: a refusal is always `BufferTooSmall` and leaves the
/// session as it was; a frame fits [`FRAME_BUF_SIZE`], starts with the
/// WRITE_DATA headers for its own length, and took the next sequence number.
pub open spec fn spec_write_data_outcome(s: SessionView, oid: u16, r: Result<Frame, Error>, after: SessionView) -> bool {
    &&& r is Err ==> r == Err::<Frame, Error>(Error::BufferTooSmall) && after == s
    &&& r matches Ok(f) ==> {
        let prefix = spec_write_data_prefix(s.session_id);
        &&& prefix <= f.len <= FRAME_BUF_SIZE
        &&& f.bytes@.subrange(0, prefix) == spec_write_data_header(s.session_id, s.seq, s.client_key, oid,
            f.len as int)
        &&& after == (SessionView { seq: s.seq.wrapping_add(1), ..s })
    }
}

/// Serialize the sample body into a scratch buffer with room for one byte
/// more than the frame can take; the bytes that landed are returned.
fn serialize_body<M: Message>(identity: Option<&SampleIdentity>, msg: &M, cap: usize) -> (body: Vec<u8>)
    requires
        M::obeys_message_spec() ==> msg.spec_writable(),
        spec_sample_body(match identity { Some(id) => Some(*id), None => None }, *msg).len() <= usize::MAX,
    ensures
        M::obeys_message_spec() ==> ({
            let enc = spec_sample_body(match identity { Some(id) => Some(*id), None => None }, *msg);
            &&& enc.len() <= cap ==> body@ == enc
            &&& enc.len() > cap ==> body@.len() == cap
        }),
{
    let ghost enc = spec_sample_body(match identity { Some(id) => Some(*id), None => None }, *msg);
    let mut scratch: Vec<u8> = vec![0u8; cap];
    let ghost z = scratch@;
    let mut w = CdrWriter::new(scratch.as_mut_slice());
    match identity {
        Some(id) => {
            id.serialize(&mut w);
            assert(id.spec_encoding(0).len() == 24);
            msg.serialize(&mut w);
            proof { lemma_overwrite_append(z, 0, id.spec_encoding(0), msg.spec_encoding(24)); }
        }
        None => {
            msg.serialize(&mut w);
        }
    }
    proof {
        if M::obeys_message_spec() {
            assert(w.data() == overwrite(z, 0, enc));
            assert(w.position() == enc.len());
        }
    }
    let ghost wd = w.data();
    let ghost wp = w.position();
    let out = w.finish();
    proof {
        if M::obeys_message_spec() {
            lemma_overwrite_index(z, 0, enc);
            if enc.len() <= cap {
                lemma_overwrite_prefix(z, enc);
            }
        }
    }
    let mut body: Vec<u8> = Vec::new();
    let mut i: usize = 0;
    while i < out.len()
        invariant
            i <= out@.len(),
            body@ == out@.take(i as int),
        decreases out@.len() - i,
    {
        body.push(out[i]);
        proof { assert(out@.take(i + 1) =~= out@.take(i as int).push(out@[i as int])); }
        i += 1;
    }
    proof { assert(out@.take(out@.len() as int) =~= out@); }
    body
}

/// Build a WRITE_DATA frame addressed to `oid` carrying `identity` (for a
/// service sample) and `msg`. When the frame would exceed
/// [`FRAME_BUF_SIZE`] it is refused with `BufferTooSmall` and the session is
/// left as it was; otherwise it takes the next sequence number.
pub fn write_data_frame<M: Message>(
    state: &mut SessionState,
    oid: u16,
    identity: Option<&SampleIdentity>,
    msg: &M,
) -> (r: Result<Frame, Error>)
    requires
        M::obeys_message_spec() ==> msg.spec_writable(),
        spec_sample_body(match identity { Some(id) => Some(*id), None => None }, *msg).len() <= usize::MAX,
    ensures
        spec_write_data_outcome(old(state)@, oid, r, final(state)@),
        M::obeys_message_spec() ==> ({
            let s = old(state)@;
            let body = spec_sample_body(match identity { Some(id) => Some(*id), None => None }, *msg);
            let total = spec_write_data_prefix(s.session_id) + body.len();
            &&& total > FRAME_BUF_SIZE ==> r == Err::<Frame, Error>(Error::BufferTooSmall) && final(state)@ == s
            &&& total <= FRAME_BUF_SIZE ==> (r matches Ok(f) && {
                &&& f.len == total
                &&& f.bytes@ == overwrite(spec_zero_frame(), 0,
                    spec_write_data_header(s.session_id, s.seq, s.client_key, oid, total) + body)
                &&& final(state)@ == (SessionView { seq: s.seq.wrapping_add(1), ..s })
            })
        }),
{
    let session_id = state.session_id();
    // Prefix = session header + WRITE_DATA submessage header + BaseObjectRequest.
    let prefix = msg_header_len(session_id) + 4 + 4;
    let room = FRAME_BUF_SIZE - prefix;
    let body = serialize_body(identity, msg, room + 1);
    if body.len() > room {
        return Err(Error::BufferTooSmall);
    }
    let total = prefix + body.len();
    let seq = state.next_seq();
    let key = state.client_key();
    let mut out: Vec<u8> = vec![0u8; total];
    let ghost z = out@;
    copy_at(out.as_mut_slice(), prefix, body.as_slice());
    finalize_write_data_headers(out.as_mut_slice(), session_id, seq, &key, oid);
    proof {
        let h = spec_write_data_header(session_id, seq, key@, oid, total as int);
        assert(h.len() == prefix);
        lemma_overwrite_join(z, h, body@);
    }
    let mut frame = Frame::zero();
    copy_at(&mut frame.bytes, 0, out.as_slice());
    frame.len = total;
    proof {
        let h = spec_write_data_header(session_id, seq, key@, oid, total as int);
        lemma_overwrite_prefix(spec_zero_frame(), h + body@);
        assert(frame.bytes@.subrange(0, prefix as int) =~= (h + body@).take(total as int).subrange(0, prefix as int));
        assert((h + body@).subrange(0, prefix as int) =~= h);
        assert(prefix == spec_write_data_prefix(old(state)@.session_id));
        assert(frame.bytes@.subrange(0, prefix as int) == spec_write_data_header(old(state)@.session_id,
            old(state)@.seq, old(state)@.client_key, oid, frame.len as int));
        assert(state@ == (SessionView { seq: old(state)@.seq.wrapping_add(1), ..old(state)@ }));
    }
    Ok(frame)
}

/// The frame [`crate::publisher`]'s `publish` enqueues for `msg` on the
/// DataWriter `dw_id`: refused with `Disconnected` while the transport is
/// down, with `BufferTooSmall` when it would not fit in a frame; both leave
/// the session as it was.
pub fn publish_frame<M: Message>(state: &mut SessionState, dw_id: u16, msg: &M) -> (r: Result<Frame, Error>)
    requires
        M::obeys_message_spec() ==> msg.spec_writable(),
        msg.spec_encoding(0).len() <= usize::MAX,
    ensures
        old(state)@.disconnected ==> r == Err::<Frame, Error>(Error::Disconnected) && final(state)@ == old(state)@,
        !old(state)@.disconnected ==> spec_write_data_outcome(old(state)@, dw_id, r, final(state)@),
        M::obeys_message_spec() ==> ({
            let s = old(state)@;
            let body = msg.spec_encoding(0);
            let total = spec_write_data_prefix(s.session_id) + body.len();
            &&& !s.disconnected && total > FRAME_BUF_SIZE ==> r == Err::<Frame, Error>(Error::BufferTooSmall)
                && final(state)@ == s
            &&& !s.disconnected && total <= FRAME_BUF_SIZE ==> (r matches Ok(f) && {
                &&& f.len == total
                &&& f.bytes@ == overwrite(spec_zero_frame(), 0,
                    spec_write_data_header(s.session_id, s.seq, s.client_key, dw_id, total) + body)
                &&& final(state)@ == (SessionView { seq: s.seq.wrapping_add(1), ..s })
            })
        }),
{
    state.require_connected()?;
    write_data_frame(state, dw_id, None, msg)
}

} // verus!
