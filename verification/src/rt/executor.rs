//! Decoding of incoming frames: which submessages a frame carries and what
//! each one asks the session to do.
//!
//! One TCP frame can carry several submessages back to back. Each
//! submessage header sits at a 4-byte aligned offset; after a submessage the
//! decoder moves to the next 4-byte boundary.

use vstd::prelude::*;
use crate::error::Error;
use crate::protocol::{STATUS_OK, STATUS_OK_MATCHED, SUBMSG_DATA, SUBMSG_STATUS};
use crate::rt::encode::{msg_header_len, spec_msg_header_len};
use crate::wire::{le16, pad, u16_from_be, u16_from_le, zeros};

verus! {

/// What one incoming submessage asks of the session.
#[derive(Debug, Clone, Copy, PartialEq, Eq)]
pub enum FrameEvent {
    /// A DATA sample for the reader (or requester / replier) `dr_oid`; its
    /// CDR body is `msg[body_start..body_end]`.
    Data { dr_oid: u16, body_start: usize, body_end: usize },
    /// A STATUS reply to request `req_id`.
    Status { req_id: u16, result: Result<(), Error> },
}

/// Result carried by a STATUS status byte: OK and OK_MATCHED succeed, every
/// other code is an agent rejection.
pub open spec fn spec_status_code_result(status: u8) -> Result<(), Error> {
    if status == 0 || status == 1 {
        Ok(())
    } else {
        Err(Error::AgentRejected(status))
    }
}

/// STATUS payload: request id (2 bytes BE), object id (2 bytes), then the
/// status byte. Shorter than 5 bytes → nothing.
pub open spec fn spec_parse_status(payload: Seq<u8>) -> Option<(u16, Result<(), Error>)> {
    if payload.len() < 5 {
        None
    } else {
        Some((u16_from_be(payload[0], payload[1]), spec_status_code_result(payload[4])))
    }
}

/// Parse the payload of a STATUS submessage.
pub fn parse_status(payload: &[u8]) -> (r: Option<(u16, Result<(), Error>)>)
    ensures
        r == spec_parse_status(payload@),
{
    if payload.len() < 5 {
        return None;
    }
    let req_id = ((payload[0] as u16) << 8) | (payload[1] as u16);
    let status = payload[4];
    let result = if status == STATUS_OK || status == STATUS_OK_MATCHED {
        Ok(())
    } else {
        Err(Error::AgentRejected(status))
    };
    Some((req_id, result))
}

/// Events of the submessages of `msg` from offset `pos` on: a header of 4
/// bytes (id, flags, length LE), a payload clipped to the frame, then the
/// next 4-byte boundary. DATA with a payload of at least 4 bytes yields its
/// reader id (payload bytes 2..4, BE) and body; STATUS with at least 5 bytes
/// yields its request id and result; anything else yields nothing.
pub open spec fn spec_events_from(msg: Seq<u8>, pos: int) -> Seq<FrameEvent>
    decreases msg.len() - pos,
{
    if 0 <= pos && pos + 4 <= msg.len() {
        let id = msg[pos];
        let len = u16_from_le(msg[pos + 2], msg[pos + 3]) as int;
        let ps = pos + 4;
        let pe = if ps + len < msg.len() { ps + len } else { msg.len() as int };
        let payload = msg.subrange(ps, pe);
        let here = if id == 9 {
            if pe - ps >= 4 {
                seq![FrameEvent::Data {
                    dr_oid: u16_from_be(msg[ps + 2], msg[ps + 3]),
                    body_start: (ps + 4) as usize,
                    body_end: pe as usize,
                }]
            } else {
                Seq::empty()
            }
        } else if id == 5 {
            match spec_parse_status(payload) {
                Some((req_id, result)) => seq![FrameEvent::Status { req_id, result }],
                None => Seq::empty(),
            }
        } else {
            Seq::empty()
        };
        let next = pe + pad(pe, 4);
        if next <= msg.len() {
            here + spec_events_from(msg, next)
        } else {
            here
        }
    } else {
        Seq::empty()
    }
}

/// Events of a whole frame received in session `session_id`: the
/// submessages start right after the message header.
pub open spec fn spec_frame_events(msg: Seq<u8>, session_id: u8) -> Seq<FrameEvent> {
    spec_events_from(msg, spec_msg_header_len(session_id))
}

/// Decode every submessage of one received XRCE-DDS message into the
/// events the session acts on, in order.
pub fn decode_frame(msg: &[u8], session_id: u8) -> (events: Vec<FrameEvent>)
    ensures
        events@ == spec_frame_events(msg@, session_id),
{
    let hdr_len = msg_header_len(session_id);
    let len = msg.len();
    let mut pos = hdr_len;
    let mut events: Vec<FrameEvent> = Vec::new();
    while pos < len && len - pos >= 4
        invariant
            len == msg@.len(),
            events@ + spec_events_from(msg@, pos as int) == spec_frame_events(msg@, session_id),
        decreases len - pos,
    {
        let ghost old_events = events@;
        let submsg_id = msg[pos];
        let submsg_len = (msg[pos + 2] as u16 | ((msg[pos + 3] as u16) << 8)) as usize;
        let payload_start = pos + 4;
        let payload_end = if submsg_len < len - payload_start { payload_start + submsg_len } else { len };

        if submsg_id == SUBMSG_DATA {
            if payload_end - payload_start >= 4 {
                let dr_oid = ((msg[payload_start + 2] as u16) << 8) | (msg[payload_start + 3] as u16);
                events.push(FrameEvent::Data { dr_oid, body_start: payload_start + 4, body_end: payload_end });
            }
        } else if submsg_id == SUBMSG_STATUS {
            let payload = &msg[payload_start..payload_end];
            if let Some((req_id, result)) = parse_status(payload) {
                events.push(FrameEvent::Status { req_id, result });
            }
        }
        let rem = payload_end % 4;
        proof {
            let rest = spec_events_from(msg@, payload_end + pad(payload_end as int, 4));
            assert(events@ + rest =~= old_events + spec_events_from(msg@, pos as int));
        }
        if rem != 0 {
            if len - payload_end < 4 - rem {
                // The next boundary lies past the frame: nothing follows.
                pos = len;
            } else {
                pos = payload_end + (4 - rem);
            }
        } else {
            pos = payload_end;
        }
    }
    events
}

// ── Laws of frame decoding ────────────────────────────────────────────────────

/// One submessage: id, flags, the payload length (LE), the payload.
pub open spec fn submessage(id: u8, flags: u8, payload: Seq<u8>) -> Seq<u8> {
    seq![id, flags] + le16(payload.len() as u16) + payload
}

/// The length slot of a submessage header gives back the length.
proof fn lemma_len_slot(n: u16)
    ensures
        u16_from_le(le16(n)[0], le16(n)[1]) == n,
{
    assert((((n as u8) as u16) | ((((n >> 8u16) as u8) as u16) << 8u16)) == n) by (bit_vector);
}

/// Two DATA submessages batched in one frame, the second at the 4-byte
/// boundary after the first (with zero padding), decode to exactly two
/// samples, in order: each for the reader named in its payload (bytes 2..4,
/// big-endian) and with its body (the payload after those 4 bytes).
pub proof fn lemma_two_batched_samples(hdr: Seq<u8>, session_id: u8, f1: u8, p1: Seq<u8>, f2: u8, p2: Seq<u8>)
    requires
        hdr.len() == spec_msg_header_len(session_id),
        4 <= p1.len() <= u16::MAX,
        4 <= p2.len() <= u16::MAX,
    ensures
        ({
            let h = hdr.len() as int;
            let e1 = h + 4 + p1.len();
            let a2 = e1 + pad(e1, 4);
            let msg = hdr + submessage(9, f1, p1) + zeros(pad(e1, 4)) + submessage(9, f2, p2);
            spec_frame_events(msg, session_id) == seq![
                FrameEvent::Data { dr_oid: u16_from_be(p1[2], p1[3]), body_start: (h + 8) as usize, body_end: e1 as usize },
                FrameEvent::Data {
                    dr_oid: u16_from_be(p2[2], p2[3]),
                    body_start: (a2 + 8) as usize,
                    body_end: (a2 + 4 + p2.len()) as usize,
                },
            ]
        }),
{
    let h = hdr.len() as int;
    let e1 = h + 4 + p1.len();
    let a2 = e1 + pad(e1, 4);
    let s1 = submessage(9, f1, p1);
    let s2 = submessage(9, f2, p2);
    let msg = hdr + s1 + zeros(pad(e1, 4)) + s2;
    lemma_len_slot(p1.len() as u16);
    lemma_len_slot(p2.len() as u16);
    assert(msg.len() == a2 + 4 + p2.len());
    assert(msg[h] == 9u8);
    assert(msg[h + 2] == le16(p1.len() as u16)[0]);
    assert(msg[h + 3] == le16(p1.len() as u16)[1]);
    assert(msg[h + 4 + 2] == p1[2]);
    assert(msg[h + 4 + 3] == p1[3]);
    assert(msg[a2] == 9u8);
    assert(msg[a2 + 2] == le16(p2.len() as u16)[0]);
    assert(msg[a2 + 3] == le16(p2.len() as u16)[1]);
    assert(msg[a2 + 4 + 2] == p2[2]);
    assert(msg[a2 + 4 + 3] == p2[3]);
    let d2 = FrameEvent::Data {
        dr_oid: u16_from_be(p2[2], p2[3]),
        body_start: (a2 + 8) as usize,
        body_end: (a2 + 4 + p2.len()) as usize,
    };
    let end = msg.len() as int;
    assert(spec_events_from(msg, end + pad(end, 4)) == Seq::<FrameEvent>::empty());
    assert(spec_events_from(msg, end) == Seq::<FrameEvent>::empty());
    assert(spec_events_from(msg, a2) =~= seq![d2]);
    assert(spec_events_from(msg, h) =~= seq![FrameEvent::Data {
        dr_oid: u16_from_be(p1[2], p1[3]),
        body_start: (h + 8) as usize,
        body_end: e1 as usize,
    }] + seq![d2]);
}

/// Whatever the first submessage of a frame is, a DATA submessage at the
/// 4-byte boundary after it (zero padding between) is decoded, and is the
/// last event of the frame.
pub proof fn lemma_sample_after_any_submessage(hdr: Seq<u8>, session_id: u8, id1: u8, f1: u8, p1: Seq<u8>, f2: u8,
    p2: Seq<u8>)
    requires
        hdr.len() == spec_msg_header_len(session_id),
        p1.len() <= u16::MAX,
        4 <= p2.len() <= u16::MAX,
    ensures
        ({
            let h = hdr.len() as int;
            let e1 = h + 4 + p1.len();
            let a2 = e1 + pad(e1, 4);
            let msg = hdr + submessage(id1, f1, p1) + zeros(pad(e1, 4)) + submessage(9, f2, p2);
            let events = spec_frame_events(msg, session_id);
            &&& events.len() >= 1
            &&& events.last() == (FrameEvent::Data {
                dr_oid: u16_from_be(p2[2], p2[3]),
                body_start: (a2 + 8) as usize,
                body_end: (a2 + 4 + p2.len()) as usize,
            })
        }),
{
    let h = hdr.len() as int;
    let e1 = h + 4 + p1.len();
    let a2 = e1 + pad(e1, 4);
    let s1 = submessage(id1, f1, p1);
    let s2 = submessage(9, f2, p2);
    let msg = hdr + s1 + zeros(pad(e1, 4)) + s2;
    lemma_len_slot(p1.len() as u16);
    lemma_len_slot(p2.len() as u16);
    assert(msg.len() == a2 + 4 + p2.len());
    assert(msg[h] == id1);
    assert(msg[h + 2] == le16(p1.len() as u16)[0]);
    assert(msg[h + 3] == le16(p1.len() as u16)[1]);
    assert(msg[a2] == 9u8);
    assert(msg[a2 + 2] == le16(p2.len() as u16)[0]);
    assert(msg[a2 + 3] == le16(p2.len() as u16)[1]);
    assert(msg[a2 + 4 + 2] == p2[2]);
    assert(msg[a2 + 4 + 3] == p2[3]);
    let d2 = FrameEvent::Data {
        dr_oid: u16_from_be(p2[2], p2[3]),
        body_start: (a2 + 8) as usize,
        body_end: (a2 + 4 + p2.len()) as usize,
    };
    let end = msg.len() as int;
    assert(spec_events_from(msg, end + pad(end, 4)) == Seq::<FrameEvent>::empty());
    assert(spec_events_from(msg, end) == Seq::<FrameEvent>::empty());
    assert(spec_events_from(msg, a2) =~= seq![d2]);
    let first = spec_events_from(msg, h);
    assert(first == spec_events_from(msg, h).subrange(0, first.len() - 1) + seq![d2]) by {
        let here = first.subrange(0, first.len() - 1);
        assert(first =~= here + spec_events_from(msg, a2));
    }
}

} // verus!
