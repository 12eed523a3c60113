//! The bookkeeping of one XRCE-DDS session: its identity, the sequence and
//! request-id counters, the entity-index allocators, the single in-flight
//! CREATE and the disconnect flag; and [`Frame`], one outgoing message.
//!
//! [`SessionState`] is plain data with `&mut self` methods. A runtime that
//! shares it between tasks keeps it behind a lock and calls these methods
//! while holding it.

use vstd::prelude::*;
use vstd::string::StringSliceAdditionalSpecFns;
use crate::error::Error;
use crate::rt::encode::{
    encode_create_participant, encode_create_with_parent, encode_read_data, spec_create_participant,
    spec_create_with_parent, spec_len_field, spec_participant_payload, spec_read_data,
    spec_with_parent_payload,
};
use crate::wire::overwrite;

verus! {

// ── Constants ────────────────────────────────────────────────────────────────

/// Maximum number of concurrent subscriptions in the dispatch table.
pub const MAX_SUBS: usize = 8;

/// TX queue depth: at most this many outgoing frames wait for the executor.
pub const TX_QUEUE_DEPTH: usize = 2;

/// Byte capacity of one outgoing frame: fits the largest CREATE frame and
/// the largest WRITE_DATA frame.
pub const FRAME_BUF_SIZE: usize = 512;

// ── Frame ────────────────────────────────────────────────────────────────────

/// `FRAME_BUF_SIZE` zero bytes.
pub open spec fn spec_zero_frame() -> Seq<u8> {
    Seq::new(FRAME_BUF_SIZE as nat, |i: int| 0u8)
}

/// One outgoing XRCE-DDS message: `bytes[..len]` is sent.
pub struct Frame {
    pub bytes: [u8; FRAME_BUF_SIZE],
    pub len: usize,
}

impl Frame {
    pub fn zero() -> (f: Self)
        ensures
            f.bytes@ == spec_zero_frame(),
            f.len == 0,
    {
        let f = Self { bytes: [0u8; 512], len: 0 };
        assert(f.bytes@ =~= spec_zero_frame());
        f
    }
}

// ── CREATE requests ──────────────────────────────────────────────────────────

/// An entity to create on the agent.
pub enum CreateRequest<'a> {
    /// A DomainParticipant (domain 0) described by `xml`.
    Participant { oid: u16, xml: &'a str },
    /// An entity of kind `kind` under `parent`, described by `xml`.
    WithParent { oid: u16, kind: u8, xml: &'a str, parent: u16 },
}

impl<'a> CreateRequest<'a> {
    /// The XML description carried by the request.
    pub open spec fn xml_bytes(&self) -> Seq<u8> {
        match *self {
            CreateRequest::Participant { xml, .. } => xml.spec_bytes(),
            CreateRequest::WithParent { xml, .. } => xml.spec_bytes(),
        }
    }

    /// The complete CREATE frame for this request.
    pub open spec fn spec_frame(&self, session_id: u8, seq: u16, key: Seq<u8>, req_id: u16) -> Seq<u8> {
        match *self {
            CreateRequest::Participant { oid, xml } => spec_create_participant(session_id, seq, key, req_id, oid,
                xml.spec_bytes(), 0, spec_len_field(spec_participant_payload(req_id, oid, xml.spec_bytes(), 0))),
            CreateRequest::WithParent { oid, kind, xml, parent } => spec_create_with_parent(session_id, seq, key,
                req_id, oid, kind, xml.spec_bytes(), parent,
                spec_len_field(spec_with_parent_payload(req_id, oid, kind, xml.spec_bytes(), parent))),
        }
    }
}

// ── SessionState ─────────────────────────────────────────────────────────────

/// What a [`SessionState`] holds.
pub struct SessionView {
    pub session_id: u8,
    pub client_key: Seq<u8>,
    pub seq: u16,
    pub req_id: u16,
    pub next_participant: u16,
    pub next_topic: u16,
    pub next_publisher: u16,
    pub next_subscriber: u16,
    pub next_dw: u16,
    pub next_dr: u16,
    /// Request id of the CREATE waiting for its STATUS, 0 when none.
    pub pending_req: u16,
    pub disconnected: bool,
}

/// The state of a session before `start`: no identity, counters at their
/// initial values, nothing pending, connected.
pub open spec fn spec_initial_session() -> SessionView {
    SessionView {
        session_id: 0,
        client_key: seq![0u8, 0u8, 0u8, 0u8],
        seq: 0,
        req_id: 1,
        next_participant: 1,
        next_topic: 1,
        next_publisher: 1,
        next_subscriber: 1,
        next_dw: 1,
        next_dr: 1,
        pending_req: 0,
        disconnected: false,
    }
}

/// Whether a STATUS for `req_id` answers the CREATE the session waits for.
pub open spec fn spec_awaits(s: SessionView, req_id: u16) -> bool {
    req_id == s.pending_req && req_id != 0
}

/// The request id handed out when the counter stands at `r` (0 is reserved
/// and skipped).
pub open spec fn spec_req_out(r: u16) -> u16 {
    if r == 0 { 1 } else { r }
}

/// Bookkeeping of one XRCE-DDS session.
pub struct SessionState {
    session_id: u8,
    client_key: [u8; 4],
    seq: u16,
    req_id: u16,
    next_participant: u16,
    next_topic: u16,
    next_publisher: u16,
    next_subscriber: u16,
    next_dw: u16,
    next_dr: u16,
    creation_pending_req: u16,
    disconnected: bool,
}

impl View for SessionState {
    type V = SessionView;

    closed spec fn view(&self) -> SessionView {
        SessionView {
            session_id: self.session_id,
            client_key: self.client_key@,
            seq: self.seq,
            req_id: self.req_id,
            next_participant: self.next_participant,
            next_topic: self.next_topic,
            next_publisher: self.next_publisher,
            next_subscriber: self.next_subscriber,
            next_dw: self.next_dw,
            next_dr: self.next_dr,
            pending_req: self.creation_pending_req,
            disconnected: self.disconnected,
        }
    }
}

impl SessionState {
    pub fn new() -> (s: Self)
        ensures
            s@ == spec_initial_session(),
    {
        let s = Self {
            session_id: 0,
            client_key: [0u8; 4],
            seq: 0,
            req_id: 1,
            next_participant: 1,
            next_topic: 1,
            next_publisher: 1,
            next_subscriber: 1,
            next_dw: 1,
            next_dr: 1,
            creation_pending_req: 0,
            disconnected: false,
        };
        assert(s.client_key@ =~= seq![0u8, 0u8, 0u8, 0u8]);
        s
    }

    // ── Identity ──────────────────────────────────────────────────────────────

    pub fn session_id(&self) -> (r: u8)
        ensures
            r == self@.session_id,
    {
        self.session_id
    }

    pub fn client_key(&self) -> (r: [u8; 4])
        ensures
            r@ == self@.client_key,
    {
        self.client_key
    }

    pub fn set_session_identity(&mut self, session_id: u8, key: [u8; 4])
        ensures
            final(self)@ == (SessionView { session_id, client_key: key@, ..old(self)@ }),
    {
        self.client_key = key;
        self.session_id = session_id;
    }

    // ── Counters ──────────────────────────────────────────────────────────────

    /// Hand out the message sequence number and advance it (wrapping).
    pub fn next_seq(&mut self) -> (r: u16)
        ensures
            r == old(self)@.seq,
            final(self)@ == (SessionView { seq: old(self)@.seq.wrapping_add(1), ..old(self)@ }),
    {
        let r = self.seq;
        self.seq = self.seq.wrapping_add(1);
        r
    }

    /// Hand out a request id and advance the counter, skipping the reserved
    /// value 0 after a wrap.
    pub fn next_req(&mut self) -> (r: u16)
        ensures
            r == spec_req_out(old(self)@.req_id),
            r != 0,
            final(self)@ == (SessionView { req_id: r.wrapping_add(1), ..old(self)@ }),
    {
        let prev = self.req_id;
        self.req_id = self.req_id.wrapping_add(1);
        if prev != 0 {
            return prev;
        }
        let prev = self.req_id;
        self.req_id = self.req_id.wrapping_add(1);
        prev
    }

    pub fn alloc_participant(&mut self) -> (r: u16)
        ensures
            r == old(self)@.next_participant,
            final(self)@ == (SessionView { next_participant: r.wrapping_add(1), ..old(self)@ }),
    {
        let r = self.next_participant;
        self.next_participant = r.wrapping_add(1);
        r
    }

    pub fn alloc_topic(&mut self) -> (r: u16)
        ensures
            r == old(self)@.next_topic,
            final(self)@ == (SessionView { next_topic: r.wrapping_add(1), ..old(self)@ }),
    {
        let r = self.next_topic;
        self.next_topic = r.wrapping_add(1);
        r
    }

    pub fn alloc_publisher(&mut self) -> (r: u16)
        ensures
            r == old(self)@.next_publisher,
            final(self)@ == (SessionView { next_publisher: r.wrapping_add(1), ..old(self)@ }),
    {
        let r = self.next_publisher;
        self.next_publisher = r.wrapping_add(1);
        r
    }

    pub fn alloc_subscriber(&mut self) -> (r: u16)
        ensures
            r == old(self)@.next_subscriber,
            final(self)@ == (SessionView { next_subscriber: r.wrapping_add(1), ..old(self)@ }),
    {
        let r = self.next_subscriber;
        self.next_subscriber = r.wrapping_add(1);
        r
    }

    pub fn alloc_dw(&mut self) -> (r: u16)
        ensures
            r == old(self)@.next_dw,
            final(self)@ == (SessionView { next_dw: r.wrapping_add(1), ..old(self)@ }),
    {
        let r = self.next_dw;
        self.next_dw = r.wrapping_add(1);
        r
    }

    pub fn alloc_dr(&mut self) -> (r: u16)
        ensures
            r == old(self)@.next_dr,
            final(self)@ == (SessionView { next_dr: r.wrapping_add(1), ..old(self)@ }),
    {
        let r = self.next_dr;
        self.next_dr = r.wrapping_add(1);
        r
    }

    // ── Disconnect ────────────────────────────────────────────────────────────

    pub fn is_disconnected(&self) -> (r: bool)
        ensures
            r == self@.disconnected,
    {
        self.disconnected
    }

    /// `Err(Disconnected)` exactly when the transport is known to be down.
    pub fn require_connected(&self) -> (r: Result<(), Error>)
        ensures
            r == if self@.disconnected { Err::<(), Error>(Error::Disconnected) } else { Ok(()) },
    {
        if self.disconnected { Err(Error::Disconnected) } else { Ok(()) }
    }

    pub fn set_disconnected(&mut self)
        ensures
            final(self)@ == (SessionView { disconnected: true, ..old(self)@ }),
    {
        self.disconnected = true;
    }

    pub fn clear_disconnected(&mut self)
        ensures
            final(self)@ == (SessionView { disconnected: false, ..old(self)@ }),
    {
        self.disconnected = false;
    }

    // ── The CREATE mailbox ────────────────────────────────────────────────────

    /// Record `req_id` as the CREATE waiting for its STATUS.
    pub fn arm_creation(&mut self, req_id: u16)
        ensures
            final(self)@ == (SessionView { pending_req: req_id, ..old(self)@ }),
    {
        self.creation_pending_req = req_id;
    }

    /// No CREATE is waiting any more.
    pub fn disarm_creation(&mut self)
        ensures
            final(self)@ == (SessionView { pending_req: 0, ..old(self)@ }),
    {
        self.creation_pending_req = 0;
    }

    /// Whether a STATUS for `req_id` answers the pending CREATE (and must be
    /// delivered to the task waiting for it).
    pub fn status_is_awaited(&self, req_id: u16) -> (r: bool)
        ensures
            r == spec_awaits(self@, req_id),
    {
        req_id == self.creation_pending_req && req_id != 0
    }

    /// Prepare one CREATE exchange: refuse before the session has started;
    /// take a sequence number and a request id; encode `req` into a frame;
    /// arm the mailbox for the request id, unless the transport is down, in
    /// which case the mailbox is left empty and `Disconnected` returned.
    ///
    /// On success the frame holds the CREATE and the request id to wait for
    /// is returned with it.
    pub fn prepare_create(&mut self, req: &CreateRequest) -> (r: Result<(Frame, u16), Error>)
        requires
            req.xml_bytes().len() + 64 <= u32::MAX,
        ensures
            old(self)@.session_id == 0 ==> r == Err::<(Frame, u16), Error>(Error::NotStarted) && final(self)@ == old(self)@,
            old(self)@.session_id != 0 ==> {
                let req_id = spec_req_out(old(self)@.req_id);
                let full = req.spec_frame(old(self)@.session_id, old(self)@.seq, old(self)@.client_key, req_id);
                let advanced = SessionView {
                    seq: old(self)@.seq.wrapping_add(1),
                    req_id: req_id.wrapping_add(1),
                    ..old(self)@
                };
                &&& full.len() > FRAME_BUF_SIZE ==> r == Err::<(Frame, u16), Error>(Error::BufferTooSmall)
                    && final(self)@ == advanced
                &&& full.len() <= FRAME_BUF_SIZE && old(self)@.disconnected ==> r == Err::<(Frame, u16), Error>(
                    Error::Disconnected) && final(self)@ == (SessionView { pending_req: 0, ..advanced })
                &&& full.len() <= FRAME_BUF_SIZE && !old(self)@.disconnected ==> (r matches Ok((f, q)) && {
                    &&& q == req_id
                    &&& f.len == full.len()
                    &&& f.bytes@ == overwrite(spec_zero_frame(), 0, full)
                    &&& final(self)@ == (SessionView { pending_req: req_id, ..advanced })
                })
            },
    {
        if self.session_id == 0 {
            return Err(Error::NotStarted);
        }
        let session_id = self.session_id;
        let key = self.client_key;
        let seq = self.next_seq();
        let req_id = self.next_req();
        let mut frame = Frame::zero();
        let res = match *req {
            CreateRequest::Participant { oid, xml } => encode_create_participant(
                &mut frame.bytes, session_id, seq, &key, req_id, oid, xml, 0),
            CreateRequest::WithParent { oid, kind, xml, parent } => encode_create_with_parent(
                &mut frame.bytes, session_id, seq, &key, req_id, oid, kind, xml, parent),
        };
        let len = match res {
            Ok(n) => n,
            Err(e) => {
                return Err(e);
            }
        };
        frame.len = len;
        self.arm_creation(req_id);
        if self.disconnected {
            self.disarm_creation();
            return Err(Error::Disconnected);
        }
        Ok((frame, req_id))
    }

    /// Build the READ_DATA request that makes the agent stream samples of
    /// `dr_oid`, taking a sequence number and a request id.
    pub fn read_data_frame(&mut self, dr_oid: u16) -> (r: Frame)
        ensures
            ({
                let req_id = spec_req_out(old(self)@.req_id);
                let full = spec_read_data(old(self)@.session_id, old(self)@.seq, old(self)@.client_key, req_id, dr_oid);
                &&& r.len == full.len()
                &&& r.bytes@ == overwrite(spec_zero_frame(), 0, full)
                &&& final(self)@ == (SessionView {
                    seq: old(self)@.seq.wrapping_add(1),
                    req_id: req_id.wrapping_add(1),
                    ..old(self)@
                })
            }),
    {
        let session_id = self.session_id;
        let key = self.client_key;
        let seq = self.next_seq();
        let req_id = self.next_req();
        let mut frame = Frame::zero();
        let res = encode_read_data(&mut frame.bytes, session_id, seq, &key, req_id, dr_oid);
        match res {
            Ok(n) => {
                frame.len = n;
            }
            Err(_) => {
                // The READ_DATA frame is at most 28 bytes: it always fits.
                assert(false);
            }
        }
        frame
    }
}


/// A CREATE that was sent waits for exactly its own STATUS: after
/// `prepare_create` hands out request id `q`, a STATUS for `q` is awaited and
/// a STATUS for any other request id is not.
pub proof fn lemma_create_awaits_own_status(before: SessionView, after: SessionView, q: u16, other: u16)
    requires
        q == spec_req_out(before.req_id),
        after.pending_req == q,
        other != q,
    ensures
        spec_awaits(after, q),
        !spec_awaits(after, other),
{
}

} // verus!
