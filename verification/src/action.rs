//! ROS2 Action support: the wire types every action shares, the [`Action`]
//! trait, the three services an action is composed of, and the cancel
//! bookkeeping of an action server.
//!
//! A ROS2 action decomposes into **3 services** (`send_goal`, `cancel_goal`,
//! `get_result`) and **2 topics** (`feedback`, `status`).

pub mod cancel_response;
pub mod get_result_status;
pub mod goal_status;

use core::marker::PhantomData;

use vstd::prelude::*;
use crate::cdr::{aligned_items, cdr_bool, cdr_u32, lemma_aligned_items_step, CdrWriter};
use crate::cdr_reader::{
    holds_at, lemma_aligned_items_fail, lemma_read_aligned_items_written, spec_read_aligned_items,
    lemma_read_bool_written, lemma_read_bytes_written, lemma_read_i32_written,
    lemma_read_u32_written, lemma_read_u8_written, spec_read_bytes, spec_read_i32, spec_read_u32,
    spec_read_u8, CdrReader,
};
use crate::error::Error;
use crate::message::{reads_back, reads_back_at, Message};
use crate::service::{spec_writer_guid, Service};
use crate::bounded::{
    goal_infos, goal_infos_new, goal_infos_push, goal_infos_slice, goal_statuses, goal_statuses_new,
    goal_statuses_push, goal_statuses_slice,
};
use crate::ros2::msg::std_msgs::spec_time;
use crate::wire::{
    be16, le64, le64_bytes, lemma_be16_round_trip, lemma_i8_byte, lemma_le64_round_trip, lemma_overwrite_append, overwrite, pad,
    u64_from_le, zeros,
};

verus! {

// ── Action trait ──────────────────────────────────────────────────────────────

/// Defines a ROS2 action by its goal / result / feedback message types and
/// the rosidl-generated DDS type names of every entity in the composition.
pub trait Action: Send + 'static {
    type Goal: Message + Send + 'static;
    type Result: Message + Send + 'static;
    type Feedback: Message + Send + 'static;

    /// ROS action namespace, e.g. `"/fibonacci"`.
    const ACTION_NAME: &'static str;

    /// rosidl-generated DDS type name of the goal payload.
    const GOAL_TYPE_NAME: &'static str;
    /// rosidl-generated DDS type name of the result payload.
    const RESULT_TYPE_NAME: &'static str;
    /// rosidl-generated DDS type name of the feedback payload.
    const FEEDBACK_TYPE_NAME: &'static str;

    /// Full ROS service name, e.g. `"/fibonacci/_action/send_goal"`.
    const SEND_GOAL_SERVICE_NAME: &'static str;
    /// Full ROS service name, e.g. `"/fibonacci/_action/get_result"`.
    const GET_RESULT_SERVICE_NAME: &'static str;
    /// Full ROS service name, e.g. `"/fibonacci/_action/cancel_goal"`.
    const CANCEL_GOAL_SERVICE_NAME: &'static str;
    /// Full ROS topic name, e.g. `"/fibonacci/_action/feedback"`.
    const FEEDBACK_TOPIC_NAME: &'static str;
    /// Full ROS topic name, e.g. `"/fibonacci/_action/status"`.
    const STATUS_TOPIC_NAME: &'static str;

    /// `<pkg>::action::dds_::<Action>_SendGoal_Request_`
    const SEND_GOAL_REQUEST_TYPE_NAME: &'static str;
    /// `<pkg>::action::dds_::<Action>_SendGoal_Response_`
    const SEND_GOAL_RESPONSE_TYPE_NAME: &'static str;
    /// `<pkg>::action::dds_::<Action>_GetResult_Request_`
    const GET_RESULT_REQUEST_TYPE_NAME: &'static str;
    /// `<pkg>::action::dds_::<Action>_GetResult_Response_`
    const GET_RESULT_RESPONSE_TYPE_NAME: &'static str;
    /// `<pkg>::action::dds_::<Action>_FeedbackMessage_`
    const FEEDBACK_MESSAGE_TYPE_NAME: &'static str;
}

// ── GoalId ────────────────────────────────────────────────────────────────────

/// 16-byte UUID identifying one in-flight goal; on the wire a fixed-length
/// `octet[16]`, no length prefix, no alignment padding.
#[derive(Clone, Copy, Debug, PartialEq, Eq)]
pub struct GoalId(pub [u8; 16]);

/// The bytes of the GoalId built from a client key, an action index and a
/// sequence number: key, index big-endian, sequence little-endian, `"AC"`.
pub open spec fn spec_goal_id_bytes(client_key: Seq<u8>, action_idx: u16, seq: i64) -> Seq<u8> {
    client_key + be16(action_idx) + le64(seq as u64) + seq![0x41u8, 0x43u8]
}

/// The 16-byte array holding the first 16 bytes of `s`.
pub open spec fn spec_array16(s: Seq<u8>) -> [u8; 16] {
    [s[0], s[1], s[2], s[3], s[4], s[5], s[6], s[7], s[8], s[9], s[10], s[11], s[12], s[13], s[14], s[15]]
}

/// Reading a GoalId: 16 raw bytes.
pub open spec fn spec_read_goal_id(buf: Seq<u8>, at: int) -> Option<(GoalId, int)> {
    match spec_read_bytes(buf, at, 16) {
        Some((s, e)) => Some((GoalId(spec_array16(s)), e)),
        None => None,
    }
}

/// An array is determined by its bytes.
pub proof fn lemma_array16(s: Seq<u8>, a: [u8; 16])
    requires
        s.len() == 16,
    ensures
        spec_array16(s)@ == s,
        a@ == s ==> a == spec_array16(s),
{
    assert(spec_array16(s)@ =~= s);
    if a@ == s {
        assert(a =~= spec_array16(s));
    }
}

/// What a read gives back of a written GoalId.
pub proof fn lemma_goal_id_round_trip(g: GoalId, buf: Seq<u8>, at: int)
    requires
        holds_at(buf, at, g.0@),
    ensures
        spec_read_goal_id(buf, at) == Some((g, at + 16)),
{
    lemma_read_bytes_written(buf, at, g.0@);
    lemma_array16(g.0@, g.0);
}

/// Distinct (client key, action index, sequence) triples give distinct goal
/// ids: a goal id names the client, the action and the goal it was made for.
pub proof fn lemma_goal_id_injective(k1: Seq<u8>, i1: u16, s1: i64, k2: Seq<u8>, i2: u16, s2: i64)
    requires
        k1.len() == 4,
        k2.len() == 4,
        spec_goal_id_bytes(k1, i1, s1) == spec_goal_id_bytes(k2, i2, s2),
    ensures
        k1 == k2,
        i1 == i2,
        s1 == s2,
{
    let a = spec_goal_id_bytes(k1, i1, s1);
    assert(k1 =~= a.subrange(0, 4));
    assert(k2 =~= a.subrange(0, 4));
    lemma_be16_round_trip(i1, 0, 0);
    lemma_be16_round_trip(i2, 0, 0);
    assert(be16(i1) =~= a.subrange(4, 6));
    assert(be16(i2) =~= a.subrange(4, 6));
    lemma_le64_round_trip(s1 as u64, a, 6);
    lemma_le64_round_trip(s2 as u64, a, 6);
    assert(le64(s1 as u64) =~= a.subrange(6, 14));
    assert(le64(s2 as u64) =~= a.subrange(6, 14));
    assert(s1 as u64 == s2 as u64 ==> s1 == s2) by (bit_vector);
}

/// A goal id never equals a service writer GUID of any client: goal ids end
/// in `"AC"`, writer GUIDs in `"CL"`, so action goals and service samples of
/// one client cannot be confused.
pub proof fn lemma_goal_id_not_writer_guid(k1: Seq<u8>, idx: u16, seq: i64, k2: Seq<u8>, oid: u16)
    requires
        k1.len() == 4,
        k2.len() == 4,
    ensures
        spec_goal_id_bytes(k1, idx, seq) != spec_writer_guid(k2, oid),
{
    assert(spec_goal_id_bytes(k1, idx, seq)[15] == 0x43u8);
    assert(spec_writer_guid(k2, oid)[15] == 0x4Cu8);
}

impl GoalId {
    /// Length of the CDR-serialised form (16 bytes, raw).
    pub const SERIALIZED_LEN: usize = 16;

    /// Build a `GoalId` from a 4-byte client key, 2-byte requester oid and an
    /// i64 sequence; same layout as the service layer's writer GUIDs, so
    /// action GoalIds and service SampleIdentities cannot collide within a
    /// client.
    pub fn from_seq(client_key: [u8; 4], action_idx: u16, seq: i64) -> (g: Self)
        ensures
            g.0@ == spec_goal_id_bytes(client_key@, action_idx, seq),
    {
        let s = le64_bytes(seq as u64);
        let id = Self([
            client_key[0], client_key[1], client_key[2], client_key[3],
            (action_idx >> 8) as u8, action_idx as u8,
            s[0], s[1], s[2], s[3], s[4], s[5], s[6], s[7],
            0x41, 0x43, // "AC"
        ]);
        assert(id.0@ =~= spec_goal_id_bytes(client_key@, action_idx, seq));
        id
    }

    pub fn serialize(&self, w: &mut CdrWriter)
        requires
            old(w).position() + 16 <= usize::MAX,
        ensures
            final(w).data() == overwrite(old(w).data(), old(w).position(), self.0@),
            final(w).position() == old(w).position() + 16,
    {
        w.bytes_raw(&self.0);
    }

    pub fn deserialize(r: &mut CdrReader) -> (res: Result<Self, Error>)
        requires
            old(r).wf(),
        ensures
            final(r).wf(),
            final(r).body() == old(r).body(),
            match spec_read_goal_id(old(r).body(), old(r).cursor()) {
                Some((g, e)) => res == Ok::<GoalId, Error>(g) && final(r).cursor() == e,
                None => res == Err::<GoalId, Error>(Error::Deserialization),
            },
    {
        let b = r.bytes_array::<16>()?;
        proof { lemma_array16(b@, b); }
        Ok(Self(b))
    }
}

// ── Time (builtin_interfaces::msg::Time) ─────────────────────────────────────

/// `builtin_interfaces::msg::Time` — i32 seconds + u32 nanoseconds.
#[derive(Clone, Copy, Debug, Default, PartialEq, Eq, Structural)]
pub struct Time {
    pub sec: i32,
    pub nanosec: u32,
}

/// Reading a Time: an `i32` then a `u32`, both 4-aligned.
pub open spec fn spec_read_time(buf: Seq<u8>, at: int) -> Option<(Time, int)> {
    match spec_read_i32(buf, at) {
        Some((sec, p)) => match spec_read_u32(buf, p) {
            Some((nanosec, e)) => Some((Time { sec, nanosec }, e)),
            None => None,
        },
        None => None,
    }
}

impl Time {
    pub const SERIALIZED_LEN: usize = 8;

    /// The zero timestamp.
    pub fn zero() -> (t: Self)
        ensures
            t.sec == 0,
            t.nanosec == 0,
    {
        Time { sec: 0, nanosec: 0 }
    }

    /// The bytes written at offset `at`.
    pub open spec fn spec_encoding(&self, at: int) -> Seq<u8> {
        spec_time(at, self.sec, self.nanosec)
    }

    pub fn serialize(&self, w: &mut CdrWriter)
        requires
            old(w).position() + self.spec_encoding(old(w).position()).len() <= usize::MAX,
        ensures
            final(w).data() == overwrite(old(w).data(), old(w).position(), self.spec_encoding(old(w).position())),
            final(w).position() == old(w).position() + self.spec_encoding(old(w).position()).len(),
    {
        crate::ros2::msg::std_msgs::write_time(w, self.sec, self.nanosec);
    }

    pub fn deserialize(r: &mut CdrReader) -> (res: Result<Self, Error>)
        requires
            old(r).wf(),
        ensures
            final(r).wf(),
            final(r).body() == old(r).body(),
            match spec_read_time(old(r).body(), old(r).cursor()) {
                Some((t, e)) => res == Ok::<Time, Error>(t) && final(r).cursor() == e,
                None => res == Err::<Time, Error>(Error::Deserialization),
            },
    {
        let sec = r.i32_val()?;
        let nanosec = r.u32_val()?;
        Ok(Self { sec, nanosec })
    }
}

/// Writing a stamp field with `write_time` writes exactly what
/// `Time::serialize` writes for the same stamp:
/// two writers holding the same bytes at the same position end with the
/// same bytes and the same position after `write_time(w1, sec, nanosec)`
/// and `Time { sec, nanosec }.serialize(w2)`.
pub proof fn lemma_write_time_is_time_encoding(sec: i32, nanosec: u32, at: int, data: Seq<u8>)
    ensures
        spec_time(at, sec, nanosec) == (Time { sec, nanosec }).spec_encoding(at),
        overwrite(data, at, spec_time(at, sec, nanosec)) == overwrite(data, at, (Time { sec, nanosec }).spec_encoding(
            at)),
        at + spec_time(at, sec, nanosec).len() == at + (Time { sec, nanosec }).spec_encoding(at).len(),
{
}

/// What a read gives back of a written Time.
pub proof fn lemma_time_round_trip(t: Time, buf: Seq<u8>, at: int)
    requires
        holds_at(buf, at, t.spec_encoding(at)),
    ensures
        spec_read_time(buf, at) == Some((t, at + t.spec_encoding(at).len())),
{
    let a = crate::cdr::cdr_i32(at, t.sec);
    let enc = t.spec_encoding(at);
    assert(buf.subrange(at, at + a.len()) =~= a) by {
        assert(buf.subrange(at, at + enc.len()).subrange(0, a.len() as int) =~= a);
    }
    lemma_read_i32_written(buf, at, t.sec);
    let p = at + a.len();
    let b = crate::cdr::cdr_u32(p, t.nanosec);
    assert(buf.subrange(p, p + b.len()) =~= b) by {
        assert(buf.subrange(at, at + enc.len()).subrange(a.len() as int, enc.len() as int) =~= b);
    }
    lemma_read_u32_written(buf, p, t.nanosec);
}

// ── GoalInfo (action_msgs::msg::GoalInfo) ────────────────────────────────────

/// `action_msgs/msg/GoalInfo.msg` — goal id + stamp. 24 bytes when written at
/// a 4-byte-aligned offset: `[goal_id 16 raw][stamp.sec 4][stamp.nanosec 4]`.
#[derive(Clone, Copy, Debug, PartialEq, Eq)]
pub struct GoalInfo {
    pub goal_id: GoalId,
    pub stamp: Time,
}

/// Reading a GoalInfo: the goal id, then the stamp.
pub open spec fn spec_read_goal_info(buf: Seq<u8>, at: int) -> Option<(GoalInfo, int)> {
    match spec_read_goal_id(buf, at) {
        Some((goal_id, p)) => match spec_read_time(buf, p) {
            Some((stamp, e)) => Some((GoalInfo { goal_id, stamp }, e)),
            None => None,
        },
        None => None,
    }
}

impl GoalInfo {
    pub const SERIALIZED_LEN: usize = 24;

    /// The bytes written at offset `at`.
    pub open spec fn spec_encoding(&self, at: int) -> Seq<u8> {
        self.goal_id.0@ + self.stamp.spec_encoding(at + 16)
    }

    pub fn serialize(&self, w: &mut CdrWriter)
        requires
            old(w).position() + self.spec_encoding(old(w).position()).len() <= usize::MAX,
        ensures
            final(w).data() == overwrite(old(w).data(), old(w).position(), self.spec_encoding(old(w).position())),
            final(w).position() == old(w).position() + self.spec_encoding(old(w).position()).len(),
    {
        let ghost p = w.position();
        let ghost d = w.data();
        self.goal_id.serialize(w);
        self.stamp.serialize(w);
        proof { lemma_overwrite_append(d, p, self.goal_id.0@, self.stamp.spec_encoding(p + 16)); }
    }

    pub fn deserialize(r: &mut CdrReader) -> (res: Result<Self, Error>)
        requires
            old(r).wf(),
        ensures
            final(r).wf(),
            final(r).body() == old(r).body(),
            match spec_read_goal_info(old(r).body(), old(r).cursor()) {
                Some((g, e)) => res == Ok::<GoalInfo, Error>(g) && final(r).cursor() == e,
                None => res == Err::<GoalInfo, Error>(Error::Deserialization),
            },
    {
        let goal_id = GoalId::deserialize(r)?;
        let stamp = Time::deserialize(r)?;
        Ok(Self { goal_id, stamp })
    }
}

/// What a read gives back of a written GoalInfo.
pub proof fn lemma_goal_info_round_trip(g: GoalInfo, buf: Seq<u8>, at: int)
    requires
        holds_at(buf, at, g.spec_encoding(at)),
    ensures
        spec_read_goal_info(buf, at) == Some((g, at + g.spec_encoding(at).len())),
{
    let enc = g.spec_encoding(at);
    assert(buf.subrange(at, at + 16) =~= g.goal_id.0@) by {
        assert(buf.subrange(at, at + enc.len()).subrange(0, 16) =~= g.goal_id.0@);
    }
    lemma_goal_id_round_trip(g.goal_id, buf, at);
    let t = g.stamp.spec_encoding(at + 16);
    assert(buf.subrange(at + 16, at + 16 + t.len()) =~= t) by {
        assert(buf.subrange(at, at + enc.len()).subrange(16, enc.len() as int) =~= t);
    }
    lemma_time_round_trip(g.stamp, buf, at + 16);
}

// ── GoalStatus ────────────────────────────────────────────────────────────────

/// `action_msgs/msg/GoalStatus.msg` — `GoalInfo` + `int8 status`.
#[derive(Clone, Copy, Debug, PartialEq, Eq)]
pub struct GoalStatus {
    pub goal_info: GoalInfo,
    pub status: i8,
}

/// Reading a GoalStatus: the goal info, then the status byte.
pub open spec fn spec_read_goal_status(buf: Seq<u8>, at: int) -> Option<(GoalStatus, int)> {
    match spec_read_goal_info(buf, at) {
        Some((goal_info, p)) => match spec_read_u8(buf, p) {
            Some((b, e)) => Some((GoalStatus { goal_info, status: b as i8 }, e)),
            None => None,
        },
        None => None,
    }
}

impl GoalStatus {
    /// 24 (GoalInfo) + 1 (status) bytes; inside a sequence each element is
    /// padded to a 4-byte boundary.
    pub const SERIALIZED_LEN: usize = 25;

    /// The bytes written at offset `at`.
    pub open spec fn spec_encoding(&self, at: int) -> Seq<u8> {
        self.goal_info.spec_encoding(at) + seq![self.status as u8]
    }

    pub fn serialize(&self, w: &mut CdrWriter)
        requires
            old(w).position() + self.spec_encoding(old(w).position()).len() <= usize::MAX,
        ensures
            final(w).data() == overwrite(old(w).data(), old(w).position(), self.spec_encoding(old(w).position())),
            final(w).position() == old(w).position() + self.spec_encoding(old(w).position()).len(),
    {
        let ghost p = w.position();
        let ghost d = w.data();
        self.goal_info.serialize(w);
        w.u8_val(self.status as u8);
        proof { lemma_overwrite_append(d, p, self.goal_info.spec_encoding(p), seq![self.status as u8]); }
    }

    pub fn deserialize(r: &mut CdrReader) -> (res: Result<Self, Error>)
        requires
            old(r).wf(),
        ensures
            final(r).wf(),
            final(r).body() == old(r).body(),
            match spec_read_goal_status(old(r).body(), old(r).cursor()) {
                Some((g, e)) => res == Ok::<GoalStatus, Error>(g) && final(r).cursor() == e,
                None => res == Err::<GoalStatus, Error>(Error::Deserialization),
            },
    {
        let goal_info = GoalInfo::deserialize(r)?;
        let status = r.u8_val()? as i8;
        Ok(Self { goal_info, status })
    }
}

/// What a read gives back of a written GoalStatus.
pub proof fn lemma_goal_status_round_trip(g: GoalStatus, buf: Seq<u8>, at: int)
    requires
        holds_at(buf, at, g.spec_encoding(at)),
    ensures
        spec_read_goal_status(buf, at) == Some((g, at + g.spec_encoding(at).len())),
{
    let enc = g.spec_encoding(at);
    let a = g.goal_info.spec_encoding(at);
    assert(buf.subrange(at, at + a.len()) =~= a) by {
        assert(buf.subrange(at, at + enc.len()).subrange(0, a.len() as int) =~= a);
    }
    lemma_goal_info_round_trip(g.goal_info, buf, at);
    assert(buf.subrange(at + a.len(), at + a.len() + 1) =~= seq![g.status as u8]) by {
        assert(buf.subrange(at, at + enc.len()).subrange(a.len() as int, enc.len() as int) =~= seq![g.status as u8]);
    }
    lemma_read_u8_written(buf, at + a.len(), g.status as u8);
    lemma_i8_byte(g.status);
}

// ── Sequence capacity bounds ─────────────────────────────────────────────────

/// Maximum number of `GoalInfo` entries inside one `CancelGoalResponse`.
pub const MAX_CANCEL_GOALS: usize = 4;

/// Maximum number of `GoalStatus` entries inside one `GoalStatusArray`.
pub const MAX_STATUS_GOALS: usize = 8;

// ── Wrapper message: SendGoalRequest<A> ──────────────────────────────────────

/// `<Action>_SendGoal_Request_`: `goal_id` (16 raw bytes) then the goal.
pub struct SendGoalRequest<A: Action> {
    pub goal_id: GoalId,
    pub goal: A::Goal,
}

impl<A: Action> Message for SendGoalRequest<A> {
    const TYPE_NAME: &'static str = A::SEND_GOAL_REQUEST_TYPE_NAME;
    const MAX_SERIALIZED_SIZE: usize = GoalId::SERIALIZED_LEN + A::Goal::MAX_SERIALIZED_SIZE;

    open spec fn obeys_message_spec() -> bool {
        A::Goal::obeys_message_spec()
    }

    open spec fn spec_encoding(&self, at: int) -> Seq<u8> {
        self.goal_id.0@ + self.goal.spec_encoding(at + 16)
    }

    open spec fn spec_writable(&self) -> bool {
        self.goal.spec_writable()
    }

    open spec fn spec_decodable(buf: Seq<u8>, at: int) -> bool {
        spec_read_goal_id(buf, at) is Some && A::Goal::spec_decodable(buf, at + 16)
    }

    open spec fn spec_decodes(buf: Seq<u8>, at: int, v: Self, end: int) -> bool {
        spec_read_goal_id(buf, at) == Some((v.goal_id, at + 16)) && A::Goal::spec_decodes(buf, at + 16, v.goal, end)
    }


    fn serialize(&self, w: &mut CdrWriter) {
        let ghost p = w.position();
        let ghost d = w.data();
        self.goal_id.serialize(w);
        self.goal.serialize(w);
        proof { lemma_overwrite_append(d, p, self.goal_id.0@, self.goal.spec_encoding(p + 16)); }
    }

    fn deserialize(r: &mut CdrReader<'_>) -> (res: Result<Self, Error>) {
        let goal_id = GoalId::deserialize(r)?;
        let goal = A::Goal::deserialize(r)?;
        Ok(Self { goal_id, goal })
    }

}

/// `buf` holding `a + b` at `at` holds `a` at `at` and `b` right after it.
pub proof fn lemma_split(buf: Seq<u8>, at: int, a: Seq<u8>, b: Seq<u8>)
    requires
        holds_at(buf, at, a + b),
    ensures
        holds_at(buf, at, a),
        holds_at(buf, at + a.len(), b),
{
    assert(buf.subrange(at, at + a.len()) =~= a) by {
        assert(buf.subrange(at, at + (a + b).len()).subrange(0, a.len() as int) =~= a);
    }
    assert(buf.subrange(at + a.len(), at + a.len() + b.len()) =~= b) by {
        assert(buf.subrange(at, at + (a + b).len()).subrange(a.len() as int, (a + b).len() as int) =~= b);
    }
}

// ── Wrapper message: SendGoalResponse ────────────────────────────────────────

/// `<Action>_SendGoal_Response_` fields: `accepted` (1 byte), 3 bytes of
/// alignment padding, then a [`Time`] stamp. The same for every action.
pub struct SendGoalResponse {
    pub accepted: bool,
    pub stamp: Time,
}

/// Type-name shim used when constructing `Service` wrappers.
pub trait SendGoalResponseTypeName {
    const TYPE_NAME: &'static str;
}

/// [`SendGoalResponse`] bound to the per-action DDS type name.
pub struct SendGoalResponseFor<A: Action> {
    pub inner: SendGoalResponse,
    pub _phantom: PhantomData<A>,
}

impl<A: Action> SendGoalResponseFor<A> {
    pub fn new(inner: SendGoalResponse) -> (r: Self)
        ensures
            r.inner == inner,
    {
        Self { inner, _phantom: PhantomData }
    }
}

/// Reading a SendGoal response: the `accepted` byte (any non-zero value is
/// `true`), then the stamp.
pub open spec fn spec_read_send_goal_response(buf: Seq<u8>, at: int) -> Option<(bool, Time, int)> {
    match spec_read_u8(buf, at) {
        Some((b, p)) => match spec_read_time(buf, p) {
            Some((stamp, e)) => Some((b != 0, stamp, e)),
            None => None,
        },
        None => None,
    }
}

impl<A: Action> Message for SendGoalResponseFor<A> {
    const TYPE_NAME: &'static str = A::SEND_GOAL_RESPONSE_TYPE_NAME;
    /// 1 byte (`accepted`) + up to 3 bytes pad + 8 bytes (`Time`) = 12 bytes.
    const MAX_SERIALIZED_SIZE: usize = 12;

    open spec fn obeys_message_spec() -> bool {
        true
    }

    open spec fn spec_encoding(&self, at: int) -> Seq<u8> {
        cdr_bool(self.inner.accepted) + self.inner.stamp.spec_encoding(at + 1)
    }

    open spec fn spec_writable(&self) -> bool {
        true
    }

    open spec fn spec_decodable(buf: Seq<u8>, at: int) -> bool {
        spec_read_send_goal_response(buf, at) is Some
    }

    open spec fn spec_decodes(buf: Seq<u8>, at: int, v: Self, end: int) -> bool {
        spec_read_send_goal_response(buf, at) == Some((v.inner.accepted, v.inner.stamp, end))
    }


    fn serialize(&self, w: &mut CdrWriter) {
        let ghost p = w.position();
        let ghost d = w.data();
        w.bool_val(self.inner.accepted);
        // Time.sec needs 4-byte alignment; i32_val pads automatically.
        self.inner.stamp.serialize(w);
        proof { lemma_overwrite_append(d, p, cdr_bool(self.inner.accepted), self.inner.stamp.spec_encoding(p + 1)); }
    }

    fn deserialize(r: &mut CdrReader<'_>) -> (res: Result<Self, Error>) {
        let accepted = r.bool_val()?;
        let stamp = Time::deserialize(r)?;
        Ok(Self { inner: SendGoalResponse { accepted, stamp }, _phantom: PhantomData })
    }

}

// ── Wrapper message: GetResultRequest ────────────────────────────────────────

/// `<Action>_GetResult_Request_`: just `goal_id` (16 raw bytes).
pub struct GetResultRequest<A: Action> {
    pub goal_id: GoalId,
    pub _phantom: PhantomData<A>,
}

impl<A: Action> GetResultRequest<A> {
    pub fn new(goal_id: GoalId) -> (r: Self)
        ensures
            r.goal_id == goal_id,
    {
        Self { goal_id, _phantom: PhantomData }
    }
}

impl<A: Action> Message for GetResultRequest<A> {
    const TYPE_NAME: &'static str = A::GET_RESULT_REQUEST_TYPE_NAME;
    const MAX_SERIALIZED_SIZE: usize = GoalId::SERIALIZED_LEN;

    open spec fn obeys_message_spec() -> bool {
        true
    }

    open spec fn spec_encoding(&self, at: int) -> Seq<u8> {
        self.goal_id.0@
    }

    open spec fn spec_writable(&self) -> bool {
        true
    }

    open spec fn spec_decodable(buf: Seq<u8>, at: int) -> bool {
        spec_read_goal_id(buf, at) is Some
    }

    open spec fn spec_decodes(buf: Seq<u8>, at: int, v: Self, end: int) -> bool {
        spec_read_goal_id(buf, at) == Some((v.goal_id, end))
    }


    fn serialize(&self, w: &mut CdrWriter) {
        self.goal_id.serialize(w);
    }

    fn deserialize(r: &mut CdrReader<'_>) -> (res: Result<Self, Error>) {
        Ok(Self::new(GoalId::deserialize(r)?))
    }

}

// ── Wrapper message: GetResultResponse<A> ────────────────────────────────────

/// `<Action>_GetResult_Response_`: `status` (i8, 1 byte) then the result;
/// the result's first field decides the padding after `status`.
pub struct GetResultResponse<A: Action> {
    pub status: i8,
    pub result: A::Result,
}

impl<A: Action> Message for GetResultResponse<A> {
    const TYPE_NAME: &'static str = A::GET_RESULT_RESPONSE_TYPE_NAME;
    const MAX_SERIALIZED_SIZE: usize = 1 + 7 + A::Result::MAX_SERIALIZED_SIZE;

    open spec fn obeys_message_spec() -> bool {
        A::Result::obeys_message_spec()
    }

    open spec fn spec_encoding(&self, at: int) -> Seq<u8> {
        seq![self.status as u8] + self.result.spec_encoding(at + 1)
    }

    open spec fn spec_writable(&self) -> bool {
        self.result.spec_writable()
    }

    open spec fn spec_decodable(buf: Seq<u8>, at: int) -> bool {
        spec_read_u8(buf, at) is Some && A::Result::spec_decodable(buf, at + 1)
    }

    open spec fn spec_decodes(buf: Seq<u8>, at: int, v: Self, end: int) -> bool {
        spec_read_u8(buf, at) matches Some((b, _)) && v.status == b as i8
            && A::Result::spec_decodes(buf, at + 1, v.result, end)
    }


    fn serialize(&self, w: &mut CdrWriter) {
        let ghost p = w.position();
        let ghost d = w.data();
        // status is a CDR `int8`: same width and alignment as `octet`.
        w.u8_val(self.status as u8);
        self.result.serialize(w);
        proof { lemma_overwrite_append(d, p, seq![self.status as u8], self.result.spec_encoding(p + 1)); }
    }

    fn deserialize(r: &mut CdrReader<'_>) -> (res: Result<Self, Error>) {
        let status = r.u8_val()? as i8;
        let result = A::Result::deserialize(r)?;
        Ok(Self { status, result })
    }

}

// ── Wrapper message: FeedbackMessage<A> ──────────────────────────────────────

/// `<Action>_FeedbackMessage_`: `goal_id` (16 raw bytes) then the feedback.
pub struct FeedbackMessage<A: Action> {
    pub goal_id: GoalId,
    pub feedback: A::Feedback,
}

impl<A: Action> Message for FeedbackMessage<A> {
    const TYPE_NAME: &'static str = A::FEEDBACK_MESSAGE_TYPE_NAME;
    const MAX_SERIALIZED_SIZE: usize = GoalId::SERIALIZED_LEN + A::Feedback::MAX_SERIALIZED_SIZE;

    open spec fn obeys_message_spec() -> bool {
        A::Feedback::obeys_message_spec()
    }

    open spec fn spec_encoding(&self, at: int) -> Seq<u8> {
        self.goal_id.0@ + self.feedback.spec_encoding(at + 16)
    }

    open spec fn spec_writable(&self) -> bool {
        self.feedback.spec_writable()
    }

    open spec fn spec_decodable(buf: Seq<u8>, at: int) -> bool {
        spec_read_goal_id(buf, at) is Some && A::Feedback::spec_decodable(buf, at + 16)
    }

    open spec fn spec_decodes(buf: Seq<u8>, at: int, v: Self, end: int) -> bool {
        spec_read_goal_id(buf, at) == Some((v.goal_id, at + 16)) && A::Feedback::spec_decodes(buf, at + 16, v.feedback, end)
    }


    fn serialize(&self, w: &mut CdrWriter) {
        let ghost p = w.position();
        let ghost d = w.data();
        self.goal_id.serialize(w);
        self.feedback.serialize(w);
        proof { lemma_overwrite_append(d, p, self.goal_id.0@, self.feedback.spec_encoding(p + 16)); }
    }

    fn deserialize(r: &mut CdrReader<'_>) -> (res: Result<Self, Error>) {
        let goal_id = GoalId::deserialize(r)?;
        let feedback = A::Feedback::deserialize(r)?;
        Ok(Self { goal_id, feedback })
    }

}

// ── Wrapper message: CancelGoalRequest ───────────────────────────────────────

/// `action_msgs/srv/CancelGoal_Request_` — a single `GoalInfo`; shared by
/// all actions.
#[derive(Clone, Copy, Debug, PartialEq, Eq)]
pub struct CancelGoalRequest {
    pub goal_info: GoalInfo,
}

impl Message for CancelGoalRequest {
    const TYPE_NAME: &'static str = "action_msgs::srv::dds_::CancelGoal_Request_";
    const MAX_SERIALIZED_SIZE: usize = GoalInfo::SERIALIZED_LEN;

    open spec fn obeys_message_spec() -> bool {
        true
    }

    open spec fn spec_encoding(&self, at: int) -> Seq<u8> {
        self.goal_info.spec_encoding(at)
    }

    open spec fn spec_writable(&self) -> bool {
        true
    }

    open spec fn spec_decodable(buf: Seq<u8>, at: int) -> bool {
        spec_read_goal_info(buf, at) is Some
    }

    open spec fn spec_decodes(buf: Seq<u8>, at: int, v: Self, end: int) -> bool {
        spec_read_goal_info(buf, at) == Some((v.goal_info, end))
    }


    fn serialize(&self, w: &mut CdrWriter) {
        self.goal_info.serialize(w);
    }

    fn deserialize(r: &mut CdrReader<'_>) -> (res: Result<Self, Error>) {
        Ok(Self { goal_info: GoalInfo::deserialize(r)? })
    }

}


// ── Wrapper message: CancelGoalResponse ──────────────────────────────────────

/// A GoalInfo's encoding at an offset, as a function value.
pub open spec fn goal_info_enc() -> spec_fn(GoalInfo, int) -> Seq<u8> {
    |g: GoalInfo, a: int| g.spec_encoding(a)
}

/// Reading a GoalInfo, as a function value.
pub open spec fn goal_info_read() -> spec_fn(Seq<u8>, int) -> Option<(GoalInfo, int)> {
    |b: Seq<u8>, a: int| spec_read_goal_info(b, a)
}

/// The bytes of a CancelGoal response written at offset `at`: the return
/// code byte, the u32 count, then each GoalInfo 4-aligned.
pub open spec fn spec_cancel_response_encoding(return_code: i8, goals: Seq<GoalInfo>, at: int) -> Seq<u8> {
    let head = seq![return_code as u8] + cdr_u32(at + 1, goals.len() as u32);
    head + aligned_items(goals, at + head.len(), goal_info_enc())
}

/// Reading a CancelGoal response: the return code, the count (more than
/// [`MAX_CANCEL_GOALS`] is refused), then the goal infos.
pub open spec fn spec_read_cancel_response(buf: Seq<u8>, at: int) -> Option<(i8, Seq<GoalInfo>, int)> {
    match spec_read_u8(buf, at) {
        Some((b, p)) => match spec_read_u32(buf, p) {
            Some((n, q)) => if n > MAX_CANCEL_GOALS {
                None
            } else {
                match spec_read_aligned_items(buf, q, n as int, goal_info_read()) {
                    Some((goals, e)) => Some((b as i8, goals, e)),
                    None => None,
                }
            },
            None => None,
        },
        None => None,
    }
}

/// `action_msgs/srv/CancelGoal_Response_` — `int8 return_code` followed by a
/// `sequence<GoalInfo>` capped at [`MAX_CANCEL_GOALS`].
///
/// CDR layout: `[return_code 1][pad 3][len u32][GoalInfo × len]`; each
/// GoalInfo starts at a 4-byte-aligned offset.
pub struct CancelGoalResponse {
    pub return_code: i8,
    pub goals_canceling: heapless::Vec<GoalInfo, MAX_CANCEL_GOALS>,
}

impl Default for CancelGoalResponse {
    fn default() -> (r: Self)
        ensures
            r.return_code == cancel_response::ERROR_NONE,
            goal_infos(r.goals_canceling) == Seq::<GoalInfo>::empty(),
    {
        Self { return_code: cancel_response::ERROR_NONE, goals_canceling: goal_infos_new() }
    }
}

impl Message for CancelGoalResponse {
    const TYPE_NAME: &'static str = "action_msgs::srv::dds_::CancelGoal_Response_";
    /// 1 byte (`return_code`) + 3 pad + 4 (length) + 24 × MAX = 8 + 96 = 104.
    const MAX_SERIALIZED_SIZE: usize = 8 + GoalInfo::SERIALIZED_LEN * MAX_CANCEL_GOALS;

    open spec fn obeys_message_spec() -> bool {
        true
    }

    open spec fn spec_encoding(&self, at: int) -> Seq<u8> {
        spec_cancel_response_encoding(self.return_code, goal_infos(self.goals_canceling), at)
    }

    open spec fn spec_writable(&self) -> bool {
        true
    }

    open spec fn spec_decodable(buf: Seq<u8>, at: int) -> bool {
        spec_read_cancel_response(buf, at) is Some
    }

    open spec fn spec_decodes(buf: Seq<u8>, at: int, v: Self, end: int) -> bool {
        spec_read_cancel_response(buf, at) == Some((v.return_code, goal_infos(v.goals_canceling), end))
    }


    fn serialize(&self, w: &mut CdrWriter) {
        let ghost p0 = w.position();
        let ghost d = w.data();
        let items = goal_infos_slice(&self.goals_canceling);
        let ghost head = seq![self.return_code as u8] + cdr_u32(p0 + 1, items@.len() as u32);
        let ghost q0 = p0 + head.len();
        let ghost all = aligned_items(items@, q0, goal_info_enc());
        assert(self.spec_encoding(p0) == head + all);
        w.u8_val(self.return_code as u8);
        // u32_val (length) auto-aligns to 4: 3 pad bytes after the i8.
        w.u32_val(items.len() as u32);
        proof {
            lemma_overwrite_append(d, p0, seq![self.return_code as u8], cdr_u32(p0 + 1, items@.len() as u32));
            assert(items@.take(0) =~= Seq::<GoalInfo>::empty());
            assert(head + aligned_items(items@.take(0), q0, goal_info_enc()) =~= head);
        }
        let mut i: usize = 0;
        while i < items.len()
            invariant
                i <= items@.len(),
                items@.len() <= MAX_CANCEL_GOALS,
                q0 == p0 + head.len(),
                all == aligned_items(items@, q0, goal_info_enc()),
                p0 + head.len() + all.len() <= usize::MAX,
                w.position() == q0 + aligned_items(items@.take(i as int), q0, goal_info_enc()).len(),
                w.data() == overwrite(d, p0, head + aligned_items(items@.take(i as int), q0, goal_info_enc())),
            decreases items@.len() - i,
        {
            proof { lemma_aligned_items_step(items@, q0, goal_info_enc(), i as int); }
            let ghost a = aligned_items(items@.take(i as int), q0, goal_info_enc());
            let ghost pos = q0 + a.len();
            let ghost z = zeros(pad(pos, 4));
            w.align_to(4);
            items[i].serialize(w);
            proof {
                lemma_overwrite_append(d, p0, head + a, z);
                lemma_overwrite_append(d, p0, head + a + z, items@[i as int].spec_encoding(pos + pad(pos, 4)));
                assert(head + a + z + items@[i as int].spec_encoding(pos + pad(pos, 4))
                    =~= head + aligned_items(items@.take(i + 1), q0, goal_info_enc()));
            }
            i += 1;
        }
        proof { assert(items@.take(items@.len() as int) =~= items@); }
    }

    fn deserialize(r: &mut CdrReader<'_>) -> (res: Result<Self, Error>) {
        let ghost buf = r.body();
        let ghost at0 = r.cursor();
        let b = r.u8_val()?;
        let ghost p = r.cursor();
        let n32 = r.u32_val()?;
        let n = n32 as usize;
        if n > MAX_CANCEL_GOALS {
            return Err(Error::Deserialization);
        }
        let ghost q = r.cursor();
        let mut goals = goal_infos_new();
        let mut i: usize = 0;
        while i < n
            invariant
                r.wf(),
                r.body() == buf,
                buf == old(r).body(),
                at0 == old(r).cursor(),
                spec_read_u8(buf, at0) == Some((b, p)),
                spec_read_u32(buf, p) == Some((n32, q)),
                n == n32,
                n <= MAX_CANCEL_GOALS,
                i <= n,
                goal_infos(goals).len() == i,
                spec_read_aligned_items(buf, q, i as int, goal_info_read()) == Some((goal_infos(goals), r.cursor())),
            decreases n - i,
        {
            r.align_to(4);
            match GoalInfo::deserialize(r) {
                Ok(gi) => {
                    let _ = goal_infos_push(&mut goals, gi);
                }
                Err(e) => {
                    proof { lemma_aligned_items_fail(buf, q, i as int + 1, n as int, goal_info_read()); }
                    return Err(e);
                }
            }
            i += 1;
        }
        Ok(Self { return_code: b as i8, goals_canceling: goals })
    }

}


// ── Wrapper message: GoalStatusArray ─────────────────────────────────────────

/// A GoalStatus's encoding at an offset, as a function value.
pub open spec fn goal_status_enc() -> spec_fn(GoalStatus, int) -> Seq<u8> {
    |g: GoalStatus, a: int| g.spec_encoding(a)
}

/// Reading a GoalStatus, as a function value.
pub open spec fn goal_status_read() -> spec_fn(Seq<u8>, int) -> Option<(GoalStatus, int)> {
    |b: Seq<u8>, a: int| spec_read_goal_status(b, a)
}

/// The bytes of a status array written at offset `at`: the u32 count, then
/// each GoalStatus 4-aligned.
pub open spec fn spec_status_array_encoding(list: Seq<GoalStatus>, at: int) -> Seq<u8> {
    let head = cdr_u32(at, list.len() as u32);
    head + aligned_items(list, at + head.len(), goal_status_enc())
}

/// Reading a status array: the count (more than [`MAX_STATUS_GOALS`] is
/// refused), then the statuses.
pub open spec fn spec_read_status_array(buf: Seq<u8>, at: int) -> Option<(Seq<GoalStatus>, int)> {
    match spec_read_u32(buf, at) {
        Some((n, q)) => if n > MAX_STATUS_GOALS {
            None
        } else {
            spec_read_aligned_items(buf, q, n as int, goal_status_read())
        },
        None => None,
    }
}

/// `action_msgs/msg/GoalStatusArray.msg` — `sequence<GoalStatus>` capped at
/// [`MAX_STATUS_GOALS`].
pub struct GoalStatusArray {
    pub status_list: heapless::Vec<GoalStatus, MAX_STATUS_GOALS>,
}

impl Default for GoalStatusArray {
    fn default() -> (r: Self)
        ensures
            goal_statuses(r.status_list) == Seq::<GoalStatus>::empty(),
    {
        Self { status_list: goal_statuses_new() }
    }
}

impl Message for GoalStatusArray {
    const TYPE_NAME: &'static str = "action_msgs::msg::dds_::GoalStatusArray_";
    /// 4 (length) + 28 × MAX (per-element with trailing pad) = 4 + 224 = 228.
    const MAX_SERIALIZED_SIZE: usize = 4 + 28 * MAX_STATUS_GOALS;

    open spec fn obeys_message_spec() -> bool {
        true
    }

    open spec fn spec_encoding(&self, at: int) -> Seq<u8> {
        spec_status_array_encoding(goal_statuses(self.status_list), at)
    }

    open spec fn spec_writable(&self) -> bool {
        true
    }

    open spec fn spec_decodable(buf: Seq<u8>, at: int) -> bool {
        spec_read_status_array(buf, at) is Some
    }

    open spec fn spec_decodes(buf: Seq<u8>, at: int, v: Self, end: int) -> bool {
        spec_read_status_array(buf, at) == Some((goal_statuses(v.status_list), end))
    }


    fn serialize(&self, w: &mut CdrWriter) {
        let ghost p0 = w.position();
        let ghost d = w.data();
        let items = goal_statuses_slice(&self.status_list);
        let ghost head = cdr_u32(p0, items@.len() as u32);
        let ghost q0 = p0 + head.len();
        let ghost all = aligned_items(items@, q0, goal_status_enc());
        assert(self.spec_encoding(p0) == head + all);
        w.u32_val(items.len() as u32);
        proof {
            assert(items@.take(0) =~= Seq::<GoalStatus>::empty());
            assert(head + aligned_items(items@.take(0), q0, goal_status_enc()) =~= head);
        }
        let mut i: usize = 0;
        while i < items.len()
            invariant
                i <= items@.len(),
                items@.len() <= MAX_STATUS_GOALS,
                q0 == p0 + head.len(),
                all == aligned_items(items@, q0, goal_status_enc()),
                p0 + head.len() + all.len() <= usize::MAX,
                w.position() == q0 + aligned_items(items@.take(i as int), q0, goal_status_enc()).len(),
                w.data() == overwrite(d, p0, head + aligned_items(items@.take(i as int), q0, goal_status_enc())),
            decreases items@.len() - i,
        {
            proof { lemma_aligned_items_step(items@, q0, goal_status_enc(), i as int); }
            let ghost a = aligned_items(items@.take(i as int), q0, goal_status_enc());
            let ghost pos = q0 + a.len();
            let ghost z = zeros(pad(pos, 4));
            w.align_to(4);
            items[i].serialize(w);
            proof {
                lemma_overwrite_append(d, p0, head + a, z);
                lemma_overwrite_append(d, p0, head + a + z, items@[i as int].spec_encoding(pos + pad(pos, 4)));
                assert(head + a + z + items@[i as int].spec_encoding(pos + pad(pos, 4))
                    =~= head + aligned_items(items@.take(i + 1), q0, goal_status_enc()));
            }
            i += 1;
        }
        proof { assert(items@.take(items@.len() as int) =~= items@); }
    }

    fn deserialize(r: &mut CdrReader<'_>) -> (res: Result<Self, Error>) {
        let ghost buf = r.body();
        let ghost at0 = r.cursor();
        let n32 = r.u32_val()?;
        let n = n32 as usize;
        if n > MAX_STATUS_GOALS {
            return Err(Error::Deserialization);
        }
        let ghost q = r.cursor();
        let mut list = goal_statuses_new();
        let mut i: usize = 0;
        while i < n
            invariant
                r.wf(),
                r.body() == buf,
                buf == old(r).body(),
                at0 == old(r).cursor(),
                spec_read_u32(buf, at0) == Some((n32, q)),
                n == n32,
                n <= MAX_STATUS_GOALS,
                i <= n,
                goal_statuses(list).len() == i,
                spec_read_aligned_items(buf, q, i as int, goal_status_read()) == Some((goal_statuses(list), r.cursor())),
            decreases n - i,
        {
            r.align_to(4);
            match GoalStatus::deserialize(r) {
                Ok(s) => {
                    let _ = goal_statuses_push(&mut list, s);
                }
                Err(e) => {
                    proof { lemma_aligned_items_fail(buf, q, i as int + 1, n as int, goal_status_read()); }
                    return Err(e);
                }
            }
            i += 1;
        }
        Ok(Self { status_list: list })
    }

}


// ── What a read gives back of a write ─────────────────────────────────────────

/// A SendGoal request reads back wherever its goal does.
pub proof fn lemma_send_goal_request_reads_back<A: Action>(m: SendGoalRequest<A>)
    requires
        reads_back(m.goal),
    ensures
        reads_back(m),
{
    assert forall|buf: Seq<u8>, at: int| holds_at(buf, at, m.spec_encoding(at)) implies reads_back_at(m, buf, at) by {
        lemma_split(buf, at, m.goal_id.0@, m.goal.spec_encoding(at + 16));
        lemma_goal_id_round_trip(m.goal_id, buf, at);
        assert(holds_at(buf, at + 16, m.goal.spec_encoding(at + 16)));
    }
}

/// A SendGoal response always reads back.
pub proof fn lemma_send_goal_response_reads_back<A: Action>(m: SendGoalResponseFor<A>)
    ensures
        reads_back(m),
{
    assert forall|buf: Seq<u8>, at: int| holds_at(buf, at, m.spec_encoding(at)) implies reads_back_at(m, buf, at) by {
        lemma_split(buf, at, cdr_bool(m.inner.accepted), m.inner.stamp.spec_encoding(at + 1));
        lemma_read_bool_written(buf, at, m.inner.accepted);
        lemma_time_round_trip(m.inner.stamp, buf, at + 1);
    }
}

/// A GetResult request always reads back.
pub proof fn lemma_get_result_request_reads_back<A: Action>(m: GetResultRequest<A>)
    ensures
        reads_back(m),
{
    assert forall|buf: Seq<u8>, at: int| holds_at(buf, at, m.spec_encoding(at)) implies reads_back_at(m, buf, at) by {
        lemma_goal_id_round_trip(m.goal_id, buf, at);
    }
}

/// A GetResult response reads back wherever its result does.
pub proof fn lemma_get_result_response_reads_back<A: Action>(m: GetResultResponse<A>)
    requires
        reads_back(m.result),
    ensures
        reads_back(m),
{
    assert forall|buf: Seq<u8>, at: int| holds_at(buf, at, m.spec_encoding(at)) implies reads_back_at(m, buf, at) by {
        lemma_split(buf, at, seq![m.status as u8], m.result.spec_encoding(at + 1));
        lemma_read_u8_written(buf, at, m.status as u8);
        lemma_i8_byte(m.status);
        assert(holds_at(buf, at + 1, m.result.spec_encoding(at + 1)));
    }
}

/// A feedback message reads back wherever its feedback does.
pub proof fn lemma_feedback_message_reads_back<A: Action>(m: FeedbackMessage<A>)
    requires
        reads_back(m.feedback),
    ensures
        reads_back(m),
{
    assert forall|buf: Seq<u8>, at: int| holds_at(buf, at, m.spec_encoding(at)) implies reads_back_at(m, buf, at) by {
        lemma_split(buf, at, m.goal_id.0@, m.feedback.spec_encoding(at + 16));
        lemma_goal_id_round_trip(m.goal_id, buf, at);
        assert(holds_at(buf, at + 16, m.feedback.spec_encoding(at + 16)));
    }
}

/// A CancelGoal request always reads back.
pub proof fn lemma_cancel_goal_request_reads_back(m: CancelGoalRequest)
    ensures
        reads_back(m),
{
    assert forall|buf: Seq<u8>, at: int| holds_at(buf, at, m.spec_encoding(at)) implies reads_back_at(m, buf, at) by {
        lemma_goal_info_round_trip(m.goal_info, buf, at);
    }
}

/// A CancelGoal response reads back when it lists at most
/// [`MAX_CANCEL_GOALS`] goals (which its vector's capacity guarantees).
pub proof fn lemma_cancel_goal_response_reads_back(m: CancelGoalResponse)
    requires
        goal_infos(m.goals_canceling).len() <= MAX_CANCEL_GOALS,
    ensures
        reads_back(m),
{
    assert forall|buf: Seq<u8>, at: int| holds_at(buf, at, m.spec_encoding(at)) implies reads_back_at(m, buf, at) by {
        let rc = m.return_code;
        let goals = goal_infos(m.goals_canceling);
        let c = cdr_u32(at + 1, goals.len() as u32);
        let head = seq![rc as u8] + c;
        let q = at + head.len();
        lemma_split(buf, at, head, aligned_items(goals, q, goal_info_enc()));
        lemma_split(buf, at, seq![rc as u8], c);
        lemma_read_u8_written(buf, at, rc as u8);
        lemma_i8_byte(rc);
        lemma_read_u32_written(buf, at + 1, goals.len() as u32);
        assert forall|x: GoalInfo, a: int| holds_at(buf, a, #[trigger] goal_info_enc()(x, a)) implies
            goal_info_read()(buf, a) == Some((x, a + goal_info_enc()(x, a).len())) by {
            lemma_goal_info_round_trip(x, buf, a);
        }
        lemma_read_aligned_items_written(buf, q, goals, goal_info_enc(), goal_info_read());
    }
}

/// A status array reads back when it lists at most [`MAX_STATUS_GOALS`]
/// statuses (which its vector's capacity guarantees).
pub proof fn lemma_goal_status_array_reads_back(m: GoalStatusArray)
    requires
        goal_statuses(m.status_list).len() <= MAX_STATUS_GOALS,
    ensures
        reads_back(m),
{
    assert forall|buf: Seq<u8>, at: int| holds_at(buf, at, m.spec_encoding(at)) implies reads_back_at(m, buf, at) by {
        let list = goal_statuses(m.status_list);
        let head = cdr_u32(at, list.len() as u32);
        let q = at + head.len();
        lemma_split(buf, at, head, aligned_items(list, q, goal_status_enc()));
        lemma_read_u32_written(buf, at, list.len() as u32);
        assert forall|x: GoalStatus, a: int| holds_at(buf, a, #[trigger] goal_status_enc()(x, a)) implies
            goal_status_read()(buf, a) == Some((x, a + goal_status_enc()(x, a).len())) by {
            lemma_goal_status_round_trip(x, buf, a);
        }
        lemma_read_aligned_items_written(buf, q, list, goal_status_enc(), goal_status_read());
    }
}

// ── Service trait impls: SendGoalSrv<A> / GetResultSrv<A> / CancelGoalSrv<A> ─

/// ZST providing the [`Service`] impl for the `send_goal` half of an action.
pub struct SendGoalSrv<A: Action>(pub PhantomData<A>);

impl<A: Action> Service for SendGoalSrv<A> {
    type Request = SendGoalRequest<A>;
    type Response = SendGoalResponseFor<A>;

    const SERVICE_NAME: &'static str = A::SEND_GOAL_SERVICE_NAME;
    const REQUEST_TYPE_NAME: &'static str = A::SEND_GOAL_REQUEST_TYPE_NAME;
    const RESPONSE_TYPE_NAME: &'static str = A::SEND_GOAL_RESPONSE_TYPE_NAME;
}

/// ZST providing the [`Service`] impl for the `get_result` half of an action.
pub struct GetResultSrv<A: Action>(pub PhantomData<A>);

impl<A: Action> Service for GetResultSrv<A> {
    type Request = GetResultRequest<A>;
    type Response = GetResultResponse<A>;

    const SERVICE_NAME: &'static str = A::GET_RESULT_SERVICE_NAME;
    const REQUEST_TYPE_NAME: &'static str = A::GET_RESULT_REQUEST_TYPE_NAME;
    const RESPONSE_TYPE_NAME: &'static str = A::GET_RESULT_RESPONSE_TYPE_NAME;
}

/// ZST providing the [`Service`] impl for the `cancel_goal` half of an
/// action. The CancelGoal request / response types are fixed by
/// `action_msgs` and shared across all actions; only the service name
/// varies per action.
pub struct CancelGoalSrv<A: Action>(pub PhantomData<A>);

impl<A: Action> Service for CancelGoalSrv<A> {
    type Request = CancelGoalRequest;
    type Response = CancelGoalResponse;

    const SERVICE_NAME: &'static str = A::CANCEL_GOAL_SERVICE_NAME;
    const REQUEST_TYPE_NAME: &'static str = "action_msgs::srv::dds_::CancelGoal_Request_";
    const RESPONSE_TYPE_NAME: &'static str = "action_msgs::srv::dds_::CancelGoal_Response_";
}


// ── Replies and outcomes of the action services ──────────────────────────────

/// Whether two goal ids are the same 16 bytes.
pub fn goal_ids_equal(a: &GoalId, b: &GoalId) -> (r: bool)
    ensures
        r <==> a == b,
{
    let mut i: usize = 0;
    while i < 16
        invariant
            i <= 16,
            forall|k: int| 0 <= k < i ==> a.0@[k] == b.0@[k],
        decreases 16 - i,
    {
        if a.0[i] != b.0[i] {
            return false;
        }
        i += 1;
    }
    proof {
        assert(a.0@ =~= b.0@);
        lemma_array16(a.0@, a.0);
        lemma_array16(b.0@, b.0);
    }
    true
}

impl CancelGoalResponse {
    /// A CancelGoal reply with `return_code` and no goals listed.
    pub fn with_code(return_code: i8) -> (r: Self)
        ensures
            r.return_code == return_code,
            goal_infos(r.goals_canceling) == Seq::<GoalInfo>::empty(),
    {
        Self { return_code, goals_canceling: goal_infos_new() }
    }
}

impl GoalStatusArray {
    /// A status array holding one entry: `goal_id` at `status`, stamped zero.
    pub fn single(goal_id: GoalId, status: i8) -> (r: Self)
        ensures
            goal_statuses(r.status_list) == seq![GoalStatus {
                goal_info: GoalInfo { goal_id, stamp: Time { sec: 0, nanosec: 0 } },
                status,
            }],
    {
        let mut list = goal_statuses_new();
        let _ = goal_statuses_push(&mut list, GoalStatus { goal_info: GoalInfo { goal_id, stamp: Time::zero() }, status });
        proof {
            assert(Seq::<GoalStatus>::empty().push(GoalStatus {
                goal_info: GoalInfo { goal_id, stamp: Time { sec: 0, nanosec: 0 } },
                status,
            }) =~= seq![GoalStatus { goal_info: GoalInfo { goal_id, stamp: Time { sec: 0, nanosec: 0 } }, status }]);
        }
        Self { status_list: list }
    }
}

/// The reply an action server sends to every goal it accepts:
/// `accepted = true`, stamped zero.
pub fn accept_reply<A: Action>() -> (r: SendGoalResponseFor<A>)
    ensures
        r.inner.accepted,
        r.inner.stamp == (Time { sec: 0, nanosec: 0 }),
{
    SendGoalResponseFor::new(SendGoalResponse { accepted: true, stamp: Time::zero() })
}

/// What a client makes of the SendGoal reply: the server's stamp when the
/// goal was accepted, [`Error::GoalRejected`] otherwise.
pub fn send_goal_outcome<A: Action>(resp: &SendGoalResponseFor<A>) -> (r: Result<Time, Error>)
    ensures
        r == if resp.inner.accepted { Ok::<Time, Error>(resp.inner.stamp) } else { Err(Error::GoalRejected) },
{
    if !resp.inner.accepted {
        return Err(Error::GoalRejected);
    }
    Ok(resp.inner.stamp)
}

/// What a client makes of the GetResult reply: the result when the goal
/// succeeded, [`Error::GoalNotSucceeded`] with the terminal status otherwise.
pub fn get_result_outcome<A: Action>(resp: GetResultResponse<A>) -> (r: Result<A::Result, Error>)
    ensures
        resp.status == goal_status::STATUS_SUCCEEDED ==> r == Ok::<A::Result, Error>(resp.result),
        resp.status != goal_status::STATUS_SUCCEEDED ==> r == Err::<A::Result, Error>(Error::GoalNotSucceeded(resp.status)),
{
    if resp.status != goal_status::STATUS_SUCCEEDED {
        return Err(Error::GoalNotSucceeded(resp.status));
    }
    Ok(resp.result)
}

/// What a client makes of the CancelGoal reply: `Ok` for `ERROR_NONE`,
/// otherwise [`Error::AgentRejected`] carrying the raw return code.
pub fn cancel_outcome(resp: &CancelGoalResponse) -> (r: Result<(), Error>)
    ensures
        r == if resp.return_code == cancel_response::ERROR_NONE {
            Ok::<(), Error>(())
        } else {
            Err(Error::AgentRejected(resp.return_code as u8))
        },
{
    if resp.return_code == cancel_response::ERROR_NONE {
        Ok(())
    } else {
        Err(Error::AgentRejected(resp.return_code as u8))
    }
}

/// The GetResult reply an accepted goal sends: the status and result when
/// the request names this goal, [`Error::UnexpectedReply`] when it names
/// another (the single-flight contract was broken).
pub fn result_reply<A: Action>(goal_id: &GoalId, requested: &GoalId, status: i8, result: A::Result) -> (r: Result<GetResultResponse<A>, Error>)
    ensures
        *requested == *goal_id ==> (r matches Ok(resp) && resp.status == status && resp.result == result),
        *requested != *goal_id ==> r == Err::<GetResultResponse<A>, Error>(Error::UnexpectedReply),
{
    if !goal_ids_equal(requested, goal_id) {
        return Err(Error::UnexpectedReply);
    }
    Ok(GetResultResponse { status, result })
}

// ── ActiveGoalCancelState ────────────────────────────────────────────────────

/// The all-zero goal id, which marks "no goal active".
pub open spec fn spec_no_goal() -> Seq<u8> {
    Seq::new(16, |i: int| 0u8)
}

/// Single-flight cancel bookkeeping of an action server.
///
/// Accepting a goal stores its id (as two little-endian `u64` halves) and
/// clears the cancel flag. A cancel request that names the stored goal sets
/// the flag, which the goal's executor polls to abort cooperatively. An
/// empty slot holds the all-zero id.
pub struct ActiveGoalCancelState {
    active_lo: u64,
    active_hi: u64,
    cancel_requested: bool,
}

impl ActiveGoalCancelState {
    /// The id of the active goal (all zeros when none is).
    pub closed spec fn active_id(&self) -> Seq<u8> {
        le64(self.active_lo) + le64(self.active_hi)
    }

    /// Whether a cancel was requested for the active goal.
    pub closed spec fn cancel_flag(&self) -> bool {
        self.cancel_requested
    }

    /// The two halves of a goal id, as the state stores them.
    fn halves(goal_id: &GoalId) -> (r: (u64, u64))
        ensures
            r.0 == u64_from_le(goal_id.0@, 0),
            r.1 == u64_from_le(goal_id.0@, 8),
    {
        let b = &goal_id.0;
        let lo = (b[0] as u64) | ((b[1] as u64) << 8) | ((b[2] as u64) << 16) | ((b[3] as u64) << 24)
            | ((b[4] as u64) << 32) | ((b[5] as u64) << 40) | ((b[6] as u64) << 48) | ((b[7] as u64) << 56);
        let hi = (b[8] as u64) | ((b[9] as u64) << 8) | ((b[10] as u64) << 16) | ((b[11] as u64) << 24)
            | ((b[12] as u64) << 32) | ((b[13] as u64) << 40) | ((b[14] as u64) << 48) | ((b[15] as u64) << 56);
        (lo, hi)
    }

    /// The halves of `id` are `lo` and `hi` exactly when `id` is their
    /// little-endian bytes.
    proof fn lemma_halves(id: Seq<u8>, lo: u64, hi: u64)
        requires
            id.len() == 16,
        ensures
            (lo == u64_from_le(id, 0) && hi == u64_from_le(id, 8)) <==> (le64(lo) + le64(hi) == id),
    {
        lemma_le64_round_trip(lo, id, 0);
        lemma_le64_round_trip(hi, id, 8);
        if le64(lo) + le64(hi) == id {
            assert(id.subrange(0, 8) =~= le64(lo));
            assert(id.subrange(8, 16) =~= le64(hi));
            assert(u64_from_le(id, 0) == u64_from_le(le64(lo), 0));
            assert(u64_from_le(id, 8) == u64_from_le(le64(hi), 0));
        }
        if lo == u64_from_le(id, 0) && hi == u64_from_le(id, 8) {
            assert(le64(lo) + le64(hi) =~= id.subrange(0, 8) + id.subrange(8, 16));
            assert(id.subrange(0, 8) + id.subrange(8, 16) =~= id);
        }
    }

    /// Zero halves are the all-zero id.
    proof fn lemma_zero_halves()
        ensures
            le64(0) + le64(0) == spec_no_goal(),
    {
        assert((0u64 >> 8u64) as u8 == 0 && (0u64 >> 16u64) as u8 == 0 && (0u64 >> 24u64) as u8 == 0
            && (0u64 >> 32u64) as u8 == 0 && (0u64 >> 40u64) as u8 == 0 && (0u64 >> 48u64) as u8 == 0
            && (0u64 >> 56u64) as u8 == 0 && 0u64 as u8 == 0) by (bit_vector);
        assert(le64(0) + le64(0) =~= spec_no_goal());
    }

    /// No goal active, no cancel requested.
    pub fn new() -> (s: Self)
        ensures
            s.active_id() == spec_no_goal(),
            !s.cancel_flag(),
    {
        let s = Self { active_lo: 0, active_hi: 0, cancel_requested: false };
        proof { Self::lemma_zero_halves(); }
        s
    }

    /// Mark `goal_id` as the active goal and clear the cancel flag.
    pub fn set_active(&mut self, goal_id: GoalId)
        ensures
            final(self).active_id() == goal_id.0@,
            !final(self).cancel_flag(),
    {
        let (lo, hi) = Self::halves(&goal_id);
        self.active_lo = lo;
        self.active_hi = hi;
        self.cancel_requested = false;
        proof { Self::lemma_halves(goal_id.0@, lo, hi); }
    }

    /// Mark the active slot as empty and clear any pending cancel flag.
    pub fn clear_active(&mut self)
        ensures
            final(self).active_id() == spec_no_goal(),
            !final(self).cancel_flag(),
    {
        self.active_lo = 0;
        self.active_hi = 0;
        self.cancel_requested = false;
        proof { Self::lemma_zero_halves(); }
    }

    /// Whether `goal_id` is the active goal.
    pub fn matches(&self, goal_id: &GoalId) -> (r: bool)
        ensures
            r <==> goal_id.0@ == self.active_id(),
    {
        let (lo, hi) = Self::halves(goal_id);
        proof { Self::lemma_halves(goal_id.0@, self.active_lo, self.active_hi); }
        self.active_lo == lo && self.active_hi == hi
    }

    pub fn is_cancel_requested(&self) -> (r: bool)
        ensures
            r == self.cancel_flag(),
    {
        self.cancel_requested
    }

    /// Mark the active goal as cancellation-requested. Idempotent.
    pub fn request_cancel(&mut self)
        ensures
            final(self).active_id() == old(self).active_id(),
            final(self).cancel_flag(),
    {
        self.cancel_requested = true;
    }

    /// Answer a CancelGoal request against the active goal. When the request
    /// names it, the cancel flag is set and the reply is `ERROR_NONE`; while
    /// no goal is active the reply is `ERROR_GOAL_TERMINATED`; otherwise
    /// `ERROR_UNKNOWN_GOAL_ID`. Only a matching request changes the state.
    pub fn answer_cancel(&mut self, req: &CancelGoalRequest) -> (resp: CancelGoalResponse)
        ensures
            goal_infos(resp.goals_canceling) == Seq::<GoalInfo>::empty(),
            final(self).active_id() == old(self).active_id(),
            req.goal_info.goal_id.0@ == old(self).active_id() ==> {
                &&& resp.return_code == cancel_response::ERROR_NONE
                &&& final(self).cancel_flag()
            },
            req.goal_info.goal_id.0@ != old(self).active_id() ==> {
                &&& final(self).cancel_flag() == old(self).cancel_flag()
                &&& resp.return_code == if old(self).active_id() == spec_no_goal() {
                    cancel_response::ERROR_GOAL_TERMINATED
                } else {
                    cancel_response::ERROR_UNKNOWN_GOAL_ID
                }
            },
    {
        let target = req.goal_info.goal_id;
        let none = GoalId([0u8; 16]);
        assert(none.0@ =~= spec_no_goal());
        let return_code = if self.matches(&target) {
            self.request_cancel();
            cancel_response::ERROR_NONE
        } else if self.matches(&none) {
            cancel_response::ERROR_GOAL_TERMINATED
        } else {
            cancel_response::ERROR_UNKNOWN_GOAL_ID
        };
        CancelGoalResponse::with_code(return_code)
    }
}

/// Once `goal` has been made the active goal (and until the slot changes),
/// exactly the requests that name `goal` match, whatever other id a request
/// carries.
pub proof fn lemma_matches_only_active(s: ActiveGoalCancelState, goal: GoalId, other: GoalId)
    requires
        s.active_id() == goal.0@,
    ensures
        (other.0@ == s.active_id()) <==> other == goal,
{
    lemma_array16(goal.0@, other.0);
    lemma_array16(goal.0@, goal.0);
}

impl Default for ActiveGoalCancelState {
    fn default() -> (s: Self)
        ensures
            s.active_id() == spec_no_goal(),
            !s.cancel_flag(),
    {
        Self::new()
    }
}

} // verus!
