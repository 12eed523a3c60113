//! `micro_xrce_dds_rs` — micro-ROS / XRCE-DDS client SDK: wire encoders,
//! CDR (de)serialization, reply parsing and the session bookkeeping of a
//! ROS2-flavoured XRCE-DDS client.

pub mod action;
pub mod bounded;
pub mod creation;
pub mod cdr;
pub mod cdr_reader;
pub mod error;
pub mod framing;
pub mod message;
pub mod node;
pub mod protocol;
pub mod publisher;
pub mod ros2;
pub mod rt;
pub mod service;
pub mod session;
pub mod subscription;
pub mod wire;

pub use action::{
    Action, ActiveGoalCancelState, CancelGoalRequest, CancelGoalResponse, CancelGoalSrv, FeedbackMessage,
    GetResultRequest, GetResultResponse, GetResultSrv, GoalId, GoalInfo, GoalStatus, GoalStatusArray,
    SendGoalRequest, SendGoalResponse, SendGoalResponseFor, SendGoalSrv, Time,
};
pub use error::Error;
pub use message::Message;
pub use rt::RuntimeConfig;
pub use service::{IncomingRequest, SampleIdentity, Service};
pub use subscription::SubscriptionSlot;

/// Convenience re-export so users can write `msg::std_msgs::Int32`.
pub use ros2::msg;

use vstd::prelude::*;
use vstd::string::StringSliceAdditionalSpecFns;
use crate::wire::{le32, le32_bytes};

verus! {

/// FNV-1a (32-bit) hash of `bytes`.
pub open spec fn spec_fnv1a(bytes: Seq<u8>) -> u32
    decreases bytes.len(),
{
    if bytes.len() == 0 {
        0x811c_9dc5u32
    } else {
        (spec_fnv1a(bytes.drop_last()) ^ (bytes.last() as u32)).wrapping_mul(0x0100_0193u32)
    }
}

/// Derive a 4-byte XRCE-DDS `client_key` from an application identifier:
/// the FNV-1a 32-bit hash of its bytes, little-endian.
///
/// Use a distinct `id` per firmware so the agent treats each one as a
/// distinct client: two firmwares that share a key trip the agent's reuse of
/// stale entities from the previous run.
pub fn client_key_from_app_id(id: &str) -> (key: [u8; 4])
    ensures
        key@ == le32(spec_fnv1a(id.spec_bytes())),
{
    let mut hash: u32 = 0x811c_9dc5;
    let bytes = id.as_bytes();
    let mut i: usize = 0;
    while i < bytes.len()
        invariant
            i <= bytes@.len(),
            hash == spec_fnv1a(bytes@.take(i as int)),
        decreases bytes@.len() - i,
    {
        proof {
            assert(bytes@.take(i + 1).drop_last() =~= bytes@.take(i as int));
        }
        hash ^= bytes[i] as u32;
        hash = hash.wrapping_mul(0x0100_0193);
        i += 1;
    }
    proof {
        assert(bytes@.take(bytes@.len() as int) =~= bytes@);
    }
    le32_bytes(hash)
}

} // verus!
