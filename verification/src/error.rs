//! Error type shared by every layer of the client.

use vstd::prelude::*;

verus! {

/// Errors produced by the SDK.
#[derive(Debug, Clone, Copy, PartialEq, Eq, Structural)]
pub enum Error {
    /// Underlying transport I/O error.
    Io,
    /// TCP connection closed unexpectedly.
    Disconnected,
    /// A serialized message did not fit in the SDK-internal buffer.
    BufferTooSmall,
    /// Agent rejected an entity request with the given XRCE status code.
    AgentRejected(u8),
    /// Reply was not the expected submessage type.
    UnexpectedReply,
    /// STATUS reply's `request_id` did not match the request we just sent.
    StatusReqMismatch,
    /// CDR deserialization failed (truncated buffer, invalid encoding, etc.).
    Deserialization,
    /// A subscription's inbox was full and a sample was dropped.
    SubscriptionOverflow,
    /// Too many subscriptions registered for the dispatch table.
    TooManySubscriptions,
    /// A CREATE_* request did not receive a STATUS reply within the timeout.
    Timeout,
    /// A `Context` method was called before the runtime was started.
    NotStarted,
    /// Service-call response did not arrive in time.
    ServiceCallTimeout,
    /// Service slot inbox overflowed (too many pending requests on a server).
    ServiceOverflow,
    /// A new request arrived but the service-server inbox is at capacity.
    NoServiceSlot,
    /// The action server answered a goal with `accepted = false`.
    GoalRejected,
    /// A goal finished with a status other than `STATUS_SUCCEEDED`
    /// (carried as the wrapped value).
    GoalNotSucceeded(i8),
}

} // verus!
