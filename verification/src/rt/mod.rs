//! Runtime layer: wire encoders for every outgoing frame, the incoming-frame
//! decoder, the session bookkeeping shared by all tasks and the runtime's
//! configuration.

pub mod encode;
pub mod executor;
pub mod inner;

use vstd::prelude::*;

verus! {

/// Configuration of a runtime's session.
#[derive(Clone, Copy)]
pub struct RuntimeConfig {
    /// XRCE-DDS session identifier. Values in `0x81..=0xFE` keep message
    /// headers compact (no client key in the header).
    pub session_id: u8,
    /// 4-byte client key; see [`crate::client_key_from_app_id`].
    pub client_key: [u8; 4],
}

impl RuntimeConfig {
    /// A configuration with explicit values.
    pub fn new(session_id: u8, client_key: [u8; 4]) -> (c: Self)
        ensures
            c.session_id == session_id,
            c.client_key == client_key,
    {
        Self { session_id, client_key }
    }
}

} // verus!
