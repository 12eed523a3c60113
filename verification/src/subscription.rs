//! Delivery of incoming samples: the type-erased view of a subscription
//! that the dispatch table holds, the routing of a sample to the first
//! entry registered for its DataReader, and the decoding of a sample.

use vstd::prelude::*;
use crate::cdr_reader::CdrReader;
use crate::error::Error;
use crate::message::Message;

verus! {

/// Type-erased view of a subscription, for the session's dispatch table.
///
/// The dispatch loop matches incoming DATA submessages by `dr_id` and calls
/// `try_deliver` with the raw sample bytes (a CDR body, no encapsulation
/// header).
pub trait SubscriptionSlot: Sync {
    fn dr_id(&self) -> u16;
    fn try_deliver(&self, payload: &[u8]) -> Result<(), Error>;
}

/// Index of the first dispatch-table entry registered for `dr_oid`.
pub fn find_slot(dr_ids: &[u16], dr_oid: u16) -> (r: Option<usize>)
    ensures
        match r {
            Some(i) => i < dr_ids@.len() && dr_ids@[i as int] == dr_oid
                && forall|k: int| 0 <= k < i ==> dr_ids@[k] != dr_oid,
            None => forall|k: int| 0 <= k < dr_ids@.len() ==> dr_ids@[k] != dr_oid,
        },
{
    let mut i: usize = 0;
    while i < dr_ids.len()
        invariant
            i <= dr_ids@.len(),
            forall|k: int| 0 <= k < i ==> dr_ids@[k] != dr_oid,
        decreases dr_ids@.len() - i,
    {
        if dr_ids[i] == dr_oid {
            return Some(i);
        }
        i += 1;
    }
    None
}

/// Decode one sample of a subscription: the whole payload is the CDR body
/// of an `M`.
pub fn decode_sample<M: Message>(payload: &[u8]) -> (r: Result<M, Error>)
    ensures
        M::obeys_message_spec() ==> (r is Ok <==> M::spec_decodable(payload@, 0)),
        M::obeys_message_spec() ==> (r matches Ok(m) ==> exists|end: int| #[trigger] M::spec_decodes(payload@, 0, m,
            end)),
        r matches Err(e) ==> e == Error::Deserialization,
{
    let mut r = CdrReader::from_body(payload);
    let m = M::deserialize(&mut r)?;
    proof {
        assert(M::obeys_message_spec() ==> exists|end: int| #[trigger] M::spec_decodes(payload@, 0, m, end)) by {
            if M::obeys_message_spec() {
                assert(M::spec_decodes(payload@, 0, m, r.cursor()));
            }
        }
    }
    Ok(m)
}

} // verus!
