//! [`Message`] trait — DDS type name plus (de)serialization routines for
//! ROS2 message types, with the byte-level meaning of both directions.

use vstd::prelude::*;
use crate::cdr::CdrWriter;
use crate::cdr_reader::{holds_at, CdrReader};
use crate::error::Error;
use crate::wire::overwrite;

verus! {

/// A ROS2 message type that can be CDR-serialized for publish and
/// CDR-deserialized for subscribe.
///
/// Implementations emit only the **field bytes**: the 4-byte CDR
/// encapsulation header is added by Fast-DDS on the agent side and skipped
/// by [`CdrReader::new`] on the receive path.
///
/// Offsets in the specifications are stream offsets from the origin of the
/// writer's buffer or the reader's body, which is what CDR alignment is
/// counted from.
///
/// A type states what its code does through the specification functions
/// below and says so with `obeys_message_spec`. Every message type of this
/// library does. A type implemented outside verified code keeps the default
/// (`false`), and then the contracts claim nothing about its bytes: only
/// that a decode leaves the reader consistent on the same body and fails
/// with `Deserialization`.
pub trait Message: Sized {
    /// DDS type name, e.g. `"std_msgs::msg::dds_::Float32_"`.
    const TYPE_NAME: &'static str;

    /// Worst-case CDR-serialized body size in bytes (no encapsulation header).
    const MAX_SERIALIZED_SIZE: usize;

    /// Whether the specification functions below describe this type's
    /// `serialize` and `deserialize`.
    open spec fn obeys_message_spec() -> bool {
        false
    }

    /// The bytes `serialize` appends when the writer stands at offset `at`.
    open spec fn spec_encoding(&self, at: int) -> Seq<u8> {
        Seq::empty()
    }

    /// Whether `serialize` can write this value (its length words fit).
    open spec fn spec_writable(&self) -> bool {
        false
    }

    /// Whether `deserialize` succeeds on `buf` with the cursor at `at`.
    open spec fn spec_decodable(buf: Seq<u8>, at: int) -> bool {
        false
    }

    /// Whether `deserialize` may return `v` with the cursor ending at `end`.
    open spec fn spec_decodes(buf: Seq<u8>, at: int, v: Self, end: int) -> bool {
        false
    }

    /// Serialize the message body into `w`.
    fn serialize(&self, w: &mut CdrWriter)
        requires
            Self::obeys_message_spec() ==> self.spec_writable(),
            old(w).position() + self.spec_encoding(old(w).position()).len() <= usize::MAX,
        ensures
            Self::obeys_message_spec() ==> final(w).data() == overwrite(old(w).data(), old(w).position(),
                self.spec_encoding(old(w).position())),
            Self::obeys_message_spec() ==> final(w).position() == old(w).position() + self.spec_encoding(
                old(w).position()).len(),
    ;

    /// Deserialize a message body from `r`.
    fn deserialize(r: &mut CdrReader<'_>) -> (res: Result<Self, Error>)
        requires
            old(r).wf(),
        ensures
            final(r).wf(),
            final(r).body() == old(r).body(),
            Self::obeys_message_spec() ==> (res is Ok <==> Self::spec_decodable(old(r).body(), old(r).cursor())),
            Self::obeys_message_spec() ==> (res matches Ok(v) ==> Self::spec_decodes(old(r).body(), old(r).cursor(),
                v, final(r).cursor())),
            res matches Err(e) ==> e == Error::Deserialization,
    ;
}

/// What a read gives back of a write, for `m` (of a type whose
/// specification describes its code): wherever a buffer holds the
/// encoding of `m` at `at`, decoding from `at` succeeds, ends right after
/// the encoding, and yields a value with the same encoding.
pub open spec fn reads_back<M: Message>(m: M) -> bool {
    &&& M::obeys_message_spec()
    &&& forall|buf: Seq<u8>, at: int| #[trigger] holds_at(buf, at, m.spec_encoding(at)) ==> reads_back_at(m, buf, at)
}

/// Decoding `buf` from `at` succeeds, ends right after the encoding of `m`
/// there, and yields a value with the same encoding.
pub open spec fn reads_back_at<M: Message>(m: M, buf: Seq<u8>, at: int) -> bool {
    &&& M::spec_decodable(buf, at)
    &&& forall|v: M, end: int| #[trigger] M::spec_decodes(buf, at, v, end) ==>
        end == at + m.spec_encoding(at).len() && v.spec_encoding(at) == m.spec_encoding(at)
}

} // verus!
