//! `std_msgs` message types without floating-point fields, and the shared
//! header helpers.

use vstd::prelude::*;
use vstd::string::StringSliceAdditionalSpecFns;
use crate::cdr::{cdr_i32, cdr_string, cdr_u32, CdrWriter};
use crate::bounded::{text64, text64_as_str, text64_new, text64_push_str};
use crate::cdr_reader::{holds_at, lemma_read_i32_written, lemma_read_string_written, spec_read_i32, spec_read_string, CdrReader};
use crate::error::Error;
use crate::message::{reads_back, reads_back_at, Message};
use crate::wire::{lemma_overwrite_append, overwrite, str_from_utf8};
use vstd::utf8::valid_utf8;
use heapless::String as HString;

verus! {

/// Inline capacity of a `std_msgs/String` payload.
pub const STRING_INLINE_MAX: usize = 64;

// ── std_msgs/Int32 ───────────────────────────────────────────────────────────

#[derive(Clone, Copy, Debug, Default, PartialEq, Eq)]
pub struct Int32(pub i32);

impl Message for Int32 {
    const TYPE_NAME: &'static str = "std_msgs::msg::dds_::Int32_";
    const MAX_SERIALIZED_SIZE: usize = 4;

    open spec fn obeys_message_spec() -> bool {
        true
    }

    open spec fn spec_encoding(&self, at: int) -> Seq<u8> {
        cdr_i32(at, self.0)
    }

    open spec fn spec_writable(&self) -> bool {
        true
    }

    open spec fn spec_decodable(buf: Seq<u8>, at: int) -> bool {
        spec_read_i32(buf, at) is Some
    }

    open spec fn spec_decodes(buf: Seq<u8>, at: int, v: Self, end: int) -> bool {
        spec_read_i32(buf, at) == Some((v.0, end))
    }


    fn serialize(&self, w: &mut CdrWriter) {
        w.i32_val(self.0);
    }

    fn deserialize(r: &mut CdrReader<'_>) -> (res: Result<Self, Error>) {
        let v = r.i32_val()?;
        Ok(Int32(v))
    }

}

// ── std_msgs/String ──────────────────────────────────────────────────────────

/// Borrowed-form String for **publishing only**: it cannot be deserialized.
#[derive(Clone, Copy, Debug)]
pub struct String<'a>(pub &'a str);

impl<'a> Message for String<'a> {
    const TYPE_NAME: &'static str = "std_msgs::msg::dds_::String_";
    const MAX_SERIALIZED_SIZE: usize = 4 + STRING_INLINE_MAX + 1;

    open spec fn obeys_message_spec() -> bool {
        true
    }

    open spec fn spec_encoding(&self, at: int) -> Seq<u8> {
        cdr_string(at, self.0.spec_bytes())
    }

    open spec fn spec_writable(&self) -> bool {
        self.0.spec_bytes().len() + 1 <= u32::MAX
    }

    open spec fn spec_decodable(buf: Seq<u8>, at: int) -> bool {
        false
    }

    open spec fn spec_decodes(buf: Seq<u8>, at: int, v: Self, end: int) -> bool {
        false
    }


    fn serialize(&self, w: &mut CdrWriter) {
        w.string(self.0);
    }

    fn deserialize(r: &mut CdrReader<'_>) -> (res: Result<Self, Error>) {
        // A borrowed string cannot outlive the reader's buffer.
        Err(Error::Deserialization)
    }

}

/// Owned form of `std_msgs/String` for **subscribing**, backed by a
/// fixed-capacity `heapless::String` so it can sit in a subscription inbox.
pub struct StringOwned {
    pub data: HString<64>,
}

impl Default for StringOwned {
    fn default() -> (s: Self)
        ensures
            text64(s.data) == Seq::<u8>::empty(),
    {
        Self { data: text64_new() }
    }
}

impl Message for StringOwned {
    const TYPE_NAME: &'static str = "std_msgs::msg::dds_::String_";
    const MAX_SERIALIZED_SIZE: usize = 4 + STRING_INLINE_MAX + 1;

    open spec fn obeys_message_spec() -> bool {
        true
    }

    open spec fn spec_encoding(&self, at: int) -> Seq<u8> {
        cdr_string(at, text64(self.data))
    }

    open spec fn spec_writable(&self) -> bool {
        true
    }

    /// A CDR string whose bytes are valid UTF-8 and fit in the capacity.
    open spec fn spec_decodable(buf: Seq<u8>, at: int) -> bool {
        spec_read_string(buf, at) matches Some((b, _)) && valid_utf8(b) && b.len() <= STRING_INLINE_MAX
    }

    open spec fn spec_decodes(buf: Seq<u8>, at: int, v: Self, end: int) -> bool {
        spec_read_string(buf, at) == Some((text64(v.data), end))
    }


    fn serialize(&self, w: &mut CdrWriter) {
        let text = text64_as_str(&self.data);
        w.string(text);
    }

    fn deserialize(r: &mut CdrReader<'_>) -> (res: Result<Self, Error>) {
        let bytes = r.string_bytes()?;
        let text = match str_from_utf8(bytes) {
            Some(t) => t,
            None => {
                return Err(Error::Deserialization);
            }
        };
        let mut data = text64_new();
        if text64_push_str(&mut data, text).is_err() {
            return Err(Error::Deserialization);
        }
        Ok(StringOwned { data })
    }

}

/// An Int32 always reads back.
pub proof fn lemma_int32_reads_back(m: Int32)
    ensures
        reads_back(m),
{
    assert forall|buf: Seq<u8>, at: int| holds_at(buf, at, m.spec_encoding(at)) implies reads_back_at(m, buf, at) by {
        lemma_read_i32_written(buf, at, m.0);
    }
}

/// An owned string reads back when it holds valid UTF-8 within its
/// capacity, which a `heapless::String` always does.
pub proof fn lemma_string_owned_reads_back(m: StringOwned)
    requires
        valid_utf8(text64(m.data)),
        text64(m.data).len() <= STRING_INLINE_MAX,
    ensures
        reads_back(m),
{
    assert forall|buf: Seq<u8>, at: int| holds_at(buf, at, m.spec_encoding(at)) implies reads_back_at(m, buf, at) by {
        lemma_read_string_written(buf, at, text64(m.data));
    }
}

// ── shared helpers ───────────────────────────────────────────────────────────

/// `builtin_interfaces/Time { sec, nanosec }` written at offset `at`.
pub open spec fn spec_time(at: int, sec: i32, nanosec: u32) -> Seq<u8> {
    cdr_i32(at, sec) + cdr_u32(at + cdr_i32(at, sec).len(), nanosec)
}

/// A zero-stamped `std_msgs/Header` with an empty frame id, written at `at`.
pub open spec fn spec_header_zero(at: int) -> Seq<u8> {
    spec_time(at, 0, 0) + cdr_string(at + spec_time(at, 0, 0).len(), Seq::empty())
}

/// Write a `builtin_interfaces/Time { sec: i32, nanosec: u32 }` field.
pub fn write_time(w: &mut CdrWriter, sec: i32, nanosec: u32)
    requires
        old(w).position() + spec_time(old(w).position(), sec, nanosec).len() <= usize::MAX,
    ensures
        final(w).data() == overwrite(old(w).data(), old(w).position(), spec_time(old(w).position(), sec, nanosec)),
        final(w).position() == old(w).position() + spec_time(old(w).position(), sec, nanosec).len(),
{
    let ghost p = w.position();
    let ghost d = w.data();
    w.i32_val(sec);
    w.u32_val(nanosec);
    proof { lemma_overwrite_append(d, p, cdr_i32(p, sec), cdr_u32(p + cdr_i32(p, sec).len(), nanosec)); }
}

/// Write a `std_msgs/Header { stamp, frame_id }` with zero timestamp and an
/// empty frame id — the default for embedded sensors without a synced clock.
pub fn write_header_zero(w: &mut CdrWriter)
    requires
        old(w).position() + spec_header_zero(old(w).position()).len() <= usize::MAX,
    ensures
        final(w).data() == overwrite(old(w).data(), old(w).position(), spec_header_zero(old(w).position())),
        final(w).position() == old(w).position() + spec_header_zero(old(w).position()).len(),
{
    let ghost p = w.position();
    let ghost d = w.data();
    write_time(w, 0, 0);
    let ghost t = spec_time(p, 0, 0);
    w.string_bytes(&[]);
    proof {
        let e: &[u8] = &[];
        assert(e@ =~= Seq::<u8>::empty());
        lemma_overwrite_append(d, p, t, cdr_string(p + t.len(), Seq::empty()));
    }
}

} // verus!
