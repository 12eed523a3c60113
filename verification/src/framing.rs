//! The length prefix in front of every XRCE-DDS message on the TCP stream.
//!
//! Outgoing messages carry a 4-byte little-endian length; the executor's
//! receive path reads a 2-byte little-endian length. A message longer than
//! the receive buffer is refused before it is read.

use vstd::prelude::*;
use crate::error::Error;
use crate::wire::{lemma_le32_round_trip, le32, le32_bytes, u16_from_le, u32_from_le};

verus! {

/// The 4-byte little-endian length prefix of a message of `len` bytes
/// (cut to 32 bits).
pub fn frame_prefix(len: usize) -> (p: [u8; 4])
    ensures
        p@ == le32(len as u32),
{
    le32_bytes(len as u32)
}

/// The length announced by a 4-byte prefix, refused with `BufferTooSmall`
/// when it exceeds the `cap` bytes the receiver can hold.
pub fn incoming_len(prefix: [u8; 4], cap: usize) -> (r: Result<usize, Error>)
    ensures
        u32_from_le(prefix@, 0) <= cap ==> r == Ok::<usize, Error>(u32_from_le(prefix@, 0) as usize),
        u32_from_le(prefix@, 0) > cap ==> r == Err::<usize, Error>(Error::BufferTooSmall),
{
    let len = (prefix[0] as u32) | ((prefix[1] as u32) << 8) | ((prefix[2] as u32) << 16) | ((prefix[3] as u32) << 24);
    if len as usize > cap {
        return Err(Error::BufferTooSmall);
    }
    Ok(len as usize)
}

/// The length announced by a 2-byte prefix, refused with `BufferTooSmall`
/// when it exceeds the `cap` bytes the receiver can hold.
pub fn incoming_len16(prefix: [u8; 2], cap: usize) -> (r: Result<usize, Error>)
    ensures
        u16_from_le(prefix[0], prefix[1]) <= cap ==> r == Ok::<usize, Error>(u16_from_le(prefix[0], prefix[1]) as usize),
        u16_from_le(prefix[0], prefix[1]) > cap ==> r == Err::<usize, Error>(Error::BufferTooSmall),
{
    let len = (prefix[0] as u16) | ((prefix[1] as u16) << 8);
    if len as usize > cap {
        return Err(Error::BufferTooSmall);
    }
    Ok(len as usize)
}

/// What the reader makes of the prefix the writer puts in front of a
/// message: a length that fits in 32 bits and in the receive buffer comes
/// back unchanged.
pub proof fn lemma_frame_prefix_round_trip(len: usize, cap: usize)
    requires
        len <= u32::MAX,
        len <= cap,
    ensures
        u32_from_le(le32(len as u32), 0) == len,
        u32_from_le(le32(len as u32), 0) <= cap,
{
    lemma_le32_round_trip(len as u32, le32(len as u32), 0);
}

} // verus!
