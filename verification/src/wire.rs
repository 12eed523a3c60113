//! Byte-level vocabulary shared by the encoders and decoders: little- and
//! big-endian integer encodings, zero padding, CDR alignment and the
//! "write into a fixed buffer, dropping what does not fit" operation.

use vstd::prelude::*;
use vstd::string::StringSliceAdditionalSpecFns;
use vstd::utf8::valid_utf8;

verus! {

/// Little-endian encoding of a `u16`.
pub open spec fn le16(v: u16) -> Seq<u8> {
    seq![v as u8, (v >> 8u16) as u8]
}

/// Big-endian encoding of a `u16`.
pub open spec fn be16(v: u16) -> Seq<u8> {
    seq![(v >> 8u16) as u8, v as u8]
}

/// Little-endian encoding of a `u32`.
pub open spec fn le32(v: u32) -> Seq<u8> {
    seq![v as u8, (v >> 8u32) as u8, (v >> 16u32) as u8, (v >> 24u32) as u8]
}

/// Little-endian encoding of a `u64`.
pub open spec fn le64(v: u64) -> Seq<u8> {
    seq![
        v as u8, (v >> 8u64) as u8, (v >> 16u64) as u8, (v >> 24u64) as u8,
        (v >> 32u64) as u8, (v >> 40u64) as u8, (v >> 48u64) as u8, (v >> 56u64) as u8
    ]
}

/// The `u16` whose little-endian encoding is `b0 b1`.
pub open spec fn u16_from_le(b0: u8, b1: u8) -> u16 {
    (b0 as u16) | ((b1 as u16) << 8u16)
}

/// The `u16` whose big-endian encoding is `b0 b1`.
pub open spec fn u16_from_be(b0: u8, b1: u8) -> u16 {
    ((b0 as u16) << 8u16) | (b1 as u16)
}

/// The `u32` whose little-endian encoding is the four bytes of `b` from `i`.
pub open spec fn u32_from_le(b: Seq<u8>, i: int) -> u32 {
    (b[i] as u32) | ((b[i + 1] as u32) << 8u32) | ((b[i + 2] as u32) << 16u32) | ((b[i + 3] as u32) << 24u32)
}

/// The `u64` whose little-endian encoding is the eight bytes of `b` from `i`.
pub open spec fn u64_from_le(b: Seq<u8>, i: int) -> u64 {
    (b[i] as u64) | ((b[i + 1] as u64) << 8u64) | ((b[i + 2] as u64) << 16u64) | ((b[i + 3] as u64) << 24u64)
        | ((b[i + 4] as u64) << 32u64) | ((b[i + 5] as u64) << 40u64) | ((b[i + 6] as u64) << 48u64)
        | ((b[i + 7] as u64) << 56u64)
}

/// `n` zero bytes.
pub open spec fn zeros(n: int) -> Seq<u8> {
    Seq::new(n as nat, |i: int| 0u8)
}

/// Number of padding bytes that bring offset `pos` up to a multiple of `n`.
pub open spec fn pad(pos: int, n: int) -> int {
    if pos % n == 0 { 0 } else { n - pos % n }
}

/// `buf` with `bytes` written from offset `pos` on; bytes that would land at
/// or past the end of `buf` are dropped, so the length never changes.
#[verifier::opaque]
pub open spec fn overwrite(buf: Seq<u8>, pos: int, bytes: Seq<u8>) -> Seq<u8> {
    Seq::new(buf.len(), |i: int| if pos <= i < pos + bytes.len() { bytes[i - pos] } else { buf[i] })
}

/// What `overwrite` holds at each index.
pub proof fn lemma_overwrite_index(buf: Seq<u8>, pos: int, bytes: Seq<u8>)
    ensures
        overwrite(buf, pos, bytes).len() == buf.len(),
        forall|i: int| 0 <= i < buf.len() ==> #[trigger] overwrite(buf, pos, bytes)[i] == (
            if pos <= i < pos + bytes.len() { bytes[i - pos] } else { buf[i] }),
{
    reveal(overwrite);
}

/// Writing `x` and then `y` right behind it is writing `x + y`.
pub proof fn lemma_overwrite_append(buf: Seq<u8>, pos: int, x: Seq<u8>, y: Seq<u8>)
    ensures
        overwrite(overwrite(buf, pos, x), pos + x.len(), y) == overwrite(buf, pos, x + y),
{
    reveal(overwrite);
    assert(overwrite(overwrite(buf, pos, x), pos + x.len(), y) =~= overwrite(buf, pos, x + y));
}

/// Writing nothing leaves the buffer unchanged.
pub proof fn lemma_overwrite_empty(buf: Seq<u8>, pos: int)
    ensures
        overwrite(buf, pos, Seq::<u8>::empty()) == buf,
{
    reveal(overwrite);
    assert(overwrite(buf, pos, Seq::<u8>::empty()) =~= buf);
}

/// Only the bytes that fit matter.
pub proof fn lemma_overwrite_truncate(buf: Seq<u8>, x: Seq<u8>, k: int)
    requires
        buf.len() <= k <= x.len(),
    ensures
        overwrite(buf, 0, x) == overwrite(buf, 0, x.take(k)),
{
    reveal(overwrite);
    assert(overwrite(buf, 0, x) =~= overwrite(buf, 0, x.take(k)));
}

/// Copy `src` into `dst` from offset `at` on.
pub fn copy_at(dst: &mut [u8], at: usize, src: &[u8])
    requires
        at + src@.len() <= old(dst)@.len(),
    ensures
        final(dst)@ == overwrite(old(dst)@, at as int, src@),
        final(dst)@.len() == old(dst)@.len(),
{
    let n = dst.len();
    let mut i: usize = 0;
    while i < src.len()
        invariant
            i <= src@.len(),
            at + src@.len() <= n,
            n == dst@.len(),
            dst@.len() == old(dst)@.len(),
            forall|k: int| 0 <= k < dst@.len() ==> dst@[k] == (
                if at <= k < at + i { src@[k - at] } else { old(dst)@[k] }),
        decreases src@.len() - i,
    {
        dst[at + i] = src[i];
        i += 1;
    }
    proof {
        reveal(overwrite);
        assert(dst@ =~= overwrite(old(dst)@, at as int, src@));
    }
}

/// A write that fits is found again at the start of the buffer.
pub proof fn lemma_overwrite_prefix(buf: Seq<u8>, x: Seq<u8>)
    requires
        x.len() <= buf.len(),
    ensures
        overwrite(buf, 0, x).take(x.len() as int) == x,
{
    reveal(overwrite);
    assert(overwrite(buf, 0, x).take(x.len() as int) =~= x);
}

/// Writing `b` at `h.len()` and then `h` at 0 into a buffer of exactly
/// their joint length leaves `h + b`.
pub proof fn lemma_overwrite_join(buf: Seq<u8>, h: Seq<u8>, b: Seq<u8>)
    requires
        buf.len() == h.len() + b.len(),
    ensures
        overwrite(overwrite(buf, h.len() as int, b), 0, h) == h + b,
{
    reveal(overwrite);
    assert(overwrite(overwrite(buf, h.len() as int, b), 0, h) =~= h + b);
}

/// `core::str::from_utf8`: the text whose UTF-8 encoding is `b`, or `None`
/// when `b` is not valid UTF-8.
#[verifier::external_body]
pub(crate) fn str_from_utf8(b: &[u8]) -> (r: Option<&str>)
    ensures
        r is Some <==> valid_utf8(b@),
        r matches Some(s) ==> s.spec_bytes() == b@,
{
    core::str::from_utf8(b).ok()
}

/// Little-endian 2-byte encoding.
pub fn le16_bytes(v: u16) -> (r: [u8; 2])
    ensures
        r@ == le16(v),
{
    let r = [v as u8, (v >> 8) as u8];
    assert(r@ =~= le16(v));
    r
}

/// Big-endian 2-byte encoding.
pub fn be16_bytes(v: u16) -> (r: [u8; 2])
    ensures
        r@ == be16(v),
{
    let r = [(v >> 8) as u8, v as u8];
    assert(r@ =~= be16(v));
    r
}

/// Little-endian 4-byte encoding.
pub fn le32_bytes(v: u32) -> (r: [u8; 4])
    ensures
        r@ == le32(v),
{
    let r = [v as u8, (v >> 8) as u8, (v >> 16) as u8, (v >> 24) as u8];
    assert(r@ =~= le32(v));
    r
}

/// Little-endian 8-byte encoding.
pub fn le64_bytes(v: u64) -> (r: [u8; 8])
    ensures
        r@ == le64(v),
{
    let r = [
        v as u8, (v >> 8) as u8, (v >> 16) as u8, (v >> 24) as u8,
        (v >> 32) as u8, (v >> 40) as u8, (v >> 48) as u8, (v >> 56) as u8,
    ];
    assert(r@ =~= le64(v));
    r
}

/// An `i8` survives the trip through its byte.
pub proof fn lemma_i8_byte(v: i8)
    ensures
        (v as u8) as i8 == v,
{
    assert((v as u8) as i8 == v) by (bit_vector);
}

/// Decoding a big-endian `u16` encoding gives the value back.
pub proof fn lemma_be16_round_trip(v: u16, b0: u8, b1: u8)
    ensures
        u16_from_be(be16(v)[0], be16(v)[1]) == v,
        be16(u16_from_be(b0, b1)) == seq![b0, b1],
{
    assert(((((v >> 8u16) as u8) as u16) << 8u16) | (((v as u8) as u16)) == v) by (bit_vector);
    assert((((((b0 as u16) << 8u16) | (b1 as u16)) >> 8u16) as u8 == b0)
        && (((((b0 as u16) << 8u16) | (b1 as u16)) as u8) == b1)) by (bit_vector);
    assert(be16(u16_from_be(b0, b1)) =~= seq![b0, b1]);
}

/// Decoding a little-endian `u32` encoding gives the value back, and every
/// four bytes are the encoding of the value they decode to.
pub proof fn lemma_le32_round_trip(v: u32, b: Seq<u8>, i: int)
    requires
        0 <= i,
        i + 4 <= b.len(),
    ensures
        u32_from_le(le32(v), 0) == v,
        le32(u32_from_le(b, i)) == b.subrange(i, i + 4),
{
    let x = le32(v);
    assert(((v as u8) as u32) | ((((v >> 8u32) as u8) as u32) << 8u32) | ((((v >> 16u32) as u8) as u32) << 16u32)
        | ((((v >> 24u32) as u8) as u32) << 24u32) == v) by (bit_vector);
    let b0 = b[i];
    let b1 = b[i + 1];
    let b2 = b[i + 2];
    let b3 = b[i + 3];
    let w = u32_from_le(b, i);
    assert(w == (b0 as u32) | ((b1 as u32) << 8u32) | ((b2 as u32) << 16u32) | ((b3 as u32) << 24u32));
    assert({
        let w = (b0 as u32) | ((b1 as u32) << 8u32) | ((b2 as u32) << 16u32) | ((b3 as u32) << 24u32);
        &&& w as u8 == b0
        &&& (w >> 8u32) as u8 == b1
        &&& (w >> 16u32) as u8 == b2
        &&& (w >> 24u32) as u8 == b3
    }) by (bit_vector);
    assert(le32(w) =~= b.subrange(i, i + 4));
}

/// Decoding a little-endian `u64` encoding gives the value back, and every
/// eight bytes are the encoding of the value they decode to.
pub proof fn lemma_le64_round_trip(v: u64, b: Seq<u8>, i: int)
    requires
        0 <= i,
        i + 8 <= b.len(),
    ensures
        u64_from_le(le64(v), 0) == v,
        le64(u64_from_le(b, i)) == b.subrange(i, i + 8),
{
    assert(((v as u8) as u64) | ((((v >> 8u64) as u8) as u64) << 8u64) | ((((v >> 16u64) as u8) as u64) << 16u64)
        | ((((v >> 24u64) as u8) as u64) << 24u64) | ((((v >> 32u64) as u8) as u64) << 32u64)
        | ((((v >> 40u64) as u8) as u64) << 40u64) | ((((v >> 48u64) as u8) as u64) << 48u64)
        | ((((v >> 56u64) as u8) as u64) << 56u64) == v) by (bit_vector);
    let b0 = b[i];
    let b1 = b[i + 1];
    let b2 = b[i + 2];
    let b3 = b[i + 3];
    let b4 = b[i + 4];
    let b5 = b[i + 5];
    let b6 = b[i + 6];
    let b7 = b[i + 7];
    let w = u64_from_le(b, i);
    assert(w == (b0 as u64) | ((b1 as u64) << 8u64) | ((b2 as u64) << 16u64) | ((b3 as u64) << 24u64)
        | ((b4 as u64) << 32u64) | ((b5 as u64) << 40u64) | ((b6 as u64) << 48u64) | ((b7 as u64) << 56u64));
    assert({
        let w = (b0 as u64) | ((b1 as u64) << 8u64) | ((b2 as u64) << 16u64) | ((b3 as u64) << 24u64)
            | ((b4 as u64) << 32u64) | ((b5 as u64) << 40u64) | ((b6 as u64) << 48u64) | ((b7 as u64) << 56u64);
        &&& w as u8 == b0
        &&& (w >> 8u64) as u8 == b1
        &&& (w >> 16u64) as u8 == b2
        &&& (w >> 24u64) as u8 == b3
        &&& (w >> 32u64) as u8 == b4
        &&& (w >> 40u64) as u8 == b5
        &&& (w >> 48u64) as u8 == b6
        &&& (w >> 56u64) as u8 == b7
    }) by (bit_vector);
    assert(le64(w) =~= b.subrange(i, i + 8));
}

} // verus!
