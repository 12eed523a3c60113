//! CDR little-endian serializer for ROS2 DDS message *bodies* (field data
//! only).
//!
//! Do not include the 4-byte CDR encapsulation header (`00 01 00 00`) when
//! publishing through WRITE_DATA: Fast-DDS adds it when it builds the
//! SerializedPayload. [`CdrWriter::header`] is kept for callers that own the
//! full SerializedPayload.
//!
//! Alignment follows the CDR standard: each scalar is aligned to its own
//! size, counted from byte 0 of the buffer. Bytes past the end of the buffer
//! are dropped while the position keeps counting, so
//! [`CdrWriter::bytes_written`] reports what actually landed.

use vstd::prelude::*;
use vstd::string::StringSliceAdditionalSpecFns;
use crate::wire::{le32, le32_bytes, le64, le64_bytes, overwrite, pad, zeros, lemma_overwrite_append, lemma_overwrite_empty};

verus! {

// ── CDR encodings ─────────────────────────────────────────────────────────────

/// A `u32` written at stream offset `pos`: padding to 4, then 4 bytes LE.
pub open spec fn cdr_u32(pos: int, v: u32) -> Seq<u8> {
    zeros(pad(pos, 4)) + le32(v)
}

/// An `i32` written at stream offset `pos` (two's complement).
pub open spec fn cdr_i32(pos: int, v: i32) -> Seq<u8> {
    cdr_u32(pos, v as u32)
}

/// An `i64` written at stream offset `pos`: padding to 8, then 8 bytes LE.
pub open spec fn cdr_i64(pos: int, v: i64) -> Seq<u8> {
    zeros(pad(pos, 8)) + le64(v as u64)
}

/// A `bool` as one byte, 1 or 0.
pub open spec fn cdr_bool(v: bool) -> Seq<u8> {
    seq![if v { 1u8 } else { 0u8 }]
}

/// A CDR string with contents `s` written at stream offset `pos`: the u32
/// length including the terminator, the bytes, the zero terminator.
pub open spec fn cdr_string(pos: int, s: Seq<u8>) -> Seq<u8> {
    cdr_u32(pos, (s.len() + 1) as u32) + s + seq![0u8]
}

/// The items of an `i32` sequence, each 4 bytes LE (already 4-aligned after
/// the length word).
pub open spec fn le32_items(items: Seq<i32>) -> Seq<u8>
    decreases items.len(),
{
    if items.len() == 0 {
        Seq::empty()
    } else {
        le32_items(items.drop_last()) + le32(items.last() as u32)
    }
}

/// A CDR `sequence<int32>` written at stream offset `pos`: the u32 element
/// count, then the elements.
pub open spec fn cdr_i32_seq(pos: int, items: Seq<i32>) -> Seq<u8> {
    cdr_u32(pos, items.len() as u32) + le32_items(items)
}

/// Each `i32` item takes four bytes.
pub proof fn lemma_items_len(items: Seq<i32>)
    ensures
        le32_items(items).len() == 4 * items.len(),
    decreases items.len(),
{
    if items.len() > 0 {
        lemma_items_len(items.drop_last());
    }
}

/// The struct items of a CDR sequence written from stream offset `at`: each
/// item is aligned to 4 and then encoded by `enc` at the aligned offset.
pub open spec fn aligned_items<T>(items: Seq<T>, at: int, enc: spec_fn(T, int) -> Seq<u8>) -> Seq<u8>
    decreases items.len(),
{
    if items.len() == 0 {
        Seq::empty()
    } else {
        let head = aligned_items(items.drop_last(), at, enc);
        let p = at + head.len();
        head + zeros(pad(p, 4)) + enc(items.last(), p + pad(p, 4))
    }
}

/// Writing the items one at a time: the first `i + 1` items are the first
/// `i` followed by item `i`, and no prefix is longer than the whole.
pub proof fn lemma_aligned_items_step<T>(items: Seq<T>, at: int, enc: spec_fn(T, int) -> Seq<u8>, i: int)
    requires
        0 <= i < items.len(),
    ensures
        aligned_items(items.take(i + 1), at, enc) == ({
            let head = aligned_items(items.take(i), at, enc);
            let p = at + head.len();
            head + zeros(pad(p, 4)) + enc(items[i], p + pad(p, 4))
        }),
        aligned_items(items.take(i + 1), at, enc).len() <= aligned_items(items, at, enc).len(),
{
    assert(items.take(i + 1).drop_last() =~= items.take(i));
    lemma_aligned_items_prefix_len(items, at, enc, i + 1);
}

/// A prefix of the items never encodes longer than all of them.
pub proof fn lemma_aligned_items_prefix_len<T>(items: Seq<T>, at: int, enc: spec_fn(T, int) -> Seq<u8>, k: int)
    requires
        0 <= k <= items.len(),
    ensures
        aligned_items(items.take(k), at, enc).len() <= aligned_items(items, at, enc).len(),
    decreases items.len(),
{
    if k == items.len() {
        assert(items.take(k) =~= items);
    } else {
        assert(items.take(k) =~= items.drop_last().take(k));
        lemma_aligned_items_prefix_len(items.drop_last(), at, enc, k);
    }
}

// ── CdrWriter ─────────────────────────────────────────────────────────────────

/// CDR little-endian writer over a caller-supplied buffer.
pub struct CdrWriter<'a> {
    buf: &'a mut [u8],
    pos: usize,
}

impl<'a> CdrWriter<'a> {
    /// The buffer's current contents.
    pub closed spec fn data(&self) -> Seq<u8> {
        self.buf@
    }

    /// Number of bytes emitted so far, counting those that did not fit.
    pub closed spec fn position(&self) -> int {
        self.pos as int
    }

    /// The position is never negative and fits in a `usize`.
    pub proof fn lemma_position_bounds(&self)
        ensures
            0 <= self.position() <= usize::MAX,
    {
    }

    pub fn new(buf: &'a mut [u8]) -> (w: Self)
        ensures
            w.data() == old(buf)@,
            w.position() == 0,
    {
        Self { buf, pos: 0 }
    }

    /// Write the 4-byte CDR little-endian encapsulation header `00 01 00 00`.
    pub fn header(&mut self)
        requires
            old(self).position() + 4 <= usize::MAX,
        ensures
            final(self).data() == overwrite(old(self).data(), old(self).position(), seq![0u8, 1u8, 0u8, 0u8]),
            final(self).position() == old(self).position() + 4,
    {
        let h = [0x00u8, 0x01, 0x00, 0x00];
        assert(h@ =~= seq![0u8, 1u8, 0u8, 0u8]);
        self.raw(&h);
    }

    pub fn u8_val(&mut self, v: u8)
        requires
            old(self).position() + 1 <= usize::MAX,
        ensures
            final(self).data() == overwrite(old(self).data(), old(self).position(), seq![v]),
            final(self).position() == old(self).position() + 1,
    {
        let b = [v];
        assert(b@ =~= seq![v]);
        self.raw(&b);
    }

    pub fn u32_val(&mut self, v: u32)
        requires
            old(self).position() + cdr_u32(old(self).position(), v).len() <= usize::MAX,
        ensures
            final(self).data() == overwrite(old(self).data(), old(self).position(), cdr_u32(old(self).position(), v)),
            final(self).position() == old(self).position() + cdr_u32(old(self).position(), v).len(),
    {
        let ghost p = self.pos as int;
        let ghost d = self.buf@;
        self.align(4);
        let b = le32_bytes(v);
        self.raw(&b);
        proof { lemma_overwrite_append(d, p, zeros(pad(p, 4)), le32(v)); }
    }

    pub fn i32_val(&mut self, v: i32)
        requires
            old(self).position() + cdr_i32(old(self).position(), v).len() <= usize::MAX,
        ensures
            final(self).data() == overwrite(old(self).data(), old(self).position(), cdr_i32(old(self).position(), v)),
            final(self).position() == old(self).position() + cdr_i32(old(self).position(), v).len(),
    {
        self.u32_val(v as u32);
    }

    pub fn i64_val(&mut self, v: i64)
        requires
            old(self).position() + cdr_i64(old(self).position(), v).len() <= usize::MAX,
        ensures
            final(self).data() == overwrite(old(self).data(), old(self).position(), cdr_i64(old(self).position(), v)),
            final(self).position() == old(self).position() + cdr_i64(old(self).position(), v).len(),
    {
        let ghost p = self.pos as int;
        let ghost d = self.buf@;
        self.align(8);
        let b = le64_bytes(v as u64);
        self.raw(&b);
        proof { lemma_overwrite_append(d, p, zeros(pad(p, 8)), le64(v as u64)); }
    }

    pub fn bool_val(&mut self, v: bool)
        requires
            old(self).position() + 1 <= usize::MAX,
        ensures
            final(self).data() == overwrite(old(self).data(), old(self).position(), cdr_bool(v)),
            final(self).position() == old(self).position() + 1,
    {
        self.u8_val(if v { 1 } else { 0 });
    }

    /// CDR string: u32 length (including the null terminator), the bytes and
    /// the terminator. No trailing padding: the next field aligns itself.
    pub fn string(&mut self, s: &str)
        requires
            s.spec_bytes().len() + 1 <= u32::MAX,
            old(self).position() + cdr_string(old(self).position(), s.spec_bytes()).len() <= usize::MAX,
        ensures
            final(self).data() == overwrite(old(self).data(), old(self).position(), cdr_string(old(self).position(), s.spec_bytes())),
            final(self).position() == old(self).position() + cdr_string(old(self).position(), s.spec_bytes()).len(),
    {
        self.string_bytes(s.as_bytes());
    }

    /// [`CdrWriter::string`] with the contents given as bytes.
    pub fn string_bytes(&mut self, s: &[u8])
        requires
            s@.len() + 1 <= u32::MAX,
            old(self).position() + cdr_string(old(self).position(), s@).len() <= usize::MAX,
        ensures
            final(self).data() == overwrite(old(self).data(), old(self).position(), cdr_string(old(self).position(), s@)),
            final(self).position() == old(self).position() + cdr_string(old(self).position(), s@).len(),
    {
        let ghost p = self.pos as int;
        let ghost d = self.buf@;
        self.u32_val(s.len() as u32 + 1);
        let ghost a = cdr_u32(p, (s@.len() + 1) as u32);
        self.raw(s);
        proof { lemma_overwrite_append(d, p, a, s@); }
        self.u8_val(0);
        proof { lemma_overwrite_append(d, p, a + s@, seq![0u8]); }
    }

    /// Raw bytes with no alignment (CDR `octet[N]`).
    pub fn bytes_raw(&mut self, bytes: &[u8])
        requires
            old(self).position() + bytes@.len() <= usize::MAX,
        ensures
            final(self).data() == overwrite(old(self).data(), old(self).position(), bytes@),
            final(self).position() == old(self).position() + bytes@.len(),
    {
        self.raw(bytes);
    }

    /// CDR `sequence<int32>`: u32 element count, then the elements.
    pub fn i32_seq(&mut self, items: &[i32])
        requires
            items@.len() <= u32::MAX,
            old(self).position() + cdr_i32_seq(old(self).position(), items@).len() <= usize::MAX,
        ensures
            final(self).data() == overwrite(old(self).data(), old(self).position(), cdr_i32_seq(old(self).position(), items@)),
            final(self).position() == old(self).position() + cdr_i32_seq(old(self).position(), items@).len(),
    {
        let ghost p = self.pos as int;
        let ghost d = self.buf@;
        proof { lemma_items_len(items@); }
        self.u32_val(items.len() as u32);
        let ghost head = cdr_u32(p, items@.len() as u32);
        let mut i: usize = 0;
        while i < items.len()
            invariant
                i <= items@.len(),
                0 <= p,
                items@.len() <= u32::MAX,
                p + head.len() + 4 * items@.len() <= usize::MAX,
                head.len() <= 8,
                self.pos == p + head.len() + 4 * i,
                (p + head.len()) % 4 == 0,
                le32_items(items@.take(i as int)).len() == 4 * i,
                self.buf@ == overwrite(d, p, head + le32_items(items@.take(i as int))),
            decreases items@.len() - i,
        {
            proof {
                assert((self.pos as int) % 4 == 0);
                assert(pad(self.pos as int, 4) == 0);
                assert(zeros(0) + le32(items@[i as int] as u32) =~= le32(items@[i as int] as u32));
            }
            self.i32_val(items[i]);
            proof {
                assert(items@.take(i + 1).drop_last() =~= items@.take(i as int));
                lemma_overwrite_append(d, p, head + le32_items(items@.take(i as int)), le32(items@[i as int] as u32));
                assert(head + le32_items(items@.take(i as int)) + le32(items@[i as int] as u32)
                    =~= head + le32_items(items@.take(i + 1)));
            }
            i += 1;
        }
        proof {
            assert(items@.take(items@.len() as int) =~= items@);
        }
    }

    /// Align the position to `n` bytes, writing zero padding.
    pub fn align_to(&mut self, n: usize)
        requires
            n > 0,
            old(self).position() + pad(old(self).position(), n as int) <= usize::MAX,
        ensures
            final(self).data() == overwrite(old(self).data(), old(self).position(), zeros(pad(old(self).position(), n as int))),
            final(self).position() == old(self).position() + pad(old(self).position(), n as int),
    {
        self.align(n);
    }

    /// Number of bytes written (capped at buffer length).
    pub fn bytes_written(&self) -> (n: usize)
        ensures
            n == if self.position() < self.data().len() { self.position() } else { self.data().len() as int },
    {
        if self.pos < self.buf.len() { self.pos } else { self.buf.len() }
    }

    /// The written prefix of the buffer.
    pub fn finish(self) -> (out: &'a [u8])
        ensures
            out@ == self.data().take(if self.position() < self.data().len() { self.position() } else { self.data().len() as int }),
    {
        let end = if self.pos < self.buf.len() { self.pos } else { self.buf.len() };
        let CdrWriter { buf, pos: _ } = self;
        let out: &'a [u8] = buf;
        &out[0..end]
    }

    // ── internal helpers ──────────────────────────────────────────────────────

    fn align(&mut self, n: usize)
        requires
            n > 0,
            old(self).position() + pad(old(self).position(), n as int) <= usize::MAX,
        ensures
            final(self).data() == overwrite(old(self).data(), old(self).position(), zeros(pad(old(self).position(), n as int))),
            final(self).position() == old(self).position() + pad(old(self).position(), n as int),
    {
        let rem = self.pos % n;
        if rem != 0 {
            let padn = n - rem;
            let ghost p = self.pos as int;
            let ghost d = self.buf@;
            let mut j: usize = 0;
            proof { lemma_overwrite_empty(d, p); assert(zeros(0) =~= Seq::<u8>::empty()); }
            while j < padn
                invariant
                    0 <= p,
                    j <= padn,
                    padn == pad(p, n as int),
                    padn < n,
                    p + padn <= usize::MAX,
                    self.pos == p + j,
                    self.buf@ == overwrite(d, p, zeros(j as int)),
                decreases padn - j,
            {
                let z = [0u8];
                assert(z@ =~= seq![0u8]);
                self.raw(&z);
                proof {
                    lemma_overwrite_append(d, p, zeros(j as int), seq![0u8]);
                    assert(zeros(j as int) + seq![0u8] =~= zeros(j + 1));
                }
                j += 1;
            }
        } else {
            proof { lemma_overwrite_empty(self.buf@, self.pos as int); assert(zeros(0) =~= Seq::<u8>::empty()); }
        }
    }

    fn raw(&mut self, bytes: &[u8])
        requires
            old(self).position() + bytes@.len() <= usize::MAX,
        ensures
            final(self).data() == overwrite(old(self).data(), old(self).position(), bytes@),
            final(self).position() == old(self).position() + bytes@.len(),
    {
        let len = self.buf.len();
        let n: usize = if self.pos >= len {
            0
        } else if bytes.len() < len - self.pos {
            bytes.len()
        } else {
            len - self.pos
        };
        let mut i: usize = 0;
        while i < n
            invariant
                n <= bytes@.len(),
                len == old(self).buf@.len(),
                n == 0 || old(self).pos + n <= len,
                n == bytes@.len() || old(self).pos + n == len || n == 0,
                self.pos == old(self).pos,
                i <= n,
                self.buf@.len() == len,
                forall|k: int| 0 <= k < len ==> self.buf@[k] == (
                    if old(self).pos <= k < old(self).pos + i { bytes@[k - old(self).pos] } else { old(self).buf@[k] }),
            decreases n - i,
        {
            self.buf[self.pos + i] = bytes[i];
            i += 1;
        }
        proof {
            reveal(overwrite);
            assert(self.buf@ =~= overwrite(old(self).buf@, old(self).pos as int, bytes@));
        }
        self.pos += bytes.len();
    }
}

} // verus!
