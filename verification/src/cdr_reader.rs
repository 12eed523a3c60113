//! CDR little-endian deserializer for ROS2 DDS message bodies.
//!
//! Companion to [`crate::cdr::CdrWriter`]. Two constructors:
//!
//! - [`CdrReader::new`] skips the 4-byte CDR encapsulation header (use when
//!   the buffer starts with `00 01 00 00`).
//! - [`CdrReader::from_body`] starts at byte 0 (use when the buffer is a raw
//!   CDR body as delivered by the micro-ROS agent in DATA submessages).
//!
//! Alignment of typed reads is counted from the start of the body. Once an
//! alignment step moves past the end, every later read fails.

use vstd::prelude::*;
use crate::error::Error;
use crate::cdr::{aligned_items, cdr_bool, cdr_i32, cdr_i32_seq, cdr_i64, cdr_string, cdr_u32, le32_items, lemma_items_len};
use crate::wire::{
    le32, le64, lemma_le32_round_trip, lemma_le64_round_trip, lemma_overwrite_append, lemma_overwrite_index,
    lemma_overwrite_prefix, overwrite, pad, u32_from_le, u64_from_le,
};

verus! {

// ── Read specifications ───────────────────────────────────────────────────────

/// Cursor after aligning `at` to `n` in a body of `len` bytes; every cursor
/// past the end is represented as `len + 1`.
pub open spec fn spec_align_cursor(len: int, at: int, n: int) -> int {
    if at > len {
        at
    } else if at + pad(at, n) <= len {
        at + pad(at, n)
    } else {
        len + 1
    }
}

/// `n` raw bytes at `at`, and the cursor after them.
pub open spec fn spec_read_bytes(buf: Seq<u8>, at: int, n: int) -> Option<(Seq<u8>, int)> {
    if 0 <= at && 0 <= n && at + n <= buf.len() {
        Some((buf.subrange(at, at + n), at + n))
    } else {
        None
    }
}

/// One byte at `at`.
pub open spec fn spec_read_u8(buf: Seq<u8>, at: int) -> Option<(u8, int)> {
    if 0 <= at < buf.len() {
        Some((buf[at], at + 1))
    } else {
        None
    }
}

/// A 4-aligned little-endian `u32`.
pub open spec fn spec_read_u32(buf: Seq<u8>, at: int) -> Option<(u32, int)> {
    let p = spec_align_cursor(buf.len() as int, at, 4);
    if 0 <= p && p + 4 <= buf.len() {
        Some((u32_from_le(buf, p), p + 4))
    } else {
        None
    }
}

/// A 4-aligned little-endian `i32`.
pub open spec fn spec_read_i32(buf: Seq<u8>, at: int) -> Option<(i32, int)> {
    match spec_read_u32(buf, at) {
        Some((v, e)) => Some((v as i32, e)),
        None => None,
    }
}

/// An 8-aligned little-endian `u64`.
pub open spec fn spec_read_u64(buf: Seq<u8>, at: int) -> Option<(u64, int)> {
    let p = spec_align_cursor(buf.len() as int, at, 8);
    if 0 <= p && p + 8 <= buf.len() {
        Some((u64_from_le(buf, p), p + 8))
    } else {
        None
    }
}

/// An 8-aligned little-endian `i64`.
pub open spec fn spec_read_i64(buf: Seq<u8>, at: int) -> Option<(i64, int)> {
    match spec_read_u64(buf, at) {
        Some((v, e)) => Some((v as i64, e)),
        None => None,
    }
}

/// A CDR string: its u32 length `n` (including the terminator), then `n - 1`
/// bytes and one terminator byte, which is skipped unchecked; a zero length
/// reads as empty.
pub open spec fn spec_read_string(buf: Seq<u8>, at: int) -> Option<(Seq<u8>, int)> {
    match spec_read_u32(buf, at) {
        Some((n, p)) => if n == 0 {
            Some((Seq::empty(), p))
        } else {
            match spec_read_bytes(buf, p, n - 1) {
                Some((s, q)) => if q + 1 <= buf.len() { Some((s, q + 1)) } else { None },
                None => None,
            }
        },
        None => None,
    }
}

/// A CDR `sequence<int32>` of at most `cap` elements: the u32 count, then the
/// elements; a longer sequence is refused.
pub open spec fn spec_read_i32_seq(buf: Seq<u8>, at: int, cap: int) -> Option<(Seq<i32>, int)> {
    match spec_read_u32(buf, at) {
        Some((n, p)) => if n > cap {
            None
        } else {
            spec_read_i32_items(buf, p, n as int)
        },
        None => None,
    }
}

/// `k` consecutive 4-aligned `i32`s from `at`.
pub open spec fn spec_read_i32_items(buf: Seq<u8>, at: int, k: int) -> Option<(Seq<i32>, int)>
    decreases k,
{
    if k <= 0 {
        Some((Seq::empty(), at))
    } else {
        match spec_read_i32_items(buf, at, k - 1) {
            Some((items, p)) => match spec_read_i32(buf, p) {
                Some((v, q)) => Some((items.push(v), q)),
                None => None,
            },
            None => None,
        }
    }
}

/// `k` struct items of a CDR sequence from `at`: before each item the cursor
/// is aligned to 4, then `read` reads the item.
pub open spec fn spec_read_aligned_items<T>(
    buf: Seq<u8>,
    at: int,
    k: int,
    read: spec_fn(Seq<u8>, int) -> Option<(T, int)>,
) -> Option<(Seq<T>, int)>
    decreases k,
{
    if k <= 0 {
        Some((Seq::empty(), at))
    } else {
        match spec_read_aligned_items(buf, at, k - 1, read) {
            Some((items, p)) => match read(buf, spec_align_cursor(buf.len() as int, p, 4)) {
                Some((v, q)) => Some((items.push(v), q)),
                None => None,
            },
            None => None,
        }
    }
}

// ── CdrReader ─────────────────────────────────────────────────────────────────

/// CDR little-endian reader over a borrowed body.
pub struct CdrReader<'a> {
    buf: &'a [u8],
    pos: usize,
    past_end: bool,
}

impl<'a> CdrReader<'a> {
    /// The body being read.
    pub closed spec fn body(&self) -> Seq<u8> {
        self.buf@
    }

    /// The cursor: offset of the next read, or `body().len() + 1` once an
    /// alignment step has moved past the end.
    pub closed spec fn cursor(&self) -> int {
        if self.past_end { self.buf@.len() + 1int } else { self.pos as int }
    }

    /// The reader's internal state is consistent.
    pub closed spec fn wf(&self) -> bool {
        self.pos <= self.buf@.len()
    }

    /// Reader over a SerializedPayload: the first 4 bytes (encapsulation
    /// header) are skipped; a buffer shorter than that reads as empty.
    pub fn new(buf: &'a [u8]) -> (r: Self)
        ensures
            r.wf(),
            r.cursor() == 0,
            r.body() == if buf@.len() >= 4 { buf@.subrange(4, buf@.len() as int) } else { Seq::<u8>::empty() },
    {
        let body: &'a [u8] = if buf.len() >= 4 { &buf[4..buf.len()] } else { &[] };
        assert(buf@.len() < 4 ==> body@ =~= Seq::<u8>::empty());
        Self { buf: body, pos: 0, past_end: false }
    }

    /// Reader over already-stripped body bytes (origin = byte 0).
    pub fn from_body(body: &'a [u8]) -> (r: Self)
        ensures
            r.wf(),
            r.cursor() == 0,
            r.body() == body@,
    {
        Self { buf: body, pos: 0, past_end: false }
    }

    /// The cursor is never negative and never more than one past the end.
    pub proof fn lemma_cursor_bounds(&self)
        requires
            self.wf(),
        ensures
            0 <= self.cursor() <= self.body().len() + 1,
    {
    }

    /// Bytes left after the cursor.
    pub fn remaining(&self) -> (n: usize)
        requires
            self.wf(),
        ensures
            n == if self.cursor() <= self.body().len() { self.body().len() - self.cursor() } else { 0 },
    {
        if self.past_end { 0 } else { self.buf.len() - self.pos }
    }

    pub fn u8_val(&mut self) -> (r: Result<u8, Error>)
        requires
            old(self).wf(),
        ensures
            final(self).wf(),
            final(self).body() == old(self).body(),
            match spec_read_u8(old(self).body(), old(self).cursor()) {
                Some((v, e)) => r == Ok::<u8, Error>(v) && final(self).cursor() == e,
                None => r == Err::<u8, Error>(Error::Deserialization) && final(self).cursor() == old(self).cursor(),
            },
    {
        if self.past_end || self.pos >= self.buf.len() {
            return Err(Error::Deserialization);
        }
        let b = self.buf[self.pos];
        self.pos += 1;
        Ok(b)
    }

    pub fn bool_val(&mut self) -> (r: Result<bool, Error>)
        requires
            old(self).wf(),
        ensures
            final(self).wf(),
            final(self).body() == old(self).body(),
            match spec_read_u8(old(self).body(), old(self).cursor()) {
                Some((v, e)) => r == Ok::<bool, Error>(v != 0) && final(self).cursor() == e,
                None => r == Err::<bool, Error>(Error::Deserialization) && final(self).cursor() == old(self).cursor(),
            },
    {
        let b = self.u8_val()?;
        Ok(b != 0)
    }

    pub fn i32_val(&mut self) -> (r: Result<i32, Error>)
        requires
            old(self).wf(),
        ensures
            final(self).wf(),
            final(self).body() == old(self).body(),
            match spec_read_i32(old(self).body(), old(self).cursor()) {
                Some((v, e)) => r == Ok::<i32, Error>(v) && final(self).cursor() == e,
                None => r == Err::<i32, Error>(Error::Deserialization)
                    && final(self).cursor() == spec_align_cursor(old(self).body().len() as int, old(self).cursor(), 4),
            },
    {
        let v = self.u32_val()?;
        Ok(v as i32)
    }

    pub fn u32_val(&mut self) -> (r: Result<u32, Error>)
        requires
            old(self).wf(),
        ensures
            final(self).wf(),
            final(self).body() == old(self).body(),
            match spec_read_u32(old(self).body(), old(self).cursor()) {
                Some((v, e)) => r == Ok::<u32, Error>(v) && final(self).cursor() == e,
                None => r == Err::<u32, Error>(Error::Deserialization)
                    && final(self).cursor() == spec_align_cursor(old(self).body().len() as int, old(self).cursor(), 4),
            },
    {
        self.align(4);
        let bytes = self.take(4)?;
        Ok(bytes[0] as u32 | ((bytes[1] as u32) << 8) | ((bytes[2] as u32) << 16) | ((bytes[3] as u32) << 24))
    }

    pub fn i64_val(&mut self) -> (r: Result<i64, Error>)
        requires
            old(self).wf(),
        ensures
            final(self).wf(),
            final(self).body() == old(self).body(),
            match spec_read_i64(old(self).body(), old(self).cursor()) {
                Some((v, e)) => r == Ok::<i64, Error>(v) && final(self).cursor() == e,
                None => r == Err::<i64, Error>(Error::Deserialization)
                    && final(self).cursor() == spec_align_cursor(old(self).body().len() as int, old(self).cursor(), 8),
            },
    {
        let v = self.u64_val()?;
        Ok(v as i64)
    }

    pub fn u64_val(&mut self) -> (r: Result<u64, Error>)
        requires
            old(self).wf(),
        ensures
            final(self).wf(),
            final(self).body() == old(self).body(),
            match spec_read_u64(old(self).body(), old(self).cursor()) {
                Some((v, e)) => r == Ok::<u64, Error>(v) && final(self).cursor() == e,
                None => r == Err::<u64, Error>(Error::Deserialization)
                    && final(self).cursor() == spec_align_cursor(old(self).body().len() as int, old(self).cursor(), 8),
            },
    {
        self.align(8);
        let b = self.take(8)?;
        Ok(b[0] as u64 | ((b[1] as u64) << 8) | ((b[2] as u64) << 16) | ((b[3] as u64) << 24)
            | ((b[4] as u64) << 32) | ((b[5] as u64) << 40) | ((b[6] as u64) << 48) | ((b[7] as u64) << 56))
    }

    /// Read `N` raw bytes with no alignment (CDR `octet[N]`).
    pub fn bytes_array<const N: usize>(&mut self) -> (r: Result<[u8; N], Error>)
        requires
            old(self).wf(),
        ensures
            final(self).wf(),
            final(self).body() == old(self).body(),
            match spec_read_bytes(old(self).body(), old(self).cursor(), N as int) {
                Some((s, e)) => r matches Ok(a) && a@ == s && final(self).cursor() == e,
                None => r == Err::<[u8; N], Error>(Error::Deserialization) && final(self).cursor() == old(self).cursor(),
            },
    {
        let bytes = self.take(N)?;
        let mut out = [0u8; N];
        let mut i: usize = 0;
        while i < N
            invariant
                bytes@.len() == N,
                i <= N,
                out@.len() == N,
                forall|k: int| 0 <= k < i ==> out@[k] == bytes@[k],
            decreases N - i,
        {
            out[i] = bytes[i];
            i += 1;
        }
        assert(out@ =~= bytes@);
        Ok(out)
    }

    /// Align the cursor to `n` bytes. Public for sequence-of-struct readers.
    pub fn align_to(&mut self, n: usize)
        requires
            old(self).wf(),
            n > 0,
        ensures
            final(self).wf(),
            final(self).body() == old(self).body(),
            final(self).cursor() == spec_align_cursor(old(self).body().len() as int, old(self).cursor(), n as int),
    {
        self.align(n);
    }

    /// Read a CDR `sequence<int32>` of at most `CAP` elements. Returns
    /// `Error::Deserialization` if the count exceeds `CAP`.
    pub fn i32_seq_into<const CAP: usize>(&mut self) -> (r: Result<Vec<i32>, Error>)
        requires
            old(self).wf(),
        ensures
            final(self).wf(),
            final(self).body() == old(self).body(),
            match spec_read_i32_seq(old(self).body(), old(self).cursor(), CAP as int) {
                Some((items, e)) => r matches Ok(v) && v@ == items && final(self).cursor() == e,
                None => r == Err::<Vec<i32>, Error>(Error::Deserialization),
            },
    {
        let ghost buf = self.buf@;
        let ghost at0 = self.cursor();
        let n32 = self.u32_val()?;
        let n = n32 as usize;
        if n > CAP {
            return Err(Error::Deserialization);
        }
        let ghost p = self.cursor();
        assert(spec_read_u32(buf, at0) == Some((n32, p)));
        let mut v: Vec<i32> = Vec::new();
        let mut i: usize = 0;
        while i < n
            invariant
                self.wf(),
                self.body() == buf,
                buf == old(self).body(),
                at0 == old(self).cursor(),
                spec_read_u32(buf, at0) == Some((n32, p)),
                n == n32,
                n <= CAP,
                i <= n,
                spec_read_i32_items(buf, p, i as int) == Some((v@, self.cursor())),
            decreases n - i,
        {
            let x = self.i32_val();
            match x {
                Ok(x) => {
                    v.push(x);
                }
                Err(e) => {
                    proof { lemma_items_fail(buf, p, i as int + 1, n as int); }
                    return Err(e);
                }
            }
            i += 1;
        }
        Ok(v)
    }

    /// CDR string: u32 length (including the terminator), the bytes, and the
    /// terminator. Returns the bytes without the terminator.
    pub fn string_bytes(&mut self) -> (r: Result<&'a [u8], Error>)
        requires
            old(self).wf(),
        ensures
            final(self).wf(),
            final(self).body() == old(self).body(),
            match spec_read_string(old(self).body(), old(self).cursor()) {
                Some((s, e)) => r matches Ok(b) && b@ == s && final(self).cursor() == e,
                None => r == Err::<&'a [u8], Error>(Error::Deserialization),
            },
    {
        let len_with_null = self.u32_val()?;
        if len_with_null == 0 {
            let empty: &'a [u8] = &[];
            assert(empty@ =~= Seq::<u8>::empty());
            return Ok(empty);
        }
        let body_len = (len_with_null - 1) as usize;
        let bytes = self.take(body_len)?;
        // Skip the null terminator.
        let _ = self.take(1)?;
        Ok(bytes)
    }

    fn align(&mut self, n: usize)
        requires
            old(self).wf(),
            n > 0,
        ensures
            final(self).wf(),
            final(self).body() == old(self).body(),
            final(self).cursor() == spec_align_cursor(old(self).body().len() as int, old(self).cursor(), n as int),
    {
        if self.past_end {
            return;
        }
        let rem = self.pos % n;
        if rem != 0 {
            let step = n - rem;
            if step <= self.buf.len() - self.pos {
                self.pos += step;
            } else {
                self.past_end = true;
            }
        }
    }

    fn take(&mut self, n: usize) -> (r: Result<&'a [u8], Error>)
        requires
            old(self).wf(),
        ensures
            final(self).wf(),
            final(self).body() == old(self).body(),
            match spec_read_bytes(old(self).body(), old(self).cursor(), n as int) {
                Some((s, e)) => r matches Ok(b) && b@ == s && final(self).cursor() == e,
                None => r == Err::<&'a [u8], Error>(Error::Deserialization) && final(self).cursor() == old(self).cursor(),
            },
    {
        if self.past_end || n > self.buf.len() - self.pos {
            return Err(Error::Deserialization);
        }
        let s = &self.buf[self.pos..self.pos + n];
        self.pos += n;
        Ok(s)
    }
}

// ── What a read gives back of a write ──────────────────────────────────────────

/// `buf` holds `enc` at offset `at`.
pub open spec fn holds_at(buf: Seq<u8>, at: int, enc: Seq<u8>) -> bool {
    0 <= at && at + enc.len() <= buf.len() && buf.subrange(at, at + enc.len()) == enc
}

/// Reading a `u32` where one was written gives it back, ending right after it.
pub proof fn lemma_read_u32_written(buf: Seq<u8>, at: int, v: u32)
    requires
        holds_at(buf, at, cdr_u32(at, v)),
    ensures
        spec_read_u32(buf, at) == Some((v, at + cdr_u32(at, v).len())),
{
    let p = at + pad(at, 4);
    assert(buf.subrange(p, p + 4) =~= le32(v)) by {
        assert(buf.subrange(at, at + cdr_u32(at, v).len()).subrange(pad(at, 4), pad(at, 4) + 4) =~= le32(v));
    }
    lemma_le32_round_trip(v, buf, p);
    assert(u32_from_le(buf, p) == u32_from_le(le32(v), 0));
}

/// Reading an `i32` where one was written gives it back.
pub proof fn lemma_read_i32_written(buf: Seq<u8>, at: int, v: i32)
    requires
        holds_at(buf, at, cdr_i32(at, v)),
    ensures
        spec_read_i32(buf, at) == Some((v, at + cdr_i32(at, v).len())),
{
    lemma_read_u32_written(buf, at, v as u32);
    assert((v as u32) as i32 == v) by (bit_vector);
}

/// Reading an `i64` where one was written gives it back.
pub proof fn lemma_read_i64_written(buf: Seq<u8>, at: int, v: i64)
    requires
        holds_at(buf, at, cdr_i64(at, v)),
    ensures
        spec_read_i64(buf, at) == Some((v, at + cdr_i64(at, v).len())),
{
    let p = at + pad(at, 8);
    assert(buf.subrange(p, p + 8) =~= le64(v as u64)) by {
        assert(buf.subrange(at, at + cdr_i64(at, v).len()).subrange(pad(at, 8), pad(at, 8) + 8) =~= le64(v as u64));
    }
    lemma_le64_round_trip(v as u64, buf, p);
    assert(u64_from_le(buf, p) == u64_from_le(le64(v as u64), 0));
    assert((v as u64) as i64 == v) by (bit_vector);
}

/// Reading a byte where one was written gives it back.
pub proof fn lemma_read_u8_written(buf: Seq<u8>, at: int, v: u8)
    requires
        holds_at(buf, at, seq![v]),
    ensures
        spec_read_u8(buf, at) == Some((v, at + 1)),
{
    assert(buf.subrange(at, at + 1)[0] == buf[at]);
}

/// Reading a boolean byte where one was written gives it back.
pub proof fn lemma_read_bool_written(buf: Seq<u8>, at: int, v: bool)
    requires
        holds_at(buf, at, cdr_bool(v)),
    ensures
        spec_read_u8(buf, at) matches Some((b, e)) && (b != 0) == v && e == at + 1,
{
    assert(buf.subrange(at, at + 1)[0] == buf[at]);
}

/// Reading raw bytes where they were written gives them back.
pub proof fn lemma_read_bytes_written(buf: Seq<u8>, at: int, s: Seq<u8>)
    requires
        holds_at(buf, at, s),
    ensures
        spec_read_bytes(buf, at, s.len() as int) == Some((s, at + s.len())),
{
}

/// Reading a string where one was written gives its bytes back.
pub proof fn lemma_read_string_written(buf: Seq<u8>, at: int, s: Seq<u8>)
    requires
        holds_at(buf, at, cdr_string(at, s)),
        s.len() + 1 <= u32::MAX,
    ensures
        spec_read_string(buf, at) == Some((s, at + cdr_string(at, s).len())),
{
    let head = cdr_u32(at, (s.len() + 1) as u32);
    let enc = cdr_string(at, s);
    assert(buf.subrange(at, at + head.len()) =~= head) by {
        assert(buf.subrange(at, at + enc.len()).subrange(0, head.len() as int) =~= head);
    }
    lemma_read_u32_written(buf, at, (s.len() + 1) as u32);
    let p = at + head.len();
    assert(buf.subrange(p, p + s.len()) =~= s) by {
        assert(buf.subrange(at, at + enc.len()).subrange(head.len() as int, (head.len() + s.len()) as int) =~= s);
    }
}

/// A `u32` written after some single bytes, in a body that holds exactly
/// what was written: each byte reads back at its offset, then the `u32`
/// reads back and the read ends at the end of the body (nothing remains).
pub proof fn lemma_bytes_then_u32_round_trip(bytes: Seq<u8>, v: u32)
    ensures
        ({
            let buf = bytes + cdr_u32(bytes.len() as int, v);
            &&& forall|i: int| 0 <= i < bytes.len() ==> #[trigger] spec_read_u8(buf, i) == Some((bytes[i], i + 1))
            &&& spec_read_u32(buf, bytes.len() as int) == Some((v, buf.len() as int))
        }),
{
    let k = bytes.len() as int;
    let buf = bytes + cdr_u32(k, v);
    assert(buf.subrange(k, k + cdr_u32(k, v).len()) =~= cdr_u32(k, v));
    lemma_read_u32_written(buf, k, v);
    assert forall|i: int| 0 <= i < bytes.len() implies #[trigger] spec_read_u8(buf, i) == Some((bytes[i], i + 1)) by {
        assert(buf[i] == bytes[i]);
    }
}

/// A string written after `pre`, in a body that holds exactly what was
/// written: it reads back without its terminator, and the read ends at the
/// end of the body (nothing remains).
pub proof fn lemma_string_round_trip(pre: Seq<u8>, s: Seq<u8>)
    requires
        s.len() + 1 <= u32::MAX,
    ensures
        spec_read_string(pre + cdr_string(pre.len() as int, s), pre.len() as int) == Some((s, (pre + cdr_string(
            pre.len() as int, s)).len() as int)),
{
    let k = pre.len() as int;
    let buf = pre + cdr_string(k, s);
    assert(buf.subrange(k, k + cdr_string(k, s).len()) =~= cdr_string(k, s));
    lemma_read_string_written(buf, k, s);
}

/// The whole trip of a `u32` behind single bytes: a fresh writer over `d0`
/// that writes `bytes` one by one (which leaves `overwrite(d0, 0, bytes)` at
/// position `bytes.len()`) and then the `u32` `v` holds, in its written
/// prefix, a body from which a reader reads each byte back, then `v`, and
/// then has nothing left.
pub proof fn lemma_written_bytes_then_u32_read_back(d0: Seq<u8>, bytes: Seq<u8>, v: u32)
    requires
        d0.len() >= bytes.len() + cdr_u32(bytes.len() as int, v).len(),
    ensures
        ({
            let k = bytes.len() as int;
            let data = overwrite(overwrite(d0, 0, bytes), k, cdr_u32(k, v));
            let pos = k + cdr_u32(k, v).len();
            let out = data.take(if pos < data.len() { pos } else { data.len() as int });
            &&& out == bytes + cdr_u32(k, v)
            &&& forall|i: int| 0 <= i < k ==> #[trigger] spec_read_u8(out, i) == Some((bytes[i], i + 1))
            &&& spec_read_u32(out, k) == Some((v, out.len() as int))
        }),
{
    let k = bytes.len() as int;
    let enc = bytes + cdr_u32(k, v);
    lemma_overwrite_append(d0, 0, bytes, cdr_u32(k, v));
    lemma_overwrite_index(d0, 0, enc);
    lemma_overwrite_prefix(d0, enc);
    lemma_bytes_then_u32_round_trip(bytes, v);
}

/// The whole trip of a string: a fresh writer over `d0` (at least
/// `s.len() + 5` bytes) that writes `s` holds, in its written prefix, a body
/// from which a reader reads `s` back without its terminator and then has
/// nothing left.
pub proof fn lemma_written_string_read_back(d0: Seq<u8>, s: Seq<u8>)
    requires
        s.len() + 1 <= u32::MAX,
        d0.len() >= s.len() + 5,
    ensures
        ({
            let data = overwrite(d0, 0, cdr_string(0, s));
            let pos = cdr_string(0, s).len() as int;
            let out = data.take(if pos < data.len() { pos } else { data.len() as int });
            &&& pos == s.len() + 5
            &&& out == cdr_string(0, s)
            &&& spec_read_string(out, 0) == Some((s, out.len() as int))
        }),
{
    let enc = cdr_string(0, s);
    assert(pad(0, 4) == 0);
    lemma_overwrite_index(d0, 0, enc);
    lemma_overwrite_prefix(d0, enc);
    lemma_string_round_trip(Seq::empty(), s);
    assert(Seq::<u8>::empty() + enc =~= enc);
}

/// Reading `i32` items where they were written gives them back.
pub proof fn lemma_read_items_written(buf: Seq<u8>, at: int, items: Seq<i32>)
    requires
        at % 4 == 0,
        holds_at(buf, at, le32_items(items)),
    ensures
        le32_items(items).len() == 4 * items.len(),
        spec_read_i32_items(buf, at, items.len() as int) == Some((items, at + 4 * items.len())),
    decreases items.len(),
{
    if items.len() > 0 {
        let init = items.drop_last();
        let enc = le32_items(items);
        let e0 = le32_items(init);
        assert(buf.subrange(at, at + e0.len()) =~= e0) by {
            assert(enc.subrange(0, e0.len() as int) =~= e0);
            assert(buf.subrange(at, at + enc.len()).subrange(0, e0.len() as int) =~= e0);
        }
        lemma_read_items_written(buf, at, init);
        let p = at + 4 * init.len();
        assert(pad(p, 4) == 0);
        assert(cdr_i32(p, items.last()) =~= le32(items.last() as u32));
        assert(buf.subrange(p, p + 4) =~= le32(items.last() as u32)) by {
            assert(buf.subrange(at, at + enc.len()).subrange(e0.len() as int, (e0.len() + 4) as int) =~= le32(items.last() as u32));
        }
        lemma_read_i32_written(buf, p, items.last());
        assert(init.push(items.last()) =~= items);
    } else {
        assert(items =~= Seq::<i32>::empty());
    }
}

/// Reading an `i32` sequence where one was written gives it back, as long as
/// it is within the reader's cap.
pub proof fn lemma_read_i32_seq_written(buf: Seq<u8>, at: int, items: Seq<i32>, cap: int)
    requires
        items.len() <= cap,
        items.len() <= u32::MAX,
        holds_at(buf, at, cdr_i32_seq(at, items)),
    ensures
        spec_read_i32_seq(buf, at, cap) == Some((items, at + cdr_i32_seq(at, items).len())),
{
    let head = cdr_u32(at, items.len() as u32);
    let enc = cdr_i32_seq(at, items);
    lemma_items_len(items);
    assert(buf.subrange(at, at + head.len()) =~= head) by {
        assert(buf.subrange(at, at + enc.len()).subrange(0, head.len() as int) =~= head);
    }
    lemma_read_u32_written(buf, at, items.len() as u32);
    let p = at + head.len();
    assert(p % 4 == 0);
    assert(buf.subrange(p, p + le32_items(items).len()) =~= le32_items(items)) by {
        assert(buf.subrange(at, at + enc.len()).subrange(head.len() as int, enc.len() as int) =~= le32_items(items));
    }
    lemma_read_items_written(buf, p, items);
}

/// Reading struct items where they were written gives them back, provided
/// each single item reads back where it was written.
pub proof fn lemma_read_aligned_items_written<T>(
    buf: Seq<u8>,
    at: int,
    items: Seq<T>,
    enc: spec_fn(T, int) -> Seq<u8>,
    read: spec_fn(Seq<u8>, int) -> Option<(T, int)>,
)
    requires
        forall|x: T, a: int| holds_at(buf, a, #[trigger] enc(x, a)) ==> read(buf, a) == Some((x, a + enc(x, a).len())),
        holds_at(buf, at, aligned_items(items, at, enc)),
    ensures
        spec_read_aligned_items(buf, at, items.len() as int, read) == Some((items, at + aligned_items(items, at, enc).len())),
    decreases items.len(),
{
    if items.len() > 0 {
        let init = items.drop_last();
        let all = aligned_items(items, at, enc);
        let head = aligned_items(init, at, enc);
        assert(buf.subrange(at, at + head.len()) =~= head) by {
            assert(buf.subrange(at, at + all.len()).subrange(0, head.len() as int) =~= head);
        }
        lemma_read_aligned_items_written(buf, at, init, enc, read);
        let p = at + head.len();
        let q = p + pad(p, 4);
        let item = enc(items.last(), q);
        assert(spec_align_cursor(buf.len() as int, p, 4) == q);
        assert(buf.subrange(q, q + item.len()) =~= item) by {
            assert(buf.subrange(at, at + all.len()).subrange(head.len() + pad(p, 4), all.len() as int) =~= item);
        }
        assert(init.push(items.last()) =~= items);
    } else {
        assert(items =~= Seq::<T>::empty());
    }
}

/// Once reading `k` struct items fails, reading more fails too.
pub proof fn lemma_aligned_items_fail<T>(
    buf: Seq<u8>,
    at: int,
    k: int,
    n: int,
    read: spec_fn(Seq<u8>, int) -> Option<(T, int)>,
)
    requires
        spec_read_aligned_items(buf, at, k, read) is None,
        k <= n,
    ensures
        spec_read_aligned_items(buf, at, n, read) is None,
    decreases n - k,
{
    if k < n {
        lemma_aligned_items_fail(buf, at, k + 1, n, read);
    }
}

/// Once reading `k` items fails, reading more fails too.
proof fn lemma_items_fail(buf: Seq<u8>, at: int, k: int, n: int)
    requires
        spec_read_i32_items(buf, at, k) is None,
        k <= n,
    ensures
        spec_read_i32_items(buf, at, n) is None,
    decreases n - k,
{
    if k < n {
        lemma_items_fail(buf, at, k + 1, n);
    }
}

} // verus!
