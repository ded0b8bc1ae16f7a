//! Length-prefixed message frames of a gRPC stream.
//!
//! ```text
//! +------+----------+----------------+
//! | type | length   | data           |
//! | 1B   | 4B (BE)  | length bytes   |
//! +------+----------+----------------+
//! ```
//!
//! Type `0` is a plain message, type `1` a gzip-compressed one.  Bytes that
//! arrive are kept until they make up whole frames.
use vstd::prelude::*;

verus! {

/// The largest message, in bytes, that is decompressed or encoded: 4 MiB.
pub const MAX_DECOMPRESSED_SIZE_BYTES: usize = 4 * 1024 * 1024;

// ---------------------------------------------------------------------------
// Frames
// ---------------------------------------------------------------------------

/// A frame as it lies in a buffer.
#[derive(Debug, Clone, Copy)]
pub struct RawMessage<'b> {
    /// `0` for a plain message, `1` for a gzip-compressed one.
    pub message_type: u8,
    pub data: &'b [u8],
}

impl<'b> RawMessage<'b> {
    /// The bytes the frame takes: 5 of header and its data.
    pub fn total_size(&self) -> (r: usize)
        requires
            self.data@.len() + 5 <= usize::MAX,
        ensures
            r == 5 + self.data@.len(),
    {
        5 + self.data.len()
    }
}

/// The big-endian 32-bit number at `s[i..i + 4]`.
pub open spec fn be_u32_at(s: Seq<u8>, i: int) -> nat {
    (s[i] as nat) * 0x100_0000 + (s[i + 1] as nat) * 0x1_0000 + (s[i + 2] as nat) * 0x100 + (s[
        i + 3
    ] as nat)
}

/// The whole frames of `buf` from `off` on, as (type, data), up to the first
/// frame that is not complete.
pub open spec fn frames_from(buf: Seq<u8>, off: nat) -> Seq<(u8, Seq<u8>)>
    decreases buf.len() - off,
{
    if off + 5 > buf.len() {
        Seq::empty()
    } else {
        let n = be_u32_at(buf, off as int + 1);
        if off + 5 + n > buf.len() {
            Seq::empty()
        } else {
            seq![(buf[off as int], buf.subrange(off as int + 5, off as int + 5 + n))] + frames_from(
                buf,
                off + 5 + n,
            )
        }
    }
}

/// Where the whole frames of `buf` from `off` on end.
pub open spec fn frames_end(buf: Seq<u8>, off: nat) -> nat
    decreases buf.len() - off,
{
    if off + 5 > buf.len() {
        off
    } else {
        let n = be_u32_at(buf, off as int + 1);
        if off + 5 + n > buf.len() {
            off
        } else {
            frames_end(buf, off + 5 + n)
        }
    }
}

pub proof fn lemma_frames_end_bound(buf: Seq<u8>, off: nat)
    requires
        off <= buf.len(),
    ensures
        off <= frames_end(buf, off) <= buf.len(),
    decreases buf.len() - off,
{
    if off + 5 <= buf.len() {
        let n = be_u32_at(buf, off as int + 1);
        if off + 5 + n <= buf.len() {
            lemma_frames_end_bound(buf, off + 5 + n);
        }
    }
}

/// The frames from position `k` on are the frames of what lies from `k` on.
pub proof fn lemma_frames_shift(s: Seq<u8>, k: nat)
    requires
        k <= s.len(),
    ensures
        frames_from(s, k) == frames_from(s.skip(k as int), 0),
        frames_end(s, k) == k + frames_end(s.skip(k as int), 0),
    decreases s.len() - k,
{
    let ki = k as int;
    let t = s.skip(ki);
    if ki + 5 <= s.len() {
        let n = be_u32_at(s, ki + 1);
        assert(be_u32_at(t, 1) == n) by {
            assert(t[1] == s[ki + 1]);
            assert(t[2] == s[ki + 2]);
            assert(t[3] == s[ki + 3]);
            assert(t[4] == s[ki + 4]);
        }
        assert(t[0] == s[ki]);
        if ki + 5 + n <= s.len() {
            let k2 = (ki + 5 + n) as nat;
            assert(t.subrange(5, 5 + n as int) =~= s.subrange(ki + 5, ki + 5 + n));
            lemma_frames_shift(s, k2);
            lemma_frames_shift(t, (5 + n) as nat);
            assert(t.skip(5 + n as int) =~= s.skip(k2 as int));
        }
    }
}

/// The frames of `a + b` from `off` on: those that lie whole in `a`, then
/// the frames of what follows them.
proof fn lemma_frames_concat(a: Seq<u8>, b: Seq<u8>, off: nat)
    requires
        off <= a.len(),
    ensures
        frames_from(a + b, off) == frames_from(a, off) + frames_from(
            (a + b).skip(frames_end(a, off) as int),
            0,
        ),
    decreases a.len() - off,
{
    let ab = a + b;
    let o = off as int;
    if o + 5 <= a.len() {
        let n = be_u32_at(a, o + 1);
        assert(be_u32_at(ab, o + 1) == n) by {
            assert(ab[o + 1] == a[o + 1]);
            assert(ab[o + 2] == a[o + 2]);
            assert(ab[o + 3] == a[o + 3]);
            assert(ab[o + 4] == a[o + 4]);
        }
        if o + 5 + n <= a.len() {
            let k = (o + 5 + n) as nat;
            assert(ab[o] == a[o]);
            assert(ab.subrange(o + 5, o + 5 + n) =~= a.subrange(o + 5, o + 5 + n));
            lemma_frames_concat(a, b, k);
            assert(frames_from(ab, off) =~= frames_from(a, off) + frames_from(
                ab.skip(frames_end(a, off) as int),
                0,
            ));
        } else {
            lemma_frames_shift(ab, off);
            assert(frames_from(a, off) =~= Seq::<(u8, Seq<u8>)>::empty());
            assert(frames_from(a, off) + frames_from(ab.skip(o), 0) =~= frames_from(
                ab.skip(o),
                0,
            ));
        }
    } else {
        lemma_frames_shift(ab, off);
        assert(frames_from(a, off) =~= Seq::<(u8, Seq<u8>)>::empty());
        assert(frames_from(a, off) + frames_from(ab.skip(o), 0) =~= frames_from(ab.skip(o), 0));
    }
}

/// A stream read in two pieces gives the same frames as read whole: the
/// frames that lie whole in the first piece, then the frames of what was
/// left of it followed by the second piece.
pub proof fn lemma_frames_chunked(a: Seq<u8>, b: Seq<u8>)
    ensures
        frames_from(a + b, 0) == frames_from(a, 0) + frames_from(
            a.skip(frames_end(a, 0) as int) + b,
            0,
        ),
{
    lemma_frames_concat(a, b, 0);
    lemma_frames_end_bound(a, 0);
    assert((a + b).skip(frames_end(a, 0) as int) =~= a.skip(frames_end(a, 0) as int) + b);
}

/// Where the whole frames of `a + b` from `off` end: past those that lie
/// whole in `a`, then past the whole frames of what follows them.
proof fn lemma_frames_end_concat(a: Seq<u8>, b: Seq<u8>, off: nat)
    requires
        off <= a.len(),
    ensures
        frames_end(a + b, off) == frames_end(a, off) + frames_end(
            (a + b).skip(frames_end(a, off) as int),
            0,
        ),
    decreases a.len() - off,
{
    let ab = a + b;
    let o = off as int;
    if o + 5 <= a.len() {
        let n = be_u32_at(a, o + 1);
        assert(be_u32_at(ab, o + 1) == n) by {
            assert(ab[o + 1] == a[o + 1]);
            assert(ab[o + 2] == a[o + 2]);
            assert(ab[o + 3] == a[o + 3]);
            assert(ab[o + 4] == a[o + 4]);
        }
        if o + 5 + n <= a.len() {
            lemma_frames_end_concat(a, b, (o + 5 + n) as nat);
        } else {
            lemma_frames_shift(ab, off);
        }
    } else {
        lemma_frames_shift(ab, off);
    }
}

/// Reading on from where the whole frames end finds no further frame.
proof fn lemma_frames_end_fixed(buf: Seq<u8>, off: nat)
    requires
        off <= buf.len(),
    ensures
        frames_end(buf, frames_end(buf, off)) == frames_end(buf, off),
    decreases buf.len() - off,
{
    if off + 5 <= buf.len() {
        let n = be_u32_at(buf, off as int + 1);
        if off + 5 + n <= buf.len() {
            lemma_frames_end_fixed(buf, off + 5 + n);
        }
    }
}

/// What is left after the whole frames of a stream holds no whole frame,
/// so a decoder's leftover bytes meet the condition of
/// `lemma_frames_any_chunks`.
pub proof fn lemma_leftover_has_no_frame(all: Seq<u8>)
    ensures
        frames_end(all.skip(frames_end(all, 0) as int), 0) == 0,
{
    lemma_frames_end_bound(all, 0);
    lemma_frames_end_fixed(all, 0);
    lemma_frames_shift(all, frames_end(all, 0));
}

/// The bytes the frames take: five header bytes and the data of each.
pub open spec fn frames_size(s: Seq<(u8, Seq<u8>)>) -> nat
    decreases s.len(),
{
    if s.len() == 0 {
        0
    } else {
        5 + s[0].1.len() + frames_size(s.drop_first())
    }
}

/// From any position, the position plus the bytes of the whole frames that
/// follow it is where those frames end: an iterator's offset plus the size
/// of the frames it has still to give stays the same from call to call, and
/// is its offset once it is exhausted.
pub proof fn lemma_offset_and_frames_left(buf: Seq<u8>, off: nat)
    requires
        off <= buf.len(),
    ensures
        frames_end(buf, off) == off + frames_size(frames_from(buf, off)),
    decreases buf.len() - off,
{
    if off + 5 <= buf.len() {
        let n = be_u32_at(buf, off as int + 1);
        if off + 5 + n <= buf.len() {
            lemma_offset_and_frames_left(buf, off + 5 + n);
            let s = frames_from(buf, off);
            assert(s.drop_first() =~= frames_from(buf, off + 5 + n));
            assert(s[0].1.len() == n);
        }
    }
}

/// The offset of an iterator over `buf` after `k` calls of `next`, each
/// call moving past the next whole frame, if there is one.
pub open spec fn offset_after(buf: Seq<u8>, k: nat) -> nat
    decreases k,
{
    if k == 0 {
        0
    } else {
        let o = offset_after(buf, (k - 1) as nat);
        let rest = frames_from(buf, o);
        if rest.len() == 0 {
            o
        } else {
            o + 5 + rest[0].1.len()
        }
    }
}

/// The size of frames with one more at the end.
proof fn lemma_frames_size_push(s: Seq<(u8, Seq<u8>)>, x: (u8, Seq<u8>))
    ensures
        frames_size(s.push(x)) == frames_size(s) + 5 + x.1.len(),
    decreases s.len(),
{
    if s.len() > 0 {
        lemma_frames_size_push(s.drop_first(), x);
        assert(s.push(x).drop_first() =~= s.drop_first().push(x));
        assert(s.push(x)[0] == s[0]);
    } else {
        assert(s.push(x).drop_first() =~= Seq::<(u8, Seq<u8>)>::empty());
        assert(s.push(x)[0] == x);
        assert(frames_size(Seq::<(u8, Seq<u8>)>::empty()) == 0);
    }
}

/// The smaller of two numbers.
pub open spec fn min_nat(a: nat, b: nat) -> nat {
    if a <= b {
        a
    } else {
        b
    }
}

/// After `k` calls of `next` on an iterator over `buf`, the calls have given
/// the first `k` whole frames of `buf` (or all of them, if there are fewer),
/// the offset is the sum of their sizes and lies within the buffer, and the
/// frames still to come are the others.
pub proof fn lemma_offset_after_calls(buf: Seq<u8>, k: nat)
    ensures
        offset_after(buf, k) <= buf.len(),
        offset_after(buf, k) == frames_size(
            frames_from(buf, 0).take(min_nat(k, frames_from(buf, 0).len()) as int),
        ),
        frames_from(buf, offset_after(buf, k)) == frames_from(buf, 0).skip(
            min_nat(k, frames_from(buf, 0).len()) as int,
        ),
    decreases k,
{
    let all = frames_from(buf, 0);
    if k == 0 {
        assert(all.take(0) =~= Seq::<(u8, Seq<u8>)>::empty());
        assert(all.skip(0) =~= all);
    } else {
        lemma_offset_after_calls(buf, (k - 1) as nat);
        let o = offset_after(buf, (k - 1) as nat);
        let m = min_nat((k - 1) as nat, all.len());
        let rest = frames_from(buf, o);
        if rest.len() > 0 {
            let n = be_u32_at(buf, o as int + 1);
            assert(o + 5 + n <= buf.len());
            assert(rest[0].1 =~= buf.subrange(o as int + 5, o as int + 5 + n));
            assert(rest.drop_first() =~= frames_from(buf, o + 5 + n));
            assert(m < all.len());
            assert(rest[0] == all[m as int]);
            assert(all.take(m as int + 1) =~= all.take(m as int).push(all[m as int]));
            lemma_frames_size_push(all.take(m as int), all[m as int]);
            assert(all.skip(m as int + 1) =~= all.skip(m as int).drop_first());
        } else {
            assert(m == all.len()) by {
                if m < all.len() {
                    assert(all.skip(m as int).len() > 0);
                }
            }
        }
    }
}

/// The bytes of the chunks one after another.
pub open spec fn joined_chunks(chunks: Seq<Seq<u8>>) -> Seq<u8>
    decreases chunks.len(),
{
    if chunks.len() == 0 {
        Seq::empty()
    } else {
        joined_chunks(chunks.drop_last()) + chunks.last()
    }
}

/// The frames read and the bytes left over when a decoder that holds
/// `pending` is given the chunks one after another: each chunk adds the
/// whole frames of what was left and the chunk, and leaves what follows
/// them.
pub open spec fn fed_frames(pending: Seq<u8>, chunks: Seq<Seq<u8>>) -> (
    Seq<(u8, Seq<u8>)>,
    Seq<u8>,
)
    decreases chunks.len(),
{
    if chunks.len() == 0 {
        (Seq::empty(), pending)
    } else {
        let prev = fed_frames(pending, chunks.drop_last());
        let all = prev.1 + chunks.last();
        (prev.0 + frames_from(all, 0), all.skip(frames_end(all, 0) as int))
    }
}

/// However a stream is cut into chunks, giving them to a decoder one after
/// another reads the same frames, in the same order, as giving it the whole
/// stream at once, and leaves the same bytes over: those after the last
/// whole frame.
pub proof fn lemma_frames_any_chunks(pending: Seq<u8>, chunks: Seq<Seq<u8>>)
    requires
        frames_end(pending, 0) == 0,
    ensures
        fed_frames(pending, chunks).0 == frames_from(pending + joined_chunks(chunks), 0),
        fed_frames(pending, chunks).1 == (pending + joined_chunks(chunks)).skip(
            frames_end(pending + joined_chunks(chunks), 0) as int,
        ),
    decreases chunks.len(),
{
    if chunks.len() == 0 {
        assert(pending + joined_chunks(chunks) =~= pending);
        assert(pending.skip(0) =~= pending);
        if 5 <= pending.len() {
            let n = be_u32_at(pending, 1);
            if 5 + n <= pending.len() {
                lemma_frames_end_bound(pending, (5 + n) as nat);
            }
        }
    } else {
        lemma_frames_any_chunks(pending, chunks.drop_last());
        let w = pending + joined_chunks(chunks.drop_last());
        let c = chunks.last();
        let e = frames_end(w, 0);
        let q = w.skip(e as int);
        lemma_frames_chunked(w, c);
        lemma_frames_end_concat(w, c, 0);
        lemma_frames_end_bound(w, 0);
        assert((w + c).skip(e as int) =~= q + c);
        assert(pending + joined_chunks(chunks) =~= w + c);
        let f = frames_end(q + c, 0);
        lemma_frames_end_bound(q + c, 0);
        assert((w + c).skip((e + f) as int) =~= (q + c).skip(f as int));
    }
}

/// Reads the frame length at `buf[off + 1..off + 5]`.
fn read_len(buf: &[u8], off: usize) -> (r: usize)
    requires
        off + 5 <= buf@.len(),
    ensures
        r as nat == be_u32_at(buf@, off + 1),
{
    let len = buf.len();
    assert(off + 5 <= len);
    let b1 = buf[off + 1] as u32;
    let b2 = buf[off + 2] as u32;
    let b3 = buf[off + 3] as u32;
    let b4 = buf[off + 4] as u32;
    assert(b1 * 0x100_0000 + b2 * 0x1_0000 + b3 * 0x100 + b4 <= 0xffff_ffff) by (nonlinear_arith)
        requires
            b1 < 256,
            b2 < 256,
            b3 < 256,
            b4 < 256,
    ;
    let n: u32 = b1 * 0x100_0000 + b2 * 0x1_0000 + b3 * 0x100 + b4;
    n as usize
}

/// Walks the whole frames of a buffer.
#[derive(Debug, Clone)]
pub struct MessageIter<'b> {
    buffer: &'b [u8],
    offset: usize,
}

impl<'b> MessageIter<'b> {
    pub closed spec fn spec_buffer(&self) -> Seq<u8> {
        self.buffer@
    }

    pub closed spec fn spec_offset(&self) -> nat {
        self.offset as nat
    }

    pub closed spec fn wf(&self) -> bool {
        self.offset <= self.buffer@.len()
    }

    /// The frames that are left.
    pub open spec fn remaining(&self) -> Seq<(u8, Seq<u8>)> {
        frames_from(self.spec_buffer(), self.spec_offset())
    }

    /// Starts at the beginning of `buffer`.
    pub fn new(buffer: &'b [u8]) -> (r: MessageIter<'b>)
        ensures
            r.wf(),
            r.spec_buffer() == buffer@,
            r.spec_offset() == 0,
    {
        MessageIter { buffer, offset: 0 }
    }

    /// The bytes taken by the frames read so far.
    pub fn offset(&self) -> (r: usize)
        ensures
            r == self.spec_offset(),
    {
        self.offset
    }

    /// The next whole frame; `None` once the rest is not a whole frame, and
    /// from then on.
    pub fn next(&mut self) -> (r: Option<RawMessage<'b>>)
        requires
            old(self).wf(),
        ensures
            final(self).wf(),
            final(self).spec_buffer() == old(self).spec_buffer(),
            final(self).spec_offset() == (if old(self).remaining().len() == 0 {
                old(self).spec_offset()
            } else {
                old(self).spec_offset() + 5 + old(self).remaining()[0].1.len()
            }),
            final(self).remaining() == (if old(self).remaining().len() == 0 {
                old(self).remaining()
            } else {
                old(self).remaining().skip(1)
            }),
            match r {
                None => old(self).remaining().len() == 0,
                Some(m) => old(self).remaining().len() > 0 && m.message_type == old(
                    self,
                ).remaining()[0].0 && m.data@ == old(self).remaining()[0].1,
            },
    {
        let len = self.buffer.len();
        if len - self.offset < 5 {
            return None;
        }
        let message_type = self.buffer[self.offset];
        let msg_len = read_len(self.buffer, self.offset);
        if len - self.offset - 5 < msg_len {
            return None;
        }
        let start = self.offset + 5;
        let data = vstd::slice::slice_subrange(self.buffer, start, start + msg_len);
        self.offset = start + msg_len;
        proof {
            let b = self.buffer@;
            let o = old(self).spec_offset();
            assert(frames_from(b, o)[0] == (b[o as int], b.subrange(o as int + 5, o as int + 5 + msg_len)));
            assert(frames_from(b, o).skip(1) =~= frames_from(b, self.offset as nat));
        }
        Some(RawMessage { message_type, data })
    }

    /// How many whole frames are left, as a lower and an upper bound (both exact).
    pub fn size_hint(&self) -> (r: (usize, Option<usize>))
        requires
            self.wf(),
        ensures
            r.0 == self.remaining().len(),
            r.1 == Some(r.0),
    {
        let len = self.buffer.len();
        let mut count: usize = 0;
        let mut offset = self.offset;
        while len - offset >= 5
            invariant
                len == self.buffer@.len(),
                self.offset <= offset <= len,
                count + frames_from(self.buffer@, offset as nat).len() == self.remaining().len(),
                count <= offset,
            ensures
                count == self.remaining().len(),
            decreases len - offset,
        {
            let msg_len = read_len(self.buffer, offset);
            if len - offset - 5 < msg_len {
                break;
            }
            offset = offset + 5 + msg_len;
            count = count + 1;
        }
        (count, Some(count))
    }

    /// How many whole frames are left.
    pub fn len(&self) -> (r: usize)
        requires
            self.wf(),
        ensures
            r == self.remaining().len(),
    {
        self.size_hint().0
    }
}

// ---------------------------------------------------------------------------
// Buffer
// ---------------------------------------------------------------------------

#[verifier::external_type_specification]
#[verifier::external_body]
pub struct ExBytesMut(bytes::BytesMut);

/// The bytes a `BytesMut` holds.
pub uninterp spec fn bytes_mut_contents(b: bytes::BytesMut) -> Seq<u8>;

/// An empty `BytesMut`, through `BytesMut::new`.
///
/// Trusted: a new `BytesMut` holds no bytes.
#[verifier::external_body]
fn bytes_mut_new() -> (r: bytes::BytesMut)
    ensures
        bytes_mut_contents(r) == Seq::<u8>::empty(),
{
    bytes::BytesMut::new()
}

/// An empty `BytesMut` with room for `capacity` bytes, through
/// `BytesMut::with_capacity`.
///
/// Trusted: it holds no bytes.  The allocation panics beyond `isize::MAX`.
#[verifier::external_body]
fn bytes_mut_with_capacity(capacity: usize) -> (r: bytes::BytesMut)
    requires
        capacity <= isize::MAX,
    ensures
        bytes_mut_contents(r) == Seq::<u8>::empty(),
{
    bytes::BytesMut::with_capacity(capacity)
}

/// Through `BytesMut::len`: the number of bytes held.
#[verifier::external_body]
fn bytes_mut_len(b: &bytes::BytesMut) -> (r: usize)
    ensures
        r == bytes_mut_contents(*b).len(),
{
    b.len()
}

/// Through `BytesMut::is_empty`: whether no byte is held.
#[verifier::external_body]
fn bytes_mut_is_empty(b: &bytes::BytesMut) -> (r: bool)
    ensures
        r == (bytes_mut_contents(*b).len() == 0),
{
    b.is_empty()
}

/// Through `BytesMut::extend_from_slice`: appends `data`.
///
/// Trusted: the bytes held become the old ones followed by `data`.  Growing
/// panics when the length passes `isize::MAX`.
#[verifier::external_body]
fn bytes_mut_extend(b: &mut bytes::BytesMut, data: &[u8])
    requires
        bytes_mut_contents(*old(b)).len() + data@.len() <= isize::MAX,
    ensures
        bytes_mut_contents(*final(b)) == bytes_mut_contents(*old(b)) + data@,
{
    b.extend_from_slice(data)
}

/// Through `Buf::advance` of `BytesMut`: drops the first `count` bytes.
///
/// Trusted: the crate asserts `count <= len` and otherwise keeps the rest.
#[verifier::external_body]
fn bytes_mut_advance(b: &mut bytes::BytesMut, count: usize)
    requires
        count <= bytes_mut_contents(*old(b)).len(),
    ensures
        bytes_mut_contents(*final(b)) == bytes_mut_contents(*old(b)).skip(count as int),
{
    bytes::Buf::advance(b, count)
}

/// Through `AsRef<[u8]>` of `BytesMut`: the bytes held.
#[verifier::external_body]
fn bytes_mut_as_slice(b: &bytes::BytesMut) -> (r: &[u8])
    ensures
        r@ == bytes_mut_contents(*b),
{
    b.as_ref()
}

/// Bytes received and not yet taken as whole frames.
pub struct Buffer {
    inner: bytes::BytesMut,
}

impl View for Buffer {
    type V = Seq<u8>;

    closed spec fn view(&self) -> Seq<u8> {
        bytes_mut_contents(self.inner)
    }
}

impl Buffer {
    pub fn new() -> (r: Buffer)
        ensures
            r@ == Seq::<u8>::empty(),
    {
        Buffer { inner: bytes_mut_new() }
    }

    pub fn with_capacity(capacity: usize) -> (r: Buffer)
        requires
            capacity <= isize::MAX,
        ensures
            r@ == Seq::<u8>::empty(),
    {
        Buffer { inner: bytes_mut_with_capacity(capacity) }
    }

    pub fn len(&self) -> (r: usize)
        ensures
            r == self@.len(),
    {
        bytes_mut_len(&self.inner)
    }

    pub fn is_empty(&self) -> (r: bool)
        ensures
            r == (self@.len() == 0),
    {
        bytes_mut_is_empty(&self.inner)
    }

    pub fn extend_from_slice(&mut self, data: &[u8])
        requires
            old(self)@.len() + data@.len() <= isize::MAX,
        ensures
            final(self)@ == old(self)@ + data@,
    {
        bytes_mut_extend(&mut self.inner, data)
    }

    pub fn advance(&mut self, count: usize)
        requires
            count <= old(self)@.len(),
        ensures
            final(self)@ == old(self)@.skip(count as int),
    {
        bytes_mut_advance(&mut self.inner, count)
    }

    pub fn as_slice(&self) -> (r: &[u8])
        ensures
            r@ == self@,
    {
        bytes_mut_as_slice(&self.inner)
    }

    /// Walks the whole frames held.
    pub fn iter(&self) -> (r: MessageIter<'_>)
        ensures
            r.wf(),
            r.spec_buffer() == self@,
            r.spec_offset() == 0,
    {
        MessageIter::new(self.as_slice())
    }
}

impl Default for Buffer {
    fn default() -> (r: Buffer)
        ensures
            r@ == Seq::<u8>::empty(),
    {
        Buffer::new()
    }
}

// ---------------------------------------------------------------------------
// Decoder
// ---------------------------------------------------------------------------

/// The values among `outs`, in order.
pub open spec fn somes<T>(outs: Seq<Option<T>>) -> Seq<T>
    decreases outs.len(),
{
    if outs.len() == 0 {
        Seq::empty()
    } else {
        let rest = somes(outs.drop_last());
        match outs.last() {
            Some(x) => rest.push(x),
            None => rest,
        }
    }
}

/// `out` is what `f` may give for a message that lies as `frame`.
pub open spec fn processed<'a, T, F: Fn(RawMessage<'a>) -> Option<T>>(
    f: F,
    frame: (u8, Seq<u8>),
    out: Option<T>,
) -> bool {
    exists|m: RawMessage<'a>|
        #![trigger call_ensures(f, (m,), out)]
        m.message_type == frame.0 && m.data@ == frame.1 && call_ensures(f, (m,), out)
}

/// Keeping the present values of two runs one after the other.
proof fn lemma_somes_concat<T>(a: Seq<Option<T>>, b: Seq<Option<T>>)
    ensures
        somes(a + b) == somes(a) + somes(b),
    decreases b.len(),
{
    if b.len() == 0 {
        assert(a + b =~= a);
        assert(somes(a) + somes(b) =~= somes(a));
    } else {
        lemma_somes_concat(a, b.drop_last());
        assert((a + b).drop_last() =~= a + b.drop_last());
        assert((a + b).last() == b.last());
        match b.last() {
            Some(x) => {
                assert(somes(a) + somes(b.drop_last()).push(x) =~= (somes(a) + somes(
                    b.drop_last(),
                )).push(x));
            },
            None => {},
        }
    }
}

/// What a processor that gives `p(frame)` for each frame gives, call after
/// call, to a decoder that holds `pending` and is given the chunks one after
/// another.
pub open spec fn calls_outputs<T>(
    pending: Seq<u8>,
    chunks: Seq<Seq<u8>>,
    p: spec_fn((u8, Seq<u8>)) -> Option<T>,
) -> Seq<T>
    decreases chunks.len(),
{
    if chunks.len() == 0 {
        Seq::empty()
    } else {
        let all = fed_frames(pending, chunks.drop_last()).1 + chunks.last();
        calls_outputs(pending, chunks.drop_last(), p) + somes(frames_from(all, 0).map_values(p))
    }
}

/// Given a stream in chunks, the outputs of a processor that answers each
/// frame with `p(frame)`, call after call, are its outputs on the whole
/// stream at once: one per whole frame, in stream order, `None`s dropped.
pub proof fn lemma_outputs_any_chunks<T>(
    pending: Seq<u8>,
    chunks: Seq<Seq<u8>>,
    p: spec_fn((u8, Seq<u8>)) -> Option<T>,
)
    requires
        frames_end(pending, 0) == 0,
    ensures
        calls_outputs(pending, chunks, p) == somes(
            frames_from(pending + joined_chunks(chunks), 0).map_values(p),
        ),
    decreases chunks.len(),
{
    lemma_frames_any_chunks(pending, chunks);
    if chunks.len() == 0 {
        assert(frames_from(pending + joined_chunks(chunks), 0).map_values(p) =~= Seq::<
            Option<T>,
        >::empty());
    } else {
        lemma_outputs_any_chunks(pending, chunks.drop_last(), p);
        lemma_frames_any_chunks(pending, chunks.drop_last());
        let prev = fed_frames(pending, chunks.drop_last());
        let all = prev.1 + chunks.last();
        let a = prev.0.map_values(p);
        let b = frames_from(all, 0).map_values(p);
        assert((prev.0 + frames_from(all, 0)).map_values(p) =~= a + b);
        lemma_somes_concat(a, b);
    }
}

/// A processor whose outputs follow `p`: each output that the decoder
/// records for a frame is `p` of that frame.
pub open spec fn follows<'a, T, F: Fn(RawMessage<'a>) -> Option<T>>(
    f: F,
    p: spec_fn((u8, Seq<u8>)) -> Option<T>,
) -> bool {
    forall|frame: (u8, Seq<u8>), out: Option<T>| #[trigger] processed(f, frame, out) ==> out == p(frame)
}

/// For a processor that follows `p`, what a decode call gives is `p` of
/// each whole frame read, `None`s dropped.
pub proof fn lemma_decode_outputs<'a, T, F: Fn(RawMessage<'a>) -> Option<T>>(
    f: F,
    p: spec_fn((u8, Seq<u8>)) -> Option<T>,
    frames: Seq<(u8, Seq<u8>)>,
    outs: Seq<Option<T>>,
)
    requires
        follows(f, p),
        outs.len() == frames.len(),
        forall|j: int| 0 <= j < outs.len() ==> processed(f, #[trigger] frames[j], outs[j]),
    ensures
        somes(outs) == somes(frames.map_values(p)),
{
    assert(outs =~= frames.map_values(p)) by {
        assert forall|j: int| 0 <= j < outs.len() implies outs[j] == frames.map_values(p)[j] by {
            assert(processed(f, frames[j], outs[j]));
        }
    }
}

/// Turns the bytes of a stream into messages as whole frames arrive.
pub struct StreamDecoder {
    buffer: Buffer,
}

impl StreamDecoder {
    /// The bytes received that do not yet make a whole frame.
    pub closed spec fn pending(&self) -> Seq<u8> {
        self.buffer@
    }

    pub fn new() -> (r: StreamDecoder)
        ensures
            r.pending() == Seq::<u8>::empty(),
    {
        StreamDecoder { buffer: Buffer::new() }
    }

    /// The number of bytes held.
    pub fn pending_len(&self) -> (r: usize)
        ensures
            r == self.pending().len(),
    {
        self.buffer.len()
    }

    /// Adds `data` to the bytes held, hands each whole frame to `processor`
    /// in order, and keeps what it returns; the bytes of those frames are
    /// dropped, the rest waits for more data.
    pub fn decode<T, F: Fn(RawMessage<'_>) -> Option<T>>(&mut self, data: &[u8], processor: F) -> (r:
        Vec<T>)
        requires
            old(self).pending().len() + data@.len() <= isize::MAX,
            forall|m: RawMessage<'_>| #[trigger] call_requires(processor, (m,)),
        ensures
            ({
                let all = old(self).pending() + data@;
                &&& final(self).pending() == all.skip(frames_end(all, 0) as int)
                &&& exists|outs: Seq<Option<T>>|
                    {
                        &&& outs.len() == frames_from(all, 0).len()
                        &&& forall|j: int|
                            0 <= j < outs.len() ==> processed(
                                processor,
                                #[trigger] frames_from(all, 0)[j],
                                outs[j],
                            )
                        &&& r@ == somes(outs)
                    }
            }),
    {
        self.buffer.extend_from_slice(data);
        let ghost all = self.buffer@;
        let mut iter = self.buffer.iter();
        let mut messages: Vec<T> = Vec::new();
        let ghost mut outs: Seq<Option<T>> = Seq::empty();
        proof {
            assert(frames_from(all, 0).skip(0) =~= frames_from(all, 0));
        }
        loop
            invariant
                iter.wf(),
                iter.spec_buffer() == all,
                forall|m: RawMessage<'_>| #[trigger] call_requires(processor, (m,)),
                outs.len() <= frames_from(all, 0).len(),
                frames_from(all, 0).skip(outs.len() as int) == iter.remaining(),
                forall|j: int|
                    0 <= j < outs.len() ==> processed(
                        processor,
                        #[trigger] frames_from(all, 0)[j],
                        outs[j],
                    ),
                messages@ == somes(outs),
                frames_end(all, 0) == frames_end(all, iter.spec_offset()),
            ensures
                outs.len() == frames_from(all, 0).len(),
                forall|j: int|
                    0 <= j < outs.len() ==> processed(
                        processor,
                        #[trigger] frames_from(all, 0)[j],
                        outs[j],
                    ),
                messages@ == somes(outs),
                frames_end(all, 0) == iter.spec_offset(),
                iter.spec_offset() <= all.len(),
            decreases all.len() - iter.spec_offset(),
        {
            let ghost before = iter;
            let next = iter.next();
            match next {
                Some(m) => {
                    let out = processor(m);
                    proof {
                        let k = outs.len() as int;
                        let fr = frames_from(all, 0);
                        assert(fr.skip(k)[0] == fr[k]);
                        assert(processed(processor, fr[k], out));
                        assert(outs.push(out).drop_last() =~= outs);
                        assert(fr.skip(k).skip(1) =~= fr.skip(k + 1));
                        let o = before.spec_offset();
                        assert(frames_end(all, o) == frames_end(
                            all,
                            o + 5 + before.remaining()[0].1.len(),
                        ));
                        outs = outs.push(out);
                    }
                    match out {
                        Some(x) => {
                            messages.push(x);
                        },
                        None => {},
                    }
                },
                None => {
                    proof {
                        let o = before.spec_offset();
                        assert(frames_end(all, o) == o);
                        assert(frames_from(all, 0).skip(outs.len() as int).len() == 0);
                    }
                    break;
                },
            }
        }
        let consumed = iter.offset();
        self.buffer.advance(consumed);
        messages
    }
}

impl Default for StreamDecoder {
    fn default() -> (r: StreamDecoder)
        ensures
            r.pending() == Seq::<u8>::empty(),
    {
        StreamDecoder::new()
    }
}

} // verus!
