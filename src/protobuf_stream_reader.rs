//! Incremental decoder of length-delimited frames: each frame is a base-128
//! variable-length length prefix (low groups first, high bit = continuation)
//! followed by that many payload bytes.
use bytes::{Bytes, BytesMut};
use vstd::prelude::*;

verus! {

/// `bytes::BytesMut`, the growable buffer that holds received bytes.
#[verifier::external_type_specification]
#[verifier::external_body]
pub struct ExBytesMut(BytesMut);

/// `bytes::Bytes`, the immutable payload of a taken frame.
#[verifier::external_type_specification]
#[verifier::external_body]
pub struct ExBytes(Bytes);

/// The bytes that a `BytesMut` holds, in order.
pub uninterp spec fn bytes_mut_contents(b: BytesMut) -> Seq<u8>;

/// The bytes that a `Bytes` holds, in order.
pub uninterp spec fn bytes_contents(b: Bytes) -> Seq<u8>;

/// Relies on `BytesMut::new`: an empty buffer.
#[verifier::external_body]
fn buffer_new() -> (r: BytesMut)
    ensures
        bytes_mut_contents(r) == Seq::<u8>::empty(),
{
    BytesMut::new()
}

/// Relies on `BytesMut::len`: the number of bytes held.
#[verifier::external_body]
fn buffer_len(b: &BytesMut) -> (r: usize)
    ensures
        r == bytes_mut_contents(*b).len(),
{
    b.len()
}

/// Relies on indexing through `BytesMut`'s `Deref` to `[u8]`: the byte at `i`.
#[verifier::external_body]
fn buffer_byte(b: &BytesMut, i: usize) -> (r: u8)
    requires
        i < bytes_mut_contents(*b).len(),
    ensures
        r == bytes_mut_contents(*b)[i as int],
{
    b[i]
}

/// Relies on `BytesMut::extend_from_slice`: appends the slice at the end.
#[verifier::external_body]
fn buffer_extend(b: &mut BytesMut, chunk: &[u8])
    ensures
        bytes_mut_contents(*final(b)) == bytes_mut_contents(*old(b)) + chunk@,
{
    b.extend_from_slice(chunk)
}

/// Relies on `BytesMut::split_to`: returns the first `at` bytes and keeps the
/// rest; it panics when `at` is past the end.
#[verifier::external_body]
fn buffer_split_to(b: &mut BytesMut, at: usize) -> (r: BytesMut)
    requires
        at <= bytes_mut_contents(*old(b)).len(),
    ensures
        bytes_mut_contents(r) == bytes_mut_contents(*old(b)).subrange(0, at as int),
        bytes_mut_contents(*final(b)) == bytes_mut_contents(*old(b)).subrange(
            at as int,
            bytes_mut_contents(*old(b)).len() as int,
        ),
{
    b.split_to(at)
}

/// Relies on `BytesMut::freeze`: the same bytes, made immutable.
#[verifier::external_body]
fn buffer_freeze(b: BytesMut) -> (r: Bytes)
    ensures
        bytes_contents(r) == bytes_mut_contents(b),
{
    b.freeze()
}

/// The most bytes that a length prefix may take: enough for any 64-bit value.
pub const MAX_PREFIX_WIDTH: usize = 10;

/// `128` to the power `n`.
pub open spec fn pow128(n: nat) -> nat
    decreases n,
{
    if n == 0 {
        1
    } else {
        128 * pow128((n - 1) as nat)
    }
}

/// The variable-length integer at the front of `buf`, as its width in bytes
/// and its value, if its last byte (the first one with the high bit clear) is
/// there.
pub open spec fn varint_at(buf: Seq<u8>) -> Option<(nat, nat)>
    decreases buf.len(),
{
    if buf.len() == 0 {
        None
    } else if buf[0] < 128 {
        Some((1nat, buf[0] as nat))
    } else {
        match varint_at(buf.drop_first()) {
            Some((w, v)) => Some((w + 1, (buf[0] - 128) as nat + 128 * v)),
            None => None,
        }
    }
}

/// The first `n` bytes are present and each has the high bit set.
pub open spec fn all_continue(buf: Seq<u8>, n: nat) -> bool {
    &&& buf.len() >= n
    &&& forall|j: int| 0 <= j < n ==> buf[j] >= 128
}

/// The length prefix at the front of `buf` runs past the widest allowed.
pub open spec fn prefix_too_long(buf: Seq<u8>) -> bool {
    all_continue(buf, MAX_PREFIX_WIDTH as nat)
}

/// The complete frame at the front of `buf`, as the width of its prefix and
/// the length of its payload.
pub open spec fn frame_at(buf: Seq<u8>) -> Option<(nat, nat)> {
    match varint_at(buf) {
        Some((w, v)) => if 1 <= w <= MAX_PREFIX_WIDTH && w + v <= buf.len() {
            Some((w, v))
        } else {
            None
        },
        None => None,
    }
}

/// What extracting frames until none is complete does to `buf`: the payloads
/// taken, in order, the bytes left, and whether it stopped at a prefix that is
/// too long.
pub open spec fn drain_spec(buf: Seq<u8>) -> (Seq<Seq<u8>>, Seq<u8>, bool)
    decreases buf.len(),
{
    if prefix_too_long(buf) {
        (Seq::empty(), buf, true)
    } else {
        match frame_at(buf) {
            Some((w, v)) => {
                let d = drain_spec(buf.subrange((w + v) as int, buf.len() as int));
                (seq![buf.subrange(w as int, (w + v) as int)] + d.0, d.1, d.2)
            },
            None => (Seq::empty(), buf, false),
        }
    }
}

/// Every byte of `buf` has the high bit set: no variable-length integer ends in it.
pub(crate) proof fn lemma_unterminated(buf: Seq<u8>)
    requires
        forall|j: int| 0 <= j < buf.len() ==> buf[j] >= 128,
    ensures
        varint_at(buf) is None,
    decreases buf.len(),
{
    if buf.len() > 0 {
        lemma_unterminated(buf.drop_first());
    }
}

/// A decoded variable-length integer ends at its first byte with the high
/// bit clear, and its value is below `128` to the power of its width.
pub(crate) proof fn lemma_varint_shape(buf: Seq<u8>)
    requires
        varint_at(buf) is Some,
    ensures
        1 <= varint_at(buf).unwrap().0 <= buf.len(),
        buf[varint_at(buf).unwrap().0 - 1] < 128,
        forall|j: int| 0 <= j < varint_at(buf).unwrap().0 - 1 ==> buf[j] >= 128,
        varint_at(buf).unwrap().1 < pow128(varint_at(buf).unwrap().0),
    decreases buf.len(),
{
    if buf[0] >= 128 {
        let rest = buf.drop_first();
        lemma_varint_shape(rest);
        let w = varint_at(rest).unwrap().0;
        let v = varint_at(rest).unwrap().1;
        assert(varint_at(buf).unwrap().0 == w + 1);
        assert(buf[w as int] == rest[w - 1]);
        assert forall|j: int| 0 <= j < w implies buf[j] >= 128 by {
            if j > 0 {
                assert(buf[j] == rest[j - 1]);
            }
        }
        let b0 = buf[0] - 128;
        assert(b0 + 128 * v < 128 * pow128(w)) by (nonlinear_arith)
            requires
                0 <= b0 < 128,
                v < pow128(w),
        ;
        assert(pow128(w + 1) == 128 * pow128(w));
    } else {
        assert(pow128(1) == 128 * pow128(0));
    }
}

/// A frame whose prefix is within the allowed width cannot also count as a
/// prefix that is too long.
pub(crate) proof fn lemma_frame_not_too_long(buf: Seq<u8>)
    requires
        frame_at(buf) is Some,
    ensures
        !prefix_too_long(buf),
{
    lemma_varint_shape(buf);
}

/// How a prefix scan stopped.
enum Scan {
    Done(usize, u128),
    NeedMore,
    TooLong,
}

pub enum FrameError {
    /// The length prefix has no final byte within the widest allowed width.
    PrefixTooLong,
}

/// The frames taken in one pass, and whether the pass stopped at a malformed
/// length prefix.
pub struct Drained {
    pub frames: Vec<Bytes>,
    pub malformed: bool,
}

pub struct ProtobufStreamReader {
    pub buffer: BytesMut,
}

impl Default for ProtobufStreamReader {
    fn default() -> (r: Self)
        ensures
            r.pending() == Seq::<u8>::empty(),
    {
        ProtobufStreamReader { buffer: buffer_new() }
    }
}

impl ProtobufStreamReader {
    /// The bytes received and not yet taken as part of a frame.
    pub open spec fn pending(&self) -> Seq<u8> {
        bytes_mut_contents(self.buffer)
    }

    pub fn push_chunk(&mut self, chunk: &[u8])
        ensures
            final(self).pending() == old(self).pending() + chunk@,
    {
        buffer_extend(&mut self.buffer, chunk);
    }

    /// Scans the prefix from byte `i`, knowing that the bytes before it all
    /// have the high bit set.
    fn scan_from(&self, i: usize) -> (r: Scan)
        requires
            i <= MAX_PREFIX_WIDTH,
            i <= self.pending().len(),
        ensures
            ({
                let rest = self.pending().subrange(i as int, self.pending().len() as int);
                let limit = (MAX_PREFIX_WIDTH - i) as nat;
                match r {
                    Scan::TooLong => all_continue(rest, limit),
                    Scan::NeedMore => !all_continue(rest, limit) && match varint_at(rest) {
                        Some((w, v)) => w > limit,
                        None => true,
                    },
                    Scan::Done(w, v) => varint_at(rest) == Some((w as nat, v as nat)) && 1 <= w
                        <= limit && v < pow128(w as nat),
                }
            }),
        decreases MAX_PREFIX_WIDTH - i,
    {
        let ghost buf = self.pending();
        let ghost rest = buf.subrange(i as int, buf.len() as int);
        if i == MAX_PREFIX_WIDTH {
            return Scan::TooLong;
        }
        if i >= buffer_len(&self.buffer) {
            return Scan::NeedMore;
        }
        let b = buffer_byte(&self.buffer, i);
        assert(rest[0] == b);
        if b < 128 {
            assert(pow128(1) == 128 * pow128(0));
            return Scan::Done(1, b as u128);
        }
        let ghost next = buf.subrange(i + 1, buf.len() as int);
        assert(rest.drop_first() =~= next);
        let inner = self.scan_from(i + 1);
        match inner {
            Scan::Done(w, v) => {
                proof {
                    lemma_pow128_mono(w as nat, 9);
                    lemma_pow128_9();
                    let b0: int = b - 128;
                    assert(b0 + 128 * v < 128 * pow128(w as nat)) by (nonlinear_arith)
                        requires
                            0 <= b0 < 128,
                            v < pow128(w as nat),
                    ;
                    assert(pow128((w + 1) as nat) == 128 * pow128(w as nat));
                    assert(128 * v < 0x8000_0000_0000_0000 * 128) by (nonlinear_arith)
                        requires
                            v < 0x8000_0000_0000_0000int,
                    ;
                }
                Scan::Done(w + 1, (b - 128) as u128 + 128 * v)
            },
            Scan::NeedMore => {
                proof {
                    if all_continue(rest, (MAX_PREFIX_WIDTH - i) as nat) {
                        assert forall|j: int| 0 <= j < (MAX_PREFIX_WIDTH - i - 1) implies next[j]
                            >= 128 by {
                            assert(next[j] == rest[j + 1]);
                        }
                    }
                }
                Scan::NeedMore
            },
            Scan::TooLong => {
                assert forall|j: int| 0 <= j < (MAX_PREFIX_WIDTH - i) implies rest[j] >= 128 by {
                    if j > 0 {
                        assert(rest[j] == next[j - 1]);
                    }
                }
                Scan::TooLong
            },
        }
    }

    /// Takes the next complete frame off the front of the buffer and returns
    /// its payload. When no frame is complete yet, returns `Ok(None)` and
    /// leaves the buffer as it was; a prefix with no final byte within
    /// `MAX_PREFIX_WIDTH` bytes is an error, and the buffer is left as it was.
    pub fn get_message(&mut self) -> (r: Result<Option<Bytes>, FrameError>)
        ensures
            r is Err <==> prefix_too_long(old(self).pending()),
            r matches Ok(Some(_)) <==> frame_at(old(self).pending()) is Some,
            match r {
                Ok(Some(p)) => {
                    let (w, v) = frame_at(old(self).pending()).unwrap();
                    &&& bytes_contents(p) == old(self).pending().subrange(w as int, (w + v) as int)
                    &&& final(self).pending() == old(self).pending().subrange(
                        (w + v) as int,
                        old(self).pending().len() as int,
                    )
                },
                _ => final(self).pending() == old(self).pending(),
            },
    {
        let ghost buf = self.pending();
        assert(buf.subrange(0, buf.len() as int) =~= buf);
        let scan = self.scan_from(0);
        match scan {
            Scan::TooLong => {
                proof {
                    if frame_at(buf) is Some {
                        lemma_frame_not_too_long(buf);
                    }
                }
                Err(FrameError::PrefixTooLong)
            },
            Scan::NeedMore => {
                proof {
                    if frame_at(buf) is Some {
                        lemma_varint_shape(buf);
                    }
                }
                Ok(None)
            },
            Scan::Done(w, v) => {
                proof {
                    lemma_varint_shape(buf);
                }
                let len = buffer_len(&self.buffer);
                if v > (len - w) as u128 {
                    return Ok(None);
                }
                let total = w + v as usize;
                let mut head = buffer_split_to(&mut self.buffer, total);
                let _prefix = buffer_split_to(&mut head, w);
                assert(bytes_mut_contents(head) =~= buf.subrange(w as int, total as int));
                Ok(Some(buffer_freeze(head)))
            },
        }
    }

    /// Takes every complete frame off the front of the buffer, in order,
    /// stopping at the first incomplete frame or malformed prefix.
    pub fn drain_frames(&mut self) -> (r: Drained)
        ensures
            ({
                let d = drain_spec(old(self).pending());
                &&& r.frames@.map_values(|b: Bytes| bytes_contents(b)) == d.0
                &&& final(self).pending() == d.1
                &&& r.malformed == d.2
            }),
    {
        let mut frames: Vec<Bytes> = Vec::new();
        let ghost start = self.pending();
        assert(Seq::<Seq<u8>>::empty() + drain_spec(start).0 =~= drain_spec(start).0);
        loop
            invariant
                start == old(self).pending(),
                ({
                    let d = drain_spec(self.pending());
                    let s = drain_spec(start);
                    &&& s.0 == frames@.map_values(|b: Bytes| bytes_contents(b)) + d.0
                    &&& s.1 == d.1
                    &&& s.2 == d.2
                }),
            decreases self.pending().len(),
        {
            let ghost before = self.pending();
            let ghost taken = frames@.map_values(|b: Bytes| bytes_contents(b));
            match self.get_message() {
                Ok(Some(p)) => {
                    proof {
                        lemma_frame_not_too_long(before);
                    }
                    frames.push(p);
                    assert(frames@.map_values(|b: Bytes| bytes_contents(b)) =~= taken.push(
                        bytes_contents(p),
                    ));
                    assert(taken.push(bytes_contents(p)) + drain_spec(self.pending()).0 =~= taken
                        + drain_spec(before).0);
                },
                Ok(None) => {
                    assert(taken + drain_spec(before).0 =~= taken);
                    return Drained { frames, malformed: false };
                },
                Err(_) => {
                    assert(taken + drain_spec(before).0 =~= taken);
                    return Drained { frames, malformed: true };
                },
            }
        }
    }
}

/// `pow128` grows with its exponent.
proof fn lemma_pow128_mono(a: nat, b: nat)
    requires
        a <= b,
    ensures
        pow128(a) <= pow128(b),
    decreases b,
{
    if a < b {
        lemma_pow128_mono(a, (b - 1) as nat);
    }
}

proof fn lemma_pow128_9()
    ensures
        pow128(9) == 0x8000_0000_0000_0000,
{
    reveal_with_fuel(pow128, 10);
}

} // verus!
