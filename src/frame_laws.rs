//! Laws of the frame decoder, stated over the encoding of a sequence of
//! payloads and over the model of its buffer.
use vstd::prelude::*;

use crate::protobuf_stream_reader::{
    all_continue, drain_spec, frame_at, pow128, prefix_too_long, varint_at, MAX_PREFIX_WIDTH,
};

verus! {

/// The base-128 encoding of `n`: low groups first, the high bit set on every
/// byte but the last.
pub open spec fn encode_varint(n: nat) -> Seq<u8>
    decreases n,
{
    if n < 128 {
        seq![n as u8]
    } else {
        seq![((n % 128) + 128) as u8] + encode_varint(n / 128)
    }
}

/// One frame: the length prefix, then the payload.
pub open spec fn encode_frame(p: Seq<u8>) -> Seq<u8> {
    encode_varint(p.len()) + p
}

/// The frames of `ps`, one after the other.
pub open spec fn encode_frames(ps: Seq<Seq<u8>>) -> Seq<u8>
    decreases ps.len(),
{
    if ps.len() == 0 {
        Seq::empty()
    } else {
        encode_frame(ps[0]) + encode_frames(ps.drop_first())
    }
}

/// The chunks laid end to end.
pub open spec fn concat_chunks(cs: Seq<Seq<u8>>) -> Seq<u8>
    decreases cs.len(),
{
    if cs.len() == 0 {
        Seq::empty()
    } else {
        cs[0] + concat_chunks(cs.drop_first())
    }
}

/// The payloads delivered when, starting from buffer `buf`, each chunk is
/// pushed in turn and every complete frame is then taken.
pub open spec fn feed(buf: Seq<u8>, cs: Seq<Seq<u8>>) -> Seq<Seq<u8>>
    decreases cs.len(),
{
    if cs.len() == 0 {
        Seq::empty()
    } else {
        let d = drain_spec(buf + cs[0]);
        d.0 + feed(d.1, cs.drop_first())
    }
}

/// The payload's length has a prefix within the widest allowed width.
pub open spec fn fits_prefix(p: Seq<u8>) -> bool {
    p.len() < pow128(MAX_PREFIX_WIDTH as nat)
}

pub open spec fn all_fit(ps: Seq<Seq<u8>>) -> bool {
    forall|i: int| 0 <= i < ps.len() ==> fits_prefix(#[trigger] ps[i])
}

proof fn lemma_varint_decodes(n: nat, t: Seq<u8>)
    ensures
        encode_varint(n).len() >= 1,
        varint_at(encode_varint(n) + t) == Some((encode_varint(n).len(), n)),
    decreases n,
{
    let e = encode_varint(n);
    if n >= 128 {
        let rest = encode_varint(n / 128);
        lemma_varint_decodes(n / 128, t);
        assert((e + t).drop_first() =~= rest + t);
        assert(n == (n % 128) + 128 * (n / 128));
    }
}

proof fn lemma_varint_width(n: nat, k: nat)
    requires
        1 <= k,
        n < pow128(k),
    ensures
        encode_varint(n).len() <= k,
    decreases k,
{
    if n >= 128 {
        if k == 1 {
            assert(pow128(1) == 128 * pow128(0));
        } else {
            let k1 = (k - 1) as nat;
            assert(pow128(k) == 128 * pow128(k1));
            assert(n / 128 < pow128(k1)) by (nonlinear_arith)
                requires
                    n < 128 * pow128(k1),
            ;
            lemma_varint_width(n / 128, k1);
        }
    }
}

/// A complete frame at the front is taken whole, whatever follows it.
proof fn lemma_frame_front(p: Seq<u8>, t: Seq<u8>)
    requires
        fits_prefix(p),
    ensures
        drain_spec(encode_frame(p) + t) == (seq![p] + drain_spec(t).0, drain_spec(t).1, drain_spec(
            t,
        ).2),
{
    let e = encode_varint(p.len());
    let x = encode_frame(p) + t;
    lemma_varint_decodes(p.len(), p + t);
    lemma_varint_width(p.len(), MAX_PREFIX_WIDTH as nat);
    assert(x =~= e + (p + t));
    let w = e.len();
    assert(frame_at(x) == Some((w, p.len())));
    crate::protobuf_stream_reader::lemma_frame_not_too_long(x);
    assert(x.subrange(w as int, (w + p.len()) as int) =~= p);
    assert(x.subrange((w + p.len()) as int, x.len() as int) =~= t);
}

/// A buffer shorter than the frame it begins takes nothing and stays as it is.
proof fn lemma_partial_frame(p: Seq<u8>, u: Seq<u8>)
    requires
        fits_prefix(p),
        u.len() < encode_frame(p).len(),
        forall|i: int| 0 <= i < u.len() ==> u[i] == encode_frame(p)[i],
    ensures
        drain_spec(u) == (Seq::<Seq<u8>>::empty(), u, false),
{
    let e = encode_varint(p.len());
    let w = e.len();
    lemma_varint_decodes(p.len(), Seq::empty());
    lemma_varint_width(p.len(), MAX_PREFIX_WIDTH as nat);
    assert(e + Seq::<u8>::empty() =~= e);
    crate::protobuf_stream_reader::lemma_varint_shape(e);
    if u.len() < w {
        assert forall|j: int| 0 <= j < u.len() implies u[j] >= 128 by {
            assert(u[j] == e[j]);
        }
        crate::protobuf_stream_reader::lemma_unterminated(u);
    } else {
        let tail = u.subrange(w as int, u.len() as int);
        assert(u =~= e + tail);
        lemma_varint_decodes(p.len(), tail);
        assert(u[w - 1] == e[w - 1]);
    }
}

/// Any prefix `x` of an encoded stream delivers some first `k` payloads and
/// keeps the start of the next frame, shorter than that frame.
proof fn lemma_prefix_drain(ps: Seq<Seq<u8>>, x: Seq<u8>) -> (k: nat)
    requires
        all_fit(ps),
        x.len() <= encode_frames(ps).len(),
        forall|i: int| 0 <= i < x.len() ==> x[i] == encode_frames(ps)[i],
    ensures
        k <= ps.len(),
        drain_spec(x).0 == ps.take(k as int),
        !drain_spec(x).2,
        drain_spec(x).1 + encode_frames(ps).skip(x.len() as int) == encode_frames(
            ps.skip(k as int),
        ),
        k < ps.len() ==> drain_spec(x).1.len() < encode_frame(ps[k as int]).len(),
    decreases ps.len(),
{
    let full = encode_frames(ps);
    if ps.len() == 0 {
        assert(x =~= Seq::<u8>::empty());
        assert(!all_continue(x, MAX_PREFIX_WIDTH as nat));
        assert(ps.skip(0) =~= ps);
        assert(ps.take(0) =~= Seq::<Seq<u8>>::empty());
        assert(x + full.skip(0) =~= full);
        0
    } else {
        let f = encode_frame(ps[0]);
        let rest = ps.drop_first();
        assert(fits_prefix(ps[0]));
        assert(full =~= f + encode_frames(rest));
        if x.len() < f.len() {
            lemma_partial_frame(ps[0], x);
            assert(ps.take(0) =~= Seq::<Seq<u8>>::empty());
            assert(ps.skip(0) =~= ps);
            assert(x + full.skip(x.len() as int) =~= full);
            0
        } else {
            let x2 = x.skip(f.len() as int);
            assert(x =~= f + x2);
            assert forall|i: int| 0 <= i < x2.len() implies x2[i] == encode_frames(rest)[i] by {
                assert(x2[i] == x[i + f.len()]);
                assert(full[i + f.len()] == encode_frames(rest)[i]);
            }
            assert(all_fit(rest)) by {
                assert forall|i: int| 0 <= i < rest.len() implies fits_prefix(#[trigger] rest[i]) by {
                    assert(rest[i] == ps[i + 1]);
                }
            }
            let k2 = lemma_prefix_drain(rest, x2);
            lemma_frame_front(ps[0], x2);
            assert(ps.take(k2 + 1int) =~= seq![ps[0]] + rest.take(k2 as int));
            assert(rest.skip(k2 as int) =~= ps.skip(k2 + 1int));
            assert(encode_frames(rest).skip(x2.len() as int) =~= full.skip(x.len() as int));
            if k2 < rest.len() {
                assert(rest[k2 as int] == ps[k2 + 1int]);
            }
            k2 + 1
        }
    }
}

proof fn lemma_frames_len(ps: Seq<Seq<u8>>)
    requires
        ps.len() > 0,
    ensures
        encode_frames(ps).len() >= encode_frame(ps[0]).len(),
{
}

proof fn lemma_feed(b: Seq<u8>, cs: Seq<Seq<u8>>, ps: Seq<Seq<u8>>)
    requires
        all_fit(ps),
        b + concat_chunks(cs) == encode_frames(ps),
        ps.len() > 0 ==> b.len() < encode_frame(ps[0]).len(),
        ps.len() == 0 ==> b.len() == 0,
    ensures
        feed(b, cs) == ps,
    decreases cs.len(),
{
    if cs.len() == 0 {
        assert(b + concat_chunks(cs) =~= b);
        if ps.len() > 0 {
            lemma_frames_len(ps);
        }
        assert(ps =~= Seq::<Seq<u8>>::empty());
    } else {
        let x = b + cs[0];
        let later = concat_chunks(cs.drop_first());
        assert(b + concat_chunks(cs) =~= x + later);
        let full = encode_frames(ps);
        assert(full.skip(x.len() as int) =~= later);
        let k = lemma_prefix_drain(ps, x);
        let d = drain_spec(x);
        let ps2 = ps.skip(k as int);
        assert(all_fit(ps2)) by {
            assert forall|i: int| 0 <= i < ps2.len() implies fits_prefix(#[trigger] ps2[i]) by {
                assert(ps2[i] == ps[i + k]);
            }
        }
        if k < ps.len() {
            assert(ps2[0] == ps[k as int]);
        } else {
            assert(ps2 =~= Seq::<Seq<u8>>::empty());
        }
        lemma_feed(d.1, cs.drop_first(), ps2);
        assert(ps.take(k as int) + ps2 =~= ps);
    }
}

/// However the encoded frames of `ps` are cut into chunks, pushing the chunks
/// one by one and taking every complete frame after each push delivers
/// exactly `ps`, in order.
pub proof fn lemma_chunking_independent(ps: Seq<Seq<u8>>, cs: Seq<Seq<u8>>)
    requires
        all_fit(ps),
        concat_chunks(cs) == encode_frames(ps),
    ensures
        feed(Seq::empty(), cs) == ps,
{
    assert(Seq::<u8>::empty() + concat_chunks(cs) =~= concat_chunks(cs));
    if ps.len() > 0 {
        assert(fits_prefix(ps[0]));
        lemma_varint_decodes(ps[0].len(), Seq::empty());
    }
    lemma_feed(Seq::empty(), cs, ps);
}

/// Every frame of an encoded stream is delivered, whatever its payload holds:
/// a payload that no message parser accepts neither stops nor hides the
/// frames around it, and nothing is left over.
pub proof fn lemma_every_frame_delivered(ps: Seq<Seq<u8>>)
    requires
        all_fit(ps),
    ensures
        drain_spec(encode_frames(ps)) == (ps, Seq::<u8>::empty(), false),
{
    let full = encode_frames(ps);
    let k = lemma_prefix_drain(ps, full);
    assert(full.skip(full.len() as int) =~= Seq::<u8>::empty());
    assert(drain_spec(full).1 + Seq::<u8>::empty() =~= drain_spec(full).1);
    if k < ps.len() {
        let ps2 = ps.skip(k as int);
        assert(ps2[0] == ps[k as int]);
        assert(ps2.len() > 0);
        lemma_frames_len(ps2);
    }
    assert(ps.take(ps.len() as int) =~= ps);
    assert(ps.skip(ps.len() as int) =~= Seq::<Seq<u8>>::empty());
}

/// A single payload, framed and decoded, comes back unchanged.
pub proof fn lemma_round_trip(p: Seq<u8>)
    requires
        fits_prefix(p),
    ensures
        drain_spec(encode_frame(p)) == (seq![p], Seq::<u8>::empty(), false),
        frame_at(encode_frame(p)) == Some((encode_varint(p.len()).len(), p.len())),
{
    lemma_frame_front(p, Seq::empty());
    assert(encode_frame(p) + Seq::<u8>::empty() =~= encode_frame(p));
    assert(seq![p] + Seq::<Seq<u8>>::empty() =~= seq![p]);
    lemma_varint_decodes(p.len(), p);
    lemma_varint_width(p.len(), MAX_PREFIX_WIDTH as nat);
}

/// After every complete frame has been taken, pushing no bytes and taking
/// again delivers nothing and leaves the buffer as it was.
pub proof fn lemma_empty_push_idle(buf: Seq<u8>)
    ensures
        ({
            let left = drain_spec(buf).1;
            &&& left + Seq::<u8>::empty() == left
            &&& frame_at(left + Seq::<u8>::empty()) is None
            &&& drain_spec(left + Seq::<u8>::empty()).0 == Seq::<Seq<u8>>::empty()
            &&& drain_spec(left + Seq::<u8>::empty()).1 == left
        }),
    decreases buf.len(),
{
    let left = drain_spec(buf).1;
    assert(left + Seq::<u8>::empty() =~= left);
    if !prefix_too_long(buf) {
        if let Some((w, v)) = frame_at(buf) {
            lemma_empty_push_idle(buf.subrange((w + v) as int, buf.len() as int));
        }
    } else {
        lemma_too_long_no_frame(buf);
    }
}

proof fn lemma_too_long_no_frame(buf: Seq<u8>)
    requires
        prefix_too_long(buf),
    ensures
        frame_at(buf) is None,
{
    if frame_at(buf) is Some {
        crate::protobuf_stream_reader::lemma_frame_not_too_long(buf);
    }
}

} // verus!
