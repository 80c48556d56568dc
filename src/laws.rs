use vstd::prelude::*;

use crate::consts::padding;
use crate::decode::{dec_fold, dec_step, flatten, px_bytes, spec_decode, spec_decode_body, DecState};
use crate::encode::{
    all_opaque, enc_fold, enc_step, encode_pixels, encoded_image, lemma_stream_len, new_outcome,
    new_pixels, run_flush, Encoder,
};
use crate::header::{from_be32, lemma_dims, lemma_header_round_trip, max_len, spec_decode_header, Header};
use crate::pixel::{hash_of, lemma_pixel_op_inverts, pixel_op, Pixel};
use crate::types::{Channels, ColorSpace};
use crate::consts::QOI_PIXELS_MAX;

verus! {

proof fn lemma_enc_prefix(px: Seq<Pixel>, reference: bool, i: nat, j: nat)
    requires
        i <= j <= px.len(),
    ensures
        enc_fold(px, reference, i).1.len() <= enc_fold(px, reference, j).1.len(),
        enc_fold(px, reference, j).1.subrange(0, enc_fold(px, reference, i).1.len() as int)
            == enc_fold(px, reference, i).1,
    decreases j,
{
    if i < j {
        lemma_enc_prefix(px, reference, i, (j - 1) as nat);
        let bi = enc_fold(px, reference, i).1;
        let bj1 = enc_fold(px, reference, (j - 1) as nat).1;
        let bj = enc_fold(px, reference, j).1;
        assert(bj.subrange(0, bi.len() as int) =~= bj1.subrange(0, bi.len() as int));
    } else {
        let bi = enc_fold(px, reference, i).1;
        assert(bi.subrange(0, bi.len() as int) =~= bi);
    }
}

proof fn lemma_image_index(h: Header, px: Seq<Pixel>, reference: bool, j: nat, x: int)
    requires
        j <= px.len(),
        0 <= x < enc_fold(px, reference, j).1.len(),
    ensures
        encoded_image(h, px, reference)[14 + x] == enc_fold(px, reference, j).1[x],
        14 + enc_fold(px, reference, j).1.len() + 8 <= encoded_image(h, px, reference).len(),
{
    lemma_enc_prefix(px, reference, j, px.len());
    let e = encode_pixels(px, reference);
    let bj = enc_fold(px, reference, j).1;
    assert(h.spec_bytes().len() == 14);
    assert(bj[x] == e.subrange(0, bj.len() as int)[x]);
}

proof fn lemma_run_steps(b: Seq<u8>, ch4: bool, k: nat, m: nat)
    requires
        dec_fold(b, ch4, k) is Some,
        m <= dec_fold(b, ch4, k)->Some_0.run,
    ensures
        ({
            let s = dec_fold(b, ch4, k)->Some_0;
            dec_fold(b, ch4, k + m) == Some(
                DecState {
                    run: (s.run - m) as nat,
                    out: s.out + Seq::new(m, |_j: int| s.prev),
                    ..s
                },
            )
        }),
    decreases m,
{
    let s = dec_fold(b, ch4, k)->Some_0;
    if m == 0 {
        assert(s.out + Seq::new(0, |_j: int| s.prev) =~= s.out);
    } else {
        lemma_run_steps(b, ch4, k, (m - 1) as nat);
        assert((s.out + Seq::new((m - 1) as nat, |_j: int| s.prev)).push(s.prev) =~= s.out
            + Seq::new(m, |_j: int| s.prev));
    }
}

/// The decoder, run on the encoding of `px`, keeps pace with the encoder:
/// after the encoder has taken `i` pixels, the decoder has emitted all of
/// them but the pending run, with the same previous pixel and index.
spec fn sim_inv(h: Header, px: Seq<Pixel>, reference: bool, i: nat) -> bool {
    let ch4 = h.channels == Channels::Rgba;
    let s = enc_fold(px, reference, i).0;
    let b = enc_fold(px, reference, i).1;
    let k = i - s.run;
    &&& s.run <= i
    &&& s.run < 62
    &&& s.index.len() == 64
    &&& (forall|j: int| k <= j < i ==> px[j] == s.prev)
    &&& (s.index_allowed ==> s.index[hash_of(s.prev) as int] == s.prev)
    &&& (!ch4 ==> s.prev.a == 0xff)
    &&& dec_fold(encoded_image(h, px, reference), ch4, k as nat) == Some(
        DecState {
            pos: 14 + b.len() as int,
            prev: s.prev,
            index: s.index,
            run: 0,
            out: px.subrange(0, k),
        },
    )
}

spec fn sim_pre(h: Header, px: Seq<Pixel>) -> bool {
    &&& h.valid()
    &&& px.len() == h.spec_n_pixels()
    &&& (h.channels == Channels::Rgb ==> all_opaque(px))
}

/// The decoder reads a run byte `0xc0 + m` at state `k` and then emits the
/// rest of the run: `m + 1` copies of the previous pixel in all.
#[verifier::rlimit(50)]
proof fn lemma_read_run(b: Seq<u8>, ch4: bool, k: nat, m: nat)
    requires
        dec_fold(b, ch4, k) is Some,
        dec_fold(b, ch4, k)->Some_0.run == 0,
        0 <= dec_fold(b, ch4, k)->Some_0.pos < b.len(),
        m < 62,
        b[dec_fold(b, ch4, k)->Some_0.pos] == (0xc0 + m) as u8,
    ensures
        ({
            let s = dec_fold(b, ch4, k)->Some_0;
            dec_fold(b, ch4, k + 1 + m) == Some(
                DecState {
                    pos: s.pos + 1,
                    run: 0,
                    out: s.out + Seq::new(m + 1, |_j: int| s.prev),
                    ..s
                },
            )
        }),
{
    let s = dec_fold(b, ch4, k)->Some_0;
    assert(dec_fold(b, ch4, k + 1) == dec_step(b, s, ch4));
    lemma_run_steps(b, ch4, k + 1, m);
    assert(s.out.push(s.prev) + Seq::new(m, |_j: int| s.prev) =~= s.out + Seq::new(
        m + 1,
        |_j: int| s.prev,
    ));
}

/// Before a pixel that differs from the previous one, the pending run is
/// flushed and the decoder has caught up.
#[verifier::rlimit(50)]
proof fn lemma_flush(h: Header, px: Seq<Pixel>, reference: bool, i: nat)
    requires
        sim_pre(h, px),
        sim_inv(h, px, reference, i),
        i < px.len(),
        px[i as int] != enc_fold(px, reference, i).0.prev,
    ensures
        ({
            let s = enc_fold(px, reference, i).0;
            let b = enc_fold(px, reference, i).1;
            dec_fold(encoded_image(h, px, reference), h.channels == Channels::Rgba, i) == Some(
                DecState {
                    pos: 14 + b.len() + run_flush(s, reference).len() as int,
                    prev: s.prev,
                    index: s.index,
                    run: 0,
                    out: px.subrange(0, i as int),
                },
            )
        }),
{
    let ch4 = h.channels == Channels::Rgba;
    let bb = encoded_image(h, px, reference);
    let s = enc_fold(px, reference, i).0;
    let b = enc_fold(px, reference, i).1;
    let k = (i - s.run) as nat;
    let c = px[i as int];
    let b2 = enc_step(s, c, i + 1 == px.len(), reference).1;
    assert(enc_fold(px, reference, i + 1).1 == b + b2);
    if s.run == 0 {
        assert(px.subrange(0, k as int) == px.subrange(0, i as int));
    } else {
        let f = run_flush(s, reference);
        lemma_image_index(h, px, reference, i + 1, b.len() as int);
        assert((b + b2)[b.len() as int] == f[0]);
        let d = dec_fold(bb, ch4, k)->Some_0;
        if s.run == 1 && s.index_allowed && !reference {
            assert(dec_fold(bb, ch4, k + 1) == dec_step(bb, d, ch4));
            assert(px.subrange(0, k as int).push(s.prev) =~= px.subrange(0, i as int));
        } else {
            lemma_read_run(bb, ch4, k, (s.run - 1) as nat);
            assert(px.subrange(0, k as int) + Seq::new(s.run, |_j: int| s.prev) =~= px.subrange(
                0,
                i as int,
            ));
        }
    }
}

/// The decoder reads the opcode that `pixel_op` chose for `c` and yields `c`.
#[verifier::rlimit(50)]
proof fn lemma_dec_pixel_op(bb: Seq<u8>, ch4: bool, d: DecState, c: Pixel)
    requires
        d.run == 0,
        0 <= d.pos,
        d.pos + pixel_op(c, d.prev).len() + 8 <= bb.len(),
        forall|t: int| 0 <= t < pixel_op(c, d.prev).len() ==> bb[d.pos + t] == pixel_op(c, d.prev)[t],
        !ch4 ==> c.a == 0xff && d.prev.a == 0xff,
    ensures
        dec_step(bb, d, ch4) == Some(
            DecState {
                pos: d.pos + pixel_op(c, d.prev).len(),
                prev: c,
                index: d.index.update(hash_of(c) as int, c),
                run: 0,
                out: d.out.push(c),
            },
        ),
{
    let op = pixel_op(c, d.prev);
    assert(bb[d.pos] == op[0]);
    if c.a == d.prev.a {
        lemma_pixel_op_inverts(c, d.prev);
        if !crate::pixel::diff_fits(c, d.prev) && crate::pixel::luma_fits(c, d.prev) {
            assert(bb[d.pos + 1] == op[1]);
        } else if !crate::pixel::diff_fits(c, d.prev) {
            assert(bb[d.pos + 1] == op[1]);
            assert(bb[d.pos + 2] == op[2]);
            assert(bb[d.pos + 3] == op[3]);
        }
    } else {
        assert(bb[d.pos + 1] == op[1]);
        assert(bb[d.pos + 2] == op[2]);
        assert(bb[d.pos + 3] == op[3]);
        assert(bb[d.pos + 4] == op[4]);
    }
}

/// The bytes that the encoder writes for a new pixel `c`, after the flush.
spec fn new_op(index: Seq<Pixel>, prev: Pixel, c: Pixel) -> Seq<u8> {
    if index[hash_of(c) as int] == c {
        seq![hash_of(c)]
    } else {
        pixel_op(c, prev)
    }
}

#[verifier::rlimit(50)]
proof fn lemma_op_bytes(h: Header, px: Seq<Pixel>, reference: bool, i: nat)
    requires
        i < px.len(),
        px[i as int] != enc_fold(px, reference, i).0.prev,
    ensures
        ({
            let s = enc_fold(px, reference, i).0;
            let b = enc_fold(px, reference, i).1;
            let op = new_op(s.index, s.prev, px[i as int]);
            let pos = 14 + b.len() + run_flush(s, reference).len();
            &&& pos + op.len() + 8 <= encoded_image(h, px, reference).len()
            &&& forall|t: int|
                0 <= t < op.len() ==> encoded_image(h, px, reference)[pos + t] == op[t]
            &&& enc_fold(px, reference, i + 1).1 == b + run_flush(s, reference) + op
        }),
{
    let s = enc_fold(px, reference, i).0;
    let b = enc_fold(px, reference, i).1;
    let c = px[i as int];
    let (s2, b2) = enc_step(s, c, i + 1 == px.len(), reference);
    assert(enc_fold(px, reference, i + 1) == (s2, b + b2));
    let f = run_flush(s, reference);
    let op = new_op(s.index, s.prev, c);
    assert(b2 == f + op);
    assert(b + b2 =~= b + f + op);
    assert forall|t: int| 0 <= t < op.len() implies encoded_image(h, px, reference)[14 + b.len()
        + f.len() + t] == op[t] by {
        lemma_image_index(h, px, reference, i + 1, b.len() + f.len() + t);
        assert((b + b2)[b.len() + f.len() + t] == op[t]);
    }
    lemma_image_index(h, px, reference, i + 1, b.len() + f.len() as int);
}

proof fn lemma_dec_new(bb: Seq<u8>, ch4: bool, d: DecState, c: Pixel, ix: Seq<Pixel>, prev: Pixel)
    requires
        d.run == 0,
        0 <= d.pos,
        d.index == ix,
        d.prev == prev,
        ix.len() == 64,
        d.pos + new_op(ix, prev, c).len() + 8 <= bb.len(),
        forall|t: int|
            0 <= t < new_op(ix, prev, c).len()
                ==> bb[d.pos + t] == new_op(ix, prev, c)[t],
        !ch4 ==> c.a == 0xff && prev.a == 0xff,
    ensures
        dec_step(bb, d, ch4) == Some(
            DecState {
                pos: d.pos + new_op(ix, prev, c).len(),
                prev: c,
                index: if ix[hash_of(c) as int] == c {
                    ix
                } else {
                    ix.update(hash_of(c) as int, c)
                },
                run: 0,
                out: d.out.push(c),
            },
        ),
{
    if ix[hash_of(c) as int] == c {
        assert(new_op(ix, prev, c)[0] == hash_of(c));
        assert(bb[d.pos + 0] == new_op(ix, prev, c)[0]);
    } else {
        lemma_dec_pixel_op(bb, ch4, d, c);
    }
}

/// After a pixel `c` that differs from the previous one, the decoder has
/// emitted every pixel up to and including `c`.
#[verifier::rlimit(100)]
proof fn lemma_new_dec(h: Header, px: Seq<Pixel>, reference: bool, i: nat)
    requires
        sim_pre(h, px),
        sim_inv(h, px, reference, i),
        i < px.len(),
        px[i as int] != enc_fold(px, reference, i).0.prev,
    ensures
        ({
            let s = enc_fold(px, reference, i).0;
            let c = px[i as int];
            let b2 = enc_fold(px, reference, i).1 + run_flush(s, reference) + new_op(s.index, s.prev, c);
            dec_fold(encoded_image(h, px, reference), h.channels == Channels::Rgba, i + 1) == Some(
                DecState {
                    pos: 14 + b2.len() as int,
                    prev: c,
                    index: if s.index[hash_of(c) as int] == c {
                        s.index
                    } else {
                        s.index.update(hash_of(c) as int, c)
                    },
                    run: 0,
                    out: px.subrange(0, i + 1 as int),
                },
            )
        }),
{
    let ch4 = h.channels == Channels::Rgba;
    let bb = encoded_image(h, px, reference);
    let s = enc_fold(px, reference, i).0;
    let c = px[i as int];
    assert(!ch4 ==> c.a == 0xff);
    lemma_flush(h, px, reference, i);
    lemma_op_bytes(h, px, reference, i);
    let d = dec_fold(bb, ch4, i)->Some_0;
    assert(dec_fold(bb, ch4, i + 1) == dec_step(bb, d, ch4));
    lemma_dec_new(bb, ch4, d, c, s.index, s.prev);
    assert(px.subrange(0, i as int).push(c) =~= px.subrange(0, i + 1 as int));
}

proof fn lemma_enc_new(px: Seq<Pixel>, reference: bool, i: nat)
    requires
        i < px.len(),
        px[i as int] != enc_fold(px, reference, i).0.prev,
    ensures
        ({
            let s = enc_fold(px, reference, i).0;
            let c = px[i as int];
            enc_fold(px, reference, i + 1).0 == crate::encode::EncState {
                prev: c,
                index: if s.index[hash_of(c) as int] == c {
                    s.index
                } else {
                    s.index.update(hash_of(c) as int, c)
                },
                run: 0,
                index_allowed: true,
            }
        }),
{
    let s = enc_fold(px, reference, i).0;
    let (s2, b2) = enc_step(s, px[i as int], i + 1 == px.len(), reference);
    assert(enc_fold(px, reference, i + 1).0 == s2);
}

#[verifier::rlimit(50)]
proof fn lemma_step_new(h: Header, px: Seq<Pixel>, reference: bool, i: nat)
    requires
        sim_pre(h, px),
        sim_inv(h, px, reference, i),
        i < px.len(),
        px[i as int] != enc_fold(px, reference, i).0.prev,
    ensures
        sim_inv(h, px, reference, i + 1),
{
    let ch4 = h.channels == Channels::Rgba;
    assert(!ch4 ==> px[i as int].a == 0xff);
    lemma_new_dec(h, px, reference, i);
    lemma_enc_new(px, reference, i);
    lemma_op_bytes(h, px, reference, i);
}

#[verifier::rlimit(100)]
proof fn lemma_step_same(h: Header, px: Seq<Pixel>, reference: bool, i: nat)
    requires
        sim_pre(h, px),
        sim_inv(h, px, reference, i),
        i < px.len(),
        px[i as int] == enc_fold(px, reference, i).0.prev,
    ensures
        sim_inv(h, px, reference, i + 1),
{
    let ch4 = h.channels == Channels::Rgba;
    let bb = encoded_image(h, px, reference);
    let s = enc_fold(px, reference, i).0;
    let b = enc_fold(px, reference, i).1;
    let k = (i - s.run) as nat;
    let c = px[i as int];
    let last = i + 1 == px.len();
    let (s2, b2) = enc_step(s, c, last, reference);
    assert(enc_fold(px, reference, i + 1) == (s2, b + b2));
    if s.run + 1 == 62 || last {
        lemma_image_index(h, px, reference, i + 1, b.len() as int);
        assert((b + b2)[b.len() as int] == b2[0]);
        lemma_read_run(bb, ch4, k, s.run);
        assert(px.subrange(0, k as int) + Seq::new(s.run + 1, |_j: int| s.prev) =~= px.subrange(
            0,
            i + 1 as int,
        ));
    }
}

proof fn lemma_sim_step(h: Header, px: Seq<Pixel>, reference: bool, i: nat)
    requires
        sim_pre(h, px),
        sim_inv(h, px, reference, i),
        i < px.len(),
    ensures
        sim_inv(h, px, reference, i + 1),
{
    if px[i as int] == enc_fold(px, reference, i).0.prev {
        lemma_step_same(h, px, reference, i);
    } else {
        lemma_step_new(h, px, reference, i);
    }
}

proof fn lemma_sim(h: Header, px: Seq<Pixel>, reference: bool, i: nat)
    requires
        sim_pre(h, px),
        i <= px.len(),
    ensures
        sim_inv(h, px, reference, i),
    decreases i,
{
    if i == 0 {
        assert(px.subrange(0, 0) =~= Seq::<Pixel>::empty());
        assert(dec_fold(encoded_image(h, px, reference), h.channels == Channels::Rgba, 0)
            == Some(crate::decode::dec_init()));
    } else {
        lemma_sim(h, px, reference, (i - 1) as nat);
        lemma_sim_step(h, px, reference, (i - 1) as nat);
    }
}

proof fn lemma_last_run(px: Seq<Pixel>, reference: bool)
    requires
        px.len() >= 1,
    ensures
        enc_fold(px, reference, px.len()).0.run == 0,
{
    let n = px.len();
    let s = enc_fold(px, reference, (n - 1) as nat).0;
    let b = enc_fold(px, reference, (n - 1) as nat).1;
    let (s2, b2) = enc_step(s, px[n - 1], true, reference);
    assert(enc_fold(px, reference, n) == (s2, b + b2));
}

/// Decoding the encoding of a valid image gives its pixels back, in either
/// encoder mode. In a three-channel image every pixel must be opaque, as
/// every pixel read from a layout without alpha is.
#[verifier::rlimit(50)]
pub proof fn lemma_decode_encoded(h: Header, px: Seq<Pixel>, reference: bool)
    requires
        h.valid(),
        px.len() == h.spec_n_pixels(),
        h.channels == Channels::Rgb ==> all_opaque(px),
    ensures
        spec_decode_header(encoded_image(h, px, reference)) == Ok::<Header, crate::error::Error>(h),
        spec_decode_body(encoded_image(h, px, reference), h) == Ok::<Seq<Pixel>, crate::error::Error>(px),
{
    let n = px.len();
    let bb = encoded_image(h, px, reference);
    lemma_header_round_trip(h, encode_pixels(px, reference) + padding());
    assert(bb =~= h.spec_bytes() + (encode_pixels(px, reference) + padding()));
    lemma_sim(h, px, reference, n);
    let s = enc_fold(px, reference, n).0;
    let e = encode_pixels(px, reference);
    assert(n >= 1) by (nonlinear_arith)
        requires
            n == h.width * h.height,
            h.width >= 1,
            h.height >= 1,
    ;
    lemma_last_run(px, reference);
    assert(px.subrange(0, n as int) =~= px);
    assert(h.spec_bytes().len() == 14);
    assert(bb.subrange(14 + e.len() as int, 14 + e.len() + 8 as int) =~= padding());
}

#[verifier::rlimit(50)]
pub(crate) proof fn lemma_flatten4(ps: Seq<Pixel>)
    ensures
        flatten(ps, true).len() == 4 * ps.len(),
        forall|j: int|
            0 <= j < ps.len() ==> {
                let f = flatten(ps, true);
                &&& f[4 * j] == (#[trigger] ps[j]).r
                &&& f[4 * j + 1] == ps[j].g
                &&& f[4 * j + 2] == ps[j].b
                &&& f[4 * j + 3] == ps[j].a
            },
    decreases ps.len(),
{
    if ps.len() > 0 {
        let q = ps.drop_last();
        lemma_flatten4(q);
        let f = flatten(ps, true);
        let fq = flatten(q, true);
        assert(f == fq + px_bytes(ps.last(), true));
        assert forall|j: int| 0 <= j < ps.len() implies f[4 * j] == (#[trigger] ps[j]).r && f[4 * j
            + 1] == ps[j].g && f[4 * j + 2] == ps[j].b && f[4 * j + 3] == ps[j].a by {
            if j < q.len() {
                assert(q[j] == ps[j]);
                assert(fq[4 * j] == q[j].r && fq[4 * j + 3] == q[j].a);
                assert(f[4 * j] == fq[4 * j]);
                assert(f[4 * j + 1] == fq[4 * j + 1]);
                assert(f[4 * j + 2] == fq[4 * j + 2]);
                assert(f[4 * j + 3] == fq[4 * j + 3]);
                assert(fq[4 * j + 3] == q[j].a);
            } else {
                assert(j == q.len());
                let l = px_bytes(ps.last(), true);
                assert(f[4 * j] == l[0]);
                assert(f[4 * j + 1] == l[1]);
                assert(f[4 * j + 2] == l[2]);
                assert(f[4 * j + 3] == l[3]);
            }
        }
    } else {
        assert(ps.len() == 0);
    }
}

pub(crate) proof fn lemma_flatten3(ps: Seq<Pixel>)
    ensures
        flatten(ps, false).len() == 3 * ps.len(),
        forall|j: int|
            0 <= j < ps.len() ==> {
                let f = flatten(ps, false);
                &&& f[3 * j] == (#[trigger] ps[j]).r
                &&& f[3 * j + 1] == ps[j].g
                &&& f[3 * j + 2] == ps[j].b
            },
    decreases ps.len(),
{
    if ps.len() > 0 {
        let q = ps.drop_last();
        lemma_flatten3(q);
        let f = flatten(ps, false);
        let fq = flatten(q, false);
        assert(f == fq + px_bytes(ps.last(), false));
        assert forall|j: int| 0 <= j < ps.len() implies {
            &&& f[3 * j] == (#[trigger] ps[j]).r
            &&& f[3 * j + 1] == ps[j].g
            &&& f[3 * j + 2] == ps[j].b
        } by {
            if j < q.len() {
                assert(q[j] == ps[j]);
                assert(fq[3 * j] == q[j].r);
                assert(f[3 * j] == fq[3 * j]);
                assert(f[3 * j + 1] == fq[3 * j + 1]);
                assert(f[3 * j + 2] == fq[3 * j + 2]);
            } else {
                assert(j == q.len());
            }
        }
    }
}

/// The pixels that `Encoder::new` reads, written back at the same channel
/// count, are the data it was given.
#[verifier::rlimit(50)]
proof fn lemma_new_pixels(data: Seq<u8>, width: u32, height: u32, ch: Channels)
    requires
        new_outcome(data.len(), width, height) == Ok::<Channels, crate::error::Error>(ch),
    ensures
        flatten(new_pixels(data, width, height, ch), ch == Channels::Rgba) == data,
        ch == Channels::Rgb ==> all_opaque(new_pixels(data, width, height, ch)),
        new_pixels(data, width, height, ch).len() == width * height,
{
    let ch4 = ch == Channels::Rgba;
    let c: int = if ch4 { 4 } else { 3 };
    let w = width as int;
    let px = new_pixels(data, width, height, ch);
    lemma_dims(width, height);
    if ch4 {
        lemma_flatten4(px);
    } else {
        lemma_flatten3(px);
    }
    let f = flatten(px, ch4);
    assert(data.len() == (width * height) * c);
    let layout = if ch4 {
        crate::types::RawChannels::Rgba
    } else {
        crate::types::RawChannels::Rgb
    };
    assert forall|i: int| 0 <= i < px.len() implies #[trigger] px[i] == crate::encode::read_px(
        layout,
        data,
        c * i,
    ) by {
        let stride = (width * ch.spec_count()) as nat;
        assert(stride == w * c);
        assert(layout.spec_bytes_per_pixel() == c);
        let off = crate::encode::px_offset(layout, width as nat, stride, i);
        assert(off == (i / w) * (w * c) + (i % w) * c);
        assert((i / w) * (w * c) + (i % w) * c == c * ((i / w) * w + i % w)) by (nonlinear_arith);
        vstd::arithmetic::div_mod::lemma_fundamental_div_mod(i, w);
        assert(off == c * i);
    }
    assert forall|k: int| 0 <= k < data.len() implies f[k] == data[k] by {
        if ch4 {
            let j = k / 4;
            assert(0 <= j < px.len());
            assert(px[j] == crate::encode::read_px(layout, data, 4 * j));
            assert(f[4 * j] == px[j].r);
        } else {
            let j = k / 3;
            assert(0 <= j < px.len());
            assert(px[j] == crate::encode::read_px(layout, data, 3 * j));
            assert(f[3 * j] == px[j].r);
        }
    }
    assert(f =~= data);
    if !ch4 {
        assert forall|i: int| 0 <= i < px.len() implies #[trigger] px[i].a == 0xff by {}
    }
}

/// Round trip: decoding what `encode_to_vec` gives for `data` returns the
/// header it wrote and `data` itself, whichever way runs of one are written.
pub proof fn law_round_trip(data: Seq<u8>, width: u32, height: u32, reference: bool)
    requires
        new_outcome(data.len(), width, height) is Ok,
    ensures
        ({
            let ch = new_outcome(data.len(), width, height)->Ok_0;
            let h = Header { width, height, channels: ch, colorspace: ColorSpace::Srgb };
            spec_decode(encoded_image(h, new_pixels(data, width, height, ch), reference)) == Ok::<
                (Header, Seq<u8>),
                crate::error::Error,
            >((h, data))
        }),
{
    let ch = new_outcome(data.len(), width, height)->Ok_0;
    let h = Header { width, height, channels: ch, colorspace: ColorSpace::Srgb };
    lemma_new_pixels(data, width, height, ch);
    lemma_decode_encoded(h, new_pixels(data, width, height, ch), reference);
}

/// The header that decoding reads from an encoded image is the one that the
/// encoder wrote.
pub proof fn law_header_read_back(data: Seq<u8>, width: u32, height: u32, reference: bool)
    requires
        new_outcome(data.len(), width, height) is Ok,
    ensures
        ({
            let ch = new_outcome(data.len(), width, height)->Ok_0;
            let h = Header { width, height, channels: ch, colorspace: ColorSpace::Srgb };
            spec_decode_header(encoded_image(h, new_pixels(data, width, height, ch), reference))
                == Ok::<Header, crate::error::Error>(h)
        }),
{
    let ch = new_outcome(data.len(), width, height)->Ok_0;
    let h = Header { width, height, channels: ch, colorspace: ColorSpace::Srgb };
    lemma_header_round_trip(h, encode_pixels(new_pixels(data, width, height, ch), reference) + padding());
    assert(encoded_image(h, new_pixels(data, width, height, ch), reference) =~= h.spec_bytes() + (
    encode_pixels(new_pixels(data, width, height, ch), reference) + padding()));
}

/// Any well-formed encoder, whatever its layout, stride or colour space:
/// decoding its output gives back its header and the pixels it read, in
/// row-major order.
pub proof fn law_encoder_round_trip(enc: &Encoder)
    requires
        enc.wf(),
    ensures
        spec_decode_header(enc.spec_encoded()) == Ok::<Header, crate::error::Error>(enc.spec_header()),
        spec_decode_body(enc.spec_encoded(), enc.spec_header()) == Ok::<
            Seq<Pixel>,
            crate::error::Error,
        >(enc.spec_pixels()),
{
    enc.lemma_pixels();
    lemma_decode_encoded(enc.spec_header(), enc.spec_pixels(), enc.spec_reference());
}

/// An encoded image never exceeds `encode_max_len` for its dimensions and
/// channel count.
pub proof fn law_encoded_len(data: Seq<u8>, width: u32, height: u32, reference: bool)
    requires
        new_outcome(data.len(), width, height) is Ok,
    ensures
        ({
            let ch = new_outcome(data.len(), width, height)->Ok_0;
            let h = Header { width, height, channels: ch, colorspace: ColorSpace::Srgb };
            encoded_image(h, new_pixels(data, width, height, ch), reference).len() <= max_len(
                width,
                height,
                ch.spec_count(),
            )
        }),
{
    let ch = new_outcome(data.len(), width, height)->Ok_0;
    let h = Header { width, height, channels: ch, colorspace: ColorSpace::Srgb };
    let px = new_pixels(data, width, height, ch);
    let c = ch.spec_count() as nat;
    lemma_new_pixels(data, width, height, ch);
    lemma_stream_len(px, reference, c, px.len());
    assert(px.len() * (c + 1) <= 5 * QOI_PIXELS_MAX) by (nonlinear_arith)
        requires
            px.len() <= QOI_PIXELS_MAX,
            c <= 4,
    ;
    assert(h.spec_bytes().len() == 14);
}

/// The header bytes `qoif`, width and height each under 2^16 as big-endian
/// u32, channels `c` and colour space 0.
pub open spec fn synth_header(w: u32, h: u32, c: u8) -> Seq<u8> {
    seq![
        0x71u8,
        0x6fu8,
        0x69u8,
        0x66u8,
        0u8,
        0u8,
        (w >> 8u32) as u8,
        (w & 0xffu32) as u8,
        0u8,
        0u8,
        (h >> 8u32) as u8,
        (h & 0xffu32) as u8,
        c,
        0u8,
    ]
}

/// For any width and height in `1..=260`, channels 3 or 4 and any bytes after
/// the header: the header reads back as built, and a decoding that succeeds
/// yields exactly `width * height * channels` bytes.
#[verifier::rlimit(50)]
pub proof fn law_decode_synthesized(w: u32, h: u32, c: u8, body: Seq<u8>)
    requires
        1 <= w <= 260,
        1 <= h <= 260,
        c == 3 || c == 4,
    ensures
        ({
            let b = synth_header(w, h, c) + body + padding();
            let hd = Header {
                width: w,
                height: h,
                channels: if c == 3 { Channels::Rgb } else { Channels::Rgba },
                colorspace: ColorSpace::Srgb,
            };
            &&& spec_decode_header(b) == Ok::<Header, crate::error::Error>(hd)
            &&& spec_decode(b) is Ok ==> spec_decode(b)->Ok_0.1.len() == w * h * c
        }),
{
    let b = synth_header(w, h, c) + body + padding();
    let hd = Header {
        width: w,
        height: h,
        channels: if c == 3 { Channels::Rgb } else { Channels::Rgba },
        colorspace: ColorSpace::Srgb,
    };
    assert(from_be32(0, 0, (w >> 8u32) as u8, (w & 0xffu32) as u8) == w) by (bit_vector)
        requires
            w <= 260,
    ;
    assert(from_be32(0, 0, (h >> 8u32) as u8, (h & 0xffu32) as u8) == h) by (bit_vector)
        requires
            h <= 260,
    ;
    assert(from_be32(0x71, 0x6f, 0x69, 0x66) == 0x716f6966) by (bit_vector);
    assert(w * h <= 260 * 260) by (nonlinear_arith)
        requires
            w <= 260,
            h <= 260,
    ;
    assert(spec_decode_header(b) == Ok::<Header, crate::error::Error>(hd));
    let ch4 = c == 4;
    if spec_decode(b) is Ok {
        let s = dec_fold(b, ch4, hd.spec_n_pixels())->Some_0;
        crate::decode::lemma_fold_len(b, ch4, hd.spec_n_pixels());
        if ch4 {
            lemma_flatten4(s.out);
        } else {
            lemma_flatten3(s.out);
        }
    }
}

} // verus!
