use vstd::prelude::*;

use crate::consts::{QOI_OP_DIFF, QOI_OP_LUMA, QOI_OP_RGB, QOI_OP_RGBA};

verus! {

/// Addition modulo 256.
pub open spec fn wadd(x: u8, y: u8) -> u8 {
    vstd::wrapping::u8_specs::wrapping_add(x, y)
}

/// Subtraction modulo 256.
pub open spec fn wsub(x: u8, y: u8) -> u8 {
    vstd::wrapping::u8_specs::wrapping_sub(x, y)
}

/// A pixel in its four-channel view. Three-channel images keep `a` at 0xff.
#[derive(Debug, Clone, Copy, PartialEq, Eq, Structural)]
pub struct Pixel {
    pub r: u8,
    pub g: u8,
    pub b: u8,
    pub a: u8,
}

/// Slot of the running index that a pixel is stored in.
pub open spec fn hash_of(p: Pixel) -> u8 {
    ((p.r as int * 3 + p.g as int * 5 + p.b as int * 7 + p.a as int * 11) % 64) as u8
}

/// Whether each of the red, green and blue deltas lies in `-2..=1`.
pub open spec fn diff_fits(c: Pixel, p: Pixel) -> bool {
    &&& wadd(wsub(c.r, p.r), 2) < 4
    &&& wadd(wsub(c.g, p.g), 2) < 4
    &&& wadd(wsub(c.b, p.b), 2) < 4
}

/// Whether the green delta lies in `-32..=31` and the red and blue deltas,
/// taken relative to green, in `-8..=7`.
pub open spec fn luma_fits(c: Pixel, p: Pixel) -> bool {
    let vg = wsub(c.g, p.g);
    &&& wadd(vg, 32) < 64
    &&& wadd(wsub(wsub(c.r, p.r), vg), 8) < 16
    &&& wadd(wsub(wsub(c.b, p.b), vg), 8) < 16
}

/// The opcode bytes that encode pixel `c` after pixel `p`, when neither a run
/// nor an index hit applies.
pub open spec fn pixel_op(c: Pixel, p: Pixel) -> Seq<u8> {
    if c.a != p.a {
        seq![0xffu8, c.r, c.g, c.b, c.a]
    } else if diff_fits(c, p) {
        let x = wadd(wsub(c.r, p.r), 2);
        let y = wadd(wsub(c.g, p.g), 2);
        let z = wadd(wsub(c.b, p.b), 2);
        seq![(64 + x * 16 + y * 4 + z) as u8]
    } else if luma_fits(c, p) {
        let vg = wsub(c.g, p.g);
        let vr = wadd(wsub(wsub(c.r, p.r), vg), 8);
        let vb = wadd(wsub(wsub(c.b, p.b), vg), 8);
        seq![(128 + wadd(vg, 32)) as u8, (vr * 16 + vb) as u8]
    } else {
        seq![0xfeu8, c.r, c.g, c.b]
    }
}

/// The pixel that an `OP_DIFF` byte `op` gives after pixel `p`.
pub open spec fn apply_diff(p: Pixel, op: u8) -> Pixel {
    let v = (op - 64) as u8;
    Pixel {
        r: wsub(wadd(p.r, v / 16), 2),
        g: wsub(wadd(p.g, (v / 4) % 4), 2),
        b: wsub(wadd(p.b, v % 4), 2),
        a: p.a,
    }
}

/// The pixel that an `OP_LUMA` pair `op`, `arg` gives after pixel `p`.
pub open spec fn apply_luma(p: Pixel, op: u8, arg: u8) -> Pixel {
    let vg = wsub((op - 128) as u8, 32);
    Pixel {
        r: wadd(p.r, wadd(wsub(arg / 16, 8), vg)),
        g: wadd(p.g, vg),
        b: wadd(p.b, wadd(wsub(arg % 16, 8), vg)),
        a: p.a,
    }
}

impl Pixel {
    /// The pixel all of whose channels are zero.
    pub fn zero() -> (r: Pixel)
        ensures
            r == (Pixel { r: 0, g: 0, b: 0, a: 0 }),
    {
        Pixel { r: 0, g: 0, b: 0, a: 0 }
    }

    /// Slot of the running index for this pixel: `(3r + 5g + 7b + 11a) mod 64`.
    pub fn hash_index(&self) -> (h: u8)
        ensures
            h == hash_of(*self),
            h < 64,
    {
        ((self.r as u32 * 3 + self.g as u32 * 5 + self.b as u32 * 7 + self.a as u32 * 11) % 64) as u8
    }

    /// Appends to `out` the opcode bytes that encode `self` after `prev`.
    #[verifier::rlimit(30)]
    pub fn encode_into(&self, prev: Pixel, out: &mut Vec<u8>)
        ensures
            final(out)@ == old(out)@ + pixel_op(*self, prev),
    {
        let c = *self;
        if c.a != prev.a {
            out.push(QOI_OP_RGBA);
            out.push(c.r);
            out.push(c.g);
            out.push(c.b);
            out.push(c.a);
            return;
        }
        let dr = c.r.wrapping_sub(prev.r);
        let dg = c.g.wrapping_sub(prev.g);
        let db = c.b.wrapping_sub(prev.b);
        let x = dr.wrapping_add(2);
        let y = dg.wrapping_add(2);
        let z = db.wrapping_add(2);
        if x < 4 && y < 4 && z < 4 {
            out.push(QOI_OP_DIFF + x * 16 + y * 4 + z);
            return;
        }
        let vg32 = dg.wrapping_add(32);
        let vr = dr.wrapping_sub(dg).wrapping_add(8);
        let vb = db.wrapping_sub(dg).wrapping_add(8);
        if vg32 < 64 && vr < 16 && vb < 16 {
            out.push(QOI_OP_LUMA + vg32);
            out.push(vr * 16 + vb);
            return;
        }
        out.push(QOI_OP_RGB);
        out.push(c.r);
        out.push(c.g);
        out.push(c.b);
    }

    /// Applies an `OP_DIFF` byte to `self`.
    pub fn diff(&self, op: u8) -> (r: Pixel)
        requires
            64 <= op < 128,
        ensures
            r == apply_diff(*self, op),
    {
        let v = op - 64;
        Pixel {
            r: self.r.wrapping_add(v / 16).wrapping_sub(2),
            g: self.g.wrapping_add((v / 4) % 4).wrapping_sub(2),
            b: self.b.wrapping_add(v % 4).wrapping_sub(2),
            a: self.a,
        }
    }

    /// Applies an `OP_LUMA` pair to `self`.
    pub fn luma(&self, op: u8, arg: u8) -> (r: Pixel)
        requires
            128 <= op < 192,
        ensures
            r == apply_luma(*self, op, arg),
    {
        let vg = (op - 128).wrapping_sub(32);
        Pixel {
            r: self.r.wrapping_add((arg / 16).wrapping_sub(8).wrapping_add(vg)),
            g: self.g.wrapping_add(vg),
            b: self.b.wrapping_add((arg % 16).wrapping_sub(8).wrapping_add(vg)),
            a: self.a,
        }
    }
}

proof fn lemma_diff_channel(c: u8, p: u8)
    requires
        wadd(wsub(c, p), 2) < 4,
    ensures
        wsub(wadd(p, wadd(wsub(c, p), 2)), 2) == c,
{
}

proof fn lemma_luma_channel(c: u8, p: u8, vg: u8)
    ensures
        wadd(p, wadd(wsub(wadd(wsub(wsub(c, p), vg), 8), 8), vg)) == c,
{
}

/// Decoding the bytes chosen for `c` after `p` gives back `c`, for the
/// one-byte and two-byte delta forms.
#[verifier::rlimit(30)]
pub proof fn lemma_pixel_op_inverts(c: Pixel, p: Pixel)
    requires
        c.a == p.a,
    ensures
        diff_fits(c, p) ==> {
            let op = pixel_op(c, p)[0];
            &&& 64 <= op < 128
            &&& apply_diff(p, op) == c
        },
        !diff_fits(c, p) && luma_fits(c, p) ==> {
            let op = pixel_op(c, p)[0];
            &&& 128 <= op < 192
            &&& apply_luma(p, op, pixel_op(c, p)[1]) == c
        },
{
    if diff_fits(c, p) {
        let x = wadd(wsub(c.r, p.r), 2);
        let y = wadd(wsub(c.g, p.g), 2);
        let z = wadd(wsub(c.b, p.b), 2);
        let op = (64 + x * 16 + y * 4 + z) as u8;
        assert(64 + x * 16 + y * 4 + z < 128) by (nonlinear_arith)
            requires x < 4, y < 4, z < 4;
        let v = (op - 64) as u8;
        assert(v / 16 == x && (v / 4) % 4 == y && v % 4 == z) by (bit_vector)
            requires x < 4, y < 4, z < 4, v == x * 16 + y * 4 + z;
        lemma_diff_channel(c.r, p.r);
        lemma_diff_channel(c.g, p.g);
        lemma_diff_channel(c.b, p.b);
    } else if luma_fits(c, p) {
        let vg = wsub(c.g, p.g);
        let vr = wadd(wsub(wsub(c.r, p.r), vg), 8);
        let vb = wadd(wsub(wsub(c.b, p.b), vg), 8);
        let arg = (vr * 16 + vb) as u8;
        assert(vr * 16 + vb < 256) by (nonlinear_arith)
            requires vr < 16, vb < 16;
        assert(arg / 16 == vr && arg % 16 == vb) by (bit_vector)
            requires vr < 16, vb < 16, arg == vr * 16 + vb;
        lemma_luma_channel(c.r, p.r, vg);
        lemma_luma_channel(c.b, p.b, vg);
    }
}

} // verus!
