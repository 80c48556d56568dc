use vstd::prelude::*;

use crate::consts::{padding, QOI_OP_RUN, QOI_PIXELS_MAX};
use crate::error::{Error, Result};
use crate::header::{dims_error, dims_ok, lemma_dims, max_len, Header};
use crate::pixel::{hash_of, pixel_op, Pixel};
use crate::types::{Channels, ColorSpace, RawChannels};

verus! {

/// The pixel that `layout` stores at byte offset `k` of `d`. Layouts without
/// alpha give `a == 0xff`.
pub open spec fn read_px(layout: RawChannels, d: Seq<u8>, k: int) -> Pixel {
    match layout {
        RawChannels::Rgb => Pixel { r: d[k], g: d[k + 1], b: d[k + 2], a: 0xff },
        RawChannels::Bgr => Pixel { r: d[k + 2], g: d[k + 1], b: d[k], a: 0xff },
        RawChannels::Rgba => Pixel { r: d[k], g: d[k + 1], b: d[k + 2], a: d[k + 3] },
        RawChannels::Argb => Pixel { r: d[k + 1], g: d[k + 2], b: d[k + 3], a: d[k] },
        RawChannels::Rgbx => Pixel { r: d[k], g: d[k + 1], b: d[k + 2], a: 0xff },
        RawChannels::Xrgb => Pixel { r: d[k + 1], g: d[k + 2], b: d[k + 3], a: 0xff },
        RawChannels::Bgra => Pixel { r: d[k + 2], g: d[k + 1], b: d[k], a: d[k + 3] },
        RawChannels::Abgr => Pixel { r: d[k + 3], g: d[k + 2], b: d[k + 1], a: d[k] },
        RawChannels::Bgrx => Pixel { r: d[k + 2], g: d[k + 1], b: d[k], a: 0xff },
        RawChannels::Xbgr => Pixel { r: d[k + 3], g: d[k + 2], b: d[k + 1], a: 0xff },
    }
}

/// Byte offset of pixel `i` in a row-major image with the given row stride.
pub open spec fn px_offset(layout: RawChannels, width: nat, stride: nat, i: int) -> int {
    (i / width as int) * stride + (i % width as int) * layout.spec_bytes_per_pixel()
}

/// The pixels of a `width` x `height` image laid out in `d`, in row-major order.
pub open spec fn raw_pixels(
    d: Seq<u8>,
    layout: RawChannels,
    width: nat,
    height: nat,
    stride: nat,
) -> Seq<Pixel> {
    Seq::new(width * height, |i: int| read_px(layout, d, px_offset(layout, width, stride, i)))
}

/// Running state of the encoder.
pub struct EncState {
    pub prev: Pixel,
    pub index: Seq<Pixel>,
    pub run: nat,
    pub index_allowed: bool,
}

pub open spec fn start_pixel() -> Pixel {
    Pixel { r: 0, g: 0, b: 0, a: 0xff }
}

pub open spec fn zero_index() -> Seq<Pixel> {
    Seq::new(64, |i: int| Pixel { r: 0, g: 0, b: 0, a: 0 })
}

pub open spec fn enc_init() -> EncState {
    EncState { prev: start_pixel(), index: zero_index(), run: 0, index_allowed: false }
}

/// The byte that closes a pending run of `run` pixels equal to `prev`.
pub open spec fn run_flush(s: EncState, reference: bool) -> Seq<u8> {
    if s.run == 0 {
        seq![]
    } else if s.run == 1 && s.index_allowed && !reference {
        seq![hash_of(s.prev)]
    } else {
        seq![(0xc0 + s.run - 1) as u8]
    }
}

/// One encoder step on pixel `px`: the next state and the bytes emitted.
/// `last` tells whether `px` is the last pixel of the image.
pub open spec fn enc_step(s: EncState, px: Pixel, last: bool, reference: bool) -> (EncState, Seq<u8>) {
    if px == s.prev {
        if s.run + 1 == 62 || last {
            (EncState { run: 0, ..s }, seq![(0xc0 + s.run) as u8])
        } else {
            (EncState { run: s.run + 1, ..s }, seq![])
        }
    } else {
        let h = hash_of(px);
        let flush = run_flush(s, reference);
        if s.index[h as int] == px {
            (
                EncState { prev: px, index: s.index, run: 0, index_allowed: true },
                flush + seq![h],
            )
        } else {
            (
                EncState { prev: px, index: s.index.update(h as int, px), run: 0, index_allowed: true },
                flush + pixel_op(px, s.prev),
            )
        }
    }
}

/// State and bytes after the encoder has taken the first `i` pixels of `px`.
pub open spec fn enc_fold(px: Seq<Pixel>, reference: bool, i: nat) -> (EncState, Seq<u8>)
    decreases i,
{
    if i == 0 || i > px.len() {
        (enc_init(), seq![])
    } else {
        let (s, b) = enc_fold(px, reference, (i - 1) as nat);
        let (s2, b2) = enc_step(s, px[i - 1], i == px.len(), reference);
        (s2, b + b2)
    }
}

/// The opcode stream that encodes `px`, without header and padding.
pub open spec fn encode_pixels(px: Seq<Pixel>, reference: bool) -> Seq<u8> {
    enc_fold(px, reference, px.len()).1
}

struct RunState {
    prev: Pixel,
    index: Vec<Pixel>,
    run: u8,
    index_allowed: bool,
}

impl RunState {
    spec fn view(&self) -> EncState {
        EncState {
            prev: self.prev,
            index: self.index@,
            run: self.run as nat,
            index_allowed: self.index_allowed,
        }
    }

    spec fn wf(&self) -> bool {
        self.index.len() == 64 && self.run < 62
    }

    fn new() -> (r: RunState)
        ensures
            r.wf(),
            r.view() == enc_init(),
    {
        let mut index: Vec<Pixel> = Vec::new();
        let mut k: usize = 0;
        while k < 64
            invariant
                k <= 64,
                index@ == Seq::new(k as nat, |i: int| Pixel { r: 0, g: 0, b: 0, a: 0 }),
            decreases 64 - k,
        {
            index.push(Pixel::zero());
            k += 1;
        }
        assert(index@ =~= zero_index());
        let r = RunState { prev: Pixel { r: 0, g: 0, b: 0, a: 0xff }, index, run: 0, index_allowed: false };
        assert(r.view() =~= enc_init());
        r
    }

    #[verifier::rlimit(30)]
    fn step(&mut self, px: Pixel, last: bool, reference: bool, out: &mut Vec<u8>)
        requires
            old(self).wf(),
        ensures
            final(self).wf(),
            final(self).view() == enc_step(old(self).view(), px, last, reference).0,
            final(out)@ == old(out)@ + enc_step(old(self).view(), px, last, reference).1,
    {
        let ghost s = self.view();
        if px == self.prev {
            if self.run + 1 == 62 || last {
                out.push(QOI_OP_RUN + self.run);
                self.run = 0;
            } else {
                self.run = self.run + 1;
            }
            assert(self.view() =~= enc_step(s, px, last, reference).0);
        } else {
            let ghost out0 = out@;
            if self.run != 0 {
                if self.run == 1 && self.index_allowed && !reference {
                    out.push(self.prev.hash_index());
                } else {
                    out.push(QOI_OP_RUN + (self.run - 1));
                }
            }
            assert(out@ =~= out0 + run_flush(s, reference));
            self.run = 0;
            self.index_allowed = true;
            let h = px.hash_index();
            if self.index[h as usize] == px {
                out.push(h);
            } else {
                self.index.set(h as usize, px);
                px.encode_into(self.prev, out);
            }
            self.prev = px;
            assert(self.view() =~= enc_step(s, px, last, reference).0);
            assert(out@ =~= out0 + enc_step(s, px, last, reference).1);
        }
    }
}

fn read_pixel(data: &[u8], k: usize, layout: RawChannels) -> (p: Pixel)
    requires
        k + layout.spec_bytes_per_pixel() <= data@.len(),
    ensures
        p == read_px(layout, data@, k as int),
{
    let _len = data.len();
    match layout {
        RawChannels::Rgb => Pixel { r: data[k], g: data[k + 1], b: data[k + 2], a: 0xff },
        RawChannels::Bgr => Pixel { r: data[k + 2], g: data[k + 1], b: data[k], a: 0xff },
        RawChannels::Rgba => Pixel { r: data[k], g: data[k + 1], b: data[k + 2], a: data[k + 3] },
        RawChannels::Argb => Pixel { r: data[k + 1], g: data[k + 2], b: data[k + 3], a: data[k] },
        RawChannels::Rgbx => Pixel { r: data[k], g: data[k + 1], b: data[k + 2], a: 0xff },
        RawChannels::Xrgb => Pixel { r: data[k + 1], g: data[k + 2], b: data[k + 3], a: 0xff },
        RawChannels::Bgra => Pixel { r: data[k + 2], g: data[k + 1], b: data[k], a: data[k + 3] },
        RawChannels::Abgr => Pixel { r: data[k + 3], g: data[k + 2], b: data[k + 1], a: data[k] },
        RawChannels::Bgrx => Pixel { r: data[k + 2], g: data[k + 1], b: data[k], a: 0xff },
        RawChannels::Xbgr => Pixel { r: data[k + 3], g: data[k + 2], b: data[k + 1], a: 0xff },
    }
}

/// Whether `data` holds every pixel of a `width` x `height` image whose rows
/// start `stride` bytes apart.
pub open spec fn covers(
    data_len: nat,
    layout: RawChannels,
    width: nat,
    height: nat,
    stride: nat,
) -> bool {
    &&& width >= 1
    &&& height >= 1
    &&& width * height <= QOI_PIXELS_MAX
    &&& stride >= width * layout.spec_bytes_per_pixel()
    &&& (height - 1) * stride + width * layout.spec_bytes_per_pixel() <= data_len
}

/// Appends to `out` the opcode stream of the image in `data`, then the padding.
#[verifier::rlimit(30)]
fn encode_impl(
    data: &[u8],
    width: usize,
    height: usize,
    stride: usize,
    layout: RawChannels,
    reference: bool,
    out: &mut Vec<u8>,
)
    requires
        covers(data@.len(), layout, width as nat, height as nat, stride as nat),
    ensures
        final(out)@ == old(out)@ + encode_pixels(
            raw_pixels(data@, layout, width as nat, height as nat, stride as nat),
            reference,
        ) + padding(),
{
    let ghost px = raw_pixels(data@, layout, width as nat, height as nat, stride as nat);
    let ghost out0 = out@;
    let bpp = layout.bytes_per_pixel();
    let len = data.len();
    let n = width * height;
    let mut st = RunState::new();
    let mut i: usize = 0;
    let mut row: usize = 0;
    while row < height
        invariant
            covers(data@.len(), layout, width as nat, height as nat, stride as nat),
            px == raw_pixels(data@, layout, width as nat, height as nat, stride as nat),
            bpp == layout.spec_bytes_per_pixel(),
            n == width * height,
            len == data@.len(),
            px.len() == n,
            row <= height,
            i == row * width,
            st.wf(),
            st.view() == enc_fold(px, reference, i as nat).0,
            out@ == out0 + enc_fold(px, reference, i as nat).1,
        decreases height - row,
    {
        assert(row * stride <= (height - 1) * stride) by (nonlinear_arith)
            requires
                row < height,
        ;
        let base = row * stride;
        let mut col: usize = 0;
        while col < width
            invariant
                covers(data@.len(), layout, width as nat, height as nat, stride as nat),
                px == raw_pixels(data@, layout, width as nat, height as nat, stride as nat),
                bpp == layout.spec_bytes_per_pixel(),
                n == width * height,
                len == data@.len(),
                px.len() == n,
                row < height,
                base == row * stride,
                base <= (height - 1) * stride,
                col <= width,
                i == row * width + col,
                st.wf(),
                st.view() == enc_fold(px, reference, i as nat).0,
                out@ == out0 + enc_fold(px, reference, i as nat).1,
            decreases width - col,
        {
            assert((col + 1) * bpp <= width * bpp) by (nonlinear_arith)
                requires
                    col < width,
            ;
            assert(i < n) by (nonlinear_arith)
                requires
                    i == row * width + col,
                    row < height,
                    col < width,
                    n == width * height,
            ;
            let k = base + col * bpp;
            let p = read_pixel(data, k, layout);
            proof {
                vstd::arithmetic::div_mod::lemma_fundamental_div_mod_converse(
                    i as int,
                    width as int,
                    row as int,
                    col as int,
                );
                assert(p == px[i as int]);
            }
            st.step(p, i + 1 == n, reference, out);
            proof {
                assert(out@ =~= out0 + enc_fold(px, reference, (i + 1) as nat).1);
            }
            i += 1;
            col += 1;
        }
        assert(i == (row + 1) * width) by (nonlinear_arith)
            requires
                i == row * width + width,
        ;
        row += 1;
    }
    assert(i == n) by (nonlinear_arith)
        requires
            i == row * width,
            row == height,
            n == width * height,
    ;
    out.push(0);
    out.push(0);
    out.push(0);
    out.push(0);
    out.push(0);
    out.push(0);
    out.push(0);
    out.push(1);
    assert(out@ =~= out0 + encode_pixels(px, reference) + padding());
}

/// Every pixel of `px` is opaque.
pub open spec fn all_opaque(px: Seq<Pixel>) -> bool {
    forall|i: int| 0 <= i < px.len() ==> #[trigger] px[i].a == 0xff
}

#[verifier::rlimit(30)]
pub(crate) proof fn lemma_stream_len(px: Seq<Pixel>, reference: bool, ch: nat, i: nat)
    requires
        ch == 3 || ch == 4,
        ch == 3 ==> all_opaque(px),
        i <= px.len(),
    ensures
        ({
            let (s, b) = enc_fold(px, reference, i);
            &&& b.len() + (if s.run > 0 { 1int } else { 0 }) <= i * (ch + 1)
            &&& ch == 3 ==> s.prev.a == 0xff
        }),
    decreases i,
{
    if i > 0 {
        lemma_stream_len(px, reference, ch, (i - 1) as nat);
        assert((i - 1) * (ch + 1) + (ch + 1) == i * (ch + 1)) by (nonlinear_arith);
        let (s, b) = enc_fold(px, reference, (i - 1) as nat);
        assert(ch == 3 ==> px[i - 1].a == 0xff);
    }
}

/// A complete encoded image: header, opcode stream, padding.
pub open spec fn encoded_image(h: Header, px: Seq<Pixel>, reference: bool) -> Seq<u8> {
    h.spec_bytes() + encode_pixels(px, reference) + padding()
}

/// The channel count that `Encoder::new` infers from a data length.
pub open spec fn inferred_channels(size: nat, width: u32, height: u32) -> nat {
    size / (width * height) as nat
}

/// What `Encoder::new` decides for `size` bytes of data: `Ok` with the channel
/// count, or the error.
pub open spec fn new_outcome(size: nat, width: u32, height: u32) -> Result<Channels> {
    let ch = inferred_channels(size, width, height);
    if !dims_ok(width, height) {
        Err(dims_error(width, height))
    } else if (width * height) as nat * ch != size {
        Err(Error::InvalidImageLength { size: size as usize, width, height })
    } else if ch == 3 {
        Ok(Channels::Rgb)
    } else if ch == 4 {
        Ok(Channels::Rgba)
    } else {
        Err(Error::InvalidChannels { channels: if ch > 255 { 255u8 } else { ch as u8 } })
    }
}

/// Bytes needed, at the least, for the rows of a `new_raw` image.
pub open spec fn raw_needed(layout: RawChannels, width: u32, height: u32, stride: usize) -> int {
    (height - 1) * stride + width * layout.spec_bytes_per_pixel()
}

/// What `Encoder::new_raw` decides: `Ok(())` or the error.
pub open spec fn new_raw_outcome(
    size: nat,
    width: u32,
    height: u32,
    stride: usize,
    layout: RawChannels,
) -> Result<()> {
    if !dims_ok(width, height) {
        Err(dims_error(width, height))
    } else if stride < width * layout.spec_bytes_per_pixel() {
        Err(Error::InvalidStride { stride })
    } else if size < raw_needed(layout, width, height, stride) {
        Err(Error::InvalidImageLength { size: size as usize, width, height })
    } else {
        Ok(())
    }
}

/// The maximum number of bytes that an encoded image takes, saturated at
/// `usize::MAX`: `14 + width * height * (channels + 1) + 8`.
pub fn encode_max_len(width: u32, height: u32, channels: u8) -> (r: usize)
    ensures
        r == max_len(width, height, channels),
{
    assert(width * height <= u32::MAX * u32::MAX) by (nonlinear_arith)
        requires
            width <= u32::MAX,
            height <= u32::MAX,
    ;
    let wh: u128 = width as u128 * height as u128;
    assert(wh * (channels + 1) <= u32::MAX * u32::MAX * 256) by (nonlinear_arith)
        requires
            wh <= u32::MAX * u32::MAX,
            channels + 1 <= 256,
    ;
    let n: u128 = 14 + wh * (channels as u128 + 1) + 8;
    if n > usize::MAX as u128 {
        usize::MAX
    } else {
        n as usize
    }
}

/// Encodes RGB or RGBA data into `buf`; returns the number of bytes written.
pub fn encode_to_buf(buf: &mut [u8], data: &[u8], width: u32, height: u32) -> (r: Result<usize>)
    ensures
        match new_outcome(data@.len(), width, height) {
            Err(e) => r == Err::<usize, Error>(e),
            Ok(ch) => {
                let h = Header { width, height, channels: ch, colorspace: ColorSpace::Srgb };
                let img = encoded_image(h, new_pixels(data@, width, height, ch), false);
                if old(buf)@.len() < max_len(width, height, ch.spec_count()) {
                    &&& r == Err::<usize, Error>(
                        Error::OutputBufferTooSmall {
                            size: old(buf)@.len() as usize,
                            required: max_len(width, height, ch.spec_count()),
                        },
                    )
                    &&& final(buf)@ == old(buf)@
                } else {
                    &&& r == Ok::<usize, Error>(img.len() as usize)
                    &&& final(buf)@.len() == old(buf)@.len()
                    &&& final(buf)@.subrange(0, img.len() as int) == img
                }
            },
        },
{
    let enc = Encoder::new(data, width, height)?;
    enc.encode_to_buf(buf)
}

/// Encodes RGB or RGBA data into a new vector.
pub fn encode_to_vec(data: &[u8], width: u32, height: u32) -> (r: Result<Vec<u8>>)
    ensures
        match new_outcome(data@.len(), width, height) {
            Err(e) => r == Err::<Vec<u8>, Error>(e),
            Ok(ch) => {
                &&& r is Ok
                &&& r->Ok_0@ == encoded_image(
                    Header { width, height, channels: ch, colorspace: ColorSpace::Srgb },
                    new_pixels(data@, width, height, ch),
                    false,
                )
            },
        },
{
    let enc = Encoder::new(data, width, height)?;
    enc.encode_to_vec()
}

/// The pixels that `Encoder::new` reads from `data` at channel count `ch`.
pub open spec fn new_pixels(data: Seq<u8>, width: u32, height: u32, ch: Channels) -> Seq<Pixel> {
    let layout = if ch == Channels::Rgb {
        RawChannels::Rgb
    } else {
        RawChannels::Rgba
    };
    raw_pixels(data, layout, width as nat, height as nat, (width * ch.spec_count()) as nat)
}

/// Encodes images into buffers or vectors.
pub struct Encoder<'a> {
    data: &'a [u8],
    stride: usize,
    raw_channels: RawChannels,
    header: Header,
    reference: bool,
}

impl<'a> Encoder<'a> {
    /// The header that the encoded image will start with.
    pub closed spec fn spec_header(&self) -> Header {
        self.header
    }

    /// The pixels to encode, in row-major order.
    pub closed spec fn spec_pixels(&self) -> Seq<Pixel> {
        raw_pixels(
            self.data@,
            self.raw_channels,
            self.header.width as nat,
            self.header.height as nat,
            self.stride as nat,
        )
    }

    /// Whether runs of one are always written as runs, as the reference encoder does.
    pub closed spec fn spec_reference(&self) -> bool {
        self.reference
    }

    pub closed spec fn wf(&self) -> bool {
        &&& self.header.valid()
        &&& covers(
            self.data@.len(),
            self.raw_channels,
            self.header.width as nat,
            self.header.height as nat,
            self.stride as nat,
        )
        &&& self.header.channels == self.raw_channels.spec_channels()
    }

    /// A well-formed encoder has a valid header, one pixel per position, and
    /// only opaque pixels when it writes three channels.
    pub proof fn lemma_pixels(&self)
        requires
            self.wf(),
        ensures
            self.spec_header().valid(),
            self.spec_pixels().len() == self.spec_header().spec_n_pixels(),
            self.spec_header().channels == Channels::Rgb ==> all_opaque(self.spec_pixels()),
    {
        let px = self.spec_pixels();
        if self.header.channels == Channels::Rgb {
            assert forall|i: int| 0 <= i < px.len() implies #[trigger] px[i].a == 0xff by {}
        }
    }

    /// The complete encoded image.
    pub open spec fn spec_encoded(&self) -> Seq<u8> {
        encoded_image(self.spec_header(), self.spec_pixels(), self.spec_reference())
    }

    /// Creates an encoder for tightly packed RGB or RGBA data; the channel count
    /// is inferred from the data length. The colour space is sRGB.
    #[verifier::rlimit(30)]
    pub fn new(data: &'a [u8], width: u32, height: u32) -> (r: Result<Encoder<'a>>)
        ensures
            match new_outcome(data@.len(), width, height) {
                Err(e) => r == Err::<Encoder<'a>, Error>(e),
                Ok(ch) => {
                    &&& r is Ok
                    &&& r->Ok_0.wf()
                    &&& r->Ok_0.spec_header() == Header {
                        width,
                        height,
                        channels: ch,
                        colorspace: ColorSpace::Srgb,
                    }
                    &&& r->Ok_0.spec_pixels() == new_pixels(data@, width, height, ch)
                    &&& !r->Ok_0.spec_reference()
                },
            },
    {
        let header = Header::try_new(width, height, Channels::Rgb, ColorSpace::Srgb)?;
        proof {
            lemma_dims(width, height);
        }
        let size = data.len();
        let n = header.n_pixels();
        let n_channels = size / n;
        assert(n * n_channels <= size) by (nonlinear_arith)
            requires
                n_channels == size / n,
                n > 0,
        ;
        if n * n_channels != size {
            return Err(Error::InvalidImageLength { size, width, height });
        }
        let channels = if n_channels == 3 {
            Channels::Rgb
        } else if n_channels == 4 {
            Channels::Rgba
        } else {
            let c: u8 = if n_channels > 255 {
                255
            } else {
                n_channels as u8
            };
            return Err(Error::InvalidChannels { channels: c });
        };
        let raw_channels = RawChannels::from_channels(channels);
        let bpp = raw_channels.bytes_per_pixel();
        assert(width * bpp <= 4 * QOI_PIXELS_MAX) by (nonlinear_arith)
            requires
                width <= width * height <= QOI_PIXELS_MAX,
                bpp <= 4,
        ;
        let stride = width as usize * bpp;
        assert((height - 1) * stride + width * bpp == n * bpp) by (nonlinear_arith)
            requires
                stride == width * bpp,
                n == width * height,
        ;
        let header = Header { channels, ..header };
        Ok(Encoder { data, stride, raw_channels, header, reference: false })
    }

    /// Creates an encoder for pixels in any of the raw layouts, with rows that
    /// start `stride` bytes apart. Bytes past the last pixel are ignored.
    pub fn new_raw(
        data: &'a [u8],
        width: u32,
        height: u32,
        stride: usize,
        raw_channels: RawChannels,
    ) -> (r: Result<Encoder<'a>>)
        ensures
            match new_raw_outcome(data@.len(), width, height, stride, raw_channels) {
                Err(e) => r == Err::<Encoder<'a>, Error>(e),
                Ok(_) => {
                    &&& r is Ok
                    &&& r->Ok_0.wf()
                    &&& r->Ok_0.spec_header() == Header {
                        width,
                        height,
                        channels: raw_channels.spec_channels(),
                        colorspace: ColorSpace::Srgb,
                    }
                    &&& r->Ok_0.spec_pixels() == raw_pixels(
                        data@,
                        raw_channels,
                        width as nat,
                        height as nat,
                        stride as nat,
                    )
                    &&& !r->Ok_0.spec_reference()
                },
            },
    {
        let channels = raw_channels.channels();
        let header = Header::try_new(width, height, channels, ColorSpace::Srgb)?;
        proof {
            lemma_dims(width, height);
        }
        let bpp = raw_channels.bytes_per_pixel();
        let row_len = width as usize * bpp;
        if stride < row_len {
            return Err(Error::InvalidStride { stride });
        }
        let size = data.len();
        assert((height - 1) * stride <= u32::MAX * usize::MAX) by (nonlinear_arith)
            requires
                height - 1 <= u32::MAX,
                stride <= usize::MAX,
        ;
        let needed: u128 = (height - 1) as u128 * stride as u128 + row_len as u128;
        if needed > size as u128 {
            return Err(Error::InvalidImageLength { size, width, height });
        }
        Ok(Encoder { data, stride, raw_channels, header, reference: false })
    }

    /// Returns a new encoder with another colour space; the field is informational.
    pub fn with_colorspace(self, colorspace: ColorSpace) -> (r: Encoder<'a>)
        requires
            self.wf(),
        ensures
            r.wf(),
            r.spec_header() == (Header { colorspace, ..self.spec_header() }),
            r.spec_pixels() == self.spec_pixels(),
            r.spec_reference() == self.spec_reference(),
    {
        let header = self.header.with_colorspace(colorspace);
        Encoder { header, ..self }
    }

    /// Returns a new encoder that writes every run as a run, byte for byte as the
    /// reference encoder does, instead of writing a run of one as an index hit.
    pub fn with_reference(self, reference: bool) -> (r: Encoder<'a>)
        requires
            self.wf(),
        ensures
            r.wf(),
            r.spec_header() == self.spec_header(),
            r.spec_pixels() == self.spec_pixels(),
            r.spec_reference() == reference,
    {
        Encoder { reference, ..self }
    }

    /// The number of channels stored in the header.
    pub fn channels(&self) -> (r: Channels)
        ensures
            r == self.spec_header().channels,
    {
        self.header.channels
    }

    /// The header that the encoded image starts with.
    pub fn header(&self) -> (r: &Header)
        ensures
            *r == self.spec_header(),
    {
        &self.header
    }

    /// The maximum number of bytes that the encoded image takes.
    pub fn required_buf_len(&self) -> (r: usize)
        requires
            self.wf(),
        ensures
            r == max_len(
                self.spec_header().width,
                self.spec_header().height,
                self.spec_header().channels.spec_count(),
            ),
    {
        self.header.encode_max_len()
    }

    /// Encodes the image into `buf`, which must hold `required_buf_len` bytes;
    /// returns the number of bytes written.
    pub fn encode_to_buf(&self, buf: &mut [u8]) -> (r: Result<usize>)
        requires
            self.wf(),
        ensures
            ({
                let req = max_len(
                    self.spec_header().width,
                    self.spec_header().height,
                    self.spec_header().channels.spec_count(),
                );
                if old(buf)@.len() < req {
                    &&& r == Err::<usize, Error>(
                        Error::OutputBufferTooSmall { size: old(buf)@.len() as usize, required: req },
                    )
                    &&& final(buf)@ == old(buf)@
                } else {
                    &&& r == Ok::<usize, Error>(self.spec_encoded().len() as usize)
                    &&& final(buf)@.len() == old(buf)@.len()
                    &&& final(buf)@.subrange(0, self.spec_encoded().len() as int)
                        == self.spec_encoded()
                }
            }),
    {
        let required = self.required_buf_len();
        let size = buf.len();
        if size < required {
            return Err(Error::OutputBufferTooSmall { size, required });
        }
        let v = self.encode_to_vec_impl();
        let n = v.len();
        let mut k: usize = 0;
        while k < n
            invariant
                n == v@.len(),
                n <= buf@.len(),
                buf@.len() == old(buf)@.len(),
                forall|j: int| 0 <= j < k ==> buf@[j] == v@[j],
            decreases n - k,
        {
            buf[k] = v[k];
            k += 1;
        }
        assert(buf@.subrange(0, n as int) =~= v@);
        Ok(n)
    }

    /// Encodes the image into a new vector.
    pub fn encode_to_vec(&self) -> (r: Result<Vec<u8>>)
        requires
            self.wf(),
        ensures
            r is Ok,
            r->Ok_0@ == self.spec_encoded(),
    {
        Ok(self.encode_to_vec_impl())
    }

    fn encode_to_vec_impl(&self) -> (r: Vec<u8>)
        requires
            self.wf(),
        ensures
            r@ == self.spec_encoded(),
            r@.len() <= max_len(
                self.spec_header().width,
                self.spec_header().height,
                self.spec_header().channels.spec_count(),
            ),
    {
        let mut out = self.header.encode();
        self.encode_impl_all(&mut out);
        proof {
            let ch = self.header.channels.spec_count() as nat;
            let px = self.spec_pixels();
            if ch == 3 {
                assert forall|i: int| 0 <= i < px.len() implies #[trigger] px[i].a == 0xff by {}
            }
            lemma_stream_len(px, self.reference, ch, px.len());
            assert(px.len() * (ch + 1) <= 5 * QOI_PIXELS_MAX) by (nonlinear_arith)
                requires
                    px.len() <= QOI_PIXELS_MAX,
                    ch <= 4,
            ;
        }
        out
    }

    /// Appends the opcode stream and the padding to `out`.
    fn encode_impl_all(&self, out: &mut Vec<u8>)
        requires
            self.wf(),
        ensures
            final(out)@ == old(out)@ + encode_pixels(self.spec_pixels(), self.spec_reference())
                + padding(),
    {
        encode_impl(
            self.data,
            self.header.width as usize,
            self.header.height as usize,
            self.stride,
            self.raw_channels,
            self.reference,
            out,
        );
    }
}

} // verus!
