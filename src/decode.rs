use vstd::prelude::*;

use crate::consts::{padding, QOI_HEADER_SIZE, QOI_OP_RGB, QOI_OP_RGBA, QOI_OP_RUN, QOI_PADDING_SIZE};
use crate::encode::{start_pixel, zero_index};
use crate::error::{Error, Result};
use crate::header::{spec_decode_header, Header};
use crate::pixel::{apply_diff, apply_luma, hash_of, Pixel};
use crate::types::Channels;

verus! {

/// Running state of the decoder, with the pixels emitted so far.
pub struct DecState {
    pub pos: int,
    pub prev: Pixel,
    pub index: Seq<Pixel>,
    pub run: nat,
    pub out: Seq<Pixel>,
}

/// In three-channel images alpha stays at 0xff.
pub open spec fn fix_alpha(p: Pixel, ch4: bool) -> Pixel {
    if ch4 {
        p
    } else {
        Pixel { a: 0xff, ..p }
    }
}

pub open spec fn dec_init() -> DecState {
    DecState { pos: 14, prev: start_pixel(), index: zero_index(), run: 0, out: seq![] }
}

/// `s` after it has read an opcode of `len` bytes that yields pixel `px`,
/// which is stored in the index.
pub open spec fn dec_emit(s: DecState, len: int, px: Pixel) -> DecState {
    DecState {
        pos: s.pos + len,
        prev: px,
        index: s.index.update(hash_of(px) as int, px),
        run: 0,
        out: s.out.push(px),
    }
}

/// One decoder step: emits one pixel, reading an opcode unless a run is
/// pending. `None` where the opcode runs past the end of `b`.
pub open spec fn dec_step(b: Seq<u8>, s: DecState, ch4: bool) -> Option<DecState> {
    if s.run > 0 {
        Some(DecState { run: (s.run - 1) as nat, out: s.out.push(s.prev), ..s })
    } else if s.pos < 0 || s.pos >= b.len() {
        None
    } else {
        let op = b[s.pos];
        if op < 64 {
            let px = fix_alpha(s.index[op as int], ch4);
            Some(DecState { pos: s.pos + 1, prev: px, out: s.out.push(px), ..s })
        } else if op < 128 {
            Some(dec_emit(s, 1, apply_diff(s.prev, op)))
        } else if op < 192 {
            if s.pos + 1 >= b.len() {
                None
            } else {
                Some(dec_emit(s, 2, apply_luma(s.prev, op, b[s.pos + 1])))
            }
        } else if op == 0xfe {
            if s.pos + 3 >= b.len() {
                None
            } else {
                let px = Pixel { r: b[s.pos + 1], g: b[s.pos + 2], b: b[s.pos + 3], a: s.prev.a };
                Some(dec_emit(s, 4, px))
            }
        } else if op == 0xff {
            if s.pos + 4 >= b.len() {
                None
            } else {
                let px = fix_alpha(
                    Pixel { r: b[s.pos + 1], g: b[s.pos + 2], b: b[s.pos + 3], a: b[s.pos + 4] },
                    ch4,
                );
                Some(dec_emit(s, 5, px))
            }
        } else {
            Some(
                DecState {
                    pos: s.pos + 1,
                    run: (op - 0xc0) as nat,
                    out: s.out.push(s.prev),
                    ..s
                },
            )
        }
    }
}

/// The decoder state after `k` steps on `b`, or `None` if the input ran out.
pub open spec fn dec_fold(b: Seq<u8>, ch4: bool, k: nat) -> Option<DecState>
    decreases k,
{
    if k == 0 {
        Some(dec_init())
    } else {
        match dec_fold(b, ch4, (k - 1) as nat) {
            None => None,
            Some(s) => dec_step(b, s, ch4),
        }
    }
}

/// The bytes of one pixel: RGB, or RGBA when `ch4`.
pub open spec fn px_bytes(p: Pixel, ch4: bool) -> Seq<u8> {
    if ch4 {
        seq![p.r, p.g, p.b, p.a]
    } else {
        seq![p.r, p.g, p.b]
    }
}

/// The bytes of a row-major sequence of pixels.
pub open spec fn flatten(ps: Seq<Pixel>, ch4: bool) -> Seq<u8>
    decreases ps.len(),
{
    if ps.len() == 0 {
        seq![]
    } else {
        flatten(ps.drop_last(), ch4) + px_bytes(ps.last(), ch4)
    }
}

/// What decoding the pixels of `b`, whose header `h` has been read, gives:
/// the pixels, or the first error met.
pub open spec fn spec_decode_body(b: Seq<u8>, h: Header) -> Result<Seq<Pixel>> {
    let ch4 = h.channels == Channels::Rgba;
    match dec_fold(b, ch4, h.spec_n_pixels()) {
        None => Err(Error::UnexpectedBufferEnd),
        Some(s) => {
            if s.pos + 8 > b.len() {
                Err(Error::UnexpectedBufferEnd)
            } else if b.subrange(s.pos, s.pos + 8) != padding() {
                Err(Error::InvalidPadding)
            } else {
                Ok(s.out)
            }
        },
    }
}

/// What decoding `b` gives: the header and the pixel data at the header's
/// channel count, or the first error met.
pub open spec fn spec_decode(b: Seq<u8>) -> Result<(Header, Seq<u8>)> {
    match spec_decode_header(b) {
        Err(e) => Err(e),
        Ok(h) => match spec_decode_body(b, h) {
            Err(e) => Err(e),
            Ok(px) => Ok((h, flatten(px, h.channels == Channels::Rgba))),
        },
    }
}

proof fn lemma_fold_none(b: Seq<u8>, ch4: bool, k: nat, m: nat)
    requires
        k <= m,
        dec_fold(b, ch4, k) is None,
    ensures
        dec_fold(b, ch4, m) is None,
    decreases m - k,
{
    if k < m {
        lemma_fold_none(b, ch4, k + 1, m);
    }
}

pub(crate) proof fn lemma_fold_len(b: Seq<u8>, ch4: bool, k: nat)
    requires
        dec_fold(b, ch4, k) is Some,
    ensures
        dec_fold(b, ch4, k)->Some_0.out.len() == k,
        dec_fold(b, ch4, k)->Some_0.pos >= 14,
        dec_fold(b, ch4, k)->Some_0.index.len() == 64,
        dec_fold(b, ch4, k)->Some_0.run < 62,
    decreases k,
{
    if k > 0 {
        if dec_fold(b, ch4, (k - 1) as nat) is None {
            lemma_fold_none(b, ch4, (k - 1) as nat, k);
        } else {
            lemma_fold_len(b, ch4, (k - 1) as nat);
        }
    }
}

struct DecRun {
    pos: usize,
    prev: Pixel,
    index: Vec<Pixel>,
    run: u8,
    out: Ghost<Seq<Pixel>>,
}

impl DecRun {
    spec fn view(&self) -> DecState {
        DecState {
            pos: self.pos as int,
            prev: self.prev,
            index: self.index@,
            run: self.run as nat,
            out: self.out@,
        }
    }

    fn new() -> (r: DecRun)
        ensures
            r.view() == dec_init(),
    {
        let mut index: Vec<Pixel> = Vec::new();
        let mut k: usize = 0;
        while k < 64
            invariant
                k <= 64,
                index@ == Seq::new(k as nat, |i: int| Pixel { r: 0, g: 0, b: 0, a: 0 }),
            decreases 64 - k,
        {
            index.push(Pixel::zero());
            k += 1;
        }
        assert(index@ =~= zero_index());
        let r = DecRun {
            pos: QOI_HEADER_SIZE,
            prev: Pixel { r: 0, g: 0, b: 0, a: 0xff },
            index,
            run: 0,
            out: Ghost(Seq::empty()),
        };
        assert(r.view() =~= dec_init());
        r
    }

    fn emit(&mut self, len: usize, px: Pixel)
        requires
            old(self).index@.len() == 64,
            old(self).pos + len <= usize::MAX,
        ensures
            final(self).view() == dec_emit(old(self).view(), len as int, px),
            final(self).index@.len() == 64,
    {
        let h = px.hash_index();
        self.index.set(h as usize, px);
        self.pos = self.pos + len;
        self.prev = px;
        self.run = 0;
        self.out = Ghost(self.out@.push(px));
    }

    /// One decoder step; `false` where the input runs out.
    #[verifier::rlimit(30)]
    fn step(&mut self, b: &[u8], ch4: bool) -> (ok: bool)
        requires
            old(self).index@.len() == 64,
            old(self).pos <= b@.len(),
        ensures
            final(self).index@.len() == 64,
            final(self).pos <= b@.len(),
            match dec_step(b@, old(self).view(), ch4) {
                None => !ok,
                Some(s) => ok && final(self).view() == s,
            },
    {
        let len = b.len();
        if self.run > 0 {
            self.run = self.run - 1;
            self.out = Ghost(self.out@.push(self.prev));
            return true;
        }
        if self.pos >= len {
            return false;
        }
        let op = b[self.pos];
        if op < 64 {
            let mut px = self.index[op as usize];
            if !ch4 {
                px.a = 0xff;
            }
            self.pos = self.pos + 1;
            self.prev = px;
            self.out = Ghost(self.out@.push(px));
        } else if op < 128 {
            let px = self.prev.diff(op);
            self.emit(1, px);
        } else if op < 192 {
            if self.pos + 1 >= len {
                return false;
            }
            let px = self.prev.luma(op, b[self.pos + 1]);
            self.emit(2, px);
        } else if op == QOI_OP_RGB {
            if len - self.pos <= 3 {
                return false;
            }
            let p = self.pos;
            let px = Pixel { r: b[p + 1], g: b[p + 2], b: b[p + 3], a: self.prev.a };
            self.emit(4, px);
        } else if op == QOI_OP_RGBA {
            if len - self.pos <= 4 {
                return false;
            }
            let p = self.pos;
            let mut px = Pixel { r: b[p + 1], g: b[p + 2], b: b[p + 3], a: b[p + 4] };
            if !ch4 {
                px.a = 0xff;
            }
            self.emit(5, px);
        } else {
            self.pos = self.pos + 1;
            self.run = op - QOI_OP_RUN;
            self.out = Ghost(self.out@.push(self.prev));
        }
        true
    }
}

fn push_px(out: &mut Vec<u8>, p: Pixel, ch4: bool)
    ensures
        final(out)@ == old(out)@ + px_bytes(p, ch4),
{
    out.push(p.r);
    out.push(p.g);
    out.push(p.b);
    if ch4 {
        out.push(p.a);
    }
    assert(final(out)@ =~= old(out)@ + px_bytes(p, ch4));
}

/// Reads the header of an encoded image.
pub fn decode_header(data: &[u8]) -> (r: Result<Header>)
    ensures
        r == spec_decode_header(data@),
{
    Header::decode(data)
}

/// Decodes an image into a new vector of RGB or RGBA bytes, as the header's
/// channel count says; returns the header too.
pub fn decode_to_vec(data: &[u8]) -> (r: Result<(Header, Vec<u8>)>)
    ensures
        match spec_decode(data@) {
            Err(e) => r == Err::<(Header, Vec<u8>), Error>(e),
            Ok((h, bytes)) => r is Ok && r->Ok_0.0 == h && r->Ok_0.1@ == bytes,
        },
{
    let header = Header::decode(data)?;
    let out = decode_body(data, &header, header.channels == Channels::Rgba)?;
    Ok((header, out))
}

/// Decodes an image into `buf` as RGB or RGBA bytes, as the header's channel
/// count says; returns the header. The buffer must hold `width * height *
/// channels` bytes; what follows them is left as it was.
pub fn decode_to_buf(buf: &mut [u8], data: &[u8]) -> (r: Result<Header>)
    ensures
        match spec_decode_header(data@) {
            Err(e) => r == Err::<Header, Error>(e) && final(buf)@ == old(buf)@,
            Ok(h) => {
                let need = h.spec_n_pixels() * h.channels.spec_count();
                if old(buf)@.len() < need {
                    &&& r == Err::<Header, Error>(
                        Error::OutputBufferTooSmall { size: old(buf)@.len() as usize, required: need as usize },
                    )
                    &&& final(buf)@ == old(buf)@
                } else {
                    match spec_decode_body(data@, h) {
                        Err(e) => r == Err::<Header, Error>(e) && final(buf)@ == old(buf)@,
                        Ok(px) => {
                            &&& r == Ok::<Header, Error>(h)
                            &&& final(buf)@.len() == old(buf)@.len()
                            &&& final(buf)@.subrange(0, need as int) == flatten(
                                px,
                                h.channels == Channels::Rgba,
                            )
                        },
                    }
                }
            },
        },
{
    let header = Header::decode(data)?;
    let need = header.n_bytes();
    let size = buf.len();
    if size < need {
        return Err(Error::OutputBufferTooSmall { size, required: need });
    }
    let ch4 = header.channels == Channels::Rgba;
    let out = decode_body(data, &header, ch4)?;
    proof {
        let px = spec_decode_body(data@, header)->Ok_0;
        let s = dec_fold(data@, ch4, header.spec_n_pixels())->Some_0;
        lemma_fold_len(data@, ch4, header.spec_n_pixels());
        if ch4 {
            crate::laws::lemma_flatten4(px);
        } else {
            crate::laws::lemma_flatten3(px);
        }
    }
    let n = out.len();
    let mut k: usize = 0;
    while k < n
        invariant
            n == out@.len(),
            n <= buf@.len(),
            buf@.len() == old(buf)@.len(),
            forall|j: int| 0 <= j < k ==> buf@[j] == out@[j],
        decreases n - k,
    {
        buf[k] = out[k];
        k += 1;
    }
    assert(buf@.subrange(0, n as int) =~= out@);
    Ok(header)
}

/// Decodes the pixels after header `header`, writing RGBA bytes when `ch4_out`
/// and RGB bytes otherwise.
#[verifier::rlimit(30)]
fn decode_body(data: &[u8], header: &Header, ch4_out: bool) -> (r: Result<Vec<u8>>)
    requires
        spec_decode_header(data@) == Ok::<Header, Error>(*header),
    ensures
        match spec_decode_body(data@, *header) {
            Err(e) => r == Err::<Vec<u8>, Error>(e),
            Ok(px) => r is Ok && r->Ok_0@ == flatten(px, ch4_out),
        },
{
    let ch4 = header.channels == Channels::Rgba;
    let n = header.n_pixels();
    let len = data.len();
    let mut st = DecRun::new();
    let mut out: Vec<u8> = Vec::new();
    let mut i: usize = 0;
    while i < n
        invariant
            spec_decode_header(data@) == Ok::<Header, Error>(*header),
            header.valid(),
            ch4 == (header.channels == Channels::Rgba),
            n == header.spec_n_pixels(),
            len == data@.len(),
            i <= n,
            st.index@.len() == 64,
            st.pos <= len,
            dec_fold(data@, ch4, i as nat) == Some(st.view()),
            out@ == flatten(st.view().out, ch4_out),
        decreases n - i,
    {
        let ghost s0 = st.view();
        let ok = st.step(data, ch4);
        if !ok {
            proof {
                lemma_fold_none(data@, ch4, (i + 1) as nat, n as nat);
            }
            return Err(Error::UnexpectedBufferEnd);
        }
        let p = st.prev;
        push_px(&mut out, p, ch4_out);
        proof {
            assert(st.view().out == s0.out.push(p));
            assert(st.view().out.drop_last() =~= s0.out);
        }
        i += 1;
    }
    let pos = st.pos;
    if pos > len || len - pos < QOI_PADDING_SIZE {
        return Err(Error::UnexpectedBufferEnd);
    }
    let mut k: usize = 0;
    while k < QOI_PADDING_SIZE
        invariant
            pos + 8 <= len,
            len == data@.len(),
            k <= 8,
            spec_decode_header(data@) == Ok::<Header, Error>(*header),
            ch4 == (header.channels == Channels::Rgba),
            n == header.spec_n_pixels(),
            dec_fold(data@, ch4, n as nat) == Some(st.view()),
            pos == st.view().pos,
            forall|j: int| 0 <= j < k ==> data@[pos + j] == padding()[j],
        decreases 8 - k,
    {
        let expected: u8 = if k == 7 {
            1
        } else {
            0
        };
        if data[pos + k] != expected {
            proof {
                assert(data@.subrange(pos as int, pos + 8)[k as int] != padding()[k as int]);
            }
            return Err(Error::InvalidPadding);
        }
        k += 1;
    }
    assert(data@.subrange(pos as int, pos + 8) =~= padding());
    Ok(out)
}

/// Decodes an image from a byte slice, with a choice of output channels.
pub struct Decoder<'a> {
    data: &'a [u8],
    header: Header,
    channels: Channels,
}

impl<'a> Decoder<'a> {
    /// The bytes being decoded.
    pub closed spec fn spec_data(&self) -> Seq<u8> {
        self.data@
    }

    /// The header read from the data.
    pub closed spec fn spec_header(&self) -> Header {
        self.header
    }

    /// The channel count of the output.
    pub closed spec fn spec_channels(&self) -> Channels {
        self.channels
    }

    /// Reads the header of `data`. The output takes the header's channel count.
    pub fn new(data: &'a [u8]) -> (r: Result<Decoder<'a>>)
        ensures
            match spec_decode_header(data@) {
                Err(e) => r == Err::<Decoder<'a>, Error>(e),
                Ok(h) => {
                    &&& r is Ok
                    &&& r->Ok_0.spec_data() == data@
                    &&& r->Ok_0.spec_header() == h
                    &&& r->Ok_0.spec_channels() == h.channels
                },
            },
    {
        let header = Header::decode(data)?;
        Ok(Decoder { data, header, channels: header.channels })
    }

    /// Returns a decoder whose output has `channels` channels: a missing alpha
    /// is written as 0xff, a present one is dropped.
    pub fn with_channels(self, channels: Channels) -> (r: Decoder<'a>)
        ensures
            r.spec_data() == self.spec_data(),
            r.spec_header() == self.spec_header(),
            r.spec_channels() == channels,
    {
        Decoder { channels, ..self }
    }

    /// The channel count of the output.
    pub fn channels(&self) -> (r: Channels)
        ensures
            r == self.spec_channels(),
    {
        self.channels
    }

    /// The header read from the data.
    pub fn header(&self) -> (r: &Header)
        ensures
            *r == self.spec_header(),
    {
        &self.header
    }

    /// Decodes the pixels into a new vector at the chosen channel count.
    pub fn decode_to_vec(&self) -> (r: Result<Vec<u8>>)
        requires
            spec_decode_header(self.spec_data()) == Ok::<Header, Error>(self.spec_header()),
        ensures
            match spec_decode_body(self.spec_data(), self.spec_header()) {
                Err(e) => r == Err::<Vec<u8>, Error>(e),
                Ok(px) => r is Ok && r->Ok_0@ == flatten(
                    px,
                    self.spec_channels() == Channels::Rgba,
                ),
            },
    {
        decode_body(self.data, &self.header, self.channels == Channels::Rgba)
    }
}

} // verus!
