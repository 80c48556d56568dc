use vstd::prelude::*;

use crate::consts::{magic, QOI_HEADER_SIZE, QOI_PADDING_SIZE, QOI_PIXELS_MAX};
use crate::error::{Error, Result};
use crate::types::{Channels, ColorSpace};

verus! {

/// Image header: dimensions, channel count and colour space.
#[derive(Debug, Clone, Copy, PartialEq, Eq, Structural)]
pub struct Header {
    pub width: u32,
    pub height: u32,
    pub channels: Channels,
    pub colorspace: ColorSpace,
}

/// The four big-endian bytes of `x`.
pub open spec fn be32(x: u32) -> Seq<u8> {
    seq![(x >> 24u32) as u8, (x >> 16u32) as u8, (x >> 8u32) as u8, x as u8]
}

/// The number that four big-endian bytes stand for.
pub open spec fn from_be32(b0: u8, b1: u8, b2: u8, b3: u8) -> u32 {
    ((b0 as u32) << 24u32) | ((b1 as u32) << 16u32) | ((b2 as u32) << 8u32) | (b3 as u32)
}

/// Width and height accepted by the format: both nonzero, and not too many pixels.
pub open spec fn dims_ok(width: u32, height: u32) -> bool {
    width >= 1 && height >= 1 && width * height <= QOI_PIXELS_MAX
}

pub proof fn lemma_dims(width: u32, height: u32)
    requires
        dims_ok(width, height),
    ensures
        1 <= width <= width * height,
        1 <= height <= width * height,
        width <= QOI_PIXELS_MAX,
        height <= QOI_PIXELS_MAX,
{
    assert(width <= width * height && height <= width * height) by (nonlinear_arith)
        requires
            width >= 1,
            height >= 1,
    ;
}

/// The error for dimensions that `dims_ok` refuses.
pub open spec fn dims_error(width: u32, height: u32) -> Error {
    if width == 0 || height == 0 {
        Error::EmptyImage { width, height }
    } else {
        Error::ImageTooLarge { width, height }
    }
}

/// Largest size of an encoded image, saturated at `usize::MAX`.
pub open spec fn max_len(width: u32, height: u32, channels: u8) -> usize {
    let n = 14 + width * height * (channels + 1) + 8;
    if n > usize::MAX {
        usize::MAX
    } else {
        n as usize
    }
}

impl Header {
    /// The fourteen bytes that store this header.
    pub open spec fn spec_bytes(self) -> Seq<u8> {
        magic() + be32(self.width) + be32(self.height) + seq![
            self.channels.spec_count(),
            self.colorspace.spec_byte(),
        ]
    }

    pub open spec fn valid(self) -> bool {
        dims_ok(self.width, self.height)
    }

    pub open spec fn spec_n_pixels(self) -> nat {
        (self.width * self.height) as nat
    }

    /// Builds a header, checking the dimensions.
    pub fn try_new(width: u32, height: u32, channels: Channels, colorspace: ColorSpace) -> (r:
        Result<Header>)
        ensures
            dims_ok(width, height) ==> r == Ok::<Header, Error>(
                Header { width, height, channels, colorspace },
            ),
            !dims_ok(width, height) ==> r == Err::<Header, Error>(dims_error(width, height)),
    {
        if width == 0 || height == 0 {
            return Err(Error::EmptyImage { width, height });
        }
        assert(width * height <= u32::MAX * u32::MAX) by (nonlinear_arith)
            requires
                width <= u32::MAX,
                height <= u32::MAX,
        ;
        let n = width as u64 * height as u64;
        if n > QOI_PIXELS_MAX as u64 {
            return Err(Error::ImageTooLarge { width, height });
        }
        Ok(Header { width, height, channels, colorspace })
    }

    /// Returns a copy with another colour space.
    pub fn with_colorspace(self, colorspace: ColorSpace) -> (r: Header)
        ensures
            r == (Header { colorspace, ..self }),
    {
        Header { colorspace, ..self }
    }

    /// Number of pixels in the image.
    pub fn n_pixels(&self) -> (r: usize)
        requires
            self.valid(),
        ensures
            r == self.spec_n_pixels(),
    {
        self.width as usize * self.height as usize
    }

    /// Number of bytes of decoded pixel data, at the header's channel count.
    pub fn n_bytes(&self) -> (r: usize)
        requires
            self.valid(),
        ensures
            r == self.spec_n_pixels() * self.channels.spec_count(),
    {
        self.n_pixels() * self.channels.as_u8() as usize
    }

    /// Largest size of an encoded image with this header.
    pub fn encode_max_len(&self) -> (r: usize)
        requires
            self.valid(),
        ensures
            r == max_len(self.width, self.height, self.channels.spec_count()),
            r == 14 + self.spec_n_pixels() * (self.channels.spec_count() + 1) + 8,
    {
        let n = self.n_pixels();
        assert(n * (self.channels.spec_count() + 1) <= 5 * QOI_PIXELS_MAX) by (nonlinear_arith)
            requires
                n <= QOI_PIXELS_MAX,
                self.channels.spec_count() <= 4,
        ;
        QOI_HEADER_SIZE + n * (self.channels.as_u8() as usize + 1) + QOI_PADDING_SIZE
    }

    /// The fourteen bytes that store this header.
    pub fn encode(&self) -> (r: Vec<u8>)
        ensures
            r@ == self.spec_bytes(),
    {
        let mut v: Vec<u8> = Vec::new();
        v.push(0x71);
        v.push(0x6f);
        v.push(0x69);
        v.push(0x66);
        push_be32(&mut v, self.width);
        push_be32(&mut v, self.height);
        v.push(self.channels.as_u8());
        v.push(self.colorspace.as_u8());
        assert(v@ =~= self.spec_bytes());
        v
    }

    /// Reads a header from the first fourteen bytes of `bytes`.
    pub fn decode(bytes: &[u8]) -> (r: Result<Header>)
        ensures
            r == spec_decode_header(bytes@),
    {
        if bytes.len() < QOI_HEADER_SIZE {
            return Err(Error::UnexpectedBufferEnd);
        }
        let m = from_be_bytes(bytes[0], bytes[1], bytes[2], bytes[3]);
        if m != 0x716f6966 {
            return Err(Error::InvalidMagic { magic: m });
        }
        let width = from_be_bytes(bytes[4], bytes[5], bytes[6], bytes[7]);
        let height = from_be_bytes(bytes[8], bytes[9], bytes[10], bytes[11]);
        let channels = match Channels::from_u8(bytes[12]) {
            Some(c) => c,
            None => {
                return Err(Error::InvalidChannels { channels: bytes[12] });
            },
        };
        let colorspace = if bytes[13] == 0 {
            ColorSpace::Srgb
        } else if bytes[13] == 1 {
            ColorSpace::Linear
        } else {
            return Err(Error::InvalidColorSpace { colorspace: bytes[13] });
        };
        Header::try_new(width, height, channels, colorspace)
    }
}

/// What reading a header from `b` gives: the checks run in the order magic,
/// channels, colour space, dimensions.
pub open spec fn spec_decode_header(b: Seq<u8>) -> Result<Header> {
    if b.len() < 14 {
        Err(Error::UnexpectedBufferEnd)
    } else {
        let m = from_be32(b[0], b[1], b[2], b[3]);
        let width = from_be32(b[4], b[5], b[6], b[7]);
        let height = from_be32(b[8], b[9], b[10], b[11]);
        if m != 0x716f6966 {
            Err(Error::InvalidMagic { magic: m })
        } else if b[12] != 3 && b[12] != 4 {
            Err(Error::InvalidChannels { channels: b[12] })
        } else if b[13] != 0 && b[13] != 1 {
            Err(Error::InvalidColorSpace { colorspace: b[13] })
        } else if !dims_ok(width, height) {
            Err(dims_error(width, height))
        } else {
            Ok(
                Header {
                    width,
                    height,
                    channels: if b[12] == 3 {
                        Channels::Rgb
                    } else {
                        Channels::Rgba
                    },
                    colorspace: if b[13] == 0 {
                        ColorSpace::Srgb
                    } else {
                        ColorSpace::Linear
                    },
                },
            )
        }
    }
}

fn push_be32(v: &mut Vec<u8>, x: u32)
    ensures
        final(v)@ == old(v)@ + be32(x),
{
    v.push((x >> 24) as u8);
    v.push((x >> 16) as u8);
    v.push((x >> 8) as u8);
    v.push(x as u8);
    assert(final(v)@ =~= old(v)@ + be32(x));
}

fn from_be_bytes(b0: u8, b1: u8, b2: u8, b3: u8) -> (r: u32)
    ensures
        r == from_be32(b0, b1, b2, b3),
{
    ((b0 as u32) << 24) | ((b1 as u32) << 16) | ((b2 as u32) << 8) | (b3 as u32)
}

/// Reading back the bytes of a valid header gives the same header.
pub proof fn lemma_header_round_trip(h: Header, rest: Seq<u8>)
    requires
        h.valid(),
    ensures
        spec_decode_header(h.spec_bytes() + rest) == Ok::<Header, Error>(h),
{
    let b = h.spec_bytes() + rest;
    lemma_be32_round_trip(h.width);
    lemma_be32_round_trip(h.height);
    assert(b[0] == 0x71 && b[1] == 0x6f && b[2] == 0x69 && b[3] == 0x66);
    assert(from_be32(0x71, 0x6f, 0x69, 0x66) == 0x716f6966) by (bit_vector);
    assert(b.subrange(4, 8) =~= be32(h.width));
    assert(b.subrange(8, 12) =~= be32(h.height));
}

proof fn lemma_be32_round_trip(x: u32)
    ensures
        from_be32(be32(x)[0], be32(x)[1], be32(x)[2], be32(x)[3]) == x,
{
    let b0 = (x >> 24u32) as u8;
    let b1 = (x >> 16u32) as u8;
    let b2 = (x >> 8u32) as u8;
    let b3 = x as u8;
    assert(from_be32(b0, b1, b2, b3) == x) by (bit_vector)
        requires
            b0 == (x >> 24u32) as u8,
            b1 == (x >> 16u32) as u8,
            b2 == (x >> 8u32) as u8,
            b3 == x as u8,
    ;
}

} // verus!
