use vstd::prelude::*;

verus! {

/// Everything that can go wrong while encoding or decoding an image.
#[derive(Debug, Clone, Copy, PartialEq, Eq, Structural)]
pub enum Error {
    /// The stream does not start with `qoif`.
    InvalidMagic { magic: u32 },
    /// The channel count is neither 3 nor 4.
    InvalidChannels { channels: u8 },
    /// The colour space byte is neither 0 nor 1.
    InvalidColorSpace { colorspace: u8 },
    /// Width or height is zero.
    EmptyImage { width: u32, height: u32 },
    /// The image holds more pixels than the format allows.
    ImageTooLarge { width: u32, height: u32 },
    /// The pixel data does not match the image dimensions.
    InvalidImageLength { size: usize, width: u32, height: u32 },
    /// The row stride is shorter than one row of pixels.
    InvalidStride { stride: usize },
    /// The output buffer cannot hold the largest possible encoding.
    OutputBufferTooSmall { size: usize, required: usize },
    /// The encoded stream ended before all pixels were read.
    UnexpectedBufferEnd,
    /// The encoded stream does not end with the expected marker.
    InvalidPadding,
}

pub type Result<T> = core::result::Result<T, Error>;

} // verus!
