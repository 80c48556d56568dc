use vstd::prelude::*;

verus! {

/// Size of the fixed image header, in bytes.
pub const QOI_HEADER_SIZE: usize = 14;

/// Size of the end-of-stream marker, in bytes.
pub const QOI_PADDING_SIZE: usize = 8;

/// Largest number of pixels that an image may hold.
pub const QOI_PIXELS_MAX: usize = 400_000_000;

/// Opcode tags; the low bits carry the operand.
pub const QOI_OP_DIFF: u8 = 0x40;

pub const QOI_OP_LUMA: u8 = 0x80;

pub const QOI_OP_RUN: u8 = 0xc0;

pub const QOI_OP_RGB: u8 = 0xfe;

pub const QOI_OP_RGBA: u8 = 0xff;

/// The bytes that close every encoded stream.
pub open spec fn padding() -> Seq<u8> {
    seq![0u8, 0u8, 0u8, 0u8, 0u8, 0u8, 0u8, 1u8]
}

/// The magic bytes `qoif` that open every encoded stream.
pub open spec fn magic() -> Seq<u8> {
    seq![0x71u8, 0x6fu8, 0x69u8, 0x66u8]
}

} // verus!
