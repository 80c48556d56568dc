pub mod consts;
pub mod decode;
pub mod encode;
pub mod error;
pub mod header;
pub mod laws;
pub mod pixel;
pub mod types;

pub use decode::{decode_header, decode_to_buf, decode_to_vec, Decoder};
pub use encode::{encode_max_len, encode_to_buf, encode_to_vec, Encoder};
pub use error::{Error, Result};
pub use header::Header;
pub use pixel::Pixel;
pub use types::{Channels, ColorSpace, RawChannels};
