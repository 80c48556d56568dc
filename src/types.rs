use vstd::prelude::*;

verus! {

/// Number of channels stored in an encoded image.
#[derive(Debug, Clone, Copy, PartialEq, Eq, Structural)]
pub enum Channels {
    /// Three channels: red, green, blue.
    Rgb,
    /// Four channels: red, green, blue, alpha.
    Rgba,
}

impl Channels {
    pub open spec fn spec_count(self) -> u8 {
        match self {
            Channels::Rgb => 3,
            Channels::Rgba => 4,
        }
    }

    /// Returns 3 or 4.
    pub fn as_u8(self) -> (r: u8)
        ensures
            r == self.spec_count(),
    {
        match self {
            Channels::Rgb => 3,
            Channels::Rgba => 4,
        }
    }

    /// The channel count given as a number, or `None` unless it is 3 or 4.
    pub fn from_u8(n: u8) -> (r: Option<Channels>)
        ensures
            n == 3 ==> r == Some(Channels::Rgb),
            n == 4 ==> r == Some(Channels::Rgba),
            n != 3 && n != 4 ==> r.is_none(),
    {
        if n == 3 {
            Some(Channels::Rgb)
        } else if n == 4 {
            Some(Channels::Rgba)
        } else {
            None
        }
    }
}

/// Informational colour space field of the header.
#[derive(Debug, Clone, Copy, PartialEq, Eq, Structural)]
pub enum ColorSpace {
    /// sRGB with linear alpha.
    Srgb,
    /// All channels linear.
    Linear,
}

impl ColorSpace {
    pub open spec fn spec_byte(self) -> u8 {
        match self {
            ColorSpace::Srgb => 0,
            ColorSpace::Linear => 1,
        }
    }

    /// Returns 0 or 1.
    pub fn as_u8(self) -> (r: u8)
        ensures
            r == self.spec_byte(),
    {
        match self {
            ColorSpace::Srgb => 0,
            ColorSpace::Linear => 1,
        }
    }
}

/// Byte layout of caller-provided pixels: channel order and optional padding byte.
#[derive(Debug, Clone, Copy, PartialEq, Eq, Structural)]
pub enum RawChannels {
    Rgb,
    Bgr,
    Rgba,
    Argb,
    Rgbx,
    Xrgb,
    Bgra,
    Abgr,
    Bgrx,
    Xbgr,
}

impl RawChannels {
    pub open spec fn spec_bytes_per_pixel(self) -> usize {
        match self {
            RawChannels::Rgb | RawChannels::Bgr => 3,
            _ => 4,
        }
    }

    /// Whether the layout carries an alpha byte.
    pub open spec fn spec_has_alpha(self) -> bool {
        match self {
            RawChannels::Rgba | RawChannels::Argb | RawChannels::Bgra | RawChannels::Abgr => true,
            _ => false,
        }
    }

    /// The channel count stored in the header for this layout.
    pub open spec fn spec_channels(self) -> Channels {
        if self.spec_has_alpha() {
            Channels::Rgba
        } else {
            Channels::Rgb
        }
    }

    /// Number of bytes each pixel takes in this layout.
    pub fn bytes_per_pixel(self) -> (r: usize)
        ensures
            r == self.spec_bytes_per_pixel(),
    {
        match self {
            RawChannels::Rgb | RawChannels::Bgr => 3,
            _ => 4,
        }
    }

    /// The channel count stored in the header for this layout.
    pub fn channels(self) -> (r: Channels)
        ensures
            r == self.spec_channels(),
    {
        match self {
            RawChannels::Rgba | RawChannels::Argb | RawChannels::Bgra | RawChannels::Abgr => {
                Channels::Rgba
            },
            _ => Channels::Rgb,
        }
    }

    /// The plain layout for a channel count: `Rgb` or `Rgba`.
    pub fn from_channels(c: Channels) -> (r: RawChannels)
        ensures
            c == Channels::Rgb ==> r == RawChannels::Rgb,
            c == Channels::Rgba ==> r == RawChannels::Rgba,
    {
        match c {
            Channels::Rgb => RawChannels::Rgb,
            Channels::Rgba => RawChannels::Rgba,
        }
    }
}

} // verus!
