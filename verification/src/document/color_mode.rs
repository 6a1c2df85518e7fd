//! Document-wide color mode (RGBA, indexed, grayscale).
use vstd::prelude::*;

verus! {

/// The pixel encoding used by all image cels and tile images in a sprite.
///
/// Mirrors the Aseprite color mode field.
#[derive(Debug, Clone, Copy, PartialEq, Eq, Hash, Structural)]
pub enum ColorMode {
    /// 32 bpp, non-premultiplied RGBA.
    Rgba,
    /// 8 bpp palette indices. The given index is treated as fully transparent.
    Indexed { transparent_index: u8 },
    /// 16 bpp value + alpha.
    Grayscale,
}

/// Bytes occupied by one pixel in the given color mode.
pub open spec fn bpp(mode: ColorMode) -> nat {
    match mode {
        ColorMode::Rgba => 4,
        ColorMode::Indexed { .. } => 1,
        ColorMode::Grayscale => 2,
    }
}

impl Default for ColorMode {
    fn default() -> (m: Self)
        ensures
            m == ColorMode::Rgba,
    {
        ColorMode::Rgba
    }
}

impl ColorMode {
    /// Bytes occupied by one pixel in this color mode.
    pub fn bytes_per_pixel(self) -> (n: usize)
        ensures
            n == bpp(self),
    {
        match self {
            ColorMode::Rgba => 4,
            ColorMode::Indexed { .. } => 1,
            ColorMode::Grayscale => 2,
        }
    }
}

} // verus!
