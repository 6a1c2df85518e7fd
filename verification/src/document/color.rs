//! 32-bit RGBA color used for palette entries, slice overlays, tag colors, …
use vstd::prelude::*;

verus! {

/// 32-bit RGBA color, non-premultiplied. Each channel is `0..=255`.
#[derive(Debug, Clone, Copy, PartialEq, Eq, Hash, Structural)]
pub struct Rgba {
    pub r: u8,
    pub g: u8,
    pub b: u8,
    pub a: u8,
}

/// The `0xRRGGBBAA` packing of a color, as an integer.
pub open spec fn packed(c: Rgba) -> u32 {
    ((c.r as u32) << 24u32) | ((c.g as u32) << 16u32) | ((c.b as u32) << 8u32) | (c.a as u32)
}

/// The color whose `0xRRGGBBAA` packing is `v`.
pub open spec fn unpacked(v: u32) -> Rgba {
    Rgba { r: (v >> 24u32) as u8, g: (v >> 16u32) as u8, b: (v >> 8u32) as u8, a: v as u8 }
}

/// Fully transparent black.
pub open spec fn transparent_spec() -> Rgba {
    Rgba { r: 0, g: 0, b: 0, a: 0 }
}

/// Opaque white.
pub open spec fn white_spec() -> Rgba {
    Rgba { r: 255, g: 255, b: 255, a: 255 }
}

impl Rgba {
    /// Fully transparent black.
    pub fn transparent() -> (c: Rgba)
        ensures
            c == transparent_spec(),
    {
        Rgba { r: 0, g: 0, b: 0, a: 0 }
    }

    /// Opaque black.
    pub fn black() -> (c: Rgba)
        ensures
            c == (Rgba { r: 0, g: 0, b: 0, a: 255 }),
    {
        Rgba { r: 0, g: 0, b: 0, a: 255 }
    }

    /// Opaque white.
    pub fn white() -> (c: Rgba)
        ensures
            c == white_spec(),
    {
        Rgba { r: 255, g: 255, b: 255, a: 255 }
    }

    pub fn new(r: u8, g: u8, b: u8, a: u8) -> (c: Self)
        ensures
            c.r == r,
            c.g == g,
            c.b == b,
            c.a == a,
    {
        Rgba { r, g, b, a }
    }

    /// Pack into a single `u32` in `0xRRGGBBAA` order.
    pub fn to_u32(self) -> (v: u32)
        ensures
            v == packed(self),
            v == self.r * 0x1000000 + self.g * 0x10000 + self.b * 0x100 + self.a,
    {
        let (r, g, b, a) = (self.r, self.g, self.b, self.a);
        assert((((r as u32) << 24u32) | ((g as u32) << 16u32) | ((b as u32) << 8u32) | (a as u32))
            == r * 0x1000000 + g * 0x10000 + b * 0x100 + a) by (bit_vector);
        ((self.r as u32) << 24u32) | ((self.g as u32) << 16u32) | ((self.b as u32) << 8u32) | (
        self.a as u32)
    }

    /// Unpack from a `u32` in `0xRRGGBBAA` order.
    pub fn from_u32(v: u32) -> (c: Self)
        ensures
            c == unpacked(v),
    {
        Rgba { r: (v >> 24u32) as u8, g: (v >> 16u32) as u8, b: (v >> 8u32) as u8, a: v as u8 }
    }
}

impl Default for Rgba {
    fn default() -> (c: Self)
        ensures
            c == transparent_spec(),
    {
        Rgba { r: 0, g: 0, b: 0, a: 0 }
    }
}

/// Unpacking a packed color gives the color back.
pub proof fn lemma_unpack_pack(c: Rgba)
    ensures
        unpacked(packed(c)) == c,
{
    let (r, g, b, a) = (c.r, c.g, c.b, c.a);
    let v = packed(c);
    assert(((v >> 24u32) as u8 == r && (v >> 16u32) as u8 == g && (v >> 8u32) as u8 == b && v as u8
        == a)) by (bit_vector)
        requires
            v == ((r as u32) << 24u32) | ((g as u32) << 16u32) | ((b as u32) << 8u32) | (a as u32),
    ;
}

/// Packing an unpacked word gives the word back.
pub proof fn lemma_pack_unpack(v: u32)
    ensures
        packed(unpacked(v)) == v,
{
    assert(((((v >> 24u32) as u8) as u32) << 24u32) | ((((v >> 16u32) as u8) as u32) << 16u32) | ((
    ((v >> 8u32) as u8) as u32) << 8u32) | ((v as u8) as u32) == v) by (bit_vector);
}

} // verus!
