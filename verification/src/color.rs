//! Packed 24-bit colors and their channels.

use vstd::prelude::*;

verus! {

/// A color packed as `0xRRGGBB` in the low 24 bits of an integer.
#[derive(Eq, PartialEq, Copy, Clone, Debug, Hash, Structural)]
pub struct ColorHex(pub i32);

/// A color by its three 8-bit channels.
#[derive(Eq, PartialEq, Copy, Clone, Debug, Hash, Structural)]
pub struct ColorRgb {
    pub r: u8,
    pub g: u8,
    pub b: u8,
}

/// The channel that sits `shift / 8` bytes above the lowest one.
pub open spec fn channel(packed: i32, shift: int) -> int {
    (packed as int / pow256(shift)) % 256
}

/// 256 to the power of `shift / 8`, for the three channel positions.
pub open spec fn pow256(shift: int) -> int {
    if shift == 16 {
        65536
    } else if shift == 8 {
        256
    } else {
        1
    }
}

impl ColorHex {
    /// Splits the packed color into its channels. Bits above the 24th are
    /// ignored.
    pub fn to_rgb(self) -> (rgb: ColorRgb)
        ensures
            rgb.r == channel(self.0, 16),
            rgb.g == channel(self.0, 8),
            rgb.b == channel(self.0, 0),
    {
        let x: i32 = self.0;
        let r: i32 = (x >> 16) & 0xFF;
        let g: i32 = (x >> 8) & 0xFF;
        let b: i32 = x & 0xFF;
        assert(0 <= r < 256 && r == (x as int / 65536) % 256) by (bit_vector)
            requires
                r == (x >> 16) & 0xFF,
        ;
        assert(0 <= g < 256 && g == (x as int / 256) % 256) by (bit_vector)
            requires
                g == (x >> 8) & 0xFF,
        ;
        assert(0 <= b < 256 && b == (x as int) % 256) by (bit_vector)
            requires
                b == x & 0xFF,
        ;
        ColorRgb { r: r as u8, g: g as u8, b: b as u8 }
    }
}

impl ColorRgb {
    /// The packed value of these channels.
    pub open spec fn packed(self) -> int {
        self.r as int * 65536 + self.g as int * 256 + self.b as int
    }

    /// Packs the channels as `0xRRGGBB`.
    pub fn to_hex(&self) -> (hex: ColorHex)
        ensures
            hex.0 == self.packed(),
    {
        let r: i32 = self.r as i32;
        let g: i32 = self.g as i32;
        let b: i32 = self.b as i32;
        let x: i32 = (r << 16) | (g << 8) | b;
        assert(x == r * 65536 + g * 256 + b) by (bit_vector)
            requires
                0 <= r < 256,
                0 <= g < 256,
                0 <= b < 256,
                x == (r << 16) | (g << 8) | b,
        ;
        ColorHex(x)
    }
}

/// Packing channels and splitting them again gives the channels back.
pub proof fn lemma_rgb_round_trip(c: ColorRgb)
    ensures
        channel(c.packed() as i32, 16) == c.r,
        channel(c.packed() as i32, 8) == c.g,
        channel(c.packed() as i32, 0) == c.b,
{
}

/// Splitting a packed color and packing the channels again keeps a color
/// that fits in 24 bits.
pub proof fn lemma_hex_round_trip(h: ColorHex)
    requires
        0 <= h.0 < 0x100_0000,
    ensures
        channel(h.0, 16) * 65536 + channel(h.0, 8) * 256 + channel(h.0, 0) == h.0,
{
}

} // verus!
