//! 24-bit RGB colours and their lossy 16-bit RGB565 packing.

use vstd::prelude::*;

verus! {

/// A 24-bit colour: red in bits 16..24, green in bits 8..16, blue in bits 0..8.
#[derive(Debug, Clone, Copy, PartialEq, Eq, Hash, Structural)]
pub struct Rgb(pub u32);

/// A 16-bit colour: 5 bits of red, 6 of green, 5 of blue, red highest.
#[derive(Debug, Clone, Copy, PartialEq, Eq, Structural)]
pub struct Rgb565(pub u16);

/// The red channel of a packed colour.
pub open spec fn red_of(c: u32) -> u32 {
    (c / 0x10000) % 0x100
}

/// The green channel of a packed colour.
pub open spec fn green_of(c: u32) -> u32 {
    (c / 0x100) % 0x100
}

/// The blue channel of a packed colour.
pub open spec fn blue_of(c: u32) -> u32 {
    c % 0x100
}

/// Three 8-bit channels packed with red highest.
pub open spec fn pack_rgb(r: int, g: int, b: int) -> int {
    r * 0x10000 + g * 0x100 + b
}

/// The RGB565 packing of a colour: the top 5, 6 and 5 bits of red, green and
/// blue, truncated, not rounded.
pub open spec fn rgb565_of(c: u32) -> int {
    (red_of(c) / 8) * 0x800 + (green_of(c) / 4) * 0x20 + blue_of(c) / 8
}

/// The colour that an RGB565 value stands for: each field moved back to the top
/// of its 8-bit channel, the dropped low bits zero.
pub open spec fn rgb_of_565(v: u16) -> u32 {
    pack_rgb((v / 0x800) * 8, ((v / 0x20) % 0x40) * 4, (v % 0x20) * 8) as u32
}

/// Packing the colour that an RGB565 value stands for gives that value back.
pub proof fn lemma_rgb565_of_expanded(v: u16)
    ensures
        rgb565_of(rgb_of_565(v)) == v,
{
    assert(((((v / 0x800) * 8) * 0x10000 + (((v / 0x20) % 0x40) * 4) * 0x100 + (v % 0x20) * 8)
        as u32) == ((((v >> 11u16) as u32) << 19u32) | ((((v >> 5u16) & 0x3f) as u32) << 10u32)
        | (((v & 0x1f) as u32) << 3u32))) by (bit_vector);
    let c = rgb_of_565(v);
    assert((((c / 0x10000) % 0x100) / 8) * 0x800 + (((c / 0x100) % 0x100) / 4) * 0x20 + (c
        % 0x100) / 8 == v) by (bit_vector)
        requires
            c == ((((v >> 11u16) as u32) << 19u32) | ((((v >> 5u16) & 0x3f) as u32) << 10u32) | (((
            v & 0x1f) as u32) << 3u32)),
    ;
}

/// Converting to RGB565 is stable: the colour that an RGB565 value stands for
/// converts to the same RGB565 value again.
pub proof fn lemma_rgb565_idempotent(c: u32)
    ensures
        0 <= rgb565_of(c) < 0x10000,
        rgb565_of(rgb_of_565(rgb565_of(c) as u16)) == rgb565_of(c),
{
    assert(0 <= rgb565_of(c) < 0x10000) by (nonlinear_arith);
    lemma_rgb565_of_expanded(rgb565_of(c) as u16);
}

impl Rgb {
    /// The colour of a pixel given as blue, green, red and alpha samples; alpha
    /// is dropped.
    pub fn from_bgra(bgra: [u8; 4]) -> (r: Rgb)
        ensures
            r.0 == pack_rgb(bgra[2] as int, bgra[1] as int, bgra[0] as int),
    {
        let r: u32 = (bgra[2] as u32) << 16u32;
        let g: u32 = (bgra[1] as u32) << 8u32;
        let b: u32 = bgra[0] as u32;
        let (x, y, z) = (bgra[2], bgra[1], bgra[0]);
        assert(((x as u32) << 16u32) | ((y as u32) << 8u32) | (z as u32) == x * 0x10000 + y
            * 0x100 + z) by (bit_vector);
        Rgb(r | g | b)
    }
}

impl Rgb565 {
    /// The RGB565 packing of a colour (see `rgb565_of`).
    pub fn from_rgb(rgb: &Rgb) -> (r: Rgb565)
        ensures
            r.0 == rgb565_of(rgb.0),
    {
        let c = rgb.0;
        let r: u16 = (((c & 0xFF0000) >> 16u32) as u16) >> 3u16 << 11u16;
        let g: u16 = (((c & 0x00FF00) >> 8u32) as u16) >> 2u16 << 5u16;
        let b: u16 = ((c & 0x0000FF) as u16) >> 3u16;
        assert(((((c & 0xFF0000) >> 16u32) as u16) >> 3u16 << 11u16) | ((((c & 0x00FF00)
            >> 8u32) as u16) >> 2u16 << 5u16) | (((c & 0x0000FF) as u16) >> 3u16) == (((c
            / 0x10000) % 0x100) / 8) * 0x800 + (((c / 0x100) % 0x100) / 4) * 0x20 + (c % 0x100)
            / 8) by (bit_vector);
        Rgb565(r | g | b)
    }
}

} // verus!
