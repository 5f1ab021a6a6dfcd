//! Packed 16-bit colors: 5 bits red, 6 bits green, 5 bits blue, and their
//! big-endian byte serialization (high byte first on the wire).

use vstd::prelude::*;

verus! {

/// All bits clear: black.
pub const COLOR_BLACK: u16 = 0;

/// All bits set: white.
pub const COLOR_WHITE: u16 = 0xFFFF;

/// The packed value holding red `r`, green `g`, blue `b`
/// (red in the top 5 bits, green in the middle 6, blue in the low 5).
pub open spec fn spec_pack_rgb565(r: u8, g: u8, b: u8) -> int {
    (r as int) * 2048 + (g as int) * 32 + (b as int)
}

/// Red channel of a packed color, in `[0, 32)`.
pub open spec fn spec_red(c: u16) -> int {
    (c as int) / 2048
}

/// Green channel of a packed color, in `[0, 64)`.
pub open spec fn spec_green(c: u16) -> int {
    ((c as int) / 32) % 64
}

/// Blue channel of a packed color, in `[0, 32)`.
pub open spec fn spec_blue(c: u16) -> int {
    (c as int) % 32
}

/// High byte of a packed color: the first byte on the wire.
pub open spec fn spec_color_hi(c: u16) -> u8 {
    ((c as int) / 256) as u8
}

/// Low byte of a packed color: the second byte on the wire.
pub open spec fn spec_color_lo(c: u16) -> u8 {
    ((c as int) % 256) as u8
}

/// Pack three channel values into one 16-bit color.
pub fn pack_rgb565(r: u8, g: u8, b: u8) -> (c: u16)
    requires
        r < 32,
        g < 64,
        b < 32,
    ensures
        c == spec_pack_rgb565(r, g, b),
{
    (r as u16) * 2048 + (g as u16) * 32 + (b as u16)
}

/// Recover the three channel values from a packed color.
pub fn unpack_rgb565(c: u16) -> (rgb: (u8, u8, u8))
    ensures
        rgb.0 == spec_red(c),
        rgb.1 == spec_green(c),
        rgb.2 == spec_blue(c),
{
    proof {
        assert((c as int) / 2048 < 32 && ((c as int) / 32) % 64 < 64 && (c as int) % 32 < 32)
            by (nonlinear_arith);
    }
    ((c / 2048) as u8, ((c / 32) % 64) as u8, (c % 32) as u8)
}

/// Split a packed color into its two wire bytes, high byte first.
pub fn color_to_bytes(c: u16) -> (bytes: (u8, u8))
    ensures
        bytes.0 == spec_color_hi(c),
        bytes.1 == spec_color_lo(c),
{
    ((c / 256) as u8, (c % 256) as u8)
}

/// Packing then unpacking returns the original channels.
pub proof fn lemma_pack_unpack(r: u8, g: u8, b: u8)
    requires
        r < 32,
        g < 64,
        b < 32,
    ensures
        spec_pack_rgb565(r, g, b) <= u16::MAX,
        spec_red(spec_pack_rgb565(r, g, b) as u16) == r,
        spec_green(spec_pack_rgb565(r, g, b) as u16) == g,
        spec_blue(spec_pack_rgb565(r, g, b) as u16) == b,
{
    let c = spec_pack_rgb565(r, g, b);
    assert(c <= 65535);
    assert(c / 2048 == r && (c / 32) % 64 == g && c % 32 == b) by (nonlinear_arith)
        requires
            c == (r as int) * 2048 + (g as int) * 32 + (b as int),
            r < 32,
            g < 64,
            b < 32,
    ;
}

/// Unpacking then packing returns the original color.
pub proof fn lemma_unpack_pack(c: u16)
    ensures
        spec_pack_rgb565(spec_red(c) as u8, spec_green(c) as u8, spec_blue(c) as u8) == c,
{
    assert((c as int) / 2048 * 2048 + ((c as int) / 32) % 64 * 32 + (c as int) % 32 == c)
        by (nonlinear_arith);
    assert((c as int) / 2048 < 32 && ((c as int) / 32) % 64 < 64 && (c as int) % 32 < 32)
        by (nonlinear_arith);
}

/// The two wire bytes determine the color: high byte times 256 plus low byte.
pub proof fn lemma_color_bytes_exact(c: u16)
    ensures
        (spec_color_hi(c) as int) * 256 + (spec_color_lo(c) as int) == c,
{
    assert((c as int) / 256 * 256 + (c as int) % 256 == c) by (nonlinear_arith);
    assert((c as int) / 256 < 256 && (c as int) % 256 < 256) by (nonlinear_arith);
}

} // verus!
