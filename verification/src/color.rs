//! RGB565 colours.

use vstd::prelude::*;

verus! {

/// The channels of a colour: 5 bits of red, 6 of green, 5 of blue.
#[derive(Clone, Copy, PartialEq, Eq, Structural, Debug)]
pub struct Rgb {
    pub r: u8,
    pub g: u8,
    pub b: u8,
}

impl Rgb {
    /// Each channel fits in its bits.
    pub open spec fn wf(self) -> bool {
        self.r < 32 && self.g < 64 && self.b < 32
    }
}

/// A colour as a frame holds it.
pub open spec fn raw_of(c: Rgb) -> int {
    c.r * 2048 + c.g * 32 + c.b
}

/// Red, green and blue of a colour as a frame holds it.
pub open spec fn red(raw: u16) -> int {
    raw as int / 2048
}

pub open spec fn green(raw: u16) -> int {
    (raw as int / 32) % 64
}

pub open spec fn blue(raw: u16) -> int {
    raw as int % 32
}

/// Puts three channels side by side.
pub(crate) fn pack(r: u16, g: u16, b: u16) -> (raw: u16)
    requires
        r < 32,
        g < 64,
        b < 32,
    ensures
        raw == r * 2048 + g * 32 + b,
{
    assert(((r << 11) | (g << 5) | b) == r * 2048 + g * 32 + b) by (bit_vector)
        requires
            r < 32,
            g < 64,
            b < 32,
    ;
    (r << 11) | (g << 5) | b
}

/// Packs a colour for a frame.
pub fn raw565(c: Rgb) -> (raw: u16)
    requires
        c.wf(),
    ensures
        raw == raw_of(c),
{
    pack(c.r as u16, c.g as u16, c.b as u16)
}

/// A packed colour has the channels that it was packed from.
pub proof fn packing_keeps_channels(c: Rgb, raw: u16)
    requires
        c.wf(),
        raw == raw_of(c),
    ensures
        red(raw) == c.r,
        green(raw) == c.g,
        blue(raw) == c.b,
{
}

/// Every 16-bit value is a colour: its upper 5, middle 6 and lower 5 bits, which
/// packed again give the same value.
pub proof fn channels_make_the_colour(c: Rgb, raw: u16)
    ensures
        c.wf() <==> c.r <= 31 && c.g <= 63 && c.b <= 31,
        c.wf() && raw == raw_of(c) ==> {
            &&& raw as int / 2048 == c.r
            &&& raw as int % 2048 / 32 == c.g
            &&& raw as int % 32 == c.b
        },
        2048 * red(raw) + 32 * green(raw) + blue(raw) == raw,
        0 <= red(raw) <= 31 && 0 <= green(raw) <= 63 && 0 <= blue(raw) <= 31,
{
}

} // verus!
