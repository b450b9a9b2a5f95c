//! The battery gauge on the splash screen.

use vstd::prelude::*;

use crate::canvas;
use crate::canvas::fill_rect;
use crate::geometry;
use crate::geometry::{Rect, FRAME_LEN};

verus! {

const BW: i32 = 32;

const BH: i32 = 16;

const BX: i32 = 215;

const BY: i32 = 422;

const NW: i32 = 4;

const NH: i32 = 8;

/// Colour of a charge of `pct` percent: green from 50, yellow from 20, else
/// red.
pub open spec fn charge_color(pct: u8) -> u16 {
    if pct >= 50 {
        0x07E0
    } else if pct >= 20 {
        0xFFE0
    } else {
        0xF800
    }
}

/// How many columns are filled at `pct` percent: that share of the 30 columns
/// inside the outline, rounded.
pub open spec fn charge_columns(pct: u8) -> int {
    (pct * 30 + 50) / 100
}

/// The colour that the gauge gives the pixel `(x, y)`, if it paints it.
pub open spec fn gauge_ink(pct: u8) -> spec_fn(int, int) -> Option<u16> {
    |x: int, y: int|
        if canvas::block(216, 423, 216 + charge_columns(pct), 437)(x, y) {
            Some(charge_color(pct))
        } else if canvas::block(216, 423, 246, 437)(x, y) {
            Some(0x0000u16)
        } else if canvas::block(215, 422, 247, 438)(x, y) || canvas::block(247, 426, 251, 434)(
            x,
            y,
        ) {
            Some(0xFFFFu16)
        } else {
            None
        }
}

/// The rectangle of the gauge, its terminal included.
pub fn battery_rect() -> (r: Rect)
    ensures
        r == (Rect { x: 215, y: 422, w: 36, h: 16 }),
{
    Rect { x: 215, y: 422, w: 36, h: 16 }
}

/// Draws the gauge: a white outline with a terminal on its right, filled from
/// the left in proportion to the charge and black in the rest.
pub fn draw_battery(buf: &mut [u16], pct: u8)
    requires
        old(buf)@.len() >= FRAME_LEN,
    ensures
        final(buf)@ == canvas::inked(old(buf)@, gauge_ink(pct)),
{
    let ghost before = buf@;
    let color: u16 = if pct >= 50 {
        0x07E0
    } else if pct >= 20 {
        0xFFE0
    } else {
        0xF800
    };
    let ny: i32 = BY + (BH - NH) / 2;
    fill_rect(buf, BX + BW, ny, BX + BW + NW, ny + NH, 0xFFFF);
    fill_rect(buf, BX, BY, BX + BW, BY + 1, 0xFFFF);
    fill_rect(buf, BX, BY + BH - 1, BX + BW, BY + BH, 0xFFFF);
    fill_rect(buf, BX, BY, BX + 1, BY + BH, 0xFFFF);
    fill_rect(buf, BX + BW - 1, BY, BX + BW, BY + BH, 0xFFFF);
    let fill_w: i32 = (pct as i32 * (BW - 2) + 50) / 100;
    if fill_w > 0 {
        fill_rect(buf, BX + 1, BY + 1, BX + 1 + fill_w, BY + BH - 1, color);
    }
    if fill_w < BW - 2 {
        fill_rect(buf, BX + 1 + fill_w, BY + 1, BX + BW - 1, BY + BH - 1, 0x0000);
    }
    assert(buf@ =~= canvas::inked(before, gauge_ink(pct)));
}

/// Up to 118 percent the gauge changes no pixel outside its rectangle.
pub proof fn gauge_stays_in_its_rectangle(s: Seq<u16>, pct: u8, x: int, y: int)
    requires
        s.len() >= FRAME_LEN,
        pct <= 118,
        geometry::on_screen(x, y),
        !(Rect { x: 215, y: 422, w: 36, h: 16 }).covers(x, y),
    ensures
        canvas::inked(s, gauge_ink(pct))[canvas::index_of(x, y)] == s[canvas::index_of(x, y)],
{
    canvas::index_of_splits(x, y);
}

/// A gauge drawn over an older one leaves nothing of it, unless the older one
/// was filled beyond its outline and further than the new one.
pub proof fn gauge_replaces_an_older_one(s: Seq<u16>, older: u8, pct: u8)
    requires
        s.len() >= FRAME_LEN,
        charge_columns(older) <= 31 || charge_columns(older) <= charge_columns(pct),
    ensures
        canvas::inked(canvas::inked(s, gauge_ink(older)), gauge_ink(pct)) == canvas::inked(
            s,
            gauge_ink(pct),
        ),
{
    assert(canvas::inked(canvas::inked(s, gauge_ink(older)), gauge_ink(pct)) =~= canvas::inked(
        s,
        gauge_ink(pct),
    ));
}

/// A fuller battery never shows fewer columns.
pub proof fn gauge_grows_with_charge(a: u8, b: u8)
    requires
        a <= b,
    ensures
        charge_columns(a) <= charge_columns(b),
        charge_columns(0) == 0,
        charge_columns(100) == 30,
{
}

/// The gauge pixel by pixel.  A column of its inside, counted from 1 on the left,
/// is filled exactly where that many thirtieths of a full charge, less half of
/// one, are not more than the charge; the fill is green from 50 percent, yellow
/// from 20 and red below.  Beside it the inside is black, the outline and the
/// terminal are white, and everything else is as before.
pub proof fn the_gauge_shows_the_charge(s: Seq<u16>, pct: u8, x: int, y: int)
    requires
        s.len() >= FRAME_LEN,
        0 <= x < 466,
        0 <= y < 466,
    ensures
        ({
            let fill: u16 = if pct < 20 {
                0xF800
            } else if pct < 50 {
                0xFFE0
            } else {
                0x07E0
            };
            let filled = 423 <= y <= 436 && x >= 216 && 100 * (x - 215) <= 30 * pct + 50;
            let inside = 423 <= y <= 436 && 216 <= x <= 245;
            let outline = 422 <= y <= 437 && 215 <= x <= 246 && !inside;
            let terminal = 426 <= y <= 433 && 247 <= x <= 250;
            canvas::inked(s, gauge_ink(pct))[466 * y + x] == if filled {
                fill
            } else if inside {
                0u16
            } else if outline || terminal {
                0xFFFFu16
            } else {
                s[466 * y + x]
            }
        }),
{
    canvas::inked_at(s, gauge_ink(pct), x, y);
}

} // verus!
