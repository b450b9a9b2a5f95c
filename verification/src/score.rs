//! The score in the middle of the field: two seven-segment digits and a dash.

use vstd::prelude::*;

use crate::arena::{CX, CY, RAW_BG, RAW_COMPUTER, RAW_PLAYER};
use crate::canvas;
use crate::canvas::fill_rect;
use crate::geometry;
use crate::geometry::{Rect, FRAME_LEN};

verus! {

/// Width of a digit.
pub const DIGIT_W: i32 = 26;

/// Height of a digit.
pub const DIGIT_H: i32 = 48;

/// Space between a digit and the dash.
pub const SCORE_GAP: i32 = 6;

/// Width of the dash.
pub const DASH_W: i32 = 14;

/// Width of the whole score.
pub const SCORE_W: i32 = 78;

/// Colour of the dash.
pub const RAW_DASH: u16 = 0x7BEF;

/// The lit segments of a digit, one per bit: top, upper right, lower right,
/// bottom, lower left, upper left, middle.  What is no digit shows as 9.
pub open spec fn segments(digit: u8) -> u8 {
    if digit == 0 {
        63
    } else if digit == 1 {
        6
    } else if digit == 2 {
        91
    } else if digit == 3 {
        79
    } else if digit == 4 {
        102
    } else if digit == 5 {
        109
    } else if digit == 6 {
        125
    } else if digit == 7 {
        7
    } else if digit == 8 {
        127
    } else {
        111
    }
}

/// The segment of the bit of value `bit` is lit in a digit.
pub open spec fn lit(digit: u8, bit: int) -> bool {
    (segments(digit) as int / bit) % 2 == 1
}

/// The pixels of the lit segments of a digit whose top left corner is
/// `(x0, y0)`.
pub open spec fn digit_shape(x0: int, y0: int, digit: u8) -> spec_fn(int, int) -> bool {
    |x: int, y: int|
        {
            ||| lit(digit, 1) && canvas::block(x0 + 3, y0, x0 + 23, y0 + 6)(x, y)
            ||| lit(digit, 2) && canvas::block(x0 + 20, y0 + 3, x0 + 26, y0 + 24)(x, y)
            ||| lit(digit, 4) && canvas::block(x0 + 20, y0 + 24, x0 + 26, y0 + 45)(x, y)
            ||| lit(digit, 8) && canvas::block(x0 + 3, y0 + 42, x0 + 23, y0 + 48)(x, y)
            ||| lit(digit, 16) && canvas::block(x0, y0 + 24, x0 + 6, y0 + 45)(x, y)
            ||| lit(digit, 32) && canvas::block(x0, y0 + 3, x0 + 6, y0 + 24)(x, y)
            ||| lit(digit, 64) && canvas::block(x0 + 3, y0 + 21, x0 + 23, y0 + 27)(x, y)
        }
}

/// The lit segments of a digit.
fn seg(digit: u8) -> (s: u8)
    ensures
        s == segments(digit),
{
    match digit {
        0 => 63,
        1 => 6,
        2 => 91,
        3 => 79,
        4 => 102,
        5 => 109,
        6 => 125,
        7 => 7,
        8 => 127,
        _ => 111,
    }
}

/// Draws a seven-segment digit with its top left corner at `(x0, y0)`.
pub fn draw_big_digit(buf: &mut [u16], x0: i32, y0: i32, digit: u8, color: u16)
    requires
        old(buf)@.len() >= FRAME_LEN,
        x0 + DIGIT_W <= i32::MAX,
        y0 + DIGIT_H <= i32::MAX,
    ensures
        final(buf)@ == canvas::painted(
            old(buf)@,
            digit_shape(x0 as int, y0 as int, digit),
            color,
        ),
{
    let ghost before = buf@;
    let s: u8 = seg(digit);
    let hh: i32 = DIGIT_H / 2;
    let t: i32 = 6;
    assert(s & 1 != 0 <==> s % 2 == 1) by (bit_vector);
    assert(s & 2 != 0 <==> (s / 2) % 2 == 1) by (bit_vector);
    assert(s & 4 != 0 <==> (s / 4) % 2 == 1) by (bit_vector);
    assert(s & 8 != 0 <==> (s / 8) % 2 == 1) by (bit_vector);
    assert(s & 16 != 0 <==> (s / 16) % 2 == 1) by (bit_vector);
    assert(s & 32 != 0 <==> (s / 32) % 2 == 1) by (bit_vector);
    assert(s & 64 != 0 <==> (s / 64) % 2 == 1) by (bit_vector);
    if s & 1 != 0 {
        fill_rect(buf, x0 + t / 2, y0, x0 + DIGIT_W - t / 2, y0 + t, color);
    }
    if s & 2 != 0 {
        fill_rect(buf, x0 + DIGIT_W - t, y0 + t / 2, x0 + DIGIT_W, y0 + hh, color);
    }
    if s & 4 != 0 {
        fill_rect(buf, x0 + DIGIT_W - t, y0 + hh, x0 + DIGIT_W, y0 + DIGIT_H - t / 2, color);
    }
    if s & 8 != 0 {
        fill_rect(buf, x0 + t / 2, y0 + DIGIT_H - t, x0 + DIGIT_W - t / 2, y0 + DIGIT_H, color);
    }
    if s & 16 != 0 {
        fill_rect(buf, x0, y0 + hh, x0 + t, y0 + DIGIT_H - t / 2, color);
    }
    if s & 32 != 0 {
        fill_rect(buf, x0, y0 + t / 2, x0 + t, y0 + hh, color);
    }
    if s & 64 != 0 {
        fill_rect(buf, x0 + t / 2, y0 + hh - t / 2, x0 + DIGIT_W - t / 2, y0 + hh + t / 2, color);
    }
    assert(buf@ =~= canvas::painted(before, digit_shape(x0 as int, y0 as int, digit), color));
}

/// The frame `s` with the two digits of a score and the dash between them, the
/// computer's on the left, from the column `x0` and the row `y0`.
pub open spec fn score_drawn(s: Seq<u16>, x0: int, y0: int, ps: u8, cs: u8) -> Seq<u16> {
    let left = canvas::painted(s, digit_shape(x0, y0, cs), RAW_COMPUTER);
    let dash = canvas::painted(
        left,
        canvas::block(x0 + 32, y0 + 21, x0 + 46, y0 + 27),
        RAW_DASH,
    );
    canvas::painted(dash, digit_shape(x0 + 52, y0, ps), RAW_PLAYER)
}

/// Draws both digits and the dash.
pub(crate) fn draw_digits(buf: &mut [u16], x0: i32, y0: i32, ps: u8, cs: u8)
    requires
        old(buf)@.len() >= FRAME_LEN,
        x0 + SCORE_W <= i32::MAX,
        y0 + DIGIT_H <= i32::MAX,
    ensures
        final(buf)@ == score_drawn(old(buf)@, x0 as int, y0 as int, ps, cs),
{
    draw_big_digit(buf, x0, y0, cs, RAW_COMPUTER);
    let dx: i32 = x0 + DIGIT_W + SCORE_GAP;
    fill_rect(buf, dx, y0 + DIGIT_H / 2 - 3, dx + DASH_W, y0 + DIGIT_H / 2 + 3, RAW_DASH);
    draw_big_digit(buf, x0 + DIGIT_W + SCORE_GAP + DASH_W + SCORE_GAP, y0, ps, RAW_PLAYER);
}

/// The frame `s` with a score in the middle of the field, on a background of its
/// own.
pub open spec fn field_score(s: Seq<u16>, ps: u8, cs: u8) -> Seq<u16> {
    score_drawn(
        canvas::painted(s, canvas::block(190, 205, 276, 261), RAW_BG),
        194,
        209,
        ps,
        cs,
    )
}

/// Draws the score `ps` of the player and `cs` of the computer in the middle of
/// the field, on a background of its own.
pub fn draw_big_score(buf: &mut [u16], ps: u8, cs: u8)
    requires
        old(buf)@.len() >= FRAME_LEN,
    ensures
        final(buf)@ == field_score(old(buf)@, ps, cs),
        final(buf)@ == score_drawn(
            canvas::painted(old(buf)@, canvas::block(190, 205, 276, 261), RAW_BG),
            194,
            209,
            ps,
            cs,
        ),
{
    let x0: i32 = CX - SCORE_W / 2;
    let y0: i32 = CY - DIGIT_H / 2;
    fill_rect(buf, x0 - 4, y0 - 4, x0 + SCORE_W + 4, y0 + DIGIT_H + 4, RAW_BG);
    draw_digits(buf, x0, y0, ps, cs);
}

/// The rectangle that a score in the middle of the field takes.
pub fn score_dirty() -> (r: Rect)
    ensures
        r == (Rect { x: 190, y: 205, w: 86, h: 56 }),
{
    let x0: i32 = CX - SCORE_W / 2 - 4;
    let y0: i32 = CY - DIGIT_H / 2 - 4;
    Rect { x: x0, y: y0, w: (SCORE_W + 8) as u32, h: (DIGIT_H + 8) as u32 }
}

/// Drawing the score changes no pixel outside its rectangle, and inside it
/// nothing is left of what was there before.
pub proof fn score_stays_in_its_rectangle(s: Seq<u16>, t: Seq<u16>, ps: u8, cs: u8)
    requires
        s.len() >= FRAME_LEN,
        t.len() >= FRAME_LEN,
    ensures
        ({
            let r = Rect { x: 190, y: 205, w: 86, h: 56 };
            let a = score_drawn(
                canvas::painted(s, canvas::block(190, 205, 276, 261), RAW_BG),
                194,
                209,
                ps,
                cs,
            );
            let b = score_drawn(
                canvas::painted(t, canvas::block(190, 205, 276, 261), RAW_BG),
                194,
                209,
                ps,
                cs,
            );
            forall|x: int, y: int| #[trigger]
                geometry::on_screen(x, y) ==> if r.covers(x, y) {
                    a[canvas::index_of(x, y)] == b[canvas::index_of(x, y)]
                } else {
                    a[canvas::index_of(x, y)] == s[canvas::index_of(x, y)]
                }
        }),
{
    assert forall|x: int, y: int| #[trigger] geometry::on_screen(x, y) implies 0
        <= canvas::index_of(x, y) < FRAME_LEN && canvas::index_of(x, y) % 466 == x
        && canvas::index_of(x, y) / 466 == y by {
        canvas::index_of_splits(x, y);
    }
}

/// A digit has ink `dx` columns and `dy` rows from its top left corner.  A digit
/// is 26 columns wide and 48 rows high, a segment 6 pixels thick; what is no
/// digit looks like 9.
pub open spec fn has_ink(digit: u8, dx: int, dy: int) -> bool {
    let top = digit != 1 && digit != 4;
    let upper_right = digit != 5 && digit != 6;
    let lower_right = digit != 2;
    let bottom = digit != 1 && digit != 4 && digit != 7;
    let lower_left = digit == 0 || digit == 2 || digit == 6 || digit == 8;
    let upper_left = digit != 1 && digit != 2 && digit != 3 && digit != 7;
    let middle = digit != 0 && digit != 1 && digit != 7;
    ||| top && 3 <= dx < 23 && 0 <= dy < 6
    ||| middle && 3 <= dx < 23 && 21 <= dy < 27
    ||| bottom && 3 <= dx < 23 && 42 <= dy < 48
    ||| upper_left && 0 <= dx < 6 && 3 <= dy < 24
    ||| lower_left && 0 <= dx < 6 && 24 <= dy < 45
    ||| upper_right && 20 <= dx < 26 && 3 <= dy < 24
    ||| lower_right && 20 <= dx < 26 && 24 <= dy < 45
}

/// A digit is drawn wherever it has ink and nowhere else.
pub proof fn a_digit_is_drawn_where_it_has_ink(x0: int, y0: int, digit: u8, x: int, y: int)
    ensures
        digit_shape(x0, y0, digit)(x, y) <==> has_ink(digit, x - x0, y - y0),
{
    assert(segments(0) == 63 && segments(1) == 6 && segments(2) == 91 && segments(3) == 79
        && segments(4) == 102 && segments(5) == 109 && segments(6) == 125 && segments(7) == 7
        && segments(8) == 127);
    if digit == 0 {
    } else if digit == 1 {
    } else if digit == 2 {
    } else if digit == 3 {
    } else if digit == 4 {
    } else if digit == 5 {
    } else if digit == 6 {
    } else if digit == 7 {
    } else if digit == 8 {
    } else {
        assert(segments(digit) == 111);
    }
}

/// No two digits look the same.
pub proof fn digits_are_told_apart(x0: int, y0: int, a: u8, b: u8)
    requires
        a <= 9,
        b <= 9,
        forall|x: int, y: int| #[trigger]
            digit_shape(x0, y0, a)(x, y) <==> digit_shape(x0, y0, b)(x, y),
    ensures
        a == b,
{
    let spots = seq![(10int, 0int), (10, 24), (10, 45), (0, 10), (0, 30), (25, 10), (25, 30)];
    assert forall|i: int| 0 <= i < 7 implies has_ink(a, (#[trigger] spots[i]).0, spots[i].1)
        == has_ink(b, spots[i].0, spots[i].1) by {
        let (x, y) = (x0 + spots[i].0, y0 + spots[i].1);
        a_digit_is_drawn_where_it_has_ink(x0, y0, a, x, y);
        a_digit_is_drawn_where_it_has_ink(x0, y0, b, x, y);
        assert(digit_shape(x0, y0, a)(x, y) <==> digit_shape(x0, y0, b)(x, y));
        assert(x - x0 == spots[i].0 && y - y0 == spots[i].1);
    }
    assert(spots[0] == (10int, 0int) && spots[1] == (10int, 24int) && spots[2] == (10int, 45int)
        && spots[3] == (0int, 10int) && spots[4] == (0int, 30int) && spots[5] == (25int, 10int)
        && spots[6] == (25int, 30int));
}

/// The colour of the score's ink, `dx` columns and `dy` rows from its top left
/// corner: red where the computer's points stand on the left, cyan where the
/// player's stand on the right, grey for the dash between them, or nothing.
pub open spec fn score_ink(player: u8, computer: u8, dx: int, dy: int) -> Option<u16> {
    if dx < 26 && has_ink(computer, dx, dy) {
        Some(0xF800u16)
    } else if 52 <= dx && has_ink(player, dx - 52, dy) {
        Some(0x07FFu16)
    } else if 32 <= dx < 46 && 21 <= dy < 27 {
        Some(0x7BEFu16)
    } else {
        None
    }
}

/// A score shows the points of the computer on the left and those of the player
/// on the right, each in its colour, and touches nothing else.
pub proof fn a_score_shows_whose_points_they_are(
    s: Seq<u16>,
    x0: int,
    y0: int,
    player: u8,
    computer: u8,
    x: int,
    y: int,
)
    requires
        s.len() >= FRAME_LEN,
        0 <= x < 466,
        0 <= y < 466,
    ensures
        score_drawn(s, x0, y0, player, computer).len() == s.len(),
        score_drawn(s, x0, y0, player, computer)[466 * y + x] == match score_ink(
            player,
            computer,
            x - x0,
            y - y0,
        ) {
            Some(color) => color,
            None => s[466 * y + x],
        },
{
    canvas::index_of_splits(x, y);
    a_digit_is_drawn_where_it_has_ink(x0, y0, computer, x, y);
    a_digit_is_drawn_where_it_has_ink(x0 + 52, y0, player, x, y);
}

/// In the middle of the field the score stands on black from the column 190 to
/// the column 275 and from the row 205 to the row 260, and all around it the
/// frame is as before.
pub proof fn the_score_on_the_field(
    s: Seq<u16>,
    player: u8,
    computer: u8,
    x: int,
    y: int,
)
    requires
        s.len() >= FRAME_LEN,
        0 <= x < 466,
        0 <= y < 466,
    ensures
        field_score(s, player, computer).len() == s.len(),
        field_score(s, player, computer)[466 * y + x] == match score_ink(
            player,
            computer,
            x - 194,
            y - 209,
        ) {
            Some(color) => color,
            None => if 190 <= x <= 275 && 205 <= y <= 260 {
                0u16
            } else {
                s[466 * y + x]
            },
        },
{
    let ground = canvas::painted(s, canvas::block(190, 205, 276, 261), RAW_BG);
    canvas::painted_at(s, canvas::block(190, 205, 276, 261), RAW_BG, x, y);
    a_score_shows_whose_points_they_are(ground, 194, 209, player, computer, x, y);
}

} // verus!
