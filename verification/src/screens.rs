//! The still screens: splash, difficulty menu and end of the match.

use vstd::prelude::*;

use crate::arena::{CX, CY, RAW_BG, RAW_COMPUTER, RAW_PLAYER};
use crate::canvas;
use crate::canvas::{fill_circle, fill_rect, paint_circle_ring, plot};
use crate::color::Rgb;
use crate::geometry::FRAME_LEN;
use crate::score;
use crate::score::{draw_digits, SCORE_W};
use crate::text;
use crate::text::draw_text;

verus! {

/// Colour of the button for the medium difficulty.
pub const RAW_MEDIUM: u16 = 0xFFE0;

/// Height of a button.
pub const BUTTON_H: i32 = 65;

/// Radius of the face on the end screen.
pub const FACE_R: i32 = 90;

/// Half the width of the mouth of the face.
pub const MOUTH_W: i32 = 50;

/// How well the computer plays.
#[derive(Clone, Copy, PartialEq, Eq, Structural, Debug)]
pub enum Difficulty {
    Easy,
    Medium,
    Hard,
}

/// First row of the button of a difficulty.
pub open spec fn top_of(d: Difficulty) -> int {
    match d {
        Difficulty::Easy => 60,
        Difficulty::Medium => 200,
        Difficulty::Hard => 340,
    }
}

/// The pixels of the button of a difficulty.
pub open spec fn button(d: Difficulty) -> spec_fn(int, int) -> bool {
    canvas::block(123, top_of(d), 343, top_of(d) + BUTTON_H)
}

/// First row of the button of a difficulty.
pub fn button_top(d: Difficulty) -> (y: i32)
    ensures
        y == top_of(d),
{
    match d {
        Difficulty::Easy => 60,
        Difficulty::Medium => 200,
        Difficulty::Hard => 340,
    }
}

/// Memory of one colour.
pub open spec fn filled(len: nat, color: u16) -> Seq<u16> {
    Seq::new(len, |i: int| color)
}

/// Fills the whole frame memory.
pub fn fill(buf: &mut [u16], color: u16)
    ensures
        final(buf)@ == Seq::new(old(buf)@.len(), |i: int| color),
        final(buf)@ == filled(old(buf)@.len(), color),
{
    let ghost before = buf@;
    let n: usize = buf.len();
    let mut i: usize = 0;
    while i < n
        invariant
            n == before.len(),
            buf@.len() == n,
            i <= n,
            forall|j: int| 0 <= j < i ==> buf@[j] == color,
        decreases n - i,
    {
        buf[i] = color;
        i += 1;
    }
    assert(buf@ =~= Seq::new(before.len(), |i: int| color));
}

/// The pixel number `i` of a picture stored as big-endian byte pairs.
pub open spec fn stored_pixel(picture: Seq<u8>, i: int) -> int {
    picture[2 * i] * 256 + picture[2 * i + 1]
}

/// The memory `s` with a picture copied into it.
pub open spec fn pictured(s: Seq<u16>, picture: Seq<u8>) -> Seq<u16> {
    Seq::new(
        s.len(),
        |i: int|
            if i < picture.len() as int / 2 {
                stored_pixel(picture, i) as u16
            } else {
                s[i]
            },
    )
}

/// Copies a picture that is stored as big-endian byte pairs into the frame
/// memory, as far as both reach.
pub fn load_picture(buf: &mut [u16], picture: &[u8])
    ensures
        final(buf)@ == Seq::new(
            old(buf)@.len(),
            |i: int|
                if i < picture@.len() as int / 2 {
                    stored_pixel(picture@, i) as u16
                } else {
                    old(buf)@[i]
                },
        ),
        final(buf)@ == pictured(old(buf)@, picture@),
{
    let ghost before = buf@;
    let n: usize = buf.len();
    let len: usize = picture.len();
    let pairs: usize = len / 2;
    let mut i: usize = 0;
    while i < n && i < pairs
        invariant
            n == before.len(),
            buf@.len() == n,
            i <= n,
            i <= pairs,
            len == picture@.len(),
            pairs == len / 2,
            forall|j: int|
                0 <= j < n ==> #[trigger] buf@[j] == if j < i {
                    stored_pixel(picture@, j) as u16
                } else {
                    before[j]
                },
        decreases n - i,
    {
        let upper: u16 = picture[2 * i] as u16;
        let lower: u16 = picture[2 * i + 1] as u16;
        assert(((upper << 8) | lower) == upper * 256 + lower) by (bit_vector)
            requires
                upper < 256,
                lower < 256,
        ;
        buf[i] = (upper << 8) | lower;
        i += 1;
    }
    assert(buf@ =~= Seq::new(
        before.len(),
        |i: int|
            if i < picture@.len() as int / 2 {
                stored_pixel(picture@, i) as u16
            } else {
                before[i]
            },
    ));
}

/// Draws text of up to eight characters in the middle of the columns, with its
/// line at the row `y`.
fn draw_centred(buf: &mut [u16], label: &str, scale: i32, y: i32, ink: Rgb)
    requires
        old(buf)@.len() >= FRAME_LEN,
        label@.len() <= 8,
        0 < scale <= 3,
        0 <= y < 466,
        ink.wf(),
    ensures
        final(buf)@ == canvas::painted(
            old(buf)@,
            centred(label@, scale as int, y as int),
            crate::color::raw_of(ink) as u16,
        ),
        text::within(
            centred(label@, scale as int, y as int),
            centred_box(label@.len() as int, scale as int, y as int),
        ),
{
    let n: i32 = label.unicode_len() as i32;
    assert(0 <= n * scale <= 24) by (nonlinear_arith)
        requires
            0 <= n <= 8,
            0 < scale <= 3,
    ;
    assert(n * scale * 10 == n * 10 * scale) by (nonlinear_arith);
    let x: i32 = CX - n * scale * 10 / 2;
    assert forall|col: int, row: int| 0 <= col < 80 && 0 <= row < 20 implies #[trigger]
        text::square_fits(scale as int, x as int, y as int, col, row - text::BASELINE) by {
        let r = row - text::BASELINE;
        assert(0 <= col * scale <= 240) by (nonlinear_arith)
            requires
                0 <= col < 80,
                0 < scale <= 3,
        ;
        assert(-60 <= r * scale <= 60) by (nonlinear_arith)
            requires
                -15 <= r < 5,
                0 < scale <= 3,
        ;
    }
    draw_text(buf, label, scale, x, y, ink);
}

/// The pixels of text in the middle of the columns: glyphs of ten columns,
/// enlarged.
pub open spec fn centred(label: Seq<char>, scale: int, y: int) -> spec_fn(int, int) -> bool {
    text::text_shape(label, scale, CX - label.len() * 10 * scale / 2, y)
}

/// The columns and rows of `n` enlarged glyphs in the middle of the columns.
pub open spec fn centred_box(n: int, scale: int, y: int) -> spec_fn(int, int) -> bool {
    let x = CX - n * 10 * scale / 2;
    canvas::block(x, y - 15 * scale, x + 10 * n * scale, y + 5 * scale)
}

/// The label on the button of a difficulty.
pub open spec fn label_of(d: Difficulty) -> Seq<char> {
    match d {
        Difficulty::Easy => "EASY"@,
        Difficulty::Medium => "MEDIUM"@,
        Difficulty::Hard => "HARD"@,
    }
}

/// The pixels of the label on the button of a difficulty.
pub open spec fn label(d: Difficulty) -> spec_fn(int, int) -> bool {
    centred(label_of(d), 2, top_of(d) + 46)
}

/// The difficulty menu: three buttons with their labels.
pub open spec fn menu(len: nat) -> Seq<u16> {
    let blank = Seq::new(len, |i: int| RAW_BG);
    let one = canvas::painted(blank, button(Difficulty::Easy), RAW_PLAYER);
    let two = canvas::painted(one, button(Difficulty::Medium), RAW_MEDIUM);
    let three = canvas::painted(two, button(Difficulty::Hard), RAW_COMPUTER);
    let easy = canvas::painted(three, label(Difficulty::Easy), 0);
    let medium = canvas::painted(easy, label(Difficulty::Medium), 0);
    canvas::painted(medium, label(Difficulty::Hard), 0)
}

/// Draws the difficulty menu.  Every label lies on its own button.
pub fn draw_menu(buf: &mut [u16])
    requires
        old(buf)@.len() >= FRAME_LEN,
    ensures
        final(buf)@ == menu(old(buf)@.len()),
        forall|d: Difficulty| text::within(#[trigger] label(d), button(d)),
{
    let bw: i32 = 220;
    let bx: i32 = CX - bw / 2;
    let black: Rgb = Rgb { r: 0, g: 0, b: 0 };
    fill(buf, RAW_BG);
    let easy: i32 = button_top(Difficulty::Easy);
    let medium: i32 = button_top(Difficulty::Medium);
    let hard: i32 = button_top(Difficulty::Hard);
    fill_rect(buf, bx, easy, bx + bw, easy + BUTTON_H, RAW_PLAYER);
    fill_rect(buf, bx, medium, bx + bw, medium + BUTTON_H, RAW_MEDIUM);
    fill_rect(buf, bx, hard, bx + bw, hard + BUTTON_H, RAW_COMPUTER);
    proof {
        reveal_strlit("EASY");
        reveal_strlit("MEDIUM");
        reveal_strlit("HARD");
    }
    draw_centred(buf, "EASY", 2, easy + 46, black);
    draw_centred(buf, "MEDIUM", 2, medium + 46, black);
    draw_centred(buf, "HARD", 2, hard + 46, black);
    assert forall|d: Difficulty| text::within(#[trigger] label(d), button(d)) by {
        match d {
            Difficulty::Easy => {},
            Difficulty::Medium => {},
            Difficulty::Hard => {},
        }
    }
}

/// How far the mouth is bent at `xi` columns from its middle.
pub open spec fn bend(xi: int) -> int {
    22 * (2500 - xi * xi) / 2500
}

/// The pixels of the mouth: a line seven pixels thick, bent down in the middle
/// where the match was won and up where it was lost.
pub open spec fn mouth(won: bool) -> spec_fn(int, int) -> bool {
    |x: int, y: int|
        {
            let xi = x - CX;
            let middle = CY + 40 + if won {
                bend(xi)
            } else {
                -bend(xi)
            };
            -MOUTH_W <= xi <= MOUTH_W && middle - 3 <= y <= middle + 3
        }
}

/// Draws the mouth of the face.
pub fn draw_mouth(buf: &mut [u16], won: bool, color: u16)
    requires
        old(buf)@.len() >= FRAME_LEN,
    ensures
        final(buf)@ == canvas::painted(old(buf)@, mouth(won), color),
{
    let ghost before = buf@;
    let mut xi: i32 = -MOUTH_W;
    assert(buf@ =~= canvas::painted(
        before,
        |x: int, y: int| mouth(won)(x, y) && x < CX + xi,
        color,
    ));
    while xi <= MOUTH_W
        invariant
            -MOUTH_W <= xi <= MOUTH_W + 1,
            before.len() >= FRAME_LEN,
            buf@ == canvas::painted(
                before,
                |x: int, y: int| mouth(won)(x, y) && x < CX + xi,
                color,
            ),
        decreases MOUTH_W + 1 - xi,
    {
        let ghost left = buf@;
        proof {
            canvas::square_is_bounded(xi as int, 50);
        }
        let depth: i32 = 22 * (2500 - xi * xi) / 2500;
        let y_off: i32 = if won {
            depth
        } else {
            -depth
        };
        let px: i32 = CX + xi;
        let py: i32 = CY + 40 + y_off;
        let mut dy: i32 = -3;
        assert(buf@ =~= canvas::painted(
            left,
            |x: int, y: int| x == px && py - 3 <= y < py + dy,
            color,
        ));
        while dy <= 3
            invariant
                -3 <= dy <= 4,
                -1000 <= py <= 1000,
                left.len() >= FRAME_LEN,
                buf@ == canvas::painted(
                    left,
                    |x: int, y: int| x == px && py - 3 <= y < py + dy,
                    color,
                ),
            decreases 4 - dy,
        {
            plot(buf, px, py + dy, color);
            dy += 1;
            assert(buf@ =~= canvas::painted(
                left,
                |x: int, y: int| x == px && py - 3 <= y < py + dy,
                color,
            ));
        }
        xi += 1;
        assert(px - CX == xi - 1);
        assert(buf@ =~= canvas::painted(
            before,
            |x: int, y: int| mouth(won)(x, y) && x < CX + xi,
            color,
        ));
    }
    assert(buf@ =~= canvas::painted(before, mouth(won), color));
}

/// The frame `s` with the end screen drawn on it.
pub open spec fn end_screen(s: Seq<u16>, won: bool, ps: u8, cs: u8) -> Seq<u16> {
    let color = if won {
        RAW_PLAYER
    } else {
        RAW_COMPUTER
    };
    let digits = score::score_drawn(s, 194, 50, ps, cs);
    let face = canvas::painted(
        digits,
        canvas::annulus(CX as int, CY as int, FACE_R - 2, FACE_R + 2),
        color,
    );
    let left = canvas::painted(face, canvas::disc(CX - 28, CY - 25, 10), color);
    let right = canvas::painted(left, canvas::disc(CX + 28, CY - 25, 10), color);
    let drawn = canvas::painted(right, mouth(won), color);
    if won {
        canvas::painted(drawn, centred("You win!"@, 3, 385), 0x07FF)
    } else {
        drawn
    }
}

/// Draws the end of a match: the score, a face that smiles or frowns, and a
/// line of text where the player won.
pub fn draw_end_screen(buf: &mut [u16], won: bool, player_score: u8, computer_score: u8)
    requires
        old(buf)@.len() >= FRAME_LEN,
    ensures
        final(buf)@ == end_screen(old(buf)@, won, player_score, computer_score),
        won ==> text::within(centred("You win!"@, 3, 385), canvas::block(113, 340, 353, 400)),
{
    let color: u16 = if won {
        RAW_PLAYER
    } else {
        RAW_COMPUTER
    };
    draw_digits(buf, CX - SCORE_W / 2, 50, player_score, computer_score);
    assert(canvas::half_of(5) == 2);
    assert(88int * 88 == 7744 && 92int * 92 == 8464);
    paint_circle_ring(buf, CX, CY, FACE_R, 5, color);
    fill_circle(buf, CX - 28, CY - 25, 10, color);
    fill_circle(buf, CX + 28, CY - 25, 10, color);
    draw_mouth(buf, won, color);
    if won {
        proof {
            reveal_strlit("You win!");
        }
        let cyan: Rgb = Rgb { r: 0, g: 63, b: 31 };
        draw_centred(buf, "You win!", 3, 385, cyan);
    }
}

/// The upper byte of each pixel of a picture is the earlier one of its two bytes
/// in the picture, the lower byte the later one; the memory that the picture has
/// no pair of bytes for is as before.
pub proof fn a_picture_is_copied(s: Seq<u16>, picture: Seq<u8>, i: int)
    requires
        0 <= i < s.len(),
    ensures
        pictured(s, picture).len() == s.len(),
        2 * i + 1 < picture.len() ==> {
            &&& pictured(s, picture)[i] as int / 256 == picture[2 * i]
            &&& pictured(s, picture)[i] as int % 256 == picture[2 * i + 1]
        },
        2 * i + 1 >= picture.len() ==> pictured(s, picture)[i] == s[i],
{
}

/// The menu pixel by pixel: the labels are black, and so is everything beside
/// the buttons, which are cyan, yellow and red from top to bottom, 220 pixels
/// wide and 65 high.
pub proof fn the_menu_has_three_buttons(len: nat, x: int, y: int)
    requires
        len >= FRAME_LEN,
        0 <= x < 466,
        0 <= y < 466,
    ensures
        ({
            let ink = text::text_shape("EASY"@, 2, 193, 106)(x, y) || text::text_shape(
                "MEDIUM"@,
                2,
                173,
                246,
            )(x, y) || text::text_shape("HARD"@, 2, 193, 386)(x, y);
            menu(len)[466 * y + x] == if ink || x < 123 || x > 342 {
                0u16
            } else if 60 <= y <= 124 {
                0x07FFu16
            } else if 200 <= y <= 264 {
                0xFFE0u16
            } else if 340 <= y <= 404 {
                0xF800u16
            } else {
                0u16
            }
        }),
{
    reveal_strlit("EASY");
    reveal_strlit("MEDIUM");
    reveal_strlit("HARD");
    canvas::index_of_splits(x, y);
}

/// The mouth is the graph of a parabola, 50 columns to either side of the middle
/// and 22 rows deep there, rounded to whole rows and three rows thicker on both
/// sides: it goes down from the row 273 where the match was won, up where it was
/// lost.
pub proof fn the_mouth_is_a_parabola(won: bool, x: int, y: int)
    ensures
        mouth(won)(x, y) <==> on_mouth(won, x, y),
{
    let xi = x - 233;
    let t = 22 * (2500 - xi * xi);
    assert(2500 * (t / 2500) <= t < 2500 * (t / 2500) + 2500);
    assert(bend(x - CX) == t / 2500);
}

/// The pixel `(x, y)` is at most three rows away from the parabola of a mouth.
pub open spec fn on_mouth(won: bool, x: int, y: int) -> bool {
    let xi = x - 233;
    let down = if won {
        y - 273
    } else {
        273 - y
    };
    -50 <= xi <= 50 && 2500 * (down - 3) <= 22 * (2500 - xi * xi) < 2500 * (down + 4)
}

/// A face that smiles, turned over, frowns.
pub proof fn a_smile_turned_over_is_a_frown(x: int, y: int)
    ensures
        mouth(true)(x, y) == mouth(false)(x, 546 - y),
        mouth(true)(x, y) == mouth(true)(466 - x, y),
{
    the_mouth_is_a_parabola(true, x, y);
    the_mouth_is_a_parabola(false, x, 546 - y);
    the_mouth_is_a_parabola(true, 466 - x, y);
    assert((x - 233) * (x - 233) == (466 - x - 233) * (466 - x - 233)) by (nonlinear_arith);
}

/// The end screen pixel by pixel.  Above the face stands the score, the points of
/// the computer in red on the left and those of the player in cyan on the right,
/// whoever won.  The face is a ring 90 pixels from the middle of the screen with
/// two eyes and a mouth, cyan and smiling for the player who won, red and
/// frowning for one who lost.  Who won has a line of cyan text below it.
/// Everything else is as before.
pub proof fn the_end_screen_tells_who_won(
    s: Seq<u16>,
    won: bool,
    player: u8,
    computer: u8,
    x: int,
    y: int,
)
    requires
        s.len() >= FRAME_LEN,
        0 <= x < 466,
        0 <= y < 466,
    ensures
        ({
            let ring = 7744 <= (x - 233) * (x - 233) + (y - 233) * (y - 233) <= 8464;
            let left_eye = (x - 205) * (x - 205) + (y - 208) * (y - 208) <= 100;
            let right_eye = (x - 261) * (x - 261) + (y - 208) * (y - 208) <= 100;
            let text = won && text::text_shape("You win!"@, 3, 113, 385)(x, y);
            end_screen(s, won, player, computer)[466 * y + x] == if text {
                0x07FFu16
            } else if ring || left_eye || right_eye || on_mouth(won, x, y) {
                if won {
                    0x07FFu16
                } else {
                    0xF800u16
                }
            } else {
                match score::score_ink(player, computer, x - 194, y - 50) {
                    Some(color) => color,
                    None => s[466 * y + x],
                }
            }
        }),
{
    reveal_strlit("You win!");
    canvas::index_of_splits(x, y);
    score::a_score_shows_whose_points_they_are(s, 194, 50, player, computer, x, y);
    the_mouth_is_a_parabola(won, x, y);
    assert(88int * 88 == 7744 && 92int * 92 == 8464 && 10int * 10 == 100);
}

/// On the end screen nothing but the score is drawn above the row 100, so the
/// points of both sides can be read there whoever won: in the rectangle of the
/// left digit those of the computer, in that of the right one those of the
/// player.
pub proof fn the_end_screen_keeps_the_points_apart(
    s: Seq<u16>,
    won: bool,
    player: u8,
    computer: u8,
    dx: int,
    dy: int,
)
    requires
        s.len() >= FRAME_LEN,
        0 <= dx < 26,
        0 <= dy < 48,
    ensures
        ({
            let after = end_screen(s, won, player, computer);
            let left = 466 * (50 + dy) + 194 + dx;
            let right = 466 * (50 + dy) + 246 + dx;
            &&& after[left] == if score::has_ink(computer, dx, dy) {
                0xF800u16
            } else {
                s[left]
            }
            &&& after[right] == if score::has_ink(player, dx, dy) {
                0x07FFu16
            } else {
                s[right]
            }
        }),
{
    let y = 50 + dy;
    far_from_the_face(won, 194 + dx, y);
    far_from_the_face(won, 246 + dx, y);
    the_end_screen_tells_who_won(s, won, player, computer, 194 + dx, y);
    the_end_screen_tells_who_won(s, won, player, computer, 246 + dx, y);
    text::enlarged_text_is_the_bitmap("You win!"@, 3, 113, 385, 194 + dx, y);
    text::enlarged_text_is_the_bitmap("You win!"@, 3, 113, 385, 246 + dx, y);
}

/// No pixel of the face is above the row 100.
proof fn far_from_the_face(won: bool, x: int, y: int)
    requires
        y < 100,
    ensures
        (x - 233) * (x - 233) + (y - 233) * (y - 233) > 8464,
        (x - 205) * (x - 205) + (y - 208) * (y - 208) > 100,
        (x - 261) * (x - 261) + (y - 208) * (y - 208) > 100,
        !on_mouth(won, x, y),
{
    assert((x - 233) * (x - 233) >= 0) by (nonlinear_arith);
    assert((x - 205) * (x - 205) >= 0) by (nonlinear_arith);
    assert((x - 261) * (x - 261) >= 0) by (nonlinear_arith);
    assert((y - 233) * (y - 233) > 8464) by (nonlinear_arith)
        requires
            y < 100,
    ;
    assert((y - 208) * (y - 208) > 100) by (nonlinear_arith)
        requires
            y < 100,
    ;
    if -50 <= x - 233 <= 50 {
        canvas::square_is_bounded(x - 233, 50);
    }
}

/// Filled memory has its colour everywhere, beyond the screen too.
pub proof fn filled_memory_has_one_colour(len: nat, color: u16, i: int)
    requires
        0 <= i < len,
    ensures
        filled(len, color).len() == len,
        filled(len, color)[i] == color,
{
}

} // verus!
