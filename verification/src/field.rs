//! The field during a match: drawn whole when the match starts, and frame by
//! frame after that.

use vstd::prelude::*;

use crate::arena;
use crate::arena::{paint_paddle, paint_ring, BALL_R, RAW_BG, RAW_COMPUTER, RAW_PLAYER, RAW_WALL};
use crate::canvas;
use crate::canvas::fill_circle;
use crate::geometry;
use crate::geometry::{Rect, FRAME_LEN};
use crate::score;
use crate::score::draw_big_score;
use crate::screens::fill;

verus! {

/// Half the length of the player's paddle.
pub const PADDLE_HALF_LEN: u32 = 50;

/// Thickness of a paddle.
pub const PADDLE_THICK: u32 = 16;

/// How much further than a paddle the patch that erases it reaches along the
/// track, and how much thicker it is.
pub const ERASE_MARGIN: u32 = 4;

/// What a frame shows beside the paddles: the pixel of the ball's centre, and
/// the points of both sides.
#[derive(Clone, Copy, PartialEq, Eq, Structural, Debug)]
pub struct Shown {
    pub ball_x: i32,
    pub ball_y: i32,
    pub player_score: u8,
    pub computer_score: u8,
}

/// The ball can be drawn at `(x, y)`.
pub open spec fn ball_fits(x: int, y: int) -> bool {
    &&& i32::MIN + BALL_R <= x <= i32::MAX - BALL_R
    &&& i32::MIN + BALL_R <= y <= i32::MAX - BALL_R
}

/// The pixels of the ball.
pub open spec fn ball_at(x: i32, y: i32) -> spec_fn(int, int) -> bool {
    canvas::disc(x as int, y as int, BALL_R as int)
}

/// The wall without its gaps.
pub open spec fn wall(gaps: Set<(int, int)>) -> spec_fn(int, int) -> bool {
    |x: int, y: int| arena::wall_ring()(x, y) && !gaps.contains((x, y))
}

/// The frame `s` with a score in the middle of the field.
pub open spec fn with_score(s: Seq<u16>, now: Shown) -> Seq<u16> {
    score::field_score(s, now.player_score, now.computer_score)
}

/// `at` can be asked for every sample of a paddle.
pub open spec fn can_sample<F: Fn(u32, i32) -> (i32, i32)>(
    at: F,
    half_len: u32,
    thick: u32,
) -> bool {
    forall|i: u32, d: i32|
        arena::is_sample(half_len, thick, i as int, d as int) ==> #[trigger] at.requires((i, d))
}

/// `is_goal` can be asked for every pixel of the ring.
pub open spec fn can_answer<F: Fn(i32, i32) -> bool>(is_goal: F) -> bool {
    forall|dx: i32, dy: i32|
        arena::wall_ring()(arena::CX + dx, arena::CY + dy) ==> #[trigger] is_goal.requires((dx, dy))
}

/// The frame of a match that starts: on the background the wall, the paddle of
/// the player, that of the computer, the score and the ball, in this order.
pub open spec fn field(
    len: nat,
    now: Shown,
    computer_half: u32,
    gaps: Set<(int, int)>,
    p: Map<(int, int), (i32, i32)>,
    c: Map<(int, int), (i32, i32)>,
) -> Seq<u16> {
    let blank = Seq::new(len, |i: int| RAW_BG);
    let walled = canvas::painted(blank, wall(gaps), RAW_WALL);
    let one = canvas::painted(
        walled,
        arena::spots_of(PADDLE_HALF_LEN, PADDLE_THICK, p),
        RAW_PLAYER,
    );
    let two = canvas::painted(one, arena::spots_of(computer_half, PADDLE_THICK, c), RAW_COMPUTER);
    canvas::painted(with_score(two, now), ball_at(now.ball_x, now.ball_y), RAW_WALL)
}

/// `gaps`, `p` and `c` are what was answered for the goals and the two paddles.
pub open spec fn asked<
    G: Fn(i32, i32) -> bool,
    P: Fn(u32, i32) -> (i32, i32),
    C: Fn(u32, i32) -> (i32, i32),
>(
    is_goal: G,
    player: P,
    computer: C,
    computer_half: u32,
    gaps: Set<(int, int)>,
    p: Map<(int, int), (i32, i32)>,
    c: Map<(int, int), (i32, i32)>,
) -> bool {
    &&& arena::answered(is_goal, gaps)
    &&& arena::sampled(player, PADDLE_HALF_LEN, PADDLE_THICK, p)
    &&& arena::sampled(computer, computer_half, PADDLE_THICK, c)
}

/// Draws the whole field for a match that starts.  `player` and `computer` give
/// the samples of the two paddles, `is_goal` which offsets from the centre
/// point into a goal.
pub fn draw_field<
    G: Fn(i32, i32) -> bool,
    P: Fn(u32, i32) -> (i32, i32),
    C: Fn(u32, i32) -> (i32, i32),
>(buf: &mut [u16], now: Shown, computer_half: u32, is_goal: G, player: P, computer: C)
    requires
        old(buf)@.len() >= FRAME_LEN,
        ball_fits(now.ball_x as int, now.ball_y as int),
        2 * computer_half + 2 <= u32::MAX,
        can_answer(is_goal),
        can_sample(player, PADDLE_HALF_LEN, PADDLE_THICK),
        can_sample(computer, computer_half, PADDLE_THICK),
    ensures
        exists|
            gaps: Set<(int, int)>,
            p: Map<(int, int), (i32, i32)>,
            c: Map<(int, int), (i32, i32)>,
        | #[trigger]
            asked(is_goal, player, computer, computer_half, gaps, p, c) && final(buf)@ == field(
                old(buf)@.len(),
                now,
                computer_half,
                gaps,
                p,
                c,
            ),
{
    fill(buf, RAW_BG);
    let ghost blank = buf@;
    paint_ring(buf, is_goal);
    let ghost gaps = choose|gaps: Set<(int, int)>| #[trigger]
        arena::answered(is_goal, gaps) && buf@ == canvas::painted(blank, wall(gaps), RAW_WALL);
    let ghost walled = buf@;
    paint_paddle(buf, PADDLE_HALF_LEN, PADDLE_THICK, RAW_PLAYER, player);
    let ghost p = choose|p: Map<(int, int), (i32, i32)>| #[trigger]
        arena::sampled(player, PADDLE_HALF_LEN, PADDLE_THICK, p) && buf@ == canvas::painted(
            walled,
            arena::spots_of(PADDLE_HALF_LEN, PADDLE_THICK, p),
            RAW_PLAYER,
        );
    let ghost one = buf@;
    paint_paddle(buf, computer_half, PADDLE_THICK, RAW_COMPUTER, computer);
    let ghost c = choose|c: Map<(int, int), (i32, i32)>| #[trigger]
        arena::sampled(computer, computer_half, PADDLE_THICK, c) && buf@ == canvas::painted(
            one,
            arena::spots_of(computer_half, PADDLE_THICK, c),
            RAW_COMPUTER,
        );
    draw_big_score(buf, now.player_score, now.computer_score);
    fill_circle(buf, now.ball_x, now.ball_y, BALL_R, RAW_WALL);
    assert(asked(is_goal, player, computer, computer_half, gaps, p, c));
}

/// Where the four paddles of an update have their samples: those to erase, and
/// those to paint.
pub struct Paddles {
    pub old_p: Map<(int, int), (i32, i32)>,
    pub old_c: Map<(int, int), (i32, i32)>,
    pub new_p: Map<(int, int), (i32, i32)>,
    pub new_c: Map<(int, int), (i32, i32)>,
}

/// The pixels that are erased where the player's paddle was.
pub open spec fn old_player(k: Paddles) -> spec_fn(int, int) -> bool {
    arena::spots_of(
        (PADDLE_HALF_LEN + ERASE_MARGIN) as u32,
        (PADDLE_THICK + ERASE_MARGIN) as u32,
        k.old_p,
    )
}

/// The pixels that are erased where the computer's paddle was.
pub open spec fn old_computer(k: Paddles, computer_half: u32) -> spec_fn(int, int) -> bool {
    arena::spots_of(
        (computer_half + ERASE_MARGIN) as u32,
        (PADDLE_THICK + ERASE_MARGIN) as u32,
        k.old_c,
    )
}

/// The pixels of the player's paddle.
pub open spec fn new_player(k: Paddles) -> spec_fn(int, int) -> bool {
    arena::spots_of(PADDLE_HALF_LEN, PADDLE_THICK, k.new_p)
}

/// The pixels of the computer's paddle.
pub open spec fn new_computer(k: Paddles, computer_half: u32) -> spec_fn(int, int) -> bool {
    arena::spots_of(computer_half, PADDLE_THICK, k.new_c)
}

/// The frame `s` a frame later: the paddles and the ball erased where they were,
/// and the paddles, the score, the wall and the ball painted anew.
pub open spec fn updated(
    s: Seq<u16>,
    old_x: i32,
    old_y: i32,
    now: Shown,
    computer_half: u32,
    gaps: Set<(int, int)>,
    k: Paddles,
) -> Seq<u16> {
    let a = canvas::painted(s, old_player(k), RAW_BG);
    let b = canvas::painted(a, old_computer(k, computer_half), RAW_BG);
    let c = canvas::painted(b, new_player(k), RAW_PLAYER);
    let d = canvas::painted(c, new_computer(k, computer_half), RAW_COMPUTER);
    let e = canvas::painted(d, ball_at(old_x, old_y), RAW_BG);
    let f = canvas::painted(with_score(e, now), wall(gaps), RAW_WALL);
    canvas::painted(f, ball_at(now.ball_x, now.ball_y), RAW_WALL)
}

/// `gaps` and `k` are what was answered for the goals and the four paddles.
pub open spec fn asked_again<
    G: Fn(i32, i32) -> bool,
    P0: Fn(u32, i32) -> (i32, i32),
    C0: Fn(u32, i32) -> (i32, i32),
    P1: Fn(u32, i32) -> (i32, i32),
    C1: Fn(u32, i32) -> (i32, i32),
>(
    is_goal: G,
    was_player: P0,
    was_computer: C0,
    player: P1,
    computer: C1,
    computer_half: u32,
    gaps: Set<(int, int)>,
    k: Paddles,
) -> bool {
    &&& arena::answered(is_goal, gaps)
    &&& arena::sampled(
        was_player,
        (PADDLE_HALF_LEN + ERASE_MARGIN) as u32,
        (PADDLE_THICK + ERASE_MARGIN) as u32,
        k.old_p,
    )
    &&& arena::sampled(
        was_computer,
        (computer_half + ERASE_MARGIN) as u32,
        (PADDLE_THICK + ERASE_MARGIN) as u32,
        k.old_c,
    )
    &&& arena::sampled(player, PADDLE_HALF_LEN, PADDLE_THICK, k.new_p)
    &&& arena::sampled(computer, computer_half, PADDLE_THICK, k.new_c)
}

/// Brings the frame up to date after the ball was at `(old_x, old_y)`.
/// `was_player` and `was_computer` give the samples of the patches that erase
/// the paddles, `player` and `computer` those of the paddles, `is_goal` which
/// offsets from the centre point into a goal.
pub fn update_field<
    G: Fn(i32, i32) -> bool,
    P0: Fn(u32, i32) -> (i32, i32),
    C0: Fn(u32, i32) -> (i32, i32),
    P1: Fn(u32, i32) -> (i32, i32),
    C1: Fn(u32, i32) -> (i32, i32),
>(
    buf: &mut [u16],
    old_x: i32,
    old_y: i32,
    now: Shown,
    computer_half: u32,
    is_goal: G,
    was_player: P0,
    was_computer: C0,
    player: P1,
    computer: C1,
)
    requires
        old(buf)@.len() >= FRAME_LEN,
        ball_fits(old_x as int, old_y as int),
        ball_fits(now.ball_x as int, now.ball_y as int),
        2 * (computer_half + ERASE_MARGIN) + 2 <= u32::MAX,
        can_answer(is_goal),
        can_sample(
            was_player,
            (PADDLE_HALF_LEN + ERASE_MARGIN) as u32,
            (PADDLE_THICK + ERASE_MARGIN) as u32,
        ),
        can_sample(
            was_computer,
            (computer_half + ERASE_MARGIN) as u32,
            (PADDLE_THICK + ERASE_MARGIN) as u32,
        ),
        can_sample(player, PADDLE_HALF_LEN, PADDLE_THICK),
        can_sample(computer, computer_half, PADDLE_THICK),
    ensures
        exists|gaps: Set<(int, int)>, k: Paddles| #[trigger]
            asked_again(
                is_goal,
                was_player,
                was_computer,
                player,
                computer,
                computer_half,
                gaps,
                k,
            ) && final(buf)@ == updated(old(buf)@, old_x, old_y, now, computer_half, gaps, k),
{
    let long_p: u32 = PADDLE_HALF_LEN + ERASE_MARGIN;
    let long_c: u32 = computer_half + ERASE_MARGIN;
    let thick: u32 = PADDLE_THICK + ERASE_MARGIN;
    let ghost s = buf@;
    paint_paddle(buf, long_p, thick, RAW_BG, was_player);
    let ghost old_p = choose|m: Map<(int, int), (i32, i32)>| #[trigger]
        arena::sampled(was_player, long_p, thick, m) && buf@ == canvas::painted(
            s,
            arena::spots_of(long_p, thick, m),
            RAW_BG,
        );
    let ghost a = buf@;
    paint_paddle(buf, long_c, thick, RAW_BG, was_computer);
    let ghost old_c = choose|m: Map<(int, int), (i32, i32)>| #[trigger]
        arena::sampled(was_computer, long_c, thick, m) && buf@ == canvas::painted(
            a,
            arena::spots_of(long_c, thick, m),
            RAW_BG,
        );
    let ghost b = buf@;
    paint_paddle(buf, PADDLE_HALF_LEN, PADDLE_THICK, RAW_PLAYER, player);
    let ghost new_p = choose|m: Map<(int, int), (i32, i32)>| #[trigger]
        arena::sampled(player, PADDLE_HALF_LEN, PADDLE_THICK, m) && buf@ == canvas::painted(
            b,
            arena::spots_of(PADDLE_HALF_LEN, PADDLE_THICK, m),
            RAW_PLAYER,
        );
    let ghost c = buf@;
    paint_paddle(buf, computer_half, PADDLE_THICK, RAW_COMPUTER, computer);
    let ghost new_c = choose|m: Map<(int, int), (i32, i32)>| #[trigger]
        arena::sampled(computer, computer_half, PADDLE_THICK, m) && buf@ == canvas::painted(
            c,
            arena::spots_of(computer_half, PADDLE_THICK, m),
            RAW_COMPUTER,
        );
    fill_circle(buf, old_x, old_y, BALL_R, RAW_BG);
    draw_big_score(buf, now.player_score, now.computer_score);
    let ghost e = buf@;
    paint_ring(buf, is_goal);
    let ghost gaps = choose|gaps: Set<(int, int)>| #[trigger]
        arena::answered(is_goal, gaps) && buf@ == canvas::painted(e, wall(gaps), RAW_WALL);
    fill_circle(buf, now.ball_x, now.ball_y, BALL_R, RAW_WALL);
    let ghost k = Paddles { old_p, old_c, new_p, new_c };
    assert(asked_again(
        is_goal,
        was_player,
        was_computer,
        player,
        computer,
        computer_half,
        gaps,
        k,
    ));
}

/// The wall lies on the screen, all of it.
pub proof fn wall_is_on_screen(x: int, y: int)
    requires
        arena::wall_ring()(x, y),
    ensures
        geometry::on_screen(x, y),
{
    canvas::disc_is_bounded(x - arena::CX, y - arena::CY, 216);
}

/// After an update the ball is white, all of it that lies on the screen.
pub proof fn the_ball_is_on_top(
    s: Seq<u16>,
    old_x: i32,
    old_y: i32,
    now: Shown,
    computer_half: u32,
    gaps: Set<(int, int)>,
    k: Paddles,
    x: int,
    y: int,
)
    requires
        s.len() >= FRAME_LEN,
        geometry::on_screen(x, y),
        ball_at(now.ball_x, now.ball_y)(x, y),
    ensures
        updated(s, old_x, old_y, now, computer_half, gaps, k)[canvas::index_of(x, y)] == RAW_WALL,
{
    canvas::index_of_splits(x, y);
}

/// An update of a frame on which the wall stands changes no pixel of the screen
/// outside of the four paddles, the rectangle sent for the ball and the
/// rectangle sent for the score.
pub proof fn an_update_stays_in_what_is_sent(
    s: Seq<u16>,
    old_x: i32,
    old_y: i32,
    now: Shown,
    computer_half: u32,
    gaps: Set<(int, int)>,
    k: Paddles,
    ball: Rect,
    x: int,
    y: int,
)
    requires
        s.len() >= FRAME_LEN,
        geometry::on_screen(x, y),
        arena::ball_moves(old_x, old_y, now.ball_x, now.ball_y),
        geometry::is_union(
            ball,
            arena::ball_box(old_x, old_y),
            arena::ball_box(now.ball_x, now.ball_y),
        ),
        !ball.covers(x, y),
        !(Rect { x: 190, y: 205, w: 86, h: 56 }).covers(x, y),
        wall(gaps)(x, y) ==> s[canvas::index_of(x, y)] == RAW_WALL,
        !old_player(k)(x, y),
        !old_computer(k, computer_half)(x, y),
        !new_player(k)(x, y),
        !new_computer(k, computer_half)(x, y),
    ensures
        updated(s, old_x, old_y, now, computer_half, gaps, k)[canvas::index_of(x, y)]
            == s[canvas::index_of(x, y)],
{
    canvas::index_of_splits(x, y);
    arena::ball_dirty_covers(old_x, old_y, now.ball_x, now.ball_y, ball);
    assert(!ball_at(old_x, old_y)(x, y));
    assert(!ball_at(now.ball_x, now.ball_y)(x, y)) by {
        if ball_at(now.ball_x, now.ball_y)(x, y) {
            assert(!canvas::disc(old_x as int, old_y as int, BALL_R as int)(x, y));
        }
    }
    if wall(gaps)(x, y) {
        the_wall_is_whole(s, old_x, old_y, now, computer_half, gaps, k, x, y);
    }
}

/// On the field of a match that starts the wall stands, but for where a paddle
/// is painted over it.
pub proof fn a_new_field_has_its_wall(
    len: nat,
    now: Shown,
    computer_half: u32,
    gaps: Set<(int, int)>,
    p: Map<(int, int), (i32, i32)>,
    c: Map<(int, int), (i32, i32)>,
    x: int,
    y: int,
)
    requires
        len >= FRAME_LEN,
        wall(gaps)(x, y),
        !arena::spots_of(PADDLE_HALF_LEN, PADDLE_THICK, p)(x, y),
        !arena::spots_of(computer_half, PADDLE_THICK, c)(x, y),
    ensures
        field(len, now, computer_half, gaps, p, c)[canvas::index_of(x, y)] == RAW_WALL,
{
    wall_is_on_screen(x, y);
    canvas::index_of_splits(x, y);
    assert(!canvas::block(190, 205, 276, 261)(x, y)) by {
        if canvas::block(190, 205, 276, 261)(x, y) {
            canvas::square_is_bounded(x - arena::CX, 43);
            canvas::square_is_bounded(y - arena::CY, 28);
        }
    }
}

/// After an update the wall is whole, whatever stood there before.
pub proof fn the_wall_is_whole(
    s: Seq<u16>,
    old_x: i32,
    old_y: i32,
    now: Shown,
    computer_half: u32,
    gaps: Set<(int, int)>,
    k: Paddles,
    x: int,
    y: int,
)
    requires
        s.len() >= FRAME_LEN,
        wall(gaps)(x, y),
    ensures
        updated(s, old_x, old_y, now, computer_half, gaps, k)[canvas::index_of(x, y)] == RAW_WALL,
{
    wall_is_on_screen(x, y);
    canvas::index_of_splits(x, y);
}

/// The pixel `(x, y)` belongs to a ball with its centre at `(bx, by)`: it is at
/// most 7 pixels away from it.
pub open spec fn on_ball(bx: i32, by: i32, x: int, y: int) -> bool {
    (x - bx) * (x - bx) + (y - by) * (y - by) <= 49
}

/// The pixel `(x, y)` belongs to the wall: it is from 214 to 216 pixels away from
/// the middle of the screen, and in no gap.
pub open spec fn on_wall(gaps: Set<(int, int)>, x: int, y: int) -> bool {
    45_796 <= (x - 233) * (x - 233) + (y - 233) * (y - 233) <= 46_656 && !gaps.contains((x, y))
}

/// The pixel `(x, y)` belongs to the background of the score.
pub open spec fn on_score(x: int, y: int) -> bool {
    190 <= x <= 275 && 205 <= y <= 260
}

/// What the score shows at a pixel of its background.
pub open spec fn score_pixel(now: Shown, x: int, y: int) -> u16 {
    match score::score_ink(now.player_score, now.computer_score, x - 194, y - 209) {
        Some(color) => color,
        None => 0u16,
    }
}

/// Ink of a score lies on its background.
proof fn ink_is_on_the_score(now: Shown, x: int, y: int)
    ensures
        score::score_ink(now.player_score, now.computer_score, x - 194, y - 209) is Some
            ==> on_score(x, y),
{
}

/// What was asked for a new field is what its paddles and gaps come from: half
/// of the player's paddle is 50 pixels long, and both are 16 pixels thick.
pub proof fn a_new_field_asks_for_its_paddles<
    G: Fn(i32, i32) -> bool,
    P: Fn(u32, i32) -> (i32, i32),
    C: Fn(u32, i32) -> (i32, i32),
>(
    is_goal: G,
    player: P,
    computer: C,
    computer_half: u32,
    gaps: Set<(int, int)>,
    p: Map<(int, int), (i32, i32)>,
    c: Map<(int, int), (i32, i32)>,
)
    requires
        asked(is_goal, player, computer, computer_half, gaps, p, c),
    ensures
        arena::answered(is_goal, gaps),
        arena::sampled(player, 50, 16, p),
        arena::sampled(computer, computer_half, 16, c),
{
}

/// What was asked for an update is what its paddles and gaps come from: the
/// patches that erase the paddles are 4 pixels longer at either end and 4 pixels
/// thicker than the paddles.
pub proof fn an_update_asks_for_its_paddles<
    G: Fn(i32, i32) -> bool,
    P0: Fn(u32, i32) -> (i32, i32),
    C0: Fn(u32, i32) -> (i32, i32),
    P1: Fn(u32, i32) -> (i32, i32),
    C1: Fn(u32, i32) -> (i32, i32),
>(
    is_goal: G,
    was_player: P0,
    was_computer: C0,
    player: P1,
    computer: C1,
    computer_half: u32,
    gaps: Set<(int, int)>,
    k: Paddles,
)
    requires
        computer_half + 4 <= u32::MAX,
        asked_again(
            is_goal,
            was_player,
            was_computer,
            player,
            computer,
            computer_half,
            gaps,
            k,
        ),
    ensures
        arena::answered(is_goal, gaps),
        arena::sampled(was_player, 54, 20, k.old_p),
        arena::sampled(was_computer, (computer_half + 4) as u32, 20, k.old_c),
        arena::sampled(player, 50, 16, k.new_p),
        arena::sampled(computer, computer_half, 16, k.new_c),
{
}

/// A new field pixel by pixel: the white ball on top of the score, that on top of
/// the red and the cyan paddle, those on top of the white wall, and black for
/// the rest.
pub proof fn a_new_field_pixel_by_pixel(
    len: nat,
    now: Shown,
    computer_half: u32,
    gaps: Set<(int, int)>,
    p: Map<(int, int), (i32, i32)>,
    c: Map<(int, int), (i32, i32)>,
    x: int,
    y: int,
)
    requires
        len >= FRAME_LEN,
        0 <= x < 466,
        0 <= y < 466,
    ensures
        field(len, now, computer_half, gaps, p, c).len() == len,
        field(len, now, computer_half, gaps, p, c)[466 * y + x] == if on_ball(
            now.ball_x,
            now.ball_y,
            x,
            y,
        ) {
            0xFFFFu16
        } else if on_score(x, y) {
            score_pixel(now, x, y)
        } else if arena::spots_of(computer_half, 16, c)(x, y) {
            0xF800u16
        } else if arena::spots_of(50, 16, p)(x, y) {
            0x07FFu16
        } else if on_wall(gaps, x, y) {
            0xFFFFu16
        } else {
            0u16
        },
{
    let blank = Seq::new(len, |i: int| RAW_BG);
    let walled = canvas::painted(blank, wall(gaps), RAW_WALL);
    let one = canvas::painted(walled, arena::spots_of(50, 16, p), RAW_PLAYER);
    let two = canvas::painted(one, arena::spots_of(computer_half, 16, c), RAW_COMPUTER);
    canvas::painted_at(blank, wall(gaps), RAW_WALL, x, y);
    canvas::painted_at(walled, arena::spots_of(50, 16, p), RAW_PLAYER, x, y);
    canvas::painted_at(one, arena::spots_of(computer_half, 16, c), RAW_COMPUTER, x, y);
    score::the_score_on_the_field(two, now.player_score, now.computer_score, x, y);
    ink_is_on_the_score(now, x, y);
    canvas::painted_at(
        with_score(two, now),
        ball_at(now.ball_x, now.ball_y),
        RAW_WALL,
        x,
        y,
    );
    arena::the_ring_is_round_the_centre(x, y);
    assert(7int * 7 == 49);
}

/// An update pixel by pixel: the ball and the wall are white, on top of the
/// score; where the ball was before it is black, whatever was there and however
/// near the ball is; then come the red and the cyan paddle, then black where the
/// paddles were before; all the rest is as it was.
pub proof fn an_update_pixel_by_pixel(
    s: Seq<u16>,
    old_x: i32,
    old_y: i32,
    now: Shown,
    computer_half: u32,
    gaps: Set<(int, int)>,
    k: Paddles,
    x: int,
    y: int,
)
    requires
        s.len() >= FRAME_LEN,
        computer_half + 4 <= u32::MAX,
        0 <= x < 466,
        0 <= y < 466,
    ensures
        updated(s, old_x, old_y, now, computer_half, gaps, k).len() == s.len(),
        updated(s, old_x, old_y, now, computer_half, gaps, k)[466 * y + x] == if on_ball(
            now.ball_x,
            now.ball_y,
            x,
            y,
        ) || on_wall(gaps, x, y) {
            0xFFFFu16
        } else if on_score(x, y) {
            score_pixel(now, x, y)
        } else if on_ball(old_x, old_y, x, y) {
            0u16
        } else if arena::spots_of(computer_half, 16, k.new_c)(x, y) {
            0xF800u16
        } else if arena::spots_of(50, 16, k.new_p)(x, y) {
            0x07FFu16
        } else if arena::spots_of(54, 20, k.old_p)(x, y) || arena::spots_of(
            (computer_half + 4) as u32,
            20,
            k.old_c,
        )(x, y) {
            0u16
        } else {
            s[466 * y + x]
        },
{
    let long_c = (computer_half + 4) as u32;
    let a = canvas::painted(s, arena::spots_of(54, 20, k.old_p), RAW_BG);
    let b = canvas::painted(a, arena::spots_of(long_c, 20, k.old_c), RAW_BG);
    let c = canvas::painted(b, arena::spots_of(50, 16, k.new_p), RAW_PLAYER);
    let d = canvas::painted(c, arena::spots_of(computer_half, 16, k.new_c), RAW_COMPUTER);
    let e = canvas::painted(d, ball_at(old_x, old_y), RAW_BG);
    let f = canvas::painted(with_score(e, now), wall(gaps), RAW_WALL);
    canvas::painted_at(s, arena::spots_of(54, 20, k.old_p), RAW_BG, x, y);
    canvas::painted_at(a, arena::spots_of(long_c, 20, k.old_c), RAW_BG, x, y);
    canvas::painted_at(b, arena::spots_of(50, 16, k.new_p), RAW_PLAYER, x, y);
    canvas::painted_at(c, arena::spots_of(computer_half, 16, k.new_c), RAW_COMPUTER, x, y);
    canvas::painted_at(d, ball_at(old_x, old_y), RAW_BG, x, y);
    score::the_score_on_the_field(e, now.player_score, now.computer_score, x, y);
    ink_is_on_the_score(now, x, y);
    canvas::painted_at(with_score(e, now), wall(gaps), RAW_WALL, x, y);
    canvas::painted_at(f, ball_at(now.ball_x, now.ball_y), RAW_WALL, x, y);
    arena::the_ring_is_round_the_centre(x, y);
    assert(7int * 7 == 49);
}

/// The ball leaves no trail: where it was, a frame later the background is back,
/// unless the ball is still there or the wall or the score stands there.
pub proof fn the_ball_leaves_no_trail(
    s: Seq<u16>,
    old_x: i32,
    old_y: i32,
    now: Shown,
    computer_half: u32,
    gaps: Set<(int, int)>,
    k: Paddles,
    x: int,
    y: int,
)
    requires
        s.len() >= FRAME_LEN,
        computer_half + 4 <= u32::MAX,
        0 <= x < 466,
        0 <= y < 466,
        (x - old_x) * (x - old_x) + (y - old_y) * (y - old_y) <= 49,
        (x - now.ball_x) * (x - now.ball_x) + (y - now.ball_y) * (y - now.ball_y) > 49,
        !on_wall(gaps, x, y),
        !on_score(x, y),
    ensures
        updated(s, old_x, old_y, now, computer_half, gaps, k)[466 * y + x] == RAW_BG,
        RAW_BG == 0,
{
    an_update_pixel_by_pixel(s, old_x, old_y, now, computer_half, gaps, k, x, y);
}

/// Updating the field of a moment gives the field of the next one, as if that
/// had been drawn from scratch: at every pixel where the patches erase what there
/// was of the old paddles and where no new paddle lies on the wall or on the
/// ball's old place.
pub proof fn an_update_is_a_new_field(
    len: nat,
    was: Shown,
    now: Shown,
    computer_half: u32,
    gaps: Set<(int, int)>,
    p: Map<(int, int), (i32, i32)>,
    c: Map<(int, int), (i32, i32)>,
    k: Paddles,
    x: int,
    y: int,
)
    requires
        len >= FRAME_LEN,
        computer_half + 4 <= u32::MAX,
        0 <= x < 466,
        0 <= y < 466,
        arena::spots_of(50, 16, p)(x, y) || arena::spots_of(computer_half, 16, c)(x, y)
            ==> arena::spots_of(54, 20, k.old_p)(x, y) || arena::spots_of(
            (computer_half + 4) as u32,
            20,
            k.old_c,
        )(x, y),
        arena::spots_of(50, 16, k.new_p)(x, y) || arena::spots_of(computer_half, 16, k.new_c)(x, y)
            ==> !on_wall(gaps, x, y) && !on_ball(was.ball_x, was.ball_y, x, y),
    ensures
        updated(
            field(len, was, computer_half, gaps, p, c),
            was.ball_x,
            was.ball_y,
            now,
            computer_half,
            gaps,
            k,
        )[466 * y + x] == field(len, now, computer_half, gaps, k.new_p, k.new_c)[466 * y + x],
{
    let old = field(len, was, computer_half, gaps, p, c);
    a_new_field_pixel_by_pixel(len, was, computer_half, gaps, p, c, x, y);
    a_new_field_pixel_by_pixel(len, now, computer_half, gaps, k.new_p, k.new_c, x, y);
    an_update_pixel_by_pixel(old, was.ball_x, was.ball_y, now, computer_half, gaps, k, x, y);
    if on_score(x, y) {
        the_score_is_off_the_wall(x, y);
    }
}

/// The background of the score does not reach the wall.
proof fn the_score_is_off_the_wall(x: int, y: int)
    requires
        on_score(x, y),
    ensures
        (x - 233) * (x - 233) + (y - 233) * (y - 233) < 45_796,
{
    canvas::square_is_bounded(x - 233, 43);
    canvas::square_is_bounded(y - 233, 28);
}

} // verus!
