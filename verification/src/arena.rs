//! The round playing field: its wall, the paddles and the ball.
//!
//! Directions and chords of the field are computed in floating point outside
//! this library.  The painters take what comes out of that as a function: which
//! offsets from the centre point into a goal, where the samples of a paddle
//! fall.

use vstd::prelude::*;

use crate::canvas;
use crate::canvas::plot;
use crate::geometry;
use crate::geometry::{bb_union, Rect, FRAME_LEN};

verus! {

/// Column of the centre of the field.
pub const CX: i32 = 233;

/// Row of the centre of the field.
pub const CY: i32 = 233;

/// Radius of the field.
pub const ARENA_R: i32 = 215;

/// Radius of the ball.
pub const BALL_R: i32 = 7;

/// Background colour.
pub const RAW_BG: u16 = 0x0000;

/// Colour of the player.
pub const RAW_PLAYER: u16 = 0x07FF;

/// Colour of the computer.
pub const RAW_COMPUTER: u16 = 0xF800;

/// Colour of the wall and of the ball.
pub const RAW_WALL: u16 = 0xFFFF;

/// The pixels where the wall would stand if it had no gaps.
pub open spec fn wall_ring() -> spec_fn(int, int) -> bool {
    canvas::annulus(CX as int, CY as int, ARENA_R - 1, ARENA_R + 1)
}

/// `gaps` holds the pixels of the ring for which `is_goal` answered that their
/// offset from the centre points into a goal.
pub open spec fn answered<F: Fn(i32, i32) -> bool>(is_goal: F, gaps: Set<(int, int)>) -> bool {
    forall|x: int, y: int| #[trigger]
        wall_ring()(x, y) ==> is_goal.ensures(
            ((x - CX) as i32, (y - CY) as i32),
            gaps.contains((x, y)),
        )
}

/// Paints the wall: the ring round the field without its goals.  `is_goal`
/// tells for an offset from the centre whether it points into a goal.
pub fn paint_ring<F: Fn(i32, i32) -> bool>(buf: &mut [u16], is_goal: F)
    requires
        old(buf)@.len() >= FRAME_LEN,
        forall|dx: i32, dy: i32|
            wall_ring()(CX + dx, CY + dy) ==> #[trigger] is_goal.requires((dx, dy)),
    ensures
        exists|gaps: Set<(int, int)>| #[trigger]
            answered(is_goal, gaps) && final(buf)@ == canvas::painted(
                old(buf)@,
                |x: int, y: int| wall_ring()(x, y) && !gaps.contains((x, y)),
                RAW_WALL,
            ),
{
    let r_in: i32 = ARENA_R - 1;
    let r_out: i32 = ARENA_R + 1;
    let r_in2: i32 = r_in * r_in;
    let r_out2: i32 = r_out * r_out;
    let ghost before = buf@;
    let ghost whole = wall_ring();
    let ghost mut gaps = Set::<(int, int)>::empty();
    assert forall|x: int, y: int| #[trigger] whole(x, y) implies CX - 216 <= x <= CX + 216 && CY
        - 216 <= y <= CY + 216 by {
        canvas::disc_is_bounded(x - CX, y - CY, 216);
    }
    let mut dy: i32 = -r_out;
    assert(buf@ =~= canvas::painted(
        before,
        |x: int, y: int| whole(x, y) && y < CY + dy && !gaps.contains((x, y)),
        RAW_WALL,
    ));
    while dy <= r_out
        invariant
            r_out == 216,
            r_in2 == 214 * 214,
            r_out2 == 216 * 216,
            -r_out <= dy <= r_out + 1,
            before.len() >= FRAME_LEN,
            whole == wall_ring(),
            forall|dx: i32, dy: i32|
                wall_ring()(CX + dx, CY + dy) ==> #[trigger] is_goal.requires((dx, dy)),
            forall|x: int, y: int| #[trigger]
                whole(x, y) ==> CX - 216 <= x <= CX + 216 && CY - 216 <= y <= CY + 216,
            forall|x: int, y: int|
                #![trigger whole(x, y)]
                whole(x, y) && y < CY + dy ==> is_goal.ensures(
                    ((x - CX) as i32, (y - CY) as i32),
                    gaps.contains((x, y)),
                ),
            buf@ == canvas::painted(
                before,
                |x: int, y: int| whole(x, y) && y < CY + dy && !gaps.contains((x, y)),
                RAW_WALL,
            ),
        decreases r_out + 1 - dy,
    {
        let mut dx: i32 = -r_out;
        let ghost seen = |x: int, y: int, dx: int, dy: int|
            y < CY + dy || (y == CY + dy && x < CX + dx);
        assert(buf@ =~= canvas::painted(
            before,
            |x: int, y: int|
                whole(x, y) && seen(x, y, dx as int, dy as int) && !gaps.contains((x, y)),
            RAW_WALL,
        ));
        while dx <= r_out
            invariant
                r_out == 216,
                r_in2 == 214 * 214,
                r_out2 == 216 * 216,
                -r_out <= dy <= r_out,
                -r_out <= dx <= r_out + 1,
                before.len() >= FRAME_LEN,
                whole == wall_ring(),
                seen == (|x: int, y: int, dx: int, dy: int|
                    y < CY + dy || (y == CY + dy && x < CX + dx)),
                forall|dx: i32, dy: i32|
                    wall_ring()(CX + dx, CY + dy) ==> #[trigger] is_goal.requires((dx, dy)),
                forall|x: int, y: int| #[trigger]
                    whole(x, y) ==> CX - 216 <= x <= CX + 216 && CY - 216 <= y <= CY + 216,
                forall|x: int, y: int|
                    #![trigger whole(x, y)]
                    whole(x, y) && seen(x, y, dx as int, dy as int) ==> is_goal.ensures(
                        ((x - CX) as i32, (y - CY) as i32),
                        gaps.contains((x, y)),
                    ),
                buf@ == canvas::painted(
                    before,
                    |x: int, y: int|
                        whole(x, y) && seen(x, y, dx as int, dy as int) && !gaps.contains((x, y)),
                    RAW_WALL,
                ),
            decreases r_out + 1 - dx,
        {
            proof {
                canvas::square_is_bounded(dx as int, 216);
                canvas::square_is_bounded(dy as int, 216);
            }
            let d2: i32 = dx * dx + dy * dy;
            let ghost x = CX + dx;
            let ghost y = CY + dy;
            assert(x - CX == dx && y - CY == dy);
            if r_in2 <= d2 && d2 <= r_out2 {
                assert(whole(x, y));
                let goal: bool = is_goal(dx, dy);
                proof {
                    gaps = if goal {
                        gaps.insert((x, y))
                    } else {
                        gaps.remove((x, y))
                    };
                }
                if !goal {
                    plot(buf, CX + dx, CY + dy, RAW_WALL);
                }
            } else {
                assert(!whole(x, y));
            }
            dx += 1;
            assert(buf@ =~= canvas::painted(
                before,
                |x: int, y: int|
                    whole(x, y) && seen(x, y, dx as int, dy as int) && !gaps.contains((x, y)),
                RAW_WALL,
            ));
        }
        dy += 1;
        assert(buf@ =~= canvas::painted(
            before,
            |x: int, y: int| whole(x, y) && y < CY + dy && !gaps.contains((x, y)),
            RAW_WALL,
        ));
    }
    assert(answered(is_goal, gaps));
    assert(buf@ =~= canvas::painted(
        before,
        |x: int, y: int| wall_ring()(x, y) && !gaps.contains((x, y)),
        RAW_WALL,
    ));
}

/// Half of the thickness of a paddle, as the offset of its outermost samples;
/// negative where the thickness is no positive 32-bit number.
pub open spec fn paddle_half(thick: u32) -> int {
    canvas::half_of(geometry::signed(thick))
}

/// The sample `d` across a paddle at its step `i` along it.
pub open spec fn is_sample(half_len: u32, thick: u32, i: int, d: int) -> bool {
    0 <= i <= 2 * half_len + 2 && -paddle_half(thick) <= d <= paddle_half(thick)
}

/// `spots` holds the pixel that `at` gave for every sample of a paddle.
pub open spec fn sampled<F: Fn(u32, i32) -> (i32, i32)>(
    at: F,
    half_len: u32,
    thick: u32,
    spots: Map<(int, int), (i32, i32)>,
) -> bool {
    forall|i: int, d: int| #[trigger]
        is_sample(half_len, thick, i, d) ==> at.ensures((i as u32, d as i32), spots[(i, d)])
}

/// The pixels of the samples of a paddle.
pub open spec fn spots_of(
    half_len: u32,
    thick: u32,
    spots: Map<(int, int), (i32, i32)>,
) -> spec_fn(int, int) -> bool {
    |x: int, y: int|
        exists|i: int, d: int| #[trigger]
            is_sample(half_len, thick, i, d) && spots[(i, d)].0 == x && spots[(i, d)].1 == y
}

/// Paints a paddle of length `2 * half_len` from its samples: `2 * half_len + 2`
/// steps along it, and at each of them one sample per pixel of its thickness.
/// `at` gives the pixel of the step `i` along the paddle and the offset `d`
/// across it.
pub fn paint_paddle<F: Fn(u32, i32) -> (i32, i32)>(
    buf: &mut [u16],
    half_len: u32,
    thick: u32,
    color: u16,
    at: F,
)
    requires
        old(buf)@.len() >= FRAME_LEN,
        2 * half_len + 2 <= u32::MAX,
        forall|i: u32, d: i32|
            is_sample(half_len, thick, i as int, d as int) ==> #[trigger] at.requires((i, d)),
    ensures
        exists|spots: Map<(int, int), (i32, i32)>| #[trigger]
            sampled(at, half_len, thick, spots) && final(buf)@ == canvas::painted(
                old(buf)@,
                spots_of(half_len, thick, spots),
                color,
            ),
{
    let ghost before = buf@;
    let ghost mut spots = Map::<(int, int), (i32, i32)>::empty();
    let n: u64 = half_len as u64 * 2 + 2;
    let half: i32 = geometry::to_signed(thick) / 2;
    if half < 0 {
        assert(buf@ =~= canvas::painted(before, spots_of(half_len, thick, spots), color));
        assert(sampled(at, half_len, thick, spots));
        return;
    }
    let mut i: u64 = 0;
    assert(buf@ =~= canvas::painted(before, part_of(half_len, thick, spots, 0, -half), color));
    while i <= n
        invariant
            n == 2 * half_len + 2,
            0 <= half == paddle_half(thick),
            i <= n + 1 <= 0x1_0000_0000,
            before.len() >= FRAME_LEN,
            forall|i: u32, d: i32|
                is_sample(half_len, thick, i as int, d as int) ==> #[trigger] at.requires((i, d)),
            forall|j: int, d: int| #[trigger]
                is_sample(half_len, thick, j, d) && j < i ==> at.ensures(
                    (j as u32, d as i32),
                    spots[(j, d)],
                ),
            buf@ == canvas::painted(before, part_of(half_len, thick, spots, i as int, -half), color),
        decreases n + 1 - i,
    {
        let mut d: i32 = -half;
        while d <= half
            invariant
                n == 2 * half_len + 2,
                0 <= half == paddle_half(thick),
                i <= n < 0x1_0000_0000,
                -half <= d <= half + 1,
                before.len() >= FRAME_LEN,
                forall|i: u32, d: i32|
                    is_sample(half_len, thick, i as int, d as int) ==> #[trigger] at.requires(
                        (i, d),
                    ),
                forall|j: int, e: int| #[trigger]
                    is_sample(half_len, thick, j, e) && (j < i || (j == i && e < d))
                        ==> at.ensures((j as u32, e as i32), spots[(j, e)]),
                buf@ == canvas::painted(
                    before,
                    part_of(half_len, thick, spots, i as int, d as int),
                    color,
                ),
            decreases half + 1 - d,
        {
            assert(is_sample(half_len, thick, i as int, d as int));
            let spot: (i32, i32) = at(i as u32, d);
            let ghost was = spots;
            proof {
                spots = spots.insert((i as int, d as int), spot);
            }
            plot(buf, spot.0, spot.1, color);
            d += 1;
            proof {
                let seen = part_of(half_len, thick, was, i as int, d - 1);
                part_of_grows(half_len, thick, was, i as int, d - 1, spot);
                canvas::painted_twice(
                    before,
                    seen,
                    canvas::dot(spot.0 as int, spot.1 as int),
                    color,
                );
                assert(buf@ =~= canvas::painted(
                    before,
                    part_of(half_len, thick, spots, i as int, d as int),
                    color,
                ));
            }
        }
        i += 1;
        assert(buf@ =~= canvas::painted(
            before,
            part_of(half_len, thick, spots, i as int, -half),
            color,
        ));
    }
    assert(buf@ =~= canvas::painted(before, spots_of(half_len, thick, spots), color));
    assert(sampled(at, half_len, thick, spots));
}

/// The pixels of the samples before the sample `d` of the step `i`.
spec fn part_of(
    half_len: u32,
    thick: u32,
    spots: Map<(int, int), (i32, i32)>,
    i: int,
    d: int,
) -> spec_fn(int, int) -> bool {
    |x: int, y: int|
        exists|j: int, e: int| #[trigger]
            is_sample(half_len, thick, j, e) && (j < i || (j == i && e < d)) && spots[(j, e)].0 == x
                && spots[(j, e)].1 == y
}

proof fn part_of_grows(
    half_len: u32,
    thick: u32,
    spots: Map<(int, int), (i32, i32)>,
    i: int,
    d: int,
    spot: (i32, i32),
)
    requires
        is_sample(half_len, thick, i, d),
    ensures
        forall|x: int, y: int| #[trigger]
            part_of(half_len, thick, spots.insert((i, d), spot), i, d + 1)(x, y)
                == canvas::either(
                part_of(half_len, thick, spots, i, d),
                canvas::dot(spot.0 as int, spot.1 as int),
            )(x, y),
{
    let more = spots.insert((i, d), spot);
    assert forall|x: int, y: int| #[trigger]
        part_of(half_len, thick, more, i, d + 1)(x, y) == canvas::either(
            part_of(half_len, thick, spots, i, d),
            canvas::dot(spot.0 as int, spot.1 as int),
        )(x, y) by {
        if part_of(half_len, thick, more, i, d + 1)(x, y) {
            let (j, e) = choose|j: int, e: int| #[trigger]
                is_sample(half_len, thick, j, e) && (j < i || (j == i && e < d + 1))
                    && more[(j, e)].0 == x && more[(j, e)].1 == y;
            if j != i || e != d {
                assert(spots[(j, e)] == more[(j, e)]);
            }
        }
        if part_of(half_len, thick, spots, i, d)(x, y) {
            let (j, e) = choose|j: int, e: int| #[trigger]
                is_sample(half_len, thick, j, e) && (j < i || (j == i && e < d))
                    && spots[(j, e)].0 == x && spots[(j, e)].1 == y;
            assert(spots[(j, e)] == more[(j, e)]);
        }
    }
}

/// How far a ball's dirty rectangle reaches from its centre.
const BALL_MARGIN: i32 = 10;

/// The rectangle round a ball at `(x, y)` that is sent to the panel.
pub open spec fn ball_box(x: i32, y: i32) -> Rect {
    Rect { x: (x - 10) as i32, y: (y - 10) as i32, w: 20, h: 20 }
}

/// The rectangles round a ball at both places, and the one round them, can be
/// computed in 32 bits.
pub open spec fn ball_moves(prev_x: i32, prev_y: i32, x: i32, y: i32) -> bool {
    &&& i32::MIN + 10 <= prev_x <= i32::MAX - 10
    &&& i32::MIN + 10 <= prev_y <= i32::MAX - 10
    &&& i32::MIN + 10 <= x <= i32::MAX - 10
    &&& i32::MIN + 10 <= y <= i32::MAX - 10
    &&& -i32::MAX <= x - prev_x - 20 && x - prev_x + 20 <= i32::MAX
    &&& -i32::MAX <= y - prev_y - 20 && y - prev_y + 20 <= i32::MAX
}

/// The rectangle to send after the ball went from `(prev_x, prev_y)` to
/// `(x, y)`.
pub fn ball_dirty(prev_x: i32, prev_y: i32, x: i32, y: i32) -> (r: Rect)
    requires
        ball_moves(prev_x, prev_y, x, y),
    ensures
        geometry::is_union(r, ball_box(prev_x, prev_y), ball_box(x, y)),
{
    let d: u32 = (BALL_R * 2 + 6) as u32;
    bb_union(
        Rect { x: prev_x - BALL_MARGIN, y: prev_y - BALL_MARGIN, w: d, h: d },
        Rect { x: x - BALL_MARGIN, y: y - BALL_MARGIN, w: d, h: d },
    )
}

/// The dirty rectangle of a ball holds every pixel of the ball where it was and
/// where it is.
pub proof fn ball_dirty_covers(prev_x: i32, prev_y: i32, x: i32, y: i32, r: Rect)
    requires
        ball_moves(prev_x, prev_y, x, y),
        geometry::is_union(r, ball_box(prev_x, prev_y), ball_box(x, y)),
    ensures
        forall|px: int, py: int|
            (#[trigger] canvas::disc(prev_x as int, prev_y as int, BALL_R as int)(px, py)
                || canvas::disc(x as int, y as int, BALL_R as int)(px, py)) ==> r.covers(px, py),
{
    geometry::union_covers_both(r, ball_box(prev_x, prev_y), ball_box(x, y));
    assert forall|px: int, py: int|
        (#[trigger] canvas::disc(prev_x as int, prev_y as int, BALL_R as int)(px, py)
            || canvas::disc(x as int, y as int, BALL_R as int)(px, py)) implies r.covers(px, py) by {
        if canvas::disc(prev_x as int, prev_y as int, BALL_R as int)(px, py) {
            canvas::disc_is_bounded(px - prev_x, py - prev_y, BALL_R as int);
            assert(ball_box(prev_x, prev_y).covers(px, py));
        } else {
            canvas::disc_is_bounded(px - x, py - y, BALL_R as int);
            assert(ball_box(x, y).covers(px, py));
        }
    }
}

/// The ring of the wall is the pixels whose distance from the centre of the
/// screen is from 214 to 216.
pub proof fn the_ring_is_round_the_centre(x: int, y: int)
    ensures
        wall_ring()(x, y) <==> 45_796 <= (x - 233) * (x - 233) + (y - 233) * (y - 233) <= 46_656,
{
    assert(214int * 214 == 45_796 && 216int * 216 == 46_656);
}

/// The gaps of the wall are the answers for its pixels, each asked for by its
/// offset from the centre of the screen.
pub proof fn gaps_are_what_was_answered<F: Fn(i32, i32) -> bool>(
    is_goal: F,
    gaps: Set<(int, int)>,
    dx: i32,
    dy: i32,
)
    requires
        answered(is_goal, gaps),
        45_796 <= dx * dx + dy * dy <= 46_656,
    ensures
        is_goal.ensures((dx, dy), gaps.contains((233 + dx, 233 + dy))),
{
    let (x, y) = (233 + dx, 233 + dy);
    assert(x - 233 == dx && y - 233 == dy);
    the_ring_is_round_the_centre(x, y);
    assert(wall_ring()(x, y));
    assert((x - CX) as i32 == dx && (y - CY) as i32 == dy);
}

/// A paddle is sampled at `2 * half_len + 3` steps along it, and at each of them
/// at the whole offsets across it that are at most half its thickness.
pub proof fn samples_of_a_paddle(half_len: u32, thick: u32, i: int, d: int)
    requires
        thick <= i32::MAX,
    ensures
        is_sample(half_len, thick, i, d) <==> 0 <= i < 2 * half_len + 3 && -(thick as int) <= 2 * d
            <= thick,
{
}

/// A thickness that is no positive 32-bit number gives no samples, but for the
/// one just below zero, which gives those along the middle.
pub proof fn a_negative_thickness_has_no_samples(half_len: u32, thick: u32, i: int, d: int)
    requires
        thick > i32::MAX,
    ensures
        is_sample(half_len, thick, i, d) <==> thick == u32::MAX && d == 0 && 0 <= i < 2 * half_len
            + 3,
{
}

/// A painted paddle has its colour at the pixel of each of its samples, as far
/// as it is on the screen, and at no other pixel.
pub proof fn a_paddle_is_painted_at_its_samples<F: Fn(u32, i32) -> (i32, i32)>(
    s: Seq<u16>,
    at: F,
    half_len: u32,
    thick: u32,
    spots: Map<(int, int), (i32, i32)>,
    color: u16,
)
    requires
        s.len() >= FRAME_LEN,
        thick <= i32::MAX,
        2 * half_len + 2 <= u32::MAX,
        sampled(at, half_len, thick, spots),
    ensures
        ({
            let after = canvas::painted(s, spots_of(half_len, thick, spots), color);
            &&& forall|i: u32, d: i32|
                0 <= i <= 2 * half_len + 2 && -(thick as int) <= 2 * d <= thick ==> {
                    let spot = #[trigger] spots[(i as int, d as int)];
                    &&& at.ensures((i, d), spot)
                    &&& 0 <= spot.0 < 466 && 0 <= spot.1 < 466 ==> after[466 * spot.1 + spot.0]
                        == color
                }
            &&& forall|x: int, y: int| #[trigger]
                geometry::on_screen(x, y) && (forall|i: int, d: int|
                    0 <= i <= 2 * half_len + 2 && -(thick as int) <= 2 * d <= thick
                        ==> (#[trigger] spots[(i, d)]).0 != x || spots[(i, d)].1 != y)
                    ==> after[466 * y + x] == s[466 * y + x]
        }),
{
    let shape = spots_of(half_len, thick, spots);
    let after = canvas::painted(s, shape, color);
    assert forall|i: u32, d: i32|
        0 <= i <= 2 * half_len + 2 && -(thick as int) <= 2 * d <= thick implies {
        let spot = #[trigger] spots[(i as int, d as int)];
        &&& at.ensures((i, d), spot)
        &&& 0 <= spot.0 < 466 && 0 <= spot.1 < 466 ==> after[466 * spot.1 + spot.0] == color
    } by {
        let spot = spots[(i as int, d as int)];
        samples_of_a_paddle(half_len, thick, i as int, d as int);
        assert(is_sample(half_len, thick, i as int, d as int));
        if 0 <= spot.0 < 466 && 0 <= spot.1 < 466 {
            assert(shape(spot.0 as int, spot.1 as int));
            canvas::painted_at(s, shape, color, spot.0 as int, spot.1 as int);
        }
    }
    assert forall|x: int, y: int| #[trigger]
        geometry::on_screen(x, y) && (forall|i: int, d: int|
            0 <= i <= 2 * half_len + 2 && -(thick as int) <= 2 * d <= thick
                ==> (#[trigger] spots[(i, d)]).0 != x || spots[(i, d)].1
                != y) implies after[466 * y + x] == s[466 * y + x] by {
        canvas::painted_at(s, shape, color, x, y);
        if shape(x, y) {
            let (i, d) = choose|i: int, d: int| #[trigger]
                is_sample(half_len, thick, i, d) && spots[(i, d)].0 == x && spots[(i, d)].1 == y;
            samples_of_a_paddle(half_len, thick, i, d);
            assert(spots[(i, d)].0 == x);
        }
    }
}

/// The dirty rectangle of a ball reaches from 10 pixels before its least to 10
/// pixels past its greatest coordinate, the last one excluded.
pub proof fn ball_dirty_reaches(prev_x: i32, prev_y: i32, x: i32, y: i32, r: Rect)
    requires
        ball_moves(prev_x, prev_y, x, y),
        geometry::is_union(r, ball_box(prev_x, prev_y), ball_box(x, y)),
    ensures
        r.x == geometry::min_of(prev_x as int, x as int) - 10,
        r.y == geometry::min_of(prev_y as int, y as int) - 10,
        r.w == geometry::max_of(prev_x - x, x - prev_x) + 20,
        r.h == geometry::max_of(prev_y - y, y - prev_y) + 20,
{
}

} // verus!
