//! The frame buffer and the shapes painted on it.
//!
//! A frame is a row-major sequence of RGB565 pixels.  A shape is a set of
//! pixels, given as a predicate on column and row.  What a drawing function
//! does is stated by `painted`: the pixels of its shape that lie on the screen
//! take the colour, all others keep theirs.

use vstd::prelude::*;

use crate::geometry;
use crate::geometry::{max_i32, min_i32, FRAME_LEN, H, W};

verus! {

/// Where the pixel `(x, y)` of the screen stands in a frame.
pub open spec fn index_of(x: int, y: int) -> int {
    y * W + x
}

/// The frame `s` after the pixels of `shape` on the screen took `color`.
pub open spec fn painted(s: Seq<u16>, shape: spec_fn(int, int) -> bool, color: u16) -> Seq<u16> {
    Seq::new(
        s.len(),
        |i: int|
            if i < FRAME_LEN && shape(i % W as int, i / W as int) {
                color
            } else {
                s[i]
            },
    )
}

/// The frame `s` after each pixel on the screen took the colour that `ink`
/// gives it, if any.
pub open spec fn inked(s: Seq<u16>, ink: spec_fn(int, int) -> Option<u16>) -> Seq<u16> {
    Seq::new(
        s.len(),
        |i: int|
            if i < FRAME_LEN && ink(i % W as int, i / W as int) is Some {
                ink(i % W as int, i / W as int)->0
            } else {
                s[i]
            },
    )
}

/// A single pixel.
pub open spec fn dot(px: int, py: int) -> spec_fn(int, int) -> bool {
    |x: int, y: int| x == px && y == py
}

/// The columns `x1..x2` of the rows `y1..y2`.
pub open spec fn block(x1: int, y1: int, x2: int, y2: int) -> spec_fn(int, int) -> bool {
    |x: int, y: int| x1 <= x < x2 && y1 <= y < y2
}

/// The pixels at most `r` away from `(cx, cy)`.
pub open spec fn disc(cx: int, cy: int, r: int) -> spec_fn(int, int) -> bool {
    |x: int, y: int| r >= 0 && dist2(x - cx, y - cy) <= r * r
}

/// The pixels at least `r_in` and at most `r_out` away from `(cx, cy)`.
pub open spec fn annulus(cx: int, cy: int, r_in: int, r_out: int) -> spec_fn(int, int) -> bool {
    |x: int, y: int|
        r_out >= 0 && r_in * r_in <= dist2(x - cx, y - cy) <= r_out * r_out
}

/// The square of the length of `(dx, dy)`.
pub open spec fn dist2(dx: int, dy: int) -> int {
    dx * dx + dy * dy
}

/// The pixels of either shape.
pub open spec fn either(
    a: spec_fn(int, int) -> bool,
    b: spec_fn(int, int) -> bool,
) -> spec_fn(int, int) -> bool {
    |x: int, y: int| a(x, y) || b(x, y)
}

/// Column and row of the place of a pixel of the screen.
pub proof fn index_of_splits(x: int, y: int)
    requires
        geometry::on_screen(x, y),
    ensures
        0 <= index_of(x, y) < FRAME_LEN,
        index_of(x, y) % W as int == x,
        index_of(x, y) / W as int == y,
{
}

/// What a painted frame holds at a pixel of the screen.
pub proof fn painted_at(s: Seq<u16>, shape: spec_fn(int, int) -> bool, color: u16, x: int, y: int)
    requires
        s.len() >= FRAME_LEN,
        geometry::on_screen(x, y),
    ensures
        painted(s, shape, color)[index_of(x, y)] == if shape(x, y) {
            color
        } else {
            s[index_of(x, y)]
        },
{
    index_of_splits(x, y);
}

/// Painting two shapes in one colour paints either.
pub proof fn painted_twice(
    s: Seq<u16>,
    a: spec_fn(int, int) -> bool,
    b: spec_fn(int, int) -> bool,
    color: u16,
)
    ensures
        painted(painted(s, a, color), b, color) == painted(s, either(a, b), color),
{
    assert(painted(painted(s, a, color), b, color) =~= painted(s, either(a, b), color));
}

/// Painting a shape over leaves nothing of what was painted on it before: a
/// ball, a paddle or a spark that is painted over in the background colour is
/// gone.
pub proof fn painted_over(s: Seq<u16>, shape: spec_fn(int, int) -> bool, first: u16, last: u16)
    ensures
        painted(painted(s, shape, first), shape, last) == painted(s, shape, last),
{
    assert(painted(painted(s, shape, first), shape, last) =~= painted(s, shape, last));
}

/// Shapes with the same pixels on the screen paint the same frame.
pub proof fn painted_same(
    s: Seq<u16>,
    a: spec_fn(int, int) -> bool,
    b: spec_fn(int, int) -> bool,
    color: u16,
)
    requires
        forall|x: int, y: int| geometry::on_screen(x, y) ==> #[trigger] a(x, y) == b(x, y),
    ensures
        painted(s, a, color) == painted(s, b, color),
{
    assert(painted(s, a, color) =~= painted(s, b, color));
}

/// Gives the pixel `(x, y)` a colour, if it lies on the screen.
pub fn plot(buf: &mut [u16], x: i32, y: i32, color: u16)
    requires
        old(buf)@.len() >= FRAME_LEN,
    ensures
        final(buf)@ == painted(old(buf)@, dot(x as int, y as int), color),
{
    if 0 <= x && x < W as i32 && 0 <= y && y < H as i32 {
        proof {
            index_of_splits(x as int, y as int);
        }
        buf[y as usize * W as usize + x as usize] = color;
    }
    assert(buf@ =~= painted(old(buf)@, dot(x as int, y as int), color));
}

/// Fills the columns `x1..x2` of the rows `y1..y2`, as far as they lie on the
/// screen.
pub fn fill_rect(buf: &mut [u16], x1: i32, y1: i32, x2: i32, y2: i32, color: u16)
    requires
        old(buf)@.len() >= FRAME_LEN,
    ensures
        final(buf)@ == painted(
            old(buf)@,
            block(x1 as int, y1 as int, x2 as int, y2 as int),
            color,
        ),
{
    let left: i32 = min_i32(max_i32(x1, 0), W as i32);
    let right: i32 = min_i32(max_i32(x2, 0), W as i32);
    let top: i32 = min_i32(max_i32(y1, 0), H as i32);
    let bottom: i32 = min_i32(max_i32(y2, 0), H as i32);
    let ghost before = buf@;
    let mut y: i32 = top;
    assert(buf@ =~= painted(before, block(left as int, top as int, right as int, y as int), color));
    while y < bottom
        invariant
            0 <= left <= W,
            0 <= right <= W,
            0 <= top <= H,
            0 <= bottom <= H,
            top <= y,
            y <= bottom || y == top,
            before.len() >= FRAME_LEN,
            buf@ == painted(before, block(left as int, top as int, right as int, y as int), color),
        decreases bottom - y,
    {
        let ghost above = buf@;
        let mut x: i32 = left;
        assert(buf@ =~= painted(above, block(left as int, y as int, x as int, y + 1), color));
        while x < right
            invariant
                0 <= left <= x,
                x <= right || x == left,
                right <= W,
                0 <= y < H,
                above.len() >= FRAME_LEN,
                buf@ == painted(above, block(left as int, y as int, x as int, y + 1), color),
            decreases right - x,
        {
            proof {
                index_of_splits(x as int, y as int);
            }
            buf[y as usize * W as usize + x as usize] = color;
            x += 1;
            assert(buf@ =~= painted(above, block(left as int, y as int, x as int, y + 1), color));
        }
        y += 1;
        assert(buf@ =~= painted(
            before,
            block(left as int, top as int, right as int, y as int),
            color,
        ));
    }
    assert(buf@ =~= painted(before, block(x1 as int, y1 as int, x2 as int, y2 as int), color));
}

/// A point of a disc is no further away than the radius on either axis.
pub proof fn disc_is_bounded(dx: int, dy: int, r: int)
    requires
        r >= 0,
        dist2(dx, dy) <= r * r,
    ensures
        -r <= dx <= r,
        -r <= dy <= r,
{
    assert(dx * dx >= 0) by (nonlinear_arith);
    assert(dy * dy >= 0) by (nonlinear_arith);
    assert(-r <= dx <= r) by (nonlinear_arith)
        requires
            r >= 0,
            dx * dx <= r * r,
    ;
    assert(-r <= dy <= r) by (nonlinear_arith)
        requires
            r >= 0,
            dy * dy <= r * r,
    ;
}

/// The squares of offsets up to `r` are at most that of `r`.
pub proof fn square_is_bounded(d: int, r: int)
    requires
        -r <= d <= r,
    ensures
        0 <= d * d <= r * r,
{
    assert(0 <= d * d <= r * r) by (nonlinear_arith)
        requires
            -r <= d <= r,
    ;
}

/// Fills the disc of radius `r` round `(cx, cy)`, as far as it lies on the
/// screen.
pub fn fill_circle(buf: &mut [u16], cx: i32, cy: i32, r: i32, color: u16)
    requires
        old(buf)@.len() >= FRAME_LEN,
        i32::MIN <= cy - r <= i32::MAX,
        i32::MIN <= cy + r <= i32::MAX,
        r >= 0 ==> i32::MIN <= cx - r && cx + r <= i32::MAX && 2 * (r * r) <= i32::MAX,
    ensures
        final(buf)@ == painted(old(buf)@, disc(cx as int, cy as int, r as int), color),
{
    let ghost before = buf@;
    let ghost whole = disc(cx as int, cy as int, r as int);
    if r < 0 {
        assert(buf@ =~= painted(before, whole, color));
        return;
    }
    assert(r <= r * r) by (nonlinear_arith)
        requires
            r >= 0,
    ;
    assert forall|x: int, y: int| #[trigger] whole(x, y) implies cx - r <= x <= cx + r && cy - r
        <= y <= cy + r by {
        disc_is_bounded(x - cx, y - cy, r as int);
    }
    let mut dy: i32 = -r;
    assert(buf@ =~= painted(before, |x: int, y: int| whole(x, y) && y < cy + dy, color));
    while dy <= r
        invariant
            0 <= r <= r * r,
            2 * (r * r) <= i32::MAX,
            i32::MIN <= cy - r,
            cy + r <= i32::MAX,
            i32::MIN <= cx - r,
            cx + r <= i32::MAX,
            -r <= dy <= r + 1,
            before.len() >= FRAME_LEN,
            whole == disc(cx as int, cy as int, r as int),
            forall|x: int, y: int| #[trigger]
                whole(x, y) ==> cx - r <= x <= cx + r && cy - r <= y <= cy + r,
            buf@ == painted(before, |x: int, y: int| whole(x, y) && y < cy + dy, color),
        decreases r + 1 - dy,
    {
        let ghost above = buf@;
        let mut dx: i32 = -r;
        assert(buf@ =~= painted(
            above,
            |x: int, y: int| whole(x, y) && y == cy + dy && x < cx + dx,
            color,
        ));
        while dx <= r
            invariant
                0 <= r <= r * r,
                2 * (r * r) <= i32::MAX,
                i32::MIN <= cy - r,
                cy + r <= i32::MAX,
                i32::MIN <= cx - r,
                cx + r <= i32::MAX,
                -r <= dy <= r,
                -r <= dx <= r + 1,
                above.len() >= FRAME_LEN,
                whole == disc(cx as int, cy as int, r as int),
                buf@ == painted(
                    above,
                    |x: int, y: int| whole(x, y) && y == cy + dy && x < cx + dx,
                    color,
                ),
            decreases r + 1 - dx,
        {
            proof {
                square_is_bounded(dx as int, r as int);
                square_is_bounded(dy as int, r as int);
            }
            if dx * dx + dy * dy <= r * r {
                plot(buf, cx + dx, cy + dy, color);
            }
            dx += 1;
            assert(buf@ =~= painted(
                above,
                |x: int, y: int| whole(x, y) && y == cy + dy && x < cx + dx,
                color,
            ));
        }
        dy += 1;
        assert(buf@ =~= painted(before, |x: int, y: int| whole(x, y) && y < cy + dy, color));
    }
    assert(buf@ =~= painted(before, whole, color));
}

/// Half of `n`, rounded toward zero.
pub open spec fn half_of(n: int) -> int {
    if n >= 0 {
        n / 2
    } else {
        -((-n) / 2)
    }
}

/// The squares of both radii, and of every offset up to the outer one, fit in
/// 32 bits, and so do the coordinates of every pixel of the ring.
pub open spec fn ring_fits(cx: int, cy: int, r_in: int, r_out: int) -> bool {
    &&& i32::MIN <= r_in <= i32::MAX
    &&& i32::MIN <= r_out <= i32::MAX
    &&& r_in * r_in <= i32::MAX
    &&& r_out * r_out <= i32::MAX
    &&& r_out >= 0 ==> 2 * (r_out * r_out) <= i32::MAX
    &&& r_out >= 0 && r_in * r_in <= r_out * r_out ==> {
        &&& i32::MIN <= cx - r_out
        &&& cx + r_out <= i32::MAX
        &&& i32::MIN <= cy - r_out
        &&& cy + r_out <= i32::MAX
    }
}

/// Paints a ring of width `thick` whose middle is `r` away from `(cx, cy)`, as
/// far as it lies on the screen.
pub fn paint_circle_ring(buf: &mut [u16], cx: i32, cy: i32, r: i32, thick: i32, color: u16)
    requires
        old(buf)@.len() >= FRAME_LEN,
        ring_fits(cx as int, cy as int, r - half_of(thick as int), r + half_of(thick as int)),
    ensures
        final(buf)@ == painted(
            old(buf)@,
            annulus(
                cx as int,
                cy as int,
                r - half_of(thick as int),
                r + half_of(thick as int),
            ),
            color,
        ),
{
    let half: i32 = thick / 2;
    let r_in: i32 = r - half;
    let r_out: i32 = r + half;
    let ghost before = buf@;
    let ghost whole = annulus(cx as int, cy as int, r_in as int, r_out as int);
    assert(r_in * r_in >= 0) by (nonlinear_arith);
    assert(r_out * r_out >= 0) by (nonlinear_arith);
    let r_in2: i32 = r_in * r_in;
    let r_out2: i32 = r_out * r_out;
    if r_out < 0 {
        assert(buf@ =~= painted(before, whole, color));
        return;
    }
    assert(r_out <= r_out * r_out) by (nonlinear_arith)
        requires
            r_out >= 0,
    ;
    assert forall|x: int, y: int| #[trigger] whole(x, y) implies cx - r_out <= x <= cx + r_out && cy
        - r_out <= y <= cy + r_out by {
        disc_is_bounded(x - cx, y - cy, r_out as int);
    }
    let mut dy: i32 = -r_out;
    assert(buf@ =~= painted(before, |x: int, y: int| whole(x, y) && y < cy + dy, color));
    while dy <= r_out
        invariant
            0 <= r_out <= r_out * r_out,
            r_in2 == r_in * r_in,
            r_out2 == r_out * r_out,
            ring_fits(cx as int, cy as int, r_in as int, r_out as int),
            -r_out <= dy <= r_out + 1,
            before.len() >= FRAME_LEN,
            whole == annulus(cx as int, cy as int, r_in as int, r_out as int),
            forall|x: int, y: int| #[trigger]
                whole(x, y) ==> cx - r_out <= x <= cx + r_out && cy - r_out <= y <= cy + r_out,
            buf@ == painted(before, |x: int, y: int| whole(x, y) && y < cy + dy, color),
        decreases r_out + 1 - dy,
    {
        let ghost above = buf@;
        let mut dx: i32 = -r_out;
        assert(buf@ =~= painted(
            above,
            |x: int, y: int| whole(x, y) && y == cy + dy && x < cx + dx,
            color,
        ));
        while dx <= r_out
            invariant
                0 <= r_out <= r_out * r_out,
                r_in2 == r_in * r_in,
                r_out2 == r_out * r_out,
                ring_fits(cx as int, cy as int, r_in as int, r_out as int),
                -r_out <= dy <= r_out,
                -r_out <= dx <= r_out + 1,
                above.len() >= FRAME_LEN,
                whole == annulus(cx as int, cy as int, r_in as int, r_out as int),
                buf@ == painted(
                    above,
                    |x: int, y: int| whole(x, y) && y == cy + dy && x < cx + dx,
                    color,
                ),
            decreases r_out + 1 - dx,
        {
            proof {
                square_is_bounded(dx as int, r_out as int);
                square_is_bounded(dy as int, r_out as int);
            }
            let d2: i32 = dx * dx + dy * dy;
            if r_in2 <= d2 && d2 <= r_out2 {
                plot(buf, cx + dx, cy + dy, color);
            }
            dx += 1;
            assert(buf@ =~= painted(
                above,
                |x: int, y: int| whole(x, y) && y == cy + dy && x < cx + dx,
                color,
            ));
        }
        dy += 1;
        assert(buf@ =~= painted(before, |x: int, y: int| whole(x, y) && y < cy + dy, color));
    }
    assert(buf@ =~= painted(before, whole, color));
}

/// Plotting a pixel gives that pixel the colour and leaves all others alone.
pub proof fn a_plotted_pixel(s: Seq<u16>, px: int, py: int, color: u16, x: int, y: int)
    requires
        s.len() >= FRAME_LEN,
        0 <= x < 466,
        0 <= y < 466,
    ensures
        painted(s, dot(px, py), color)[466 * y + x] == if (x, y) == (px, py) {
            color
        } else {
            s[466 * y + x]
        },
{
    painted_at(s, dot(px, py), color, x, y);
}

/// In a filled rectangle a pixel of the screen has the colour exactly where it
/// is neither left of the first column nor above the first row, nor at or past
/// the far edges.
pub proof fn a_filled_rectangle(
    s: Seq<u16>,
    x1: int,
    y1: int,
    x2: int,
    y2: int,
    color: u16,
    x: int,
    y: int,
)
    requires
        s.len() >= FRAME_LEN,
        0 <= x < 466,
        0 <= y < 466,
    ensures
        painted(s, block(x1, y1, x2, y2), color)[466 * y + x] == if x < x1 || x >= x2 || y < y1 || y
            >= y2 {
            s[466 * y + x]
        } else {
            color
        },
{
    painted_at(s, block(x1, y1, x2, y2), color, x, y);
}

/// In a filled disc a pixel of the screen has the colour exactly where the
/// square of its distance from the centre is at most that of the radius.
pub proof fn a_filled_disc(
    s: Seq<u16>,
    cx: int,
    cy: int,
    r: int,
    color: u16,
    x: int,
    y: int,
)
    requires
        s.len() >= FRAME_LEN,
        0 <= x < 466,
        0 <= y < 466,
        r >= 0,
    ensures
        painted(s, disc(cx, cy, r), color)[466 * y + x] == if (x - cx) * (x - cx) + (y - cy) * (y
            - cy) > r * r {
            s[466 * y + x]
        } else {
            color
        },
{
    painted_at(s, disc(cx, cy, r), color, x, y);
}

/// A disc looks the same from all sides: mirrored at either axis or at the
/// diagonal through its centre it is itself.
pub proof fn a_disc_is_round(cx: int, cy: int, r: int, dx: int, dy: int)
    ensures
        disc(cx, cy, r)(cx + dx, cy + dy) == disc(cx, cy, r)(cx - dx, cy + dy),
        disc(cx, cy, r)(cx + dx, cy + dy) == disc(cx, cy, r)(cx + dx, cy - dy),
        disc(cx, cy, r)(cx + dx, cy + dy) == disc(cx, cy, r)(cx + dy, cy + dx),
        r >= 0 ==> disc(cx, cy, r)(cx + r, cy) && !disc(cx, cy, r)(cx + r + 1, cy),
        r < 0 ==> !disc(cx, cy, r)(cx + dx, cy + dy),
{
    assert((-dx) * (-dx) == dx * dx) by (nonlinear_arith);
    assert((-dy) * (-dy) == dy * dy) by (nonlinear_arith);
    assert(cx + dx - cx == dx && cx - dx - cx == -dx && cx + dy - cx == dy);
    assert(cy + dy - cy == dy && cy - dy - cy == -dy && cy + dx - cy == dx);
    assert(cx + r - cx == r && cx + r + 1 - cx == r + 1 && cy - cy == 0);
    assert((r + 1) * (r + 1) == r * r + 2 * r + 1) by (nonlinear_arith);
}

/// In a painted ring a pixel of the screen has the colour exactly where its
/// distance from the centre is neither less than the inner nor more than the
/// outer radius.  Both radii are half the width, rounded down, away from the
/// middle of the ring.
pub proof fn a_painted_ring(
    s: Seq<u16>,
    cx: int,
    cy: int,
    r: int,
    thick: int,
    color: u16,
    x: int,
    y: int,
)
    requires
        s.len() >= FRAME_LEN,
        0 <= x < 466,
        0 <= y < 466,
        thick >= 0,
        r >= 0,
    ensures
        0 <= thick - 2 * half_of(thick) <= 1,
        half_of(-thick) == -half_of(thick),
        ({
            let d2 = (x - cx) * (x - cx) + (y - cy) * (y - cy);
            let near = r - half_of(thick);
            let far = r + half_of(thick);
            painted(s, annulus(cx, cy, r - half_of(thick), r + half_of(thick)), color)[466 * y + x]
                == if d2 < near * near || d2 > far * far {
                s[466 * y + x]
            } else {
                color
            }
        }),
{
    painted_at(s, annulus(cx, cy, r - half_of(thick), r + half_of(thick)), color, x, y);
}

/// Painting changes neither the length of the memory nor anything in it beyond
/// the screen.
pub proof fn painting_keeps_the_rest(
    s: Seq<u16>,
    shape: spec_fn(int, int) -> bool,
    ink: spec_fn(int, int) -> Option<u16>,
    color: u16,
    i: int,
)
    requires
        217_156 <= i < s.len(),
    ensures
        painted(s, shape, color).len() == s.len(),
        painted(s, shape, color)[i] == s[i],
        inked(s, ink).len() == s.len(),
        inked(s, ink)[i] == s[i],
{
}

/// What an inked frame holds at a pixel of the screen.
pub proof fn inked_at(s: Seq<u16>, ink: spec_fn(int, int) -> Option<u16>, x: int, y: int)
    requires
        s.len() >= FRAME_LEN,
        0 <= x < 466,
        0 <= y < 466,
    ensures
        inked(s, ink)[466 * y + x] == match ink(x, y) {
            Some(color) => color,
            None => s[466 * y + x],
        },
{
    index_of_splits(x, y);
}

} // verus!
