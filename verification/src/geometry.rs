//! Screen size and the rectangles that describe which part of it changed.

use vstd::prelude::*;

verus! {

/// Width of the screen in pixels.
pub const W: u16 = 466;

/// Height of the screen in pixels.
pub const H: u16 = 466;

/// Number of pixels of a whole frame, `W` times `H`.
pub const FRAME_LEN: usize = 217_156;

/// A rectangle by its top left corner and its size.
#[derive(Clone, Copy, PartialEq, Eq, Structural, Debug)]
pub struct Rect {
    pub x: i32,
    pub y: i32,
    pub w: u32,
    pub h: u32,
}

/// The pixel `(x, y)` lies on the screen.
pub open spec fn on_screen(x: int, y: int) -> bool {
    0 <= x < W && 0 <= y < H
}

/// A 32-bit pattern read as a two's complement number.
pub open spec fn signed(bits: u32) -> int {
    if bits < 0x8000_0000 {
        bits as int
    } else {
        bits - 0x1_0000_0000
    }
}

/// The 32-bit pattern that stands for a two's complement number.
pub open spec fn unsigned(n: int) -> int {
    if n >= 0 {
        n
    } else {
        n + 0x1_0000_0000
    }
}

pub open spec fn min_of(a: int, b: int) -> int {
    if a <= b {
        a
    } else {
        b
    }
}

pub open spec fn max_of(a: int, b: int) -> int {
    if a >= b {
        a
    } else {
        b
    }
}

impl Rect {
    /// One past the last column.
    pub open spec fn right(self) -> int {
        self.x + signed(self.w)
    }

    /// One past the last row.
    pub open spec fn bottom(self) -> int {
        self.y + signed(self.h)
    }

    /// The pixel `(x, y)` belongs to the rectangle.
    pub open spec fn covers(self, x: int, y: int) -> bool {
        self.x <= x < self.right() && self.y <= y < self.bottom()
    }

    /// Both far edges can be computed in 32 bits.
    pub open spec fn edges_fit(self) -> bool {
        &&& i32::MIN <= self.right() <= i32::MAX
        &&& i32::MIN <= self.bottom() <= i32::MAX
    }

    /// Both last coordinates, one before the far edges, can be computed in
    /// 32 bits too.
    pub open spec fn lasts_fit(self) -> bool {
        &&& self.edges_fit()
        &&& i32::MIN < self.right()
        &&& i32::MIN < self.bottom()
    }
}

/// The rectangle of the whole screen.
pub fn full_screen() -> (r: Rect)
    ensures
        r == (Rect { x: 0, y: 0, w: 466, h: 466 }),
{
    Rect { x: 0, y: 0, w: W as u32, h: H as u32 }
}

/// `bits` as a signed number.
pub(crate) fn to_signed(bits: u32) -> (n: i32)
    ensures
        n == signed(bits),
{
    assert(bits < 0x8000_0000 ==> bits as i32 == bits) by (bit_vector);
    assert(bits >= 0x8000_0000 ==> bits as i32 == bits - 0x1_0000_0000) by (bit_vector);
    bits as i32
}

/// `n` as an unsigned bit pattern.
pub(crate) fn to_unsigned(n: i32) -> (bits: u32)
    ensures
        bits == unsigned(n as int),
{
    assert(n >= 0 ==> n as u32 == n) by (bit_vector);
    assert(n < 0 ==> n as u32 == n + 0x1_0000_0000) by (bit_vector);
    n as u32
}

pub(crate) fn min_i32(a: i32, b: i32) -> (m: i32)
    ensures
        m == min_of(a as int, b as int),
{
    if a <= b {
        a
    } else {
        b
    }
}

pub(crate) fn max_i32(a: i32, b: i32) -> (m: i32)
    ensures
        m == max_of(a as int, b as int),
{
    if a >= b {
        a
    } else {
        b
    }
}

/// `u` reaches from the least near edges of `a` and `b` to their greatest far
/// edges.
pub open spec fn is_union(u: Rect, a: Rect, b: Rect) -> bool {
    &&& u.x == min_of(a.x as int, b.x as int)
    &&& u.y == min_of(a.y as int, b.y as int)
    &&& u.w == unsigned(max_of(a.right(), b.right()) - u.x)
    &&& u.h == unsigned(max_of(a.bottom(), b.bottom()) - u.y)
}

/// The smallest rectangle around two rectangles.
pub fn bb_union(a: Rect, b: Rect) -> (u: Rect)
    requires
        a.edges_fit(),
        b.edges_fit(),
        i32::MIN <= max_of(a.right(), b.right()) - min_of(a.x as int, b.x as int) <= i32::MAX,
        i32::MIN <= max_of(a.bottom(), b.bottom()) - min_of(a.y as int, b.y as int) <= i32::MAX,
    ensures
        is_union(u, a, b),
{
    let x0: i32 = min_i32(a.x, b.x);
    let y0: i32 = min_i32(a.y, b.y);
    let x1: i32 = max_i32(a.x + to_signed(a.w), b.x + to_signed(b.w));
    let y1: i32 = max_i32(a.y + to_signed(a.h), b.y + to_signed(b.h));
    Rect { x: x0, y: y0, w: to_unsigned(x1 - x0), h: to_unsigned(y1 - y0) }
}

/// The part of `bbox` on the screen, as first and last column and row, or
/// nothing where they do not meet.
pub open spec fn clipped(bbox: Rect) -> Option<(int, int, int, int)> {
    let x0 = max_of(bbox.x as int, 0);
    let y0 = max_of(bbox.y as int, 0);
    let x1 = min_of(bbox.right() - 1, W - 1);
    let y1 = min_of(bbox.bottom() - 1, H - 1);
    if x0 > x1 || y0 > y1 {
        None
    } else {
        Some((x0, y0, x1, y1))
    }
}

/// Widens an odd number of columns by one: to the right, or to the left where
/// the last column is that of the screen.
pub open spec fn even_columns(x0: int, x1: int) -> (int, int) {
    if (x1 - x0 + 1) % 2 == 0 {
        (x0, x1)
    } else if x1 + 1 < W {
        (x0, x1 + 1)
    } else {
        (x0 - 1, x1)
    }
}

/// The window that is sent for `bbox`, as first column, first row, last column
/// and last row, or nothing where no pixel of it is on the screen.
pub open spec fn window_of(bbox: Rect) -> Option<(int, int, int, int)> {
    match clipped(bbox) {
        None => None,
        Some((x0, y0, x1, y1)) => Some((even_columns(x0, x1).0, y0, even_columns(x0, x1).1, y1)),
    }
}

/// Clips `bbox` to the screen and widens it to an even number of columns.
/// The result is first column, first row, last column, last row.
pub fn clip_align(bbox: Rect) -> (window: Option<(usize, usize, usize, usize)>)
    requires
        bbox.lasts_fit(),
    ensures
        match window {
            None => clipped(bbox) is None,
            Some((x0, y0, x1, y1)) => {
                &&& clipped(bbox) matches Some((cx0, cy0, cx1, cy1))
                &&& (x0 as int, x1 as int) == even_columns(cx0, cx1)
                &&& y0 == cy0
                &&& y1 == cy1
            },
        },
        match window {
            None => window_of(bbox) is None,
            Some((x0, y0, x1, y1)) => window_of(bbox) == Some(
                (x0 as int, y0 as int, x1 as int, y1 as int),
            ),
        },
{
    let x0: i32 = max_i32(bbox.x, 0);
    let y0: i32 = max_i32(bbox.y, 0);
    let x1: i32 = min_i32(bbox.x + to_signed(bbox.w) - 1, W as i32 - 1);
    let y1: i32 = min_i32(bbox.y + to_signed(bbox.h) - 1, H as i32 - 1);
    if x0 > x1 || y0 > y1 {
        return None;
    }
    let mut x0: usize = x0 as usize;
    let mut x1: usize = x1 as usize;
    let width: usize = x1 - x0 + 1;
    assert(width & 1 == width % 2) by (bit_vector);
    if width & 1 != 0 {
        if x1 + 1 < W as usize {
            x1 += 1;
        } else {
            x0 = x0.saturating_sub(1);
        }
    }
    Some((x0, y0 as usize, x1, y1 as usize))
}

/// First and last columns and rows that name pixels of the screen.
pub open spec fn is_window(x0: int, y0: int, x1: int, y1: int) -> bool {
    0 <= x0 <= x1 < W && 0 <= y0 <= y1 < H
}

/// A window that `clip_align` makes lies on the screen, has an even number of
/// columns, holds every pixel of the screen that the rectangle covers, and
/// holds at most one column that the rectangle does not reach.
pub proof fn clip_align_window(bbox: Rect)
    requires
        clipped(bbox) is Some,
    ensures
        ({
            let (cx0, cy0, cx1, cy1) = clipped(bbox)->0;
            let (x0, x1) = even_columns(cx0, cx1);
            &&& is_window(x0, cy0, x1, cy1)
            &&& (x1 - x0 + 1) % 2 == 0
            &&& x1 - x0 <= cx1 - cx0 + 1
            &&& forall|x: int, y: int| #[trigger]
                bbox.covers(x, y) && on_screen(x, y) ==> x0 <= x <= x1 && cy0 <= y <= cy1
        }),
{
}

/// Nothing is left of a rectangle exactly where it covers no pixel of the
/// screen.
pub proof fn clip_align_nothing(bbox: Rect)
    ensures
        clipped(bbox) is None <==> forall|x: int, y: int| #[trigger]
            bbox.covers(x, y) ==> !on_screen(x, y),
{
    if let Some((x0, y0, x1, y1)) = clipped(bbox) {
        assert(bbox.covers(x0, y0) && on_screen(x0, y0));
    }
}

/// A union covers every pixel of both rectangles.
pub proof fn union_covers_both(u: Rect, a: Rect, b: Rect)
    requires
        is_union(u, a, b),
        i32::MIN <= max_of(a.right(), b.right()) - u.x <= i32::MAX,
        i32::MIN <= max_of(a.bottom(), b.bottom()) - u.y <= i32::MAX,
    ensures
        forall|x: int, y: int| #[trigger] a.covers(x, y) ==> u.covers(x, y),
        forall|x: int, y: int| #[trigger] b.covers(x, y) ==> u.covers(x, y),
{
}

/// No rectangle that covers every pixel of two rectangles, neither of them
/// empty, misses a pixel of their union.
pub proof fn union_is_smallest(u: Rect, a: Rect, b: Rect, r: Rect)
    requires
        is_union(u, a, b),
        i32::MIN <= max_of(a.right(), b.right()) - u.x <= i32::MAX,
        i32::MIN <= max_of(a.bottom(), b.bottom()) - u.y <= i32::MAX,
        exists|x: int, y: int| a.covers(x, y),
        exists|x: int, y: int| b.covers(x, y),
        forall|x: int, y: int| #[trigger] a.covers(x, y) ==> r.covers(x, y),
        forall|x: int, y: int| #[trigger] b.covers(x, y) ==> r.covers(x, y),
    ensures
        forall|x: int, y: int| #[trigger] u.covers(x, y) ==> r.covers(x, y),
{
    assert(a.covers(a.x as int, a.y as int));
    assert(b.covers(b.x as int, b.y as int));
    assert(a.covers(a.right() - 1, a.bottom() - 1));
    assert(b.covers(b.right() - 1, b.bottom() - 1));
}

/// A size and the signed number that stands for it are the same 32 bits, in both
/// directions.
pub proof fn signs_keep_the_bits(bits: u32, n: i32)
    ensures
        i32::MIN <= signed(bits) <= i32::MAX,
        (signed(bits) - bits) % 0x1_0000_0000 == 0,
        0 <= unsigned(n as int) <= u32::MAX,
        (unsigned(n as int) - n) % 0x1_0000_0000 == 0,
{
}

/// Each edge of a union is the outer one of the two edges there.
pub proof fn union_has_the_outer_edges(u: Rect, a: Rect, b: Rect)
    requires
        is_union(u, a, b),
        i32::MIN <= max_of(a.right(), b.right()) - u.x <= i32::MAX,
        i32::MIN <= max_of(a.bottom(), b.bottom()) - u.y <= i32::MAX,
    ensures
        u.x <= a.x && u.x <= b.x && (u.x == a.x || u.x == b.x),
        u.y <= a.y && u.y <= b.y && (u.y == a.y || u.y == b.y),
        a.x + signed(a.w) <= u.x + signed(u.w) && b.x + signed(b.w) <= u.x + signed(u.w),
        u.x + signed(u.w) == a.x + signed(a.w) || u.x + signed(u.w) == b.x + signed(b.w),
        a.y + signed(a.h) <= u.y + signed(u.h) && b.y + signed(b.h) <= u.y + signed(u.h),
        u.y + signed(u.h) == a.y + signed(a.h) || u.y + signed(u.h) == b.y + signed(b.h),
{
}

/// A window is sent for a rectangle exactly where the rectangle has a pixel of
/// the screen.
pub proof fn a_window_is_sent_for_what_is_on_screen(bbox: Rect)
    ensures
        window_of(bbox) is Some <==> exists|x: int, y: int| #[trigger]
            on_screen(x, y) && bbox.x <= x < bbox.x + signed(bbox.w) && bbox.y <= y < bbox.y
                + signed(bbox.h),
        on_screen(0, 0) && on_screen(465, 465),
        !on_screen(-1, 0) && !on_screen(0, -1) && !on_screen(466, 0) && !on_screen(0, 466),
{
    if let Some((x0, y0, x1, y1)) = clipped(bbox) {
        assert(on_screen(x0, y0));
    }
}

/// The rows of a window are exactly those rows of the screen that its rectangle
/// has.  Its columns are an even number, and they are exactly those columns of
/// the screen that the rectangle has, but for one more where these are an odd
/// number: the next one on the right, or on the left of the last column of the
/// screen.
pub proof fn a_window_is_no_larger_than_needed(bbox: Rect)
    requires
        window_of(bbox) is Some,
    ensures
        ({
            let (x0, y0, x1, y1) = window_of(bbox)->0;
            &&& 0 <= x0 <= x1 <= 465 && 0 <= y0 <= y1 <= 465
            &&& (x1 - x0) % 2 == 1
            &&& forall|y: int|
                0 <= y <= 465 ==> (#[trigger] between(y0, y, y1) <==> bbox.y <= y < bbox.y + signed(
                    bbox.h,
                ))
            &&& forall|x: int|
                0 <= x <= 465 && bbox.x <= x < bbox.x + signed(bbox.w) ==> #[trigger] between(
                    x0,
                    x,
                    x1,
                )
            &&& forall|x: int| #[trigger]
                between(x0, x, x1) && !(bbox.x <= x < bbox.x + signed(bbox.w)) ==> x == x1
                    || (x == x0 && x1 == 465)
        }),
{
}

/// `a`, `b` and `c` follow one another.
pub open spec fn between(a: int, b: int, c: int) -> bool {
    a <= b <= c
}

} // verus!
