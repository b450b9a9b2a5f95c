//! Text, drawn enlarged: every pixel of a glyph becomes a square.

use vstd::prelude::*;

use embedded_graphics::framebuffer::Framebuffer;
use embedded_graphics::geometry::Point;
use embedded_graphics::mono_font::ascii::FONT_10X20;
use embedded_graphics::mono_font::MonoTextStyle;
use embedded_graphics::pixelcolor::raw::{LittleEndian, RawU8};
use embedded_graphics::pixelcolor::{Gray8, GrayColor};
use embedded_graphics::text::Text;
use embedded_graphics::Drawable;

use crate::canvas;
use crate::canvas::fill_rect;
use crate::color;
use crate::color::{raw565, Rgb};
use crate::display::Pixel;
use crate::geometry::{FRAME_LEN, H, W};

verus! {

/// Width of the bitmap that text is rendered on: eight glyphs.
pub const TEXT_W: usize = 80;

/// Height of the bitmap that text is rendered on: one glyph.
pub const TEXT_H: usize = 20;

/// Height of a glyph above the line it stands on.
pub const BASELINE: i32 = 15;

/// The bitmap of 80 columns and 20 rows, a byte per pixel and row by row, that
/// `Text::draw` leaves of a text whose line starts at `(x, y)`.
pub uninterp spec fn text_bitmap(text: Seq<char>, x: int, y: int) -> Seq<u8>;

/// Calls `embedded_graphics::text::Text::draw` in `FONT_10X20`, in white and
/// without a background, on an empty `Framebuffer` of 80 by 20 grey pixels.
/// Claimed is that the bytes of that framebuffer are a function of the text and
/// of where its line starts, that there is one for each pixel, and that nothing
/// is drawn to the left of the start or more than ten columns per character to
/// the right of it: the glyphs of that font are ten columns wide and stand side
/// by side.
#[verifier::external_body]
fn render(text: &str, x: i32, y: i32) -> (bits: Vec<u8>)
    requires
        text@.len() <= 8,
        0 <= x < TEXT_W,
        0 <= y < TEXT_H,
    ensures
        bits@ == text_bitmap(text@, x as int, y as int),
        bits@.len() == TEXT_W * TEXT_H,
        forall|col: int, row: int| #[trigger]
            is_set(bits@, col, row) ==> x <= col < x + 10 * text@.len(),
{
    let mut fb = Framebuffer::<Gray8, RawU8, LittleEndian, 80, 20, 1600>::new();
    let style = MonoTextStyle::new(&FONT_10X20, Gray8::WHITE);
    let _ = Text::new(text, Point::new(x, y), style).draw(&mut fb);
    fb.data().to_vec()
}

/// A part of a frame that pixels are drawn on enlarged: a pixel `(x, y)` fills
/// the square of side `scale` whose top left corner is
/// `(offset_x + x * scale, offset_y + y * scale)`.
pub struct ScaleTarget<'a> {
    buf: &'a mut [u16],
    scale: i32,
    offset_x: i32,
    offset_y: i32,
}

/// The square of an enlarged pixel.
pub open spec fn square(
    scale: int,
    offset_x: int,
    offset_y: int,
    x: int,
    y: int,
) -> spec_fn(int, int) -> bool {
    canvas::block(
        offset_x + x * scale,
        offset_y + y * scale,
        offset_x + x * scale + scale,
        offset_y + y * scale + scale,
    )
}

/// The edges of the square of an enlarged pixel can be computed in 32 bits.
pub open spec fn square_fits(scale: int, offset_x: int, offset_y: int, x: int, y: int) -> bool {
    &&& i32::MIN <= x * scale <= i32::MAX
    &&& i32::MIN <= y * scale <= i32::MAX
    &&& i32::MIN <= offset_x + x * scale <= i32::MAX
    &&& i32::MIN <= offset_y + y * scale <= i32::MAX
    &&& i32::MIN <= offset_x + x * scale + scale <= i32::MAX
    &&& i32::MIN <= offset_y + y * scale + scale <= i32::MAX
}

/// The frame `s` after pixels were drawn on it enlarged, one after the other.
pub open spec fn enlarged(
    s: Seq<u16>,
    scale: int,
    offset_x: int,
    offset_y: int,
    pixels: Seq<Pixel>,
) -> Seq<u16>
    decreases pixels.len(),
{
    if pixels.len() == 0 {
        s
    } else {
        let p = pixels.last();
        canvas::painted(
            enlarged(s, scale, offset_x, offset_y, pixels.drop_last()),
            square(scale, offset_x, offset_y, p.x as int, p.y as int),
            color::raw_of(p.color) as u16,
        )
    }
}

impl<'a> View for ScaleTarget<'a> {
    type V = Seq<u16>;

    /// The frame.
    closed spec fn view(&self) -> Seq<u16> {
        self.buf@
    }
}

impl<'a> ScaleTarget<'a> {
    /// Side of the square of a pixel.
    pub closed spec fn scale(self) -> int {
        self.scale as int
    }

    /// Column of the pixel `(0, 0)`.
    pub closed spec fn offset_x(self) -> int {
        self.offset_x as int
    }

    /// Row of the pixel `(0, 0)`.
    pub closed spec fn offset_y(self) -> int {
        self.offset_y as int
    }

    /// Everything but the frame is as in `other`.
    pub open spec fn same_place(self, other: Self) -> bool {
        &&& self.scale() == other.scale()
        &&& self.offset_x() == other.offset_x()
        &&& self.offset_y() == other.offset_y()
    }

    /// The borrowed frame memory.
    pub closed spec fn memory(self) -> &'a mut [u16] {
        self.buf
    }

    /// A target on the frame memory `buf`.
    pub fn new(buf: &'a mut [u16], scale: i32, offset_x: i32, offset_y: i32) -> (t: ScaleTarget<'a>)
        ensures
            t@ == old(buf)@,
            t.scale() == scale,
            t.offset_x() == offset_x,
            t.offset_y() == offset_y,
            final(t.memory())@ == final(buf)@,
    {
        ScaleTarget { buf, scale, offset_x, offset_y }
    }

    /// Draws pixels enlarged, one after the other.
    pub fn draw_iter(&mut self, pixels: &[Pixel])
        requires
            old(self)@.len() >= FRAME_LEN,
            forall|i: int|
                0 <= i < pixels@.len() ==> {
                    &&& (#[trigger] pixels@[i]).color.wf()
                    &&& square_fits(
                        old(self).scale(),
                        old(self).offset_x(),
                        old(self).offset_y(),
                        pixels@[i].x as int,
                        pixels@[i].y as int,
                    )
                },
        ensures
            final(self).same_place(*old(self)),
            final(final(self).memory())@ == final(old(self).memory())@,
            final(self)@ == enlarged(
                old(self)@,
                old(self).scale(),
                old(self).offset_x(),
                old(self).offset_y(),
                pixels@,
            ),
    {
        let ghost start = *self;
        let mut i: usize = 0;
        assert(pixels@.take(0) =~= Seq::<Pixel>::empty());
        while i < pixels.len()
            invariant
                self.same_place(start),
                self@.len() >= FRAME_LEN,
                i <= pixels@.len(),
                final(self.memory())@ == final(start.memory())@,
                forall|i: int|
                    0 <= i < pixels@.len() ==> {
                        &&& (#[trigger] pixels@[i]).color.wf()
                        &&& square_fits(
                            start.scale(),
                            start.offset_x(),
                            start.offset_y(),
                            pixels@[i].x as int,
                            pixels@[i].y as int,
                        )
                    },
                self@ == enlarged(
                    start@,
                    start.scale(),
                    start.offset_x(),
                    start.offset_y(),
                    pixels@.take(i as int),
                ),
            decreases pixels@.len() - i,
        {
            let p: Pixel = pixels[i];
            let raw: u16 = raw565(p.color);
            let bx: i32 = self.offset_x + p.x * self.scale;
            let by: i32 = self.offset_y + p.y * self.scale;
            fill_rect(self.buf, bx, by, bx + self.scale, by + self.scale, raw);
            i += 1;
            assert(pixels@.take(i as int).drop_last() =~= pixels@.take(i - 1));
        }
        assert(pixels@.take(i as int) =~= pixels@);
    }

    /// Width and height of the screen.
    pub fn size(&self) -> (s: (u32, u32))
        ensures
            s == (466u32, 466u32),
    {
        (W as u32, H as u32)
    }
}

/// The pixel `(col, row)` of a rendered text is set.
pub open spec fn is_set(bits: Seq<u8>, col: int, row: int) -> bool {
    0 <= col < TEXT_W && 0 <= row < TEXT_H && bits[row * TEXT_W + col] != 0
}

/// The squares of the set pixels of a rendered text whose line starts at
/// `(x, y)` of the screen and at the row 15 of the bitmap.
pub open spec fn bitmap_shape(
    bits: Seq<u8>,
    scale: int,
    x: int,
    y: int,
) -> spec_fn(int, int) -> bool {
    |px: int, py: int|
        exists|col: int, row: int| #[trigger]
            is_set(bits, col, row) && square(scale, x, y, col, row - BASELINE)(px, py)
}

/// The pixels of text drawn enlarged with its line starting at `(x, y)`.
pub open spec fn text_shape(text: Seq<char>, scale: int, x: int, y: int) -> spec_fn(
    int,
    int,
) -> bool {
    bitmap_shape(text_bitmap(text, 0, BASELINE as int), scale, x, y)
}

/// Every square of a rendered text can be computed in 32 bits.
pub open spec fn text_fits(scale: int, x: int, y: int) -> bool {
    forall|col: int, row: int|
        0 <= col < TEXT_W && 0 <= row < TEXT_H ==> #[trigger] square_fits(
            scale,
            x,
            y,
            col,
            row - BASELINE,
        )
}

/// The pixels before `(col, row)` of a rendered text.
spec fn is_before(c: int, r: int, col: int, row: int) -> bool {
    r < row || (r == row && c < col)
}

/// `pixels` are the set pixels before `(col, row)` of a rendered text.
spec fn listed(pixels: Seq<Pixel>, bits: Seq<u8>, ink: Rgb, col: int, row: int) -> bool {
    &&& forall|k: int|
        0 <= k < pixels.len() ==> {
            &&& (#[trigger] pixels[k]).color == ink
            &&& is_set(bits, pixels[k].x as int, pixels[k].y + BASELINE)
            &&& is_before(pixels[k].x as int, pixels[k].y + BASELINE, col, row)
        }
    &&& forall|c: int, r: int| #[trigger]
        is_set(bits, c, r) && is_before(c, r, col, row) ==> exists|k: int|
            0 <= k < pixels.len() && (#[trigger] pixels[k]).x == c && pixels[k].y + BASELINE == r
}

/// The set pixels of a rendered text, in one colour, with the line that the
/// text stands on as row 0.
fn set_pixels(bits: &[u8], ink: Rgb) -> (pixels: Vec<Pixel>)
    requires
        bits@.len() == TEXT_W * TEXT_H,
    ensures
        forall|k: int|
            0 <= k < pixels@.len() ==> (#[trigger] pixels@[k]).color == ink && is_set(
                bits@,
                pixels@[k].x as int,
                pixels@[k].y + BASELINE,
            ),
        forall|c: int, r: int| #[trigger]
            is_set(bits@, c, r) ==> exists|k: int|
                0 <= k < pixels@.len() && (#[trigger] pixels@[k]).x == c && pixels@[k].y + BASELINE
                    == r,
{
    let mut pixels: Vec<Pixel> = Vec::new();
    let mut row: usize = 0;
    while row < TEXT_H
        invariant
            bits@.len() == TEXT_W * TEXT_H,
            row <= TEXT_H,
            listed(pixels@, bits@, ink, 0, row as int),
        decreases TEXT_H - row,
    {
        let mut col: usize = 0;
        while col < TEXT_W
            invariant
                bits@.len() == TEXT_W * TEXT_H,
                row < TEXT_H,
                col <= TEXT_W,
                listed(pixels@, bits@, ink, col as int, row as int),
            decreases TEXT_W - col,
        {
            let ghost seen = pixels@;
            let on: bool = bits[row * TEXT_W + col] != 0;
            if on {
                pixels.push(Pixel { x: col as i32, y: row as i32 - BASELINE, color: ink });
                assert(pixels@[seen.len() as int].x == col);
            }
            assert(on == is_set(bits@, col as int, row as int));
            assert forall|c: int, r: int| #[trigger]
                is_set(bits@, c, r) && is_before(c, r, col + 1, row as int) implies exists|k: int|
                0 <= k < pixels@.len() && (#[trigger] pixels@[k]).x == c && pixels@[k].y + BASELINE
                    == r by {
                if is_before(c, r, col as int, row as int) {
                    let k = choose|k: int|
                        0 <= k < seen.len() && (#[trigger] seen[k]).x == c && seen[k].y + BASELINE
                            == r;
                    assert(pixels@[k] == seen[k]);
                } else {
                    assert(on);
                }
            }
            col += 1;
        }
        row += 1;
    }
    assert forall|c: int, r: int| #[trigger] is_set(bits@, c, r) implies is_before(
        c,
        r,
        0,
        row as int,
    ) by {}
    pixels
}

/// The pixels of the squares of some pixels.
spec fn squares(
    scale: int,
    x: int,
    y: int,
    pixels: Seq<Pixel>,
) -> spec_fn(int, int) -> bool {
    |px: int, py: int|
        exists|k: int|
            0 <= k < pixels.len() && square(
                scale,
                x,
                y,
                (#[trigger] pixels[k]).x as int,
                pixels[k].y as int,
            )(px, py)
}

/// Pixels of one colour drawn enlarged paint their squares.
proof fn enlarged_in_one_color(
    s: Seq<u16>,
    scale: int,
    x: int,
    y: int,
    pixels: Seq<Pixel>,
    ink: Rgb,
)
    requires
        forall|k: int| 0 <= k < pixels.len() ==> (#[trigger] pixels[k]).color == ink,
    ensures
        enlarged(s, scale, x, y, pixels) == canvas::painted(
            s,
            squares(scale, x, y, pixels),
            color::raw_of(ink) as u16,
        ),
    decreases pixels.len(),
{
    let raw = color::raw_of(ink) as u16;
    if pixels.len() == 0 {
        assert(enlarged(s, scale, x, y, pixels) =~= canvas::painted(
            s,
            squares(scale, x, y, pixels),
            raw,
        ));
    } else {
        let init = pixels.drop_last();
        let p = pixels.last();
        enlarged_in_one_color(s, scale, x, y, init, ink);
        let a = squares(scale, x, y, init);
        let b = square(scale, x, y, p.x as int, p.y as int);
        let all = squares(scale, x, y, pixels);
        canvas::painted_twice(s, a, b, raw);
        assert(pixels[pixels.len() - 1].color == ink);
        assert forall|px: int, py: int| canvas::either(a, b)(px, py) == #[trigger] all(px, py) by {
            if all(px, py) {
                let k = choose|k: int|
                    0 <= k < pixels.len() && square(
                        scale,
                        x,
                        y,
                        (#[trigger] pixels[k]).x as int,
                        pixels[k].y as int,
                    )(px, py);
                if k < init.len() {
                    assert(init[k] == pixels[k]);
                }
            }
            if a(px, py) {
                let k = choose|k: int|
                    0 <= k < init.len() && square(
                        scale,
                        x,
                        y,
                        (#[trigger] init[k]).x as int,
                        init[k].y as int,
                    )(px, py);
                assert(pixels[k] == init[k]);
            }
            if b(px, py) {
                assert(pixels[pixels.len() - 1] == p);
            }
        }
        canvas::painted_same(s, all, canvas::either(a, b), raw);
    }
}

/// Draws a rendered text enlarged, with its line starting at `(x, y)`.
pub fn draw_bitmap(buf: &mut [u16], bits: &[u8], scale: i32, x: i32, y: i32, ink: Rgb)
    requires
        old(buf)@.len() >= FRAME_LEN,
        bits@.len() == TEXT_W * TEXT_H,
        ink.wf(),
        text_fits(scale as int, x as int, y as int),
    ensures
        final(buf)@ == canvas::painted(
            old(buf)@,
            bitmap_shape(bits@, scale as int, x as int, y as int),
            color::raw_of(ink) as u16,
        ),
{
    let ghost before = buf@;
    let pixels: Vec<Pixel> = set_pixels(bits, ink);
    assert forall|i: int| 0 <= i < pixels@.len() implies {
        &&& (#[trigger] pixels@[i]).color.wf()
        &&& square_fits(
            scale as int,
            x as int,
            y as int,
            pixels@[i].x as int,
            pixels@[i].y as int,
        )
    } by {
        assert(square_fits(
            scale as int,
            x as int,
            y as int,
            pixels@[i].x as int,
            pixels@[i].y + BASELINE - BASELINE,
        ));
    }
    let mut target: ScaleTarget = ScaleTarget::new(buf, scale, x, y);
    target.draw_iter(pixels.as_slice());
    proof {
        let a = squares(scale as int, x as int, y as int, pixels@);
        let b = bitmap_shape(bits@, scale as int, x as int, y as int);
        enlarged_in_one_color(before, scale as int, x as int, y as int, pixels@, ink);
        assert forall|px: int, py: int| #[trigger] a(px, py) == b(px, py) by {
            if a(px, py) {
                let k = choose|k: int|
                    0 <= k < pixels@.len() && square(
                        scale as int,
                        x as int,
                        y as int,
                        (#[trigger] pixels@[k]).x as int,
                        pixels@[k].y as int,
                    )(px, py);
                assert(is_set(bits@, pixels@[k].x as int, pixels@[k].y + BASELINE));
            }
            if b(px, py) {
                let (col, row) = choose|col: int, row: int| #[trigger]
                    is_set(bits@, col, row) && square(
                        scale as int,
                        x as int,
                        y as int,
                        col,
                        row - BASELINE,
                    )(px, py);
                let k = choose|k: int|
                    0 <= k < pixels@.len() && (#[trigger] pixels@[k]).x == col && pixels@[k].y
                        + BASELINE == row;
            }
        }
        canvas::painted_same(before, a, b, color::raw_of(ink) as u16);
        assert(has_resolved(target));
        assert(has_resolved(target.memory()));
    }
}

/// Draws text of up to eight characters enlarged, with its line starting at
/// `(x, y)`.
pub fn draw_text(buf: &mut [u16], text: &str, scale: i32, x: i32, y: i32, ink: Rgb)
    requires
        old(buf)@.len() >= FRAME_LEN,
        text@.len() <= 8,
        ink.wf(),
        text_fits(scale as int, x as int, y as int),
    ensures
        final(buf)@ == canvas::painted(
            old(buf)@,
            text_shape(text@, scale as int, x as int, y as int),
            color::raw_of(ink) as u16,
        ),
        scale >= 0 ==> within(
            text_shape(text@, scale as int, x as int, y as int),
            canvas::block(
                x as int,
                y - 15 * scale,
                x + 10 * text@.len() * scale,
                y + 5 * scale,
            ),
        ),
{
    let bits: Vec<u8> = render(text, 0, BASELINE);
    proof {
        if scale >= 0 {
            shape_is_bounded(bits@, text@.len(), scale as int, x as int, y as int);
        }
    }
    draw_bitmap(buf, bits.as_slice(), scale, x, y, ink);
}

/// Every pixel of the shape `a` is one of the shape `b`.
pub open spec fn within(
    a: spec_fn(int, int) -> bool,
    b: spec_fn(int, int) -> bool,
) -> bool {
    forall|x: int, y: int| #[trigger] a(x, y) ==> b(x, y)
}

/// A bitmap whose set pixels lie in its first `10 * len` columns fills no more
/// than the columns of `len` enlarged glyphs and the rows of one.
proof fn shape_is_bounded(bits: Seq<u8>, len: nat, scale: int, x: int, y: int)
    requires
        scale >= 0,
        forall|col: int, row: int| #[trigger] is_set(bits, col, row) ==> 0 <= col < 10 * len,
    ensures
        within(
            bitmap_shape(bits, scale, x, y),
            canvas::block(x, y - 15 * scale, x + 10 * len * scale, y + 5 * scale),
        ),
{
    assert forall|px: int, py: int| #[trigger]
        bitmap_shape(bits, scale, x, y)(px, py) implies canvas::block(
        x,
        y - 15 * scale,
        x + 10 * len * scale,
        y + 5 * scale,
    )(px, py) by {
        let (col, row) = choose|col: int, row: int| #[trigger]
            is_set(bits, col, row) && square(scale, x, y, col, row - BASELINE)(px, py);
        let r = row - BASELINE;
        let n = 10 * len;
        assert(0 <= col * scale && col * scale + scale <= n * scale) by (nonlinear_arith)
            requires
                0 <= col < n,
                0 <= scale,
        ;
        assert(-15 * scale <= r * scale && r * scale + scale <= 5 * scale) by (nonlinear_arith)
            requires
                -15 <= r < 5,
                0 <= scale,
        ;
    }
}

/// A pixel of the screen has ink of an enlarged bitmap exactly where the bitmap
/// is set at the place it is enlarged from: the distance from the start
/// of the line divided by the scale and rounded down, with the line at the row
/// 15 of the bitmap.
pub proof fn an_enlarged_bitmap(
    bits: Seq<u8>,
    scale: int,
    x: int,
    y: int,
    px: int,
    py: int,
)
    requires
        scale > 0,
    ensures
        ({
            let col = (px - x) / scale;
            let row = 15 + (py - y) / scale;
            bitmap_shape(bits, scale, x, y)(px, py) <==> 0 <= col < 80 && 0 <= row < 20
                && bits[80 * row + col] != 0
        }),
{
    let shape = bitmap_shape(bits, scale, x, y);
    let col = (px - x) / scale;
    let r = (py - y) / scale;
    vstd::arithmetic::div_mod::lemma_fundamental_div_mod(px - x, scale);
    vstd::arithmetic::div_mod::lemma_mod_bound(px - x, scale);
    vstd::arithmetic::div_mod::lemma_fundamental_div_mod(py - y, scale);
    vstd::arithmetic::div_mod::lemma_mod_bound(py - y, scale);
    assert(scale * col == col * scale) by (nonlinear_arith);
    assert(scale * r == r * scale) by (nonlinear_arith);
    if is_set(bits, col, 15 + r) {
        assert(square(scale, x, y, col, 15 + r - BASELINE)(px, py));
        assert(shape(px, py));
    }
    if shape(px, py) {
        let (c, w) = choose|c: int, w: int| #[trigger]
            is_set(bits, c, w) && square(scale, x, y, c, w - BASELINE)(px, py);
        let v = w - BASELINE;
        assert(c * scale == scale * c) by (nonlinear_arith);
        assert(v * scale == scale * v) by (nonlinear_arith);
        vstd::arithmetic::div_mod::lemma_fundamental_div_mod_converse(
            px - x,
            scale,
            c,
            px - x - c * scale,
        );
        vstd::arithmetic::div_mod::lemma_fundamental_div_mod_converse(
            py - y,
            scale,
            v,
            py - y - v * scale,
        );
    }
}

/// A pixel of the screen has ink of an enlarged text exactly where the bitmap of
/// the text is set at the place it is enlarged from: the distance from the start
/// of the line divided by the scale and rounded down, with the line at the row
/// 15 of the bitmap.
pub proof fn enlarged_text_is_the_bitmap(
    text: Seq<char>,
    scale: int,
    x: int,
    y: int,
    px: int,
    py: int,
)
    requires
        scale > 0,
    ensures
        ({
            let col = (px - x) / scale;
            let row = 15 + (py - y) / scale;
            text_shape(text, scale, x, y)(px, py) <==> 0 <= col < 80 && 0 <= row < 20
                && text_bitmap(text, 0, 15)[80 * row + col] != 0
        }),
{
    an_enlarged_bitmap(text_bitmap(text, 0, 15), scale, x, y, px, py);
}

/// A bitmap of no positive scale has no ink.
pub proof fn a_bitmap_without_scale_has_no_ink(
    bits: Seq<u8>,
    scale: int,
    x: int,
    y: int,
    px: int,
    py: int,
)
    requires
        scale <= 0,
    ensures
        !bitmap_shape(bits, scale, x, y)(px, py),
{
}

/// The square of a pixel drawn enlarged holds the pixel `(x, y)` of the screen.
pub open spec fn reaches(
    scale: int,
    offset_x: int,
    offset_y: int,
    p: Pixel,
    x: int,
    y: int,
) -> bool {
    &&& 0 <= x - offset_x - p.x * scale < scale
    &&& 0 <= y - offset_y - p.y * scale < scale
}

/// Of pixels drawn enlarged one after the other a pixel of the screen has the
/// colour of the last one whose square holds it, and its own where none does.
pub proof fn the_last_square_stays(
    s: Seq<u16>,
    scale: int,
    offset_x: int,
    offset_y: int,
    pixels: Seq<Pixel>,
    j: int,
    x: int,
    y: int,
)
    requires
        s.len() >= FRAME_LEN,
        0 <= x < 466,
        0 <= y < 466,
        -1 <= j < pixels.len(),
        j >= 0 ==> pixels[j].color.wf() && reaches(scale, offset_x, offset_y, pixels[j], x, y),
        forall|k: int|
            j < k < pixels.len() ==> !reaches(
                scale,
                offset_x,
                offset_y,
                #[trigger] pixels[k],
                x,
                y,
            ),
    ensures
        enlarged(s, scale, offset_x, offset_y, pixels).len() == s.len(),
        enlarged(s, scale, offset_x, offset_y, pixels)[466 * y + x] == if j >= 0 {
            2048 * pixels[j].color.r + 32 * pixels[j].color.g + pixels[j].color.b
        } else {
            s[466 * y + x] as int
        },
    decreases pixels.len(),
{
    canvas::index_of_splits(x, y);
    if pixels.len() > 0 {
        let init = pixels.drop_last();
        enlarged_len(s, scale, offset_x, offset_y, init);
        if j < pixels.len() - 1 {
            assert(!reaches(scale, offset_x, offset_y, pixels[pixels.len() - 1], x, y));
            assert forall|k: int| j < k < init.len() implies !reaches(
                scale,
                offset_x,
                offset_y,
                #[trigger] init[k],
                x,
                y,
            ) by {
                assert(init[k] == pixels[k]);
            }
            the_last_square_stays(s, scale, offset_x, offset_y, init, j, x, y);
        }
    }
}

proof fn enlarged_len(s: Seq<u16>, scale: int, offset_x: int, offset_y: int, pixels: Seq<Pixel>)
    ensures
        enlarged(s, scale, offset_x, offset_y, pixels).len() == s.len(),
    decreases pixels.len(),
{
    if pixels.len() > 0 {
        enlarged_len(s, scale, offset_x, offset_y, pixels.drop_last());
    }
}

} // verus!
