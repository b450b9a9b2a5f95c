//! The display: the frame it shows and the traffic that brings it there.

use vstd::prelude::*;

use crate::bus;
use crate::bus::{cmd, push_bytes, Op};
use crate::canvas;
use crate::canvas::plot;
use crate::color;
use crate::color::{raw565, Rgb};
use crate::geometry;
use crate::geometry::{clip_align, Rect, FRAME_LEN, H, W};

verus! {

/// First column of the screen in the panel's own memory.
pub const X_OFFSET: u16 = 6;

/// A pixel to draw.
#[derive(Clone, Copy, PartialEq, Eq, Structural, Debug)]
pub struct Pixel {
    pub x: i32,
    pub y: i32,
    pub color: Rgb,
}

/// A 16-bit number as two bytes, the upper one first.
pub open spec fn two_bytes(v: int) -> Seq<u8> {
    seq![(v / 256) as u8, (v % 256) as u8]
}

/// What goes ahead of the pixels of a window: its columns, its rows, and the
/// start of a pixel transfer.
pub open spec fn window_head(x0: int, y0: int, x1: int, y1: int) -> Seq<Op> {
    bus::command(0x2A, two_bytes(x0 + X_OFFSET) + two_bytes(x1 + X_OFFSET)) + bus::command(
        0x2B,
        two_bytes(y0) + two_bytes(y1),
    ) + seq![Op::Cs(false)] + bus::byte_words(seq![0x32u8, 0x00, 0x2C, 0x00]) + seq![Op::Drain]
}

/// How many words a row of a window takes.
pub open spec fn row_words(x0: int, x1: int) -> int {
    (x1 - x0 + 1) / 2
}

/// The word number `k` of the pixels of a window: two neighbours of a row, the
/// left one in the upper half.
pub open spec fn pixel_word(frame: Seq<u16>, x0: int, y0: int, x1: int, k: int) -> int {
    let x = x0 + 2 * (k % row_words(x0, x1));
    let y = y0 + k / row_words(x0, x1);
    frame[canvas::index_of(x, y)] * 0x1_0000 + frame[canvas::index_of(x + 1, y)]
}

/// Everything that is sent to bring a window of a frame to the panel.
pub open spec fn flush_ops(frame: Seq<u16>, x0: int, y0: int, x1: int, y1: int) -> Seq<Op> {
    window_head(x0, y0, x1, y1) + Seq::new(
        (row_words(x0, x1) * (y1 - y0 + 1)) as nat,
        |k: int| Op::Word(pixel_word(frame, x0, y0, x1, k) as u32),
    ) + seq![Op::Drain, Op::Cs(true)]
}

/// The transfer of a window of the frame, step by step.
pub struct Flush {
    x0: usize,
    y0: usize,
    x1: usize,
    y1: usize,
    head: Vec<Op>,
    sent: usize,
}

impl Flush {
    /// First column, first row, last column and last row of the window.
    pub closed spec fn window(self) -> (int, int, int, int) {
        (self.x0 as int, self.y0 as int, self.x1 as int, self.y1 as int)
    }

    /// How many steps have been handed out.
    pub closed spec fn sent(self) -> int {
        self.sent as int
    }

    /// All steps of the transfer, for a frame.
    pub open spec fn ops(self, frame: Seq<u16>) -> Seq<Op> {
        let (x0, y0, x1, y1) = self.window();
        flush_ops(frame, x0, y0, x1, y1)
    }

    /// The window lies on the screen, and no more steps have been handed out
    /// than there are.
    pub closed spec fn wf(self) -> bool {
        &&& geometry::is_window(self.x0 as int, self.y0 as int, self.x1 as int, self.y1 as int)
        &&& self.head@ == window_head(
            self.x0 as int,
            self.y0 as int,
            self.x1 as int,
            self.y1 as int,
        )
        &&& self.sent <= 30 + row_words(self.x0 as int, self.x1 as int) * (self.y1 - self.y0 + 1)
    }
}

/// The number of steps ahead of the pixels of a window.
proof fn window_head_len(x0: int, y0: int, x1: int, y1: int)
    ensures
        window_head(x0, y0, x1, y1).len() == 28,
{
}

/// The upper byte of `v`, then the lower one.
fn split_bytes(v: u16) -> (b: (u8, u8))
    ensures
        seq![b.0, b.1] == two_bytes(v as int),
{
    assert((v >> 8) as u8 == v / 256) by (bit_vector);
    assert(v as u8 == v % 256) by (bit_vector);
    ((v >> 8) as u8, v as u8)
}

/// Starts the transfer of the columns `x0..=x1` of the rows `y0..=y1`.
pub fn flush_rect(x0: usize, y0: usize, x1: usize, y1: usize) -> (f: Flush)
    requires
        geometry::is_window(x0 as int, y0 as int, x1 as int, y1 as int),
    ensures
        f.wf(),
        f.window() == (x0 as int, y0 as int, x1 as int, y1 as int),
        f.sent() == 0,
{
    let mut head: Vec<Op> = Vec::new();
    let cx0: (u8, u8) = split_bytes(x0 as u16 + X_OFFSET);
    let cx1: (u8, u8) = split_bytes(x1 as u16 + X_OFFSET);
    let ry0: (u8, u8) = split_bytes(y0 as u16);
    let ry1: (u8, u8) = split_bytes(y1 as u16);
    let columns: [u8; 4] = [cx0.0, cx0.1, cx1.0, cx1.1];
    let rows: [u8; 4] = [ry0.0, ry0.1, ry1.0, ry1.1];
    let start: [u8; 4] = [0x32, 0x00, 0x2C, 0x00];
    cmd(&mut head, 0x2A, &columns);
    cmd(&mut head, 0x2B, &rows);
    head.push(Op::Cs(false));
    push_bytes(&mut head, &start);
    head.push(Op::Drain);
    assert(columns@ =~= two_bytes(x0 + X_OFFSET) + two_bytes(x1 + X_OFFSET));
    assert(rows@ =~= two_bytes(y0 as int) + two_bytes(y1 as int));
    assert(start@ =~= seq![0x32u8, 0x00, 0x2C, 0x00]);
    assert(head@ =~= window_head(x0 as int, y0 as int, x1 as int, y1 as int));
    assert(row_words(x0 as int, x1 as int) * (y1 - y0 + 1) >= 0) by (nonlinear_arith)
        requires
            row_words(x0 as int, x1 as int) >= 0,
            y1 >= y0,
    ;
    Flush { x0, y0, x1, y1, head, sent: 0 }
}

impl Flush {
    /// The next step of the transfer, for the frame as it is now, or nothing
    /// once all have been handed out.
    pub fn next(&mut self, frame: &[u16]) -> (op: Option<Op>)
        requires
            old(self).wf(),
            frame@.len() >= FRAME_LEN,
        ensures
            final(self).wf(),
            final(self).window() == old(self).window(),
            match op {
                Some(op) => {
                    &&& old(self).sent() < old(self).ops(frame@).len()
                    &&& op == old(self).ops(frame@)[old(self).sent()]
                    &&& final(self).sent() == old(self).sent() + 1
                },
                None => {
                    &&& old(self).sent() == old(self).ops(frame@).len()
                    &&& final(self).sent() == old(self).sent()
                },
            },
    {
        let ghost (x0, y0, x1, y1) = self.window();
        let ghost total = row_words(x0, x1) * (y1 - y0 + 1);
        let half: usize = (self.x1 - self.x0 + 1) / 2;
        let rows: usize = self.y1 - self.y0 + 1;
        proof {
            window_head_len(x0, y0, x1, y1);
            assert(0 <= half * rows <= 233 * 466) by (nonlinear_arith)
                requires
                    0 <= half <= 233,
                    0 <= rows <= 466,
            ;
        }
        let words: usize = half * rows;
        assert(words == total);
        let k: usize = self.sent;
        if k < 28 {
            self.sent = k + 1;
            return Some(self.head[k]);
        }
        if k < 28 + words {
            let i: usize = k - 28;
            proof {
                assert(half > 0) by (nonlinear_arith)
                    requires
                        words == half * rows,
                        words > 0,
                        half >= 0,
                ;
                vstd::arithmetic::div_mod::lemma_fundamental_div_mod(i as int, half as int);
                vstd::arithmetic::div_mod::lemma_mod_bound(i as int, half as int);
                assert(0 <= i / half < rows) by (nonlinear_arith)
                    requires
                        0 <= i < half * rows,
                        half > 0,
                        i == half * (i / half) + i % half,
                        0 <= i % half < half,
                ;
            }
            let x: usize = self.x0 + 2 * (i % half);
            let y: usize = self.y0 + i / half;
            proof {
                canvas::index_of_splits(x as int, y as int);
                canvas::index_of_splits(x + 1, y as int);
            }
            let base: usize = y * W as usize + x;
            let left: u32 = frame[base] as u32;
            let right: u32 = frame[base + 1] as u32;
            assert((left << 16 | right) == left * 0x1_0000 + right) by (bit_vector)
                requires
                    left < 0x1_0000,
                    right < 0x1_0000,
            ;
            self.sent = k + 1;
            return Some(Op::Word(left << 16 | right));
        }
        if k == 28 + words {
            self.sent = k + 1;
            return Some(Op::Drain);
        }
        if k == 29 + words {
            self.sent = k + 1;
            return Some(Op::Cs(true));
        }
        None
    }
}

/// The frame `s` after pixels were drawn on it one after the other.
pub open spec fn drawn(s: Seq<u16>, pixels: Seq<Pixel>) -> Seq<u16>
    decreases pixels.len(),
{
    if pixels.len() == 0 {
        s
    } else {
        let p = pixels.last();
        canvas::painted(
            drawn(s, pixels.drop_last()),
            canvas::dot(p.x as int, p.y as int),
            color::raw_of(p.color) as u16,
        )
    }
}

/// The display with the frame it is to show.
pub struct Display<'a> {
    frame: &'a mut [u16],
}

impl<'a> View for Display<'a> {
    type V = Seq<u16>;

    /// The frame.
    closed spec fn view(&self) -> Seq<u16> {
        self.frame@
    }
}

impl<'a> Display<'a> {
    /// The frame has the size of the screen.
    pub open spec fn wf(self) -> bool {
        self@.len() == FRAME_LEN
    }

    /// The borrowed frame memory.
    pub closed spec fn memory(self) -> &'a mut [u16] {
        self.frame
    }

    /// A display for the frame memory `frame`, and the levels that its lines
    /// rest at.
    pub fn new(frame: &'a mut [u16]) -> (r: (Display<'a>, Vec<Op>))
        requires
            old(frame)@.len() == FRAME_LEN,
        ensures
            r.0.wf(),
            r.0@ == old(frame)@,
            final(r.0.memory())@ == final(frame)@,
            r.1@ == seq![Op::Cs(true), Op::Rst(true)],
    {
        let mut ops: Vec<Op> = Vec::new();
        ops.push(Op::Cs(true));
        ops.push(Op::Rst(true));
        assert(ops@ =~= seq![Op::Cs(true), Op::Rst(true)]);
        (Display { frame }, ops)
    }

    /// Power-on and hardware reset sequence.
    pub fn power_on_reset(&self) -> (ops: Vec<Op>)
        ensures
            ops@ == seq![
                Op::Pwr(true),
                Op::DelayMs(10),
                Op::Rst(false),
                Op::DelayMs(100),
                Op::Rst(true),
                Op::DelayMs(200),
            ],
    {
        let mut ops: Vec<Op> = Vec::new();
        ops.push(Op::Pwr(true));
        ops.push(Op::DelayMs(10));
        ops.push(Op::Rst(false));
        ops.push(Op::DelayMs(100));
        ops.push(Op::Rst(true));
        ops.push(Op::DelayMs(200));
        assert(ops@ =~= seq![
            Op::Pwr(true),
            Op::DelayMs(10),
            Op::Rst(false),
            Op::DelayMs(100),
            Op::Rst(true),
            Op::DelayMs(200),
        ]);
        ops
    }

    /// Initialisation sequence of the panel controller.
    pub fn init(&self) -> (ops: Vec<Op>)
        ensures
            ops@ == init_ops(),
    {
        let mut ops: Vec<Op> = Vec::new();
        cmd(&mut ops, 0x11, &[]);
        ops.push(Op::DelayMs(120));
        cmd(&mut ops, 0xC4, &[0x80]);
        cmd(&mut ops, 0x44, &[0x01, 0xD7]);
        cmd(&mut ops, 0x35, &[0x00]);
        cmd(&mut ops, 0x53, &[0x20]);
        ops.push(Op::DelayMs(10));
        cmd(&mut ops, 0x29, &[]);
        ops.push(Op::DelayMs(10));
        cmd(&mut ops, 0x51, &[0xFF]);
        cmd(&mut ops, 0x20, &[]);
        cmd(&mut ops, 0x36, &[0x00]);
        cmd(&mut ops, 0x3A, &[0x05]);
        ops
    }

    /// Clears the frame to black and starts the transfer of all of it.
    pub fn clear(&mut self) -> (f: Flush)
        requires
            old(self).wf(),
        ensures
            final(self).wf(),
            final(final(self).memory())@ == final(old(self).memory())@,
            forall|i: int| 0 <= i < FRAME_LEN ==> final(self)@[i] == 0,
            f.wf(),
            f.window() == (0int, 0int, W - 1, H - 1),
            f.sent() == 0,
    {
        let ghost start = *self;
        let mut i: usize = 0;
        while i < FRAME_LEN
            invariant
                self.wf(),
                final(self.memory())@ == final(start.memory())@,
                forall|j: int| 0 <= j < i ==> self@[j] == 0,
            decreases FRAME_LEN - i,
        {
            self.frame[i] = 0;
            i += 1;
        }
        flush_rect(0, 0, W as usize - 1, H as usize - 1)
    }

    /// Starts the transfer of the part of the frame that covers `bbox`, if any
    /// of it lies on the screen.
    pub fn flush(&self, bbox: Rect) -> (f: Option<Flush>)
        requires
            bbox.lasts_fit(),
        ensures
            match f {
                None => geometry::clipped(bbox) is None,
                Some(f) => {
                    &&& f.wf()
                    &&& f.sent() == 0
                    &&& geometry::clipped(bbox) matches Some((cx0, cy0, cx1, cy1))
                    &&& f.window() == (
                        geometry::even_columns(cx0, cx1).0,
                        cy0,
                        geometry::even_columns(cx0, cx1).1,
                        cy1,
                    )
                },
            },
            match f {
                None => geometry::window_of(bbox) is None,
                Some(f) => geometry::window_of(bbox) == Some(f.window()),
            },
    {
        match clip_align(bbox) {
            None => None,
            Some((x0, y0, x1, y1)) => {
                proof {
                    geometry::clip_align_window(bbox);
                }
                Some(flush_rect(x0, y0, x1, y1))
            },
        }
    }

    /// The next step of a transfer, from the frame as it is now.
    pub fn next_op(&self, f: &mut Flush) -> (op: Option<Op>)
        requires
            self.wf(),
            old(f).wf(),
        ensures
            final(f).wf(),
            final(f).window() == old(f).window(),
            match op {
                Some(op) => {
                    &&& old(f).sent() < old(f).ops(self@).len()
                    &&& op == old(f).ops(self@)[old(f).sent()]
                    &&& final(f).sent() == old(f).sent() + 1
                },
                None => {
                    &&& old(f).sent() == old(f).ops(self@).len()
                    &&& final(f).sent() == old(f).sent()
                },
            },
    {
        f.next(&*self.frame)
    }

    /// Draws pixels one after the other, those on the screen.
    pub fn draw_iter(&mut self, pixels: &[Pixel])
        requires
            old(self).wf(),
            forall|i: int| 0 <= i < pixels@.len() ==> (#[trigger] pixels@[i]).color.wf(),
        ensures
            final(self).wf(),
            final(final(self).memory())@ == final(old(self).memory())@,
            final(self)@ == drawn(old(self)@, pixels@),
    {
        let ghost start = *self;
        let ghost before = self@;
        let mut i: usize = 0;
        assert(pixels@.take(0) =~= Seq::<Pixel>::empty());
        while i < pixels.len()
            invariant
                self.wf(),
                final(self.memory())@ == final(start.memory())@,
                i <= pixels@.len(),
                forall|i: int| 0 <= i < pixels@.len() ==> (#[trigger] pixels@[i]).color.wf(),
                self@ == drawn(before, pixels@.take(i as int)),
            decreases pixels@.len() - i,
        {
            let p: Pixel = pixels[i];
            plot(self.frame, p.x, p.y, raw565(p.color));
            i += 1;
            assert(pixels@.take(i as int).drop_last() =~= pixels@.take(i - 1));
        }
        assert(pixels@.take(i as int) =~= pixels@);
    }

    /// Width and height of the screen.
    pub fn size(&self) -> (s: (u32, u32))
        ensures
            s == (466u32, 466u32),
    {
        (W as u32, H as u32)
    }
}

/// The frame memory of a display.
pub fn framebuf_mut<'b>(display: &'b mut Display) -> (buf: &'b mut [u16])
    ensures
        buf@ == old(display)@,
        final(display)@ == final(buf)@,
        final(final(display).memory())@ == final(old(display).memory())@,
{
    &mut *display.frame
}

/// The initialisation sequence of the panel controller.
pub open spec fn init_ops() -> Seq<Op> {
    bus::command(0x11, seq![]) + seq![Op::DelayMs(120)] + bus::command(0xC4, seq![0x80u8])
        + bus::command(0x44, seq![0x01u8, 0xD7]) + bus::command(0x35, seq![0x00u8]) + bus::command(
        0x53,
        seq![0x20u8],
    ) + seq![Op::DelayMs(10)] + bus::command(0x29, seq![]) + seq![Op::DelayMs(10)] + bus::command(
        0x51,
        seq![0xFFu8],
    ) + bus::command(0x20, seq![]) + bus::command(0x36, seq![0x00u8]) + bus::command(
        0x3A,
        seq![0x05u8],
    )
}

/// The word of a window's pixels that carries the pixel `(x, y)`.
pub open spec fn word_of(x0: int, y0: int, x1: int, x: int, y: int) -> int {
    (y - y0) * row_words(x0, x1) + (x - x0) / 2
}

/// Among the steps after the first 28 of a transfer whose window has an even
/// number of columns, every pixel of the window has its word, which carries it
/// in the upper half where it is the left one of its pair and in the lower half
/// where it is the right one.
pub proof fn flush_carries_every_pixel(
    frame: Seq<u16>,
    x0: int,
    y0: int,
    x1: int,
    y1: int,
    x: int,
    y: int,
)
    requires
        frame.len() >= FRAME_LEN,
        geometry::is_window(x0, y0, x1, y1),
        (x1 - x0 + 1) % 2 == 0,
        x0 <= x <= x1,
        y0 <= y <= y1,
    ensures
        ({
            let k = word_of(x0, y0, x1, x, y);
            let ops = flush_ops(frame, x0, y0, x1, y1);
            &&& 0 <= k < row_words(x0, x1) * (y1 - y0 + 1)
            &&& ops[28 + k] matches Op::Word(word)
            &&& frame[canvas::index_of(x, y)] == if (x - x0) % 2 == 0 {
                word as int / 0x1_0000
            } else {
                word as int % 0x1_0000
            }
        }),
{
    let half = row_words(x0, x1);
    let row = y - y0;
    let col = (x - x0) / 2;
    let k = word_of(x0, y0, x1, x, y);
    window_head_len(x0, y0, x1, y1);
    assert(0 <= row * half + col < half * (y1 - y0 + 1)) by (nonlinear_arith)
        requires
            0 <= row < y1 - y0 + 1,
            0 <= col < half,
    ;
    vstd::arithmetic::div_mod::lemma_fundamental_div_mod_converse(k, half, row, col);
    canvas::index_of_splits(x0 + 2 * col, y);
    canvas::index_of_splits(x0 + 2 * col + 1, y);
    let left = frame[canvas::index_of(x0 + 2 * col, y)];
    let right = frame[canvas::index_of(x0 + 2 * col + 1, y)];
    assert(pixel_word(frame, x0, y0, x1, k) == left * 0x1_0000 + right);
    assert(flush_ops(frame, x0, y0, x1, y1)[28 + k] == Op::Word(
        pixel_word(frame, x0, y0, x1, k) as u32,
    ));
}

/// A flush sends every pixel of the screen that its rectangle covers.
pub proof fn flush_brings_the_rectangle(frame: Seq<u16>, bbox: Rect, x: int, y: int)
    requires
        frame.len() >= FRAME_LEN,
        bbox.covers(x, y),
        geometry::on_screen(x, y),
    ensures
        geometry::clipped(bbox) is Some,
        ({
            let (cx0, cy0, cx1, cy1) = geometry::clipped(bbox)->0;
            let (x0, x1) = geometry::even_columns(cx0, cx1);
            &&& flush_ops(frame, x0, cy0, x1, cy1)[28 + word_of(x0, cy0, x1, x, y)] matches Op::Word(
                word,
            )
            &&& frame[canvas::index_of(x, y)] == if (x - x0) % 2 == 0 {
                word as int / 0x1_0000
            } else {
                word as int % 0x1_0000
            }
        }),
{
    geometry::clip_align_nothing(bbox);
    geometry::clip_align_window(bbox);
    let (cx0, cy0, cx1, cy1) = geometry::clipped(bbox)->0;
    let (x0, x1) = geometry::even_columns(cx0, cx1);
    flush_carries_every_pixel(frame, x0, cy0, x1, cy1, x, y);
}

/// A transfer selects the panel first and leaves it deselected, with nothing
/// left in the queue.
pub proof fn flush_leaves_the_bus_idle(frame: Seq<u16>, x0: int, y0: int, x1: int, y1: int)
    requires
        geometry::is_window(x0, y0, x1, y1),
    ensures
        ({
            let ops = flush_ops(frame, x0, y0, x1, y1);
            &&& ops[0] == Op::Cs(false)
            &&& ops[ops.len() - 2] == Op::Drain
            &&& ops[ops.len() - 1] == Op::Cs(true)
        }),
{
}

/// Of pixels drawn one after the other on the same place of the screen the last
/// one stays.
pub proof fn last_pixel_stays(s: Seq<u16>, pixels: Seq<Pixel>, j: int)
    requires
        s.len() >= FRAME_LEN,
        0 <= j < pixels.len(),
        pixels[j].color.wf(),
        geometry::on_screen(pixels[j].x as int, pixels[j].y as int),
        forall|k: int|
            j < k < pixels.len() ==> (#[trigger] pixels[k]).x != pixels[j].x || pixels[k].y
                != pixels[j].y,
    ensures
        drawn(s, pixels)[canvas::index_of(pixels[j].x as int, pixels[j].y as int)]
            == color::raw_of(pixels[j].color),
    decreases pixels.len(),
{
    drawn_len(s, pixels.drop_last());
    canvas::index_of_splits(pixels[j].x as int, pixels[j].y as int);
    if j < pixels.len() - 1 {
        let k = pixels.len() - 1;
        assert(pixels[k].x != pixels[j].x || pixels[k].y != pixels[j].y);
        last_pixel_stays(s, pixels.drop_last(), j);
    }
}

/// A place of the screen on which no pixel is drawn keeps its colour.
pub proof fn undrawn_place_stays(s: Seq<u16>, pixels: Seq<Pixel>, x: int, y: int)
    requires
        s.len() >= FRAME_LEN,
        geometry::on_screen(x, y),
        forall|k: int| 0 <= k < pixels.len() ==> (#[trigger] pixels[k]).x != x || pixels[k].y != y,
    ensures
        drawn(s, pixels)[canvas::index_of(x, y)] == s[canvas::index_of(x, y)],
    decreases pixels.len(),
{
    if pixels.len() > 0 {
        drawn_len(s, pixels.drop_last());
        canvas::index_of_splits(x, y);
        let k = pixels.len() - 1;
        assert(pixels[k].x != x || pixels[k].y != y);
        undrawn_place_stays(s, pixels.drop_last(), x, y);
    }
}

proof fn drawn_len(s: Seq<u16>, pixels: Seq<Pixel>)
    ensures
        drawn(s, pixels).len() == s.len(),
    decreases pixels.len(),
{
    if pixels.len() > 0 {
        drawn_len(s, pixels.drop_last());
    }
}

/// A transfer tells the panel where its pixels go: the data of its column
/// command are, as two big-endian numbers, the first and the last column, 6
/// further in the panel's memory than on the screen, and those of its row
/// command the first and the last row.  Then it starts the pixels.
pub proof fn a_transfer_addresses_its_window(frame: Seq<u16>, x0: int, y0: int, x1: int, y1: int)
    requires
        geometry::is_window(x0, y0, x1, y1),
    ensures
        ({
            let ops = flush_ops(frame, x0, y0, x1, y1);
            let got = |i: int| bus::received(ops[i]);
            &&& ops[0] == Op::Cs(false)
            &&& got(1) == 0x02 && got(2) == 0x00 && got(3) == 0x2A && got(4) == 0x00
            &&& 0 <= got(5) < 256 && 0 <= got(6) < 256 && 256 * got(5) + got(6) == x0 + 6
            &&& 0 <= got(7) < 256 && 0 <= got(8) < 256 && 256 * got(7) + got(8) == x1 + 6
            &&& ops[9] == Op::Drain
            &&& ops[10] == Op::Cs(true)
            &&& ops[11] == Op::Cs(false)
            &&& got(12) == 0x02 && got(13) == 0x00 && got(14) == 0x2B && got(15) == 0x00
            &&& 0 <= got(16) < 256 && 0 <= got(17) < 256 && 256 * got(16) + got(17) == y0
            &&& 0 <= got(18) < 256 && 0 <= got(19) < 256 && 256 * got(18) + got(19) == y1
            &&& ops[20] == Op::Drain
            &&& ops[21] == Op::Cs(true)
            &&& ops[22] == Op::Cs(false)
            &&& got(23) == 0x32 && got(24) == 0x00 && got(25) == 0x2C && got(26) == 0x00
            &&& ops[27] == Op::Drain
        }),
{
    let ops = flush_ops(frame, x0, y0, x1, y1);
    let columns = two_bytes(x0 + X_OFFSET) + two_bytes(x1 + X_OFFSET);
    let rows = two_bytes(y0) + two_bytes(y1);
    let first = bus::command(0x2A, columns);
    let second = bus::command(0x2B, rows);
    parts_of_a_transfer(frame, x0, y0, x1, y1);
    command_of_four(0x2A, columns, first);
    command_of_four(0x2B, rows, second);
    assert forall|i: int| 0 <= i < 11 implies #[trigger] first[i] == ops[i] by {
        assert(ops.subrange(0, 11)[i] == ops[i]);
    }
    assert forall|i: int| 0 <= i < 11 implies #[trigger] second[i] == ops[11 + i] by {
        assert(ops.subrange(11, 22)[i] == ops[11 + i]);
    }
    assert(ops[11] == second[0] && ops[12] == second[1] && ops[13] == second[2] && ops[14]
        == second[3] && ops[15] == second[4] && ops[16] == second[5]);
    assert(ops[17] == second[6] && ops[18] == second[7] && ops[19] == second[8] && ops[20]
        == second[9] && ops[21] == second[10]);
}

/// The steps of a transfer ahead of its pixels are two commands and the start of
/// the pixels.
proof fn parts_of_a_transfer(frame: Seq<u16>, x0: int, y0: int, x1: int, y1: int)
    ensures
        ({
            let ops = flush_ops(frame, x0, y0, x1, y1);
            let columns = two_bytes(x0 + X_OFFSET) + two_bytes(x1 + X_OFFSET);
            let rows = two_bytes(y0) + two_bytes(y1);
            &&& ops.len() >= 28
            &&& ops.subrange(0, 11) == bus::command(0x2A, columns)
            &&& ops.subrange(11, 22) == bus::command(0x2B, rows)
            &&& ops[22] == Op::Cs(false)
            &&& bus::received(ops[23]) == 0x32
            &&& bus::received(ops[24]) == 0x00
            &&& bus::received(ops[25]) == 0x2C
            &&& bus::received(ops[26]) == 0x00
            &&& ops[27] == Op::Drain
        }),
{
    let ops = flush_ops(frame, x0, y0, x1, y1);
    let first = bus::command(0x2A, two_bytes(x0 + X_OFFSET) + two_bytes(x1 + X_OFFSET));
    let second = bus::command(0x2B, two_bytes(y0) + two_bytes(y1));
    let start = seq![0x32u8, 0x00, 0x2C, 0x00];
    let words = bus::byte_words(start);
    let head = window_head(x0, y0, x1, y1);
    bus::bytes_come_through(start);
    assert(first.len() == 11 && second.len() == 11 && words.len() == 4);
    assert(head =~= first + second + seq![Op::Cs(false)] + words + seq![Op::Drain]);
    assert(ops.subrange(0, 28) =~= head);
    assert(ops.subrange(0, 11) =~= first);
    assert(ops.subrange(11, 22) =~= second);
    assert(ops[23] == words[0] && ops[24] == words[1] && ops[25] == words[2] && ops[26]
        == words[3]);
}

/// What the panel receives of a command with four bytes of data.
proof fn command_of_four(code: u8, data: Seq<u8>, ops: Seq<Op>)
    requires
        data.len() == 4,
        ops == bus::command(code, data),
    ensures
        ops.len() == 11,
        ops[0] == Op::Cs(false),
        bus::received(ops[1]) == 0x02,
        bus::received(ops[2]) == 0x00,
        bus::received(ops[3]) == code,
        bus::received(ops[4]) == 0x00,
        bus::received(ops[5]) == data[0],
        bus::received(ops[6]) == data[1],
        bus::received(ops[7]) == data[2],
        bus::received(ops[8]) == data[3],
        ops[9] == Op::Drain,
        ops[10] == Op::Cs(true),
{
    bus::a_command_comes_through(code, data);
}

/// After the steps that address it a transfer sends its window row by row, each
/// row from left to right, two pixels to a word and the left one in its upper
/// half, and nothing else; the last column of an odd number of them is left out.
/// Then it waits until all of that is out and deselects the panel.
pub proof fn a_transfer_sends_rows_of_pairs(
    frame: Seq<u16>,
    x0: int,
    y0: int,
    x1: int,
    y1: int,
    row: int,
    pair: int,
)
    requires
        frame.len() >= FRAME_LEN,
        geometry::is_window(x0, y0, x1, y1),
        y0 <= y0 + row <= y1,
        x0 <= x0 + 2 * pair < x1,
    ensures
        ({
            let ops = flush_ops(frame, x0, y0, x1, y1);
            let pairs = (x1 + 1 - x0) / 2;
            let n = pairs * (y1 + 1 - y0);
            let i = 466 * (y0 + row) + x0 + 2 * pair;
            &&& ops.len() == 28 + n + 2
            &&& 28 <= 28 + pairs * row + pair < 28 + n
            &&& ops[28 + pairs * row + pair] matches Op::Word(word)
            &&& word as int / 0x1_0000 == frame[i]
            &&& word as int % 0x1_0000 == frame[i + 1]
            &&& ops[28 + n] == Op::Drain
            &&& ops[29 + n] == Op::Cs(true)
        }),
{
    let half = row_words(x0, x1);
    let k = half * row + pair;
    window_head_len(x0, y0, x1, y1);
    assert(0 <= half * row + pair < half * (y1 - y0 + 1)) by (nonlinear_arith)
        requires
            0 <= row < y1 - y0 + 1,
            0 <= pair < half,
    ;
    assert(half * row == row * half) by (nonlinear_arith);
    vstd::arithmetic::div_mod::lemma_fundamental_div_mod_converse(k, half, row, pair);
    canvas::index_of_splits(x0 + 2 * pair, y0 + row);
    canvas::index_of_splits(x0 + 2 * pair + 1, y0 + row);
    assert(flush_ops(frame, x0, y0, x1, y1)[28 + k] == Op::Word(
        pixel_word(frame, x0, y0, x1, k) as u32,
    ));
}

/// A window of one column sends no pixels.
pub proof fn a_single_column_sends_nothing(frame: Seq<u16>, x0: int, y0: int, y1: int)
    requires
        geometry::is_window(x0, y0, x0, y1),
    ensures
        ({
            let ops = flush_ops(frame, x0, y0, x0, y1);
            ops.len() == 30 && ops[28] == Op::Drain && ops[29] == Op::Cs(true)
        }),
{
    window_head_len(x0, y0, x0, y1);
    assert(row_words(x0, x0) == 0);
    assert(0 * (y1 - y0 + 1) == 0) by (nonlinear_arith);
}

/// The pixel number `q` of a transfer: pixels come two to a word, the upper half
/// first.
pub open spec fn nth_pixel(ops: Seq<Op>, q: int) -> int {
    match ops[28 + q / 2] {
        Op::Word(word) => if q % 2 == 0 {
            word as int / 0x1_0000
        } else {
            word as int % 0x1_0000
        },
        _ => -1,
    }
}

/// A pixel of the screen arrives where it belongs: of every rectangle that has
/// it, a flush sends it as the very pixel that the panel, which fills the columns
/// and rows it was told one row after the other, puts into the column `x + 6` of
/// the row `y`.
pub proof fn a_pixel_arrives_where_it_belongs(frame: Seq<u16>, bbox: Rect, x: int, y: int)
    requires
        frame.len() >= FRAME_LEN,
        0 <= x < 466,
        0 <= y < 466,
        bbox.x <= x < bbox.x + geometry::signed(bbox.w),
        bbox.y <= y < bbox.y + geometry::signed(bbox.h),
    ensures
        geometry::window_of(bbox) is Some,
        ({
            let (x0, y0, x1, y1) = geometry::window_of(bbox)->0;
            let ops = flush_ops(frame, x0, y0, x1, y1);
            let first = 256 * bus::received(ops[5]) + bus::received(ops[6]);
            let last = 256 * bus::received(ops[7]) + bus::received(ops[8]);
            let top = 256 * bus::received(ops[16]) + bus::received(ops[17]);
            let bottom = 256 * bus::received(ops[18]) + bus::received(ops[19]);
            &&& first <= x + 6 <= last
            &&& top <= y <= bottom
            &&& nth_pixel(ops, (last - first + 1) * (y - top) + (x + 6 - first)) == frame[466 * y
                + x]
        }),
{
    geometry::clip_align_nothing(bbox);
    assert(bbox.covers(x, y) && geometry::on_screen(x, y));
    geometry::clip_align_window(bbox);
    let (x0, y0, x1, y1) = geometry::window_of(bbox)->0;
    a_transfer_addresses_its_window(frame, x0, y0, x1, y1);
    nth_pixel_of_a_window(frame, x0, y0, x1, y1, x, y);
    let ops = flush_ops(frame, x0, y0, x1, y1);
    let first = 256 * bus::received(ops[5]) + bus::received(ops[6]);
    let last = 256 * bus::received(ops[7]) + bus::received(ops[8]);
    let top = 256 * bus::received(ops[16]) + bus::received(ops[17]);
    assert(first == x0 + 6 && last == x1 + 6 && top == y0);
    assert(last - first + 1 == x1 - x0 + 1 && y - top == y - y0 && x + 6 - first == x - x0);
}

/// Where a pixel stands in the transfer of a window with an even number of
/// columns.
proof fn nth_pixel_of_a_window(
    frame: Seq<u16>,
    x0: int,
    y0: int,
    x1: int,
    y1: int,
    x: int,
    y: int,
)
    requires
        frame.len() >= FRAME_LEN,
        geometry::is_window(x0, y0, x1, y1),
        (x1 - x0 + 1) % 2 == 0,
        x0 <= x <= x1,
        y0 <= y <= y1,
    ensures
        nth_pixel(flush_ops(frame, x0, y0, x1, y1), (x1 - x0 + 1) * (y - y0) + (x - x0))
            == frame[466 * y + x],
{
    let pairs = (x1 + 1 - x0) / 2;
    let row = y - y0;
    let pair = (x - x0) / 2;
    a_transfer_sends_rows_of_pairs(frame, x0, y0, x1, y1, row, pair);
    let q = (x1 - x0 + 1) * row + (x - x0);
    assert((x1 - x0 + 1) * row == 2 * (pairs * row)) by (nonlinear_arith)
        requires
            x1 - x0 + 1 == 2 * pairs,
    ;
    let k = pairs * row;
    assert(q == 2 * k + (x - x0));
    assert(q / 2 == k + pair);
    assert(q % 2 == (x - x0) % 2);
}

/// The steps of a transfer are those of its window, for every frame.
pub proof fn a_flush_has_the_steps_of_its_window(f: Flush, frame: Seq<u16>)
    ensures
        f.ops(frame) == flush_ops(
            frame,
            f.window().0,
            f.window().1,
            f.window().2,
            f.window().3,
        ),
{
}

} // verus!
