use rp2350_touch::bus::{cmd, encode_1bit, push_1bit, push_bytes, Op};
use rp2350_touch::color::{raw565, Rgb};
use rp2350_touch::display::{flush_rect, Flush, Pixel};
use rp2350_touch::geometry::full_screen;
use rp2350_touch::{bb_union, clip_align, framebuf_mut, Display, Rect, FRAME_LEN, H, W};

fn frame() -> Vec<u16> {
    vec![0u16; FRAME_LEN]
}

fn rect(x: i32, y: i32, w: u32, h: u32) -> Rect {
    Rect { x, y, w, h }
}

fn drain(display: &Display, mut flush: Flush) -> Vec<Op> {
    let mut ops = Vec::new();
    while let Some(op) = display.next_op(&mut flush) {
        ops.push(op);
    }
    assert_eq!(display.next_op(&mut flush), None);
    ops
}

#[test]
fn frame_len_is_the_screen() {
    assert_eq!(FRAME_LEN, W as usize * H as usize);
    assert_eq!(full_screen(), rect(0, 0, 466, 466));
}

#[test]
fn encodes_a_byte_on_one_line() {
    assert_eq!(encode_1bit(0x00), 0);
    assert_eq!(encode_1bit(0xFF), 0x1111_1111);
    assert_eq!(encode_1bit(0x80), 0x1000_0000);
    assert_eq!(encode_1bit(0x2C), 0x0010_1100);
    let mut ops = Vec::new();
    push_1bit(&mut ops, 3);
    push_bytes(&mut ops, &[1, 2]);
    assert_eq!(ops, vec![Op::Word(0x11), Op::Word(0x01), Op::Word(0x10)]);
}

#[test]
fn encoding_tells_all_bytes_apart() {
    let mut words: Vec<u32> = (0..=255u8).map(encode_1bit).collect();
    words.sort();
    words.dedup();
    assert_eq!(words.len(), 256);
}

#[test]
fn a_command_is_framed() {
    let mut ops = vec![Op::DelayMs(1)];
    cmd(&mut ops, 0x44, &[0x01, 0xD7]);
    let mut expected = vec![Op::DelayMs(1), Op::Cs(false)];
    for b in [0x02u8, 0x00, 0x44, 0x00, 0x01, 0xD7] {
        expected.push(Op::Word(encode_1bit(b)));
    }
    expected.push(Op::Drain);
    expected.push(Op::Cs(true));
    assert_eq!(ops, expected);
}

#[test]
fn power_on_and_rest_levels() {
    let mut f = frame();
    let (d, ops) = Display::new(&mut f);
    assert_eq!(ops, vec![Op::Cs(true), Op::Rst(true)]);
    assert_eq!(
        d.power_on_reset(),
        vec![
            Op::Pwr(true),
            Op::DelayMs(10),
            Op::Rst(false),
            Op::DelayMs(100),
            Op::Rst(true),
            Op::DelayMs(200)
        ]
    );
    assert_eq!(d.size(), (466, 466));
}

#[test]
fn init_sequence() {
    let mut f = frame();
    let (d, _) = Display::new(&mut f);
    let mut expected = Vec::new();
    cmd(&mut expected, 0x11, &[]);
    expected.push(Op::DelayMs(120));
    cmd(&mut expected, 0xC4, &[0x80]);
    cmd(&mut expected, 0x44, &[0x01, 0xD7]);
    cmd(&mut expected, 0x35, &[0x00]);
    cmd(&mut expected, 0x53, &[0x20]);
    expected.push(Op::DelayMs(10));
    cmd(&mut expected, 0x29, &[]);
    expected.push(Op::DelayMs(10));
    cmd(&mut expected, 0x51, &[0xFF]);
    cmd(&mut expected, 0x20, &[]);
    cmd(&mut expected, 0x36, &[0x00]);
    cmd(&mut expected, 0x3A, &[0x05]);
    assert_eq!(d.init(), expected);
    assert_eq!(expected.len(), 81);
}

#[test]
fn clip_align_clips_and_widens() {
    assert_eq!(clip_align(rect(0, 0, 466, 466)), Some((0, 0, 465, 465)));
    assert_eq!(clip_align(rect(10, 20, 4, 3)), Some((10, 20, 13, 22)));
    // Odd widths grow to the right, and to the left at the right edge.
    assert_eq!(clip_align(rect(10, 20, 3, 3)), Some((10, 20, 13, 22)));
    assert_eq!(clip_align(rect(465, 0, 1, 1)), Some((464, 0, 465, 0)));
    assert_eq!(clip_align(rect(463, 0, 9, 1)), Some((462, 0, 465, 0)));
    assert_eq!(clip_align(rect(-3, -5, 10, 6)), Some((0, 0, 7, 0)));
}

#[test]
fn clip_align_outside_is_nothing() {
    assert_eq!(clip_align(rect(466, 0, 5, 5)), None);
    assert_eq!(clip_align(rect(-5, 0, 5, 5)), None);
    assert_eq!(clip_align(rect(0, 500, 5, 5)), None);
    assert_eq!(clip_align(rect(3, 3, 0, 5)), None);
    // A width beyond the signed numbers counts as negative.
    assert_eq!(clip_align(rect(0, 0, 0x8000_0001, 5)), None);
}

#[test]
fn bb_union_is_the_smallest_box() {
    assert_eq!(bb_union(rect(1, 2, 3, 4), rect(10, 0, 2, 3)), rect(1, 0, 11, 6));
    assert_eq!(bb_union(rect(-5, -5, 20, 20), rect(0, 0, 2, 2)), rect(-5, -5, 20, 20));
}

#[test]
fn flush_sends_the_window() {
    let mut f = frame();
    for i in 0..FRAME_LEN {
        f[i] = (i % 60_000) as u16;
    }
    let copy = f.clone();
    let (d, _) = Display::new(&mut f);
    let flush = d.flush(rect(300, 7, 3, 2)).unwrap();
    let ops = drain(&d, flush);
    let mut expected = Vec::new();
    // Columns 300 to 303 are 306 to 309 in the panel's memory.
    cmd(&mut expected, 0x2A, &[0x01, 0x32, 0x01, 0x35]);
    cmd(&mut expected, 0x2B, &[0x00, 0x07, 0x00, 0x08]);
    expected.push(Op::Cs(false));
    push_bytes(&mut expected, &[0x32, 0x00, 0x2C, 0x00]);
    expected.push(Op::Drain);
    assert_eq!(expected.len(), 28);
    for y in [7usize, 8] {
        for x in [300usize, 302] {
            let left = copy[y * 466 + x] as u32;
            let right = copy[y * 466 + x + 1] as u32;
            expected.push(Op::Word(left << 16 | right));
        }
    }
    expected.push(Op::Drain);
    expected.push(Op::Cs(true));
    assert_eq!(ops, expected);
    assert!(d.flush(rect(-10, 0, 5, 5)).is_none());
}

#[test]
fn odd_windows_leave_out_the_last_column() {
    let f = frame();
    let mut flush = flush_rect(5, 6, 7, 6);
    let mut words = 0;
    let mut n = 0;
    while let Some(op) = flush.next(&f) {
        n += 1;
        if n > 28 && matches!(op, Op::Word(_)) {
            words += 1;
        }
    }
    assert_eq!(words, 1);
    assert_eq!(n, 31);
}

#[test]
fn clear_blackens_and_sends_everything() {
    let mut f = vec![0xABCDu16; FRAME_LEN];
    let (mut d, _) = Display::new(&mut f);
    let flush = d.clear();
    let ops = drain(&d, flush);
    assert_eq!(ops.len(), 30 + 233 * 466);
    assert!(ops[28..28 + 233 * 466].iter().all(|op| *op == Op::Word(0)));
    assert_eq!(ops[0], Op::Cs(false));
    assert_eq!(ops[ops.len() - 2..].to_vec(), vec![Op::Drain, Op::Cs(true)]);
    assert!(framebuf_mut(&mut d).iter().all(|p| *p == 0));
}

#[test]
fn a_flush_carries_what_is_drawn_later() {
    let mut f = frame();
    let (mut d, _) = Display::new(&mut f);
    let mut flush = d.flush(rect(0, 0, 2, 1)).unwrap();
    framebuf_mut(&mut d)[1] = 0x1234;
    let mut ops = Vec::new();
    while let Some(op) = d.next_op(&mut flush) {
        ops.push(op);
    }
    assert_eq!(ops[28], Op::Word(0x1234));
}

#[test]
fn colours_are_packed() {
    assert_eq!(raw565(Rgb { r: 31, g: 63, b: 31 }), 0xFFFF);
    assert_eq!(raw565(Rgb { r: 31, g: 0, b: 0 }), 0xF800);
    assert_eq!(raw565(Rgb { r: 1, g: 2, b: 3 }), 0x0843);
}

#[test]
fn drawn_pixels_the_last_one_stays() {
    let red = Rgb { r: 31, g: 0, b: 0 };
    let blue = Rgb { r: 0, g: 0, b: 31 };
    let px = |x: i32, y: i32, color: Rgb| Pixel { x, y, color };
    let mut f = frame();
    {
        let (mut d, _) = Display::new(&mut f);
        d.draw_iter(&[
            px(3, 2, red),
            px(4, 2, red),
            px(3, 2, blue),
            px(-1, 0, red),
            px(466, 0, red),
            px(0, 466, red),
        ]);
        assert_eq!(framebuf_mut(&mut d)[2 * 466 + 3], 0x001F);
    }
    // What was drawn is in the memory that the display borrowed.
    assert_eq!(f[2 * 466 + 3], 0x001F);
    assert_eq!(f[2 * 466 + 4], 0xF800);
    assert_eq!(f.iter().filter(|p| **p != 0).count(), 2);
}
