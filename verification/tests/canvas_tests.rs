use rp2350_touch::arena::{
    ball_dirty, paint_paddle, paint_ring, ARENA_R, BALL_R, CX, CY, RAW_COMPUTER, RAW_PLAYER,
    RAW_WALL,
};
use rp2350_touch::battery::{battery_rect, draw_battery};
use rp2350_touch::canvas::{fill_circle, fill_rect, paint_circle_ring, plot};
use rp2350_touch::score::{draw_big_digit, draw_big_score, score_dirty};
use rp2350_touch::{Rect, FRAME_LEN};

fn frame() -> Vec<u16> {
    vec![0u16; FRAME_LEN]
}

fn at(f: &[u16], x: i32, y: i32) -> u16 {
    f[y as usize * 466 + x as usize]
}

fn covers(r: Rect, x: i32, y: i32) -> bool {
    r.x <= x && x < r.x + r.w as i32 && r.y <= y && y < r.y + r.h as i32
}

fn compare(f: &[u16], expected: impl Fn(i32, i32) -> u16) {
    for y in 0..466 {
        for x in 0..466 {
            assert_eq!(at(f, x, y), expected(x, y), "at {} {}", x, y);
        }
    }
}

#[test]
fn plot_only_on_the_screen() {
    let mut f = frame();
    for (x, y) in [(-1, 0), (0, -1), (466, 0), (0, 466), (i32::MIN, 5), (5, i32::MAX)] {
        plot(&mut f, x, y, 9);
    }
    assert!(f.iter().all(|p| *p == 0));
    plot(&mut f, 465, 465, 9);
    plot(&mut f, 0, 0, 8);
    assert_eq!(f[FRAME_LEN - 1], 9);
    assert_eq!(f[0], 8);
}

#[test]
fn fill_rect_clips() {
    let mut f = frame();
    fill_rect(&mut f, -5, 460, 3, 500, 7);
    compare(&f, |x, y| if x < 3 && y >= 460 { 7 } else { 0 });
    let mut f = frame();
    fill_rect(&mut f, 10, 10, 5, 20, 7);
    fill_rect(&mut f, i32::MIN, i32::MIN, -1, i32::MAX, 7);
    fill_rect(&mut f, 466, 0, i32::MAX, 466, 7);
    assert!(f.iter().all(|p| *p == 0));
    fill_rect(&mut f, i32::MIN, i32::MIN, i32::MAX, i32::MAX, 7);
    assert!(f.iter().all(|p| *p == 7));
}

#[test]
fn longer_memory_is_left_alone() {
    let mut f = vec![1u16; FRAME_LEN + 10];
    fill_rect(&mut f, 0, 0, 466, 500, 7);
    assert_eq!(f[FRAME_LEN - 1], 7);
    assert_eq!(f[FRAME_LEN], 1);
}

#[test]
fn fill_circle_is_a_disc() {
    for (cx, cy, r) in [(100, 50, 7), (0, 0, 10), (465, 470, 10), (20, 20, 0)] {
        let mut f = frame();
        fill_circle(&mut f, cx, cy, r, 3);
        compare(&f, |x, y| {
            if (x - cx) * (x - cx) + (y - cy) * (y - cy) <= r * r {
                3
            } else {
                0
            }
        });
    }
    let mut f = frame();
    fill_circle(&mut f, 50, 50, -4, 3);
    assert!(f.iter().all(|p| *p == 0));
}

#[test]
fn circle_ring_is_an_annulus() {
    let mut f = frame();
    paint_circle_ring(&mut f, 233, 233, 90, 5, 3);
    compare(&f, |x, y| {
        let d2 = (x - 233) * (x - 233) + (y - 233) * (y - 233);
        if 88 * 88 <= d2 && d2 <= 92 * 92 {
            3
        } else {
            0
        }
    });
}

#[test]
fn ring_has_gaps_where_the_goals_are() {
    let mut f = frame();
    paint_ring(&mut f, |_dx: i32, dy: i32| dy > 150 || dy < -150);
    compare(&f, |x, y| {
        let (dx, dy) = (x - CX, y - CY);
        let d2 = dx * dx + dy * dy;
        let ring = (ARENA_R - 1) * (ARENA_R - 1) <= d2 && d2 <= (ARENA_R + 1) * (ARENA_R + 1);
        if ring && -150 <= dy && dy <= 150 {
            RAW_WALL
        } else {
            0
        }
    });
}

#[test]
fn paddle_is_painted_at_its_samples() {
    let mut f = frame();
    // A level paddle of half length 3: nine steps, five rows.
    paint_paddle(&mut f, 3, 4, 6, |i: u32, d: i32| (100 + i as i32, 200 + d));
    compare(&f, |x, y| {
        if 100 <= x && x <= 108 && 198 <= y && y <= 202 {
            6
        } else {
            0
        }
    });
    let mut f = frame();
    paint_paddle(&mut f, 3, 4, 6, |i: u32, d: i32| (-3 + i as i32, 466 + d));
    compare(&f, |x, y| if x <= 5 && y >= 464 { 6 } else { 0 });
    let mut f = frame();
    paint_paddle(&mut f, 3, 0x8000_0000, 6, |_i: u32, _d: i32| (5, 5));
    assert!(f.iter().all(|p| *p == 0));
}

#[test]
fn ball_dirty_holds_both_balls() {
    let r = ball_dirty(100, 100, 110, 95);
    assert_eq!(r, Rect { x: 90, y: 85, w: 30, h: 25 });
    let mut f = frame();
    fill_circle(&mut f, 100, 100, BALL_R, 1);
    fill_circle(&mut f, 110, 95, BALL_R, 1);
    compare(&f, |x, y| if covers(r, x, y) { at(&f, x, y) } else { 0 });
}

#[test]
fn digits_show_their_segments() {
    let masks: [u8; 11] = [63, 6, 91, 79, 102, 109, 125, 7, 127, 111, 111];
    // A pixel inside each segment and inside no other.
    let probes = [(13, 1), (24, 12), (24, 36), (13, 46), (1, 36), (1, 12), (13, 24)];
    for (digit, mask) in masks.iter().enumerate() {
        let mut f = frame();
        draw_big_digit(&mut f, 50, 60, digit as u8, 5);
        for (k, (dx, dy)) in probes.iter().enumerate() {
            let lit = mask & (1 << k) != 0;
            assert_eq!(at(&f, 50 + dx, 60 + dy) == 5, lit, "digit {} segment {}", digit, k);
        }
    }
    let mut f = frame();
    draw_big_digit(&mut f, 50, 60, 255, 5);
    let mut g = frame();
    draw_big_digit(&mut g, 50, 60, 9, 5);
    assert_eq!(f, g);
}

#[test]
fn digit_eight_exactly() {
    let mut f = frame();
    draw_big_digit(&mut f, 10, 20, 8, 5);
    let boxes = [
        (13, 20, 33, 26),
        (30, 23, 36, 44),
        (30, 44, 36, 65),
        (13, 62, 33, 68),
        (10, 44, 16, 65),
        (10, 23, 16, 44),
        (13, 41, 33, 47),
    ];
    compare(&f, |x, y| {
        let lit = boxes.iter().any(|b| b.0 <= x && x < b.2 && b.1 <= y && y < b.3);
        if lit {
            5
        } else {
            0
        }
    });
}

#[test]
fn score_keeps_to_its_rectangle() {
    let r = score_dirty();
    assert_eq!(r, Rect { x: 190, y: 205, w: 86, h: 56 });
    let mut f = vec![0x1234u16; FRAME_LEN];
    draw_big_score(&mut f, 3, 7);
    for y in 0..466 {
        for x in 0..466 {
            if covers(r, x, y) {
                assert_ne!(at(&f, x, y), 0x1234);
            } else {
                assert_eq!(at(&f, x, y), 0x1234);
            }
        }
    }
    // The computer's 7 on the left, the dash, the player's 3 on the right.
    assert_eq!(at(&f, 194 + 13, 209 + 1), RAW_COMPUTER);
    assert_eq!(at(&f, 194 + 13, 209 + 46), 0);
    assert_eq!(at(&f, 233, 233), 0x7BEF);
    assert_eq!(at(&f, 246 + 13, 209 + 46), RAW_PLAYER);
    // Drawing over another score leaves nothing of it.
    let mut g = vec![0x1234u16; FRAME_LEN];
    draw_big_score(&mut g, 8, 8);
    draw_big_score(&mut g, 3, 7);
    assert_eq!(f, g);
}

#[test]
fn battery_colours_and_columns() {
    for (pct, color, columns) in [
        (100u8, 0x07E0u16, 30),
        (50, 0x07E0, 15),
        (49, 0xFFE0, 15),
        (20, 0xFFE0, 6),
        (19, 0xF800, 6),
        (2, 0xF800, 1),
        (1, 0xF800, 0),
        (0, 0xF800, 0),
    ] {
        let mut f = vec![0x1234u16; FRAME_LEN];
        draw_battery(&mut f, pct);
        compare(&f, |x, y| {
            let inside = 216 <= x && x < 246 && 423 <= y && y < 437;
            let body = 215 <= x && x < 247 && 422 <= y && y < 438;
            let nub = 247 <= x && x < 251 && 426 <= y && y < 434;
            if inside && x < 216 + columns {
                color
            } else if inside {
                0
            } else if body || nub {
                0xFFFF
            } else {
                0x1234
            }
        });
    }
}

#[test]
fn battery_stays_in_its_rectangle_up_to_118() {
    let r = battery_rect();
    assert_eq!(r, Rect { x: 215, y: 422, w: 36, h: 16 });
    let leaves = |pct: u8| {
        let mut f = frame();
        draw_battery(&mut f, pct);
        let mut out = false;
        for y in 0..466 {
            for x in 0..466 {
                out = out || (!covers(r, x, y) && at(&f, x, y) != 0);
            }
        }
        out
    };
    assert!(!leaves(118));
    assert!(leaves(119));
}

#[test]
fn battery_replaces_an_older_gauge() {
    let mut f = frame();
    draw_battery(&mut f, 100);
    draw_battery(&mut f, 10);
    let mut g = frame();
    draw_battery(&mut g, 10);
    assert_eq!(f, g);
}
