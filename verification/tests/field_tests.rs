use rp2350_touch::arena::{ball_dirty, paint_ring, RAW_BG, RAW_COMPUTER, RAW_PLAYER};
use rp2350_touch::canvas::{fill_circle, fill_rect};
use rp2350_touch::color::Rgb;
use rp2350_touch::field::{draw_field, update_field, Shown, ERASE_MARGIN, PADDLE_HALF_LEN};
use rp2350_touch::fireworks::{Dirty, Fireworks};
use rp2350_touch::score::{draw_big_score, score_dirty};
use rp2350_touch::screens::{button_top, draw_menu, Difficulty, BUTTON_H};
use rp2350_touch::text::draw_text;
use rp2350_touch::{Rect, Rng, FRAME_LEN};

fn is_goal(dx: i32, dy: i32) -> bool {
    dy.abs() > dx.abs()
}

/// A level paddle whose middle is at the column 233 + `pos` of the row `row`.
fn level(row: i32, pos: i32, half_len: u32) -> impl Fn(u32, i32) -> (i32, i32) {
    move |i, d| {
        let n = 2 * half_len + 2;
        (233 + pos - half_len as i32 + (2 * half_len * i / n) as i32, row + d)
    }
}

/// The block that a level paddle fills.
fn level_block(buf: &mut [u16], row: i32, pos: i32, half_len: i32, half: i32, color: u16) {
    let x = 233 + pos;
    fill_rect(buf, x - half_len, row - half, x + half_len + 1, row + half + 1, color);
}

fn covers(r: Rect, x: i32, y: i32) -> bool {
    r.x <= x && x < r.x + r.w as i32 && r.y <= y && y < r.y + r.h as i32
}

const START: Shown = Shown { ball_x: 233, ball_y: 233, player_score: 0, computer_score: 0 };

fn start(computer_half: u32) -> Vec<u16> {
    let mut f = vec![0x1234u16; FRAME_LEN];
    draw_field(
        &mut f,
        START,
        computer_half,
        is_goal,
        level(386, 0, PADDLE_HALF_LEN),
        level(80, 0, computer_half),
    );
    f
}

#[test]
fn a_match_starts_with_the_whole_field() {
    let f = start(62);
    let mut e = vec![RAW_BG; FRAME_LEN];
    paint_ring(&mut e, is_goal);
    level_block(&mut e, 386, 0, 50, 8, RAW_PLAYER);
    level_block(&mut e, 80, 0, 62, 8, RAW_COMPUTER);
    draw_big_score(&mut e, 0, 0);
    fill_circle(&mut e, 233, 233, 7, 0xFFFF);
    assert!(f == e);
}

#[test]
fn an_update_moves_everything() {
    let mut f = start(35);
    let now = Shown { ball_x: 440, ball_y: 240, player_score: 3, computer_score: 8 };
    let before = f.clone();
    update_field(
        &mut f,
        233,
        233,
        now,
        35,
        is_goal,
        level(386, 0, PADDLE_HALF_LEN + ERASE_MARGIN),
        level(80, 0, 35 + ERASE_MARGIN),
        level(386, 30, PADDLE_HALF_LEN),
        level(80, -20, 35),
    );
    let mut e = before.clone();
    level_block(&mut e, 386, 0, 54, 10, RAW_BG);
    level_block(&mut e, 80, 0, 39, 10, RAW_BG);
    level_block(&mut e, 386, 30, 50, 8, RAW_PLAYER);
    level_block(&mut e, 80, -20, 35, 8, RAW_COMPUTER);
    fill_circle(&mut e, 233, 233, 7, RAW_BG);
    draw_big_score(&mut e, 3, 8);
    paint_ring(&mut e, is_goal);
    fill_circle(&mut e, 440, 240, 7, 0xFFFF);
    assert!(f == e);

    // The same as a field drawn from scratch: nothing is left over.
    let mut scratch = vec![0u16; FRAME_LEN];
    let player = level(386, 30, PADDLE_HALF_LEN);
    draw_field(&mut scratch, now, 35, is_goal, player, level(80, -20, 35));
    assert!(f == scratch);

    // And nothing changes but the paddles and what is sent for ball and score.
    let ball = ball_dirty(233, 233, 440, 240);
    let paddles = [
        Rect { x: 150, y: 376, w: 170, h: 21 },
        Rect { x: 150, y: 70, w: 170, h: 21 },
    ];
    for y in 0..466 {
        for x in 0..466 {
            let i = (y * 466 + x) as usize;
            let sent = covers(ball, x, y)
                || covers(score_dirty(), x, y)
                || paddles.iter().any(|r| covers(*r, x, y));
            assert!(sent || f[i] == before[i]);
        }
    }
}

#[test]
fn the_wall_is_whole_after_a_ball_went_over_it() {
    let mut wall = vec![0u16; FRAME_LEN];
    paint_ring(&mut wall, is_goal);
    let mut f = start(50);
    let mut at = (233, 233);
    for to in [(440, 233), (445, 230), (300, 233)] {
        let now = Shown { ball_x: to.0, ball_y: to.1, player_score: 0, computer_score: 0 };
        update_field(
            &mut f,
            at.0,
            at.1,
            now,
            50,
            is_goal,
            level(386, 0, PADDLE_HALF_LEN + ERASE_MARGIN),
            level(80, 0, 50 + ERASE_MARGIN),
            level(386, 0, PADDLE_HALF_LEN),
            level(80, 0, 50),
        );
        at = to;
        assert!((0..FRAME_LEN).all(|i| wall[i] == 0 || f[i] == 0xFFFF));
        assert_eq!(f[(to.1 * 466 + to.0) as usize], 0xFFFF);
    }
}

#[test]
fn painting_over_leaves_nothing() {
    let mut f = vec![5u16; FRAME_LEN];
    fill_circle(&mut f, 100, 100, 7, 0xFFFF);
    fill_circle(&mut f, 100, 100, 7, 3);
    let mut e = vec![5u16; FRAME_LEN];
    fill_circle(&mut e, 100, 100, 7, 3);
    assert!(f == e);
}

#[test]
fn labels_lie_on_their_buttons() {
    let mut f = vec![1u16; FRAME_LEN];
    draw_menu(&mut f);
    let mut black = 0;
    for y in 0..466 {
        for x in 0..466 {
            let buttons = [Difficulty::Easy, Difficulty::Medium, Difficulty::Hard];
            let on_button = buttons.iter().any(|d| {
                let top = button_top(*d);
                123 <= x && x < 343 && top <= y && y < top + BUTTON_H
            });
            let pixel = f[(y * 466 + x) as usize];
            assert!(on_button || pixel == 0);
            if on_button && pixel == 0 {
                black += 1;
            }
        }
    }
    assert!(black > 500);
}

#[test]
fn text_keeps_to_its_glyphs() {
    for text in ["W", "EASY", "You win!", "@@@@@@@@", "\u{2603}a", "a\r\nb"] {
        let mut f = vec![0u16; FRAME_LEN];
        draw_text(&mut f, text, 2, 100, 200, Rgb { r: 31, g: 63, b: 31 });
        let right = 100 + 20 * text.chars().count() as i32;
        for (i, p) in f.iter().enumerate() {
            let (x, y) = (i as i32 % 466, i as i32 / 466);
            assert!(*p == 0 || (100 <= x && x < right && 170 <= y && y < 210));
        }
    }
}

#[test]
fn a_frame_of_fireworks_erases_what_the_last_one_drew() {
    let mut rng = Rng::new(11);
    let mut fireworks = Fireworks::new();
    let mut f = vec![0u16; FRAME_LEN];
    let mut from = [(0, 0); 80];
    for frame in 0..120 {
        let before = f.clone();
        let mut dirty = Dirty::new();
        fireworks.erase(&mut f, &from, &mut dirty);
        assert!(f.iter().all(|p| *p == 0));
        fireworks.spawn(&mut rng);
        fireworks.age();
        let mut to = [(0, 0); 80];
        for (i, p) in to.iter_mut().enumerate() {
            *p = (30 + 5 * i as i32 + frame, 20 + 3 * i as i32 + 2 * frame);
        }
        fireworks.draw(&mut f, &to, &mut dirty);
        for i in 0..FRAME_LEN {
            if f[i] != before[i] {
                let (x, y) = (i as i32 % 466, i as i32 / 466);
                assert!(covers(dirty.rect().unwrap(), x, y));
            }
        }
        from = to;
    }
    assert!(f.iter().any(|p| *p != 0));
}

#[test]
fn extents_too_wide_are_told() {
    let mut d = Dirty::new();
    assert!(d.fits());
    d.cover(10, 10);
    assert!(d.fits());
    d.cover(i32::MIN + 3, 10);
    assert!(!d.fits());
    let mut d = Dirty::new();
    d.cover(i32::MAX - 4, 10);
    assert!(d.fits());
    assert_eq!(d.rect(), Some(Rect { x: 466, y: 7, w: i32::MAX as u32 - 466, h: 7 }));
    let mut d = Dirty::new();
    d.cover(10, i32::MAX - 3);
    d.cover(10, 2);
    assert!(!d.fits());
}

#[test]
fn a_new_field_has_its_wall_beside_the_paddles() {
    let mut wall = vec![0u16; FRAME_LEN];
    paint_ring(&mut wall, is_goal);
    let f = start(62);
    for i in 0..FRAME_LEN {
        let row = i / 466;
        let beside = !(72..=88).contains(&row) && !(378..=394).contains(&row);
        assert!(wall[i] == 0 || !beside || f[i] == 0xFFFF);
    }
}
