use rp2350_touch::fireworks::{fade_color, Dirty, Fireworks, Launch, BURST, SPARKS};
use rp2350_touch::game::{
    face_hit, pick_difficulty, serve, steers, Lost, LostStep, Match, Menu, MenuStep, Play, Serve,
    Side, Splash, SplashStep,
};
use rp2350_touch::screens::Difficulty;
use rp2350_touch::touch::TouchOp;
use rp2350_touch::{Rect, Rng, Touch, FRAME_LEN};

#[test]
fn rng_is_the_known_generator() {
    let mut r = Rng::new(1);
    assert_eq!(r.next(), 1_015_568_748);
    assert_eq!(r.next(), 1_586_005_467);
    let mut r = Rng::new(0xBEEF_CAFE);
    let first = 0xBEEF_CAFEu32.wrapping_mul(1_664_525).wrapping_add(1_013_904_223);
    assert_eq!(r.next(), first);
    let second = first.wrapping_mul(1_664_525).wrapping_add(1_013_904_223);
    assert_eq!(r.range(10, 17), 10 + second % 7);
}

#[test]
fn rng_range_is_half_open() {
    let mut r = Rng::new(7);
    let mut seen = [false; 6];
    for _ in 0..200 {
        seen[r.range(0, 6) as usize] = true;
    }
    assert_eq!(r.range(5, 6), 5);
    assert!(seen.iter().all(|s| *s));
    assert!(r.range(0, u32::MAX) < u32::MAX);
}

#[test]
fn rng_states_never_merge() {
    let mut a = Rng::new(5);
    let mut b = Rng::new(6);
    for _ in 0..1000 {
        assert_ne!(a.next(), b.next());
    }
}

#[test]
fn touch_is_set_up() {
    let (t, ops) = Touch::new();
    assert_eq!(t.request(), (0x38, 0x02));
    assert_eq!(
        ops,
        vec![
            TouchOp::Rst(false),
            TouchOp::DelayMs(10),
            TouchOp::Rst(true),
            TouchOp::DelayMs(50),
            TouchOp::Write { addr: 0x38, reg: 0xA4, value: 0x00 },
        ]
    );
}

#[test]
fn touch_reports_are_read() {
    let (t, _) = Touch::new();
    assert_eq!(t.read(None), None);
    assert_eq!(t.read(Some([0x00, 0x81, 0x02, 0x00, 0x05])), None);
    assert_eq!(t.read(Some([0xF0, 0x81, 0x02, 0x00, 0x05])), None);
    // The end of a touch.
    assert_eq!(t.read(Some([0x01, 0x41, 0x02, 0x00, 0x05])), None);
    assert_eq!(t.read(Some([0x01, 0x81, 0x02, 0x30, 0x05])), Some((0x102, 0x005)));
    assert_eq!(t.read(Some([0x02, 0x0F, 0xFF, 0xFF, 0xFF])), Some((0xFFF, 0xFFF)));
    assert_eq!(t.read(Some([0x01, 0xC0, 0x00, 0x00, 0x00])), Some((0, 0)));
}

#[test]
fn a_match_goes_to_nine() {
    let mut m = Match::new();
    assert_eq!((m.player_score(), m.computer_score(), m.speed()), (0, 0, 28));
    for n in 1..9u8 {
        assert_eq!(m.goal_line(Side::Player, true, true), Play::On);
        assert_eq!(m.speed(), 29);
        assert_eq!(
            m.goal_line(Side::Player, false, true),
            Play::Serve { toward_player: false }
        );
        assert_eq!((m.computer_score(), m.speed()), (n, 28));
        assert_eq!(m.result(), None);
    }
    assert_eq!(m.goal_line(Side::Computer, false, false), Play::On);
    assert_eq!(m.goal_line(Side::Player, false, true), Play::Over { won: false });
    assert_eq!(m.result(), Some(false));
    assert_eq!(m.escaped(Some(Side::Player)), Play::On);
    assert_eq!((m.player_score(), m.computer_score()), (0, 9));
}

#[test]
fn the_player_can_win() {
    let mut m = Match::new();
    for _ in 0..8 {
        assert_eq!(
            m.escaped(Some(Side::Computer)),
            Play::Serve { toward_player: true }
        );
    }
    assert_eq!(m.goal_line(Side::Computer, false, true), Play::Over { won: true });
    assert_eq!(m.result(), Some(true));
    assert_eq!((m.player_score(), m.computer_score()), (9, 0));
}

#[test]
fn both_lines_in_the_last_frame() {
    let mut m = Match::new();
    for _ in 0..8 {
        m.goal_line(Side::Player, false, true);
        m.goal_line(Side::Computer, false, true);
    }
    assert_eq!(m.goal_line(Side::Player, false, true), Play::Over { won: false });
    assert_eq!(m.goal_line(Side::Computer, false, true), Play::Over { won: true });
    assert_eq!(m.result(), Some(true));
}

#[test]
fn bounces_speed_up_to_the_limit() {
    let mut m = Match::new();
    for n in 1..=40u8 {
        assert_eq!(m.goal_line(Side::Computer, true, false), Play::On);
        assert_eq!(m.speed(), (28 + n).min(52));
        // The same in floating point, in pixels per frame.
        let mut f = 14.0f32;
        for _ in 0..n {
            f = (f + 0.5).min(26.0);
        }
        assert_eq!(m.speed() as f32 * 0.5, f);
    }
    // A ball lost through no goal keeps its speed.
    assert_eq!(m.escaped(None), Play::Serve { toward_player: true });
    assert_eq!(m.speed(), 52);
}

#[test]
fn serves_are_drawn() {
    let mut r = Rng::new(0xBEEF_CAFE);
    let mut copy = Rng::new(0xBEEF_CAFE);
    for toward_player in [true, false, true] {
        let s = serve(&mut r, toward_player);
        let degrees = copy.range(5, 40);
        let right = copy.range(0, 2) == 0;
        assert_eq!(s, Serve { degrees, right, toward_player });
    }
    assert_eq!(r.next(), copy.next());
}

#[test]
fn touches_steer_below_the_centre() {
    assert!(!steers(233));
    assert!(steers(234));
    assert!(!steers(-1));
}

#[test]
fn face_is_a_disc() {
    for y in 130..340 {
        for x in 130..340 {
            let (dx, dy) = (x as f32 - 233.0, y as f32 - 233.0);
            assert_eq!(face_hit(x, y), dx * dx + dy * dy <= 90.0 * 90.0);
        }
    }
    assert!(!face_hit(i32::MAX, i32::MIN));
    assert!(!face_hit(4095, 4095));
}

#[test]
fn difficulties() {
    for (y, d) in [
        (59, None),
        (60, Some(Difficulty::Easy)),
        (124, Some(Difficulty::Easy)),
        (125, None),
        (200, Some(Difficulty::Medium)),
        (264, Some(Difficulty::Medium)),
        (265, None),
        (340, Some(Difficulty::Hard)),
        (404, Some(Difficulty::Hard)),
        (405, None),
        (-1, None),
    ] {
        assert_eq!(pick_difficulty(y), d);
    }
    let of = |d: Difficulty| (d.computer_speed() as f32 * 0.5, d.computer_half_len() as f32);
    assert_eq!(of(Difficulty::Easy), (2.5, 35.0));
    assert_eq!(of(Difficulty::Medium), (4.5, 50.0));
    assert_eq!(of(Difficulty::Hard), (6.5, 62.0));
}

#[test]
fn menu_sleeps_after_thirty_seconds() {
    let mut m = Menu::new();
    for _ in 0..29_999 {
        assert_eq!(m.poll(None), MenuStep::Wait);
    }
    let mut other = Menu::new();
    for _ in 0..29_999 {
        other.poll(None);
    }
    assert_eq!(m.poll(None), MenuStep::Sleep);
    // A touch beside the buttons keeps the board awake.
    assert_eq!(other.poll(Some((10, 10))), MenuStep::Wait);
    assert_eq!(other.poll(None), MenuStep::Wait);
    assert_eq!(other.poll(Some((10, 250))), MenuStep::Chosen(Difficulty::Medium));
}

#[test]
fn lost_screen_sleeps_in_spite_of_touches() {
    let mut l = Lost::new();
    for _ in 0..29_999 {
        assert_eq!(l.poll(Some((10, 10))), LostStep::Wait);
    }
    assert_eq!(l.poll(Some((10, 10))), LostStep::Sleep);
    let mut l = Lost::new();
    assert_eq!(l.poll(None), LostStep::Wait);
    assert_eq!(l.poll(Some((233, 300))), LostStep::Done);
}

#[test]
fn splash_refreshes_every_second() {
    let mut s = Splash::new();
    for tick in 1..=3000 {
        let step = s.tick();
        assert_eq!(step, SplashStep { refresh: tick % 100 == 0, sleep: tick == 3000 });
    }
}

#[test]
fn sparks_fade_after_the_hold() {
    assert_eq!(fade_color(0xFFFF, 40, 50), 0xFFFF);
    assert_eq!(fade_color(0xFFFF, 35, 50), 0xFFFF);
    // 31 * 34 / 35 = 30, 63 * 34 / 35 = 61.
    assert_eq!(fade_color(0xFFFF, 34, 50), (30 << 11) | (61 << 5) | 30);
    assert_eq!(fade_color(0xFD20, 7, 50), (6 << 11) | (8 << 5));
    assert_eq!(fade_color(0xFFFF, 0, 50), 0);
    assert_eq!(fade_color(0xABCD, 3, 10), 0xABCD);
}

#[test]
fn sparks_never_get_brighter() {
    for max_life in 35..=54u8 {
        let mut last = 0xFFFF;
        for life in (1..=max_life).rev() {
            let c = fade_color(0xFFFF, life, max_life);
            assert!(c >> 11 <= last >> 11);
            assert!((c >> 5) & 63 <= (last >> 5) & 63);
            assert!(c & 31 <= last & 31);
            last = c;
        }
    }
}

#[test]
fn a_burst_every_25_frames() {
    let colors: [u16; 6] = [0xFFFF, 0x07FF, 0xFFE0, 0xF81F, 0x07E0, 0xFD20];
    let mut rng = Rng::new(99);
    let mut copy = Rng::new(99);
    let mut f = Fireworks::new();
    for _ in 0..24 {
        assert!(f.spawn(&mut rng).is_none());
    }
    let b = f.spawn(&mut rng).unwrap();
    assert_eq!(b.angle, copy.range(0, 628));
    assert_eq!(b.radius, copy.range(20, 170));
    let color = colors[copy.range(0, 6) as usize];
    assert_eq!(b.launches.len(), BURST);
    for slot in 0..18 {
        let dir = copy.range(0, 628);
        let speed = copy.range(15, 40);
        let life = 35 + copy.range(0, 20);
        assert_eq!(b.launches[slot], Launch { slot, dir, speed });
        let p = f.spark(slot);
        assert_eq!((p.life as u32, p.max_life as u32), (life, life));
        assert_eq!((p.color, p.active), (color, true));
    }
    assert!(!f.spark(18).active);
    assert_eq!(rng.next(), copy.next());
}

#[test]
fn bursts_take_only_free_sparks() {
    let mut rng = Rng::new(1);
    let mut f = Fireworks::new();
    let mut sizes = Vec::new();
    for _ in 0..150 {
        if let Some(b) = f.spawn(&mut rng) {
            sizes.push(b.launches.len());
        }
    }
    // Nothing ages here: 80 sparks last for four bursts and a half.
    assert_eq!(sizes, vec![18, 18, 18, 18, 8, 0]);
    assert!((0..SPARKS).all(|i| f.spark(i).active));
}

#[test]
fn sparks_burn_out() {
    let mut rng = Rng::new(3);
    let mut f = Fireworks::new();
    for _ in 0..25 {
        f.spawn(&mut rng);
    }
    let lives: Vec<u8> = (0..18).map(|i| f.spark(i).life).collect();
    for frame in 1..=60u8 {
        f.age();
        for i in 0..18 {
            assert_eq!(f.spark(i).active, frame < lives[i]);
        }
    }
    assert_eq!(f.spark(0).life, 0);
}

#[test]
fn sparks_are_drawn_and_erased() {
    let mut rng = Rng::new(3);
    let mut f = Fireworks::new();
    let at: Vec<(i32, i32)> = (0..80).map(|i| (20 + 5 * i, 40 + 2 * i)).collect();
    let mut buf = vec![0u16; FRAME_LEN];
    let mut dirty = Dirty::new();
    f.draw(&mut buf, &at, &mut dirty);
    assert_eq!(dirty.rect(), None);
    assert!(buf.iter().all(|p| *p == 0));
    for _ in 0..25 {
        f.spawn(&mut rng);
    }
    for _ in 0..30 {
        f.age();
    }
    f.draw(&mut buf, &at, &mut dirty);
    assert_eq!(dirty.rect(), Some(Rect { x: 17, y: 37, w: 92, h: 41 }));
    for y in 0..466i32 {
        for x in 0..466i32 {
            let mut expected = 0;
            for i in 0..18usize {
                let p = f.spark(i);
                let (dx, dy) = (x - at[i].0, y - at[i].1);
                if p.active && dx * dx + dy * dy <= 9 {
                    expected = fade_color(p.color, p.life, p.max_life);
                }
            }
            assert_eq!(buf[(y * 466 + x) as usize], expected);
        }
    }
    let mut again = Dirty::new();
    f.erase(&mut buf, &at, &mut again);
    assert!(buf.iter().all(|p| *p == 0));
    assert_eq!(again.rect(), dirty.rect());
}

#[test]
fn dirty_grows_with_sparks() {
    let mut d = Dirty::new();
    d.cover(500, -20);
    // Nothing lies beyond the right edge and above the top at once.
    assert_eq!(d.rect(), Some(Rect { x: 466, y: -23, w: 38, h: 24 }));
    d.cover(10, 100);
    assert_eq!(d.rect(), Some(Rect { x: 7, y: -23, w: 497, h: 127 }));
}
