use embedded_graphics::draw_target::DrawTarget;
use embedded_graphics::geometry::{OriginDimensions, Point, Size};
use embedded_graphics::mono_font::ascii::FONT_10X20;
use embedded_graphics::mono_font::MonoTextStyle;
use embedded_graphics::pixelcolor::{Rgb565, RgbColor};
use embedded_graphics::text::Text;
use embedded_graphics::{Drawable, Pixel as EgPixel};

use rp2350_touch::canvas::{fill_circle, fill_rect, paint_circle_ring};
use rp2350_touch::color::{raw565, Rgb};
use rp2350_touch::display::Pixel;
use rp2350_touch::score::draw_big_digit;
use rp2350_touch::screens::{
    button_top, draw_end_screen, draw_menu, draw_mouth, fill, load_picture, Difficulty,
};
use rp2350_touch::text::{draw_bitmap, draw_text, ScaleTarget, TEXT_H, TEXT_W};
use rp2350_touch::FRAME_LEN;

/// A draw target that enlarges pixels on a frame.
struct Enlarged<'a> {
    buf: &'a mut [u16],
    scale: i32,
    offset: Point,
}

impl DrawTarget for Enlarged<'_> {
    type Color = Rgb565;
    type Error = core::convert::Infallible;

    fn draw_iter<I>(&mut self, pixels: I) -> Result<(), Self::Error>
    where
        I: IntoIterator<Item = EgPixel<Rgb565>>,
    {
        for EgPixel(pt, color) in pixels {
            let raw = ((color.r() as u16) << 11) | ((color.g() as u16) << 5) | (color.b() as u16);
            let bx = self.offset.x + pt.x * self.scale;
            let by = self.offset.y + pt.y * self.scale;
            fill_rect(self.buf, bx, by, bx + self.scale, by + self.scale, raw);
        }
        Ok(())
    }
}

impl OriginDimensions for Enlarged<'_> {
    fn size(&self) -> Size {
        Size::new(466, 466)
    }
}

fn outside_text(buf: &mut [u16], text: &str, scale: i32, x: i32, y: i32, color: Rgb565) {
    let mut target = Enlarged { buf, scale, offset: Point::new(x, y) };
    let style = MonoTextStyle::new(&FONT_10X20, color);
    Text::new(text, Point::zero(), style).draw(&mut target).unwrap();
}

const CYAN: Rgb = Rgb { r: 0, g: 63, b: 31 };
const BLACK: Rgb = Rgb { r: 0, g: 0, b: 0 };

#[test]
fn named_colours_agree() {
    assert_eq!((Rgb565::CYAN.r(), Rgb565::CYAN.g(), Rgb565::CYAN.b()), (0, 63, 31));
    assert_eq!((Rgb565::BLACK.r(), Rgb565::BLACK.g(), Rgb565::BLACK.b()), (0, 0, 0));
    assert_eq!(raw565(CYAN), 0x07FF);
}

#[test]
fn font_has_the_expected_metrics() {
    assert_eq!(FONT_10X20.baseline, 15);
    assert_eq!(FONT_10X20.character_size, Size::new(10, 20));
    assert_eq!(FONT_10X20.character_spacing, 0);
    assert_eq!(TEXT_W, 80);
    assert_eq!(TEXT_H, 20);
}

#[test]
fn text_is_drawn_as_the_font_has_it() {
    for (text, scale, x, y) in [
        ("EASY", 2, 193, 106),
        ("MEDIUM", 2, 173, 246),
        ("HARD", 2, 193, 386),
        ("You win!", 3, 113, 385),
        ("gjpqy|_@", 1, -4, 3),
        ("", 3, 10, 10),
        ("\u{e9}\n?", 2, 10, 30),
    ] {
        let mut a = vec![0x1111u16; FRAME_LEN];
        draw_text(&mut a, text, scale, x, y, CYAN);
        let mut b = vec![0x1111u16; FRAME_LEN];
        // Only the first line is drawn.
        let line = text.split('\n').next().unwrap();
        outside_text(&mut b, line, scale, x, y, Rgb565::CYAN);
        assert_eq!(a == b, true, "text {:?}", text);
    }
}

#[test]
fn text_leaves_something() {
    let mut a = vec![0u16; FRAME_LEN];
    draw_text(&mut a, "H", 1, 0, 15, CYAN);
    let lit = a.iter().filter(|p| **p == 0x07FF).count();
    assert!(lit > 20 && lit < 200);
}

#[test]
fn bitmap_pixels_become_squares() {
    let mut bits = vec![0u8; 1600];
    bits[0] = 255;
    bits[15 * 80 + 2] = 1;
    let mut f = vec![0u16; FRAME_LEN];
    draw_bitmap(&mut f, &bits, 3, 100, 200, CYAN);
    for y in 0..466i32 {
        for x in 0..466i32 {
            let first = 100 <= x && x < 103 && 155 <= y && y < 158;
            let second = 106 <= x && x < 109 && 200 <= y && y < 203;
            let expected = if first || second { 0x07FF } else { 0 };
            assert_eq!(f[(y * 466 + x) as usize], expected);
        }
    }
}

#[test]
fn scale_target_enlarges_and_keeps_the_last() {
    let mut f = vec![0u16; FRAME_LEN];
    {
        let mut t = ScaleTarget::new(&mut f, 2, 10, 20);
        assert_eq!(t.size(), (466, 466));
        t.draw_iter(&[
            Pixel { x: 1, y: -3, color: CYAN },
            Pixel { x: 0, y: 0, color: CYAN },
            Pixel { x: 0, y: 0, color: Rgb { r: 31, g: 0, b: 0 } },
            Pixel { x: -6, y: 0, color: CYAN },
        ]);
    }
    for (x, y, c) in [(12, 14, 0x07FF), (13, 15, 0x07FF), (10, 20, 0xF800), (11, 21, 0xF800)] {
        assert_eq!(f[y * 466 + x], c);
    }
    assert_eq!(f.iter().filter(|p| **p != 0).count(), 8);
}

#[test]
fn fill_takes_everything() {
    let mut f = vec![1u16; FRAME_LEN + 3];
    fill(&mut f, 0x55AA);
    assert!(f.iter().all(|p| *p == 0x55AA));
}

#[test]
fn pictures_are_big_endian() {
    let mut f = vec![9u16; 4];
    load_picture(&mut f, &[0x12, 0x34, 0xFF, 0x00, 0x77]);
    assert_eq!(f, vec![0x1234, 0xFF00, 9, 9]);
    load_picture(&mut f, &[0, 1, 0, 2, 0, 3, 0, 4, 0, 5, 0, 6]);
    assert_eq!(f, vec![1, 2, 3, 4]);
}

#[test]
fn menu_has_its_buttons_and_labels() {
    let mut a = vec![0xEEEEu16; FRAME_LEN];
    draw_menu(&mut a);
    let mut b = vec![0u16; FRAME_LEN];
    fill_rect(&mut b, 123, 60, 343, 125, 0x07FF);
    fill_rect(&mut b, 123, 200, 343, 265, 0xFFE0);
    fill_rect(&mut b, 123, 340, 343, 405, 0xF800);
    outside_text(&mut b, "EASY", 2, 233 - 40, 106, Rgb565::BLACK);
    outside_text(&mut b, "MEDIUM", 2, 233 - 60, 246, Rgb565::BLACK);
    outside_text(&mut b, "HARD", 2, 233 - 40, 386, Rgb565::BLACK);
    assert!(a == b);
    assert_eq!(button_top(Difficulty::Easy), 60);
    assert_eq!(button_top(Difficulty::Medium), 200);
    assert_eq!(button_top(Difficulty::Hard), 340);
    assert_eq!(raw565(BLACK), 0);
}

/// The mouth as a parabola in floating point.
fn float_mouth(buf: &mut [u16], won: bool, color: u16) {
    for xi in -50..=50i32 {
        let t = xi as f32 / 50i32 as f32;
        let y_off = if won {
            (22.0_f32 * (1.0 - t * t)) as i32
        } else {
            -(22.0_f32 * (1.0 - t * t)) as i32
        };
        for dy in -3..=3 {
            buf[((273 + y_off + dy) * 466 + 233 + xi) as usize] = color;
        }
    }
}

#[test]
fn mouth_is_the_parabola() {
    for won in [true, false] {
        let mut a = vec![0u16; FRAME_LEN];
        draw_mouth(&mut a, won, 5);
        let mut b = vec![0u16; FRAME_LEN];
        float_mouth(&mut b, won, 5);
        assert!(a == b);
    }
}

#[test]
fn end_screen_is_complete() {
    for (won, color) in [(true, 0x07FFu16), (false, 0xF800)] {
        let mut a = vec![0u16; FRAME_LEN];
        draw_end_screen(&mut a, won, 9, 4);
        let mut b = vec![0u16; FRAME_LEN];
        draw_big_digit(&mut b, 194, 50, 4, 0xF800);
        fill_rect(&mut b, 226, 71, 240, 77, 0x7BEF);
        draw_big_digit(&mut b, 246, 50, 9, 0x07FF);
        paint_circle_ring(&mut b, 233, 233, 90, 5, color);
        fill_circle(&mut b, 205, 208, 10, color);
        fill_circle(&mut b, 261, 208, 10, color);
        float_mouth(&mut b, won, color);
        if won {
            outside_text(&mut b, "You win!", 3, 233 - 120, 385, Rgb565::CYAN);
        }
        assert!(a == b);
    }
}
