use kernel::font::blend;
use kernel::framebuffer::Framebuffer as PlainFramebuffer;
use kernel::graphics::framebuffer::Framebuffer;
use kernel::types::Color;

fn black_buffer(len: usize) -> Vec<Color> {
    vec![Color::black(); len]
}

fn numbered(len: usize) -> Vec<Color> {
    (0..len)
        .map(|i| Color { r: (i % 251) as u8, g: (i / 251) as u8, b: 1, _pad: 0 })
        .collect()
}

#[test]
fn color_constants() {
    assert_eq!(Color::background_color(), Color { r: 0x0F, g: 0x0F, b: 0x0F, _pad: 0 });
    assert_eq!(Color::white(), Color { r: 0xDF, g: 0xDF, b: 0xDF, _pad: 0 });
    assert_eq!(Color::black(), Color { r: 0, g: 0, b: 0, _pad: 0 });
    assert_eq!(Color::red(), Color { r: 0xAA, g: 0, b: 0, _pad: 0 });
    assert_eq!(Color::yellow(), Color { r: 0xFF, g: 0xFF, b: 0x55, _pad: 0 });
    assert_eq!(Color::light_gray(), Color { r: 0xAA, g: 0xAA, b: 0xAA, _pad: 0 });
    assert_eq!(Color::light_green(), Color { r: 0x55, g: 0xFF, b: 0x55, _pad: 0 });
}

#[test]
fn blend_scales_each_channel() {
    let c = Color { r: 100, g: 200, b: 255, _pad: 7 };
    assert_eq!(blend(c, 128), Color { r: 50, g: 100, b: 128, _pad: 0 });
}

#[test]
fn blend_zero_intensity_gives_background() {
    assert_eq!(blend(Color::white(), 0), Color::background_color());
    assert_eq!(blend(Color::red(), 0), Color::background_color());
}

#[test]
fn blend_full_intensity_keeps_color() {
    assert_eq!(blend(Color::yellow(), 255), Color::yellow());
    let c = Color { r: 1, g: 2, b: 3, _pad: 9 };
    assert_eq!(blend(c, 255), Color { r: 1, g: 2, b: 3, _pad: 0 });
}

#[test]
fn blend_never_black() {
    for i in 0..=255u8 {
        assert_ne!(blend(Color::black(), i), Color::black());
        assert_ne!(blend(Color { r: 1, g: 0, b: 0, _pad: 0 }, i), Color::black());
    }
}

#[test]
fn new_framebuffer_divides_pitch_by_pixel_size() {
    let fb = Framebuffer::new(black_buffer(12), 3, 4, 16);
    assert_eq!(fb.width(), 3);
    assert_eq!(fb.height(), 4);
    assert_eq!(fb.pixels_per_scanline(), 4);
    assert_eq!(fb.front_buffer().len(), 12);
}

#[test]
fn set_pixel_writes_row_major() {
    let mut fb = Framebuffer::new(black_buffer(16), 4, 4, 16);
    fb.set_pixel(1, 2, Color::red());
    let pixels = fb.front_buffer();
    assert_eq!(pixels[2 * 4 + 1], Color::red());
    assert_eq!(pixels.iter().filter(|p| **p == Color::red()).count(), 1);
}

#[test]
fn clear_fills_every_pixel() {
    let mut fb = Framebuffer::new(numbered(30), 5, 6, 20);
    fb.clear(Color::yellow());
    assert!(fb.front_buffer().iter().all(|p| *p == Color::yellow()));
    assert_eq!(fb.front_buffer().len(), 30);
}

#[test]
fn scroll_moves_lines_up_and_blanks_bottom() {
    // 2 pixels wide, 25 scanlines, 2 pixels per scanline, 4 spare pixels.
    let before = numbered(54);
    let mut fb = Framebuffer::new(before.clone(), 2, 25, 8);
    fb.scroll(1);
    let after = fb.front_buffer();
    // scanlines 20..25 move to 0..5
    for k in 0..10 {
        assert_eq!(after[k], before[k + 40]);
    }
    for k in 10..50 {
        assert_eq!(after[k], Color::background_color());
    }
    for k in 50..54 {
        assert_eq!(after[k], before[k]);
    }
}

#[test]
fn scroll_past_screen_clears() {
    let mut fb = Framebuffer::new(numbered(54), 2, 25, 8);
    fb.scroll(2);
    assert!(fb.front_buffer().iter().all(|p| *p == Color::background_color()));
}

#[test]
fn scroll_fits_checks_buffer_size() {
    // one line or less: scrolling clears, whatever the buffer
    assert!(Framebuffer::new(black_buffer(3), 3, 20, 400).scroll_fits());
    assert!(Framebuffer::new(black_buffer(84), 3, 21, 16).scroll_fits());
    assert!(!Framebuffer::new(black_buffer(83), 3, 21, 16).scroll_fits());
}

#[test]
fn box_fits_checks_last_visible_pixel() {
    // 3 wide, 4 high, 4 pixels per scanline, 12 pixels: the last visible
    // pixel of the screen is at 3 * 4 + 2 = 14
    let fb = Framebuffer::new(black_buffer(12), 3, 4, 16);
    assert!(fb.box_fits(0, 0, 2, 2));
    assert!(fb.box_fits(0, 0, 3, 3));
    assert!(!fb.box_fits(1, 1, 9, 9));
    // a box left of or below the screen draws nothing
    assert!(fb.box_fits(3, 0, 9, 9));
    assert!(fb.box_fits(0, 4, 9, 9));
}

#[test]
fn plain_set_pixel_and_clear() {
    let mut fb = PlainFramebuffer::new(black_buffer(20), 4, 5, 16);
    fb.set_pixel(3, 4, Color::white());
    assert_eq!(fb.front_buffer()[19], Color::white());
    fb.clear(Color::red());
    assert!(fb.front_buffer().iter().all(|p| *p == Color::red()));
}

#[test]
fn plain_put_char_draws_inside_its_box() {
    let (w, h) = (10usize, 20usize);
    let mut fb = PlainFramebuffer::new(black_buffer(w * h), w as u64, h as u64, (w * 4) as u64);
    fb.put_char_at('A', 2, 1, Color::white());
    let pixels = fb.front_buffer();
    for y in 0..h {
        for x in 0..w {
            let inside = (2..9).contains(&x) && (1..17).contains(&y);
            let p = pixels[y * w + x];
            if inside {
                assert_ne!(p, Color::black());
            } else {
                assert_eq!(p, Color::black());
            }
        }
    }
    // the glyph of 'A' has some foreground
    assert!(pixels.iter().any(|p| *p != Color::black() && *p != Color::background_color()));
}

#[test]
fn plain_put_char_clips_at_edges() {
    let (w, h) = (5usize, 5usize);
    let mut fb = PlainFramebuffer::new(black_buffer(w * h), w as u64, h as u64, (w * 4) as u64);
    fb.put_char_at('#', 2, 2, Color::white());
    let pixels = fb.front_buffer();
    for y in 0..h {
        for x in 0..w {
            let inside = x >= 2 && y >= 2;
            assert_eq!(pixels[y * w + x] != Color::black(), inside);
        }
    }
}

#[test]
fn plain_put_char_without_glyph_draws_nothing() {
    let mut fb = PlainFramebuffer::new(black_buffer(400), 20, 20, 80);
    fb.put_char_at('\u{263A}', 0, 0, Color::white());
    assert!(fb.front_buffer().iter().all(|p| *p == Color::black()));
}

#[test]
fn scrolling_twice_equals_scrolling_by_the_sum() {
    let before = numbered(3 * 45 + 3);
    let mut stepwise = Framebuffer::new(before.clone(), 3, 45, 12);
    stepwise.scroll(1);
    stepwise.scroll(1);
    let mut at_once = Framebuffer::new(before, 3, 45, 12);
    at_once.scroll(2);
    assert_eq!(stepwise.front_buffer(), at_once.front_buffer());
}

#[test]
fn scrolling_off_the_screen_in_two_steps_clears_a_tight_buffer() {
    // 50 scanlines, exactly 50 * 2 pixels: 40 + 20 lines move everything off
    let before = numbered(100);
    let mut stepwise = Framebuffer::new(before.clone(), 2, 50, 8);
    stepwise.scroll(2);
    stepwise.scroll(1);
    let mut at_once = Framebuffer::new(before, 2, 50, 8);
    at_once.scroll(3);
    assert_eq!(stepwise.front_buffer(), at_once.front_buffer());
    assert!(at_once.front_buffer().iter().all(|p| *p == Color::background_color()));
}
