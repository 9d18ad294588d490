use kernel::graphics::framebuffer::Framebuffer;
use kernel::graphics::terminal::{LogLevel, Terminal, TerminalLogger};
use kernel::types::Color;

const W: usize = 90;
const H: usize = 60;

fn screen() -> Framebuffer {
    Framebuffer::new(vec![Color::black(); W * H], W as u64, H as u64, (W * 4) as u64)
}

fn cell_pixels(fb: &Framebuffer, col: usize, row: usize) -> Vec<Color> {
    let mut out = Vec::new();
    for y in row * 20..row * 20 + 20 {
        for x in col * 9..col * 9 + 9 {
            out.push(fb.front_buffer()[y * W + x]);
        }
    }
    out
}

#[test]
fn new_terminal_covers_framebuffer() {
    let fb = screen();
    let t = Terminal::new(&fb);
    assert_eq!(t.size_in_chars(), (10, 3));
    assert_eq!(t.cursor(), (0, 0));
    assert_eq!(t.color(), Color::white());
    assert!(t.is_well_formed());
    assert!(fb.scroll_fits());
    assert!(t.text_fits("any text\n\n\n\tat all\x08", &fb));
}

#[test]
fn tiny_framebuffer_gives_no_grid() {
    let fb = Framebuffer::new(vec![Color::black(); 8 * 19], 8, 19, 32);
    let t = Terminal::new(&fb);
    assert_eq!(t.size_in_chars(), (0, 0));
    assert!(!t.is_well_formed());
}

#[test]
fn printable_bytes_advance_cursor() {
    let mut fb = screen();
    let mut t = Terminal::new(&fb);
    t.put_str("ab", &mut fb);
    assert_eq!(t.cursor(), (2, 0));
    assert!(cell_pixels(&fb, 0, 0).iter().any(|p| *p != Color::background_color()));
    assert!(cell_pixels(&fb, 2, 0).iter().all(|p| *p == Color::black()));
}

#[test]
fn newline_goes_to_next_line() {
    let mut fb = screen();
    let mut t = Terminal::new(&fb);
    t.put_str("ab\n", &mut fb);
    assert_eq!(t.cursor(), (0, 1));
}

#[test]
fn tab_moves_four_cells() {
    let mut fb = screen();
    let mut t = Terminal::new(&fb);
    t.put_str("\t", &mut fb);
    assert_eq!(t.cursor(), (4, 0));
    t.put_str("\t\t", &mut fb);
    // 4 + 4 = 8 fits, 8 + 4 = 12 wraps to the next line
    assert_eq!(t.cursor(), (0, 1));
}

#[test]
fn full_line_wraps() {
    let mut fb = screen();
    let mut t = Terminal::new(&fb);
    t.put_str("0123456789", &mut fb);
    assert_eq!(t.cursor(), (0, 1));
}

#[test]
fn backspace_blanks_previous_cell() {
    let mut fb = screen();
    let mut t = Terminal::new(&fb);
    t.put_str("ab\x08", &mut fb);
    assert_eq!(t.cursor(), (1, 0));
    assert!(cell_pixels(&fb, 1, 0).iter().all(|p| *p == Color::background_color()));
    assert!(cell_pixels(&fb, 0, 0).iter().any(|p| *p != Color::background_color()));
}

#[test]
fn backspace_at_line_start_goes_to_end_of_line_above() {
    let mut fb = screen();
    let mut t = Terminal::new(&fb);
    t.put_str("\n\x08", &mut fb);
    assert_eq!(t.cursor(), (9, 0));
    t.put_str("\x08\x08", &mut fb);
    assert_eq!(t.cursor(), (7, 0));
}

#[test]
fn backspace_on_first_cell_stays_on_first_line() {
    let mut fb = screen();
    let mut t = Terminal::new(&fb);
    t.put_str("\x08", &mut fb);
    assert_eq!(t.cursor(), (9, 0));
}

#[test]
fn backspace_returns_cursor_after_char() {
    let mut fb = screen();
    let mut t = Terminal::new(&fb);
    t.put_str("abc\n012345678", &mut fb);
    let at = t.cursor();
    t.put_str("x\x08", &mut fb);
    assert_eq!(t.cursor(), at);
    t.put_str("y", &mut fb);
    let at = t.cursor();
    assert_eq!(at, (0, 2));
    t.put_str("z\x08", &mut fb);
    assert_eq!(t.cursor(), at);
}

#[test]
fn newline_on_last_line_scrolls() {
    let mut fb = screen();
    let mut t = Terminal::new(&fb);
    t.put_str("\nA", &mut fb);
    let snapshot = fb.front_buffer().to_vec();
    t.put_str("\n\n", &mut fb);
    assert_eq!(t.cursor(), (0, 2));
    let after = fb.front_buffer();
    for k in 0..(2 * 20 * W) {
        assert_eq!(after[k], snapshot[k + 20 * W]);
    }
    for k in (2 * 20 * W)..(H * W) {
        assert_eq!(after[k], Color::background_color());
    }
}

#[test]
fn writing_in_pieces_equals_writing_at_once() {
    let mut fb1 = screen();
    let mut t1 = Terminal::new(&fb1);
    t1.put_str("hello\tw", &mut fb1);
    t1.put_str("orld\n\x08!!", &mut fb1);
    let mut fb2 = screen();
    let mut t2 = Terminal::new(&fb2);
    t2.put_str("hello\tworld\n\x08!!", &mut fb2);
    assert_eq!(t1.cursor(), t2.cursor());
    assert_eq!(fb1.front_buffer(), fb2.front_buffer());
}

#[test]
fn cursor_does_not_depend_on_screen_content() {
    let mut fb1 = screen();
    let mut fb2 = Framebuffer::new(vec![Color::red(); W * H], W as u64, H as u64, (W * 4) as u64);
    let mut t1 = Terminal::new(&fb1);
    let mut t2 = Terminal::new(&fb2);
    t1.put_str("some text\nmore\x08 text", &mut fb1);
    t2.put_str("some text\nmore\x08 text", &mut fb2);
    assert_eq!(t1.cursor(), t2.cursor());
}

#[test]
fn long_text_keeps_cursor_on_grid() {
    let mut fb = screen();
    let mut t = Terminal::new(&fb);
    for _ in 0..20 {
        t.put_str("The quick brown fox\tjumps\x08\x08 over\n", &mut fb);
        assert!(t.is_well_formed());
        let (col, row) = t.cursor();
        assert!(col < 10 && row < 3);
    }
}

#[test]
fn text_color_tints_glyphs() {
    let mut fb = screen();
    let mut t = Terminal::new(&fb);
    t.set_color(Color::red());
    t.put_str("M", &mut fb);
    let cell = cell_pixels(&fb, 0, 0);
    assert!(cell.iter().all(|p| p.g == 0 || *p == Color::background_color()));
    assert!(cell.iter().any(|p| p.r > 0x0F));
}

#[test]
fn clear_resets_cursor_and_screen() {
    let mut fb = screen();
    let mut t = Terminal::new(&fb);
    t.put_str("abc\ndef", &mut fb);
    t.clear(&mut fb);
    assert_eq!(t.cursor(), (0, 0));
    assert!(fb.front_buffer().iter().all(|p| *p == Color::background_color()));
}

#[test]
fn level_names_and_colors() {
    assert_eq!(LogLevel::Error.as_str(), "ERROR");
    assert_eq!(LogLevel::Warn.as_str(), "WARN");
    assert_eq!(LogLevel::Info.as_str(), "INFO");
    assert_eq!(LogLevel::Debug.as_str(), "DEBUG");
    assert_eq!(LogLevel::Trace.as_str(), "TRACE");
    assert_eq!(LogLevel::Error.line_color(), Color::red());
    assert_eq!(LogLevel::Warn.line_color(), Color::yellow());
    assert_eq!(LogLevel::Info.line_color(), Color::light_gray());
    assert_eq!(LogLevel::Debug.line_color(), Color::light_green());
    assert_eq!(LogLevel::Trace.line_color(), Color::white());
}

#[test]
fn logger_writes_coloured_line() {
    let logger = TerminalLogger;
    assert!(logger.enabled());
    let mut fb1 = screen();
    let mut t1 = Terminal::new(&fb1);
    logger.log(LogLevel::Error, "hi", &mut t1, &mut fb1);
    assert_eq!(t1.color(), Color::red());
    // "[ERROR] hi" fills the 10-cell line, the newline ends the next one
    assert_eq!(t1.cursor(), (0, 2));

    let mut fb2 = screen();
    let mut t2 = Terminal::new(&fb2);
    t2.set_color(Color::red());
    t2.put_str("[ERROR] hi\n", &mut fb2);
    assert_eq!(fb1.front_buffer(), fb2.front_buffer());
}

#[test]
fn padded_scanlines_draw_upper_lines() {
    // 100 pixels per scanline, but only width x height pixels of buffer
    let mut fb = Framebuffer::new(vec![Color::black(); W * H], W as u64, H as u64, 400);
    let mut t = Terminal::new(&fb);
    assert!(t.text_fits("ab\n", &fb));
    t.put_str("ab\n", &mut fb);
    assert_eq!(t.cursor(), (0, 1));
    assert!(fb.front_buffer()[0..20 * 100].iter().any(|p| *p != Color::black()));
    // the bottom line reaches past the buffer, and so does scrolling
    assert!(!t.text_fits("\nx", &fb));
    assert!(!t.text_fits("\n\n", &fb));
    assert!(t.text_fits("\n", &fb));
}

#[test]
fn grid_inside_screen_fits_any_text() {
    // padded scanlines, with a buffer that holds every scanline
    let fb = Framebuffer::new(vec![Color::black(); 100 * H], W as u64, H as u64, 400);
    let t = Terminal::new(&fb);
    for text in ["", "x", "\n\n\n\n", "\x08\x08\t\tabcdefghijklmnop\n", "~~~~~~~~~~~~~~~~~~~~~~~~~~~~~~~"] {
        assert!(t.text_fits(text, &fb));
    }
}
