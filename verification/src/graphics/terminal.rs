//! A text terminal on the framebuffer: a cursor over a grid of glyph cells,
//! text written byte by byte, scrolling at the bottom, and coloured log lines.

use vstd::prelude::*;

use crate::font::{
    apply_writes, blend, blended, glyph_raster, glyph_writes, has_glyph, lemma_apply_push,
    lemma_concat_push, lemma_glyph_pixels,
    lemma_glyph_writes_cut, lemma_glyph_writes_step, lemma_row_writes_step, raster, raster_width,
    row_writes, GlyphHeight,
};
use crate::graphics::framebuffer::{Framebuffer, FramebufferView};
use crate::types::Color;
use vstd::string::StringSliceAdditionalSpecFns;
use vstd::utf8::{is_ascii_chars, is_ascii_chars_encode_utf8};

verus! {

/// What a terminal holds: the cursor cell `(col, row)`, the size of the grid
/// in cells, the size of a cell in pixels, and the text colour.
pub struct TerminalView {
    pub row: u32,
    pub col: u32,
    pub width_in_chars: u32,
    pub height_in_chars: u32,
    pub char_width: u32,
    pub char_height: u32,
    pub color: Color,
}

impl TerminalView {
    /// The grid has at least one cell, the cursor is on the grid, the cells
    /// are the size of the 20-pixel glyphs, and every pixel coordinate of the
    /// grid fits in 32 bits.
    pub open spec fn wf(self) -> bool {
        &&& 0 < self.width_in_chars
        &&& 0 < self.height_in_chars
        &&& self.col < self.width_in_chars
        &&& self.row < self.height_in_chars
        &&& self.char_width == GlyphHeight::Size20.columns()
        &&& self.char_height == GlyphHeight::Size20.rows()
        &&& self.width_in_chars * self.char_width <= u32::MAX
        &&& self.height_in_chars * self.char_height <= u32::MAX
    }

    /// The same terminal with the cursor at `(col, row)`.
    pub open spec fn at(self, col: int, row: int) -> TerminalView {
        TerminalView { col: col as u32, row: row as u32, ..self }
    }
}

/// The framebuffer after drawing glyph `c` of the terminal's font in cell
/// `(x, y)` in the terminal's colour; a character without a glyph draws
/// nothing.
pub open spec fn drawn_char(
    t: TerminalView,
    fb: FramebufferView,
    c: char,
    x: int,
    y: int,
) -> FramebufferView {
    match glyph_raster(c, GlyphHeight::Size20) {
        None => fb,
        Some(rows) => FramebufferView {
            pixels: apply_writes(
                fb.pixels,
                glyph_writes(
                    rows,
                    x * t.char_width,
                    y * t.char_height,
                    fb.width as int,
                    fb.height as int,
                    fb.pixels_per_scanline as int,
                    t.color,
                ),
            ),
            ..fb
        },
    }
}

/// The cursor moved right by `amount` cells. Past the end of the line it goes
/// to the start of the next line; past the last line the screen scrolls up
/// one line and the cursor stays on the last line.
pub open spec fn cursor_advanced(t: TerminalView, fb: FramebufferView, amount: int) -> (
    TerminalView,
    FramebufferView,
) {
    if t.col + amount >= t.width_in_chars {
        if t.row + 1 >= t.height_in_chars {
            (t.at(0, t.height_in_chars - 1), fb.scrolled(1))
        } else {
            (t.at(0, t.row + 1), fb)
        }
    } else {
        (t.at(t.col + amount, t.row as int), fb)
    }
}

/// The cursor moved left by `amount` cells. Before the start of a line it
/// goes to the last cell of the line above, or of the first line.
pub open spec fn cursor_retreated(t: TerminalView, amount: int) -> TerminalView {
    if t.col < amount {
        t.at(
            t.width_in_chars - 1,
            if t.row > 0 {
                t.row - 1
            } else {
                t.row as int
            },
        )
    } else {
        t.at(t.col - amount, t.row as int)
    }
}

/// The effect of writing one byte: a newline ends the line, a tab moves four
/// cells on, a backspace moves one cell back and blanks that cell, and any
/// other byte draws its character (the code point of the byte's value) at
/// the cursor and moves one cell on.
pub open spec fn after_byte(t: TerminalView, fb: FramebufferView, b: u8) -> (
    TerminalView,
    FramebufferView,
) {
    if b == 10 {
        cursor_advanced(t.at(t.width_in_chars - 1, t.row as int), fb, 1)
    } else if b == 9 {
        cursor_advanced(t, fb, 4)
    } else if b == 8 {
        let back = cursor_retreated(t, 1);
        (back, drawn_char(back, fb, ' ', back.col as int, back.row as int))
    } else {
        cursor_advanced(t, drawn_char(t, fb, b as char, t.col as int, t.row as int), 1)
    }
}

/// The effect of writing `bytes` one after the other.
pub open spec fn after_bytes(t: TerminalView, fb: FramebufferView, bytes: Seq<u8>) -> (
    TerminalView,
    FramebufferView,
)
    decreases bytes.len(),
{
    if bytes.len() == 0 {
        (t, fb)
    } else {
        let (t1, fb1) = after_bytes(t, fb, bytes.drop_last());
        after_byte(t1, fb1, bytes.last())
    }
}

/// Moving the cursor right by `amount` cells scrolls the screen: the move
/// passes the end of the last line.
pub open spec fn advance_scrolls(t: TerminalView, amount: int) -> bool {
    t.col + amount >= t.width_in_chars && t.row + 1 >= t.height_in_chars
}

/// The cursor after writing byte `b` (see `after_byte`).
pub open spec fn cursor_after_byte(t: TerminalView, b: u8) -> TerminalView {
    if b == 10 {
        cursor_advanced(t.at(t.width_in_chars - 1, t.row as int), FramebufferView::empty(), 1).0
    } else if b == 9 {
        cursor_advanced(t, FramebufferView::empty(), 4).0
    } else if b == 8 {
        cursor_retreated(t, 1)
    } else {
        cursor_advanced(t, FramebufferView::empty(), 1).0
    }
}

/// The cursor after writing `bytes` one after the other.
pub open spec fn cursor_after_bytes(t: TerminalView, bytes: Seq<u8>) -> TerminalView
    decreases bytes.len(),
{
    if bytes.len() == 0 {
        t
    } else {
        cursor_after_byte(cursor_after_bytes(t, bytes.drop_last()), bytes.last())
    }
}

/// Drawing a glyph in cell `(x, y)` writes inside the framebuffer.
pub open spec fn cell_fits(t: TerminalView, fb: FramebufferView, x: int, y: int) -> bool {
    fb.box_fits(x * t.char_width, y * t.char_height, t.char_width as int, t.char_height as int)
}

/// Writing byte `b` with the cursor at `t` stays inside the framebuffer: the
/// cell it draws in fits, and so does the scroll it causes.
pub open spec fn byte_fits(t: TerminalView, fb: FramebufferView, b: u8) -> bool {
    if b == 10 {
        advance_scrolls(t.at(t.width_in_chars - 1, t.row as int), 1) ==> fb.scroll_fits()
    } else if b == 9 {
        advance_scrolls(t, 4) ==> fb.scroll_fits()
    } else if b == 8 {
        let back = cursor_retreated(t, 1);
        cell_fits(back, fb, back.col as int, back.row as int)
    } else {
        &&& has_glyph(b as char) ==> cell_fits(t, fb, t.col as int, t.row as int)
        &&& advance_scrolls(t, 1) ==> fb.scroll_fits()
    }
}

/// Writing `bytes` from `t` stays inside the framebuffer at every byte.
pub open spec fn text_fits(t: TerminalView, fb: FramebufferView, bytes: Seq<u8>) -> bool
    decreases bytes.len(),
{
    if bytes.len() == 0 {
        true
    } else {
        text_fits(t, fb, bytes.drop_last()) && byte_fits(
            cursor_after_bytes(t, bytes.drop_last()),
            fb,
            bytes.last(),
        )
    }
}

/// The cursor part of `after_bytes` is `cursor_after_bytes`, and the
/// framebuffer keeps its size.
pub proof fn lemma_after_bytes_cursor(t: TerminalView, fb: FramebufferView, bytes: Seq<u8>)
    ensures
        after_bytes(t, fb, bytes).0 == cursor_after_bytes(t, bytes),
    decreases bytes.len(),
{
    if bytes.len() > 0 {
        lemma_after_bytes_cursor(t, fb, bytes.drop_last());
    }
}

/// Each byte of a fitting text fits where the cursor stands when it is
/// written.
pub proof fn lemma_text_fits_each(t: TerminalView, fb: FramebufferView, bytes: Seq<u8>, i: int)
    requires
        text_fits(t, fb, bytes),
        0 <= i < bytes.len(),
    ensures
        byte_fits(cursor_after_bytes(t, bytes.take(i)), fb, bytes[i]),
    decreases bytes.len(),
{
    if i == bytes.len() - 1 {
        assert(bytes.take(i) =~= bytes.drop_last());
    } else {
        lemma_text_fits_each(t, fb, bytes.drop_last(), i);
        assert(bytes.drop_last().take(i) =~= bytes.take(i));
    }
}

/// Writing `a` and then `b` moves the cursor as writing `a + b` does.
pub proof fn lemma_cursor_after_bytes_append(t: TerminalView, a: Seq<u8>, b: Seq<u8>)
    ensures
        cursor_after_bytes(t, a + b) == cursor_after_bytes(cursor_after_bytes(t, a), b),
    decreases b.len(),
{
    if b.len() == 0 {
        assert(a + b =~= a);
    } else {
        lemma_cursor_after_bytes_append(t, a, b.drop_last());
        assert((a + b).drop_last() =~= a + b.drop_last());
    }
}

/// A text `a + b` fits exactly when `a` fits and then `b` fits from where
/// `a` leaves the cursor.
pub proof fn lemma_text_fits_append(t: TerminalView, fb: FramebufferView, a: Seq<u8>, b: Seq<u8>)
    ensures
        text_fits(t, fb, a + b) == (text_fits(t, fb, a) && text_fits(
            cursor_after_bytes(t, a),
            fb,
            b,
        )),
    decreases b.len(),
{
    if b.len() == 0 {
        assert(a + b =~= a);
    } else {
        lemma_text_fits_append(t, fb, a, b.drop_last());
        assert((a + b).drop_last() =~= a + b.drop_last());
        lemma_cursor_after_bytes_append(t, a, b.drop_last());
    }
}

/// Whether a text fits depends on the framebuffer's size only.
pub proof fn lemma_text_fits_same_layout(
    t: TerminalView,
    fb1: FramebufferView,
    fb2: FramebufferView,
    bytes: Seq<u8>,
)
    requires
        fb1.same_layout(fb2),
    ensures
        text_fits(t, fb1, bytes) == text_fits(t, fb2, bytes),
    decreases bytes.len(),
{
    if bytes.len() > 0 {
        lemma_text_fits_same_layout(t, fb1, fb2, bytes.drop_last());
    }
}

/// A text terminal: a grid of `width_in_chars` x `height_in_chars` glyph
/// cells of `char_width` x `char_height` pixels, a cursor and a text colour.
pub struct Terminal {
    row: u32,
    col: u32,
    width_in_chars: u32,
    height_in_chars: u32,
    char_width: u32,
    char_height: u32,
    color: Color,
}

impl View for Terminal {
    type V = TerminalView;

    closed spec fn view(&self) -> TerminalView {
        TerminalView {
            row: self.row,
            col: self.col,
            width_in_chars: self.width_in_chars,
            height_in_chars: self.height_in_chars,
            char_width: self.char_width,
            char_height: self.char_height,
            color: self.color,
        }
    }
}

impl Terminal {
    /// A terminal covering `framebuffer` with 20-pixel glyphs, cursor in the
    /// top left cell, writing in white.
    pub fn new(framebuffer: &Framebuffer) -> (t: Terminal)
        ensures
            t@ == (TerminalView {
                row: 0,
                col: 0,
                width_in_chars: (framebuffer@.width / 9) as u32,
                height_in_chars: (framebuffer@.height / 20) as u32,
                char_width: 9,
                char_height: 20,
                color: Color::white(),
            }),
            framebuffer@.width >= 9 && framebuffer@.height >= 20 ==> t@.wf(),
    {
        let char_width = raster_width(GlyphHeight::Size20) as u32;
        let t = Terminal {
            row: 0,
            col: 0,
            width_in_chars: framebuffer.width() / char_width,
            height_in_chars: framebuffer.height() / 20,
            char_width,
            char_height: 20,
            color: Color::white(),
        };
        proof {
            let w = framebuffer@.width as int;
            let h = framebuffer@.height as int;
            assert((w / 9) * 9 <= w) by (nonlinear_arith);
            assert((h / 20) * 20 <= h) by (nonlinear_arith);
            assert(w >= 9 ==> w / 9 > 0) by (nonlinear_arith);
            assert(h >= 20 ==> h / 20 > 0) by (nonlinear_arith);
        }
        t
    }

    /// Whether the grid has a cell, the cursor is on it and the cells are the
    /// size of the glyphs (see `TerminalView::wf`).
    pub fn is_well_formed(&self) -> (ok: bool)
        ensures
            ok == self@.wf(),
    {
        self.width_in_chars > 0 && self.height_in_chars > 0 && self.col < self.width_in_chars
            && self.row < self.height_in_chars && self.char_width == 9 && self.char_height == 20
            && self.width_in_chars as u64 * 9 <= u32::MAX as u64 && self.height_in_chars as u64
            * 20 <= u32::MAX as u64
    }

    /// The text colour.
    pub fn color(&self) -> (c: Color)
        ensures
            c == self@.color,
    {
        self.color
    }

    /// Sets the text colour.
    pub fn set_color(&mut self, color: Color)
        ensures
            final(self)@ == (TerminalView { color, ..old(self)@ }),
    {
        self.color = color;
    }

    /// The cursor cell as `(col, row)`.
    pub fn cursor(&self) -> (cell: (u32, u32))
        ensures
            cell == (self@.col, self@.row),
    {
        (self.col, self.row)
    }

    /// The size of the grid as `(width_in_chars, height_in_chars)`.
    pub fn size_in_chars(&self) -> (size: (u32, u32))
        ensures
            size == (self@.width_in_chars, self@.height_in_chars),
    {
        (self.width_in_chars, self.height_in_chars)
    }

    /// Writes `s` byte by byte at the cursor (see `after_byte`).
    pub fn put_str(&mut self, s: &str, framebuffer: &mut Framebuffer)
        requires
            old(self)@.wf(),
            text_fits(old(self)@, old(framebuffer)@, s.spec_bytes()),
        ensures
            (final(self)@, final(framebuffer)@) == after_bytes(
                old(self)@,
                old(framebuffer)@,
                s.spec_bytes(),
            ),
            final(self)@.wf(),
            final(framebuffer)@.same_layout(old(framebuffer)@),
    {
        let bytes = s.as_bytes();
        let mut i: usize = 0;
        while i < bytes.len()
            invariant
                bytes@ == s.spec_bytes(),
                0 <= i <= bytes@.len(),
                (self@, framebuffer@) == after_bytes(
                    old(self)@,
                    old(framebuffer)@,
                    bytes@.take(i as int),
                ),
                self@.wf(),
                framebuffer@.same_layout(old(framebuffer)@),
                text_fits(old(self)@, old(framebuffer)@, bytes@),
            decreases bytes@.len() - i,
        {
            let byte = bytes[i];
            proof {
                assert(bytes@.take(i + 1).drop_last() =~= bytes@.take(i as int));
                lemma_text_fits_each(old(self)@, old(framebuffer)@, bytes@, i as int);
                lemma_after_bytes_cursor(old(self)@, old(framebuffer)@, bytes@.take(i as int));
                assert(byte_fits(self@, framebuffer@, byte));
            }
            if byte == 10 {
                // newline
                self.col = self.width_in_chars - 1;
                self.inc_cursor(1, framebuffer);
            } else if byte == 9 {
                // tab
                self.inc_cursor(4, framebuffer);
            } else if byte == 8 {
                // backspace
                self.dec_cursor(1);
                proof {
                    lemma_grid_cells_in_range(self@);
                }
                self.put_char_at(' ', self.col, self.row, framebuffer);
            } else {
                self.put_char_at(byte as char, self.col, self.row, framebuffer);
                self.inc_cursor(1, framebuffer);
            }
            i += 1;
        }
        proof {
            assert(bytes@.take(i as int) =~= bytes@);
        }
    }

    /// Whether writing `s` from the cursor stays inside `framebuffer` (see
    /// `text_fits`).
    pub fn text_fits(&self, s: &str, framebuffer: &Framebuffer) -> (ok: bool)
        requires
            self@.wf(),
        ensures
            ok == text_fits(self@, framebuffer@, s.spec_bytes()),
    {
        let bytes = s.as_bytes();
        let scroll_ok = framebuffer.scroll_fits();
        let mut probe = Terminal {
            row: self.row,
            col: self.col,
            width_in_chars: self.width_in_chars,
            height_in_chars: self.height_in_chars,
            char_width: self.char_width,
            char_height: self.char_height,
            color: self.color,
        };
        let mut i: usize = 0;
        while i < bytes.len()
            invariant
                bytes@ == s.spec_bytes(),
                0 <= i <= bytes@.len(),
                self@.wf(),
                probe@.wf(),
                scroll_ok == framebuffer@.scroll_fits(),
                probe@ == cursor_after_bytes(self@, bytes@.take(i as int)),
                text_fits(self@, framebuffer@, bytes@.take(i as int)),
            decreases bytes@.len() - i,
        {
            let b = bytes[i];
            proof {
                assert(bytes@.take(i + 1).drop_last() =~= bytes@.take(i as int));
                assert(bytes@.take(i + 1).last() == b);
            }
            if !probe.byte_fits(b, framebuffer, scroll_ok) {
                proof {
                    if text_fits(self@, framebuffer@, bytes@) {
                        lemma_text_fits_each(self@, framebuffer@, bytes@, i as int);
                    }
                }
                return false;
            }
            probe.step_cursor(b);
            i += 1;
        }
        proof {
            assert(bytes@.take(i as int) =~= bytes@);
        }
        true
    }

    /// Whether writing byte `b` at the cursor stays inside `framebuffer`.
    fn byte_fits(&self, b: u8, framebuffer: &Framebuffer, scroll_ok: bool) -> (ok: bool)
        requires
            self@.wf(),
            scroll_ok == framebuffer@.scroll_fits(),
        ensures
            ok == byte_fits(self@, framebuffer@, b),
    {
        let last_line = self.row + 1 >= self.height_in_chars;
        if b == 10 {
            !last_line || scroll_ok
        } else if b == 9 {
            !(self.col + 4 >= self.width_in_chars && last_line) || scroll_ok
        } else if b == 8 {
            let (col, row) = if self.col < 1 {
                (
                    self.width_in_chars - 1,
                    if self.row > 0 {
                        self.row - 1
                    } else {
                        self.row
                    },
                )
            } else {
                (self.col - 1, self.row)
            };
            framebuffer.box_fits(col * 9, row * 20, 9, 20)
        } else {
            let glyph_ok = if 0x20 <= b && b <= 0x7e {
                framebuffer.box_fits(self.col * 9, self.row * 20, 9, 20)
            } else {
                true
            };
            glyph_ok && (!(self.col + 1 >= self.width_in_chars && last_line) || scroll_ok)
        }
    }

    /// Moves the cursor as writing byte `b` does, drawing nothing.
    fn step_cursor(&mut self, b: u8)
        requires
            old(self)@.wf(),
        ensures
            final(self)@ == cursor_after_byte(old(self)@, b),
            final(self)@.wf(),
    {
        if b == 8 {
            self.dec_cursor(1);
        } else {
            let amount: u32 = if b == 9 {
                4
            } else {
                1
            };
            if b == 10 {
                self.col = self.width_in_chars - 1;
            }
            self.col += amount;
            if self.col >= self.width_in_chars {
                self.col = 0;
                self.row += 1;
                if self.row >= self.height_in_chars {
                    self.row = self.height_in_chars - 1;
                }
            }
        }
    }

    /// Clears the framebuffer to the background colour and puts the cursor in
    /// the top left cell.
    pub fn clear(&mut self, framebuffer: &mut Framebuffer)
        ensures
            final(framebuffer)@ == old(framebuffer)@.filled(Color::background_color()),
            final(self)@ == old(self)@.at(0, 0),
    {
        framebuffer.clear(Color::background_color());
        self.col = 0;
        self.row = 0;
    }

    /// Draws the glyph of `c` in cell `(x, y)` in the text colour.
    fn put_char_at(&self, c: char, x: u32, y: u32, framebuffer: &mut Framebuffer)
        requires
            self@.char_width == GlyphHeight::Size20.columns(),
            self@.char_height == GlyphHeight::Size20.rows(),
            has_glyph(c) ==> y * 20 <= u32::MAX,
            has_glyph(c) && y * 20 < old(framebuffer)@.height ==> x * 9 + 8 <= u32::MAX,
            has_glyph(c) ==> cell_fits(self@, old(framebuffer)@, x as int, y as int),
        ensures
            final(framebuffer)@ == drawn_char(self@, old(framebuffer)@, c, x as int, y as int),
            final(framebuffer)@.same_layout(old(framebuffer)@),
    {
        let glyph = raster(c, GlyphHeight::Size20);
        let rows = match glyph {
            None => {
                return ;
            },
            Some(rows) => rows,
        };
        let ghost g = rows.deep_view();
        let ghost p0 = framebuffer@.pixels;
        let ghost fbw = framebuffer@.width as int;
        let ghost fbh = framebuffer@.height as int;
        let ghost pps = framebuffer@.pixels_per_scanline as int;
        let ghost px0 = x * 9;
        let ghost py0 = y * 20;
        let fb_width = framebuffer.width();
        let fb_height = framebuffer.height();
        let fb_pps = framebuffer.pixels_per_scanline();
        assert(g.len() == 20);
        assert(g.take(20) =~= g);
        let mut ri: usize = 0;
        while ri < rows.len()
            invariant
                self@.char_width == 9,
                self@.char_height == 20,
                y * 20 <= u32::MAX,
                y * 20 < old(framebuffer)@.height ==> x * 9 + 8 <= u32::MAX,
                ri > 0 ==> y * 20 + ri - 1 < fb_height,
                g == rows.deep_view(),
                glyph_raster(c, GlyphHeight::Size20) == Some(g),
                rows@.len() == 20,
                forall|i: int| 0 <= i < rows@.len() ==> (#[trigger] rows@[i])@.len() == 9,
                0 <= ri <= rows@.len(),
                fbw == fb_width,
                fbh == fb_height,
                pps == fb_pps,
                px0 == x * 9,
                py0 == y * 20,
                cell_fits(self@, old(framebuffer)@, x as int, y as int),
                p0 == old(framebuffer)@.pixels,
                fb_width == old(framebuffer)@.width,
                fb_height == old(framebuffer)@.height,
                fb_pps == old(framebuffer)@.pixels_per_scanline,
                framebuffer@.same_layout(old(framebuffer)@),
                framebuffer@.pixels == apply_writes(
                    p0,
                    glyph_writes(g.take(ri as int), px0, py0, fbw, fbh, pps, self@.color),
                ),
                g.take(20) == g,
            ensures
                framebuffer@.same_layout(old(framebuffer)@),
                framebuffer@.pixels == apply_writes(
                    p0,
                    glyph_writes(g, px0, py0, fbw, fbh, pps, self@.color),
                ),
            decreases rows@.len() - ri,
        {
            let py = y * self.char_height + ri as u32;
            if py >= fb_height {
                proof {
                    lemma_glyph_writes_cut(g, ri as int, px0, py0, fbw, fbh, pps, self@.color);
                }
                break;
            }
            let row = &rows[ri];
            let ghost gr = g[ri as int];
            assert(gr == row@);
            let ghost before = glyph_writes(
                g.take(ri as int),
                px0,
                py0,
                fbw,
                fbh,
                pps,
                self@.color,
            );
            let mut ci: usize = 0;
            while ci < row.len()
                invariant
                    self@.char_width == 9,
                    self@.char_height == 20,
                    x * 9 + 8 <= u32::MAX,
                    row@.len() == 9,
                    gr == row@,
                    0 <= ci <= row@.len(),
                    py == y * 20 + ri,
                    py < fb_height,
                    fbw == fb_width,
                    fbh == fb_height,
                    pps == fb_pps,
                    px0 == x * 9,
                    cell_fits(self@, old(framebuffer)@, x as int, y as int),
                    ri < 20,
                    py0 == y * 20,
                    fb_width == old(framebuffer)@.width,
                    fb_height == old(framebuffer)@.height,
                    fb_pps == old(framebuffer)@.pixels_per_scanline,
                    framebuffer@.same_layout(old(framebuffer)@),
                    framebuffer@.pixels == apply_writes(
                        p0,
                        before + row_writes(
                            gr.take(ci as int),
                            px0,
                            py as int,
                            fbw,
                            pps,
                            self@.color,
                        ),
                    ),
                decreases row@.len() - ci,
            {
                let px = x * self.char_width + ci as u32;
                proof {
                    lemma_row_writes_step(gr, ci as int, px0, py as int, fbw, pps, self@.color);
                }
                if px < fb_width {
                    let blended = blend(self.color, row[ci]);
                    proof {
                        let h = fb_height as int;
                        let w = fb_width as int;
                        let lx = if px0 + 8 < w {
                            px0 + 8
                        } else {
                            w - 1
                        };
                        let ly = if py0 + 19 < h {
                            py0 + 19
                        } else {
                            h - 1
                        };
                        assert(old(framebuffer)@.box_last_index(px0, py0, 9, 20) == ly * pps + lx);
                        assert(py * pps <= ly * pps) by (nonlinear_arith)
                            requires
                                py <= ly,
                                pps >= 0,
                        ;
                        let w_new = (py * pps + px, blended);
                        lemma_concat_push(
                            before,
                            row_writes(gr.take(ci as int), px0, py as int, fbw, pps, self@.color),
                            w_new,
                        );
                        lemma_apply_push(
                            p0,
                            before + row_writes(
                                gr.take(ci as int),
                                px0,
                                py as int,
                                fbw,
                                pps,
                                self@.color,
                            ),
                            w_new,
                        );
                    }
                    framebuffer.set_pixel(px, py, blended);
                }
                ci += 1;
            }
            proof {
                assert(gr.take(ci as int) =~= gr);
                lemma_glyph_writes_step(g, ri as int, px0, py0, fbw, fbh, pps, self@.color);
            }
            ri += 1;
        }
        assert(framebuffer@ =~= drawn_char(self@, old(framebuffer)@, c, x as int, y as int));
    }

    /// Moves the cursor `amount` cells right (see `cursor_advanced`).
    fn inc_cursor(&mut self, amount: u32, framebuffer: &mut Framebuffer)
        requires
            old(self)@.col + amount <= u32::MAX,
            old(self)@.col + amount >= old(self)@.width_in_chars ==> old(self)@.row + 1
                <= u32::MAX,
            advance_scrolls(old(self)@, amount as int) ==> old(self)@.height_in_chars >= 1
                && old(framebuffer)@.scroll_fits(),
        ensures
            (final(self)@, final(framebuffer)@) == cursor_advanced(
                old(self)@,
                old(framebuffer)@,
                amount as int,
            ),
            old(self)@.wf() ==> final(self)@.wf(),
            final(framebuffer)@.same_layout(old(framebuffer)@),
    {
        self.col += amount;
        if self.col >= self.width_in_chars {
            self.col = 0;
            self.row += 1;
            if self.row >= self.height_in_chars {
                framebuffer.scroll(1);
                self.row = self.height_in_chars - 1;
            }
        }
    }

    /// Moves the cursor `amount` cells left (see `cursor_retreated`).
    fn dec_cursor(&mut self, amount: u32)
        requires
            old(self)@.col <= i32::MAX,
            amount <= i32::MAX,
            old(self)@.col < amount ==> old(self)@.width_in_chars >= 1,
        ensures
            final(self)@ == cursor_retreated(old(self)@, amount as int),
            old(self)@.wf() ==> final(self)@.wf(),
    {
        if (self.col as i32 - amount as i32) < 0 {
            self.col = self.width_in_chars - 1;
            if self.row > 0 {
                self.row -= 1;
            }
        } else {
            self.col -= amount;
        }
    }
}

} // verus!

verus! {

/// Writing `a` and then `b` has the same effect as writing `a` followed by
/// `b` in one go.
pub proof fn lemma_after_bytes_append(
    t: TerminalView,
    fb: FramebufferView,
    a: Seq<u8>,
    b: Seq<u8>,
)
    ensures
        after_bytes(t, fb, a + b) == after_bytes(
            after_bytes(t, fb, a).0,
            after_bytes(t, fb, a).1,
            b,
        ),
    decreases b.len(),
{
    if b.len() == 0 {
        assert(a + b =~= a);
    } else {
        lemma_after_bytes_append(t, fb, a, b.drop_last());
        assert((a + b).drop_last() =~= a + b.drop_last());
        assert((a + b).last() == b.last());
    }
}

/// Where the cursor ends up depends on the text alone, not on what the
/// framebuffer shows.
pub proof fn lemma_after_bytes_cursor_independent_of_pixels(
    t: TerminalView,
    fb1: FramebufferView,
    fb2: FramebufferView,
    bytes: Seq<u8>,
)
    ensures
        after_bytes(t, fb1, bytes).0 == after_bytes(t, fb2, bytes).0,
    decreases bytes.len(),
{
    if bytes.len() > 0 {
        lemma_after_bytes_cursor_independent_of_pixels(t, fb1, fb2, bytes.drop_last());
    }
}

/// Writing one byte keeps the cursor on the grid and leaves the grid, the
/// cell size and the text colour as they were.
pub proof fn lemma_after_byte_keeps_terminal(t: TerminalView, fb: FramebufferView, b: u8)
    requires
        t.wf(),
    ensures
        after_byte(t, fb, b).0.wf(),
        after_byte(t, fb, b).0.at(0, 0) == t.at(0, 0),
{
}

/// Whatever is written, the cursor stays on the grid, and the grid, the
/// cell size and the text colour stay as they were.
pub proof fn lemma_after_bytes_keeps_terminal(t: TerminalView, fb: FramebufferView, bytes: Seq<u8>)
    requires
        t.wf(),
    ensures
        after_bytes(t, fb, bytes).0.wf(),
        after_bytes(t, fb, bytes).0.at(0, 0) == t.at(0, 0),
    decreases bytes.len(),
{
    if bytes.len() > 0 {
        lemma_after_bytes_keeps_terminal(t, fb, bytes.drop_last());
        let (t1, fb1) = after_bytes(t, fb, bytes.drop_last());
        lemma_after_byte_keeps_terminal(t1, fb1, bytes.last());
    }
}

/// A newline puts the cursor at the start of the next line, or of the last
/// line when the cursor was on the last line (the screen then scrolls).
pub proof fn lemma_newline(t: TerminalView, fb: FramebufferView)
    requires
        t.wf(),
    ensures
        after_byte(t, fb, 10).0 == t.at(
            0,
            if t.row + 1 < t.height_in_chars {
                t.row + 1
            } else {
                t.row as int
            },
        ),
        t.row + 1 >= t.height_in_chars ==> after_byte(t, fb, 10).1 == fb.scrolled(1),
        t.row + 1 < t.height_in_chars ==> after_byte(t, fb, 10).1 == fb,
{
}

/// A backspace after a character takes the cursor back to where the
/// character was written, unless writing it scrolled the screen (the
/// character was written in the very last cell).
pub proof fn lemma_backspace_returns_cursor(t: TerminalView, fb: FramebufferView, b: u8)
    requires
        t.wf(),
        b != 8 && b != 9 && b != 10,
        !(t.row + 1 == t.height_in_chars && t.col + 1 == t.width_in_chars),
    ensures
        after_byte(after_byte(t, fb, b).0, after_byte(t, fb, b).1, 8).0 == t,
{
}

/// The bytes of a string of ASCII characters are its characters' codes.
proof fn lemma_ascii_str_bytes(s: &str)
    requires
        is_ascii_chars(s@),
    ensures
        s.spec_bytes() == Seq::new(s@.len(), |i: int| s@[i] as u8),
{
    is_ascii_chars_encode_utf8(s@);
    assert(s.spec_bytes() =~= Seq::new(s@.len(), |i: int| s@[i] as u8));
}

/// Every cell of a well-formed grid has 32-bit pixel coordinates.
pub proof fn lemma_grid_cells_in_range(t: TerminalView)
    requires
        t.wf(),
    ensures
        t.col * 9 + 8 <= u32::MAX,
        t.row * 20 + 19 <= u32::MAX,
{
    assert(t.width_in_chars * t.char_width == t.width_in_chars * 9);
    assert(t.height_in_chars * t.char_height == t.height_in_chars * 20);
}

/// Moving the cursor one cell back undoes moving it one cell on, unless that
/// move passed the end of the last line and scrolled the screen; moving on
/// without scrolling leaves the framebuffer as it was.
pub proof fn lemma_retreat_undoes_advance(t: TerminalView, fb: FramebufferView)
    requires
        1 <= t.width_in_chars,
        1 <= t.height_in_chars,
        t.col < t.width_in_chars,
        t.row < t.height_in_chars,
        !advance_scrolls(t, 1),
    ensures
        cursor_retreated(cursor_advanced(t, fb, 1).0, 1) == t,
        cursor_advanced(t, fb, 1).1 == fb,
{
}

/// The glyph cell `(x, y)` of a grid that lies inside the visible screen,
/// on a screen whose scanlines hold its width and whose buffer holds its
/// height, fits in the buffer.
proof fn lemma_grid_cell_fits(t: TerminalView, fb: FramebufferView, x: int, y: int)
    requires
        t.wf(),
        fb.height * fb.pixels_per_scanline <= fb.pixels.len(),
        fb.height * fb.pixels_per_scanline <= u32::MAX,
        fb.width <= fb.pixels_per_scanline,
        t.width_in_chars * t.char_width <= fb.width,
        t.height_in_chars * t.char_height <= fb.height,
        0 <= x < t.width_in_chars,
        0 <= y < t.height_in_chars,
    ensures
        cell_fits(t, fb, x, y),
{
    let w = fb.width as int;
    let h = fb.height as int;
    let p = fb.pixels_per_scanline as int;
    assert(t.width_in_chars * t.char_width == t.width_in_chars * 9);
    assert(t.height_in_chars * t.char_height == t.height_in_chars * 20);
    let px = x * 9 + 8;
    let py = y * 20 + 19;
    assert(px < w && py < h);
    assert(fb.box_last_index(x * 9, y * 20, 9, 20) == py * p + px);
    assert(py * p + px < h * p) by (nonlinear_arith)
        requires
            py <= h - 1,
            px < w,
            w <= p,
            0 <= py,
            0 <= px,
    ;
}

/// A terminal whose grid lies inside the visible screen, on a screen whose
/// scanlines hold its width and whose buffer holds all its scanlines with
/// 32-bit indices, can write any text: every cell drawn and every scroll
/// stays inside the buffer.
pub proof fn lemma_grid_inside_screen_fits(t: TerminalView, fb: FramebufferView, bytes: Seq<u8>)
    requires
        t.wf(),
        fb.height * fb.pixels_per_scanline <= fb.pixels.len(),
        fb.height * fb.pixels_per_scanline <= u32::MAX,
        fb.width <= fb.pixels_per_scanline,
        t.width_in_chars * t.char_width <= fb.width,
        t.height_in_chars * t.char_height <= fb.height,
    ensures
        text_fits(t, fb, bytes),
    decreases bytes.len(),
{
    if bytes.len() > 0 {
        let rest = bytes.drop_last();
        lemma_grid_inside_screen_fits(t, fb, rest);
        lemma_after_bytes_keeps_terminal(t, fb, rest);
        lemma_after_bytes_cursor(t, fb, rest);
        let c = cursor_after_bytes(t, rest);
        assert(c.wf());
        assert(c.at(0, 0) == t.at(0, 0));
        assert(c.width_in_chars == t.width_in_chars && c.height_in_chars == t.height_in_chars
            && c.char_width == t.char_width && c.char_height == t.char_height);
        let b = bytes.last();
        if b == 8 {
            lemma_after_byte_keeps_terminal(c, fb, 8);
            let back = cursor_retreated(c, 1);
            assert(back == after_byte(c, fb, 8).0);
            assert(back.at(0, 0) == c.at(0, 0));
            lemma_grid_cell_fits(back, fb, back.col as int, back.row as int);
        } else {
            lemma_grid_cell_fits(c, fb, c.col as int, c.row as int);
        }
    }
}

/// Writing a printable byte `b` draws, in the cursor's cell and in the text
/// colour, the glyph of the character whose code is `b` itself: pixel
/// `(9 * col + dx, 20 * row + dy)` becomes `blended(color, glyph[dy][dx])`.
/// This holds where the byte does not scroll the screen, scanlines hold the
/// visible width and the buffer holds every scanline.
pub proof fn lemma_printable_byte_draws_its_glyph(
    t: TerminalView,
    fb: FramebufferView,
    b: u8,
    glyph: Seq<Seq<u8>>,
    dy: int,
    dx: int,
)
    requires
        t.wf(),
        b != 8 && b != 9 && b != 10,
        glyph_raster(b as char, GlyphHeight::Size20) == Some(glyph),
        !advance_scrolls(t, 1),
        fb.width <= fb.pixels_per_scanline,
        fb.height * fb.pixels_per_scanline <= fb.pixels.len(),
        0 <= dy < glyph.len(),
        0 <= dx < glyph[dy].len(),
        t.col * 9 + dx < fb.width,
        t.row * 20 + dy < fb.height,
    ensures
        after_byte(t, fb, b).1.pixels[fb.pixel_index(t.col * 9 + dx, t.row * 20 + dy)]
            == blended(t.color, glyph[dy][dx]),
        after_byte(t, fb, b).1.pixels.len() == fb.pixels.len(),
{
    assert(t.col * t.char_width == t.col * 9);
    assert(t.row * t.char_height == t.row * 20);
    lemma_glyph_pixels(
        fb.pixels,
        glyph,
        t.col * 9,
        t.row * 20,
        fb.width as int,
        fb.height as int,
        fb.pixels_per_scanline as int,
        t.color,
    );
    assert(glyph[dy][dx] == glyph[dy][dx]);
}

/// Every log line is `[`, the level's name, `] `, the message and a
/// newline, for every level: it is never empty and always names its level.
pub proof fn lemma_log_line_layout(level: LogLevel, message: Seq<u8>)
    ensures
        level.name().len() >= 4,
        log_line(level, message).len() == level.name().len() + message.len() + 4,
        log_line(level, message)[0] == 91u8,
        log_line(level, message).subrange(1, 1 + level.name().len() as int) == level.name(),
        log_line(level, message)[1 + level.name().len() as int] == 93u8,
        log_line(level, message)[2 + level.name().len() as int] == 32u8,
        log_line(level, message).subrange(
            3 + level.name().len() as int,
            3 + level.name().len() + message.len() as int,
        ) == message,
        log_line(level, message).last() == 10u8,
{
    let n = level.name().len() as int;
    let line = log_line(level, message);
    assert(line.subrange(1, 1 + n) =~= level.name());
    assert(line.subrange(3 + n, 3 + n + message.len()) =~= message);
}

/// The severity of a log line.
#[derive(Copy, Clone, PartialEq, Eq, Structural, Debug)]
pub enum LogLevel {
    Error,
    Warn,
    Info,
    Debug,
    Trace,
}

impl LogLevel {
    /// The level's name as it appears in a log line, in ASCII bytes.
    pub open spec fn name(self) -> Seq<u8> {
        match self {
            LogLevel::Error => seq![69u8, 82u8, 82u8, 79u8, 82u8],
            LogLevel::Warn => seq![87u8, 65u8, 82u8, 78u8],
            LogLevel::Info => seq![73u8, 78u8, 70u8, 79u8],
            LogLevel::Debug => seq![68u8, 69u8, 66u8, 85u8, 71u8],
            LogLevel::Trace => seq![84u8, 82u8, 65u8, 67u8, 69u8],
        }
    }

    /// The colour that lines of this level are written in.
    pub open spec fn color(self) -> Color {
        match self {
            LogLevel::Error => Color::red(),
            LogLevel::Warn => Color::yellow(),
            LogLevel::Info => Color::light_gray(),
            LogLevel::Debug => Color::light_green(),
            LogLevel::Trace => Color::white(),
        }
    }

    /// The level's name: `ERROR`, `WARN`, `INFO`, `DEBUG` or `TRACE`.
    pub fn as_str(&self) -> (s: &'static str)
        ensures
            s.spec_bytes() == self.name(),
    {
        match self {
            LogLevel::Error => {
                let s = "ERROR";
                proof {
                    reveal_strlit("ERROR");
                    lemma_ascii_str_bytes(s);
                }
                s
            },
            LogLevel::Warn => {
                let s = "WARN";
                proof {
                    reveal_strlit("WARN");
                    lemma_ascii_str_bytes(s);
                }
                s
            },
            LogLevel::Info => {
                let s = "INFO";
                proof {
                    reveal_strlit("INFO");
                    lemma_ascii_str_bytes(s);
                }
                s
            },
            LogLevel::Debug => {
                let s = "DEBUG";
                proof {
                    reveal_strlit("DEBUG");
                    lemma_ascii_str_bytes(s);
                }
                s
            },
            LogLevel::Trace => {
                let s = "TRACE";
                proof {
                    reveal_strlit("TRACE");
                    lemma_ascii_str_bytes(s);
                }
                s
            },
        }
    }

    /// The colour that lines of this level are written in.
    pub fn line_color(&self) -> (c: Color)
        ensures
            c == self.color(),
    {
        match self {
            LogLevel::Error => Color::red(),
            LogLevel::Warn => Color::yellow(),
            LogLevel::Info => Color::light_gray(),
            LogLevel::Debug => Color::light_green(),
            LogLevel::Trace => Color::white(),
        }
    }
}

/// The bytes of the log line `[LEVEL] message` and its newline.
pub open spec fn log_line(level: LogLevel, message: Seq<u8>) -> Seq<u8> {
    seq![91u8] + level.name() + seq![93u8, 32u8] + message + seq![10u8]
}

/// Writes log records to the terminal, one coloured line each.
pub struct TerminalLogger;

impl TerminalLogger {
    /// Every record is written: no level is filtered out.
    pub fn enabled(&self) -> (r: bool)
        ensures
            r,
    {
        true
    }

    /// Writes `[LEVEL] message` and a newline in the level's colour; the
    /// terminal keeps that colour afterwards.
    pub fn log(
        &self,
        level: LogLevel,
        message: &str,
        terminal: &mut Terminal,
        framebuffer: &mut Framebuffer,
    )
        requires
            old(terminal)@.wf(),
            text_fits(
                TerminalView { color: level.color(), ..old(terminal)@ },
                old(framebuffer)@,
                log_line(level, message.spec_bytes()),
            ),
        ensures
            (final(terminal)@, final(framebuffer)@) == after_bytes(
                TerminalView { color: level.color(), ..old(terminal)@ },
                old(framebuffer)@,
                log_line(level, message.spec_bytes()),
            ),
    {
        if !self.enabled() {
            return ;
        }
        terminal.set_color(level.line_color());
        let ghost t0 = terminal@;
        let ghost fb0 = framebuffer@;
        let open = "[";
        let close = "] ";
        let newline = "\n";
        proof {
            reveal_strlit("[");
            reveal_strlit("] ");
            reveal_strlit("\n");
            lemma_ascii_str_bytes(open);
            lemma_ascii_str_bytes(close);
            lemma_ascii_str_bytes(newline);
        }
        let name = level.as_str();
        let ghost s1 = seq![91u8];
        let ghost s2 = s1 + level.name();
        let ghost s3 = s2 + seq![93u8, 32u8];
        let ghost s4 = s3 + message.spec_bytes();
        assert(open.spec_bytes() =~= s1);
        assert(close.spec_bytes() =~= seq![93u8, 32u8]);
        assert(newline.spec_bytes() =~= seq![10u8]);
        proof {
            assert(log_line(level, message.spec_bytes()) =~= s4 + seq![10u8]);
            lemma_text_fits_append(t0, fb0, s4, seq![10u8]);
            lemma_text_fits_append(t0, fb0, s3, message.spec_bytes());
            lemma_text_fits_append(t0, fb0, s2, seq![93u8, 32u8]);
            lemma_text_fits_append(t0, fb0, s1, level.name());
            assert(s1 =~= Seq::<u8>::empty() + s1);
            lemma_text_fits_append(t0, fb0, Seq::<u8>::empty(), s1);
            lemma_after_bytes_cursor(t0, fb0, s1);
            lemma_after_bytes_cursor(t0, fb0, s2);
            lemma_after_bytes_cursor(t0, fb0, s3);
            lemma_after_bytes_cursor(t0, fb0, s4);
        }
        terminal.put_str(open, framebuffer);
        assert((terminal@, framebuffer@) == after_bytes(t0, fb0, s1));
        proof {
            lemma_text_fits_same_layout(terminal@, fb0, framebuffer@, level.name());
        }
        terminal.put_str(name, framebuffer);
        proof {
            lemma_after_bytes_append(t0, fb0, s1, level.name());
        }
        assert((terminal@, framebuffer@) == after_bytes(t0, fb0, s2));
        proof {
            lemma_text_fits_same_layout(terminal@, fb0, framebuffer@, seq![93u8, 32u8]);
        }
        terminal.put_str(close, framebuffer);
        proof {
            lemma_after_bytes_append(t0, fb0, s2, seq![93u8, 32u8]);
        }
        assert((terminal@, framebuffer@) == after_bytes(t0, fb0, s3));
        proof {
            lemma_text_fits_same_layout(terminal@, fb0, framebuffer@, message.spec_bytes());
        }
        terminal.put_str(message, framebuffer);
        proof {
            lemma_after_bytes_append(t0, fb0, s3, message.spec_bytes());
        }
        assert((terminal@, framebuffer@) == after_bytes(t0, fb0, s4));
        proof {
            lemma_text_fits_same_layout(terminal@, fb0, framebuffer@, seq![10u8]);
        }
        terminal.put_str(newline, framebuffer);
        proof {
            lemma_after_bytes_append(t0, fb0, s4, seq![10u8]);
        }
    }
}

} // verus!
