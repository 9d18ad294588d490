//! A plain framebuffer with 16-pixel text, addressed by pixel position.
//!
//! The pixels are held here as a vector; whoever owns the hardware buffer
//! copies them out (see `front_buffer`).

use vstd::prelude::*;

use crate::font::{
    apply_writes, blend, blended, box_pixel, glyph_raster, lemma_glyph_pixels, glyph_writes, has_glyph, lemma_apply_push,
    in_visible_box, lemma_concat_push, lemma_glyph_stays_in_box, lemma_glyph_writes_cut, lemma_glyph_writes_step, lemma_row_writes_step,
    raster, row_writes, GlyphHeight,
};
use crate::types::Color;

verus! {

/// What a framebuffer holds: its pixels, row after row with
/// `pixels_per_scanline` pixels per row, and its visible size.
pub struct FramebufferView {
    pub pixels: Seq<Color>,
    pub width: u32,
    pub height: u32,
    pub pixels_per_scanline: u64,
}

impl FramebufferView {
    /// Position in the pixel buffer of pixel `(x, y)`.
    pub open spec fn pixel_index(self, x: int, y: int) -> int {
        y * self.pixels_per_scanline + x
    }

    /// The same framebuffer with pixel `(x, y)` set to `color`.
    pub open spec fn with_pixel(self, x: int, y: int, color: Color) -> FramebufferView {
        FramebufferView { pixels: self.pixels.update(self.pixel_index(x, y), color), ..self }
    }

    /// The same framebuffer with every pixel set to `color`.
    pub open spec fn filled(self, color: Color) -> FramebufferView {
        FramebufferView { pixels: Seq::new(self.pixels.len(), |i: int| color), ..self }
    }

    /// Every visible pixel of the `cols` x `rows` box with its top left
    /// corner at `(x, y)` lies inside the pixel buffer.
    pub open spec fn box_in_buffer(self, x: int, y: int, cols: int, rows: int) -> bool {
        forall|i: int, j: int|
            0 <= i < rows && 0 <= j < cols && y + i < self.height && x + j < self.width
                ==> #[trigger] self.pixel_index(x + j, y + i) < self.pixels.len()
    }

    /// The framebuffer after drawing the 16-pixel glyph of `c` with its top
    /// left corner at `(x, y)` in `color`; a character without a glyph draws
    /// nothing.
    pub open spec fn with_char(self, c: char, x: int, y: int, color: Color) -> FramebufferView {
        match glyph_raster(c, GlyphHeight::Size16) {
            None => self,
            Some(rows) => FramebufferView {
                pixels: apply_writes(
                    self.pixels,
                    glyph_writes(
                        rows,
                        x,
                        y,
                        self.width as int,
                        self.height as int,
                        self.pixels_per_scanline as int,
                        color,
                    ),
                ),
                ..self
            },
        }
    }
}

/// Drawing character `c` at `(x, y)` in `color` tints each visible pixel of
/// the glyph's box by the intensity of `c`'s own glyph there, in the colour
/// passed: pixel `(x + dx, y + dy)` becomes `blended(color, glyph[dy][dx])`.
/// This holds where scanlines hold the visible width and the buffer holds
/// every scanline.
pub proof fn lemma_with_char_draws_glyph(
    fb: FramebufferView,
    c: char,
    x: nat,
    y: nat,
    color: Color,
    glyph: Seq<Seq<u8>>,
    dy: int,
    dx: int,
)
    requires
        glyph_raster(c, GlyphHeight::Size16) == Some(glyph),
        fb.width <= fb.pixels_per_scanline,
        fb.height * fb.pixels_per_scanline <= fb.pixels.len(),
        0 <= dy < glyph.len(),
        0 <= dx < glyph[dy].len(),
        x + dx < fb.width,
        y + dy < fb.height,
    ensures
        fb.with_char(c, x as int, y as int, color).pixels[fb.pixel_index(x + dx, y + dy)]
            == blended(color, glyph[dy][dx]),
        fb.with_char(c, x as int, y as int, color).pixels.len() == fb.pixels.len(),
{
    lemma_glyph_pixels(
        fb.pixels,
        glyph,
        x as int,
        y as int,
        fb.width as int,
        fb.height as int,
        fb.pixels_per_scanline as int,
        color,
    );
    assert(glyph[dy][dx] == glyph[dy][dx]);
}

/// A framebuffer: `width` x `height` visible pixels stored row after row,
/// `pixels_per_scanline` pixels apart.
pub struct Framebuffer {
    front_buffer: Vec<Color>,
    pixels_per_scanline: u64,
    width: u32,
    height: u32,
}

impl View for Framebuffer {
    type V = FramebufferView;

    closed spec fn view(&self) -> FramebufferView {
        FramebufferView {
            pixels: self.front_buffer@,
            width: self.width,
            height: self.height,
            pixels_per_scanline: self.pixels_per_scanline,
        }
    }
}

impl Framebuffer {
    /// A framebuffer over `front_buffer` as the boot loader describes it:
    /// `width` and `height` in pixels, `pitch` in bytes per scanline, four
    /// bytes per pixel.
    pub fn new(front_buffer: Vec<Color>, width: u64, height: u64, pitch: u64) -> (fb: Framebuffer)
        ensures
            fb@ == (FramebufferView {
                pixels: front_buffer@,
                width: width as u32,
                height: height as u32,
                pixels_per_scanline: pitch / 4,
            }),
    {
        Framebuffer {
            front_buffer,
            pixels_per_scanline: pitch / 4,
            width: width as u32,
            height: height as u32,
        }
    }

    /// The pixels, for copying to the screen.
    pub fn front_buffer(&self) -> (pixels: &[Color])
        ensures
            pixels@ == self@.pixels,
    {
        self.front_buffer.as_slice()
    }

    /// Draws the 16-pixel glyph of `c` with its top left corner at `(x, y)`
    /// in `color`; the parts right of or below the visible area are left out.
    pub fn put_char_at(&mut self, c: char, x: u32, y: u32, color: Color)
        requires
            has_glyph(c) && y < old(self)@.height ==> x + 6 <= u32::MAX,
            has_glyph(c) ==> old(self)@.box_in_buffer(x as int, y as int, 7, 16),
        ensures
            final(self)@ == old(self)@.with_char(c, x as int, y as int, color),
            forall|k: int|
                0 <= k < old(self)@.pixels.len() && !in_visible_box(
                    k,
                    x as int,
                    y as int,
                    7,
                    16,
                    old(self)@.width as int,
                    old(self)@.height as int,
                    old(self)@.pixels_per_scanline as int,
                ) ==> #[trigger] final(self)@.pixels[k] == old(self)@.pixels[k],
    {
        let glyph = raster(c, GlyphHeight::Size16);
        let rows = match glyph {
            None => {
                return ;
            },
            Some(rows) => rows,
        };
        let ghost g = rows.deep_view();
        let ghost p0 = self@.pixels;
        let ghost fbw = self@.width as int;
        let ghost fbh = self@.height as int;
        let ghost pps = self@.pixels_per_scanline as int;
        assert(g.len() == 16);
        assert(g.take(16) =~= g);
        let mut ri: usize = 0;
        while ri < rows.len()
            invariant
                g == rows.deep_view(),
                glyph_raster(c, GlyphHeight::Size16) == Some(g),
                has_glyph(c),
                rows@.len() == 16,
                forall|i: int| 0 <= i < rows@.len() ==> (#[trigger] rows@[i])@.len() == 7,
                0 <= ri <= rows@.len(),
                y < old(self)@.height ==> x + 6 <= u32::MAX,
                old(self)@.box_in_buffer(x as int, y as int, 7, 16),
                p0 == old(self)@.pixels,
                fbw == self@.width,
                fbh == self@.height,
                pps == self@.pixels_per_scanline,
                self@.pixels.len() == p0.len(),
                self.width == old(self).width,
                self.height == old(self).height,
                self.pixels_per_scanline == old(self).pixels_per_scanline,
                ri > 0 ==> y + ri - 1 < fbh,
                self@.pixels == apply_writes(
                    p0,
                    glyph_writes(g.take(ri as int), x as int, y as int, fbw, fbh, pps, color),
                ),
                g.take(16) == g,
            ensures
                self@.pixels.len() == p0.len(),
                self.width == old(self).width,
                self.height == old(self).height,
                self.pixels_per_scanline == old(self).pixels_per_scanline,
                self@.pixels == apply_writes(
                    p0,
                    glyph_writes(g, x as int, y as int, fbw, fbh, pps, color),
                ),
            decreases rows@.len() - ri,
        {
            let py = y + ri as u32;
            if py >= self.height {
                proof {
                    lemma_glyph_writes_cut(g, ri as int, x as int, y as int, fbw, fbh, pps, color);
                }
                break;
            }
            let row = &rows[ri];
            let ghost gr = g[ri as int];
            assert(gr == row@);
            let ghost before = glyph_writes(
                g.take(ri as int),
                x as int,
                y as int,
                fbw,
                fbh,
                pps,
                color,
            );
            let mut ci: usize = 0;
            while ci < row.len()
                invariant
                    row@.len() == 7,
                    gr == row@,
                    0 <= ci <= row@.len(),
                    ri < 16,
                    py == y + ri,
                    py < fbh,
                    x + 6 <= u32::MAX,
                    old(self)@.box_in_buffer(x as int, y as int, 7, 16),
                    fbw == self@.width,
                    fbh == self@.height,
                    pps == self@.pixels_per_scanline,
                    self@.pixels.len() == p0.len(),
                    p0 == old(self)@.pixels,
                    self.width == old(self).width,
                    self.height == old(self).height,
                    self.pixels_per_scanline == old(self).pixels_per_scanline,
                    self@.pixels == apply_writes(
                        p0,
                        before + row_writes(gr.take(ci as int), x as int, py as int, fbw, pps, color),
                    ),
                decreases row@.len() - ci,
            {
                let px = x + ci as u32;
                proof {
                    lemma_row_writes_step(gr, ci as int, x as int, py as int, fbw, pps, color);
                }
                if px < self.width {
                    let blended = blend(color, row[ci]);
                    proof {
                        assert(old(self)@.pixel_index(x + ci, y + ri) < p0.len());
                        let w_new = (py * pps + px, blended);
                        lemma_concat_push(
                            before,
                            row_writes(gr.take(ci as int), x as int, py as int, fbw, pps, color),
                            w_new,
                        );
                        lemma_apply_push(
                            p0,
                            before + row_writes(
                                gr.take(ci as int),
                                x as int,
                                py as int,
                                fbw,
                                pps,
                                color,
                            ),
                            w_new,
                        );
                    }
                    self.set_pixel(px as u64, py as u64, blended);
                }
                ci += 1;
            }
            proof {
                assert(gr.take(ci as int) =~= gr);
                lemma_glyph_writes_step(g, ri as int, x as int, y as int, fbw, fbh, pps, color);
            }
            ri += 1;
        }
        assert(self@ =~= old(self)@.with_char(c, x as int, y as int, color));
        proof {
            let xi = x as int;
            let yi = y as int;
            assert forall|idx: int| in_visible_box(idx, xi, yi, 7, 16, fbw, fbh, pps) implies 0
                <= idx < p0.len() by {
                let (dx, dy) = choose|dx: int, dy: int|
                    0 <= dx < 7 && 0 <= dy < 16 && xi + dx < fbw && yi + dy < fbh && idx
                        == #[trigger] box_pixel(xi, yi, pps, dx, dy);
                assert(old(self)@.pixel_index(xi + dx, yi + dy) < p0.len());
                assert(0 <= (yi + dy) * pps) by (nonlinear_arith)
                    requires
                        yi + dy >= 0,
                        pps >= 0,
                ;
            }
            assert forall|k: int|
                0 <= k < p0.len() && !in_visible_box(k, xi, yi, 7, 16, fbw, fbh, pps) implies #[trigger] self@.pixels[k]
                == p0[k] by {
                lemma_glyph_stays_in_box(p0, g, xi, yi, 7, 16, fbw, fbh, pps, color, k);
            }
        }
    }

    /// Sets pixel `(x, y)` to `color`.
    pub fn set_pixel(&mut self, x: u64, y: u64, color: Color)
        requires
            old(self)@.pixel_index(x as int, y as int) < old(self)@.pixels.len(),
        ensures
            final(self)@ == old(self)@.with_pixel(x as int, y as int, color),
    {
        let len = self.front_buffer.len();
        assert(len as int <= u64::MAX);
        assert(y * self.pixels_per_scanline + x < len);
        let index = y * self.pixels_per_scanline + x;
        self.front_buffer.set(index as usize, color);
    }

    /// Sets every pixel of the buffer to `color`.
    pub fn clear(&mut self, color: Color)
        ensures
            final(self)@ == old(self)@.filled(color),
    {
        let n = self.front_buffer.len();
        let mut i: usize = 0;
        while i < n
            invariant
                n == old(self)@.pixels.len(),
                0 <= i <= n,
                self@.pixels.len() == n,
                self.width == old(self).width,
                self.height == old(self).height,
                self.pixels_per_scanline == old(self).pixels_per_scanline,
                forall|k: int| 0 <= k < i ==> self@.pixels[k] == color,
            decreases n - i,
        {
            self.front_buffer.set(i, color);
            i += 1;
        }
        assert(self@.pixels =~= old(self)@.filled(color).pixels);
    }
}

} // verus!
