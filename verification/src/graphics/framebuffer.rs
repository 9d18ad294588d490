//! The linear framebuffer that the terminal draws into.
//!
//! The pixels are held here as a vector; whoever owns the hardware buffer
//! copies them out (see `front_buffer`).

use vstd::prelude::*;

use crate::types::Color;

verus! {

/// What a framebuffer holds: its pixels, row after row with
/// `pixels_per_scanline` pixels per row, and its visible size.
pub struct FramebufferView {
    pub pixels: Seq<Color>,
    pub width: u32,
    pub height: u32,
    pub pixels_per_scanline: u32,
}

/// The height in pixels of one text line, the unit of scrolling.
pub open spec fn line_height() -> int {
    20
}

impl FramebufferView {
    /// A framebuffer with no pixels.
    pub open spec fn empty() -> FramebufferView {
        FramebufferView { pixels: Seq::empty(), width: 0, height: 0, pixels_per_scanline: 0 }
    }

    /// Position in the pixel buffer of pixel `(x, y)`.
    pub open spec fn pixel_index(self, x: int, y: int) -> int {
        y * self.pixels_per_scanline + x
    }

    /// The same framebuffer with pixel `(x, y)` set to `color`.
    pub open spec fn with_pixel(self, x: int, y: int, color: Color) -> FramebufferView {
        FramebufferView { pixels: self.pixels.update(self.pixel_index(x, y), color), ..self }
    }

    /// The same framebuffer with every pixel set to `color`.
    pub open spec fn filled(self, color: Color) -> FramebufferView {
        FramebufferView { pixels: Seq::new(self.pixels.len(), |i: int| color), ..self }
    }

    /// The same framebuffer with its content moved up by `lines` text lines:
    /// the scanlines below the first `20 * lines` move to the top, the freed
    /// scanlines at the bottom take the background colour, and pixels past the
    /// last scanline stay. Moving everything off the screen clears the whole
    /// buffer to the background colour.
    pub open spec fn scrolled(self, lines: int) -> FramebufferView {
        let shift = line_height() * lines;
        let pps = self.pixels_per_scanline as int;
        if shift >= self.height {
            self.filled(Color::background_color())
        } else {
            let copy_len = (self.height - shift) * pps;
            let start = shift * pps;
            let end = self.height * pps;
            FramebufferView {
                pixels: Seq::new(
                    self.pixels.len(),
                    |k: int|
                        if k < copy_len {
                            self.pixels[k + start]
                        } else if k < end {
                            Color::background_color()
                        } else {
                            self.pixels[k]
                        },
                ),
                ..self
            }
        }
    }

    /// Scrolling one text line stays inside the buffer, with every index
    /// within 32 bits (scrolling a screen of at most one line clears it).
    pub open spec fn scroll_fits(self) -> bool {
        line_height() < self.height ==> self.height * self.pixels_per_scanline
            <= self.pixels.len() && self.height * self.pixels_per_scanline <= u32::MAX
    }

    /// The pixel position of the last visible pixel of the `cols` x `rows` box
    /// with its top left corner at `(x0, y0)`, whose visible part is not
    /// empty: every visible pixel of the box lies at or before it.
    pub open spec fn box_last_index(self, x0: int, y0: int, cols: int, rows: int) -> int {
        let px = if x0 + cols - 1 < self.width {
            x0 + cols - 1
        } else {
            self.width - 1
        };
        let py = if y0 + rows - 1 < self.height {
            y0 + rows - 1
        } else {
            self.height - 1
        };
        py * self.pixels_per_scanline + px
    }

    /// Drawing anywhere in the `cols` x `rows` box at `(x0, y0)` writes inside
    /// the buffer, with every pixel index within 32 bits.
    pub open spec fn box_fits(self, x0: int, y0: int, cols: int, rows: int) -> bool {
        x0 < self.width && y0 < self.height ==> self.box_last_index(x0, y0, cols, rows)
            < self.pixels.len() && self.box_last_index(x0, y0, cols, rows) <= u32::MAX
    }

    /// Same size and layout as `other`, pixels aside.
    pub open spec fn same_layout(self, other: FramebufferView) -> bool {
        &&& self.pixels.len() == other.pixels.len()
        &&& self.width == other.width
        &&& self.height == other.height
        &&& self.pixels_per_scanline == other.pixels_per_scanline
    }
}

/// Scrolling by `a` lines and then by `b` lines is scrolling by `a + b` lines
/// at once. When `a + b` lines move everything off the screen but neither
/// scroll does so alone, the two differ past the last scanline (scrolling at
/// once clears the whole buffer), so the buffer must then end there.
pub proof fn lemma_scroll_additive(fb: FramebufferView, a: nat, b: nat)
    requires
        line_height() * (a + b) < fb.height || line_height() * a >= fb.height || line_height() * b
            >= fb.height || fb.pixels.len() == fb.height * fb.pixels_per_scanline,
        fb.height * fb.pixels_per_scanline <= fb.pixels.len(),
    ensures
        fb.scrolled(a as int).scrolled(b as int) == fb.scrolled((a + b) as int),
{
    let p = fb.pixels_per_scanline as int;
    let h = fb.height as int;
    let sa = line_height() * a;
    let sb = line_height() * b;
    assert((h - sa) * p == h * p - sa * p) by (nonlinear_arith);
    assert((h - sb) * p == h * p - sb * p) by (nonlinear_arith);
    assert((h - (sa + sb)) * p == h * p - sa * p - sb * p) by (nonlinear_arith);
    assert((sa + sb) * p == sa * p + sb * p) by (nonlinear_arith);
    assert(0 <= sa * p) by (nonlinear_arith)
        requires
            sa >= 0,
            p >= 0,
    ;
    assert(0 <= sb * p) by (nonlinear_arith)
        requires
            sb >= 0,
            p >= 0,
    ;
    assert(line_height() * (a + b) == sa + sb);
    let step = fb.scrolled(a as int);
    let two = step.scrolled(b as int);
    let once = fb.scrolled((a + b) as int);
    if sa + sb < h {
        assert(two.pixels =~= once.pixels);
    } else if sa >= h {
        assert(two.pixels =~= once.pixels);
    } else if sb >= h {
        assert(step.pixels.len() == fb.pixels.len());
        assert(two.pixels =~= once.pixels);
    } else {
        assert(sb * p >= (h - sa) * p) by (nonlinear_arith)
            requires
                sa + sb >= h,
                p >= 0,
        ;
        assert forall|k: int| 0 <= k < two.pixels.len() implies two.pixels[k]
            == once.pixels[k] by {
            if k < (h - sb) * p {
                assert(k + sb * p >= (h - sa) * p);
            }
        }
        assert(two.pixels =~= once.pixels);
    }
}

/// A framebuffer: `width` x `height` visible pixels stored row after row,
/// `pixels_per_scanline` pixels apart.
pub struct Framebuffer {
    front_buffer: Vec<Color>,
    pixels_per_scanline: u32,
    width: u32,
    height: u32,
}

impl View for Framebuffer {
    type V = FramebufferView;

    closed spec fn view(&self) -> FramebufferView {
        FramebufferView {
            pixels: self.front_buffer@,
            width: self.width,
            height: self.height,
            pixels_per_scanline: self.pixels_per_scanline,
        }
    }
}

impl Framebuffer {
    /// A framebuffer over `front_buffer` as the boot loader describes it:
    /// `width` and `height` in pixels, `pitch` in bytes per scanline, four
    /// bytes per pixel.
    pub fn new(front_buffer: Vec<Color>, width: u64, height: u64, pitch: u64) -> (fb: Framebuffer)
        ensures
            fb@ == (FramebufferView {
                pixels: front_buffer@,
                width: width as u32,
                height: height as u32,
                pixels_per_scanline: (pitch as u32) / 4,
            }),
    {
        Framebuffer {
            front_buffer,
            pixels_per_scanline: pitch as u32 / 4,
            width: width as u32,
            height: height as u32,
        }
    }

    /// The pixels, for copying to the screen.
    pub fn front_buffer(&self) -> (pixels: &[Color])
        ensures
            pixels@ == self@.pixels,
    {
        self.front_buffer.as_slice()
    }

    /// Visible width in pixels.
    pub fn width(&self) -> (w: u32)
        ensures
            w == self@.width,
    {
        self.width
    }

    /// Visible height in pixels.
    pub fn height(&self) -> (h: u32)
        ensures
            h == self@.height,
    {
        self.height
    }

    /// Whether scrolling one text line stays inside the buffer (see
    /// `scroll_fits`).
    pub fn scroll_fits(&self) -> (ok: bool)
        ensures
            ok == self@.scroll_fits(),
    {
        if self.height <= 20 {
            return true;
        }
        proof {
            assert(self.height * self.pixels_per_scanline <= u32::MAX * u32::MAX) by (nonlinear_arith)
                requires
                    self.height <= u32::MAX,
                    self.pixels_per_scanline <= u32::MAX,
            ;
        }
        let full = self.height as u64 * self.pixels_per_scanline as u64;
        full <= self.front_buffer.len() as u64 && full <= u32::MAX as u64
    }

    /// Whether drawing in the `cols` x `rows` box at `(x0, y0)` stays inside
    /// the buffer (see `box_fits`).
    pub fn box_fits(&self, x0: u32, y0: u32, cols: u32, rows: u32) -> (ok: bool)
        requires
            cols >= 1,
            rows >= 1,
        ensures
            ok == self@.box_fits(x0 as int, y0 as int, cols as int, rows as int),
    {
        if x0 >= self.width || y0 >= self.height {
            return true;
        }
        let last_x = x0 as u64 + cols as u64 - 1;
        let last_y = y0 as u64 + rows as u64 - 1;
        let px: u64 = if last_x < self.width as u64 {
            last_x
        } else {
            self.width as u64 - 1
        };
        let py: u64 = if last_y < self.height as u64 {
            last_y
        } else {
            self.height as u64 - 1
        };
        proof {
            assert(py * self.pixels_per_scanline <= u32::MAX * u32::MAX) by (nonlinear_arith)
                requires
                    py <= u32::MAX,
                    self.pixels_per_scanline <= u32::MAX,
            ;
        }
        let last = py * self.pixels_per_scanline as u64 + px;
        last < self.front_buffer.len() as u64 && last <= u32::MAX as u64
    }

    /// Pixels per scanline.
    pub fn pixels_per_scanline(&self) -> (pps: u32)
        ensures
            pps == self@.pixels_per_scanline,
    {
        self.pixels_per_scanline
    }

    /// Sets pixel `(x, y)` to `color`.
    pub fn set_pixel(&mut self, x: u32, y: u32, color: Color)
        requires
            old(self)@.pixel_index(x as int, y as int) <= u32::MAX,
            old(self)@.pixel_index(x as int, y as int) < old(self)@.pixels.len(),
        ensures
            final(self)@ == old(self)@.with_pixel(x as int, y as int, color),
    {
        assert(y * self.pixels_per_scanline <= u32::MAX);
        let index = y * self.pixels_per_scanline + x;
        self.front_buffer.set(index as usize, color);
    }

    /// Sets every pixel of the buffer to `color`.
    pub fn clear(&mut self, color: Color)
        ensures
            final(self)@ == old(self)@.filled(color),
    {
        let n = self.front_buffer.len();
        let mut i: usize = 0;
        while i < n
            invariant
                n == old(self)@.pixels.len(),
                0 <= i <= n,
                self@.pixels.len() == n,
                self.width == old(self).width,
                self.height == old(self).height,
                self.pixels_per_scanline == old(self).pixels_per_scanline,
                forall|k: int| 0 <= k < i ==> self@.pixels[k] == color,
            decreases n - i,
        {
            self.front_buffer.set(i, color);
            i += 1;
        }
        assert(self@.pixels =~= old(self)@.filled(color).pixels);
    }

    /// Moves the content up by `lines` text lines of 20 pixels, filling the
    /// freed scanlines with the background colour; clears the whole buffer
    /// when that moves everything off the screen.
    pub fn scroll(&mut self, lines: u32)
        requires
            line_height() * lines <= u32::MAX,
            line_height() * lines < old(self)@.height ==> old(self)@.height
                * old(self)@.pixels_per_scanline <= old(self)@.pixels.len()
                && old(self)@.height * old(self)@.pixels_per_scanline <= u32::MAX,
        ensures
            final(self)@ == old(self)@.scrolled(lines as int),
    {
        let scroll_px = 20 * lines;
        if scroll_px >= self.height {
            self.clear(Color::background_color());
            return;
        }
        let pps = self.pixels_per_scanline;
        let height = self.height;
        proof {
            assert((height - scroll_px) * pps + scroll_px * pps == height * pps) by (nonlinear_arith);
            assert(0 <= (height - scroll_px) * pps) by (nonlinear_arith)
                requires
                    scroll_px < height,
            ;
            assert(0 <= scroll_px * pps) by (nonlinear_arith);
        }
        let copy_len = (height - scroll_px) * pps;
        let src_start = scroll_px * pps;
        let end = copy_len + src_start;
        let ghost old_pixels = self@.pixels;
        let mut k: usize = 0;
        while k < copy_len as usize
            invariant
                old_pixels == old(self)@.pixels,
                end == copy_len + src_start,
                end <= old_pixels.len(),
                0 <= k <= copy_len,
                self@.pixels.len() == old_pixels.len(),
                self.width == old(self).width,
                self.height == old(self).height,
                self.pixels_per_scanline == old(self).pixels_per_scanline,
                forall|j: int| 0 <= j < k ==> self@.pixels[j] == old_pixels[j + src_start],
                forall|j: int| k <= j < old_pixels.len() ==> self@.pixels[j] == old_pixels[j],
            decreases copy_len - k,
        {
            let v = self.front_buffer[k + src_start as usize];
            self.front_buffer.set(k, v);
            k += 1;
        }
        let background = Color::background_color();
        let mut k: usize = copy_len as usize;
        while k < end as usize
            invariant
                old_pixels == old(self)@.pixels,
                end == copy_len + src_start,
                end <= old_pixels.len(),
                copy_len <= k <= end,
                background == Color::background_color(),
                self@.pixels.len() == old_pixels.len(),
                self.width == old(self).width,
                self.height == old(self).height,
                self.pixels_per_scanline == old(self).pixels_per_scanline,
                forall|j: int| 0 <= j < copy_len ==> self@.pixels[j] == old_pixels[j + src_start],
                forall|j: int| copy_len <= j < k ==> self@.pixels[j] == background,
                forall|j: int| k <= j < old_pixels.len() ==> self@.pixels[j] == old_pixels[j],
            decreases end - k,
        {
            self.front_buffer.set(k, background);
            k += 1;
        }
        assert(self@.pixels =~= old(self)@.scrolled(lines as int).pixels);
    }
}

} // verus!
