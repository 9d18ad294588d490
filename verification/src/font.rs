//! Glyphs of the Noto Sans Mono bitmap font, how a glyph pixel is tinted,
//! and the sequence of pixel writes that drawing one glyph performs.

use vstd::prelude::*;

use crate::types::Color;
use noto_sans_mono_bitmap::{get_raster, get_raster_width, FontWeight, RasterHeight};

verus! {

/// The raster heights of the font that this kernel draws with.
#[derive(Copy, Clone, PartialEq, Eq, Structural, Debug)]
pub enum GlyphHeight {
    Size16,
    Size20,
}

impl GlyphHeight {
    /// Number of pixel rows of every glyph of this height.
    pub open spec fn rows(self) -> nat {
        match self {
            GlyphHeight::Size16 => 16,
            GlyphHeight::Size20 => 20,
        }
    }

    /// Number of pixel columns of every glyph of this height (regular weight).
    pub open spec fn columns(self) -> nat {
        match self {
            GlyphHeight::Size16 => 7,
            GlyphHeight::Size20 => 9,
        }
    }
}

/// The characters that the font, as built here, has a glyph for: the
/// printable Basic Latin range, space to tilde.
pub open spec fn has_glyph(c: char) -> bool {
    0x20 <= (c as u32) && (c as u32) <= 0x7e
}

/// The rows of intensities (0 = background, 255 = foreground, top row first)
/// that `noto_sans_mono_bitmap::get_raster` gives for `c` in the regular
/// weight at `height`, or `None` where the font has no glyph.
pub uninterp spec fn glyph_raster(c: char, height: GlyphHeight) -> Option<Seq<Seq<u8>>>;

/// Calls `noto_sans_mono_bitmap::get_raster(c, FontWeight::Regular, height)`
/// and copies the glyph's rows out of the font's static tables.
///
/// Trusted: the result is the named `glyph_raster`; as the crate's
/// documentation and source show, there is a glyph exactly for the Basic
/// Latin characters enabled here, and each glyph has `height` rows of
/// `get_raster_width` bytes. The intensities themselves are left unsaid.
#[verifier::external_body]
pub(crate) fn raster(c: char, height: GlyphHeight) -> (r: Option<Vec<Vec<u8>>>)
    ensures
        r.deep_view() == glyph_raster(c, height),
        r is Some <==> has_glyph(c),
        r matches Some(rows) ==> rows@.len() == height.rows() && forall|i: int|
            0 <= i < rows@.len() ==> (#[trigger] rows@[i])@.len() == height.columns(),
{
    let size = match height {
        GlyphHeight::Size16 => RasterHeight::Size16,
        GlyphHeight::Size20 => RasterHeight::Size20,
    };
    match get_raster(c, FontWeight::Regular, size) {
        Some(glyph) => {
            let mut rows = Vec::new();
            for row in glyph.rows() {
                rows.push(row.to_vec());
            }
            Some(rows)
        },
        None => None,
    }
}

/// Calls `noto_sans_mono_bitmap::get_raster_width(FontWeight::Regular, height)`.
///
/// Trusted: the crate's source fixes this width at 7 pixels for height 16 and
/// 9 pixels for height 20.
#[verifier::external_body]
pub(crate) fn raster_width(height: GlyphHeight) -> (w: usize)
    ensures
        w == height.columns(),
{
    let size = match height {
        GlyphHeight::Size16 => RasterHeight::Size16,
        GlyphHeight::Size20 => RasterHeight::Size20,
    };
    get_raster_width(FontWeight::Regular, size)
}

/// One colour channel scaled by a glyph intensity out of 255.
pub open spec fn scaled(channel: u8, intensity: u8) -> u8 {
    ((channel as int * intensity as int) / 255) as u8
}

/// The pixel that a glyph pixel of `intensity` leaves in `color`: each channel
/// scaled by the intensity, and black replaced by the background colour.
pub open spec fn blended(color: Color, intensity: u8) -> Color {
    let c = Color {
        r: scaled(color.r, intensity),
        g: scaled(color.g, intensity),
        b: scaled(color.b, intensity),
        _pad: 0,
    };
    if c == Color::black() {
        Color::background_color()
    } else {
        c
    }
}

fn scale_channel(channel: u8, intensity: u8) -> (r: u8)
    ensures
        r == scaled(channel, intensity),
{
    assert(channel as int * intensity as int <= 255 * 255) by (nonlinear_arith)
        requires
            channel <= 255,
            intensity <= 255,
    ;
    let product: u32 = channel as u32 * intensity as u32;
    (product / 255) as u8
}

/// Tints `color` by a glyph intensity, as a glyph pixel is drawn.
pub fn blend(color: Color, intensity: u8) -> (r: Color)
    ensures
        r == blended(color, intensity),
{
    let mut c = Color {
        r: scale_channel(color.r, intensity),
        g: scale_channel(color.g, intensity),
        b: scale_channel(color.b, intensity),
        _pad: 0,
    };
    if c == Color::black() {
        c = Color::background_color();
    }
    c
}

/// A tinted glyph pixel is never black: black always gives way to the
/// background colour.
pub proof fn lemma_blended_never_black(color: Color, intensity: u8)
    ensures
        blended(color, intensity) != Color::black(),
{
}

/// A glyph pixel of intensity 0 leaves the background colour, whatever the
/// text colour.
pub proof fn lemma_blended_zero_is_background(color: Color)
    ensures
        blended(color, 0) == Color::background_color(),
{
}

/// A glyph pixel of full intensity keeps every channel of a non-black text
/// colour.
pub proof fn lemma_blended_full_keeps_color(color: Color)
    requires
        !(color.r == 0 && color.g == 0 && color.b == 0),
    ensures
        blended(color, 255) == (Color { r: color.r, g: color.g, b: color.b, _pad: 0 }),
{
    assert((color.r as int * 255) / 255 == color.r as int) by (nonlinear_arith);
    assert((color.g as int * 255) / 255 == color.g as int) by (nonlinear_arith);
    assert((color.b as int * 255) / 255 == color.b as int) by (nonlinear_arith);
}

/// The pixels after a sequence of writes `(index, colour)`, applied in order.
pub open spec fn apply_writes(pixels: Seq<Color>, writes: Seq<(int, Color)>) -> Seq<Color>
    decreases writes.len(),
{
    if writes.len() == 0 {
        pixels
    } else {
        apply_writes(pixels, writes.drop_last()).update(writes.last().0, writes.last().1)
    }
}

/// The writes that drawing one glyph row makes: the row's pixel `i` goes to
/// column `px0 + i` of scanline `py`, unless that column lies at or right of
/// `width`.
pub open spec fn row_writes(
    row: Seq<u8>,
    px0: int,
    py: int,
    width: int,
    pps: int,
    color: Color,
) -> Seq<(int, Color)>
    decreases row.len(),
{
    if row.len() == 0 {
        Seq::empty()
    } else {
        let earlier = row_writes(row.drop_last(), px0, py, width, pps, color);
        let px = px0 + row.len() - 1;
        if px < width {
            earlier.push((py * pps + px, blended(color, row.last())))
        } else {
            earlier
        }
    }
}

/// The writes that drawing a glyph with its top left corner at `(px0, py0)`
/// makes, row by row from the top; rows at or below `height` are not drawn.
pub open spec fn glyph_writes(
    rows: Seq<Seq<u8>>,
    px0: int,
    py0: int,
    width: int,
    height: int,
    pps: int,
    color: Color,
) -> Seq<(int, Color)>
    decreases rows.len(),
{
    if rows.len() == 0 {
        Seq::empty()
    } else {
        let earlier = glyph_writes(rows.drop_last(), px0, py0, width, height, pps, color);
        let py = py0 + rows.len() - 1;
        if py < height {
            earlier + row_writes(rows.last(), px0, py, width, pps, color)
        } else {
            earlier
        }
    }
}

pub(crate) proof fn lemma_apply_push(pixels: Seq<Color>, writes: Seq<(int, Color)>, w: (int, Color))
    ensures
        apply_writes(pixels, writes.push(w)) == apply_writes(pixels, writes).update(w.0, w.1),
{
    assert(writes.push(w).drop_last() =~= writes);
}

pub(crate) proof fn lemma_row_writes_step(
    row: Seq<u8>,
    k: int,
    px0: int,
    py: int,
    width: int,
    pps: int,
    color: Color,
)
    requires
        0 <= k < row.len(),
    ensures
        row_writes(row.take(k + 1), px0, py, width, pps, color) == if px0 + k < width {
            row_writes(row.take(k), px0, py, width, pps, color).push(
                (py * pps + px0 + k, blended(color, row[k])),
            )
        } else {
            row_writes(row.take(k), px0, py, width, pps, color)
        },
{
    assert(row.take(k + 1).drop_last() =~= row.take(k));
}

pub(crate) proof fn lemma_glyph_writes_step(
    rows: Seq<Seq<u8>>,
    k: int,
    px0: int,
    py0: int,
    width: int,
    height: int,
    pps: int,
    color: Color,
)
    requires
        0 <= k < rows.len(),
    ensures
        glyph_writes(rows.take(k + 1), px0, py0, width, height, pps, color) == if py0 + k
            < height {
            glyph_writes(rows.take(k), px0, py0, width, height, pps, color) + row_writes(
                rows[k],
                px0,
                py0 + k,
                width,
                pps,
                color,
            )
        } else {
            glyph_writes(rows.take(k), px0, py0, width, height, pps, color)
        },
{
    assert(rows.take(k + 1).drop_last() =~= rows.take(k));
}

/// Rows that start at or below `height` add no writes: once one row is
/// skipped, all later rows are.
pub proof fn lemma_glyph_writes_cut(
    rows: Seq<Seq<u8>>,
    k: int,
    px0: int,
    py0: int,
    width: int,
    height: int,
    pps: int,
    color: Color,
)
    requires
        0 <= k <= rows.len(),
        py0 + k >= height,
    ensures
        glyph_writes(rows, px0, py0, width, height, pps, color) == glyph_writes(
            rows.take(k),
            px0,
            py0,
            width,
            height,
            pps,
            color,
        ),
    decreases rows.len(),
{
    if rows.len() == k {
        assert(rows.take(k) =~= rows);
    } else {
        lemma_glyph_writes_cut(rows.drop_last(), k, px0, py0, width, height, pps, color);
        assert(rows.drop_last().take(k) =~= rows.take(k));
    }
}

/// Position of pixel `(px0 + dx, py0 + dy)` in a buffer with `pps` pixels
/// per scanline.
pub open spec fn box_pixel(px0: int, py0: int, pps: int, dx: int, dy: int) -> int {
    (py0 + dy) * pps + px0 + dx
}

/// `idx` is the position of a pixel of the `cols` x `rows` box with its top
/// left corner at `(px0, py0)` that lies left of `width` and above `height`.
pub open spec fn in_visible_box(
    idx: int,
    px0: int,
    py0: int,
    cols: int,
    rows: int,
    width: int,
    height: int,
    pps: int,
) -> bool {
    exists|dx: int, dy: int|
        0 <= dx < cols && 0 <= dy < rows && px0 + dx < width && py0 + dy < height && idx
            == #[trigger] box_pixel(px0, py0, pps, dx, dy)
}

proof fn lemma_row_writes_in_box(
    row: Seq<u8>,
    px0: int,
    py0: int,
    dy: int,
    cols: int,
    rows: int,
    width: int,
    height: int,
    pps: int,
    color: Color,
)
    requires
        row.len() <= cols,
        0 <= dy < rows,
        py0 + dy < height,
    ensures
        forall|i: int|
            0 <= i < row_writes(row, px0, py0 + dy, width, pps, color).len() ==> in_visible_box(
                #[trigger] row_writes(row, px0, py0 + dy, width, pps, color)[i].0,
                px0,
                py0,
                cols,
                rows,
                width,
                height,
                pps,
            ),
    decreases row.len(),
{
    if row.len() > 0 {
        lemma_row_writes_in_box(row.drop_last(), px0, py0, dy, cols, rows, width, height, pps, color);
        let ws = row_writes(row, px0, py0 + dy, width, pps, color);
        let earlier = row_writes(row.drop_last(), px0, py0 + dy, width, pps, color);
        let dx = row.len() - 1;
        assert forall|i: int| 0 <= i < ws.len() implies in_visible_box(
            #[trigger] ws[i].0,
            px0,
            py0,
            cols,
            rows,
            width,
            height,
            pps,
        ) by {
            if i < earlier.len() {
                assert(ws[i] == earlier[i]);
            } else {
                assert(ws[i].0 == box_pixel(px0, py0, pps, dx, dy));
            }
        }
    }
}

/// Every write of a glyph with at most `rows` rows of at most `cols` pixels
/// goes to a visible pixel of its box.
pub proof fn lemma_glyph_writes_in_box(
    glyph: Seq<Seq<u8>>,
    px0: int,
    py0: int,
    cols: int,
    rows: int,
    width: int,
    height: int,
    pps: int,
    color: Color,
)
    requires
        glyph.len() <= rows,
        forall|r: int| 0 <= r < glyph.len() ==> (#[trigger] glyph[r]).len() <= cols,
    ensures
        forall|i: int|
            0 <= i < glyph_writes(glyph, px0, py0, width, height, pps, color).len()
                ==> in_visible_box(
                #[trigger] glyph_writes(glyph, px0, py0, width, height, pps, color)[i].0,
                px0,
                py0,
                cols,
                rows,
                width,
                height,
                pps,
            ),
    decreases glyph.len(),
{
    if glyph.len() > 0 {
        let dy = glyph.len() - 1;
        lemma_glyph_writes_in_box(glyph.drop_last(), px0, py0, cols, rows, width, height, pps, color);
        if py0 + dy < height {
            lemma_row_writes_in_box(glyph.last(), px0, py0, dy, cols, rows, width, height, pps, color);
            let ws = glyph_writes(glyph, px0, py0, width, height, pps, color);
            let earlier = glyph_writes(glyph.drop_last(), px0, py0, width, height, pps, color);
            let last = row_writes(glyph.last(), px0, py0 + dy, width, pps, color);
            assert forall|i: int| 0 <= i < ws.len() implies in_visible_box(
                #[trigger] ws[i].0,
                px0,
                py0,
                cols,
                rows,
                width,
                height,
                pps,
            ) by {
                if i < earlier.len() {
                    assert(ws[i] == earlier[i]);
                } else {
                    assert(ws[i] == last[i - earlier.len()]);
                }
            }
        } else {
            let ws = glyph_writes(glyph, px0, py0, width, height, pps, color);
            let earlier = glyph_writes(glyph.drop_last(), px0, py0, width, height, pps, color);
            assert(ws == earlier);
        }
    }
}

/// Writes to positions inside the buffer keep its length and leave every
/// position that none of them targets as it was.
pub proof fn lemma_apply_writes_elsewhere(pixels: Seq<Color>, writes: Seq<(int, Color)>, k: int)
    requires
        forall|i: int| 0 <= i < writes.len() ==> 0 <= (#[trigger] writes[i]).0 < pixels.len(),
        0 <= k < pixels.len(),
        forall|i: int| 0 <= i < writes.len() ==> (#[trigger] writes[i]).0 != k,
    ensures
        apply_writes(pixels, writes).len() == pixels.len(),
        apply_writes(pixels, writes)[k] == pixels[k],
    decreases writes.len(),
{
    if writes.len() > 0 {
        let w = writes.last();
        assert(w == writes[writes.len() - 1]);
        lemma_apply_writes_elsewhere(pixels, writes.drop_last(), k);
    }
}

/// Drawing a glyph changes no pixel outside the visible part of its box,
/// provided that part lies inside the buffer.
pub proof fn lemma_glyph_stays_in_box(
    pixels: Seq<Color>,
    glyph: Seq<Seq<u8>>,
    px0: int,
    py0: int,
    cols: int,
    rows: int,
    width: int,
    height: int,
    pps: int,
    color: Color,
    k: int,
)
    requires
        glyph.len() <= rows,
        forall|r: int| 0 <= r < glyph.len() ==> (#[trigger] glyph[r]).len() <= cols,
        forall|idx: int|
            in_visible_box(idx, px0, py0, cols, rows, width, height, pps) ==> 0 <= idx
                < pixels.len(),
        0 <= k < pixels.len(),
        !in_visible_box(k, px0, py0, cols, rows, width, height, pps),
    ensures
        apply_writes(pixels, glyph_writes(glyph, px0, py0, width, height, pps, color)).len()
            == pixels.len(),
        apply_writes(pixels, glyph_writes(glyph, px0, py0, width, height, pps, color))[k]
            == pixels[k],
{
    let ws = glyph_writes(glyph, px0, py0, width, height, pps, color);
    lemma_glyph_writes_in_box(glyph, px0, py0, cols, rows, width, height, pps, color);
    assert forall|i: int| 0 <= i < ws.len() implies 0 <= (#[trigger] ws[i]).0 < pixels.len()
        && ws[i].0 != k by {
        assert(in_visible_box(ws[i].0, px0, py0, cols, rows, width, height, pps));
    }
    lemma_apply_writes_elsewhere(pixels, ws, k);
}

/// Applying `a` and then `b` is applying `a + b`.
pub proof fn lemma_apply_writes_append(pixels: Seq<Color>, a: Seq<(int, Color)>, b: Seq<(int, Color)>)
    ensures
        apply_writes(pixels, a + b) == apply_writes(apply_writes(pixels, a), b),
    decreases b.len(),
{
    if b.len() == 0 {
        assert(a + b =~= a);
    } else {
        lemma_apply_writes_append(pixels, a, b.drop_last());
        assert((a + b).drop_last() =~= a + b.drop_last());
        assert((a + b).last() == b.last());
    }
}

proof fn lemma_row_pixels(
    pixels: Seq<Color>,
    row: Seq<u8>,
    px0: int,
    py: int,
    width: int,
    pps: int,
    color: Color,
)
    requires
        0 <= px0,
        0 <= py,
        0 <= width <= pps,
        (py + 1) * pps <= pixels.len(),
    ensures
        apply_writes(pixels, row_writes(row, px0, py, width, pps, color)).len() == pixels.len(),
        forall|dx: int|
            0 <= dx < row.len() && px0 + dx < width ==> apply_writes(
                pixels,
                row_writes(row, px0, py, width, pps, color),
            )[py * pps + px0 + dx] == blended(color, #[trigger] row[dx]),
        forall|j: int|
            0 <= j < pixels.len() && (j < py * pps + px0 || j >= py * pps + px0 + row.len() || j
                >= py * pps + width) ==> #[trigger] apply_writes(
                pixels,
                row_writes(row, px0, py, width, pps, color),
            )[j] == pixels[j],
    decreases row.len(),
{
    if row.len() > 0 {
        let dl = row.drop_last();
        let last = row.len() - 1;
        lemma_row_pixels(pixels, dl, px0, py, width, pps, color);
        let before = apply_writes(pixels, row_writes(dl, px0, py, width, pps, color));
        let after = apply_writes(pixels, row_writes(row, px0, py, width, pps, color));
        if px0 + last < width {
            let idx = py * pps + px0 + last;
            assert(py * pps + pps == (py + 1) * pps) by (nonlinear_arith);
            assert(0 <= py * pps) by (nonlinear_arith)
                requires
                    0 <= py,
                    0 <= width <= pps,
            ;
            lemma_apply_push(
                pixels,
                row_writes(dl, px0, py, width, pps, color),
                (idx, blended(color, row.last())),
            );
            assert(after == before.update(idx, blended(color, row.last())));
            assert forall|dx: int| 0 <= dx < row.len() && px0 + dx < width implies after[py * pps
                + px0 + dx] == blended(color, #[trigger] row[dx]) by {
                if dx < last {
                    assert(row[dx] == dl[dx]);
                }
            }
        } else {
            assert(after == before);
            assert forall|dx: int| 0 <= dx < row.len() && px0 + dx < width implies after[py * pps
                + px0 + dx] == blended(color, #[trigger] row[dx]) by {
                assert(row[dx] == dl[dx]);
            }
        }
    }
}

/// Drawing a glyph with its top left corner at `(px0, py0)` in `color`
/// leaves each visible pixel `(px0 + dx, py0 + dy)` of its box tinted by the
/// glyph's own intensity there: `blended(color, glyph[dy][dx])`. This holds
/// where scanlines hold the visible width and the buffer holds every
/// scanline, so that no two pixels share a position.
pub proof fn lemma_glyph_pixels(
    pixels: Seq<Color>,
    glyph: Seq<Seq<u8>>,
    px0: int,
    py0: int,
    width: int,
    height: int,
    pps: int,
    color: Color,
)
    requires
        0 <= px0,
        0 <= py0,
        0 <= width <= pps,
        height * pps <= pixels.len(),
    ensures
        apply_writes(pixels, glyph_writes(glyph, px0, py0, width, height, pps, color)).len()
            == pixels.len(),
        forall|dy: int, dx: int|
            0 <= dy < glyph.len() && 0 <= dx < glyph[dy].len() && px0 + dx < width && py0 + dy
                < height ==> apply_writes(
                pixels,
                glyph_writes(glyph, px0, py0, width, height, pps, color),
            )[(py0 + dy) * pps + px0 + dx] == blended(color, #[trigger] glyph[dy][dx]),
    decreases glyph.len(),
{
    if glyph.len() > 0 {
        let dl = glyph.drop_last();
        let last = glyph.len() - 1;
        lemma_glyph_pixels(pixels, dl, px0, py0, width, height, pps, color);
        let q = apply_writes(pixels, glyph_writes(dl, px0, py0, width, height, pps, color));
        let all = apply_writes(pixels, glyph_writes(glyph, px0, py0, width, height, pps, color));
        let py = py0 + last;
        if py < height {
            let rw = row_writes(glyph.last(), px0, py, width, pps, color);
            lemma_apply_writes_append(
                pixels,
                glyph_writes(dl, px0, py0, width, height, pps, color),
                rw,
            );
            assert(all == apply_writes(q, rw));
            assert((py + 1) * pps <= height * pps) by (nonlinear_arith)
                requires
                    py < height,
                    0 <= pps,
            ;
            lemma_row_pixels(q, glyph.last(), px0, py, width, pps, color);
            assert forall|dy: int, dx: int|
                0 <= dy < glyph.len() && 0 <= dx < glyph[dy].len() && px0 + dx < width && py0 + dy
                    < height implies all[(py0 + dy) * pps + px0 + dx] == blended(
                color,
                #[trigger] glyph[dy][dx],
            ) by {
                if dy < last {
                    assert(glyph[dy] == dl[dy]);
                    let j = (py0 + dy) * pps + px0 + dx;
                    assert((py0 + dy) * pps + pps <= py * pps) by (nonlinear_arith)
                        requires
                            py0 + dy < py,
                            0 <= pps,
                    ;
                    assert(0 <= (py0 + dy) * pps) by (nonlinear_arith)
                        requires
                            0 <= py0 + dy,
                            0 <= pps,
                    ;
                    assert(py * pps + pps <= height * pps) by (nonlinear_arith)
                        requires
                            py < height,
                            0 <= pps,
                    ;
                    assert(j < py * pps + px0);
                    assert(apply_writes(q, rw)[j] == q[j]);
                } else {
                    assert(glyph[dy] == glyph.last());
                }
            }
        } else {
            assert(all == q);
            assert forall|dy: int, dx: int|
                0 <= dy < glyph.len() && 0 <= dx < glyph[dy].len() && px0 + dx < width && py0 + dy
                    < height implies all[(py0 + dy) * pps + px0 + dx] == blended(
                color,
                #[trigger] glyph[dy][dx],
            ) by {
                assert(glyph[dy] == dl[dy]);
            }
        }
    }
}

pub(crate) proof fn lemma_concat_push<A>(a: Seq<A>, b: Seq<A>, x: A)
    ensures
        a + b.push(x) == (a + b).push(x),
{
    assert(a + b.push(x) =~= (a + b).push(x));
}

} // verus!
