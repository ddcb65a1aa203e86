//! Glyph metrics: the size of the surface that draws a character and its size
//! in the original (unscaled) curses grid.
//!
//! CP437 characters are drawn with the game's curses font. Other characters
//! are rasterized from the font of the current language at twice their size;
//! a character that could not be rasterized falls back to the curses '?'.

use vstd::prelude::*;

use crate::cp437::{char_to_cp437_codepoint, spec_cp437_codepoint};

verus! {

/// Largest glyph dimension handled: sizes stay exact when the game halves them
/// in single-precision floating point.
pub open spec fn max_glyph_dimension() -> int {
    0x100_0000
}

/// What the glyph code reads about fonts and the renderer.
pub struct GlyphTable {
    /// Width of a cell of the original curses grid, in pixels.
    pub orig_width: i32,
    /// Height of a cell of the original curses grid, in pixels.
    pub orig_height: i32,
    /// Width of the surfaces of the curses font.
    pub curses_width: i32,
    /// Height of the surfaces of the curses font.
    pub curses_height: i32,
    /// Surface sizes of the glyphs rasterized from the current language's font,
    /// as (character, width, height); the first entry for a character counts.
    pub glyphs: Vec<(char, i32, i32)>,
}

pub open spec fn dimension_ok(v: i32) -> bool {
    0 <= v <= max_glyph_dimension()
}

impl GlyphTable {
    /// Every size is a non-negative pixel count that a float holds exactly.
    pub open spec fn wf(&self) -> bool {
        &&& dimension_ok(self.orig_width)
        &&& dimension_ok(self.orig_height)
        &&& dimension_ok(self.curses_width)
        &&& dimension_ok(self.curses_height)
        &&& forall|i: int|
            0 <= i < self.glyphs@.len() ==> dimension_ok(#[trigger] self.glyphs@[i].1)
                && dimension_ok(self.glyphs@[i].2)
    }

    /// The index of the first rasterized glyph for `ch` at or after `from`.
    pub open spec fn spec_find_from(&self, ch: char, from: int) -> Option<int>
        decreases self.glyphs@.len() - from,
    {
        if from < 0 || from >= self.glyphs@.len() {
            None
        } else if self.glyphs@[from].0 == ch {
            Some(from)
        } else {
            self.spec_find_from(ch, from + 1)
        }
    }

    /// The size of the surface that draws `ch`.
    pub open spec fn spec_surface_size(&self, ch: char) -> (i32, i32) {
        if spec_cp437_codepoint(ch) != 0 {
            (self.curses_width, self.curses_height)
        } else {
            match self.spec_find_from(ch, 0) {
                Some(i) => (self.glyphs@[i].1, self.glyphs@[i].2),
                None => (self.curses_width, self.curses_height),
            }
        }
    }

    /// The size of `ch` in the original curses grid.
    pub open spec fn spec_orig_size(&self, ch: char) -> (i32, i32) {
        if spec_cp437_codepoint(ch) != 0 {
            (self.orig_width, self.orig_height)
        } else {
            let (w, h) = self.spec_surface_size(ch);
            (half_rounded(w), half_rounded(h))
        }
    }

    /// The original width of `ch`.
    pub open spec fn spec_orig_width(&self, ch: char) -> int {
        self.spec_orig_size(ch).0 as int
    }

    /// The total original width of a string.
    pub open spec fn spec_str_width(&self, s: Seq<char>) -> int
        decreases s.len(),
    {
        if s.len() == 0 {
            0
        } else {
            self.spec_str_width(s.drop_last()) + self.spec_orig_width(s.last())
        }
    }

    proof fn lemma_find_from_bounds(&self, ch: char, from: int)
        requires
            0 <= from,
        ensures
            self.spec_find_from(ch, from) matches Some(i) ==> from <= i < self.glyphs@.len()
                && self.glyphs@[i].0 == ch,
        decreases self.glyphs@.len() - from,
    {
        if from < self.glyphs@.len() && self.glyphs@[from].0 != ch {
            self.lemma_find_from_bounds(ch, from + 1);
        }
    }

    /// Every original size is a valid dimension.
    pub proof fn lemma_orig_size_ok(&self, ch: char)
        requires
            self.wf(),
        ensures
            dimension_ok(self.spec_orig_size(ch).0),
            dimension_ok(self.spec_orig_size(ch).1),
            dimension_ok(self.spec_surface_size(ch).0),
            dimension_ok(self.spec_surface_size(ch).1),
    {
        self.lemma_find_from_bounds(ch, 0);
    }

    /// The width of a string is non-negative and grows with it.
    pub proof fn lemma_str_width_nonneg(&self, s: Seq<char>)
        requires
            self.wf(),
        ensures
            0 <= self.spec_str_width(s),
        decreases s.len(),
    {
        if s.len() > 0 {
            self.lemma_str_width_nonneg(s.drop_last());
            self.lemma_orig_size_ok(s.last());
        }
    }

    /// The width of a concatenation is the sum of the widths.
    pub proof fn lemma_str_width_concat(&self, a: Seq<char>, b: Seq<char>)
        ensures
            self.spec_str_width(a + b) == self.spec_str_width(a) + self.spec_str_width(b),
        decreases b.len(),
    {
        if b.len() == 0 {
            assert(a + b =~= a);
        } else {
            assert((a + b).drop_last() =~= a + b.drop_last());
            self.lemma_str_width_concat(a, b.drop_last());
        }
    }

    fn find(&self, ch: char) -> (r: Option<usize>)
        ensures
            match r {
                Some(i) => i < self.glyphs@.len() && self.spec_find_from(ch, 0) == Some(i as int),
                None => self.spec_find_from(ch, 0) is None,
            },
    {
        proof {
            self.lemma_find_from_bounds(ch, 0);
        }
        let mut i: usize = 0;
        while i < self.glyphs.len()
            invariant
                i <= self.glyphs@.len(),
                self.spec_find_from(ch, 0) == self.spec_find_from(ch, i as int),
            decreases self.glyphs@.len() - i,
        {
            if self.glyphs[i].0 == ch {
                return Some(i);
            }
            i += 1;
        }
        None
    }

    /// The size of the surface that draws `ch`.
    pub fn surface_size(&self, ch: char) -> (size: (i32, i32))
        ensures
            size == self.spec_surface_size(ch),
    {
        if char_to_cp437_codepoint(ch) != 0 {
            (self.curses_width, self.curses_height)
        } else {
            match self.find(ch) {
                Some(i) => (self.glyphs[i].1, self.glyphs[i].2),
                None => (self.curses_width, self.curses_height),
            }
        }
    }
}

/// A pixel size divided by two and rounded half away from zero, as the game
/// computes `(v as f32 / 2.0).round()` for sizes it holds exactly.
pub open spec fn half_rounded(v: i32) -> i32 {
    if v >= 0 {
        ((v as int + 1) / 2) as i32
    } else {
        (-((-(v as int) + 1) / 2)) as i32
    }
}

/// Gets the original size of a given character glyph.
pub fn get_glyph_orig_size(glyphs: &GlyphTable, ch: char) -> (size: (i32, i32))
    requires
        glyphs.wf(),
    ensures
        size == glyphs.spec_orig_size(ch),
{
    if char_to_cp437_codepoint(ch) != 0 {
        (glyphs.orig_width, glyphs.orig_height)
    } else {
        let (w, h) = glyphs.surface_size(ch);
        proof {
            glyphs.lemma_orig_size_ok(ch);
        }
        ((w + 1) / 2, (h + 1) / 2)
    }
}


// ---------------------------------------------------------------------------
// Drawing a rasterized glyph

/// Where a rasterized glyph goes on a glyph surface: the bitmap's size, its
/// left edge and bottom edge offsets, the surface's size and the vertical
/// adjustment.
#[derive(Clone, Copy, Debug, PartialEq, Eq, Structural)]
pub struct GlyphPlacement {
    pub width: usize,
    pub height: usize,
    pub xmin: i32,
    pub ymin: i32,
    pub buff_width: i32,
    pub buff_height: i32,
    pub y_offset: i32,
}

/// The surface pixel of bitmap pixel (x, y): the bitmap's top edge goes
/// `ymin + y_offset` above the surface's bottom, its left edge at `xmin`.
pub open spec fn pixel_offset(p: GlyphPlacement, x: int, y: int) -> int {
    let dy = (p.buff_height - p.height) - (p.ymin + p.y_offset);
    (y + dy) * p.buff_width + x + p.xmin
}

/// Bitmap pixel (x, y) drawn: white with the bitmap's alpha, where it falls
/// on the surface.
pub open spec fn draw_pixel(buf: Seq<u8>, p: GlyphPlacement, bitmap: Seq<u8>, x: int, y: int) -> Seq<u8> {
    let o = pixel_offset(p, x, y);
    if 0 <= o < p.buff_width * p.buff_height {
        buf.update(4 * o, 255).update(4 * o + 1, 255).update(4 * o + 2, 255).update(4 * o + 3, bitmap[y * p.width + x])
    } else {
        buf
    }
}

/// Pixels `0..n` of row `y` drawn.
pub open spec fn draw_row(buf: Seq<u8>, p: GlyphPlacement, bitmap: Seq<u8>, y: int, n: nat) -> Seq<u8>
    decreases n,
{
    if n == 0 {
        buf
    } else {
        draw_pixel(draw_row(buf, p, bitmap, y, (n - 1) as nat), p, bitmap, n - 1, y)
    }
}

/// Rows `0..n` drawn.
pub open spec fn draw_rows(buf: Seq<u8>, p: GlyphPlacement, bitmap: Seq<u8>, n: nat) -> Seq<u8>
    decreases n,
{
    if n == 0 {
        buf
    } else {
        draw_row(draw_rows(buf, p, bitmap, (n - 1) as nat), p, bitmap, n - 1, p.width as nat)
    }
}

/// The byte `k` of a drawn glyph pixel: white, with the bitmap's alpha.
pub open spec fn glyph_byte(p: GlyphPlacement, bitmap: Seq<u8>, x: int, y: int, k: int) -> u8 {
    if k == 3 {
        bitmap[y * p.width + x]
    } else {
        255
    }
}

/// Drawing one pixel writes its four bytes where it falls on the surface and
/// nothing else.
proof fn lemma_draw_pixel(buf: Seq<u8>, p: GlyphPlacement, bitmap: Seq<u8>, x: int, y: int)
    requires
        buf.len() == 4 * (p.buff_width * p.buff_height),
    ensures
        draw_pixel(buf, p, bitmap, x, y).len() == buf.len(),
        forall|q: int, k: int|
            0 <= k < 4 && q != pixel_offset(p, x, y) && 0 <= 4 * q + k < buf.len() ==> #[trigger] draw_pixel(
                buf,
                p,
                bitmap,
                x,
                y,
            )[4 * q + k] == buf[4 * q + k],
        0 <= pixel_offset(p, x, y) < p.buff_width * p.buff_height ==> forall|k: int|
            0 <= k < 4 ==> #[trigger] draw_pixel(buf, p, bitmap, x, y)[4 * pixel_offset(p, x, y) + k] == glyph_byte(
                p,
                bitmap,
                x,
                y,
                k,
            ),
{
}

/// Drawing pixels `0..n` of row `y` writes each where it falls, and nothing
/// where none of them falls.
proof fn lemma_draw_row(buf: Seq<u8>, p: GlyphPlacement, bitmap: Seq<u8>, y: int, n: nat)
    requires
        buf.len() == 4 * (p.buff_width * p.buff_height),
    ensures
        draw_row(buf, p, bitmap, y, n).len() == buf.len(),
        forall|q: int, k: int|
            0 <= k < 4 && 0 <= 4 * q + k < buf.len() && (forall|x: int| 0 <= x < n ==> pixel_offset(p, x, y) != q)
                ==> #[trigger] draw_row(buf, p, bitmap, y, n)[4 * q + k] == buf[4 * q + k],
        forall|x0: int, k: int|
            0 <= x0 < n && 0 <= k < 4 && 0 <= pixel_offset(p, x0, y) < p.buff_width * p.buff_height
                ==> #[trigger] draw_row(buf, p, bitmap, y, n)[4 * pixel_offset(p, x0, y) + k] == glyph_byte(
                p,
                bitmap,
                x0,
                y,
                k,
            ),
    decreases n,
{
    if n > 0 {
        let m = (n - 1) as nat;
        lemma_draw_row(buf, p, bitmap, y, m);
        let r0 = draw_row(buf, p, bitmap, y, m);
        lemma_draw_pixel(r0, p, bitmap, m as int, y);
        assert forall|q: int, k: int|
            0 <= k < 4 && 0 <= 4 * q + k < buf.len() && (forall|x: int| 0 <= x < n ==> pixel_offset(p, x, y) != q)
                implies #[trigger] draw_row(buf, p, bitmap, y, n)[4 * q + k] == buf[4 * q + k] by {
            assert(pixel_offset(p, m as int, y) != q);
            assert forall|x: int| 0 <= x < m implies pixel_offset(p, x, y) != q by {}
        }
        assert forall|x0: int, k: int|
            0 <= x0 < n && 0 <= k < 4 && 0 <= pixel_offset(p, x0, y) < p.buff_width * p.buff_height
                implies #[trigger] draw_row(buf, p, bitmap, y, n)[4 * pixel_offset(p, x0, y) + k] == glyph_byte(
                p,
                bitmap,
                x0,
                y,
                k,
            ) by {
            if x0 < m {
                assert(pixel_offset(p, x0, y) != pixel_offset(p, m as int, y));
                assert(0 <= 4 * pixel_offset(p, x0, y) + k < buf.len()) by (nonlinear_arith)
                    requires
                        0 <= pixel_offset(p, x0, y) < p.buff_width * p.buff_height,
                        0 <= k < 4,
                        buf.len() == 4 * (p.buff_width * p.buff_height),
                ;
            }
        }
    }
}

/// The surface row of the glyph's top bitmap row: the bitmap's bottom sits
/// `ymin` above the surface's bottom, raised `y_offset` more.
pub open spec fn glyph_top(p: GlyphPlacement) -> int {
    (p.buff_height - p.height) - (p.ymin + p.y_offset)
}

/// The glyph lies on the surface: its columns `xmin..xmin + width` and its
/// rows, from `(buff_height - height) - (ymin + y_offset)` down `height` of
/// them, are within the surface.
pub open spec fn glyph_fits(p: GlyphPlacement) -> bool {
    let top = glyph_top(p);
    &&& 0 <= p.xmin
    &&& p.xmin + p.width <= p.buff_width
    &&& 0 <= top
    &&& top + p.height <= p.buff_height
}

/// Two cells of a surface `w` wide are the same only at the same row and
/// column.
proof fn lemma_cell_unique(w: int, r1: int, c1: int, r2: int, c2: int)
    requires
        0 <= c1 < w,
        0 <= c2 < w,
        r1 * w + c1 == r2 * w + c2,
    ensures
        r1 == r2,
        c1 == c2,
{
    if r1 < r2 {
        assert(r1 * w + w <= r2 * w) by (nonlinear_arith)
            requires
                r1 < r2,
                w > 0,
        ;
    } else if r2 < r1 {
        assert(r2 * w + w <= r1 * w) by (nonlinear_arith)
            requires
                r2 < r1,
                w > 0,
        ;
    }
}

/// A cell within a surface `w` wide and `h` high is within its pixels.
proof fn lemma_cell_in_range(w: int, h: int, r: int, c: int)
    requires
        0 <= r < h,
        0 <= c < w,
    ensures
        0 <= r * w + c < w * h,
{
    assert(0 <= r * w + c < w * h) by (nonlinear_arith)
        requires
            0 <= r < h,
            0 <= c < w,
    ;
}

/// Drawing rows `0..n` of a glyph that fits writes each of its pixels where
/// it falls, and nothing outside them.
proof fn lemma_draw_rows(buf: Seq<u8>, p: GlyphPlacement, bitmap: Seq<u8>, n: nat)
    requires
        buf.len() == 4 * (p.buff_width * p.buff_height),
        glyph_fits(p),
        n <= p.height,
    ensures
        draw_rows(buf, p, bitmap, n).len() == buf.len(),
        forall|q: int, k: int|
            0 <= k < 4 && 0 <= 4 * q + k < buf.len() && (forall|x: int, y: int|
                0 <= x < p.width && 0 <= y < n ==> pixel_offset(p, x, y) != q) ==> #[trigger] draw_rows(
                buf,
                p,
                bitmap,
                n,
            )[4 * q + k] == buf[4 * q + k],
        forall|x0: int, y0: int, k: int|
            0 <= x0 < p.width && 0 <= y0 < n && 0 <= k < 4 ==> #[trigger] draw_rows(buf, p, bitmap, n)[4
                * pixel_offset(p, x0, y0) + k] == glyph_byte(p, bitmap, x0, y0, k),
    decreases n,
{
    let top = glyph_top(p);
    if n > 0 {
        let m = (n - 1) as nat;
        lemma_draw_rows(buf, p, bitmap, m);
        let r0 = draw_rows(buf, p, bitmap, m);
        lemma_draw_row(r0, p, bitmap, m as int, p.width as nat);
        assert forall|q: int, k: int|
            0 <= k < 4 && 0 <= 4 * q + k < buf.len() && (forall|x: int, y: int|
                0 <= x < p.width && 0 <= y < n ==> pixel_offset(p, x, y) != q) implies #[trigger] draw_rows(
            buf,
            p,
            bitmap,
            n,
        )[4 * q + k] == buf[4 * q + k] by {
            assert forall|x: int| 0 <= x < p.width implies pixel_offset(p, x, m as int) != q by {}
            assert forall|x: int, y: int| 0 <= x < p.width && 0 <= y < m implies pixel_offset(p, x, y) != q by {}
        }
        assert forall|x0: int, y0: int, k: int|
            0 <= x0 < p.width && 0 <= y0 < n && 0 <= k < 4 implies #[trigger] draw_rows(buf, p, bitmap, n)[4
            * pixel_offset(p, x0, y0) + k] == glyph_byte(p, bitmap, x0, y0, k) by {
            let o = pixel_offset(p, x0, y0);
            lemma_cell_in_range(p.buff_width as int, p.buff_height as int, y0 + top, x0 + p.xmin);
            if y0 < m {
                assert forall|x: int| 0 <= x < p.width implies pixel_offset(p, x, m as int) != o by {
                    if pixel_offset(p, x, m as int) == o {
                        lemma_cell_unique(p.buff_width as int, m + top, x + p.xmin, y0 + top, x0 + p.xmin);
                    }
                }
                assert(0 <= 4 * o + k < buf.len());
            }
        }
    }
}

/// Where the glyph fits on the surface, drawing it puts bitmap pixel (x, y)
/// in surface row `y + (buff_height - height) - (ymin + y_offset)` and column
/// `x + xmin`, white with the pixel's alpha: a positive `y_offset` raises the
/// glyph. Every surface pixel outside the glyph's box keeps its bytes.
pub proof fn lemma_draw_glyph_places(buf: Seq<u8>, p: GlyphPlacement, bitmap: Seq<u8>)
    requires
        buf.len() == 4 * (p.buff_width * p.buff_height),
        glyph_fits(p),
    ensures
        draw_rows(buf, p, bitmap, p.height as nat).len() == buf.len(),
        forall|x: int, y: int, k: int|
            0 <= x < p.width && 0 <= y < p.height && 0 <= k < 4 ==> #[trigger] draw_rows(buf, p, bitmap, p.height as nat)[4
                * ((y + glyph_top(p)) * p.buff_width + x + p.xmin) + k] == if k == 3 {
                bitmap[y * p.width + x]
            } else {
                255u8
            },
        forall|r: int, c: int, k: int|
            0 <= r < p.buff_height && 0 <= c < p.buff_width && 0 <= k < 4 && !(glyph_top(p) <= r < glyph_top(p)
                + p.height && p.xmin <= c < p.xmin + p.width) ==> #[trigger] draw_rows(buf, p, bitmap, p.height as nat)[4
                * (r * p.buff_width + c) + k] == buf[4 * (r * p.buff_width + c) + k],
{
    let top = glyph_top(p);
    let out = draw_rows(buf, p, bitmap, p.height as nat);
    lemma_draw_rows(buf, p, bitmap, p.height as nat);
    assert forall|x: int, y: int, k: int| 0 <= x < p.width && 0 <= y < p.height && 0 <= k < 4 implies #[trigger] out[4
        * ((y + top) * p.buff_width + x + p.xmin) + k] == if k == 3 {
        bitmap[y * p.width + x]
    } else {
        255u8
    } by {
        assert(pixel_offset(p, x, y) == (y + top) * p.buff_width + x + p.xmin);
        assert(out[4 * pixel_offset(p, x, y) + k] == glyph_byte(p, bitmap, x, y, k));
    }
    assert forall|r: int, c: int, k: int|
        0 <= r < p.buff_height && 0 <= c < p.buff_width && 0 <= k < 4 && !(top <= r < top + p.height && p.xmin <= c
            < p.xmin + p.width) implies #[trigger] out[4 * (r * p.buff_width + c) + k] == buf[4 * (r * p.buff_width + c)
        + k] by {
        let q = r * p.buff_width + c;
        lemma_cell_in_range(p.buff_width as int, p.buff_height as int, r, c);
        assert forall|x: int, y: int| 0 <= x < p.width && 0 <= y < p.height implies pixel_offset(p, x, y) != q by {
            if pixel_offset(p, x, y) == q {
                lemma_cell_unique(p.buff_width as int, y + top, x + p.xmin, r, c);
            }
        }
        assert(0 <= 4 * q + k < buf.len());
    }
}

/// Draw a glyph's bitmap onto a surface's RGBA pixels, row by row, skipping
/// pixels that fall outside the surface.
pub fn draw_glyph(buffer: &mut Vec<u8>, bitmap: &Vec<u8>, p: GlyphPlacement)
    requires
        bitmap@.len() == p.width * p.height,
        old(buffer)@.len() == 4 * (p.buff_width * p.buff_height),
    ensures
        final(buffer)@ == draw_rows(old(buffer)@, p, bitmap@, p.height as nat),
{
    // Offsets are computed without bounds: every value here fits an i128.
    let bw = p.buff_width as i128;
    let dx = p.xmin as i128;
    let dy: i128 = (p.buff_height as i128 - p.height as i128) - (p.ymin as i128 + p.y_offset as i128);
    proof {
        assert(-0x8000_0000 * 0x8000_0000 <= bw * (p.buff_height as i128) <= 0x8000_0000 * 0x8000_0000)
            by (nonlinear_arith)
            requires
                -0x8000_0000 <= bw < 0x8000_0000,
                -0x8000_0000 <= p.buff_height < 0x8000_0000,
        ;
    }
    let buff_size: i128 = bw * (p.buff_height as i128);
    let bitmap_len = bitmap.len();
    let buffer_len = buffer.len();
    let mut y: usize = 0;
    while y < p.height
        invariant
            y <= p.height,
            bw == p.buff_width,
            dx == p.xmin,
            dy == (p.buff_height - p.height) - (p.ymin + p.y_offset),
            buff_size == p.buff_width * p.buff_height,
            bitmap@.len() == p.width * p.height,
            bitmap_len == bitmap@.len(),
            buffer_len == buffer@.len(),
            buffer@.len() == 4 * buff_size,
            buffer@ == draw_rows(old(buffer)@, p, bitmap@, y as nat),
        decreases p.height - y,
    {
        let ghost row_start = buffer@;
        let mut x: usize = 0;
        while x < p.width
            invariant
                y < p.height,
                x <= p.width,
                bw == p.buff_width,
                dx == p.xmin,
                dy == (p.buff_height - p.height) - (p.ymin + p.y_offset),
                buff_size == p.buff_width * p.buff_height,
                bitmap@.len() == p.width * p.height,
                bitmap_len == bitmap@.len(),
                buffer_len == buffer@.len(),
                buffer@.len() == 4 * buff_size,
                buffer@ == draw_row(row_start, p, bitmap@, y as int, x as nat),
            decreases p.width - x,
        {
            proof {
                assert(0 <= y * p.width && y * p.width + x < p.width * p.height) by (nonlinear_arith)
                    requires
                        y < p.height,
                        x < p.width,
                ;
                assert(-0x2_0000_0000_0000_0000 <= (y as int + dy) <= 0x2_0000_0000_0000_0000);
                assert(-0x2_0000_0000_0000_0000 * 0x8000_0000 <= (y as int + dy) * bw <= 0x2_0000_0000_0000_0000
                    * 0x8000_0000) by (nonlinear_arith)
                    requires
                        -0x2_0000_0000_0000_0000 <= (y as int + dy) <= 0x2_0000_0000_0000_0000,
                        -0x8000_0000 <= bw <= 0x8000_0000,
                ;
            }
            let alpha = bitmap[y * p.width + x];
            let offset: i128 = (y as i128 + dy) * bw + x as i128 + dx;
            proof {
                assert(offset == pixel_offset(p, x as int, y as int));
            }
            if 0 <= offset && offset < buff_size {
                assert(4 * offset + 3 < buffer_len);
                let o = offset as usize;
                buffer.set(o * 4, 255);
                buffer.set(o * 4 + 1, 255);
                buffer.set(o * 4 + 2, 255);
                buffer.set(o * 4 + 3, alpha);
            }
            x += 1;
        }
        y += 1;
    }
}

} // verus!
