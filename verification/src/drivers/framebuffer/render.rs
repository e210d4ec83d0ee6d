//! Framebuffer rendering primitives: glyph cells, anti-aliased glyphs,
//! rectangle fills and scrolling.
//!
//! The framebuffer is a byte buffer whose rows lie `pitch` bytes apart;
//! pixel `p` of a row sits at byte `p * bytes_per_pixel` of it.  A packed
//! colour gives the bytes of a pixel, lowest first.

use vstd::prelude::*;
use crate::drivers::compositor::memory::color_byte;
use crate::drivers::compositor::ops::{
    filled_rect, in_block, block_col, scrolled, cleared_rows, fill_span, lemma_block_row,
    lemma_row_end, lemma_row_positive, parallel_fill, scroll_up_fast,
};
use crate::drivers::compositor::config::PARALLEL_SCROLL_THRESHOLD;
use super::color::PackedColor;

verus! {

/// Width of a font glyph in pixels.
pub const BASE_FONT_WIDTH: usize = 8;
/// Height of a font glyph in pixels.
pub const BASE_FONT_HEIGHT: usize = 8;
/// Horizontal scale of a glyph on screen.
pub const SCALE_X: usize = 2;
/// Vertical scale of a glyph on screen.
pub const SCALE_Y: usize = 2;
/// Width of a text cell in pixels.
pub const CELL_WIDTH: usize = 16;
/// Height of a text cell in pixels.
pub const CELL_HEIGHT: usize = 16;

/// The 32-bit value whose little-endian bytes are the colour's.
pub open spec fn color_value(c: PackedColor) -> u32 {
    (c.bytes[0] as u32) | ((c.bytes[1] as u32) << 8u32) | ((c.bytes[2] as u32) << 16u32) | ((c.bytes[3] as u32) << 24u32)
}

/// Bit `b` (0 to 7, lowest first) of a glyph row is set.
pub open spec fn glyph_bit(bits: u8, b: int) -> bool {
    (bits >> (b as u8)) & 1u8 == 1u8
}

/// `old` with rows `[py, py + n)` of the 16 x 16 cell at pixel (px, py)
/// drawn from `glyph`: each glyph pixel covers 2 x 2 screen pixels, in
/// `fg` where its bit is set and `bg` elsewhere.
pub open spec fn cell_rows(old: Seq<u8>, pitch: int, bpp: int, px: int, py: int, glyph: Seq<u8>, fg: u32, bg: u32, n: int) -> Seq<u8> {
    Seq::new(
        old.len(),
        |i: int|
            if bpp > 0 && in_block(pitch, py, n, px * bpp, 16 * bpp, i) {
                let col = block_col(pitch, px * bpp, i);
                let bits = glyph[(i / pitch - py) / 2];
                color_byte(if glyph_bit(bits, (col / bpp) / 2) { fg } else { bg }, col % bpp)
            } else {
                old[i]
            },
    )
}

/// The byte at `i`, holding byte `c` of its pixel, after drawing a glyph
/// pixel of coverage `a` in `fg` over it: at 4 bytes per pixel blended
/// (byte 3 cleared) unless fully transparent or opaque; otherwise set
/// where the coverage exceeds half.
pub open spec fn ttf_byte(old: u8, bpp: int, c: int, a: u8, fg: u32) -> u8 {
    if bpp == 4 {
        if a == 0 {
            old
        } else if a == 255 {
            color_byte(fg, c)
        } else if c == 3 {
            0
        } else {
            ((color_byte(fg, c) * a + old * (255 - a)) / 255) as u8
        }
    } else if a > 128 {
        color_byte(fg, c)
    } else {
        old
    }
}

/// `old` with rows `[dy, dy + n)` of a `w`-pixel-wide glyph drawn at pixel
/// (dx, dy): glyph row `skip + r` of `data`, whose rows are `gw` bytes,
/// covers screen row `dy + r`.
pub open spec fn ttf_rows(old: Seq<u8>, pitch: int, bpp: int, dx: int, dy: int, data: Seq<u8>, gw: int, w: int, skip: int, fg: u32, n: int) -> Seq<u8> {
    Seq::new(
        old.len(),
        |i: int|
            if bpp > 0 && in_block(pitch, dy, n, dx * bpp, w * bpp, i) {
                let col = block_col(pitch, dx * bpp, i);
                let a = data[(i / pitch - dy + skip) * gw + col / bpp];
                ttf_byte(old[i], bpp, col % bpp, a, fg)
            } else {
                old[i]
            },
    )
}

/// The part of `[start, start + len)` inside `[0, limit)`, as a length.
pub open spec fn clipped(start: int, len: int, limit: int) -> int {
    let end = if start + len > usize::MAX { usize::MAX as int } else { start + len };
    let end = if end < limit { end } else { limit };
    if end > start { end - start } else { 0 }
}

/// Where an anti-aliased glyph lands: the screen pixel of its top-left
/// corner and how many of its rows lie above the screen.
pub open spec fn ttf_origin(px: int, py: int, bearing_x: int, bearing_y: int) -> (int, int, int) {
    let x = if px + bearing_x < 0 { 0 } else { px + bearing_x };
    let y = py - bearing_y;
    if y < 0 {
        (x, 0, -y)
    } else {
        (x, y, 0)
    }
}

/// A rendering context: the framebuffer and its geometry.
pub struct RenderContext {
    pub buffer: Vec<u8>,
    pub width: usize,
    pub height: usize,
    pub pitch: usize,
    pub bytes_per_pixel: usize,
}

proof fn lemma_color_value(c: PackedColor)
    ensures
        forall|k: int| 0 <= k < 4 ==> #[trigger] color_byte(color_value(c), k) == c.bytes[k],
{
    let b0 = c.bytes[0];
    let b1 = c.bytes[1];
    let b2 = c.bytes[2];
    let b3 = c.bytes[3];
    let v = color_value(c);
    assert(v == (b0 as u32) | ((b1 as u32) << 8u32) | ((b2 as u32) << 16u32) | ((b3 as u32) << 24u32));
    assert((v & 0xff) as u8 == b0 && ((v >> 8u32) & 0xff) as u8 == b1 && ((v >> 16u32) & 0xff) as u8 == b2
        && ((v >> 24u32) & 0xff) as u8 == b3) by (bit_vector)
        requires
            v == (b0 as u32) | ((b1 as u32) << 8u32) | ((b2 as u32) << 16u32) | ((b3 as u32) << 24u32),
    ;
}

fn color_value_exec(c: PackedColor) -> (r: u32)
    ensures
        r == color_value(c),
{
    (c.bytes[0] as u32) | ((c.bytes[1] as u32) << 8u32) | ((c.bytes[2] as u32) << 16u32) | ((c.bytes[3] as u32) << 24u32)
}

/// Draw 16 pixels of a glyph row at byte `at`: pixel `p` in `fg` where
/// bit `p / 2` of `bits` is set, else `bg`.
fn draw_glyph_row(buf: &mut Vec<u8>, at: usize, bits: u8, bpp: usize, fg: u32, bg: u32)
    requires
        1 <= bpp <= 4,
        at + 16 * bpp <= old(buf).len(),
    ensures
        final(buf)@.len() == old(buf)@.len(),
        forall|i: int|
            0 <= i < old(buf)@.len() ==> #[trigger] final(buf)@[i] == (if at <= i < at + 16 * bpp {
                color_byte(if glyph_bit(bits, ((i - at) / (bpp as int)) / 2) { fg } else { bg }, (i - at) % (bpp as int))
            } else {
                old(buf)@[i]
            }),
{
    let n = 16 * bpp;
    let mut j: usize = 0;
    while j < n
        invariant
            j <= n,
            n == 16 * bpp,
            1 <= bpp <= 4,
            at + n <= buf.len(),
            buf@.len() == old(buf)@.len(),
            forall|i: int|
                0 <= i < old(buf)@.len() ==> #[trigger] buf@[i] == (if at <= i < at + j {
                    color_byte(if glyph_bit(bits, ((i - at) / (bpp as int)) / 2) { fg } else { bg }, (i - at) % (bpp as int))
                } else {
                    old(buf)@[i]
                }),
        decreases n - j,
    {
        let p = j / bpp;
        let c = j % bpp;
        let b = p / 2;
        assert(b < 8) by (nonlinear_arith)
            requires
                p == j / bpp,
                b == p / 2,
                j < 16 * bpp,
                bpp >= 1,
        ;
        let set = (bits >> (b as u8)) & 1u8 == 1u8;
        let color = if set { fg } else { bg };
        let byte = if c == 0 {
            (color & 0xff) as u8
        } else if c == 1 {
            ((color >> 8u32) & 0xff) as u8
        } else if c == 2 {
            ((color >> 16u32) & 0xff) as u8
        } else {
            ((color >> 24u32) & 0xff) as u8
        };
        buf.set(at + j, byte);
        j = j + 1;
    }
}

/// Blend `w` pixels of glyph coverage `data[src..]` into the row at byte
/// `at` (see `ttf_byte`).
fn blend_glyph_row(buf: &mut Vec<u8>, at: usize, data: &[u8], src: usize, w: usize, bpp: usize, fg: u32)
    requires
        1 <= bpp <= 4,
        at + w * bpp <= old(buf).len(),
        src + w <= data.len(),
    ensures
        final(buf)@.len() == old(buf)@.len(),
        forall|i: int|
            0 <= i < old(buf)@.len() ==> #[trigger] final(buf)@[i] == (if at <= i < at + w * bpp {
                ttf_byte(old(buf)@[i], bpp as int, (i - at) % (bpp as int), data@[src + (i - at) / (bpp as int)], fg)
            } else {
                old(buf)@[i]
            }),
{
    let n = w * bpp;
    let mut j: usize = 0;
    while j < n
        invariant
            j <= n,
            n == w * bpp,
            1 <= bpp <= 4,
            at + n <= buf.len(),
            src + w <= data.len(),
            buf@.len() == old(buf)@.len(),
            forall|i: int|
                0 <= i < old(buf)@.len() ==> #[trigger] buf@[i] == (if at <= i < at + j {
                    ttf_byte(old(buf)@[i], bpp as int, (i - at) % (bpp as int), data@[src + (i - at) / (bpp as int)], fg)
                } else {
                    old(buf)@[i]
                }),
        decreases n - j,
    {
        let x = j / bpp;
        let c = j % bpp;
        assert(x < w) by (nonlinear_arith)
            requires
                x == j / bpp,
                j < w * bpp,
                bpp >= 1,
        ;
        let a = data[src + x];
        let old_byte = buf[at + j];
        let fgc = if c == 0 {
            (fg & 0xff) as u8
        } else if c == 1 {
            ((fg >> 8u32) & 0xff) as u8
        } else if c == 2 {
            ((fg >> 16u32) & 0xff) as u8
        } else {
            ((fg >> 24u32) & 0xff) as u8
        };
        assert(fgc == color_byte(fg, c as int));
        let byte = if bpp == 4 {
            if a == 0 {
                old_byte
            } else if a == 255 {
                fgc
            } else if c == 3 {
                0
            } else {
                assert((fgc as u32) * (a as u32) <= 65025 && (old_byte as u32) * (255 - a as u32) <= 65025) by (nonlinear_arith)
                    requires
                        fgc <= 255,
                        old_byte <= 255,
                        a <= 255,
                ;
                let v = ((fgc as u32) * (a as u32) + (old_byte as u32) * (255 - a as u32)) / 255;
                assert(v <= 255) by (nonlinear_arith)
                    requires
                        v == ((fgc as u32) * (a as u32) + (old_byte as u32) * (255 - a as u32)) / 255,
                        fgc <= 255,
                        old_byte <= 255,
                        a <= 255,
                ;
                v as u8
            }
        } else if a > 128 {
            fgc
        } else {
            old_byte
        };
        buf.set(at + j, byte);
        j = j + 1;
    }
}

proof fn lemma_glyph_index(y: int, skip: int, gh: int, gw: int, x: int)
    requires
        0 <= y,
        0 <= skip,
        y + skip < gh,
        0 <= x < gw,
    ensures
        (y + skip) * gw + x < gw * gh,
        0 <= (y + skip) * gw,
{
    assert((y + skip) * gw + x < gw * gh) by (nonlinear_arith)
        requires
            y + skip < gh,
            0 <= x < gw,
            0 <= y + skip,
    ;
    assert(0 <= (y + skip) * gw) by (nonlinear_arith)
        requires
            0 <= y + skip,
            0 <= gw,
    ;
}

impl RenderContext {
    /// The geometry fits the buffer: 1 to 4 bytes a pixel, rows of
    /// `width` pixels within `pitch`, `height` rows within the buffer.
    pub open spec fn wf(&self) -> bool {
        &&& 1 <= self.bytes_per_pixel <= 4
        &&& self.width * self.bytes_per_pixel <= self.pitch
        &&& self.height * self.pitch <= self.buffer@.len()
    }

    /// A context for a framebuffer of `bpp` bits a pixel.
    pub fn new(buffer: Vec<u8>, width: usize, height: usize, pitch: usize, bpp: u16) -> (r: Self)
        ensures
            r.buffer@ == buffer@,
            r.width == width,
            r.height == height,
            r.pitch == pitch,
            r.bytes_per_pixel == (bpp + 7) / 8,
    {
        RenderContext { buffer, width, height, pitch, bytes_per_pixel: ((bpp as usize) + 7) / 8 }
    }

    /// Draw a character glyph at text cell (col, row); a cell that does
    /// not fit on the screen is not drawn.
    pub fn draw_cell(&mut self, col: usize, row: usize, glyph: &[u8; 8], fg: PackedColor, bg: PackedColor)
        requires
            old(self).wf(),
            (col + 1) * 16 <= usize::MAX,
            (row + 1) * 16 <= usize::MAX,
        ensures
            final(self).wf(),
            final(self).width == old(self).width && final(self).height == old(self).height,
            final(self).pitch == old(self).pitch && final(self).bytes_per_pixel == old(self).bytes_per_pixel,
            final(self).buffer@ == (if col * 16 + 16 > old(self).width || row * 16 + 16 > old(self).height {
                old(self).buffer@
            } else {
                cell_rows(old(self).buffer@, old(self).pitch as int, old(self).bytes_per_pixel as int,
                    col * 16, row * 16, glyph@, color_value(fg), color_value(bg), 16)
            }),
    {
        let pixel_x = col * CELL_WIDTH;
        let pixel_y = row * CELL_HEIGHT;
        if pixel_x + CELL_WIDTH > self.width || pixel_y + CELL_HEIGHT > self.height {
            return;
        }
        let fgv = color_value_exec(fg);
        let bgv = color_value_exec(bg);
        let pitch = self.pitch;
        let bpp = self.bytes_per_pixel;
        let ghost orig = self.buffer@;
        proof {
            lemma_row_positive(pixel_x as int, bpp as int);
            assert(pixel_x * bpp + 16 * bpp <= self.width * bpp) by (nonlinear_arith)
                requires
                    pixel_x + 16 <= self.width,
                    bpp >= 1,
            ;
            assert(pitch > 0);
            assert((pixel_y + 15) * pitch + pitch <= self.height * pitch) by (nonlinear_arith)
                requires
                    pixel_y + 16 <= self.height,
                    pitch >= 1,
            ;
            assert(self.buffer@ =~= cell_rows(orig, pitch as int, bpp as int, pixel_x as int, pixel_y as int, glyph@, fgv, bgv, 0));
        }
        let mut r: usize = 0;
        while r < CELL_HEIGHT
            invariant
                r <= 16,
                1 <= bpp <= 4,
                pitch > 0,
                pixel_x * bpp + 16 * bpp <= pitch,
                (pixel_y + 15) * pitch + pitch <= self.buffer.len(),
                self.wf(),
                self.pitch == pitch,
                self.bytes_per_pixel == bpp,
                self.width == old(self).width && self.height == old(self).height,
                self.buffer@.len() == orig.len(),
                self.buffer@ == cell_rows(orig, pitch as int, bpp as int, pixel_x as int, pixel_y as int, glyph@, fgv, bgv, r as int),
            decreases 16 - r,
        {
            proof {
                lemma_row_end(pitch as int, (pixel_y + r) as int, (pixel_y + 15) as int, pitch as int, self.buffer.len() as int);
            }
            let base = (pixel_y + r) * pitch + pixel_x * bpp;
            let bits = glyph[r / 2];
            let ghost prev = self.buffer@;
            draw_glyph_row(&mut self.buffer, base, bits, bpp, fgv, bgv);
            proof {
                let next = cell_rows(orig, pitch as int, bpp as int, pixel_x as int, pixel_y as int, glyph@, fgv, bgv, (r + 1) as int);
                assert forall|i: int| 0 <= i < self.buffer@.len() implies self.buffer@[i] == next[i] by {
                    lemma_block_row(pitch as int, (pixel_y + r) as int, pixel_x * bpp, 16 * bpp, i);
                }
                assert(self.buffer@ =~= next);
            }
            r = r + 1;
        }
    }

    /// Clear text cell (col, row) to `bg`; a cell off the screen is left.
    pub fn clear_cell(&mut self, col: usize, row: usize, bg: PackedColor)
        requires
            old(self).wf(),
            (col + 1) * 16 <= usize::MAX,
            (row + 1) * 16 <= usize::MAX,
        ensures
            final(self).wf(),
            final(self).width == old(self).width && final(self).height == old(self).height,
            final(self).pitch == old(self).pitch && final(self).bytes_per_pixel == old(self).bytes_per_pixel,
            final(self).buffer@ == (if col * 16 + 16 > old(self).width || row * 16 + 16 > old(self).height {
                old(self).buffer@
            } else {
                filled_rect(old(self).buffer@, old(self).pitch as int, old(self).bytes_per_pixel as int,
                    col * 16, row * 16, 16, 16, color_value(bg))
            }),
    {
        let pixel_x = col * CELL_WIDTH;
        let pixel_y = row * CELL_HEIGHT;
        if pixel_x + CELL_WIDTH > self.width || pixel_y + CELL_HEIGHT > self.height {
            return;
        }
        self.fill_rect(pixel_x, pixel_y, CELL_WIDTH, CELL_HEIGHT, bg);
    }

    /// Fill the rectangle at pixel (x, y), clipped to the screen, with
    /// `color`.
    pub fn fill_rect(&mut self, start_x: usize, start_y: usize, width: usize, height: usize, color: PackedColor)
        requires
            old(self).wf(),
        ensures
            final(self).wf(),
            final(self).width == old(self).width && final(self).height == old(self).height,
            final(self).pitch == old(self).pitch && final(self).bytes_per_pixel == old(self).bytes_per_pixel,
            final(self).buffer@ == filled_rect(old(self).buffer@, old(self).pitch as int, old(self).bytes_per_pixel as int,
                start_x as int, start_y as int, clipped(start_x as int, width as int, old(self).width as int),
                clipped(start_y as int, height as int, old(self).height as int), color_value(color)),
    {
        let end_x = {
            let e = start_x.saturating_add(width);
            if e < self.width { e } else { self.width }
        };
        let end_y = {
            let e = start_y.saturating_add(height);
            if e < self.height { e } else { self.height }
        };
        let actual_width = end_x.saturating_sub(start_x);
        let actual_height = end_y.saturating_sub(start_y);
        let colorv = color_value_exec(color);
        let pitch = self.pitch;
        let bpp = self.bytes_per_pixel;
        let ghost orig = self.buffer@;
        if actual_width == 0 || actual_height == 0 {
            assert(self.buffer@ =~= filled_rect(orig, pitch as int, bpp as int, start_x as int, start_y as int,
                actual_width as int, actual_height as int, colorv));
            return;
        }
        proof {
            lemma_row_positive(actual_width as int, bpp as int);
            assert(start_x * bpp + actual_width * bpp <= self.width * bpp) by (nonlinear_arith)
                requires
                    start_x + actual_width <= self.width,
                    bpp >= 1,
            ;
            assert(pitch > 0);
            assert((start_y + actual_height - 1) * pitch + pitch <= self.height * pitch) by (nonlinear_arith)
                requires
                    start_y + actual_height <= self.height,
                    actual_height >= 1,
                    pitch >= 1,
            ;
            assert(self.buffer@ =~= filled_rect(orig, pitch as int, bpp as int, start_x as int, start_y as int,
                actual_width as int, 0, colorv));
        }
        let mut r: usize = 0;
        while r < actual_height
            invariant
                r <= actual_height,
                actual_width > 0,
                1 <= bpp <= 4,
                pitch > 0,
                start_x * bpp + actual_width * bpp <= pitch,
                (start_y + actual_height - 1) * pitch + pitch <= self.buffer.len(),
                self.wf(),
                self.pitch == pitch,
                self.bytes_per_pixel == bpp,
                self.width == old(self).width && self.height == old(self).height,
                self.buffer@.len() == orig.len(),
                self.buffer@ == filled_rect(orig, pitch as int, bpp as int, start_x as int, start_y as int,
                    actual_width as int, r as int, colorv),
            decreases actual_height - r,
        {
            proof {
                lemma_row_end(pitch as int, (start_y + r) as int, (start_y + actual_height - 1) as int, pitch as int,
                    self.buffer.len() as int);
            }
            let base = (start_y + r) * pitch + start_x * bpp;
            let ghost prev = self.buffer@;
            fill_span(&mut self.buffer, base, actual_width, bpp, colorv);
            proof {
                let next = filled_rect(orig, pitch as int, bpp as int, start_x as int, start_y as int,
                    actual_width as int, (r + 1) as int, colorv);
                assert forall|i: int| 0 <= i < self.buffer@.len() implies self.buffer@[i] == next[i] by {
                    lemma_block_row(pitch as int, (start_y + r) as int, start_x * bpp, actual_width * bpp, i);
                }
                assert(self.buffer@ =~= next);
            }
            r = r + 1;
        }
    }

    /// Clear the rectangle at pixel (x, y), clipped to the screen, to
    /// `bg`; nothing when the corner lies off the screen.
    pub fn clear_rect(&mut self, x: usize, y: usize, width: usize, height: usize, bg: PackedColor)
        requires
            old(self).wf(),
        ensures
            final(self).wf(),
            final(self).width == old(self).width && final(self).height == old(self).height,
            final(self).pitch == old(self).pitch && final(self).bytes_per_pixel == old(self).bytes_per_pixel,
            final(self).buffer@ == (if x >= old(self).width || y >= old(self).height {
                old(self).buffer@
            } else {
                filled_rect(old(self).buffer@, old(self).pitch as int, old(self).bytes_per_pixel as int,
                    x as int, y as int, clipped(x as int, width as int, old(self).width as int),
                    clipped(y as int, height as int, old(self).height as int), color_value(bg))
            }),
    {
        if x >= self.width || y >= self.height {
            return;
        }
        let actual_width = if width < self.width - x { width } else { self.width - x };
        let actual_height = if height < self.height - y { height } else { self.height - y };
        self.fill_rect(x, y, actual_width, actual_height, bg);
    }

    /// Draw an anti-aliased glyph bitmap (`glyph_width` x `glyph_height`
    /// coverage bytes) with its origin at pixel (pixel_x, pixel_y), the
    /// bearings placing its top-left corner (see `ttf_origin`); the part
    /// off the screen is cut.
    pub fn draw_ttf_glyph(
        &mut self,
        pixel_x: usize,
        pixel_y: usize,
        glyph_data: &[u8],
        glyph_width: usize,
        glyph_height: usize,
        bearing_x: i16,
        bearing_y: i16,
        fg: PackedColor,
        bg: PackedColor,
    )
        requires
            old(self).wf(),
            pixel_x < 0x4000_0000,
            pixel_y < 0x4000_0000,
            glyph_width > 0 && glyph_height > 0 && glyph_data@.len() > 0 ==> glyph_width * glyph_height <= glyph_data@.len(),
        ensures
            final(self).wf(),
            final(self).width == old(self).width && final(self).height == old(self).height,
            final(self).pitch == old(self).pitch && final(self).bytes_per_pixel == old(self).bytes_per_pixel,
            final(self).buffer@ == ({
                let (dx, dy, skip) = ttf_origin(pixel_x as int, pixel_y as int, bearing_x as int, bearing_y as int);
                if glyph_width == 0 || glyph_height == 0 || glyph_data@.len() == 0 || dx >= old(self).width
                    || dy >= old(self).height || skip >= glyph_height {
                    old(self).buffer@
                } else {
                    let w = if old(self).width - dx < glyph_width { old(self).width - dx } else { glyph_width as int };
                    let h = if old(self).height - dy < glyph_height - skip { old(self).height - dy } else { glyph_height - skip };
                    ttf_rows(old(self).buffer@, old(self).pitch as int, old(self).bytes_per_pixel as int, dx, dy,
                        glyph_data@, glyph_width as int, w, skip, color_value(fg), h)
                }
            }),
    {
        if glyph_width == 0 || glyph_height == 0 || glyph_data.len() == 0 {
            return;
        }
        let sx = (pixel_x as i32) + (bearing_x as i32);
        let draw_x: usize = if sx < 0 { 0 } else { sx as usize };
        let draw_y_signed = (pixel_y as i32) - (bearing_y as i32);
        let (draw_y, skip_rows): (usize, usize) = if draw_y_signed < 0 {
            (0, (-draw_y_signed) as usize)
        } else {
            (draw_y_signed as usize, 0)
        };
        if draw_x >= self.width || draw_y >= self.height || skip_rows >= glyph_height {
            return;
        }
        let max_width = if self.width - draw_x < glyph_width { self.width - draw_x } else { glyph_width };
        let remaining_height = glyph_height - skip_rows;
        let max_height = if self.height - draw_y < remaining_height { self.height - draw_y } else { remaining_height };
        let fgv = color_value_exec(fg);
        let pitch = self.pitch;
        let bpp = self.bytes_per_pixel;
        let ghost orig = self.buffer@;
        proof {
            lemma_row_positive(max_width as int, bpp as int);
            assert(draw_x * bpp + max_width * bpp <= self.width * bpp) by (nonlinear_arith)
                requires
                    draw_x + max_width <= self.width,
                    bpp >= 1,
            ;
            assert(pitch > 0);
            assert((draw_y + max_height - 1) * pitch + pitch <= self.height * pitch) by (nonlinear_arith)
                requires
                    draw_y + max_height <= self.height,
                    max_height >= 1,
                    pitch >= 1,
            ;
            assert(self.buffer@ =~= ttf_rows(orig, pitch as int, bpp as int, draw_x as int, draw_y as int,
                glyph_data@, glyph_width as int, max_width as int, skip_rows as int, fgv, 0));
        }
        let mut y: usize = 0;
        while y < max_height
            invariant
                y <= max_height,
                max_width > 0,
                max_width <= glyph_width,
                skip_rows + max_height <= glyph_height,
                glyph_width * glyph_height <= glyph_data.len(),
                1 <= bpp <= 4,
                pitch > 0,
                draw_x * bpp + max_width * bpp <= pitch,
                (draw_y + max_height - 1) * pitch + pitch <= self.buffer.len(),
                self.wf(),
                self.pitch == pitch,
                self.bytes_per_pixel == bpp,
                self.width == old(self).width && self.height == old(self).height,
                self.buffer@.len() == orig.len(),
                self.buffer@ == ttf_rows(orig, pitch as int, bpp as int, draw_x as int, draw_y as int,
                    glyph_data@, glyph_width as int, max_width as int, skip_rows as int, fgv, y as int),
            decreases max_height - y,
        {
            proof {
                lemma_row_end(pitch as int, (draw_y + y) as int, (draw_y + max_height - 1) as int, pitch as int,
                    self.buffer.len() as int);
                lemma_glyph_index(y as int, skip_rows as int, glyph_height as int, glyph_width as int, (glyph_width - 1) as int);
            }
            let base = (draw_y + y) * pitch + draw_x * bpp;
            let src = (y + skip_rows) * glyph_width;
            let ghost prev = self.buffer@;
            blend_glyph_row(&mut self.buffer, base, glyph_data, src, max_width, bpp, fgv);
            proof {
                let next = ttf_rows(orig, pitch as int, bpp as int, draw_x as int, draw_y as int,
                    glyph_data@, glyph_width as int, max_width as int, skip_rows as int, fgv, (y + 1) as int);
                assert forall|i: int| 0 <= i < self.buffer@.len() implies self.buffer@[i] == next[i] by {
                    lemma_block_row(pitch as int, (draw_y + y) as int, draw_x * bpp, max_width * bpp, i);
                }
                assert(self.buffer@ =~= next);
            }
            y = y + 1;
        }
    }

    /// Scroll the screen up by one text row, clearing the freed rows to
    /// `bg_color` (see `scrolled`).
    pub fn scroll_up(&mut self, bg_color: u32)
        requires
            old(self).wf(),
        ensures
            final(self).wf(),
            final(self).width == old(self).width && final(self).height == old(self).height,
            final(self).pitch == old(self).pitch && final(self).bytes_per_pixel == old(self).bytes_per_pixel,
            final(self).buffer@ == scrolled(old(self).buffer@, old(self).pitch as int, old(self).width as int,
                old(self).height as int, old(self).bytes_per_pixel as int, 16, bg_color),
    {
        if 16 < self.height {
            proof {
                assert((self.height - 1) * self.pitch + self.pitch <= self.height * self.pitch) by (nonlinear_arith)
                    requires
                        self.height >= 1,
                ;
            }
        }
        scroll_up_fast(&mut self.buffer, self.pitch, self.width, self.height, self.bytes_per_pixel, CELL_HEIGHT, bg_color);
    }

    /// Clear the whole screen to `bg_color`, sharing the rows among
    /// `workers` CPUs once the compositor is `initialized` (see
    /// `parallel_fill`).
    pub fn clear_screen(&mut self, bg_color: u32, initialized: bool, workers: usize)
        requires
            old(self).wf(),
            workers * 16 <= usize::MAX,
        ensures
            final(self).wf(),
            final(self).width == old(self).width && final(self).height == old(self).height,
            final(self).pitch == old(self).pitch && final(self).bytes_per_pixel == old(self).bytes_per_pixel,
            final(self).buffer@ == (if initialized && workers > 1 && old(self).height * old(self).pitch >= PARALLEL_SCROLL_THRESHOLD
                && old(self).height >= workers * 16 {
                filled_rect(old(self).buffer@, old(self).pitch as int, old(self).bytes_per_pixel as int, 0, 0,
                    old(self).width as int, old(self).height as int, bg_color)
            } else {
                cleared_rows(old(self).buffer@, old(self).pitch as int, old(self).bytes_per_pixel as int,
                    old(self).width as int, 0, old(self).height as int, bg_color)
            }),
    {
        if self.height > 0 {
            proof {
                assert((self.height - 1) * self.pitch + self.pitch <= self.height * self.pitch) by (nonlinear_arith)
                    requires
                        self.height >= 1,
                ;
            }
        }
        assert(self.height * self.pitch <= self.buffer.len());
        parallel_fill(&mut self.buffer, self.pitch, self.width, self.height, self.bytes_per_pixel, bg_color, initialized, workers);
    }

    /// Clear text rows `[start_row, end_row)` to `bg` across the screen,
    /// cut at the bottom of the screen.
    pub fn clear_rows(&mut self, start_row: usize, end_row: usize, bg: PackedColor)
        requires
            old(self).wf(),
            end_row * 16 <= usize::MAX,
            start_row < end_row ==> start_row * 16 <= old(self).height,
        ensures
            final(self).wf(),
            final(self).width == old(self).width && final(self).height == old(self).height,
            final(self).pitch == old(self).pitch && final(self).bytes_per_pixel == old(self).bytes_per_pixel,
            final(self).buffer@ == (if start_row >= end_row || start_row * 16 == old(self).height {
                old(self).buffer@
            } else {
                filled_rect(old(self).buffer@, old(self).pitch as int, old(self).bytes_per_pixel as int, 0,
                    start_row * 16, old(self).width as int,
                    clipped(start_row * 16, (end_row - start_row) * 16, old(self).height as int), color_value(bg))
            }),
    {
        if start_row >= end_row {
            return;
        }
        let pixel_y_start = start_row * CELL_HEIGHT;
        let pixel_y_end = end_row * CELL_HEIGHT;
        let span = pixel_y_end - pixel_y_start;
        let room = self.height - pixel_y_start;
        let height = if span < room { span } else { room };
        if height == 0 {
            return;
        }
        let w = self.width;
        self.fill_rect(0, pixel_y_start, w, height, bg);
    }
}

} // verus!
