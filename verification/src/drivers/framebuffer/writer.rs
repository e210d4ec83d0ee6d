//! Framebuffer text console
//!
//! A text console on top of the framebuffer: a cursor over 16 x 16
//! cells, colours, escape sequences for colour and cursor control, and
//! anti-aliased glyphs once a font is ready.
//!
//! The console's state is `Screen`: the console fields, the advances of
//! the characters written on the current line, and the framebuffer
//! bytes.  Each operation is stated as the `Screen` it leads to.

use vstd::prelude::*;
use crate::drivers::compositor::config::PARALLEL_SCROLL_THRESHOLD;
use crate::drivers::compositor::ops::{filled_rect, cleared_rows, scrolled};
use super::ansi::{AnsiParser, AnsiState, SgrAction, SgrProcessor, params_of, sgr_step, color_from_sgr};
use super::color::{
    default_bg, default_bg_color, default_fg, default_fg_color, pack_color, pack_component_spec,
    packed_byte, palette_color, FramebufferField, PackedColor, RgbColor,
};
use super::font::glyph::{GlyphBitmap, GlyphView};
use super::spec::FramebufferSpec;
use super::render::{
    cell_rows, clipped, color_value, ttf_origin, ttf_rows, RenderContext, CELL_HEIGHT, CELL_WIDTH,
};

verus! {

/// Tab width in characters
pub const TAB_WIDTH: usize = 4;

/// Characters of a line whose advances are kept for backspace.
pub const MAX_LINE_CHARS: usize = 256;

/// How far the cursor may run past the right edge (a glyph advance).
pub const CURSOR_SLACK: usize = 65536;

/// The largest screen side the console takes.
pub const MAX_SIDE: usize = 0x0100_0000;

/// `font8x8::legacy::BASIC_LEGACY[index]`: the 8 x 8 bitmap of ASCII code
/// `index`, one byte a row, lowest bit leftmost.
pub uninterp spec fn legacy_glyph(index: usize) -> Seq<u8>;

/// `font8x8::legacy::BASIC_LEGACY[index]`.
///
/// Trusted: the table is a constant of `font8x8`, so the bitmap depends
/// on the index alone; its 128 entries are not restated here.
#[verifier::external_body]
fn basic_legacy(index: usize) -> (r: [u8; 8])
    requires
        index < 128,
    ensures
        r@ == legacy_glyph(index),
{
    font8x8::legacy::BASIC_LEGACY[index]
}

/// The channel layout of a pixel.
#[derive(Clone, Copy)]
pub struct PixelFormat {
    pub red: FramebufferField,
    pub green: FramebufferField,
    pub blue: FramebufferField,
}

/// A channel field that packs every 8-bit value within 32 bits.
pub open spec fn field_ok(f: FramebufferField) -> bool {
    f.size == 0 || (f.position < 32 && f.size <= 24)
}

pub open spec fn format_ok(f: PixelFormat) -> bool {
    field_ok(f.red) && field_ok(f.green) && field_ok(f.blue)
}

/// Everything the console keeps besides the line's advances and the
/// framebuffer: the screen geometry, the pixel format, the cursor, the
/// colours and the escape-sequence parser.
#[derive(Clone, Copy)]
pub struct Console {
    pub width: usize,
    pub height: usize,
    pub pitch: usize,
    pub bpp: usize,
    pub format: PixelFormat,
    pub cursor_x: usize,
    pub cursor_y: usize,
    pub pixel_x: usize,
    pub columns: usize,
    pub rows: usize,
    pub fg: PackedColor,
    pub bg: PackedColor,
    pub fg_rgb: RgbColor,
    pub bg_rgb: RgbColor,
    pub default_fg_rgb: RgbColor,
    pub default_bg_rgb: RgbColor,
    pub bold: bool,
    pub ansi: AnsiParser,
    pub char_count: usize,
    pub saved_cursor_x: usize,
    pub saved_cursor_y: usize,
    pub saved_pixel_x: usize,
    pub cursor_visible: bool,
    pub last_cursor_x: usize,
    pub last_cursor_y: usize,
    pub compositor_ready: bool,
    pub workers: usize,
}

/// The console fields, the advances of the current line's characters and
/// the framebuffer bytes.
pub type Screen = (Console, Seq<u8>, Seq<u8>);

// ---------------------------------------------------------------------
// Colours
// ---------------------------------------------------------------------

/// A packed colour as `PackedColor::new` builds it.
pub open spec fn packed_color(v: u32, len: usize) -> PackedColor {
    PackedColor { bytes: [packed_byte(v, len, 0), packed_byte(v, len, 1), packed_byte(v, len, 2), packed_byte(v, len, 3)], len }
}

/// `rgb` packed for the console's pixel format.
pub open spec fn pack_rgb_s(c: Console, rgb: RgbColor) -> PackedColor {
    packed_color(
        pack_component_spec(c.format.red, rgb.r) | pack_component_spec(c.format.green, rgb.g) | pack_component_spec(c.format.blue, rgb.b),
        c.bpp,
    )
}

pub open spec fn with_fg(c: Console, rgb: RgbColor) -> Console {
    Console { fg: pack_rgb_s(c, rgb), fg_rgb: rgb, ..c }
}

pub open spec fn with_bg(c: Console, rgb: RgbColor) -> Console {
    Console { bg: pack_rgb_s(c, rgb), bg_rgb: rgb, ..c }
}

/// Default colours, bold off.
pub open spec fn colors_reset(c: Console) -> Console {
    with_bg(with_fg(Console { bold: false, ..c }, c.default_fg_rgb), c.default_bg_rgb)
}

/// The parser back in the ground state with no parameters.
pub open spec fn parser_reset(a: AnsiParser) -> AnsiParser {
    AnsiParser { state: AnsiState::Ground, param_len: 0, ..a }
}

// ---------------------------------------------------------------------
// Drawing on the framebuffer
// ---------------------------------------------------------------------

/// The rectangle at pixel (x, y), cut at the screen edges, in `color`.
pub open spec fn fill_s(c: Console, fb: Seq<u8>, x: int, y: int, w: int, h: int, color: PackedColor) -> Seq<u8> {
    filled_rect(fb, c.pitch as int, c.bpp as int, x, y, clipped(x, w, c.width as int), clipped(y, h, c.height as int), color_value(color))
}

/// Text rows `[start, end)` cleared to `color`, cut at the bottom.
pub open spec fn clear_rows_s(c: Console, fb: Seq<u8>, start: int, end: int, color: PackedColor) -> Seq<u8> {
    if start >= end || start * 16 == c.height {
        fb
    } else {
        filled_rect(fb, c.pitch as int, c.bpp as int, 0, start * 16, c.width as int, clipped(start * 16, (end - start) * 16, c.height as int), color_value(color))
    }
}

/// The glyph drawn in cell (col, row) in the current colours, if the
/// cell fits on the screen.
pub open spec fn cell_s(c: Console, fb: Seq<u8>, col: int, row: int, glyph: Seq<u8>) -> Seq<u8> {
    if col * 16 + 16 > c.width || row * 16 + 16 > c.height {
        fb
    } else {
        cell_rows(fb, c.pitch as int, c.bpp as int, col * 16, row * 16, glyph, color_value(c.fg), color_value(c.bg), 16)
    }
}

/// The whole screen cleared to the background colour, on several CPUs
/// once the compositor is ready (see `RenderContext::clear_screen`).
pub open spec fn screen_cleared(c: Console, fb: Seq<u8>) -> Seq<u8> {
    if c.compositor_ready && c.workers > 1 && c.height * c.pitch >= PARALLEL_SCROLL_THRESHOLD && c.height >= c.workers * 16 {
        filled_rect(fb, c.pitch as int, c.bpp as int, 0, 0, c.width as int, c.height as int, color_value(c.bg))
    } else {
        cleared_rows(fb, c.pitch as int, c.bpp as int, c.width as int, 0, c.height as int, color_value(c.bg))
    }
}

/// An anti-aliased glyph drawn with its origin at pixel (px, py).
pub open spec fn ttf_s(c: Console, fb: Seq<u8>, px: int, py: int, g: GlyphView) -> Seq<u8> {
    let (dx, dy, skip) = ttf_origin(px, py, g.bearing_x as int, g.bearing_y as int);
    if g.width == 0 || g.height == 0 || g.data.len() == 0 || dx >= c.width || dy >= c.height || skip >= g.height {
        fb
    } else {
        let w = if c.width - dx < g.width { c.width - dx } else { g.width as int };
        let h = if c.height - dy < g.height - skip { c.height - dy } else { g.height - skip };
        ttf_rows(fb, c.pitch as int, c.bpp as int, dx, dy, g.data, g.width as int, w, skip, color_value(c.fg), h)
    }
}

// ---------------------------------------------------------------------
// Cursor and line steps
// ---------------------------------------------------------------------

/// Clear the screen: cursor home, line forgotten, colours and parser
/// reset.
pub open spec fn clear_s(s: Screen) -> Screen {
    let c = s.0;
    (
        colors_reset(Console { cursor_x: 0, cursor_y: 0, pixel_x: 0, char_count: 0, ansi: parser_reset(c.ansi), ..c }),
        s.1,
        screen_cleared(c, s.2),
    )
}

/// Next line: the cursor to the start of the next row; on the last row
/// the screen scrolls up one row once the compositor is ready, and is
/// cleared before.
pub open spec fn newline_s(s: Screen) -> Screen {
    let c = s.0;
    let c1 = Console { cursor_x: 0, pixel_x: 0, char_count: 0, ..c };
    if c.cursor_y + 1 >= c.rows {
        if c.compositor_ready {
            (c1, s.1, scrolled(s.2, c.pitch as int, c.width as int, c.height as int, c.bpp as int, 16, color_value(c.bg)))
        } else {
            clear_s((c1, s.1, s.2))
        }
    } else {
        (Console { cursor_y: (c.cursor_y + 1) as usize, ..c1 }, s.1, s.2)
    }
}

/// A new line does not depend on where on the row the cursor was.
pub proof fn lemma_newline_ignores_cursor(s: Screen, px: usize, cx: usize)
    ensures
        newline_s((Console { pixel_x: px, cursor_x: cx, ..s.0 }, s.1, s.2)) == newline_s(s),
{
    let t = (Console { pixel_x: px, cursor_x: cx, ..s.0 }, s.1, s.2);
    assert(Console { cursor_x: 0, pixel_x: 0, char_count: 0, ..t.0 } == Console { cursor_x: 0, pixel_x: 0, char_count: 0, ..s.0 });
}

/// Carriage return: the cursor to the start of the row.
pub open spec fn carriage_return_s(s: Screen) -> Screen {
    (Console { cursor_x: 0, pixel_x: 0, char_count: 0, ..s.0 }, s.1, s.2)
}

/// The bitmap glyph of `code` (a placeholder `?` past ASCII) at the
/// cursor, after a new line if the row is full; the cursor moves one cell.
pub open spec fn put_glyph_s(s: Screen, code: u32) -> Screen {
    let s1 = if s.0.cursor_x >= s.0.columns { newline_s(s) } else { s };
    let c1 = s1.0;
    let glyph = legacy_glyph(if code < 128 { code as usize } else { 63 });
    (Console { cursor_x: (c1.cursor_x + 1) as usize, ..c1 }, s1.1, cell_s(c1, s1.2, c1.cursor_x as int, c1.cursor_y as int, glyph))
}

/// Spaces up to column `target`, stopping at the end of the row.
pub open spec fn tab_s(s: Screen, target: int) -> Screen
    decreases target - s.0.cursor_x,
{
    if s.0.cursor_x < target && s.0.cursor_x < s.0.columns {
        tab_s(put_glyph_s(s, 32), target)
    } else {
        s
    }
}

/// A character on the bitmap console: new line, carriage return, tab to
/// the next multiple of `TAB_WIDTH` columns, or a glyph.
pub open spec fn write_char_s(s: Screen, code: u32) -> Screen {
    if code == 10 {
        newline_s(s)
    } else if code == 13 {
        carriage_return_s(s)
    } else if code == 9 {
        tab_s(s, ((s.0.cursor_x / 4) + 1) * 4)
    } else {
        put_glyph_s(s, code)
    }
}

/// Backspace: the last character of the line is taken back by its
/// advance and its area cleared; nothing at the start of the line.
pub open spec fn backspace_s(s: Screen) -> Screen {
    let c = s.0;
    if c.char_count > 0 {
        let w = s.1[c.char_count - 1];
        let px = if c.pixel_x >= w { c.pixel_x - w } else { 0 };
        (
            Console { char_count: (c.char_count - 1) as usize, pixel_x: px as usize, cursor_x: (px / 16) as usize, ..c },
            s.1,
            fill_s(c, s.2, px, c.cursor_y * 16, w as int, 16, c.bg),
        )
    } else {
        s
    }
}

/// Record a character's advance (capped at 255) while the line has room.
pub open spec fn push_width_s(s: Screen, w: int) -> Screen {
    if s.0.char_count < MAX_LINE_CHARS {
        (Console { char_count: (s.0.char_count + 1) as usize, ..s.0 }, s.1.update(s.0.char_count as int, if w > 255 { 255 } else { w as u8 }), s.2)
    } else {
        s
    }
}

/// The cursor underline at cell (col, row) painted in `color`.
pub open spec fn underline_s(c: Console, fb: Seq<u8>, col: int, row: int, color: PackedColor) -> Seq<u8> {
    fill_s(c, fb, col * 16, row * 16 + 13, 16, 3, color)
}

/// Draw the cursor: erase it where it was last drawn if it moved, draw
/// it at the cursor in the foreground colour.
pub open spec fn draw_cursor_s(s: Screen) -> Screen {
    let c = s.0;
    if !c.cursor_visible {
        s
    } else {
        let fb1 = if c.last_cursor_x != c.cursor_x || c.last_cursor_y != c.cursor_y {
            underline_s(c, s.2, c.last_cursor_x as int, c.last_cursor_y as int, c.bg)
        } else {
            s.2
        };
        (
            Console { last_cursor_x: c.cursor_x, last_cursor_y: c.cursor_y, ..c },
            s.1,
            underline_s(c, fb1, c.cursor_x as int, c.cursor_y as int, c.fg),
        )
    }
}

/// Erase the cursor where it was last drawn.
pub open spec fn erase_cursor_s(s: Screen) -> Screen {
    (s.0, s.1, underline_s(s.0, s.2, s.0.last_cursor_x as int, s.0.last_cursor_y as int, s.0.bg))
}


// ---------------------------------------------------------------------
// Escape sequences
// ---------------------------------------------------------------------

/// The first parameter, or `d` when there is none.
pub open spec fn param_or(ps: Seq<u16>, i: int, d: u16) -> u16 {
    if i < ps.len() { ps[i] } else { d }
}

/// A count parameter: at least 1.
pub open spec fn count_of(v: u16) -> int {
    if v < 1 { 1 } else { v as int }
}

/// `v`, at most the last of `n` positions.
pub open spec fn clamp_to(v: int, n: usize) -> int {
    let last = if n > 0 { n - 1 } else { 0 };
    if v < last { v } else { last }
}

pub open spec fn save_cursor_s(s: Screen) -> Screen {
    (Console { saved_cursor_x: s.0.cursor_x, saved_cursor_y: s.0.cursor_y, saved_pixel_x: s.0.pixel_x, ..s.0 }, s.1, s.2)
}

pub open spec fn restore_cursor_s(s: Screen) -> Screen {
    (Console { cursor_x: s.0.saved_cursor_x, cursor_y: s.0.saved_cursor_y, pixel_x: s.0.saved_pixel_x, ..s.0 }, s.1, s.2)
}

/// CUP: row and column, 1-based, clamped to the screen.
pub open spec fn cursor_position_s(s: Screen, ps: Seq<u16>) -> Screen {
    let c = s.0;
    let row = count_of(param_or(ps, 0, 1)) - 1;
    let col = count_of(param_or(ps, 1, 1)) - 1;
    let cx = clamp_to(col, c.columns);
    (Console { cursor_y: clamp_to(row, c.rows) as usize, cursor_x: cx as usize, pixel_x: (cx * 16) as usize, char_count: 0, ..c }, s.1, s.2)
}

/// A cursor motion by escape sequence `cmd` (`A` up, `B` down, `C`
/// forward, `D` back, `G` to a column, `d` to a row).
pub open spec fn cursor_move_s(s: Screen, cmd: u8, ps: Seq<u16>) -> Screen {
    let c = s.0;
    let n = count_of(param_or(ps, 0, 1));
    if cmd == 65 {
        (Console { cursor_y: (if c.cursor_y >= n { c.cursor_y - n } else { 0 }) as usize, ..c }, s.1, s.2)
    } else if cmd == 66 {
        (Console { cursor_y: clamp_to(c.cursor_y + n, c.rows) as usize, ..c }, s.1, s.2)
    } else if cmd == 67 {
        let cx = clamp_to(c.cursor_x + n, c.columns);
        (Console { cursor_x: cx as usize, pixel_x: (cx * 16) as usize, ..c }, s.1, s.2)
    } else if cmd == 68 {
        let cx = if c.cursor_x >= n { c.cursor_x - n } else { 0 };
        (Console { cursor_x: cx as usize, pixel_x: (cx * 16) as usize, ..c }, s.1, s.2)
    } else if cmd == 71 {
        let cx = clamp_to(n - 1, c.columns);
        (Console { cursor_x: cx as usize, pixel_x: (cx * 16) as usize, ..c }, s.1, s.2)
    } else {
        (Console { cursor_y: clamp_to(n - 1, c.rows) as usize, ..c }, s.1, s.2)
    }
}

/// Law: cursor motions move by their count.  With `k` the first
/// parameter (1 when missing or 0): `A` moves up `k` rows and `B` down
/// `k` rows, stopping at the screen's edge; `C` and `D` move right and left
/// `k` columns likewise; `G` and `d` go to column and row `k` (1-based),
/// at most the last one.  Only the moved coordinate changes, and the
/// pixel position follows the column.
pub proof fn law_cursor_moves(s: Screen, ps: Seq<u16>)
    requires
        console_wf(s.0),
    ensures
        ({
            let c = s.0;
            let k: int = if ps.len() > 0 && ps[0] > 0 { ps[0] as int } else { 1 };
            let up = cursor_move_s(s, 65, ps).0;
            let down = cursor_move_s(s, 66, ps).0;
            let fwd = cursor_move_s(s, 67, ps).0;
            let back = cursor_move_s(s, 68, ps).0;
            let col = cursor_move_s(s, 71, ps).0;
            let row = cursor_move_s(s, 100, ps).0;
            &&& up.cursor_y == (if c.cursor_y - k >= 0 { c.cursor_y - k } else { 0 })
            &&& up.cursor_x == c.cursor_x
            &&& down.cursor_y == (if c.cursor_y + k <= c.rows - 1 { c.cursor_y + k } else { c.rows - 1 })
            &&& down.cursor_x == c.cursor_x
            &&& fwd.cursor_x == (if c.cursor_x + k <= c.columns - 1 { c.cursor_x + k } else { c.columns - 1 })
            &&& fwd.pixel_x == 16 * fwd.cursor_x && fwd.cursor_y == c.cursor_y
            &&& back.cursor_x == (if c.cursor_x - k >= 0 { c.cursor_x - k } else { 0 })
            &&& back.pixel_x == 16 * back.cursor_x && back.cursor_y == c.cursor_y
            &&& col.cursor_x == (if k <= c.columns { k - 1 } else { c.columns - 1 })
            &&& col.cursor_y == c.cursor_y
            &&& row.cursor_y == (if k <= c.rows { k - 1 } else { c.rows - 1 })
            &&& row.cursor_x == c.cursor_x
        }),
{
}

/// Law: `CSI row ; col H` puts the cursor at that row and column
/// (1-based, a missing or 0 parameter counting as 1), at most the last
/// row and column, with the pixel position at the column's cell.
pub proof fn law_cursor_position(s: Screen, ps: Seq<u16>)
    requires
        console_wf(s.0),
    ensures
        ({
            let c = s.0;
            let r: int = if ps.len() > 0 && ps[0] > 0 { ps[0] as int } else { 1 };
            let k: int = if ps.len() > 1 && ps[1] > 0 { ps[1] as int } else { 1 };
            let n = cursor_position_s(s, ps).0;
            &&& n.cursor_y == (if r <= c.rows { r - 1 } else { c.rows - 1 })
            &&& n.cursor_x == (if k <= c.columns { k - 1 } else { c.columns - 1 })
            &&& n.pixel_x == 16 * n.cursor_x
        }),
{
}

/// ED: 0 clears from the cursor to the end of the screen, 1 from the
/// start to the cursor, 2 all of it.
pub open spec fn erase_display_s(s: Screen, ps: Seq<u16>) -> Screen {
    let c = s.0;
    let mode = param_or(ps, 0, 0);
    if mode == 2 {
        clear_s(s)
    } else if mode == 0 {
        let w = if c.width >= c.pixel_x { c.width - c.pixel_x } else { 0 };
        let fb1 = fill_s(c, s.2, c.pixel_x as int, c.cursor_y * 16, w, 16, c.bg);
        (c, s.1, clear_rows_s(c, fb1, c.cursor_y + 1, c.rows as int, c.bg))
    } else if mode == 1 {
        let fb1 = clear_rows_s(c, s.2, 0, c.cursor_y as int, c.bg);
        (c, s.1, fill_s(c, fb1, 0, c.cursor_y * 16, c.pixel_x as int, 16, c.bg))
    } else {
        s
    }
}

/// EL: 0 clears from the cursor to the end of the line, 1 from its start
/// to the cursor, 2 the whole line.
pub open spec fn erase_line_s(s: Screen, ps: Seq<u16>) -> Screen {
    let c = s.0;
    let mode = param_or(ps, 0, 0);
    let y = c.cursor_y * 16;
    if mode == 0 {
        let w = if c.width >= c.pixel_x { c.width - c.pixel_x } else { 0 };
        (c, s.1, fill_s(c, s.2, c.pixel_x as int, y, w, 16, c.bg))
    } else if mode == 1 {
        (c, s.1, fill_s(c, s.2, 0, y, c.pixel_x as int, 16, c.bg))
    } else if mode == 2 {
        (c, s.1, fill_s(c, s.2, 0, y, c.width as int, 16, c.bg))
    } else {
        s
    }
}

/// DECSET for parameters `ps[i..]`: 25 shows the cursor, 1049 saves the
/// cursor and clears the screen; the others are ignored.
pub open spec fn dec_set_s(s: Screen, ps: Seq<u16>, i: int) -> Screen
    decreases ps.len() - i,
{
    if i < 0 || i >= ps.len() {
        s
    } else {
        let s1 = if ps[i] == 25 {
            draw_cursor_s((Console { cursor_visible: true, ..s.0 }, s.1, s.2))
        } else if ps[i] == 1049 {
            clear_s(save_cursor_s(s))
        } else {
            s
        };
        dec_set_s(s1, ps, i + 1)
    }
}

/// DECRST for parameters `ps[i..]`: 25 hides the cursor, 1049 clears the
/// screen and restores the cursor; the others are ignored.
pub open spec fn dec_reset_s(s: Screen, ps: Seq<u16>, i: int) -> Screen
    decreases ps.len() - i,
{
    if i < 0 || i >= ps.len() {
        s
    } else {
        let s1 = if ps[i] == 25 {
            let e = erase_cursor_s(s);
            (Console { cursor_visible: false, ..e.0 }, e.1, e.2)
        } else if ps[i] == 1049 {
            restore_cursor_s(clear_s(s))
        } else {
            s
        };
        dec_reset_s(s1, ps, i + 1)
    }
}

/// The console after one SGR action.
pub open spec fn sgr_apply(c: Console, a: SgrAction) -> Console {
    match a {
        SgrAction::Reset => colors_reset(c),
        SgrAction::Bold => Console { bold: true, ..c },
        SgrAction::NoBold => Console { bold: false, ..c },
        SgrAction::SetFg(i, b) => with_fg(c, palette_color(i as int, b)),
        SgrAction::SetBg(i, b) => with_bg(c, palette_color(i as int, b)),
        SgrAction::SetFgRgb(rgb) => with_fg(c, rgb),
        SgrAction::SetBgRgb(rgb) => with_bg(c, rgb),
        SgrAction::ResetFg => with_fg(c, c.default_fg_rgb),
        SgrAction::ResetBg => with_bg(c, c.default_bg_rgb),
        SgrAction::NoAction => c,
    }
}

pub proof fn lemma_sgr_step(ps: Seq<u16>, i: int, bold: bool)
    requires
        0 <= i < ps.len(),
    ensures
        1 <= sgr_step(ps, i, bold).1 && i + sgr_step(ps, i, bold).1 <= ps.len(),
{
}

/// The SGR actions of `ps[i..]` applied in order, bold tracked as the
/// parameters are read.
#[verifier::opaque]
pub open spec fn sgr_fold(c: Console, ps: Seq<u16>, i: int, bold: bool) -> Console
    decreases ps.len() - i,
{
    if i < 0 || i >= ps.len() {
        c
    } else {
        proof {
            lemma_sgr_step(ps, i, bold);
        }
        let (a, n, b) = sgr_step(ps, i, bold);
        sgr_fold(sgr_apply(c, a), ps, i + n, b)
    }
}

pub proof fn lemma_sgr_fold_step(c: Console, ps: Seq<u16>, i: int, bold: bool)
    requires
        0 <= i < ps.len(),
    ensures
        sgr_fold(c, ps, i, bold) == sgr_fold(sgr_apply(c, sgr_step(ps, i, bold).0), ps, i + sgr_step(ps, i, bold).1, sgr_step(ps, i, bold).2),
{
    reveal(sgr_fold);
}

pub proof fn lemma_sgr_fold_done(c: Console, ps: Seq<u16>, i: int, bold: bool)
    requires
        i >= ps.len(),
    ensures
        sgr_fold(c, ps, i, bold) == c,
{
    reveal(sgr_fold);
}

/// SGR: no parameters reset the colours; otherwise each action applies.
pub open spec fn apply_sgr_s(s: Screen, ps: Seq<u16>) -> Screen {
    if ps.len() == 0 {
        (colors_reset(s.0), s.1, s.2)
    } else {
        (sgr_fold(s.0, ps, 0, s.0.bold), s.1, s.2)
    }
}

/// The commands that move the cursor: `H f A B C D G d u`.
pub open spec fn moves_cursor(cmd: u8) -> bool {
    cmd == 72 || cmd == 102 || cmd == 65 || cmd == 66 || cmd == 67 || cmd == 68 || cmd == 71 || cmd == 100 || cmd == 117
}

/// The command of a CSI sequence, without the cursor redraw around it.
pub open spec fn csi_command_s(s: Screen, cmd: u8, ps: Seq<u16>, private: bool) -> Screen {
    if cmd == 109 {
        apply_sgr_s(s, ps)
    } else if cmd == 74 {
        erase_display_s(s, ps)
    } else if cmd == 75 {
        erase_line_s(s, ps)
    } else if cmd == 72 || cmd == 102 {
        cursor_position_s(s, ps)
    } else if cmd == 65 || cmd == 66 || cmd == 67 || cmd == 68 || cmd == 71 || cmd == 100 {
        cursor_move_s(s, cmd, ps)
    } else if cmd == 104 {
        if private { dec_set_s(s, ps, 0) } else { s }
    } else if cmd == 108 {
        if private { dec_reset_s(s, ps, 0) } else { s }
    } else if cmd == 115 {
        save_cursor_s(s)
    } else if cmd == 117 {
        restore_cursor_s(s)
    } else {
        s
    }
}

/// A complete CSI sequence: the cursor is erased before and redrawn
/// after a command that moves it.
pub open spec fn handle_csi_s(s: Screen, cmd: u8, ps: Seq<u16>, private: bool) -> Screen {
    let moved = moves_cursor(cmd);
    let s1 = if moved && s.0.cursor_visible { erase_cursor_s(s) } else { s };
    let s2 = csi_command_s(s1, cmd, ps, private);
    if moved && s2.0.cursor_visible { draw_cursor_s(s2) } else { s2 }
}

/// The parser with `b` appended to its parameters, while there is room.
pub open spec fn param_pushed(a: AnsiParser, b: u8) -> AnsiParser {
    if a.param_len < 32 {
        AnsiParser { param_buf: vstd::array::spec_array_update(a.param_buf, a.param_len as int, b), param_len: (a.param_len + 1) as usize, ..a }
    } else {
        a
    }
}

pub open spec fn with_parser(s: Screen, a: AnsiParser) -> Screen {
    (Console { ansi: a, ..s.0 }, s.1, s.2)
}

/// The bytes that end a CSI sequence the console handles.
pub open spec fn csi_final(b: u8) -> bool {
    b == 109 || b == 74 || b == 75 || b == 72 || b == 102 || b == 65 || b == 66 || b == 67 || b == 68 || b == 71
        || b == 100 || b == 104 || b == 108 || b == 115 || b == 117 || b == 114
}

/// The parameters the parser holds.
pub open spec fn held_params(a: AnsiParser) -> Seq<u16> {
    params_of(a.param_buf@.take(a.param_len as int))
}

/// A byte outside any escape sequence: ESC starts one, backspace,
/// printable ASCII and line controls are written, bytes past ASCII show
/// as `?`, other controls are dropped.
pub open spec fn ground_byte_s(s: Screen, b: u8) -> Screen {
    if b == 0x1B {
        with_parser(s, AnsiParser { state: AnsiState::Escape, ..s.0.ansi })
    } else if b == 0x08 {
        backspace_s(s)
    } else if b == 10 || b == 13 || b == 9 || (0x20 <= b <= 0x7E) {
        write_char_s(s, b as u32)
    } else if b >= 0x80 {
        write_char_s(s, 63)
    } else {
        s
    }
}

/// A CSI sequence byte: parameter bytes are kept, a final byte runs the
/// command, ESC restarts, anything else abandons the sequence.
pub open spec fn csi_byte_s(s: Screen, b: u8) -> Screen {
    let a = s.0.ansi;
    if (48 <= b <= 57) || b == 59 || b == 63 {
        with_parser(s, param_pushed(a, b))
    } else if csi_final(b) {
        let s1 = handle_csi_s(s, b, held_params(a), a.param_len > 0 && a.param_buf[0] == 63);
        with_parser(s1, parser_reset(s1.0.ansi))
    } else if b == 0x1B {
        with_parser(s, AnsiParser { state: AnsiState::Escape, param_len: 0, ..a })
    } else {
        with_parser(s, parser_reset(a))
    }
}

/// One byte through the escape-sequence state machine.
pub open spec fn process_byte_s(s: Screen, b: u8) -> Screen {
    let a = s.0.ansi;
    match a.state {
        AnsiState::Ground => ground_byte_s(s, b),
        AnsiState::Escape => if b == 91 {
            with_parser(s, AnsiParser { state: AnsiState::Csi, param_len: 0, ..a })
        } else {
            ground_byte_s(with_parser(s, AnsiParser { state: AnsiState::Ground, ..a }), b)
        },
        AnsiState::Csi => csi_byte_s(s, b),
    }
}

/// Bytes `bs[i..]` through the state machine in order.
pub open spec fn process_bytes_s(s: Screen, bs: Seq<u8>) -> Screen
    decreases bs.len(),
{
    if bs.len() == 0 {
        s
    } else {
        process_bytes_s(process_byte_s(s, bs[0]), bs.drop_first())
    }
}


// ---------------------------------------------------------------------
// Unicode text
// ---------------------------------------------------------------------

/// Tab on the pixel cursor: to the next multiple of `TAB_WIDTH` cells,
/// the skipped area cleared, a new line if that passes the edge.
pub open spec fn unicode_tab_s(s: Screen) -> Screen {
    let c = s.0;
    let next_tab = ((c.pixel_x / 16) / 4 + 1) * 4;
    let target = next_tab * 16;
    let fb1 = if target > c.pixel_x {
        fill_s(c, s.2, c.pixel_x as int, c.cursor_y * 16, target - c.pixel_x, 16, c.bg)
    } else {
        s.2
    };
    let s1 = (Console { pixel_x: target as usize, cursor_x: next_tab as usize, ..c }, s.1, fb1);
    if target >= c.width { newline_s(s1) } else { s1 }
}

/// A bitmap glyph in place of an anti-aliased one: the pixel cursor
/// follows the cell cursor and the line records one cell.
pub open spec fn fallback_s(s: Screen, code: u32) -> Screen {
    let s1 = write_char_s(s, code);
    push_width_s((Console { pixel_x: (s1.0.cursor_x * 16) as usize, ..s1.0 }, s1.1, s1.2), 16)
}

/// An anti-aliased glyph at the pixel cursor: a new line first if its
/// advance passes the edge; an empty glyph clears its advance (at least
/// one pixel); otherwise its area is cleared and it is drawn with its
/// baseline `baseline` pixels below the top of the row; the cursor moves
/// by the advance, to a new line past the edge.
pub open spec fn glyph_s(s: Screen, g: GlyphView, baseline: int) -> Screen {
    let s1 = if s.0.pixel_x + g.advance > s.0.width { newline_s(s) } else { s };
    if g.width == 0 || g.height == 0 {
        empty_glyph_s(s1, g.advance as int)
    } else {
        full_glyph_s(s1, g, baseline)
    }
}

/// An empty glyph: its advance (at least one pixel) cleared and stepped.
pub open spec fn empty_glyph_s(s: Screen, adv: int) -> Screen {
    let c = s.0;
    let w = if adv < 1 { 1 } else { adv };
    let fb = fill_s(c, s.2, c.pixel_x as int, c.cursor_y * 16, w, 16, c.bg);
    let px = c.pixel_x + w;
    push_width_s((Console { pixel_x: px as usize, cursor_x: (px / 16) as usize, ..c }, s.1, fb), w)
}

/// A drawn glyph: its area cleared, the glyph drawn, the cursor moved by
/// the advance and to a new line past the edge.
pub open spec fn full_glyph_s(s: Screen, g: GlyphView, baseline: int) -> Screen {
    let c = s.0;
    let adv = g.advance as int;
    let bx = if g.bearing_x < 0 { 0 } else { g.bearing_x as int };
    let cw = if adv > g.width + bx { adv } else { g.width + bx };
    let fb1 = fill_s(c, s.2, c.pixel_x as int, c.cursor_y * 16, cw, 16, c.bg);
    let fb2 = ttf_s(c, fb1, c.pixel_x as int, c.cursor_y * 16 + baseline, g);
    let px = c.pixel_x + adv;
    let s2 = push_width_s((Console { pixel_x: px as usize, cursor_x: (px / 16) as usize, ..c }, s.1, fb2), adv);
    if px >= c.width { newline_s(s2) } else { s2 }
}

/// A character on the console once fonts may be ready: line controls,
/// backspace, other controls dropped; without fonts a bitmap glyph (`?`
/// past ASCII); with fonts the glyph rasterized for it, or `?` when there
/// is none.
pub open spec fn write_unicode_s(s: Screen, ch: char, ready: bool, glyph: Option<GlyphView>, baseline: int) -> Screen {
    let code = ch as u32;
    if code == 10 {
        newline_s(s)
    } else if code == 13 {
        carriage_return_s(s)
    } else if code == 9 {
        unicode_tab_s(s)
    } else if code == 8 {
        backspace_s(s)
    } else if code <= 0x1F || code == 0x7F {
        s
    } else if !ready {
        fallback_s(s, if code <= 0x7F { code } else { 63 })
    } else {
        match glyph {
            Some(g) => glyph_s(s, g, baseline),
            None => fallback_s(s, 63),
        }
    }
}

/// One character of a string through the escape-sequence state machine;
/// text goes to the anti-aliased console once fonts are ready, else
/// ASCII goes byte by byte and the rest shows as `?`.
pub open spec fn str_char_s(s: Screen, ch: char, ready: bool, glyph: Option<GlyphView>, baseline: int) -> Screen {
    let code = ch as u32;
    let a = s.0.ansi;
    match a.state {
        AnsiState::Ground => if code == 0x1B {
            with_parser(s, AnsiParser { state: AnsiState::Escape, ..a })
        } else if ready {
            write_unicode_s(s, ch, ready, glyph, baseline)
        } else if code <= 0x7F {
            process_byte_s(s, code as u8)
        } else {
            write_char_s(s, 63)
        },
        AnsiState::Escape => if code == 91 {
            with_parser(s, AnsiParser { state: AnsiState::Csi, param_len: 0, ..a })
        } else {
            let s1 = with_parser(s, AnsiParser { state: AnsiState::Ground, ..a });
            if ready {
                write_unicode_s(s1, ch, ready, glyph, baseline)
            } else if code <= 0x7F {
                process_byte_s(s1, code as u8)
            } else {
                s1
            }
        },
        AnsiState::Csi => if code <= 0x7F && ((48 <= code <= 57) || code == 59 || code == 63) {
            with_parser(s, param_pushed(a, code as u8))
        } else if code <= 0x7F && csi_final(code as u8) {
            let s1 = handle_csi_s(s, code as u8, held_params(a), a.param_len > 0 && a.param_buf[0] == 63);
            with_parser(s1, parser_reset(s1.0.ansi))
        } else if code == 0x1B {
            with_parser(s, AnsiParser { state: AnsiState::Escape, param_len: 0, ..a })
        } else {
            with_parser(s, parser_reset(a))
        },
    }
}

/// The characters `cs[i..]` in order, character `k` with glyph `gs[k]`.
pub open spec fn write_str_s(s: Screen, cs: Seq<char>, i: int, ready: bool, gs: Seq<Option<GlyphView>>, baseline: int) -> Screen
    decreases cs.len() - i,
{
    if i < 0 || i >= cs.len() {
        s
    } else {
        write_str_s(str_char_s(s, cs[i], ready, gs[i], baseline), cs, i + 1, ready, gs, baseline)
    }
}

/// The glyphs handed in, as plain values.
pub open spec fn glyph_views(gs: Seq<Option<GlyphBitmap>>) -> Seq<Option<GlyphView>> {
    gs.map_values(|o: Option<GlyphBitmap>| match o {
        Some(g) => Some(g.view()),
        None => None,
    })
}

/// Every glyph handed in holds its whole bitmap.
pub open spec fn glyphs_ok(gs: Seq<Option<GlyphBitmap>>) -> bool {
    forall|k: int| 0 <= k < gs.len() ==> (#[trigger] gs[k] matches Some(g) ==> g.width * g.height <= g.data@.len())
}

// ---------------------------------------------------------------------
// The writer
// ---------------------------------------------------------------------

/// The console's invariant: the geometry fits, the cached packed colours
/// match their RGB values, and the cursor stays in reach of the screen.
pub open spec fn console_wf(c: Console) -> bool {
    &&& 1 <= c.bpp <= 4
    &&& c.width * c.bpp <= c.pitch
    &&& c.width <= MAX_SIDE && c.height <= MAX_SIDE
    &&& c.columns == c.width / 16 && c.columns >= 1
    &&& c.rows == c.height / 16 && c.rows >= 1
    &&& format_ok(c.format)
    &&& c.fg == pack_rgb_s(c, c.fg_rgb)
    &&& c.bg == pack_rgb_s(c, c.bg_rgb)
    &&& c.default_fg_rgb == default_fg()
    &&& c.default_bg_rgb == default_bg()
    &&& c.char_count <= MAX_LINE_CHARS
    &&& c.ansi.param_len <= 32
    &&& c.cursor_y < c.rows
    &&& c.cursor_x * 16 <= c.width + CURSOR_SLACK
    &&& c.pixel_x <= c.width + CURSOR_SLACK
    &&& c.saved_cursor_y < c.rows
    &&& c.saved_cursor_x * 16 <= c.width + CURSOR_SLACK
    &&& c.saved_pixel_x <= c.width + CURSOR_SLACK
    &&& c.last_cursor_y < c.rows
    &&& c.last_cursor_x * 16 <= c.width + CURSOR_SLACK
    &&& c.workers <= 0x1_0000
}

/// Framebuffer text console writer
pub struct FramebufferWriter {
    render: RenderContext,
    con: Console,
    char_widths: [u8; 256],
}

proof fn lemma_field_ok(f: FramebufferField, v: u8)
    requires
        field_ok(f),
    ensures
        super::color::component_ok(f, v),
{
    if f.size != 0 {
        if f.size >= 31 {
        } else {
            let m = super::color::field_max(f.size);
            assert(m <= 0xFF_FFFF) by {
                let s = f.size;
                assert(((1u32 << s) - 1) as u32 <= 0xFF_FFFFu32) by (bit_vector)
                    requires
                        1 <= s <= 24,
                ;
            }
            assert(v * m + 127 <= u32::MAX) by (nonlinear_arith)
                requires
                    v <= 255,
                    m <= 0xFF_FFFF,
            ;
        }
    }
}

impl FramebufferWriter {
    pub closed spec fn view(&self) -> Screen {
        (self.con, self.char_widths@, self.render.buffer@)
    }

    pub closed spec fn wf(&self) -> bool {
        &&& console_wf(self.con)
        &&& self.render.wf()
        &&& self.render.width == self.con.width
        &&& self.render.height == self.con.height
        &&& self.render.pitch == self.con.pitch
        &&& self.render.bytes_per_pixel == self.con.bpp
    }

    /// The framebuffer bytes.
    pub fn buffer(&self) -> (r: &Vec<u8>)
        ensures
            r@ == self.view().2,
    {
        &self.render.buffer
    }

    /// The console state.
    pub fn console(&self) -> (r: Console)
        ensures
            r == self.view().0,
    {
        self.con
    }

    fn pack_rgb(&self, color: RgbColor) -> (r: PackedColor)
        requires
            console_wf(self.con),
        ensures
            r == pack_rgb_s(self.con, color),
    {
        let f = self.con.format;
        proof {
            lemma_field_ok(f.red, color.r);
            lemma_field_ok(f.green, color.g);
            lemma_field_ok(f.blue, color.b);
        }
        let v = pack_color(&f.red, &f.green, &f.blue, color.r, color.g, color.b);
        let p = PackedColor::new(v, self.con.bpp);
        proof {
            broadcast use vstd::array::axiom_array_ext_equal;
            assert(p.bytes =~= packed_color(v, self.con.bpp).bytes);
        }
        p
    }
}


/// The console a new writer starts with, on the screen `spec` describes.
pub open spec fn initial_console(c: Console, spec: FramebufferSpec, compositor_ready: bool, workers: usize) -> bool {
    &&& c.width == spec.width && c.height == spec.height && c.pitch == spec.pitch
    &&& c.bpp == (spec.bpp + 7) / 8
    &&& c.format == (PixelFormat { red: spec.red, green: spec.green, blue: spec.blue })
    &&& c.columns == spec.width / 16 && c.rows == spec.height / 16
    &&& c.cursor_x == 0 && c.cursor_y == 0 && c.pixel_x == 0
    &&& c.fg_rgb == default_fg() && c.bg_rgb == default_bg()
    &&& c.fg == pack_rgb_s(c, default_fg()) && c.bg == pack_rgb_s(c, default_bg())
    &&& !c.bold
    &&& c.ansi.state == AnsiState::Ground && c.ansi.param_len == 0
    &&& c.char_count == 0
    &&& c.saved_cursor_x == 0 && c.saved_cursor_y == 0 && c.saved_pixel_x == 0
    &&& c.cursor_visible
    &&& c.last_cursor_x == 0 && c.last_cursor_y == 0
    &&& c.compositor_ready == compositor_ready && c.workers == workers
}

/// What the screen needs so that drawing on it stays in the buffer.
pub open spec fn geometry_ok(spec: FramebufferSpec, len: int) -> bool {
    &&& spec.bpp <= 32
    &&& spec.width <= MAX_SIDE && spec.height <= MAX_SIDE
    &&& spec.width * ((spec.bpp + 7) / 8) <= spec.pitch
    &&& spec.height * spec.pitch <= len
    &&& format_ok(PixelFormat { red: spec.red, green: spec.green, blue: spec.blue })
}

impl FramebufferWriter {
    /// Create a writer on `buffer`: none when pixels have fewer than 16
    /// bits or the screen holds no whole cell.
    pub fn new(buffer: Vec<u8>, spec: FramebufferSpec, compositor_ready: bool, workers: usize) -> (r: Option<Self>)
        requires
            geometry_ok(spec, buffer@.len() as int),
            workers <= 0x1_0000,
        ensures
            r is None <==> (spec.bpp < 16 || spec.width / 16 == 0 || spec.height / 16 == 0),
            r matches Some(w) ==> w.wf() && initial_console(w.view().0, spec, compositor_ready, workers)
                && w.view().2 == buffer@ && w.view().1 == Seq::new(256, |i: int| 0u8),
    {
        if spec.bpp < 16 {
            return None;
        }
        let bytes_per_pixel = ((spec.bpp as usize) + 7) / 8;
        let columns = (spec.width as usize) / CELL_WIDTH;
        let rows = (spec.height as usize) / CELL_HEIGHT;
        if columns == 0 || rows == 0 {
            return None;
        }
        let render = RenderContext::new(buffer, spec.width as usize, spec.height as usize, spec.pitch as usize, spec.bpp as u16);
        let dfg = default_fg_color();
        let dbg = default_bg_color();
        let format = PixelFormat { red: spec.red, green: spec.green, blue: spec.blue };
        let mut con = Console {
            width: spec.width as usize,
            height: spec.height as usize,
            pitch: spec.pitch as usize,
            bpp: bytes_per_pixel,
            format,
            cursor_x: 0,
            cursor_y: 0,
            pixel_x: 0,
            columns,
            rows,
            fg: PackedColor::new(0, bytes_per_pixel),
            bg: PackedColor::new(0, bytes_per_pixel),
            fg_rgb: dfg,
            bg_rgb: dbg,
            default_fg_rgb: dfg,
            default_bg_rgb: dbg,
            bold: false,
            ansi: AnsiParser::new(),
            char_count: 0,
            saved_cursor_x: 0,
            saved_cursor_y: 0,
            saved_pixel_x: 0,
            cursor_visible: true,
            last_cursor_x: 0,
            last_cursor_y: 0,
            compositor_ready,
            workers,
        };
        let w0 = FramebufferWriter { render, con, char_widths: [0u8; 256] };
        let fg = w0.pack_rgb_unchecked(dfg);
        let bg = w0.pack_rgb_unchecked(dbg);
        let w = FramebufferWriter { con: Console { fg, bg, ..w0.con }, ..w0 };
        proof {
            assert(w.char_widths@ =~= Seq::new(256, |i: int| 0u8));
            assert(bytes_per_pixel == (spec.bpp + 7) / 8);
            assert(w.con.width * w.con.bpp <= w.con.pitch);
            assert(w.con.width <= MAX_SIDE && w.con.height <= MAX_SIDE);
            assert(w.con.workers <= 0x1_0000);
            assert(w.con.cursor_x * 16 <= w.con.width + CURSOR_SLACK);
        }
        Some(w)
    }

    /// `pack_rgb` where only the pixel format is known good.
    fn pack_rgb_unchecked(&self, color: RgbColor) -> (r: PackedColor)
        requires
            format_ok(self.con.format),
        ensures
            r == pack_rgb_s(self.con, color),
    {
        let f = self.con.format;
        proof {
            lemma_field_ok(f.red, color.r);
            lemma_field_ok(f.green, color.g);
            lemma_field_ok(f.blue, color.b);
        }
        let v = pack_color(&f.red, &f.green, &f.blue, color.r, color.g, color.b);
        let p = PackedColor::new(v, self.con.bpp);
        proof {
            broadcast use vstd::array::axiom_array_ext_equal;
            assert(p.bytes =~= packed_color(v, self.con.bpp).bytes);
        }
        p
    }

    /// Tell the console whether the compositor is ready, and on how many
    /// CPUs it works: after that, new lines on the last row scroll.
    pub fn set_compositor(&mut self, ready: bool, workers: usize)
        requires
            old(self).wf(),
            workers <= 0x1_0000,
        ensures
            final(self).wf(),
            final(self).view() == (Console { compositor_ready: ready, workers, ..old(self).view().0 }, old(self).view().1, old(self).view().2),
    {
        self.con.compositor_ready = ready;
        self.con.workers = workers;
    }

    fn set_fg_color(&mut self, color: RgbColor)
        requires
            old(self).wf(),
        ensures
            final(self).wf(),
            final(self).view() == (with_fg(old(self).view().0, color), old(self).view().1, old(self).view().2),
    {
        let p = self.pack_rgb(color);
        self.con.fg = p;
        self.con.fg_rgb = color;
    }

    fn set_bg_color(&mut self, color: RgbColor)
        requires
            old(self).wf(),
        ensures
            final(self).wf(),
            final(self).view() == (with_bg(old(self).view().0, color), old(self).view().1, old(self).view().2),
    {
        let p = self.pack_rgb(color);
        self.con.bg = p;
        self.con.bg_rgb = color;
    }

    fn reset_colors(&mut self)
        requires
            old(self).wf(),
        ensures
            final(self).wf(),
            final(self).view() == (colors_reset(old(self).view().0), old(self).view().1, old(self).view().2),
    {
        self.con.bold = false;
        let f = self.con.default_fg_rgb;
        let b = self.con.default_bg_rgb;
        self.set_fg_color(f);
        self.set_bg_color(b);
    }

    /// Clear the entire screen and reset cursor, colours and parser.
    pub fn clear(&mut self)
        requires
            old(self).wf(),
        ensures
            final(self).wf(),
            final(self).view() == clear_s(old(self).view()),
    {
        let bg = color_value_of(self.con.bg);
        self.render.clear_screen(bg, self.con.compositor_ready, self.con.workers);
        self.con.cursor_x = 0;
        self.con.cursor_y = 0;
        self.con.pixel_x = 0;
        self.con.char_count = 0;
        self.reset_colors();
        self.con.ansi.reset();
    }

    /// Move to the next line (see `newline_s`).
    fn newline(&mut self)
        requires
            old(self).wf(),
        ensures
            final(self).wf(),
            final(self).view() == newline_s(old(self).view()),
    {
        self.con.cursor_x = 0;
        self.con.pixel_x = 0;
        self.con.char_count = 0;
        if self.con.cursor_y + 1 >= self.con.rows {
            if self.con.compositor_ready {
                let bg = color_value_of(self.con.bg);
                self.render.scroll_up(bg);
            } else {
                self.clear();
            }
        } else {
            self.con.cursor_y = self.con.cursor_y + 1;
        }
    }

    /// Record a character's advance for backspace.
    fn push_char_width(&mut self, width: usize)
        requires
            old(self).wf(),
        ensures
            final(self).wf(),
            final(self).view() == push_width_s(old(self).view(), width as int),
    {
        if self.con.char_count < MAX_LINE_CHARS {
            let w: u8 = if width > 255 { 255 } else { width as u8 };
            self.char_widths[self.con.char_count] = w;
            self.con.char_count = self.con.char_count + 1;
        }
    }

    /// Draw the bitmap glyph of `code` at the cursor (see `put_glyph_s`).
    fn put_glyph(&mut self, code: u32)
        requires
            old(self).wf(),
        ensures
            final(self).wf(),
            final(self).view() == put_glyph_s(old(self).view(), code),
    {
        if self.con.cursor_x >= self.con.columns {
            self.newline();
        }
        let index: usize = if code < 128 { code as usize } else { 63 };
        let glyph = basic_legacy(index);
        let fg = self.con.fg;
        let bg = self.con.bg;
        let col = self.con.cursor_x;
        let row = self.con.cursor_y;
        self.render.draw_cell(col, row, &glyph, fg, bg);
        self.con.cursor_x = self.con.cursor_x + 1;
    }

    /// Write a character on the bitmap console (see `write_char_s`).
    fn write_char(&mut self, code: u32)
        requires
            old(self).wf(),
        ensures
            final(self).wf(),
            final(self).view() == write_char_s(old(self).view(), code),
    {
        if code == 10 {
            self.newline();
        } else if code == 13 {
            self.con.cursor_x = 0;
            self.con.pixel_x = 0;
            self.con.char_count = 0;
        } else if code == 9 {
            let next_tab = ((self.con.cursor_x / TAB_WIDTH) + 1) * TAB_WIDTH;
            let ghost target = next_tab as int;
            while self.con.cursor_x < next_tab && self.con.cursor_x < self.con.columns
                invariant
                    self.wf(),
                    tab_s(self.view(), target) == tab_s(old(self).view(), target),
                    next_tab == target,
                decreases target - self.con.cursor_x,
            {
                self.put_glyph(32);
            }
        } else {
            self.put_glyph(code);
        }
    }

    /// Handle backspace (see `backspace_s`).
    pub fn backspace(&mut self)
        requires
            old(self).wf(),
        ensures
            final(self).wf(),
            final(self).view() == backspace_s(old(self).view()),
    {
        if self.con.char_count > 0 {
            self.con.char_count = self.con.char_count - 1;
            let char_width = self.char_widths[self.con.char_count] as usize;
            if self.con.pixel_x >= char_width {
                self.con.pixel_x = self.con.pixel_x - char_width;
            } else {
                self.con.pixel_x = 0;
            }
            self.con.cursor_x = self.con.pixel_x / CELL_WIDTH;
            let row_y = self.con.cursor_y * CELL_HEIGHT;
            let bg = self.con.bg;
            let px = self.con.pixel_x;
            self.render.fill_rect(px, row_y, char_width, CELL_HEIGHT, bg);
        }
    }

    fn underline(&mut self, col: usize, row: usize, color: PackedColor)
        requires
            old(self).wf(),
            col * 16 <= old(self).con.width + CURSOR_SLACK,
            row < old(self).con.rows,
        ensures
            final(self).wf(),
            final(self).view() == (old(self).view().0, old(self).view().1,
                underline_s(old(self).view().0, old(self).view().2, col as int, row as int, color)),
    {
        let pixel_x = col * CELL_WIDTH;
        let pixel_y = row * CELL_HEIGHT;
        self.render.fill_rect(pixel_x, pixel_y + CELL_HEIGHT - 3, CELL_WIDTH, 3, color);
    }

    /// Draw a cursor at the current position (see `draw_cursor_s`).
    pub fn draw_cursor(&mut self)
        requires
            old(self).wf(),
        ensures
            final(self).wf(),
            final(self).view() == draw_cursor_s(old(self).view()),
    {
        if !self.con.cursor_visible {
            return;
        }
        if self.con.last_cursor_x != self.con.cursor_x || self.con.last_cursor_y != self.con.cursor_y {
            let (x, y, bg) = (self.con.last_cursor_x, self.con.last_cursor_y, self.con.bg);
            self.underline(x, y, bg);
        }
        let (x, y, fg) = (self.con.cursor_x, self.con.cursor_y, self.con.fg);
        self.underline(x, y, fg);
        self.con.last_cursor_x = self.con.cursor_x;
        self.con.last_cursor_y = self.con.cursor_y;
    }

    /// Erase the cursor where it was last drawn.
    pub fn erase_cursor(&mut self)
        requires
            old(self).wf(),
        ensures
            final(self).wf(),
            final(self).view() == erase_cursor_s(old(self).view()),
    {
        let (x, y, bg) = (self.con.last_cursor_x, self.con.last_cursor_y, self.con.bg);
        self.underline(x, y, bg);
    }

    /// Redraw the cursor if it is visible.
    pub fn update_cursor(&mut self)
        requires
            old(self).wf(),
        ensures
            final(self).wf(),
            final(self).view() == (if old(self).view().0.cursor_visible { draw_cursor_s(old(self).view()) } else { old(self).view() }),
    {
        if self.con.cursor_visible {
            self.draw_cursor();
        }
    }
}

fn color_value_of(c: PackedColor) -> (r: u32)
    ensures
        r == color_value(c),
{
    (c.bytes[0] as u32) | ((c.bytes[1] as u32) << 8u32) | ((c.bytes[2] as u32) << 16u32) | ((c.bytes[3] as u32) << 24u32)
}


/// Cells below the column count fit on the screen.
proof fn lemma_cell_span(columns: usize, width: usize)
    requires
        columns == width / 16,
    ensures
        forall|x: int| 0 <= x < columns ==> #[trigger] (x * 16) + 16 <= width,
        columns * 16 <= width,
{
    assert forall|x: int| 0 <= x < columns implies #[trigger] (x * 16) + 16 <= width by {
        assert(x * 16 + 16 <= columns * 16) by (nonlinear_arith)
            requires
                x < columns,
        ;
    }
}

fn param_or_exec(ps: &[u16], i: usize, d: u16) -> (r: u16)
    ensures
        r == param_or(ps@, i as int, d),
{
    if i < ps.len() { ps[i] } else { d }
}

fn count_of_exec(v: u16) -> (r: usize)
    ensures
        r == count_of(v),
{
    if v < 1 { 1 } else { v as usize }
}

fn clamp_to_exec(v: usize, n: usize) -> (r: usize)
    ensures
        r == clamp_to(v as int, n),
{
    let last = if n > 0 { n - 1 } else { 0 };
    if v < last { v } else { last }
}

impl FramebufferWriter {
    fn save_cursor_position(&mut self)
        requires
            old(self).wf(),
        ensures
            final(self).wf(),
            final(self).view() == save_cursor_s(old(self).view()),
    {
        self.con.saved_cursor_x = self.con.cursor_x;
        self.con.saved_cursor_y = self.con.cursor_y;
        self.con.saved_pixel_x = self.con.pixel_x;
    }

    fn restore_cursor_position(&mut self)
        requires
            old(self).wf(),
        ensures
            final(self).wf(),
            final(self).view() == restore_cursor_s(old(self).view()),
    {
        self.con.cursor_x = self.con.saved_cursor_x;
        self.con.cursor_y = self.con.saved_cursor_y;
        self.con.pixel_x = self.con.saved_pixel_x;
    }

    fn handle_cursor_position(&mut self, params: &[u16])
        requires
            old(self).wf(),
        ensures
            final(self).wf(),
            final(self).view() == cursor_position_s(old(self).view(), params@),
    {
        let row = count_of_exec(param_or_exec(params, 0, 1)) - 1;
        let col = count_of_exec(param_or_exec(params, 1, 1)) - 1;
        proof {
            lemma_cell_span(self.con.columns, self.con.width);
        }
        self.con.cursor_y = clamp_to_exec(row, self.con.rows);
        self.con.cursor_x = clamp_to_exec(col, self.con.columns);
        self.con.pixel_x = self.con.cursor_x * CELL_WIDTH;
        self.con.char_count = 0;
    }

    fn handle_cursor_move(&mut self, cmd: u8, params: &[u16])
        requires
            old(self).wf(),
            cmd == 65 || cmd == 66 || cmd == 67 || cmd == 68 || cmd == 71 || cmd == 100,
        ensures
            final(self).wf(),
            final(self).view() == cursor_move_s(old(self).view(), cmd, params@),
    {
        let n = count_of_exec(param_or_exec(params, 0, 1));
        proof {
            lemma_cell_span(self.con.columns, self.con.width);
        }
        if cmd == 65 {
            self.con.cursor_y = if self.con.cursor_y >= n { self.con.cursor_y - n } else { 0 };
        } else if cmd == 66 {
            self.con.cursor_y = clamp_to_exec(self.con.cursor_y + n, self.con.rows);
        } else if cmd == 67 {
            self.con.cursor_x = clamp_to_exec(self.con.cursor_x + n, self.con.columns);
            self.con.pixel_x = self.con.cursor_x * CELL_WIDTH;
        } else if cmd == 68 {
            self.con.cursor_x = if self.con.cursor_x >= n { self.con.cursor_x - n } else { 0 };
            self.con.pixel_x = self.con.cursor_x * CELL_WIDTH;
        } else if cmd == 71 {
            self.con.cursor_x = clamp_to_exec(n - 1, self.con.columns);
            self.con.pixel_x = self.con.cursor_x * CELL_WIDTH;
        } else {
            self.con.cursor_y = clamp_to_exec(n - 1, self.con.rows);
        }
    }

    fn clear_text_rows(&mut self, start: usize, end: usize)
        requires
            old(self).wf(),
            end <= old(self).con.rows,
        ensures
            final(self).wf(),
            final(self).view() == (old(self).view().0, old(self).view().1,
                clear_rows_s(old(self).view().0, old(self).view().2, start as int, end as int, old(self).view().0.bg)),
    {
        let bg = self.con.bg;
        proof {
            assert(end * 16 <= self.con.height) by (nonlinear_arith)
                requires
                    end <= self.con.rows,
                    self.con.rows == self.con.height / 16,
            ;
        }
        self.render.clear_rows(start, end, bg);
    }

    fn handle_erase_display(&mut self, params: &[u16])
        requires
            old(self).wf(),
        ensures
            final(self).wf(),
            final(self).view() == erase_display_s(old(self).view(), params@),
    {
        let mode = param_or_exec(params, 0, 0);
        if mode == 2 {
            self.clear();
        } else if mode == 0 {
            let y = self.con.cursor_y * CELL_HEIGHT;
            let x = self.con.pixel_x;
            let w = if self.con.width >= x { self.con.width - x } else { 0 };
            let bg = self.con.bg;
            self.render.fill_rect(x, y, w, CELL_HEIGHT, bg);
            let (start, end) = (self.con.cursor_y + 1, self.con.rows);
            self.clear_text_rows(start, end);
        } else if mode == 1 {
            let end = self.con.cursor_y;
            self.clear_text_rows(0, end);
            let y = self.con.cursor_y * CELL_HEIGHT;
            let x = self.con.pixel_x;
            let bg = self.con.bg;
            self.render.fill_rect(0, y, x, CELL_HEIGHT, bg);
        }
    }

    fn handle_erase_line(&mut self, params: &[u16])
        requires
            old(self).wf(),
        ensures
            final(self).wf(),
            final(self).view() == erase_line_s(old(self).view(), params@),
    {
        let mode = param_or_exec(params, 0, 0);
        let y = self.con.cursor_y * CELL_HEIGHT;
        let bg = self.con.bg;
        if mode == 0 {
            let x = self.con.pixel_x;
            let w = if self.con.width >= x { self.con.width - x } else { 0 };
            self.render.fill_rect(x, y, w, CELL_HEIGHT, bg);
        } else if mode == 1 {
            let x = self.con.pixel_x;
            self.render.fill_rect(0, y, x, CELL_HEIGHT, bg);
        } else if mode == 2 {
            let w = self.con.width;
            self.render.fill_rect(0, y, w, CELL_HEIGHT, bg);
        }
    }

    fn handle_dec_private_mode_set(&mut self, params: &[u16])
        requires
            old(self).wf(),
        ensures
            final(self).wf(),
            final(self).view() == dec_set_s(old(self).view(), params@, 0),
    {
        let mut i: usize = 0;
        while i < params.len()
            invariant
                i <= params@.len(),
                self.wf(),
                dec_set_s(self.view(), params@, i as int) == dec_set_s(old(self).view(), params@, 0),
            decreases params@.len() - i,
        {
            let p = params[i];
            if p == 25 {
                self.con.cursor_visible = true;
                self.draw_cursor();
            } else if p == 1049 {
                self.save_cursor_position();
                self.clear();
            }
            i = i + 1;
        }
    }

    fn handle_dec_private_mode_reset(&mut self, params: &[u16])
        requires
            old(self).wf(),
        ensures
            final(self).wf(),
            final(self).view() == dec_reset_s(old(self).view(), params@, 0),
    {
        let mut i: usize = 0;
        while i < params.len()
            invariant
                i <= params@.len(),
                self.wf(),
                dec_reset_s(self.view(), params@, i as int) == dec_reset_s(old(self).view(), params@, 0),
            decreases params@.len() - i,
        {
            let p = params[i];
            if p == 25 {
                self.erase_cursor();
                self.con.cursor_visible = false;
            } else if p == 1049 {
                self.clear();
                self.restore_cursor_position();
            }
            i = i + 1;
        }
    }

    fn apply_sgr_action(&mut self, action: SgrAction)
        requires
            old(self).wf(),
        ensures
            final(self).wf(),
            final(self).view() == (sgr_apply(old(self).view().0, action), old(self).view().1, old(self).view().2),
    {
        match action {
            SgrAction::Reset => self.reset_colors(),
            SgrAction::Bold => self.con.bold = true,
            SgrAction::NoBold => self.con.bold = false,
            SgrAction::SetFg(idx, bright) => {
                let c = color_from_sgr(idx, bright);
                self.set_fg_color(c);
            },
            SgrAction::SetBg(idx, bright) => {
                let c = color_from_sgr(idx, bright);
                self.set_bg_color(c);
            },
            SgrAction::SetFgRgb(color) => self.set_fg_color(color),
            SgrAction::SetBgRgb(color) => self.set_bg_color(color),
            SgrAction::ResetFg => {
                let c = self.con.default_fg_rgb;
                self.set_fg_color(c);
            },
            SgrAction::ResetBg => {
                let c = self.con.default_bg_rgb;
                self.set_bg_color(c);
            },
            SgrAction::NoAction => {},
        }
    }

    /// Apply SGR (Select Graphic Rendition) parameters (see `apply_sgr_s`).
    #[verifier::rlimit(40)]
    fn apply_sgr(&mut self, params: &[u16])
        requires
            old(self).wf(),
        ensures
            final(self).wf(),
            final(self).view() == apply_sgr_s(old(self).view(), params@),
    {
        if params.len() == 0 {
            self.reset_colors();
            return;
        }
        let mut processor = SgrProcessor::new(params, self.con.bold);
        let ghost c0 = self.con;
        let mut more = true;
        while more
            invariant
                self.wf(),
                processor.params() == params@,
                0 <= processor.index() <= params@.len(),
                self.view().1 == old(self).view().1,
                self.view().2 == old(self).view().2,
                more ==> sgr_fold(self.con, params@, processor.index(), processor.bold()) == sgr_fold(c0, params@, 0, c0.bold),
                !more ==> self.con == sgr_fold(c0, params@, 0, c0.bold),
            decreases params@.len() - processor.index() + (if more { 1int } else { 0int }),
        {
            let ghost before = processor;
            match processor.next_action() {
                Some(action) => {
                    proof {
                        lemma_sgr_step(params@, before.index(), before.bold());
                        lemma_sgr_fold_step(self.con, params@, before.index(), before.bold());
                    }
                    self.apply_sgr_action(action);
                },
                None => {
                    proof {
                        lemma_sgr_fold_done(self.con, params@, processor.index(), processor.bold());
                    }
                    more = false;
                },
            }
        }
    }

    /// Handle a complete CSI sequence (see `handle_csi_s`).
    fn handle_csi(&mut self, command: u8, params: &[u16])
        requires
            old(self).wf(),
        ensures
            final(self).wf(),
            final(self).view() == handle_csi_s(old(self).view(), command, params@,
                old(self).view().0.ansi.param_len > 0 && old(self).view().0.ansi.param_buf[0] == 63),
    {
        let is_private = self.con.ansi.is_private();
        let cursor_moved = command == 72 || command == 102 || command == 65 || command == 66 || command == 67
            || command == 68 || command == 71 || command == 100 || command == 117;
        if cursor_moved && self.con.cursor_visible {
            self.erase_cursor();
        }
        if command == 109 {
            self.apply_sgr(params);
        } else if command == 74 {
            self.handle_erase_display(params);
        } else if command == 75 {
            self.handle_erase_line(params);
        } else if command == 72 || command == 102 {
            self.handle_cursor_position(params);
        } else if command == 65 || command == 66 || command == 67 || command == 68 || command == 71 || command == 100 {
            self.handle_cursor_move(command, params);
        } else if command == 104 {
            if is_private {
                self.handle_dec_private_mode_set(params);
            }
        } else if command == 108 {
            if is_private {
                self.handle_dec_private_mode_reset(params);
            }
        } else if command == 115 {
            self.save_cursor_position();
        } else if command == 117 {
            self.restore_cursor_position();
        }
        if cursor_moved && self.con.cursor_visible {
            self.draw_cursor();
        }
    }

    fn ground_byte(&mut self, byte: u8)
        requires
            old(self).wf(),
        ensures
            final(self).wf(),
            final(self).view() == ground_byte_s(old(self).view(), byte),
    {
        if byte == 0x1B {
            self.con.ansi.state = AnsiState::Escape;
        } else if byte == 0x08 {
            self.backspace();
        } else if byte == 10 || byte == 13 || byte == 9 || (0x20 <= byte && byte <= 0x7E) {
            self.write_char(byte as u32);
        } else if byte >= 0x80 {
            self.write_char(63);
        }
    }

    /// The parameters held, and run the CSI command `byte`, then leave the
    /// sequence.
    fn finish_csi(&mut self, byte: u8)
        requires
            old(self).wf(),
        ensures
            final(self).wf(),
            ({
                let a = old(self).view().0.ansi;
                let s1 = handle_csi_s(old(self).view(), byte, held_params(a), a.param_len > 0 && a.param_buf[0] == 63);
                final(self).view() == with_parser(s1, parser_reset(s1.0.ansi))
            }),
    {
        let (params, count) = self.con.ansi.parse_params();
        let ghost held = held_params(self.con.ansi);
        let all = params.as_slice();
        proof {
            broadcast use vstd::array::axiom_spec_array_as_slice;
        }
        assert(all@ == params@);
        let ps = vstd::slice::slice_subrange(all, 0, count);
        assert(ps@ =~= held);
        self.handle_csi(byte, ps);
        self.con.ansi.reset();
    }

    /// Process a single byte through the ANSI state machine (see
    /// `process_byte_s`).
    pub fn process_byte(&mut self, byte: u8)
        requires
            old(self).wf(),
        ensures
            final(self).wf(),
            final(self).view() == process_byte_s(old(self).view(), byte),
    {
        match self.con.ansi.state {
            AnsiState::Ground => self.ground_byte(byte),
            AnsiState::Escape => {
                if byte == 91 {
                    self.con.ansi.state = AnsiState::Csi;
                    self.con.ansi.param_len = 0;
                } else {
                    self.con.ansi.state = AnsiState::Ground;
                    self.ground_byte(byte);
                }
            },
            AnsiState::Csi => {
                if (48 <= byte && byte <= 57) || byte == 59 || byte == 63 {
                    self.con.ansi.push_param(byte);
                    proof {
                        broadcast use vstd::array::axiom_array_ext_equal, vstd::array::axiom_spec_array_update, vstd::array::lemma_array_index;
                        let a0 = old(self).con.ansi;
                        if a0.param_len < 32 {
                            let u = vstd::array::spec_array_update(a0.param_buf, a0.param_len as int, byte);
                            assert(u@ == a0.param_buf@.update(a0.param_len as int, byte));
                            assert(self.con.ansi.param_buf =~= u);
                        }
                        assert(self.con.ansi == param_pushed(old(self).con.ansi, byte));
                    }
                } else if byte == 109 || byte == 74 || byte == 75 || byte == 72 || byte == 102 || byte == 65 || byte == 66
                    || byte == 67 || byte == 68 || byte == 71 || byte == 100 || byte == 104 || byte == 108 || byte == 115
                    || byte == 117 || byte == 114 {
                    self.finish_csi(byte);
                } else if byte == 0x1B {
                    self.con.ansi.state = AnsiState::Escape;
                    self.con.ansi.param_len = 0;
                } else {
                    self.con.ansi.reset();
                }
            },
        }
    }

    /// Process bytes in order (see `process_bytes_s`).
    pub fn process_bytes(&mut self, bytes: &[u8])
        requires
            old(self).wf(),
        ensures
            final(self).wf(),
            final(self).view() == process_bytes_s(old(self).view(), bytes@),
    {
        let mut i: usize = 0;
        assert(bytes@.subrange(0, bytes@.len() as int) =~= bytes@);
        while i < bytes.len()
            invariant
                i <= bytes@.len(),
                self.wf(),
                process_bytes_s(self.view(), bytes@.subrange(i as int, bytes@.len() as int))
                    == process_bytes_s(old(self).view(), bytes@),
            decreases bytes@.len() - i,
        {
            proof {
                assert(bytes@.subrange(i as int, bytes@.len() as int).drop_first()
                    =~= bytes@.subrange(i + 1, bytes@.len() as int));
            }
            self.process_byte(bytes[i]);
            i = i + 1;
        }
        proof {
            assert(bytes@.subrange(i as int, bytes@.len() as int) =~= Seq::<u8>::empty());
        }
    }
}


impl FramebufferWriter {
    fn unicode_tab(&mut self)
        requires
            old(self).wf(),
        ensures
            final(self).wf(),
            final(self).view() == unicode_tab_s(old(self).view()),
    {
        let current_cell = self.con.pixel_x / CELL_WIDTH;
        let next_tab = ((current_cell / TAB_WIDTH) + 1) * TAB_WIDTH;
        let target_pixel = next_tab * CELL_WIDTH;
        let row_y = self.con.cursor_y * CELL_HEIGHT;
        if target_pixel > self.con.pixel_x {
            let (x, bg) = (self.con.pixel_x, self.con.bg);
            self.render.fill_rect(x, row_y, target_pixel - x, CELL_HEIGHT, bg);
        }
        if target_pixel >= self.con.width {
            proof {
                lemma_newline_ignores_cursor(self.view(), target_pixel, next_tab);
            }
            self.newline();
        } else {
            self.con.pixel_x = target_pixel;
            self.con.cursor_x = next_tab;
        }
    }

    fn fallback(&mut self, code: u32)
        requires
            old(self).wf(),
        ensures
            final(self).wf(),
            final(self).view() == fallback_s(old(self).view(), code),
    {
        self.write_char(code);
        self.con.pixel_x = self.con.cursor_x * CELL_WIDTH;
        self.push_char_width(CELL_WIDTH);
    }

    fn draw_glyph(&mut self, glyph: &GlyphBitmap, baseline: usize)
        requires
            old(self).wf(),
            glyph.width * glyph.height <= glyph.data@.len(),
            baseline <= 0x1000_0000,
        ensures
            final(self).wf(),
            final(self).view() == glyph_s(old(self).view(), glyph.view(), baseline as int),
    {
        let advance = glyph.advance as usize;
        if self.con.pixel_x + advance > self.con.width {
            self.newline();
        }
        if glyph.width == 0 || glyph.height == 0 {
            self.empty_glyph(advance);
        } else {
            self.full_glyph(glyph, baseline);
        }
    }

    fn empty_glyph(&mut self, advance: usize)
        requires
            old(self).wf(),
            advance <= 65535,
            old(self).view().0.pixel_x + advance <= old(self).view().0.width || old(self).view().0.pixel_x == 0,
        ensures
            final(self).wf(),
            final(self).view() == empty_glyph_s(old(self).view(), advance as int),
    {
        let w = if advance < 1 { 1 } else { advance };
        let (x, y, bg) = (self.con.pixel_x, self.con.cursor_y * CELL_HEIGHT, self.con.bg);
        self.render.fill_rect(x, y, w, CELL_HEIGHT, bg);
        self.con.pixel_x = self.con.pixel_x + w;
        self.con.cursor_x = self.con.pixel_x / CELL_WIDTH;
        self.push_char_width(w);
    }

    #[verifier::rlimit(40)]
    fn full_glyph(&mut self, glyph: &GlyphBitmap, baseline: usize)
        requires
            old(self).wf(),
            glyph.width * glyph.height <= glyph.data@.len(),
            baseline <= 0x1000_0000,
            old(self).view().0.pixel_x + glyph.advance <= old(self).view().0.width || old(self).view().0.pixel_x == 0,
        ensures
            final(self).wf(),
            final(self).view() == full_glyph_s(old(self).view(), glyph.view(), baseline as int),
    {
        let advance = glyph.advance as usize;
        let row_y = self.con.cursor_y * CELL_HEIGHT;
        proof {
            assert(self.con.cursor_y * 16 < 0x1000_0000) by (nonlinear_arith)
                requires
                    self.con.cursor_y < self.con.rows,
                    self.con.rows == self.con.height / 16,
                    self.con.height <= MAX_SIDE,
            ;
        }
        let pixel_y = row_y + baseline;
        let bx: usize = if glyph.bearing_x < 0 { 0 } else { glyph.bearing_x as usize };
        let clear_width = if advance > (glyph.width as usize) + bx { advance } else { (glyph.width as usize) + bx };
        let (x, fg, bg) = (self.con.pixel_x, self.con.fg, self.con.bg);
        self.render.fill_rect(x, row_y, clear_width, CELL_HEIGHT, bg);
        self.render.draw_ttf_glyph(x, pixel_y, glyph.data.as_slice(), glyph.width as usize, glyph.height as usize,
            glyph.bearing_x, glyph.bearing_y, fg, bg);
        self.con.pixel_x = self.con.pixel_x + advance;
        self.con.cursor_x = self.con.pixel_x / CELL_WIDTH;
        self.push_char_width(advance);
        if self.con.pixel_x >= self.con.width {
            self.newline();
        }
    }

    /// Write a character, with an anti-aliased glyph where fonts are
    /// `ready` and `glyph` holds the one rasterized for it (see
    /// `write_unicode_s`).
    pub fn write_unicode_char(&mut self, ch: char, ready: bool, glyph: Option<&GlyphBitmap>, baseline: usize)
        requires
            old(self).wf(),
            glyph matches Some(g) ==> g.width * g.height <= g.data@.len(),
            baseline <= 0x1000_0000,
        ensures
            final(self).wf(),
            final(self).view() == write_unicode_s(old(self).view(), ch, ready,
                match glyph { Some(g) => Some(g.view()), None => None }, baseline as int),
    {
        let code = ch as u32;
        if code == 10 {
            self.newline();
        } else if code == 13 {
            self.con.cursor_x = 0;
            self.con.pixel_x = 0;
            self.con.char_count = 0;
        } else if code == 9 {
            self.unicode_tab();
        } else if code == 8 {
            self.backspace();
        } else if code <= 0x1F || code == 0x7F {
        } else if !ready {
            self.fallback(if code <= 0x7F { code } else { 63 });
        } else {
            match glyph {
                Some(g) => self.draw_glyph(g, baseline),
                None => self.fallback(63),
            }
        }
    }

    fn write_str_char(&mut self, ch: char, ready: bool, glyph: Option<&GlyphBitmap>, baseline: usize)
        requires
            old(self).wf(),
            glyph matches Some(g) ==> g.width * g.height <= g.data@.len(),
            baseline <= 0x1000_0000,
        ensures
            final(self).wf(),
            final(self).view() == str_char_s(old(self).view(), ch, ready,
                match glyph { Some(g) => Some(g.view()), None => None }, baseline as int),
    {
        let code = ch as u32;
        match self.con.ansi.state {
            AnsiState::Ground => {
                if code == 0x1B {
                    self.con.ansi.state = AnsiState::Escape;
                } else if ready {
                    self.write_unicode_char(ch, ready, glyph, baseline);
                } else if code <= 0x7F {
                    self.process_byte(code as u8);
                } else {
                    self.write_char(63);
                }
            },
            AnsiState::Escape => {
                if code == 91 {
                    self.con.ansi.state = AnsiState::Csi;
                    self.con.ansi.param_len = 0;
                } else {
                    self.con.ansi.state = AnsiState::Ground;
                    if ready {
                        self.write_unicode_char(ch, ready, glyph, baseline);
                    } else if code <= 0x7F {
                        self.process_byte(code as u8);
                    }
                }
            },
            AnsiState::Csi => {
                if code <= 0x7F && ((48 <= code && code <= 57) || code == 59 || code == 63) {
                    self.process_byte(code as u8);
                } else if code <= 0x7F && {
                    let b = code as u8;
                    b == 109 || b == 74 || b == 75 || b == 72 || b == 102 || b == 65 || b == 66 || b == 67 || b == 68
                        || b == 71 || b == 100 || b == 104 || b == 108 || b == 115 || b == 117 || b == 114
                } {
                    self.finish_csi(code as u8);
                } else if code == 0x1B {
                    self.con.ansi.state = AnsiState::Escape;
                    self.con.ansi.param_len = 0;
                } else {
                    self.con.ansi.reset();
                }
            },
        }
    }

    /// Write a string: `glyphs[k]` is the glyph rasterized for its `k`th
    /// character where fonts are `ready` (see `write_str_s`).
    pub fn write_str(&mut self, s: &str, ready: bool, glyphs: &[Option<GlyphBitmap>], baseline: usize)
        requires
            old(self).wf(),
            glyphs@.len() >= s@.len(),
            glyphs_ok(glyphs@),
            baseline <= 0x1000_0000,
        ensures
            final(self).wf(),
            final(self).view() == write_str_s(old(self).view(), s@, 0, ready, glyph_views(glyphs@), baseline as int),
    {
        broadcast use vstd::string::axiom_spec_iter;
        let ghost gs = glyph_views(glyphs@);
        let mut k: usize = 0;
        for ch in it: s.chars()
            invariant
                it.seq() == s@,
                k == it.index(),
                k <= s@.len(),
                glyphs@.len() >= s@.len(),
                glyphs_ok(glyphs@),
                baseline <= 0x1000_0000,
                gs == glyph_views(glyphs@),
                self.wf(),
                write_str_s(self.view(), s@, k as int, ready, gs, baseline as int)
                    == write_str_s(old(self).view(), s@, 0, ready, gs, baseline as int),
        {
            let glyph = match &glyphs[k] {
                Some(g) => Some(g),
                None => None,
            };
            assert(glyphs@[k as int] == glyphs[k as int]);
            self.write_str_char(ch, ready, glyph, baseline);
            k = k + 1;
        }
    }
}


/// Writing `a` and then `b` leaves the console as writing `a + b` does:
/// the console is a stream.
pub proof fn law_write_concat(s: Screen, a: Seq<u8>, b: Seq<u8>)
    ensures
        process_bytes_s(s, a + b) == process_bytes_s(process_bytes_s(s, a), b),
    decreases a.len(),
{
    if a.len() > 0 {
        assert((a + b).drop_first() =~= a.drop_first() + b);
        assert((a + b)[0] == a[0]);
        law_write_concat(process_byte_s(s, a[0]), a.drop_first(), b);
    } else {
        assert(a + b =~= b);
    }
}

} // verus!
