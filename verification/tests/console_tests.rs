use nexaos::drivers::framebuffer::ansi::AnsiState;
use nexaos::drivers::framebuffer::color::{FramebufferField, PackedColor, RgbColor};
use nexaos::drivers::framebuffer::font::glyph::GlyphBitmap;
use nexaos::drivers::framebuffer::render::RenderContext;
use nexaos::drivers::framebuffer::spec::FramebufferSpec;
use nexaos::drivers::framebuffer::writer::FramebufferWriter;
use nexaos::drivers::framebuffer::{self as fb, FramebufferState};

const FG: [u8; 4] = [0xF1, 0xEC, 0xE6, 0x00];
const BG: [u8; 4] = [0x12, 0x0C, 0x08, 0x00];

fn spec(width: u32, height: u32) -> FramebufferSpec {
    FramebufferSpec {
        address: 0,
        pitch: width * 4,
        width,
        height,
        bpp: 32,
        red: FramebufferField { position: 16, size: 8 },
        green: FramebufferField { position: 8, size: 8 },
        blue: FramebufferField { position: 0, size: 8 },
    }
}

fn writer(width: u32, height: u32) -> FramebufferWriter {
    let s = spec(width, height);
    FramebufferWriter::new(vec![0u8; (width * 4 * height) as usize], s, false, 1).unwrap()
}

fn pixel(w: &FramebufferWriter, x: usize, y: usize) -> [u8; 4] {
    let pitch = w.console().pitch;
    let b = w.buffer();
    let at = y * pitch + x * 4;
    [b[at], b[at + 1], b[at + 2], b[at + 3]]
}

#[test]
fn writer_needs_sixteen_bits_and_a_cell() {
    let mut s = spec(64, 32);
    s.bpp = 8;
    assert!(FramebufferWriter::new(vec![0u8; 64 * 4 * 32], s, false, 1).is_none());
    let s = spec(15, 32);
    assert!(FramebufferWriter::new(vec![0u8; 15 * 4 * 32], s, false, 1).is_none());
    let w = writer(64, 32);
    let c = w.console();
    assert_eq!((c.columns, c.rows, c.bpp), (4, 2, 4));
    assert_eq!(c.fg.bytes, FG);
    assert_eq!(c.bg.bytes, BG);
}

#[test]
fn letter_draws_its_glyph() {
    let mut w = writer(64, 32);
    w.process_byte(b'A');
    assert_eq!(w.console().cursor_x, 1);
    let glyph = font8x8::legacy::BASIC_LEGACY[b'A' as usize];
    for gy in 0..8 {
        for gx in 0..8 {
            let expected = if glyph[gy] & (1 << gx) != 0 { FG } else { BG };
            for (sx, sy) in [(0, 0), (1, 0), (0, 1), (1, 1)] {
                assert_eq!(pixel(&w, gx * 2 + sx, gy * 2 + sy), expected);
            }
        }
    }
    // The next cell is untouched.
    assert_eq!(pixel(&w, 16, 0), [0, 0, 0, 0]);
}

#[test]
fn cursor_position_is_clamped() {
    let mut w = writer(64, 32);
    w.process_bytes(b"\x1b[9;3H");
    let c = w.console();
    assert_eq!((c.cursor_y, c.cursor_x, c.pixel_x), (1, 2, 32));
    assert_eq!(c.ansi.state, AnsiState::Ground);
    // The cursor underline is drawn in the last three rows of the cell.
    assert_eq!(pixel(&w, 32, 16 + 13), FG);
    assert_eq!(pixel(&w, 32, 16 + 12), [0, 0, 0, 0]);
}

#[test]
fn sgr_sets_and_resets_colors() {
    let mut w = writer(64, 32);
    w.process_bytes(b"\x1b[31m");
    let c = w.console();
    assert_eq!(c.fg_rgb, RgbColor { r: 0xAA, g: 0, b: 0 });
    assert_eq!(c.fg.bytes, [0, 0, 0xAA, 0]);
    w.process_bytes(b"\x1b[38;2;1;2;3m");
    assert_eq!(w.console().fg_rgb, RgbColor { r: 1, g: 2, b: 3 });
    w.process_bytes(b"\x1b[m");
    assert_eq!(w.console().fg.bytes, FG);
    w.process_bytes(b"\x1b[1;97m");
    assert!(w.console().bold);
    assert_eq!(w.console().fg_rgb, RgbColor { r: 0xFF, g: 0xFF, b: 0xFF });
}

#[test]
fn byte_path_keeps_no_widths_for_backspace() {
    let mut w = writer(64, 32);
    w.process_byte(b'A');
    let before = w.buffer().clone();
    w.process_byte(0x08);
    assert_eq!(w.buffer(), &before);
    assert_eq!(w.console().cursor_x, 1);
}

#[test]
fn newline_on_last_row_clears_before_compositor() {
    let mut w = writer(64, 32);
    w.process_bytes(b"x\n");
    assert_eq!(w.console().cursor_y, 1);
    w.process_bytes(b"\n");
    let c = w.console();
    assert_eq!((c.cursor_x, c.cursor_y), (0, 0));
    assert_eq!(pixel(&w, 0, 0), BG);
    assert_eq!(pixel(&w, 63, 31), BG);
}

#[test]
fn newline_on_last_row_scrolls_after_compositor() {
    let mut w = writer(64, 32);
    w.set_compositor(true, 1);
    w.process_bytes(b"\nA");
    assert_eq!(pixel(&w, 4, 16), FG);
    w.process_bytes(b"\n");
    assert_eq!(w.console().cursor_y, 1);
    // Row 1 moved up to row 0, the freed row cleared.
    assert_eq!(pixel(&w, 4, 0), FG);
    assert_eq!(pixel(&w, 4, 16), BG);
}

#[test]
fn tab_stops_at_the_end_of_the_row() {
    let mut w = writer(96, 32);
    w.process_bytes(b"abcde");
    assert_eq!(w.console().cursor_x, 5);
    w.process_byte(b'\t');
    assert_eq!(w.console().cursor_x, 6);
    let mut w = writer(64, 32);
    w.process_bytes(b"a\t");
    assert_eq!(w.console().cursor_x, 4);
}

#[test]
fn writes_compose() {
    let mut one = writer(64, 32);
    one.process_bytes(b"ab\x1b[32mc\r\nd");
    let mut two = writer(64, 32);
    two.process_bytes(b"ab\x1b[3");
    two.process_bytes(b"2mc\r\nd");
    assert_eq!(one.buffer(), two.buffer());
    assert_eq!(one.console().cursor_x, two.console().cursor_x);
    assert_eq!(one.console().fg_rgb, two.console().fg_rgb);
}

#[test]
fn erase_line_clears_to_the_end() {
    let mut w = writer(64, 32);
    w.process_bytes(b"AB\x1b[D\x1b[K");
    assert_eq!(w.console().cursor_x, 1);
    assert_eq!(pixel(&w, 20, 4), BG);
    assert_eq!(pixel(&w, 63, 15), BG);
}

#[test]
fn text_without_fonts_uses_bitmaps() {
    let mut w = writer(64, 32);
    w.write_str("é", false, &[None], 12);
    let mut q = writer(64, 32);
    q.process_byte(b'?');
    assert_eq!(w.buffer(), q.buffer());
}

#[test]
fn ttf_glyph_advances_and_records_width() {
    let mut w = writer(64, 32);
    let g = GlyphBitmap { width: 2, height: 2, bearing_x: 0, bearing_y: 2, advance: 5, data: vec![255, 0, 0, 255] };
    w.write_unicode_char('x', true, Some(&g), 12);
    let c = w.console();
    assert_eq!((c.pixel_x, c.cursor_x, c.char_count), (5, 0, 1));
    assert_eq!(pixel(&w, 0, 10), FG);
    assert_eq!(pixel(&w, 1, 10), BG);
    w.backspace();
    let c = w.console();
    assert_eq!((c.pixel_x, c.char_count), (0, 0));
    assert_eq!(pixel(&w, 0, 10), BG);
}

#[test]
fn render_fill_is_clipped() {
    let mut r = RenderContext::new(vec![0u8; 16 * 2], 4, 2, 16, 32);
    r.fill_rect(2, 1, 10, 10, PackedColor::new(0x01020304, 4));
    assert_eq!(&r.buffer[16..24], &[0u8; 8]);
    assert_eq!(&r.buffer[24..32], &[4, 3, 2, 1, 4, 3, 2, 1]);
    assert_eq!(&r.buffer[0..16], &[0u8; 16]);
}

#[test]
fn render_blends_partial_coverage() {
    let mut r = RenderContext::new(vec![0u8; 4], 1, 1, 4, 32);
    let fg = PackedColor::new(0x00FF_FFFF, 4);
    r.draw_ttf_glyph(0, 0, &[128], 1, 1, 0, 0, fg, fg);
    assert_eq!(r.buffer, vec![128, 128, 128, 0]);
}

#[test]
fn console_state_writes_once_ready() {
    let mut state = FramebufferState::new();
    fb::write_str(&mut state, "ignored");
    assert!(!fb::is_ready(&state));
    state.early_init(Some(spec(64, 32)));
    assert_eq!(state.mapping(), Some((0, 64 * 4 * 32)));
    assert!(state.activate(vec![0u8; 64 * 4 * 32], false, 1));
    assert!(fb::is_ready(&state));
    assert_eq!(state.mapping(), None);
    assert!(!state.activate(vec![0u8; 64 * 4 * 32], false, 1));
    fb::write_str(&mut state, "A");
}
