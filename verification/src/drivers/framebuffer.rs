//! Framebuffer console: colors, escape sequences, fonts, rendering, and
//! the console state the kernel keeps for the boot framebuffer.

pub mod ansi;
pub mod color;
pub mod font;
pub mod render;
pub mod spec;
pub mod writer;

use vstd::prelude::*;
use vstd::string::StringSliceAdditionalSpecFns;
use spec::FramebufferSpec;
use writer::{clear_s, backspace_s, geometry_ok, initial_console, process_bytes_s, write_str_s, glyph_views, glyphs_ok, FramebufferWriter, Screen, MAX_SIDE};
use font::glyph::GlyphBitmap;
use writer::format_ok;
use writer::PixelFormat;
use color::FramebufferField;

verus! {

/// The framebuffer as the kernel keeps it: the specification found at
/// boot, whether the console is ready, and the console.
pub struct FramebufferState {
    spec: Option<FramebufferSpec>,
    ready: bool,
    writer: Option<FramebufferWriter>,
}

/// The console's state, where there is a console.
pub open spec fn screen_of(w: Option<FramebufferWriter>) -> Option<Screen> {
    match w {
        Some(w) => Some(w.view()),
        None => None,
    }
}

/// The screen right after activation: a new console on `buffer`, cleared.
pub open spec fn activated_screen(sc: Option<Screen>, spec: Option<FramebufferSpec>, buffer: Seq<u8>, ready: bool, workers: usize) -> bool {
    match (sc, spec) {
        (Some(sc), Some(s)) => exists|c0: writer::Console|
            #[trigger] initial_console(c0, s, ready, workers) && sc == clear_s((c0, Seq::new(256, |i: int| 0u8), buffer)),
        _ => false,
    }
}

fn field_ok_exec(f: FramebufferField) -> (r: bool)
    ensures
        r == writer::field_ok(f),
{
    f.size == 0 || (f.position < 32 && f.size <= 24)
}

/// Whether a console can be drawn on `spec` over `len` bytes.
fn geometry_ok_exec(spec: FramebufferSpec, len: usize) -> (r: bool)
    ensures
        r == geometry_ok(spec, len as int),
{
    let bytes = ((spec.bpp as u64) + 7) / 8;
    assert((spec.width as u64) * bytes <= 0xFFFF_FFFF * 32) by (nonlinear_arith)
        requires
            spec.width <= 0xFFFF_FFFF,
            bytes <= 32,
    ;
    assert((spec.height as u64) * (spec.pitch as u64) <= 0xFFFF_FFFF * 0xFFFF_FFFF) by (nonlinear_arith)
        requires
            spec.height <= 0xFFFF_FFFF,
            spec.pitch <= 0xFFFF_FFFF,
    ;
    spec.bpp <= 32 && (spec.width as usize) <= MAX_SIDE && (spec.height as usize) <= MAX_SIDE
        && (spec.width as u64) * bytes <= spec.pitch as u64
        && (spec.height as u64) * (spec.pitch as u64) <= len as u64
        && field_ok_exec(spec.red) && field_ok_exec(spec.green) && field_ok_exec(spec.blue)
}

impl FramebufferState {
    pub closed spec fn spec_view(&self) -> Option<FramebufferSpec> {
        self.spec
    }

    pub closed spec fn ready_view(&self) -> bool {
        self.ready
    }

    pub closed spec fn screen(&self) -> Option<Screen> {
        screen_of(self.writer)
    }

    pub closed spec fn wf(&self) -> bool {
        &&& (self.writer matches Some(w) ==> w.wf())
        &&& (self.ready ==> self.writer is Some)
    }

    /// Whether activation on `len` bytes makes a console (see `activate`).
    pub open spec fn activates(&self, len: int) -> bool {
        match self.spec_view() {
            Some(s) => !self.ready_view() && self.screen() is None && s.pitch * s.height != 0
                && geometry_ok(s, len) && s.bpp >= 16 && s.width / 16 > 0 && s.height / 16 > 0,
            None => false,
        }
    }

    /// No framebuffer known, no console.
    pub fn new() -> (r: Self)
        ensures
            r.wf(),
            r.spec_view() is None,
            !r.ready_view(),
            r.screen() is None,
    {
        FramebufferState { spec: None, ready: false, writer: None }
    }

    /// The console's frame bytes, to be copied to the device.
    pub fn frame(&self) -> (r: Option<&[u8]>)
        requires
            self.wf(),
        ensures
            r is None <==> self.screen() is None,
            r matches Some(b) ==> (self.screen() matches Some(sc) && b@ == sc.2),
    {
        match &self.writer {
            Some(w) => Some(w.buffer().as_slice()),
            None => None,
        }
    }

    /// Keep the framebuffer specification the boot loader described.
    pub fn early_init(&mut self, spec: Option<FramebufferSpec>)
        requires
            old(self).wf(),
        ensures
            final(self).wf(),
            final(self).spec_view() == (if spec is Some { spec } else { old(self).spec_view() }),
            final(self).ready_view() == old(self).ready_view(),
            final(self).screen() == old(self).screen(),
    {
        if let Some(s) = spec {
            self.spec = Some(s);
        }
    }

    /// Install the framebuffer the firmware described: it replaces the
    /// known one, and the console waits for activation again.
    pub fn install_from_bootinfo(&mut self, spec: FramebufferSpec)
        requires
            old(self).wf(),
        ensures
            final(self).wf(),
            final(self).spec_view() == Some(spec),
            !final(self).ready_view(),
            final(self).screen() == old(self).screen(),
    {
        self.spec = Some(spec);
        self.ready = false;
    }

    /// The region activation needs mapped: the framebuffer's address and
    /// size; none when the console is ready, no framebuffer is known, or
    /// it has no bytes.
    pub fn mapping(&self) -> (r: Option<(u64, usize)>)
        ensures
            r == (match self.spec_view() {
                Some(s) => if self.ready_view() || s.pitch * s.height == 0 {
                    None
                } else {
                    Some((s.address, (if s.pitch * s.height > usize::MAX { usize::MAX as int } else { s.pitch * s.height }) as usize))
                },
                None => None::<(u64, usize)>,
            }),
    {
        if self.ready {
            return None;
        }
        match self.spec {
            Some(s) => {
                let len = s.size();
                if len == 0 {
                    None
                } else {
                    Some((s.address, len))
                }
            },
            None => None,
        }
    }

    /// Activate the console on the mapped framebuffer bytes: a console is
    /// made, cleared and marked ready when none exists yet, the known
    /// specification gives pixels of 16 to 32 bits and at least one cell,
    /// and the geometry fits `buffer`.  Returns whether it was activated.
    pub fn activate(&mut self, buffer: Vec<u8>, compositor_ready: bool, workers: usize) -> (r: bool)
        requires
            old(self).wf(),
            workers <= 0x1_0000,
        ensures
            final(self).wf(),
            final(self).spec_view() == old(self).spec_view(),
            r == old(self).activates(buffer@.len() as int),
            r ==> final(self).ready_view() && activated_screen(final(self).screen(), old(self).spec_view(), buffer@,
                compositor_ready, workers),
            !r ==> final(self).ready_view() == old(self).ready_view() && final(self).screen() == old(self).screen(),
    {
        if self.ready {
            return false;
        }
        let spec = match self.spec {
            Some(s) => s,
            None => return false,
        };
        if spec.size() == 0 {
            return false;
        }
        if self.writer.is_some() {
            return false;
        }
        if !geometry_ok_exec(spec, buffer.len()) {
            return false;
        }
        match FramebufferWriter::new(buffer, spec, compositor_ready, workers) {
            Some(mut w) => {
                let ghost c0 = w.view().0;
                w.clear();
                self.writer = Some(w);
                self.ready = true;
                true
            },
            None => false,
        }
    }
}

/// Check if the framebuffer is ready for use
pub fn is_ready(fb: &FramebufferState) -> (r: bool)
    ensures
        r == fb.ready_view(),
{
    fb.ready
}

/// Clear the framebuffer screen
pub fn clear(fb: &mut FramebufferState)
    requires
        old(fb).wf(),
    ensures
        final(fb).wf(),
        final(fb).ready_view() == old(fb).ready_view(),
        final(fb).spec_view() == old(fb).spec_view(),
        final(fb).screen() == (match old(fb).screen() {
            Some(s) => Some(clear_s(s)),
            None => None,
        }),
{
    if let Some(w) = &mut fb.writer {
        w.clear();
    }
}

/// Handle backspace
pub fn backspace(fb: &mut FramebufferState)
    requires
        old(fb).wf(),
    ensures
        final(fb).wf(),
        final(fb).ready_view() == old(fb).ready_view(),
        final(fb).spec_view() == old(fb).spec_view(),
        final(fb).screen() == (match old(fb).screen() {
            Some(s) => Some(backspace_s(s)),
            None => None,
        }),
{
    if let Some(w) = &mut fb.writer {
        w.backspace();
    }
}

/// Write bytes to the console once it is ready.
pub fn write_bytes(fb: &mut FramebufferState, bytes: &[u8])
    requires
        old(fb).wf(),
    ensures
        final(fb).wf(),
        final(fb).ready_view() == old(fb).ready_view(),
        final(fb).spec_view() == old(fb).spec_view(),
        final(fb).screen() == (match old(fb).screen() {
            Some(s) => if old(fb).ready_view() { Some(process_bytes_s(s, bytes@)) } else { Some(s) },
            None => None,
        }),
{
    if !fb.ready {
        return;
    }
    if let Some(w) = &mut fb.writer {
        w.process_bytes(bytes);
    }
}

/// Write a string to the console once it is ready, byte by byte.
pub fn write_str(fb: &mut FramebufferState, text: &str)
    requires
        old(fb).wf(),
    ensures
        final(fb).wf(),
        final(fb).ready_view() == old(fb).ready_view(),
        final(fb).spec_view() == old(fb).spec_view(),
        final(fb).screen() == (match old(fb).screen() {
            Some(s) => if old(fb).ready_view() { Some(process_bytes_s(s, text.spec_bytes())) } else { Some(s) },
            None => None,
        }),
{
    write_bytes(fb, text.as_bytes());
}

/// Print text to the console, ready or not, through its character path:
/// `glyphs[k]` is the glyph rasterized for the `k`th character once fonts
/// are `fonts_ready` (see `FramebufferWriter::write_str`).
pub fn print_str(fb: &mut FramebufferState, text: &str, fonts_ready: bool, glyphs: &[Option<GlyphBitmap>], baseline: usize)
    requires
        old(fb).wf(),
        glyphs@.len() >= text@.len(),
        glyphs_ok(glyphs@),
        baseline <= 0x1000_0000,
    ensures
        final(fb).wf(),
        final(fb).ready_view() == old(fb).ready_view(),
        final(fb).spec_view() == old(fb).spec_view(),
        final(fb).screen() == (match old(fb).screen() {
            Some(s) => Some(write_str_s(s, text@, 0, fonts_ready, glyph_views(glyphs@), baseline as int)),
            None => None,
        }),
{
    if let Some(w) = &mut fb.writer {
        w.write_str(text, fonts_ready, glyphs, baseline);
    }
}

} // verus!
