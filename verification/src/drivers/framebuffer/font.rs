//! TrueType font support for the framebuffer console
//!
//! Before the real root is mounted the console draws with its built-in
//! bitmap font; once `/etc/fonts` can be read, TrueType fonts are loaded
//! and characters the bitmap font lacks are drawn with them.

pub mod config;
pub mod glyph;
pub mod manager;
pub mod ttf;

use vstd::prelude::*;
use self::manager::{FontManager, FontManagerError, GlyphChoice, font_has};

verus! {

/// Font system state
#[derive(Debug, Clone, Copy, PartialEq, Eq, Structural)]
pub enum FontSystemState {
    /// Font system not initialized (using fallback bitmap font)
    Uninitialized,
    /// Font system is initializing
    Initializing,
    /// Font system ready with TTF support
    Ready,
    /// Font system failed to initialize (using fallback)
    Failed,
}

/// The font system: its state and, once ready, its font manager.
pub struct FontSystem {
    state: FontSystemState,
    manager: Option<FontManager>,
}

impl FontSystem {
    pub closed spec fn state_view(&self) -> FontSystemState {
        self.state
    }

    pub closed spec fn manager_view(&self) -> Option<FontManager> {
        self.manager
    }

    /// Nothing loaded yet.
    pub fn new() -> (r: Self)
        ensures
            r.state_view() == FontSystemState::Uninitialized,
            r.manager_view() is None,
    {
        FontSystem { state: FontSystemState::Uninitialized, manager: None }
    }

    /// The font manager, once fonts are loaded.
    pub fn manager(&self) -> (r: Option<&FontManager>)
        ensures
            r is Some <==> self.manager_view() is Some,
            r matches Some(m) ==> *m == self.manager_view()->0,
    {
        match &self.manager {
            Some(m) => Some(m),
            None => None,
        }
    }

    /// Check if the font system is ready for TTF rendering
    pub fn is_ready(&self) -> (r: bool)
        ensures
            r == (self.state_view() == FontSystemState::Ready),
    {
        self.state == FontSystemState::Ready
    }

    /// Get current font system state
    pub fn state(&self) -> (r: FontSystemState)
        ensures
            r == self.state_view(),
    {
        self.state
    }

    /// Start initializing after the real root is mounted; only from the
    /// uninitialized state (true when started).
    pub fn init_after_pivot_root(&mut self) -> (r: bool)
        ensures
            r == (old(self).state_view() == FontSystemState::Uninitialized),
            r ==> final(self).state_view() == FontSystemState::Initializing,
            !r ==> final(self).state_view() == old(self).state_view(),
            final(self).manager_view() == old(self).manager_view(),
    {
        if self.state != FontSystemState::Uninitialized {
            return false;
        }
        self.state = FontSystemState::Initializing;
        true
    }

    /// End initializing with the manager whose fonts loaded, or the error
    /// that stopped them: ready with the manager, or failed.
    pub fn finish_init(&mut self, loaded: Result<FontManager, FontManagerError>)
        ensures
            match loaded {
                Ok(m) => final(self).state_view() == FontSystemState::Ready && final(self).manager_view() == Some(m),
                Err(_) => final(self).state_view() == FontSystemState::Failed && final(self).manager_view()
                    == old(self).manager_view(),
            },
    {
        match loaded {
            Ok(m) => {
                self.manager = Some(m);
                self.state = FontSystemState::Ready;
            },
            Err(_) => {
                self.state = FontSystemState::Failed;
            },
        }
    }

    /// Where a character's glyph comes from, once a manager is there.
    pub fn get_glyph(&self, ch: char) -> (r: Option<GlyphChoice>)
        ensures
            match self.manager_view() {
                Some(m) => r == Some(
                    match manager::glyph_source(m.fonts_view(), ch as u32, m.fonts_view().len() as int) {
                        Some((f, g)) => GlyphChoice::Rasterize { font: f as usize, glyph_id: g },
                        None => GlyphChoice::Placeholder,
                    },
                ),
                None => r is None,
            },
    {
        match &self.manager {
            Some(m) => Some(m.get_glyph(ch)),
            None => None,
        }
    }

    /// Check if a character can be rendered with TTF fonts: the system is
    /// ready and some loaded font has a glyph for it.
    pub fn can_render(&self, ch: char) -> (r: bool)
        ensures
            r == (self.state_view() == FontSystemState::Ready && match self.manager_view() {
                Some(m) => exists|i: int| 0 <= i < m.fonts_view().len() && font_has(#[trigger] m.fonts_view()[i], ch as u32),
                None => false,
            }),
    {
        if !self.is_ready() {
            return false;
        }
        match &self.manager {
            Some(m) => m.has_glyph(ch),
            None => false,
        }
    }
}

} // verus!
