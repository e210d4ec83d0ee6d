//! Framebuffer specification: where the framebuffer lies, its geometry
//! and its pixel format.

use vstd::prelude::*;
use super::color::FramebufferField;

verus! {

/// Hardware framebuffer specification
#[derive(Clone, Copy)]
pub struct FramebufferSpec {
    pub address: u64,
    pub pitch: u32,
    pub width: u32,
    pub height: u32,
    pub bpp: u8,
    pub red: FramebufferField,
    pub green: FramebufferField,
    pub blue: FramebufferField,
}

impl FramebufferSpec {
    /// Total framebuffer size in bytes, saturating.
    pub fn size(&self) -> (r: usize)
        ensures
            r == (if self.pitch * self.height > usize::MAX { usize::MAX as int } else { self.pitch * self.height }),
    {
        match (self.pitch as usize).checked_mul(self.height as usize) {
            Some(n) => n,
            None => usize::MAX,
        }
    }

    /// Whether the spec can be rendered to: nonzero sides and pitch, at
    /// least 16 bits a pixel.
    pub fn is_valid(&self) -> (r: bool)
        ensures
            r == (self.width > 0 && self.height > 0 && self.bpp >= 16 && self.pitch > 0),
    {
        self.width > 0 && self.height > 0 && self.bpp >= 16 && self.pitch > 0
    }
}

} // verus!
