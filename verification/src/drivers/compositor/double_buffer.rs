//! Double buffering support
//!
//! Tear-free rendering: the picture is drawn into the back buffer and the
//! buffers are exchanged at a safe point.  The caller allocates the
//! buffers; this state records their addresses and geometry.

use vstd::prelude::*;
use super::config::PARALLEL_SCROLL_THRESHOLD;

verus! {

/// What a double buffer holds.
pub struct BufferView {
    pub front: u64,
    pub back: u64,
    pub width: usize,
    pub height: usize,
    pub pitch: usize,
    pub bpp: usize,
    pub swap_pending: bool,
    pub generation: u64,
}

/// The buffer after a swap: front and back exchanged, pending request
/// consumed, generation advanced.
pub open spec fn swapped(v: BufferView) -> BufferView {
    BufferView {
        front: v.back,
        back: v.front,
        swap_pending: false,
        generation: v.generation.wrapping_add(1),
        ..v
    }
}

/// Double buffer state for tear-free rendering
pub struct DoubleBuffer {
    front_buffer: u64,
    back_buffer: u64,
    width: usize,
    height: usize,
    pitch: usize,
    bpp: usize,
    swap_pending: bool,
    generation: u64,
}

impl DoubleBuffer {
    pub closed spec fn view(&self) -> BufferView {
        BufferView {
            front: self.front_buffer,
            back: self.back_buffer,
            width: self.width,
            height: self.height,
            pitch: self.pitch,
            bpp: self.bpp,
            swap_pending: self.swap_pending,
            generation: self.generation,
        }
    }

    /// Create a new uninitialized double buffer state
    pub fn new() -> (r: Self)
        ensures
            r.view() == (BufferView {
                front: 0,
                back: 0,
                width: 0,
                height: 0,
                pitch: 0,
                bpp: 0,
                swap_pending: false,
                generation: 0,
            }),
    {
        DoubleBuffer {
            front_buffer: 0,
            back_buffer: 0,
            width: 0,
            height: 0,
            pitch: 0,
            bpp: 0,
            swap_pending: false,
            generation: 0,
        }
    }

    /// Initialize double buffer with provided buffer addresses
    pub fn init(&mut self, front: u64, back: u64, width: usize, height: usize, pitch: usize, bpp: usize)
        ensures
            final(self).view() == (BufferView {
                front,
                back,
                width,
                height,
                pitch,
                bpp,
                swap_pending: false,
                generation: old(self).view().generation.wrapping_add(1),
            }),
    {
        self.front_buffer = front;
        self.back_buffer = back;
        self.width = width;
        self.height = height;
        self.pitch = pitch;
        self.bpp = bpp;
        self.swap_pending = false;
        self.generation = self.generation.wrapping_add(1);
    }

    /// Get the back buffer for rendering
    pub fn back_buffer(&self) -> (r: u64)
        ensures
            r == self.view().back,
    {
        self.back_buffer
    }

    /// Get the front buffer (displayed)
    pub fn front_buffer(&self) -> (r: u64)
        ensures
            r == self.view().front,
    {
        self.front_buffer
    }

    /// Get buffer dimensions: width, height, pitch, bytes per pixel.
    pub fn dimensions(&self) -> (r: (usize, usize, usize, usize))
        ensures
            r == (self.view().width, self.view().height, self.view().pitch, self.view().bpp),
    {
        (self.width, self.height, self.pitch, self.bpp)
    }

    /// Mark back buffer as ready to swap
    pub fn request_swap(&mut self)
        ensures
            final(self).view() == (BufferView { swap_pending: true, ..old(self).view() }),
    {
        self.swap_pending = true;
    }

    /// Check if swap is pending
    pub fn is_swap_pending(&self) -> (r: bool)
        ensures
            r == self.view().swap_pending,
    {
        self.swap_pending
    }

    /// Perform the buffer swap
    ///
    /// Returns true if swap was performed, false if no swap was pending.
    pub fn swap(&mut self) -> (r: bool)
        ensures
            r == old(self).view().swap_pending,
            r ==> final(self).view() == swapped(old(self).view()),
            !r ==> final(self).view() == old(self).view(),
    {
        if !self.swap_pending {
            return false;
        }
        self.swap_pending = false;
        let front = self.front_buffer;
        let back = self.back_buffer;
        self.front_buffer = back;
        self.back_buffer = front;
        self.generation = self.generation.wrapping_add(1);
        true
    }

    /// Get current generation (increments on each swap)
    pub fn generation(&self) -> (r: u64)
        ensures
            r == self.view().generation,
    {
        self.generation
    }

    /// Check if double buffering is available: two distinct buffers.
    pub fn is_available(&self) -> (r: bool)
        ensures
            r == (self.view().front != 0 && self.view().back != 0 && self.view().front
                != self.view().back),
    {
        self.front_buffer != 0 && self.back_buffer != 0 && self.front_buffer != self.back_buffer
    }
}

/// Two swaps give back the buffers as they were.
pub proof fn lemma_swap_twice(v: BufferView)
    ensures
        swapped(swapped(v)).front == v.front,
        swapped(swapped(v)).back == v.back,
{
}

/// How the back buffer is copied to the front: the bytes, and whether the
/// rows are shared out among the workers.
pub struct CopyPlan {
    pub total_bytes: usize,
    pub row_bytes: usize,
    pub rows: usize,
    pub parallel: bool,
}

/// Copy back buffer to front buffer (for single-buffer fallback): what to
/// copy, or nothing when there are no two buffers or no bytes.  Large
/// copies are shared out when more than one worker runs.
pub fn copy_to_front(buf: &DoubleBuffer, workers: usize) -> (r: Option<CopyPlan>)
    requires
        buf.view().height * buf.view().pitch <= usize::MAX,
        buf.view().width * buf.view().bpp <= usize::MAX,
    ensures
        !(buf.view().front != 0 && buf.view().back != 0 && buf.view().front != buf.view().back)
            ==> r is None,
        buf.view().front != 0 && buf.view().back != 0 && buf.view().front != buf.view().back ==> {
            let total = buf.view().height * buf.view().pitch;
            if total == 0 {
                r is None
            } else {
                r matches Some(p) && p.total_bytes == total && p.row_bytes == buf.view().width
                    * buf.view().bpp && p.rows == buf.view().height && p.parallel == (workers > 1
                    && total >= PARALLEL_SCROLL_THRESHOLD)
            }
        },
{
    if !buf.is_available() {
        return None;
    }
    let (width, height, pitch, bpp) = buf.dimensions();
    let total_bytes = height * pitch;
    if total_bytes == 0 {
        return None;
    }
    Some(
        CopyPlan {
            total_bytes,
            row_bytes: width * bpp,
            rows: height,
            parallel: workers > 1 && total_bytes >= PARALLEL_SCROLL_THRESHOLD,
        },
    )
}

} // verus!
