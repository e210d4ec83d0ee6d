//! Core types for the compositor

use vstd::prelude::*;
use super::config::NUMA_NO_NODE;

verus! {

/// Work type for parallel operations
#[derive(Clone, Copy, Debug, PartialEq, Eq, Structural)]
pub enum WorkType {
    /// No work pending
    NoWork,
    /// Scroll memory copy operation
    Scroll,
    /// Fill memory operation
    Fill,
    /// Composition operation
    Compose,
}

/// The code of each work type.
pub open spec fn work_code(w: WorkType) -> u8 {
    match w {
        WorkType::NoWork => 0u8,
        WorkType::Scroll => 1u8,
        WorkType::Fill => 2u8,
        WorkType::Compose => 3u8,
    }
}

impl WorkType {
    /// Convert from u8 to WorkType; an unknown code is no work.
    pub fn from_u8(v: u8) -> (r: Self)
        ensures
            v <= 3 ==> work_code(r) == v,
            v > 3 ==> r == WorkType::NoWork,
    {
        match v {
            1 => WorkType::Scroll,
            2 => WorkType::Fill,
            3 => WorkType::Compose,
            _ => WorkType::NoWork,
        }
    }

    /// The code of this work type.
    pub fn to_u8(self) -> (r: u8)
        ensures
            r == work_code(self),
    {
        match self {
            WorkType::NoWork => 0,
            WorkType::Scroll => 1,
            WorkType::Fill => 2,
            WorkType::Compose => 3,
        }
    }
}

/// Defines a rectangular region for composition
#[derive(Clone, Copy, Debug, PartialEq, Eq, Structural)]
pub struct CompositionRegion {
    /// X coordinate of top-left corner
    pub x: u32,
    /// Y coordinate of top-left corner
    pub y: u32,
    /// Width of region
    pub width: u32,
    /// Height of region
    pub height: u32,
}

/// The region's right and bottom edges stay within 32 bits.
pub open spec fn region_fits(r: CompositionRegion) -> bool {
    r.x + r.width <= u32::MAX && r.y + r.height <= u32::MAX
}

/// Two regions share a pixel.
pub open spec fn regions_meet(a: CompositionRegion, b: CompositionRegion) -> bool {
    !(a.x + a.width <= b.x || b.x + b.width <= a.x || a.y + a.height <= b.y || b.y + b.height
        <= a.y)
}

/// Region `a` holds every pixel of region `b`.
pub open spec fn region_contains(a: CompositionRegion, b: CompositionRegion) -> bool {
    a.x <= b.x && a.y <= b.y && b.x + b.width <= a.x + a.width && b.y + b.height <= a.y + a.height
}

/// The pixel (px, py) lies in the region.
pub open spec fn region_has(r: CompositionRegion, px: int, py: int) -> bool {
    r.x <= px < r.x + r.width && r.y <= py < r.y + r.height
}

pub open spec fn max_u32(a: u32, b: u32) -> u32 {
    if a >= b {
        a
    } else {
        b
    }
}

pub open spec fn min_int(a: int, b: int) -> int {
    if a <= b {
        a
    } else {
        b
    }
}

impl CompositionRegion {
    /// Create a new composition region
    pub fn new(x: u32, y: u32, width: u32, height: u32) -> (r: Self)
        ensures
            r == (CompositionRegion { x, y, width, height }),
    {
        Self { x, y, width, height }
    }

    /// Create a region covering the entire screen
    pub fn full_screen(width: u32, height: u32) -> (r: Self)
        ensures
            r == (CompositionRegion { x: 0, y: 0, width, height }),
    {
        Self { x: 0, y: 0, width, height }
    }

    /// Check if region is valid (non-zero area)
    pub fn is_valid(&self) -> (r: bool)
        ensures
            r == (self.width > 0 && self.height > 0),
    {
        self.width > 0 && self.height > 0
    }

    /// Calculate area in pixels
    pub fn area(&self) -> (r: u64)
        ensures
            r == self.width * self.height,
    {
        proof {
            assert(self.width * self.height <= u32::MAX * u32::MAX) by (nonlinear_arith)
                requires
                    self.width <= u32::MAX,
                    self.height <= u32::MAX,
            ;
        }
        self.width as u64 * self.height as u64
    }

    /// Check if this region intersects another
    pub fn intersects(&self, other: &Self) -> (r: bool)
        requires
            region_fits(*self),
            region_fits(*other),
        ensures
            r == regions_meet(*self, *other),
    {
        !(self.x + self.width <= other.x || other.x + other.width <= self.x || self.y
            + self.height <= other.y || other.y + other.height <= self.y)
    }

    /// Calculate intersection with another region: the pixels both hold.
    pub fn intersection(&self, other: &Self) -> (r: Option<Self>)
        requires
            region_fits(*self),
            region_fits(*other),
        ensures
            !regions_meet(*self, *other) ==> r is None,
            regions_meet(*self, *other) ==> (r matches Some(i)
                && region_fits(i) && forall|px: int, py: int|
                region_has(i, px, py) <==> region_has(*self, px, py) && region_has(*other, px, py)),
            regions_meet(*self, *other) ==> (r matches Some(i) && {
                &&& i.x == (if self.x >= other.x { self.x } else { other.x })
                &&& i.y == (if self.y >= other.y { self.y } else { other.y })
                &&& i.x + i.width == (if self.x + self.width <= other.x + other.width {
                    self.x + self.width
                } else {
                    other.x + other.width
                })
                &&& i.y + i.height == (if self.y + self.height <= other.y + other.height {
                    self.y + self.height
                } else {
                    other.y + other.height
                })
            }),
    {
        if !self.intersects(other) {
            return None;
        }
        let x = if self.x >= other.x {
            self.x
        } else {
            other.x
        };
        let y = if self.y >= other.y {
            self.y
        } else {
            other.y
        };
        let right = if self.x + self.width <= other.x + other.width {
            self.x + self.width
        } else {
            other.x + other.width
        };
        let bottom = if self.y + self.height <= other.y + other.height {
            self.y + self.height
        } else {
            other.y + other.height
        };
        Some(Self { x, y, width: right - x, height: bottom - y })
    }
}

/// Layer blend mode
#[derive(Clone, Copy, Debug, PartialEq, Eq, Structural)]
pub enum BlendMode {
    /// Source replaces destination
    Opaque,
    /// Alpha blending: dst = src * alpha + dst * (1 - alpha)
    Alpha,
    /// Additive: dst = src + dst
    Additive,
    /// Multiply: dst = src * dst
    Multiply,
}

impl Default for BlendMode {
    fn default() -> (r: Self)
        ensures
            r == BlendMode::Opaque,
    {
        BlendMode::Opaque
    }
}

/// A composition layer
#[derive(Clone, Copy)]
pub struct CompositionLayer {
    /// Layer enabled flag
    pub enabled: bool,
    /// Layer visibility
    pub visible: bool,
    /// Z-order (higher = on top)
    pub z_order: u16,
    /// Blend mode
    pub blend_mode: BlendMode,
    /// Global alpha (0-255)
    pub alpha: u8,
    /// Source region in layer buffer
    pub src_region: CompositionRegion,
    /// Destination region on screen
    pub dst_region: CompositionRegion,
    /// Buffer address (physical or virtual depending on context)
    pub buffer_addr: u64,
    /// Buffer pitch (bytes per row)
    pub buffer_pitch: u32,
    /// Bytes per pixel
    pub bpp: u8,
    /// NUMA node hint for memory allocation
    pub numa_node: u32,
}

impl CompositionLayer {
    /// Create an empty/disabled layer
    pub fn empty() -> (r: Self)
        ensures
            !r.enabled && !r.visible,
            r.z_order == 0,
            r.blend_mode == BlendMode::Opaque,
            r.alpha == 255,
            r.src_region == (CompositionRegion { x: 0, y: 0, width: 0, height: 0 }),
            r.dst_region == (CompositionRegion { x: 0, y: 0, width: 0, height: 0 }),
            r.buffer_addr == 0 && r.buffer_pitch == 0 && r.bpp == 0,
            r.numa_node == NUMA_NO_NODE,
    {
        Self {
            enabled: false,
            visible: false,
            z_order: 0,
            blend_mode: BlendMode::Opaque,
            alpha: 255,
            src_region: CompositionRegion::new(0, 0, 0, 0),
            dst_region: CompositionRegion::new(0, 0, 0, 0),
            buffer_addr: 0,
            buffer_pitch: 0,
            bpp: 0,
            numa_node: NUMA_NO_NODE,
        }
    }

    /// Check if layer should be rendered
    pub fn should_render(&self) -> (r: bool)
        ensures
            r == (self.enabled && self.visible && self.alpha > 0 && self.dst_region.width > 0
                && self.dst_region.height > 0),
    {
        self.enabled && self.visible && self.alpha > 0 && self.dst_region.is_valid()
    }
}

/// Per-CPU compositor work state
pub struct CpuWorkState {
    /// Current work generation this CPU is working on
    pub current_gen: u64,
    /// Number of stripes completed by this CPU
    pub stripes_completed: usize,
    /// CPU is currently working
    pub working: bool,
    /// NUMA node this CPU belongs to
    pub numa_node: u32,
}

impl CpuWorkState {
    /// Create a new CPU work state
    pub fn new() -> (r: Self)
        ensures
            r.current_gen == 0 && r.stripes_completed == 0 && !r.working,
            r.numa_node == NUMA_NO_NODE,
    {
        Self { current_gen: 0, stripes_completed: 0, working: false, numa_node: NUMA_NO_NODE }
    }

    /// Reset the CPU work state; the NUMA node stays.
    pub fn reset(&mut self)
        ensures
            final(self).current_gen == 0 && final(self).stripes_completed == 0
                && !final(self).working,
            final(self).numa_node == old(self).numa_node,
    {
        self.current_gen = 0;
        self.stripes_completed = 0;
        self.working = false;
    }
}

/// Compositor performance statistics
#[derive(Clone, Copy, Debug)]
pub struct CompositorStats {
    /// Total compositions completed
    pub total_compositions: u64,
    /// Number of workers used in last composition
    pub last_worker_count: usize,
    /// Stripes processed in last composition
    pub last_stripes: usize,
    /// Whether parallel composition was used
    pub parallel_enabled: bool,
}

} // verus!
