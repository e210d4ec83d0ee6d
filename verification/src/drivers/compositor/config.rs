//! Compositor configuration constants
//!
//! Tuned for 2.5K (2560x1440) and higher resolution displays.

use vstd::prelude::*;

verus! {

/// Maximum number of composition layers supported
pub const MAX_LAYERS: usize = 16;

/// Maximum number of pending composition tasks per CPU
pub const MAX_TASKS_PER_CPU: usize = 32;

/// Minimum rows per worker for effective parallelization
pub const MIN_ROWS_PER_WORKER: usize = 8;

/// Default stripe height for parallel composition: 16 rows of a 2560-pixel
/// screen fit an L2 cache with room for the source data.
pub const DEFAULT_STRIPE_HEIGHT: usize = 16;

/// Rows of fewer pixels are blended one byte at a time.
pub const BATCH_BLEND_THRESHOLD: usize = 8;

/// Pixels blended per batch by the wide blend paths.
pub const SIMD_BATCH_SIZE: usize = 16;

/// Tile size for tile-based rendering: 64x64 pixels fit the L1 cache.
pub const TILE_SIZE: usize = 64;

/// Threshold for parallel scroll (in total bytes to move)
pub const PARALLEL_SCROLL_THRESHOLD: usize = 65536;

/// Threshold for parallel fill (in total bytes)
pub const PARALLEL_FILL_THRESHOLD: usize = 32768;

/// Maximum number of dirty regions to track before full repaint
pub const MAX_DIRTY_REGIONS: usize = 16;

/// NUMA node of a layer or CPU whose node is unknown.
pub const NUMA_NO_NODE: u32 = 0xFFFF_FFFF;

} // verus!
