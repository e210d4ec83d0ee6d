//! Parallel display compositor
//!
//! Layers are composited in horizontal stripes that the online CPUs claim
//! one at a time.  This module keeps the compositor's bookkeeping, decides
//! how each operation is split, and does the pixel work on framebuffer
//! memory seen as a byte buffer.

pub mod config;
pub mod types;
pub mod dirty_region;
pub mod double_buffer;
pub mod blend;
pub mod memory;
pub mod state;
pub mod ops;
pub mod workers;
