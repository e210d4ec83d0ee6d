//! Device drivers: the decision logic of each driver, apart from the port
//! and memory accesses that the hosting kernel performs.

pub mod framebuffer;
pub mod loop_device;
pub mod block;
pub mod compositor;
pub mod input;
pub mod keyboard;
pub mod random;
pub mod rtc;
pub mod watchdog;
