//! Unified Input Event Subsystem
//!
//! The Linux-compatible input event interface of /dev/input/event*: a
//! common event structure for keyboard, mouse and other input devices.

pub mod event;
pub mod ring;
pub mod keyboard;
pub mod mouse;
pub mod subsystem;
