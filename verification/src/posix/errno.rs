//! Error numbers, with the values Linux gives them.

use vstd::prelude::*;

verus! {

/// I/O error.
pub const EIO: i32 = 5;

/// No such device or address.
pub const ENXIO: i32 = 6;

/// Try again.
pub const EAGAIN: i32 = 11;

/// Bad file descriptor.
pub const EBADF: i32 = 9;

/// Bad address.
pub const EFAULT: i32 = 14;

/// Device or resource busy.
pub const EBUSY: i32 = 16;

/// No such device.
pub const ENODEV: i32 = 19;

/// Invalid argument.
pub const EINVAL: i32 = 22;

/// Inappropriate ioctl for device.
pub const ENOTTY: i32 = 25;

/// No space left on device.
pub const ENOSPC: i32 = 28;

/// Read-only file system.
pub const EROFS: i32 = 30;

} // verus!
