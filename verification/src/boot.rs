//! Boot subsystem: the boot stages and the devices the loader hands over.

pub mod stages;
pub mod uefi;
