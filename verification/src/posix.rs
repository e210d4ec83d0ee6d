//! POSIX interface values shared by the drivers and the filesystem.

pub mod errno;
pub mod metadata;

pub use metadata::{split_mode, FileType, Metadata};
