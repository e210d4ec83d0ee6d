//! File metadata as the filesystem layer records it.

use vstd::prelude::*;

verus! {

/// Kind of a filesystem object, as the type bits of a POSIX mode give it.
#[derive(Debug, Clone, Copy, PartialEq, Eq, Structural)]
pub enum FileType {
    Regular,
    Directory,
    Character,
    Block,
    Symlink,
    Fifo,
    Socket,
}

/// Metadata of one file: permission bits, kind, size, links and blocks.
#[derive(Debug, Clone, Copy, PartialEq, Eq, Structural)]
pub struct Metadata {
    pub mode: u16,
    pub file_type: FileType,
    pub size: u64,
    pub nlink: u32,
    pub blocks: u64,
}

impl Metadata {
    /// A regular file with no permissions, size, links or blocks.
    pub fn empty() -> (r: Self)
        ensures
            r == (Metadata { mode: 0, file_type: FileType::Regular, size: 0, nlink: 0, blocks: 0 }),
    {
        Metadata { mode: 0, file_type: FileType::Regular, size: 0, nlink: 0, blocks: 0 }
    }

    /// The same metadata with permission bits `mode`.
    pub fn with_mode(self, mode: u16) -> (r: Self)
        ensures
            r == (Metadata { mode, ..self }),
    {
        Metadata { mode, ..self }
    }

    /// The same metadata with kind `file_type`.
    pub fn with_type(self, file_type: FileType) -> (r: Self)
        ensures
            r == (Metadata { file_type, ..self }),
    {
        Metadata { file_type, ..self }
    }
}

/// The kind that the type bits (`mode & 0o170000`) of a POSIX mode name;
/// unknown type bits read as a regular file.
pub open spec fn mode_type(mode: u32) -> FileType {
    let t = mode & 0o170000;
    if t == 0o040000 {
        FileType::Directory
    } else if t == 0o020000 {
        FileType::Character
    } else if t == 0o060000 {
        FileType::Block
    } else if t == 0o120000 {
        FileType::Symlink
    } else if t == 0o010000 {
        FileType::Fifo
    } else if t == 0o140000 {
        FileType::Socket
    } else {
        FileType::Regular
    }
}

/// Split a POSIX mode into its permission bits and its kind.
pub fn split_mode(mode: u32) -> (r: (u16, FileType))
    ensures
        r.0 == mode & 0o7777,
        r.1 == mode_type(mode),
{
    let perm = mode & 0o7777;
    assert(perm <= 0o7777) by (bit_vector)
        requires
            perm == mode & 0o7777,
    ;
    let t = mode & 0o170000;
    let kind = if t == 0o040000 {
        FileType::Directory
    } else if t == 0o020000 {
        FileType::Character
    } else if t == 0o060000 {
        FileType::Block
    } else if t == 0o120000 {
        FileType::Symlink
    } else if t == 0o010000 {
        FileType::Fifo
    } else if t == 0o140000 {
        FileType::Socket
    } else {
        FileType::Regular
    };
    (perm as u16, kind)
}

} // verus!
