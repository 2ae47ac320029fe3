//! Archive entries: the header fields the library reads, and the file types
//! that a mode's type bits name.

use vstd::prelude::*;

verus! {

/// The mask of the file-type bits in a mode.
pub const FILE_TYPE_MASK: u32 = 0o170000;

/// File type: socket.
pub const TYPE_SOCKET: u32 = 0o140000;

/// File type: symbolic link.
pub const TYPE_SYMLINK: u32 = 0o120000;

/// File type: regular file.
pub const TYPE_REGULAR: u32 = 0o100000;

/// File type: block device.
pub const TYPE_BLOCK_DEVICE: u32 = 0o060000;

/// File type: directory.
pub const TYPE_DIRECTORY: u32 = 0o040000;

/// File type: character device.
pub const TYPE_CHAR_DEVICE: u32 = 0o020000;

/// File type: named pipe.
pub const TYPE_FIFO: u32 = 0o010000;

/// The header of one archive entry.
pub struct EntryHeader {
    pub path: String,
    pub mode: u32,
    pub uid: u64,
    pub gid: u64,
    pub mtime: u64,
    pub size: u64,
    pub link_name: Option<String>,
    pub device_major: Option<u32>,
    pub device_minor: Option<u32>,
}

/// The file-type bits of a mode.
pub open spec fn file_type(mode: u32) -> u32 {
    mode & FILE_TYPE_MASK
}

/// The file-type bits of a mode.
pub fn type_bits(mode: u32) -> (r: u32)
    ensures
        r == file_type(mode),
{
    mode & FILE_TYPE_MASK
}

} // verus!
