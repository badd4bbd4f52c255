//! A read/write driver for ext2 images held in memory.
//!
//! [`Ext2Device::open`] mounts an image. The mounted [`FileSystem`] hands
//! out handles on inodes; a handle makes cursors that read and write the
//! bytes of a file, and enumerations that walk and extend a directory.

pub mod bitmap;
pub mod bytes;
pub mod creation;
pub mod cursor;
pub mod directory;
pub mod frame;
pub mod fs;
pub mod inode;
pub mod insertion;
pub mod metadata;
pub mod reader;
pub mod write_read;

pub use crate::fs::{Ext2Device, Ext2Error, FileSystem, MountError};
pub use crate::inode::{Inode, InodeRef};
