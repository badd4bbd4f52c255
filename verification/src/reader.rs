//! Reading without copying: the blocks of an inode one by one, and the
//! bytes of a file as runs borrowed from the image.

use vstd::prelude::*;
use crate::cursor::Cursor;
use crate::fs::{FileSystem, FsView};
use crate::inode::{Inode, DIRECT_BLOCKS};

verus! {

/// The direct block pointers of an inode, handed out in the order of
/// their slots.
#[derive(Debug, Clone, Copy)]
pub struct InodeBlocks {
    block_count: usize,
    inode: Inode,
}

impl InodeBlocks {
    /// The number of pointers handed out so far.
    pub closed spec fn count(&self) -> usize {
        self.block_count
    }

    /// The inode whose pointers are handed out.
    pub closed spec fn inode(&self) -> Inode {
        self.inode
    }

    /// Starts at the first slot of `inode`.
    pub fn new(inode: &Inode) -> (r: InodeBlocks)
        ensures
            r.count() == 0,
            r.inode() == *inode,
    {
        InodeBlocks { block_count: 0, inode: *inode }
    }

    /// The pointer in the next slot, 0 where the slot holds no block;
    /// `None` when the twelve slots have been handed out.
    pub fn next(&mut self, fs: &FileSystem) -> (r: Option<u32>)
        requires
            fs.wf(),
            old(self).inode().wf(fs@),
        ensures
            final(self).inode() == old(self).inode(),
            match r {
                Some(b) => {
                    &&& old(self).count() < DIRECT_BLOCKS
                    &&& b == fs@.block_pointer(
                        old(self).inode().record() as int,
                        old(self).count() as int,
                    )
                    &&& final(self).count() == old(self).count() + 1
                },
                None => old(self).count() >= DIRECT_BLOCKS && final(self).count() == old(
                    self,
                ).count(),
            },
    {
        if self.block_count < DIRECT_BLOCKS {
            let block = self.inode.block_pointer(fs, self.block_count);
            self.block_count = self.block_count + 1;
            Some(block)
        } else {
            None
        }
    }
}

impl FsView {
    /// The number of bytes that one read without copying hands out at
    /// position `p`: no more than `max_amount`, than the bytes to the end
    /// of the block, and than the bytes to the end of the file.
    pub open spec fn run_len(self, rec: int, p: int, max_amount: int) -> int {
        let in_block = self.block_size - p % self.block_size;
        let in_file = self.file_size(rec) - p;
        let least = if in_block < in_file {
            in_block
        } else {
            in_file
        };
        if max_amount < least {
            max_amount
        } else {
            least
        }
    }
}

/// A reader that hands out the bytes of a file as runs of the image.
#[derive(Debug, Clone, Copy)]
pub struct ReadInode {
    cursor: Cursor,
}

impl ReadInode {
    /// The cursor that marks how far the reader has come.
    pub closed spec fn cursor(&self) -> Cursor {
        self.cursor
    }

    /// The inode that is read.
    pub open spec fn inode(&self) -> Inode {
        self.cursor().inode()
    }

    /// The position of the next byte, from the start of the file.
    pub open spec fn position(&self) -> u32 {
        self.cursor().position()
    }

    /// The reader is one on an inode of this volume.
    pub open spec fn wf(&self, v: FsView) -> bool {
        self.cursor().wf(v)
    }

    /// A reader at the start of the bytes of `inode`.
    pub fn new(inode: &Inode, fs: &FileSystem) -> (r: ReadInode)
        requires
            fs.wf(),
            inode.wf(fs@),
        ensures
            r.wf(fs@),
            r.inode() == *inode,
            r.position() == 0,
    {
        ReadInode { cursor: Cursor::new(inode, fs) }
    }

    /// Hands out the bytes from the position on, up to `max_amount` of
    /// them, to the end of the block or of the file if that is nearer,
    /// and moves past them. `None`, with the position unchanged, where
    /// the position cannot be read.
    pub fn read<'a>(&mut self, fs: &'a FileSystem, max_amount: u32) -> (r: Option<&'a [u8]>)
        requires
            fs.wf(),
            old(self).wf(fs@),
        ensures
            final(self).wf(fs@),
            final(self).inode() == old(self).inode(),
            r is Some <==> fs@.readable(
                old(self).inode().record() as int,
                old(self).position() as int,
            ),
            r matches Some(bytes) ==> {
                &&& bytes@.len() == fs@.run_len(
                    old(self).inode().record() as int,
                    old(self).position() as int,
                    max_amount as int,
                )
                &&& bytes@ == fs@.image.subrange(
                    fs@.address(old(self).inode().record() as int, old(self).position() as int),
                    fs@.address(old(self).inode().record() as int, old(self).position() as int)
                        + bytes@.len(),
                )
                &&& final(self).position() == old(self).position() + bytes@.len()
            },
            r is None ==> final(self).position() == old(self).position(),
    {
        let position: u32 = self.cursor.total_index();
        let size: u32 = self.cursor.handle().size(fs);
        if position >= size {
            return None;
        }
        let (at, remain) = match self.cursor.get_ptr(fs) {
            Some(found) => found,
            None => {
                return None;
            },
        };
        let in_file: u32 = size - position;
        let least: u32 = if remain < in_file {
            remain
        } else {
            in_file
        };
        let amount: u32 = if max_amount < least {
            max_amount
        } else {
            least
        };
        self.cursor = self.cursor.at(position + amount);
        Some(fs.bytes_at(at, amount as usize))
    }
}

impl Inode {
    /// A reader at the start of the bytes of this inode.
    pub fn reader(&self, fs: &FileSystem) -> (r: ReadInode)
        requires
            fs.wf(),
            self.wf(fs@),
        ensures
            r.wf(fs@),
            r.inode() == *self,
            r.position() == 0,
    {
        ReadInode::new(self, fs)
    }
}

} // verus!
