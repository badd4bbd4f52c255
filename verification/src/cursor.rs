//! The cursor: a position in the bytes of a file, from which it reads and
//! at which it writes, block by block, through the direct block pointers of
//! the inode.

use vstd::prelude::*;
use vstd::arithmetic::div_mod::{lemma_fundamental_div_mod, lemma_fundamental_div_mod_converse, lemma_mod_bound};
use crate::bytes::{splice, u32_bytes};
use crate::fs::{lemma_block_range, Ext2Error, FileSystem, FsView};
use crate::inode::{EntryKind, Inode, BLOCKS_OFFSET, DIRECT_BLOCKS, SIZE_OFFSET};

verus! {

/// A position `p` in blocks of `size` bytes is `p / size` whole blocks and
/// `p % size` bytes into the next.
pub proof fn lemma_position(size: int, p: int)
    requires
        0 < size,
        0 <= p,
    ensures
        0 <= p / size,
        0 <= p % size < size,
        p == (p / size) * size + p % size,
        (p / size) * size <= p,
{
    lemma_fundamental_div_mod(p, size);
    lemma_mod_bound(p, size);
    assert(size * (p / size) == (p / size) * size) by (nonlinear_arith);
    if p / size < 0 {
        assert((p / size) * size <= -size) by (nonlinear_arith)
            requires
                p / size <= -1,
                0 < size,
        ;
    }
}

/// The positions from `p` to the end of its block are in the same block,
/// one byte after the other.
pub proof fn lemma_within_block(size: int, p: int, k: int)
    requires
        0 < size,
        0 <= p,
        0 <= k < size - p % size,
    ensures
        (p + k) / size == p / size,
        (p + k) % size == p % size + k,
{
    lemma_position(size, p);
    lemma_fundamental_div_mod_converse(p + k, size, p / size, p % size + k);
}

/// The position after the last byte of the block of `p` starts the next
/// block.
pub proof fn lemma_next_block(size: int, p: int)
    requires
        0 < size,
        0 <= p,
    ensures
        (p + (size - p % size)) / size == p / size + 1,
        (p + (size - p % size)) % size == 0,
{
    lemma_position(size, p);
    assert((p / size + 1) * size == (p / size) * size + size) by (nonlinear_arith);
    lemma_fundamental_div_mod_converse(p + (size - p % size), size, p / size + 1, 0);
}

/// A position in one of the first `slots` blocks lies before their end.
pub proof fn lemma_slot_bound(size: int, p: int, slots: int)
    requires
        0 < size,
        0 <= p,
        p / size < slots,
    ensures
        p + (size - p % size) <= slots * size,
{
    lemma_position(size, p);
    assert((p / size) * size + size <= slots * size) by (nonlinear_arith)
        requires
            p / size + 1 <= slots,
            0 < size,
    ;
}

/// What a write leaves behind: the volume, the position of the cursor, and
/// whether all the bytes were written.
pub struct WriteOutcome {
    pub view: FsView,
    pub position: int,
    pub result: Result<(), Ext2Error>,
}

impl FsView {
    /// Position `p` of the file whose record starts at `rec` has a block:
    /// its slot is one of the twelve, the pointer in it is not 0, and the
    /// block lies within the image.
    pub open spec fn mapped(self, rec: int, p: int) -> bool {
        &&& 0 <= p
        &&& p / self.block_size < DIRECT_BLOCKS
        &&& self.block_pointer(rec, p / self.block_size) != 0
        &&& self.holds_block(self.block_pointer(rec, p / self.block_size) as int)
    }

    /// The byte of the image that holds position `p` of the file.
    pub open spec fn address(self, rec: int, p: int) -> int {
        self.block_start(self.block_pointer(rec, p / self.block_size) as int) + p
            % self.block_size
    }

    /// The bytes of the image from position `p` of the file to the end of
    /// the block of `p`.
    pub open spec fn rest_of_block(self, rec: int, p: int) -> Seq<u8> {
        self.image.subrange(
            self.address(rec, p),
            self.address(rec, p) + (self.block_size - p % self.block_size),
        )
    }

    /// Position `p` of the file can be read: it lies before the end of the
    /// file and has a block.
    pub open spec fn readable(self, rec: int, p: int) -> bool {
        p < self.file_size(rec) && self.mapped(rec, p)
    }

    /// The byte at position `p` of the file.
    pub open spec fn file_byte(self, rec: int, p: int) -> u8 {
        self.image[self.address(rec, p)]
    }

    /// The first slot from `slot` on whose pointer is 0.
    pub open spec fn first_free_slot_from(self, rec: int, slot: int) -> Option<int>
        decreases DIRECT_BLOCKS - slot,
    {
        if slot >= DIRECT_BLOCKS {
            None
        } else if self.block_pointer(rec, slot) == 0 {
            Some(slot)
        } else {
            self.first_free_slot_from(rec, slot + 1)
        }
    }

    /// The first of the twelve slots whose pointer is 0.
    pub open spec fn first_free_slot(self, rec: int) -> Option<int> {
        self.first_free_slot_from(rec, 0)
    }

    /// What giving the inode one more block does. Where the twelve slots
    /// are taken it fails and changes nothing. Else a block is reserved in
    /// the group of the inode and its number is stored in the first free
    /// slot.
    pub open spec fn reserve_data_block(self, rec: int, group: int) -> (
        FsView,
        Result<int, Ext2Error>,
    ) {
        match self.first_free_slot(rec) {
            None => (self, Err(Ext2Error::FileTooLarge)),
            Some(slot) => {
                let (v, r) = self.reserve_block(group);
                match r {
                    Err(e) => (v, Err(e)),
                    Ok(b) => (
                        v.with_image(
                            splice(v.image, rec + BLOCKS_OFFSET + 4 * slot, u32_bytes(b as u32)),
                        ),
                        Ok(b),
                    ),
                }
            },
        }
    }

    /// The number of bytes that one step of a write takes: what is left of
    /// the block of `p`, or the `len` bytes that are left to write if they
    /// are fewer.
    pub open spec fn chunk_len(self, p: int, len: int) -> int {
        if self.block_size - p % self.block_size < len {
            self.block_size - p % self.block_size
        } else {
            len
        }
    }

    /// One step of a write at position `p`: the volume afterwards and the
    /// number of bytes of `data` that were written. The step fails where
    /// `p` lies beyond the twelve direct blocks; it gives the inode a block
    /// where the slot of `p` has none, and fails where that does; it fails
    /// where the block lies beyond the image. Else the bytes go to the
    /// block of `p`, from the place of `p` in it.
    pub open spec fn write_chunk(self, rec: int, group: int, p: int, data: Seq<u8>) -> (
        FsView,
        Result<int, Ext2Error>,
    ) {
        if p / self.block_size >= DIRECT_BLOCKS {
            (self, Err(Ext2Error::FileTooLarge))
        } else {
            let (v, r) = if self.block_pointer(rec, p / self.block_size) != 0 {
                (self, Ok::<int, Ext2Error>(self.block_pointer(rec, p / self.block_size) as int))
            } else {
                self.reserve_data_block(rec, group)
            };
            match r {
                Err(e) => (v, Err(e)),
                Ok(b) => if !v.holds_block(b) {
                    (v, Err(Ext2Error::OutOfRange))
                } else {
                    let n = self.chunk_len(p, data.len() as int);
                    (
                        v.with_image(
                            splice(
                                v.image,
                                v.block_start(b) + p % self.block_size,
                                data.subrange(0, n),
                            ),
                        ),
                        Ok(n),
                    )
                },
            }
        }
    }

    /// The steps of a write of `data` at position `p`, one after the other
    /// until the data is written or a step fails.
    pub open spec fn write_chunks(self, rec: int, group: int, p: int, data: Seq<u8>) -> WriteOutcome
        decreases data.len(),
    {
        if data.len() == 0 {
            WriteOutcome { view: self, position: p, result: Ok(()) }
        } else {
            let (v, r) = self.write_chunk(rec, group, p, data);
            match r {
                Err(e) => WriteOutcome { view: v, position: p, result: Err(e) },
                Ok(n) => if 0 < n <= data.len() {
                    v.write_chunks(rec, group, p + n, data.subrange(n, data.len() as int))
                } else {
                    WriteOutcome { view: v, position: p, result: Ok(()) }
                },
            }
        }
    }

    /// The volume with the size of the file raised to `p`, where it was
    /// less.
    pub open spec fn grow_to(self, rec: int, p: int) -> FsView {
        if p > self.file_size(rec) {
            self.with_image(splice(self.image, rec + SIZE_OFFSET, u32_bytes(p as u32)))
        } else {
            self
        }
    }

    /// What a write of `data` at position `p` does: its steps, and then
    /// the size of the file raised to the position reached.
    pub open spec fn write(self, rec: int, group: int, p: int, data: Seq<u8>) -> WriteOutcome {
        let o = self.write_chunks(rec, group, p, data);
        WriteOutcome { view: o.view.grow_to(rec, o.position), position: o.position, result: o.result }
    }
}

/// A read and write head on the bytes of a file.
#[derive(Debug, Clone, Copy)]
pub struct Cursor {
    inode: Inode,
    total_index: u32,
    block_size: u32,
}

impl Cursor {
    /// The inode whose bytes the cursor reads and writes.
    pub closed spec fn inode(&self) -> Inode {
        self.inode
    }

    /// The position of the cursor, in bytes from the start of the file.
    pub closed spec fn position(&self) -> u32 {
        self.total_index
    }

    /// The size of a block, as the cursor was told when it was made.
    pub closed spec fn block_size(&self) -> u32 {
        self.block_size
    }

    /// The cursor is one on an inode of this volume.
    pub open spec fn wf(&self, v: FsView) -> bool {
        &&& self.inode().wf(v)
        &&& self.block_size() == v.block_size
    }

    /// A cursor at the start of the bytes of `inode`.
    pub fn new(inode: &Inode, fs: &FileSystem) -> (c: Cursor)
        requires
            fs.wf(),
            inode.wf(fs@),
        ensures
            c.wf(fs@),
            c.inode() == *inode,
            c.position() == 0,
    {
        Cursor { inode: *inode, total_index: 0, block_size: fs.block_size() as u32 }
    }

    /// Whether the cursor is one on an inode of this volume. Cursors made
    /// from handles that the volume gave out are.
    pub fn is_in(&self, fs: &FileSystem) -> (b: bool)
        requires
            fs.wf(),
        ensures
            b == self.wf(fs@),
    {
        self.inode.is_in(fs) && self.block_size as usize == fs.block_size()
    }

    /// The inode whose bytes the cursor reads and writes.
    pub fn handle(&self) -> (i: Inode)
        ensures
            i == self.inode(),
    {
        self.inode
    }

    /// The same cursor at another position.
    pub(crate) fn at(&self, position: u32) -> (c: Cursor)
        ensures
            c.inode() == self.inode(),
            c.block_size() == self.block_size(),
            c.position() == position,
    {
        Cursor { inode: self.inode, total_index: position, block_size: self.block_size }
    }

    /// The position of the cursor.
    pub fn total_index(&self) -> (p: u32)
        ensures
            p == self.position(),
    {
        self.total_index
    }

    /// The number of bytes from the position to the end of its block.
    pub fn remain_in_block(&self) -> (n: u32)
        requires
            self.block_size() > 0,
        ensures
            n == self.block_size() - self.position() % self.block_size(),
            0 < n <= self.block_size(),
    {
        self.block_size - (self.total_index % self.block_size)
    }

    /// The block of the position: the pointer in its slot, unless the slot
    /// is none of the twelve or holds 0.
    pub fn get_current_block_index(&self, fs: &FileSystem) -> (r: Option<u32>)
        requires
            fs.wf(),
            self.wf(fs@),
        ensures
            r is Some <==> self.position() / self.block_size() < DIRECT_BLOCKS && fs@.block_pointer(
                self.inode().record() as int,
                self.position() as int / fs@.block_size,
            ) != 0,
            r matches Some(b) ==> b == fs@.block_pointer(
                self.inode().record() as int,
                self.position() as int / fs@.block_size,
            ),
    {
        let slot: u32 = self.total_index / self.block_size;
        if slot >= DIRECT_BLOCKS as u32 {
            None
        } else {
            let b: u32 = self.inode.block_pointer(fs, slot as usize);
            if b == 0 {
                None
            } else {
                Some(b)
            }
        }
    }

    /// The byte of the image at the position and the number of bytes from
    /// there to the end of the block, where the position has a block.
    pub fn get_ptr(&self, fs: &FileSystem) -> (r: Option<(usize, u32)>)
        requires
            fs.wf(),
            self.wf(fs@),
        ensures
            r is Some <==> fs@.mapped(self.inode().record() as int, self.position() as int),
            r matches Some((at, remain)) ==> {
                &&& at == fs@.address(self.inode().record() as int, self.position() as int)
                &&& remain == fs@.block_size - (self.position() as int) % fs@.block_size
                &&& at + remain <= fs@.image.len()
            },
    {
        let block: u32 = match self.get_current_block_index(fs) {
            Some(b) => b,
            None => {
                return None;
            },
        };
        let start: usize = match fs.block_offset(block) {
            Some(s) => s,
            None => {
                return None;
            },
        };
        let inside: u32 = self.total_index % self.block_size;
        proof {
            lemma_block_range(fs@.block_size, block as int, block as int);
        }
        Some((start + inside as usize, self.block_size - inside))
    }

    /// Hands the bytes from the position to the end of its block to `f`
    /// and returns what `f` returns; the cursor stays. `None`, without a
    /// call of `f`, where the position has no block.
    pub fn peek_with<T, F: Fn(&[u8]) -> Option<(T, u32)>>(&self, fs: &FileSystem, f: F) -> (r:
        Option<(T, u32)>)
        requires
            fs.wf(),
            self.wf(fs@),
            forall|bytes: &[u8]| call_requires(f, (bytes,)),
        ensures
            !fs@.mapped(self.inode().record() as int, self.position() as int) ==> r is None,
            fs@.mapped(self.inode().record() as int, self.position() as int) ==> forall|
                bytes: &[u8],
            |
                bytes@ == fs@.rest_of_block(self.inode().record() as int, self.position() as int)
                    ==> call_ensures(f, (bytes,), r),
    {
        let (at, remain) = match self.get_ptr(fs) {
            Some(found) => found,
            None => {
                return None;
            },
        };
        let rest = fs.bytes_at(at, remain as usize);
        let r = f(rest);
        proof {
            assert forall|bytes: &[u8]|
                bytes@ == fs@.rest_of_block(
                    self.inode().record() as int,
                    self.position() as int,
                ) implies call_ensures(f, (bytes,), r) by {
                assert(bytes =~= rest);
            }
        }
        r
    }

    /// Hands the bytes from the position to the end of its block to `f`,
    /// moves the cursor by the number that `f` returns with its value, and
    /// returns what `f` returns. `None`, with the cursor unmoved, where
    /// the position has no block or `f` returns `None`. `f` may not ask
    /// for more bytes than it was handed.
    pub fn read_with<T, F: Fn(&[u8]) -> Option<(T, u32)>>(&mut self, fs: &FileSystem, f: F) -> (r:
        Option<(T, u32)>)
        requires
            fs.wf(),
            old(self).wf(fs@),
            forall|bytes: &[u8]| call_requires(f, (bytes,)),
            forall|bytes: &[u8], value: T, taken: u32|
                call_ensures(f, (bytes,), Some((value, taken))) ==> taken <= bytes@.len(),
        ensures
            final(self).wf(fs@),
            final(self).inode() == old(self).inode(),
            !fs@.mapped(old(self).inode().record() as int, old(self).position() as int)
                ==> r is None,
            fs@.mapped(old(self).inode().record() as int, old(self).position() as int)
                ==> forall|bytes: &[u8]|
                bytes@ == fs@.rest_of_block(
                    old(self).inode().record() as int,
                    old(self).position() as int,
                ) ==> call_ensures(f, (bytes,), r),
            final(self).position() == match r {
                Some((_, taken)) => old(self).position() + taken,
                None => old(self).position() as int,
            },
    {
        let (at, remain) = match self.get_ptr(fs) {
            Some(found) => found,
            None => {
                return None;
            },
        };
        let rest = fs.bytes_at(at, remain as usize);
        let r = f(rest);
        proof {
            assert forall|bytes: &[u8]|
                bytes@ == fs@.rest_of_block(
                    self.inode().record() as int,
                    self.position() as int,
                ) implies call_ensures(f, (bytes,), r) by {
                assert(bytes =~= rest);
            }
            lemma_slot_bound(fs@.block_size, self.position() as int, DIRECT_BLOCKS as int);
        }
        match r {
            None => None,
            Some((value, taken)) => {
                self.total_index = self.total_index + taken;
                Some((value, taken))
            },
        }
    }

    /// Reads bytes from the position on into `buffer` and moves past them.
    /// Reading stops where the buffer is full, the file ends, or a position
    /// has no block. Returns the number of bytes read; the rest of the
    /// buffer stays as it was.
    pub fn read(&mut self, fs: &FileSystem, buffer: &mut [u8]) -> (count: usize)
        requires
            fs.wf(),
            old(self).wf(fs@),
        ensures
            final(self).wf(fs@),
            final(self).inode() == old(self).inode(),
            final(self).position() == old(self).position() + count,
            count <= old(buffer).len(),
            final(buffer).len() == old(buffer).len(),
            forall|p: int|
                old(self).position() <= p < old(self).position() + count
                    ==> #[trigger] fs@.readable(old(self).inode().record() as int, p),
            forall|i: int|
                0 <= i < count ==> #[trigger] final(buffer)@[i] == fs@.file_byte(
                    old(self).inode().record() as int,
                    old(self).position() + i,
                ),
            forall|i: int|
                #![trigger final(buffer)@[i]]
                count <= i < old(buffer).len() ==> final(buffer)@[i] == old(buffer)@[i],
            count == old(buffer).len() || !fs@.readable(
                old(self).inode().record() as int,
                old(self).position() + count,
            ),
    {
        let ghost rec = self.inode.record() as int;
        let ghost start = self.total_index as int;
        let size: u32 = self.inode.size(fs);
        let mut index: usize = 0;
        while index < buffer.len()
            invariant
                fs.wf(),
                self.wf(fs@),
                self.inode() == old(self).inode(),
                rec == self.inode().record() as int,
                size == fs@.file_size(rec),
                self.position() == start + index,
                start == old(self).position(),
                index <= buffer.len(),
                buffer.len() == old(buffer).len(),
                forall|p: int| start <= p < start + index ==> #[trigger] fs@.readable(rec, p),
                forall|i: int|
                    0 <= i < index ==> #[trigger] buffer@[i] == fs@.file_byte(rec, start + i),
                forall|i: int|
                    #![trigger buffer@[i]]
                    index <= i < buffer.len() ==> buffer@[i] == old(buffer)@[i],
            ensures
                index == buffer.len() || !fs@.readable(rec, start + index),
            decreases buffer.len() - index,
        {
            if self.total_index >= size {
                break;
            }
            let (at, remain) = match self.get_ptr(fs) {
                Some(found) => found,
                None => {
                    break;
                },
            };
            let until_end: u32 = size - self.total_index;
            let wanted: usize = buffer.len() - index;
            let mut amount: u32 = if remain < until_end {
                remain
            } else {
                until_end
            };
            if wanted < amount as usize {
                amount = wanted as u32;
            }
            let ghost before = buffer@;
            fs.read_bytes(at, buffer, index, amount as usize);
            proof {
                let p = start + index;
                assert forall|q: int| start <= q < p + amount implies #[trigger] fs@.readable(
                    rec,
                    q,
                ) by {
                    if q >= p {
                        lemma_within_block(fs@.block_size, p, q - p);
                    }
                }
                assert forall|i: int| 0 <= i < index + amount implies #[trigger] buffer@[i]
                    == fs@.file_byte(rec, start + i) by {
                    if i >= index {
                        let k = i - index;
                        lemma_within_block(fs@.block_size, p, k);
                        assert(buffer@[i] == fs@.image.subrange(at as int, at + amount)[k]);
                    } else {
                        assert(buffer@[i] == before[i]);
                    }
                }
                assert forall|i: int|
                    #![trigger buffer@[i]]
                    index + amount <= i < buffer.len() implies buffer@[i] == old(buffer)@[i] by {
                    assert(buffer@[i] == before[i]);
                }
            }
            self.total_index = self.total_index + amount;
            index = index + amount as usize;
        }
        index
    }

    /// Moves the cursor `amount` bytes on, or to the end of the file if
    /// that is nearer. A cursor at or beyond the end stays.
    pub fn advance(&mut self, fs: &FileSystem, amount: u32)
        requires
            fs.wf(),
            old(self).wf(fs@),
        ensures
            final(self).wf(fs@),
            final(self).inode() == old(self).inode(),
            final(self).position() == advanced(
                old(self).position(),
                fs@.file_size(old(self).inode().record() as int),
                amount,
            ),
    {
        let size: u32 = self.inode.size(fs);
        if self.total_index < size {
            let left: u32 = size - self.total_index;
            if amount < left {
                self.total_index = self.total_index + amount;
            } else {
                self.total_index = size;
            }
        }
    }

    /// Puts the cursor at the end of the file.
    pub fn advance_to_end(&mut self, fs: &FileSystem)
        requires
            fs.wf(),
            old(self).wf(fs@),
        ensures
            final(self).wf(fs@),
            final(self).inode() == old(self).inode(),
            final(self).position() == fs@.file_size(old(self).inode().record() as int),
    {
        self.total_index = self.inode.size(fs);
    }

    /// How far the position is past a multiple of `align_to`, counted from
    /// the start of its block. `None` where the bytes up to the next
    /// multiple do not fit in the block.
    pub fn align(&self, align_to: u32) -> (r: Option<u32>)
        requires
            self.block_size() > 0,
            align_to > 0,
        ensures
            r == aligned(self.position(), self.block_size(), align_to),
    {
        let index_in_block: u32 = self.total_index % self.block_size;
        let misalign: u32 = index_in_block % align_to;
        let padding: u32 = if misalign == 0 {
            0
        } else {
            align_to - misalign
        };
        if padding > self.remain_in_block() {
            None
        } else {
            Some(misalign)
        }
    }
}

/// Where `advance` leaves a cursor that stood at `position` in a file of
/// `size` bytes: `amount` bytes on, but not beyond the end; a cursor at or
/// beyond the end stays.
pub open spec fn advanced(position: u32, size: u32, amount: u32) -> int {
    if position >= size {
        position as int
    } else if amount < size - position {
        position + amount
    } else {
        size as int
    }
}

/// The bytes needed after `misalign` bytes to reach a multiple of `align_to`.
pub open spec fn padding_for(misalign: int, align_to: int) -> int {
    if misalign == 0 {
        0
    } else {
        align_to - misalign
    }
}

/// What `align` returns for a cursor at `position` with blocks of
/// `block_size` bytes.
pub open spec fn aligned(position: u32, block_size: u32, align_to: u32) -> Option<u32> {
    let inside = position % block_size;
    let misalign = inside % align_to;
    if padding_for(misalign as int, align_to as int) > block_size - inside {
        None
    } else {
        Some(misalign)
    }
}

/// A cursor that was put at the end of a file stays there, however far it
/// is advanced.
pub proof fn lemma_advance_from_end(size: u32, amount: u32)
    ensures
        advanced(size, size, amount) == size,
{
}

impl Inode {
    /// The first of the twelve slots that holds no block.
    pub fn first_free_slot(&self, fs: &FileSystem) -> (r: Option<usize>)
        requires
            fs.wf(),
            self.wf(fs@),
        ensures
            match r {
                Some(slot) => fs@.first_free_slot(self.record() as int) == Some(slot as int)
                    && slot < DIRECT_BLOCKS,
                None => fs@.first_free_slot(self.record() as int) is None,
            },
    {
        let mut slot: usize = 0;
        while slot < DIRECT_BLOCKS
            invariant
                fs.wf(),
                self.wf(fs@),
                slot <= DIRECT_BLOCKS,
                fs@.first_free_slot(self.record() as int) == fs@.first_free_slot_from(
                    self.record() as int,
                    slot as int,
                ),
            decreases DIRECT_BLOCKS - slot,
        {
            if self.block_pointer(fs, slot) == 0 {
                return Some(slot);
            }
            slot = slot + 1;
        }
        None
    }

    /// Gives the inode one more block: reserves a block in the group of
    /// the inode and stores its number in the first slot that holds none.
    /// Fails, with nothing changed, where the twelve slots are taken.
    pub fn reserve_block(&self, fs: &mut FileSystem) -> (r: Result<u32, Ext2Error>)
        requires
            old(fs).wf(),
            self.wf(old(fs)@),
        ensures
            final(fs).wf(),
            self.wf(final(fs)@),
            old(fs)@.same_volume(final(fs)@),
            final(fs)@ == old(fs)@.reserve_data_block(self.record() as int, self.group() as int).0,
            match r {
                Ok(b) => old(fs)@.reserve_data_block(self.record() as int, self.group() as int).1
                    == Ok::<int, Ext2Error>(b as int),
                Err(e) => old(fs)@.reserve_data_block(self.record() as int, self.group() as int).1
                    == Err::<int, Ext2Error>(e),
            },
    {
        let slot: usize = match self.first_free_slot(fs) {
            Some(slot) => slot,
            None => {
                return Err(Ext2Error::FileTooLarge);
            },
        };
        let block: u32 = match fs.reserve_block(self.group_index()) {
            Ok(b) => b,
            Err(e) => {
                return Err(e);
            },
        };
        fs.write_u32(self.record_offset() + BLOCKS_OFFSET + 4 * slot, block);
        Ok(block)
    }

    /// A cursor at the start of the bytes of a regular file; `None` for an
    /// inode of another kind.
    pub fn cursor(&self, fs: &FileSystem) -> (r: Option<Cursor>)
        requires
            fs.wf(),
            self.wf(fs@),
        ensures
            r is Some <==> fs@.kind(self.record() as int) == EntryKind::RegularFile,
            r matches Some(c) ==> c.wf(fs@) && c.inode() == *self && c.position() == 0,
    {
        match self.kind(fs) {
            EntryKind::RegularFile => Some(Cursor::new(self, fs)),
            _ => None,
        }
    }

    /// A cursor at the end of the bytes of a regular file; `None` for an
    /// inode of another kind.
    pub fn end(&self, fs: &FileSystem) -> (r: Option<Cursor>)
        requires
            fs.wf(),
            self.wf(fs@),
        ensures
            r is Some <==> fs@.kind(self.record() as int) == EntryKind::RegularFile,
            r matches Some(c) ==> c.wf(fs@) && c.inode() == *self && c.position() == fs@.file_size(
                self.record() as int,
            ),
    {
        match self.cursor(fs) {
            Some(mut cursor) => {
                cursor.advance_to_end(fs);
                Some(cursor)
            },
            None => None,
        }
    }
}

impl Cursor {
    /// One step of a write: writes the bytes of `data` from `from` on, as
    /// many as the block of the position still takes, and moves past them.
    /// Gives the inode a block first where the slot of the position holds
    /// none.
    fn write_to_end_of_block_at_most(
        &mut self,
        fs: &mut FileSystem,
        data: &[u8],
        from: usize,
    ) -> (r: Result<usize, Ext2Error>)
        requires
            old(fs).wf(),
            old(self).wf(old(fs)@),
            from < data.len(),
        ensures
            final(fs).wf(),
            final(self).wf(final(fs)@),
            final(self).inode() == old(self).inode(),
            old(fs)@.same_volume(final(fs)@),
            final(fs)@ == old(fs)@.write_chunk(
                old(self).inode().record() as int,
                old(self).inode().group() as int,
                old(self).position() as int,
                data@.subrange(from as int, data.len() as int),
            ).0,
            match r {
                Ok(n) => {
                    &&& old(fs)@.write_chunk(
                        old(self).inode().record() as int,
                        old(self).inode().group() as int,
                        old(self).position() as int,
                        data@.subrange(from as int, data.len() as int),
                    ).1 == Ok::<int, Ext2Error>(n as int)
                    &&& 0 < n
                    &&& from + n <= data.len()
                    &&& final(self).position() == old(self).position() + n
                },
                Err(e) => {
                    &&& old(fs)@.write_chunk(
                        old(self).inode().record() as int,
                        old(self).inode().group() as int,
                        old(self).position() as int,
                        data@.subrange(from as int, data.len() as int),
                    ).1 == Err::<int, Ext2Error>(e)
                    &&& final(self).position() == old(self).position()
                },
            },
    {
        let position: u32 = self.total_index;
        let size: u32 = self.block_size;
        let slot: u32 = position / size;
        if slot >= DIRECT_BLOCKS as u32 {
            return Err(Ext2Error::FileTooLarge);
        }
        let mut block: u32 = self.inode.block_pointer(fs, slot as usize);
        if block == 0 {
            block = match self.inode.reserve_block(fs) {
                Ok(b) => b,
                Err(e) => {
                    return Err(e);
                },
            };
        }
        let start: usize = match fs.block_offset(block) {
            Some(s) => s,
            None => {
                return Err(Ext2Error::OutOfRange);
            },
        };
        let inside: u32 = position % size;
        let remain: u32 = size - inside;
        let left: usize = data.len() - from;
        let amount: u32 = if (remain as usize) < left {
            remain
        } else {
            left as u32
        };
        proof {
            lemma_block_range(fs@.block_size, block as int, block as int);
            lemma_slot_bound(size as int, position as int, DIRECT_BLOCKS as int);
            assert(data@.subrange(from as int, data.len() as int).subrange(0, amount as int)
                =~= data@.subrange(from as int, from + amount));
        }
        fs.write_bytes(start + inside as usize, data, from, amount as usize);
        self.total_index = position + amount;
        Ok(amount as usize)
    }

    /// Writes all of `data` at the position and moves past it. Bytes
    /// before the end of the file replace what was there; bytes beyond it
    /// extend the file, which is given blocks as they are needed. At the
    /// end the size of the file is raised to the position reached. On
    /// failure the steps made so far stay.
    pub fn write(&mut self, fs: &mut FileSystem, data: &[u8]) -> (r: Result<(), Ext2Error>)
        requires
            old(fs).wf(),
            old(self).wf(old(fs)@),
        ensures
            final(fs).wf(),
            final(self).wf(final(fs)@),
            final(self).inode() == old(self).inode(),
            old(fs)@.same_volume(final(fs)@),
            final(fs)@ == old(fs)@.write(
                old(self).inode().record() as int,
                old(self).inode().group() as int,
                old(self).position() as int,
                data@,
            ).view,
            final(self).position() == old(fs)@.write(
                old(self).inode().record() as int,
                old(self).inode().group() as int,
                old(self).position() as int,
                data@,
            ).position,
            r == old(fs)@.write(
                old(self).inode().record() as int,
                old(self).inode().group() as int,
                old(self).position() as int,
                data@,
            ).result,
    {
        let ghost rec = self.inode.record() as int;
        let ghost group = self.inode.group() as int;
        let ghost goal = fs@.write_chunks(rec, group, self.total_index as int, data@);
        let mut result: Result<(), Ext2Error> = Ok(());
        let mut index: usize = 0;
        assert(data@.subrange(0, data.len() as int) =~= data@);
        while index < data.len()
            invariant_except_break
                result == Ok::<(), Ext2Error>(()),
                goal == fs@.write_chunks(
                    rec,
                    group,
                    self.position() as int,
                    data@.subrange(index as int, data.len() as int),
                ),
                index == data.len() ==> goal == (WriteOutcome {
                    view: fs@,
                    position: self.position() as int,
                    result: Ok(()),
                }),
            invariant
                fs.wf(),
                self.wf(fs@),
                old(fs)@.same_volume(fs@),
                self.inode() == old(self).inode(),
                rec == self.inode().record() as int,
                group == self.inode().group() as int,
                index <= data.len(),
            ensures
                goal == (WriteOutcome { view: fs@, position: self.position() as int, result }),
            decreases data.len() - index,
        {
            let ghost rest = data@.subrange(index as int, data.len() as int);
            match self.write_to_end_of_block_at_most(fs, data, index) {
                Ok(n) => {
                    assert(rest.subrange(n as int, rest.len() as int) =~= data@.subrange(
                        index + n,
                        data.len() as int,
                    ));
                    index = index + n;
                    assert(data@.subrange(index as int, data.len() as int).len() == data.len()
                        - index);
                },
                Err(e) => {
                    result = Err(e);
                    break;
                },
            }
        }
        let size: u32 = self.inode.size(fs);
        if self.total_index > size {
            fs.write_u32(self.inode.record_offset() + SIZE_OFFSET, self.total_index);
        }
        result
    }
}

} // verus!
