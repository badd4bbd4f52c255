//! Mounting a volume, and the addresses of its blocks and inode records.
//!
//! A mounted volume owns the bytes of its image. Contracts speak of it
//! through its view, an [`FsView`]: the image as a sequence of bytes, and
//! the geometry that was read from the superblock when it was mounted.

use vstd::prelude::*;
use vstd::arithmetic::power2::pow2;
use vstd::slice::slice_subrange;
use crate::bitmap::{first_clear, reserve_bit, set_bit};
use crate::bytes::{get_slice, get_u16, get_u32, put_slice, put_u16, put_u32, splice, u16_at, u16_bytes, u32_at, u32_bytes};
use crate::inode::{Inode, InodeRef, INODE_SIZE};
use crate::metadata::{BlockGroupDescriptor, ExtendedSuperblock, Superblock, BLOCK_GROUP_DESCRITPOR_SIZE, EXTENDED_FIELDS_SIZE, EXT2_SIGNATURE, SUPERBLOCK_SIZE};

verus! {

/// Where the superblock starts in every image.
pub const SUPERBLOCK_OFFSET: usize = 1024;

/// The least length of an image: the boot area and the superblock's window.
pub const MIN_IMAGE_SIZE: usize = 2048;

/// The largest `log_block_size` a volume may have to be mounted. With it,
/// every position that the twelve direct blocks of a file reach fits in 32
/// bits.
pub const MAX_MOUNT_LOG_BLOCK_SIZE: u32 = 18;

/// Why an image cannot be mounted.
#[derive(Debug, Clone, Copy, PartialEq, Eq, Structural)]
pub enum MountError {
    /// The image is too short to hold a superblock.
    MissingSuperblock,
    /// The signature field does not hold the ext2 signature.
    BadSignature,
    /// The major version is 0: the volume has no extended superblock.
    UnsupportedVersion,
    /// The superblock announces blocks too large, no block per group, or a
    /// descriptor table that reaches beyond the image.
    BadGeometry,
}

/// Why a file or a directory could not be extended.
#[derive(Debug, Clone, Copy, PartialEq, Eq, Structural)]
pub enum Ext2Error {
    /// Every bit of the group's bitmap is set.
    NoSpace,
    /// The file would need more than its twelve direct blocks.
    FileTooLarge,
    /// A block or an inode record that the volume names lies beyond the image.
    OutOfRange,
    /// No record of the directory has room to spare for the new entry.
    DirectoryFull,
}

/// The block size that a `log_block_size` of `log` announces.
pub open spec fn block_size_of(log: u32) -> nat {
    1024 * pow2(log as nat)
}

/// The number of block groups: the blocks divided by the blocks per group,
/// rounded up.
pub open spec fn group_count(block_count: u32, per_group: u32) -> int {
    block_count as int / per_group as int + if block_count as int % per_group as int != 0 {
        1int
    } else {
        0int
    }
}

/// The byte at which the descriptor table starts: block 2 where blocks are
/// 1024 bytes, block 1 where they are larger.
pub open spec fn table_start(log: u32) -> int {
    if log == 0 {
        2 * (block_size_of(log) as int)
    } else {
        block_size_of(log) as int
    }
}

/// The geometry is one that this driver handles, and the descriptor table
/// lies within the `len` bytes of the image.
pub open spec fn geometry_fits(log: u32, block_count: u32, per_group: u32, len: nat) -> bool {
    &&& log <= MAX_MOUNT_LOG_BLOCK_SIZE
    &&& per_group != 0
    &&& table_start(log) + BLOCK_GROUP_DESCRITPOR_SIZE * group_count(block_count, per_group)
        <= len
}

/// Why `image` cannot be mounted, or `None` where it can. The checks come in
/// this order.
pub open spec fn mount_error(image: Seq<u8>) -> Option<MountError> {
    if image.len() < MIN_IMAGE_SIZE {
        Some(MountError::MissingSuperblock)
    } else if u16_at(image, SUPERBLOCK_OFFSET + 56) != EXT2_SIGNATURE {
        Some(MountError::BadSignature)
    } else if u32_at(image, SUPERBLOCK_OFFSET + 76) < 1 {
        Some(MountError::UnsupportedVersion)
    } else if !geometry_fits(
        u32_at(image, SUPERBLOCK_OFFSET + 24),
        u32_at(image, SUPERBLOCK_OFFSET + 4),
        u32_at(image, SUPERBLOCK_OFFSET + 32),
        image.len(),
    ) {
        Some(MountError::BadGeometry)
    } else {
        None
    }
}

/// What contracts know of a mounted volume.
pub struct FsView {
    /// The bytes of the image.
    pub image: Seq<u8>,
    /// The size of a block in bytes.
    pub block_size: int,
    /// The superblock as it was read at mount.
    pub superblock: Superblock,
    /// The extended superblock as it was read at mount.
    pub extended: ExtendedSuperblock,
    /// The descriptor table as it was read at mount.
    pub descriptors: Seq<BlockGroupDescriptor>,
}

impl FsView {
    /// The geometry is sound and the image holds the descriptor table. This
    /// speaks of the length of the image, never of its bytes: no write
    /// breaks it.
    pub open spec fn wf(self) -> bool {
        &&& self.image.len() <= usize::MAX
        &&& self.image.len() >= MIN_IMAGE_SIZE
        &&& self.superblock.ext2sig == EXT2_SIGNATURE
        &&& self.superblock.major_version >= 1
        &&& self.block_size == self.superblock.spec_block_size()
        &&& 1024 <= self.block_size <= 0x1000_0000
        &&& self.block_size % 1024 == 0
        &&& geometry_fits(
            self.superblock.log_block_size,
            self.superblock.block_count,
            self.superblock.block_count_in_group,
            self.image.len(),
        )
        &&& self.descriptors.len() == group_count(
            self.superblock.block_count,
            self.superblock.block_count_in_group,
        )
    }

    /// The same volume with other bytes in its image.
    pub open spec fn with_image(self, image: Seq<u8>) -> FsView {
        FsView { image, ..self }
    }

    /// `other` is this volume after some of its bytes changed: the
    /// geometry and the length of the image are the same.
    pub open spec fn same_volume(self, other: FsView) -> bool {
        other == self.with_image(other.image) && other.image.len() == self.image.len()
    }

    /// The byte at which block `b` starts.
    pub open spec fn block_start(self, b: int) -> int {
        b * self.block_size
    }

    /// Block `b` lies wholly within the image.
    pub open spec fn holds_block(self, b: int) -> bool {
        0 <= b && (b + 1) * self.block_size <= self.image.len()
    }

    /// The group that inode number `n` belongs to.
    pub open spec fn group_of(self, n: int) -> int {
        (n - 1) / (self.superblock.inode_count_in_group as int)
    }

    /// The place of inode number `n` in the inode table of its group.
    pub open spec fn index_in_group(self, n: int) -> int {
        (n - 1) % (self.superblock.inode_count_in_group as int)
    }

    /// The byte at which the record of inode number `n` starts: its place in
    /// the table of its group, times the size of a record, from the start of
    /// the table. `None` where the number is 0, the volume has no inode per
    /// group, the group has no descriptor, or the record does not lie within
    /// the image.
    pub open spec fn inode_record(self, n: int) -> Option<int> {
        if n < 1 || self.superblock.inode_count_in_group == 0 {
            None
        } else if self.group_of(n) >= self.descriptors.len() {
            None
        } else {
            let at = self.block_start(
                self.descriptors[self.group_of(n)].starting_block_of_inode_table as int,
            ) + self.index_in_group(n) * self.extended.inode_struct_size;
            if at + INODE_SIZE <= self.image.len() {
                Some(at)
            } else {
                None
            }
        }
    }
}

impl FsView {
    /// What reserving a bit in the bitmap held by block `b` does: the volume
    /// afterwards, and the index of the bit. The bit is the first clear one
    /// of the block, bytes in order and bits from the lowest up; it is set,
    /// and nothing else changes. Nothing changes where the block lies beyond
    /// the image or has no clear bit.
    pub open spec fn reserve_in(self, b: int) -> (FsView, Result<int, Ext2Error>) {
        if !self.holds_block(b) {
            (self, Err(Ext2Error::OutOfRange))
        } else {
            match first_clear(self.image, self.block_start(b), 8 * self.block_size) {
                None => (self, Err(Ext2Error::NoSpace)),
                Some(i) => (
                    self.with_image(set_bit(self.image, self.block_start(b), i)),
                    Ok(i),
                ),
            }
        }
    }

    /// What reserving a block in `group` does: a bit of the block bitmap of
    /// the group is reserved, and its index is the number of the block.
    pub open spec fn reserve_block(self, group: int) -> (FsView, Result<int, Ext2Error>) {
        if 0 <= group < self.descriptors.len() {
            self.reserve_in(self.descriptors[group].block_address_of_block_bitmap as int)
        } else {
            (self, Err(Ext2Error::OutOfRange))
        }
    }

    /// What reserving an inode in `group` does: a bit of the inode bitmap of
    /// the group is reserved, and the number of the inode is its index plus
    /// one.
    pub open spec fn reserve_inode(self, group: int) -> (FsView, Result<int, Ext2Error>) {
        if 0 <= group < self.descriptors.len() {
            let (v, r) = self.reserve_in(
                self.descriptors[group].block_address_of_inode_bitmap as int,
            );
            match r {
                Ok(i) => (v, Ok(i + 1)),
                Err(e) => (v, Err(e)),
            }
        } else {
            (self, Err(Ext2Error::OutOfRange))
        }
    }
}

/// A block of `size` bytes at index `b` takes the bytes from `b * size` up
/// to `(b + 1) * size`, and blocks at different indices do not overlap.
pub proof fn lemma_block_range(size: int, b: int, c: int)
    requires
        0 < size,
        0 <= b <= c,
    ensures
        0 <= b * size <= c * size,
        (c + 1) * size == c * size + size,
        b < c ==> (b + 1) * size <= c * size,
{
    assert(0 <= b * size <= c * size) by (nonlinear_arith)
        requires
            0 < size,
            0 <= b <= c,
    ;
    assert((c + 1) * size == c * size + size) by (nonlinear_arith);
    if b < c {
        assert((b + 1) * size <= c * size) by (nonlinear_arith)
            requires
                0 < size,
                b + 1 <= c,
        ;
    }
}

/// An image that is to be mounted.
pub struct Ext2Device {
    device: Vec<u8>,
}

impl View for Ext2Device {
    type V = Seq<u8>;

    closed spec fn view(&self) -> Seq<u8> {
        self.device@
    }
}

/// A mounted volume: the image and the geometry read from its superblock.
pub struct FileSystem {
    image: Vec<u8>,
    superblock: Superblock,
    extended: ExtendedSuperblock,
    descriptors: Vec<BlockGroupDescriptor>,
    block_size: usize,
}

impl View for FileSystem {
    type V = FsView;

    closed spec fn view(&self) -> FsView {
        FsView {
            image: self.image@,
            block_size: self.block_size as int,
            superblock: self.superblock,
            extended: self.extended,
            descriptors: self.descriptors@,
        }
    }
}

impl Ext2Device {
    /// Takes the bytes of an image.
    pub fn from_bytes(device: Vec<u8>) -> (r: Ext2Device)
        ensures
            r@ == device@,
    {
        Ext2Device { device }
    }

    /// Mounts the volume: reads the superblock at byte 1024, its extension
    /// and the descriptor table, and keeps the image. Fails where
    /// `mount_error` names a reason.
    pub fn open(self) -> (r: Result<FileSystem, MountError>)
        ensures
            match r {
                Ok(fs) => {
                    &&& mount_error(self@) is None
                    &&& fs.wf()
                    &&& fs@.image == self@
                    &&& fs@.superblock.stored_as(
                        self@.subrange(
                            SUPERBLOCK_OFFSET as int,
                            SUPERBLOCK_OFFSET + SUPERBLOCK_SIZE,
                        ),
                    )
                    &&& fs@.extended.stored_as(
                        self@.subrange(
                            SUPERBLOCK_OFFSET + SUPERBLOCK_SIZE,
                            SUPERBLOCK_OFFSET + SUPERBLOCK_SIZE + EXTENDED_FIELDS_SIZE,
                        ),
                    )
                    &&& forall|g: int|
                        0 <= g < fs@.descriptors.len() ==> (#[trigger] fs@.descriptors[g]).stored_as(
                            self@.subrange(
                                table_start(fs@.superblock.log_block_size)
                                    + BLOCK_GROUP_DESCRITPOR_SIZE * g,
                                table_start(fs@.superblock.log_block_size)
                                    + BLOCK_GROUP_DESCRITPOR_SIZE * g
                                    + BLOCK_GROUP_DESCRITPOR_SIZE,
                            ),
                        )
                },
                Err(e) => mount_error(self@) == Some(e),
            },
    {
        let image = self.device;
        if image.len() < MIN_IMAGE_SIZE {
            return Err(MountError::MissingSuperblock);
        }
        let head = slice_subrange(image.as_slice(), SUPERBLOCK_OFFSET, SUPERBLOCK_OFFSET + SUPERBLOCK_SIZE);
        assert(head@.subrange(0, SUPERBLOCK_SIZE as int) =~= head@);
        let superblock = Superblock::parse(head).unwrap();
        if superblock.ext2sig != EXT2_SIGNATURE {
            return Err(MountError::BadSignature);
        }
        if superblock.major_version < 1 {
            return Err(MountError::UnsupportedVersion);
        }
        let tail = slice_subrange(
            image.as_slice(),
            SUPERBLOCK_OFFSET + SUPERBLOCK_SIZE,
            SUPERBLOCK_OFFSET + SUPERBLOCK_SIZE + EXTENDED_FIELDS_SIZE,
        );
        assert(tail@.subrange(0, EXTENDED_FIELDS_SIZE as int) =~= tail@);
        let extended = ExtendedSuperblock::parse(tail).unwrap();
        if superblock.log_block_size > MAX_MOUNT_LOG_BLOCK_SIZE
            || superblock.block_count_in_group == 0 {
            return Err(MountError::BadGeometry);
        }
        let block_size = superblock.block_size();
        proof {
            lemma_mount_block_size(superblock.log_block_size);
        }
        let mut groups: u64 = (superblock.block_count / superblock.block_count_in_group) as u64;
        if superblock.block_count % superblock.block_count_in_group != 0 {
            groups = groups + 1;
        }
        let table: usize = if superblock.log_block_size == 0 {
            2 * block_size
        } else {
            block_size
        };
        if table as u64 + (BLOCK_GROUP_DESCRITPOR_SIZE as u64) * groups > image.len() as u64 {
            return Err(MountError::BadGeometry);
        }
        let count: usize = groups as usize;
        let mut descriptors: Vec<BlockGroupDescriptor> = Vec::new();
        let mut g: usize = 0;
        while g < count
            invariant
                g <= count,
                table + BLOCK_GROUP_DESCRITPOR_SIZE * count <= image.len(),
                descriptors.len() == g,
                forall|k: int|
                    0 <= k < g ==> (#[trigger] descriptors@[k]).stored_as(
                        image@.subrange(
                            table + BLOCK_GROUP_DESCRITPOR_SIZE * k,
                            table + BLOCK_GROUP_DESCRITPOR_SIZE * k + BLOCK_GROUP_DESCRITPOR_SIZE,
                        ),
                    ),
            decreases count - g,
        {
            let at: usize = table + BLOCK_GROUP_DESCRITPOR_SIZE * g;
            let raw = slice_subrange(image.as_slice(), at, at + BLOCK_GROUP_DESCRITPOR_SIZE);
            assert(raw@.subrange(0, BLOCK_GROUP_DESCRITPOR_SIZE as int) =~= raw@);
            descriptors.push(BlockGroupDescriptor::parse(raw).unwrap());
            g = g + 1;
        }
        Ok(FileSystem { image, superblock, extended, descriptors, block_size })
    }
}

/// On every mounted volume the signature of the superblock is the ext2
/// signature, and the size of a block is a power of two and at least 1024.
pub proof fn lemma_mounted(v: FsView)
    requires
        v.wf(),
    ensures
        v.superblock.ext2sig == 0xef53,
        v.block_size >= 1024,
        v.block_size == pow2((v.superblock.log_block_size + 10) as nat),
{
    vstd::arithmetic::power2::lemma2_to64();
    vstd::arithmetic::power2::lemma_pow2_adds(10, v.superblock.log_block_size as nat);
}

/// The block sizes that can be mounted are multiples of 1024 and at most
/// 256 MiB.
pub proof fn lemma_mount_block_size(log: u32)
    requires
        log <= MAX_MOUNT_LOG_BLOCK_SIZE,
    ensures
        1024 <= block_size_of(log) <= 0x1000_0000,
        block_size_of(log) % 1024 == 0,
{
    vstd::arithmetic::power2::lemma2_to64();
    vstd::arithmetic::power2::lemma_pow2_pos(log as nat);
    if log < 18 {
        vstd::arithmetic::power2::lemma_pow2_strictly_increases(log as nat, 18);
    }
    let p = pow2(log as nat) as int;
    assert((1024 * p) % 1024 == 0) by (nonlinear_arith);
}

impl FileSystem {
    /// The volume is sound: see [`FsView::wf`].
    pub open spec fn wf(&self) -> bool {
        self@.wf()
    }

    /// The superblock as it was read at mount.
    pub fn get_superblock(&self) -> (sb: &Superblock)
        ensures
            *sb == self@.superblock,
    {
        &self.superblock
    }

    /// The extended superblock as it was read at mount.
    pub fn get_extended_superblock(&self) -> (e: &ExtendedSuperblock)
        ensures
            *e == self@.extended,
    {
        &self.extended
    }

    /// The descriptor table as it was read at mount, one descriptor per
    /// block group.
    pub fn get_block_group_descriptor_table(&self) -> (table: &[BlockGroupDescriptor])
        ensures
            table@ == self@.descriptors,
    {
        self.descriptors.as_slice()
    }

    /// The size of a block in bytes.
    pub fn block_size(&self) -> (b: usize)
        ensures
            b == self@.block_size,
    {
        self.block_size
    }

    /// The bytes of the image as they now are.
    pub fn image(&self) -> (bytes: &[u8])
        ensures
            bytes@ == self@.image,
    {
        self.image.as_slice()
    }

    /// Gives the image back.
    pub fn into_image(self) -> (bytes: Vec<u8>)
        ensures
            bytes@ == self@.image,
    {
        self.image
    }

    /// The number of bytes in the image.
    pub fn len(&self) -> (n: usize)
        ensures
            n == self@.image.len(),
    {
        self.image.len()
    }

    /// The byte at `at`.
    pub(crate) fn read_u8(&self, at: usize) -> (b: u8)
        requires
            at < self@.image.len(),
        ensures
            b == self@.image[at as int],
    {
        self.image[at]
    }

    /// The 16-bit field at `at`.
    pub(crate) fn read_u16(&self, at: usize) -> (v: u16)
        requires
            at + 2 <= self@.image.len(),
        ensures
            v == u16_at(self@.image, at as int),
    {
        get_u16(self.image.as_slice(), at)
    }

    /// The 32-bit field at `at`.
    pub(crate) fn read_u32(&self, at: usize) -> (v: u32)
        requires
            at + 4 <= self@.image.len(),
        ensures
            v == u32_at(self@.image, at as int),
    {
        get_u32(self.image.as_slice(), at)
    }

    /// The `count` bytes from `at` on.
    pub(crate) fn bytes_at(&self, at: usize, count: usize) -> (bytes: &[u8])
        requires
            at + count <= self@.image.len(),
        ensures
            bytes@ == self@.image.subrange(at as int, at + count),
    {
        assert(self.image@.len() == self.image.len());
        slice_subrange(self.image.as_slice(), at, at + count)
    }

    /// Copies the `count` bytes from `at` on into `buffer`, from `to` on.
    pub(crate) fn read_bytes(&self, at: usize, buffer: &mut [u8], to: usize, count: usize)
        requires
            at + count <= self@.image.len(),
            to + count <= old(buffer).len(),
        ensures
            final(buffer)@ == splice(
                old(buffer)@,
                to as int,
                self@.image.subrange(at as int, at + count),
            ),
    {
        get_slice(self.image.as_slice(), at, buffer, to, count);
    }

    /// Stores `v` in the 16-bit field at `at`.
    pub(crate) fn write_u16(&mut self, at: usize, v: u16)
        requires
            at + 2 <= old(self)@.image.len(),
        ensures
            final(self)@ == old(self)@.with_image(
                splice(old(self)@.image, at as int, u16_bytes(v)),
            ),
    {
        put_u16(&mut self.image, at, v);
    }

    /// Stores `v` in the 32-bit field at `at`.
    pub(crate) fn write_u32(&mut self, at: usize, v: u32)
        requires
            at + 4 <= old(self)@.image.len(),
        ensures
            final(self)@ == old(self)@.with_image(
                splice(old(self)@.image, at as int, u32_bytes(v)),
            ),
    {
        put_u32(&mut self.image, at, v);
    }

    /// Copies `count` bytes of `data`, from `from` on, over the bytes from
    /// `at` on.
    pub(crate) fn write_bytes(&mut self, at: usize, data: &[u8], from: usize, count: usize)
        requires
            at + count <= old(self)@.image.len(),
            from + count <= data.len(),
        ensures
            final(self)@ == old(self)@.with_image(
                splice(old(self)@.image, at as int, data@.subrange(from as int, from + count)),
            ),
    {
        put_slice(&mut self.image, at, data, from, count);
    }

    /// The byte at which block `index` starts, where the block lies within
    /// the image.
    pub fn block_offset(&self, index: u32) -> (r: Option<usize>)
        requires
            self.wf(),
        ensures
            r is Some <==> self@.holds_block(index as int),
            r matches Some(at) ==> at == self@.block_start(index as int),
    {
        let size: u64 = self.block_size as u64;
        proof {
            lemma_block_range(size as int, index as int, index as int);
            assert(index * size <= 0xFFFF_FFFF * 0x1000_0000) by (nonlinear_arith)
                requires
                    0 <= index <= 0xFFFF_FFFF,
                    0 <= size <= 0x1000_0000,
            ;
        }
        let start: u64 = index as u64 * size;
        if start + size <= self.image.len() as u64 {
            Some(start as usize)
        } else {
            None
        }
    }

    /// The group of an inode: its number less one, divided by the inodes
    /// per group. `None` for number 0 and on a volume without inodes.
    pub fn group_of_inode(&self, inode: InodeRef) -> (r: Option<u32>)
        ensures
            r is Some <==> inode.0 >= 1 && self@.superblock.inode_count_in_group != 0,
            r matches Some(g) ==> g == self@.group_of(inode.0 as int),
    {
        if inode.0 < 1 || self.superblock.inode_count_in_group == 0 {
            None
        } else {
            Some((inode.0 - 1) / self.superblock.inode_count_in_group)
        }
    }

    /// A handle on the inode with this number, where the volume has a record
    /// for it within the image.
    pub fn get_inode(&self, inode: InodeRef) -> (r: Option<Inode>)
        requires
            self.wf(),
        ensures
            r is Some <==> self@.inode_record(inode.0 as int) is Some,
            r matches Some(i) ==> i.wf(self@) && i.number() == inode.0,
    {
        let per_group: u32 = self.superblock.inode_count_in_group;
        if inode.0 < 1 || per_group == 0 {
            return None;
        }
        let group: u32 = (inode.0 - 1) / per_group;
        let index: u32 = (inode.0 - 1) % per_group;
        if group as usize >= self.descriptors.len() {
            return None;
        }
        let table: u32 = self.descriptors[group as usize].starting_block_of_inode_table;
        let size: u64 = self.block_size as u64;
        let stride: u64 = self.extended.inode_struct_size as u64;
        proof {
            assert(table * size <= 0xFFFF_FFFF * 0x1000_0000) by (nonlinear_arith)
                requires
                    0 <= table <= 0xFFFF_FFFF,
                    0 <= size <= 0x1000_0000,
            ;
            assert(index * stride <= 0xFFFF_FFFF * 0xFFFF) by (nonlinear_arith)
                requires
                    0 <= index <= 0xFFFF_FFFF,
                    0 <= stride <= 0xFFFF,
            ;
        }
        let at: u64 = table as u64 * size + index as u64 * stride;
        if at + INODE_SIZE as u64 > self.image.len() as u64 {
            return None;
        }
        Some(Inode::from_fs(inode.0, group, at as usize))
    }

    /// A handle on the root directory, inode number 2.
    pub fn get_root(&self) -> (r: Option<Inode>)
        requires
            self.wf(),
        ensures
            r is Some <==> self@.inode_record(2) is Some,
            r matches Some(i) ==> i.wf(self@) && i.number() == 2,
    {
        self.get_inode(InodeRef(2))
    }

    fn reserve_bitmap(&mut self, block: u32) -> (r: Result<u32, Ext2Error>)
        requires
            old(self).wf(),
        ensures
            final(self).wf(),
            old(self)@.same_volume(final(self)@),
            final(self)@ == old(self)@.reserve_in(block as int).0,
            match r {
                Ok(i) => old(self)@.reserve_in(block as int).1 == Ok::<int, Ext2Error>(i as int),
                Err(e) => old(self)@.reserve_in(block as int).1 == Err::<int, Ext2Error>(e),
            },
    {
        let start: usize = match self.block_offset(block) {
            Some(at) => at,
            None => {
                return Err(Ext2Error::OutOfRange);
            },
        };
        proof {
            lemma_block_range(self.block_size as int, block as int, block as int);
        }
        proof {
            crate::bitmap::lemma_first_clear_from(
                self@.image,
                start as int,
                0,
                8 * self@.block_size,
            );
        }
        match reserve_bit(&mut self.image, start, self.block_size) {
            Some(i) => Ok(i),
            None => Err(Ext2Error::NoSpace),
        }
    }

    /// Reserves a block in `group`: sets the first clear bit of the block
    /// bitmap of the group and returns its index.
    pub fn reserve_block(&mut self, group: u32) -> (r: Result<u32, Ext2Error>)
        requires
            old(self).wf(),
        ensures
            final(self).wf(),
            old(self)@.same_volume(final(self)@),
            final(self)@ == old(self)@.reserve_block(group as int).0,
            match r {
                Ok(b) => old(self)@.reserve_block(group as int).1 == Ok::<int, Ext2Error>(
                    b as int,
                ),
                Err(e) => old(self)@.reserve_block(group as int).1 == Err::<int, Ext2Error>(e),
            },
    {
        if group as usize >= self.descriptors.len() {
            return Err(Ext2Error::OutOfRange);
        }
        let bitmap: u32 = self.descriptors[group as usize].block_address_of_block_bitmap;
        self.reserve_bitmap(bitmap)
    }

    /// Reserves an inode in `group`: sets the first clear bit of the inode
    /// bitmap of the group and returns its index plus one, the number of the
    /// inode.
    pub fn reserve_inode(&mut self, group: u32) -> (r: Result<InodeRef, Ext2Error>)
        requires
            old(self).wf(),
        ensures
            final(self).wf(),
            old(self)@.same_volume(final(self)@),
            final(self)@ == old(self)@.reserve_inode(group as int).0,
            match r {
                Ok(n) => old(self)@.reserve_inode(group as int).1 == Ok::<int, Ext2Error>(
                    n.0 as int,
                ),
                Err(e) => old(self)@.reserve_inode(group as int).1 == Err::<int, Ext2Error>(e),
            },
    {
        if group as usize >= self.descriptors.len() {
            return Err(Ext2Error::OutOfRange);
        }
        let bitmap: u32 = self.descriptors[group as usize].block_address_of_inode_bitmap;
        match self.reserve_bitmap(bitmap) {
            Ok(i) => {
                proof {
                    crate::bitmap::lemma_first_clear_from(
                        old(self)@.image,
                        old(self)@.block_start(bitmap as int),
                        0,
                        8 * old(self)@.block_size,
                    );
                }
                Ok(InodeRef(i + 1))
            },
            Err(e) => Err(e),
        }
    }
}

} // verus!
