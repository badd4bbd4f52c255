//! Inodes: their records and the handles that name them.

use vstd::prelude::*;
pub use crate::cursor::Cursor;
pub use crate::directory::{DirectoryEntries, DirectoryEntry};
pub use crate::reader::ReadInode;
use vstd::array::array_fill_for_copy_types;
use crate::bytes::{get_u16, get_u32, u16_at, u32_at};
use crate::fs::{FileSystem, FsView};
use crate::metadata::get_array;

verus! {

/// Bytes that an inode record takes on disk.
pub const INODE_SIZE: usize = 128;

/// The number of direct block pointers in an inode record.
pub const DIRECT_BLOCKS: usize = 12;

/// Where the fields that the driver reads stand in an inode record.
pub const MODE_OFFSET: usize = 0;

pub const USER_OFFSET: usize = 2;

pub const SIZE_OFFSET: usize = 4;

pub const GROUP_OFFSET: usize = 24;

pub const LINKS_OFFSET: usize = 26;

pub const BLOCKS_OFFSET: usize = 40;

/// The bits of `type_permission` that name the kind of an inode.
pub const TYPE_MASK: u16 = 0xF000;

pub const TYPE_FIFO: u16 = 0x1000;

pub const TYPE_CHAR_DEVICE: u16 = 0x2000;

pub const TYPE_DIR: u16 = 0x4000;

pub const TYPE_BLOCK_DEVICE: u16 = 0x6000;

pub const TYPE_REGULAR_FILE: u16 = 0x8000;

pub const TYPE_SYMBOLIC_LINK: u16 = 0xA000;

pub const TYPE_UNIX_SOCKET: u16 = 0xC000;

/// The bits of `type_permission` that hold the permissions.
pub const PERMISSION_MASK: u16 = 0x0FFF;

pub const OTHER_EXECUTE: u16 = 0o00001;

pub const OTHER_WRITE: u16 = 0o00002;

pub const OTHER_READ: u16 = 0o00004;

pub const GROUP_EXECUTE: u16 = 0o00010;

pub const GROUP_WRITE: u16 = 0o00020;

pub const GROUP_READ: u16 = 0o00040;

pub const USER_EXECUTE: u16 = 0o00100;

pub const USER_WRITE: u16 = 0o00200;

pub const USER_READ: u16 = 0o00400;

pub const STICKY_BIT: u16 = 0o01000;

pub const SET_GROUP_ID: u16 = 0o02000;

pub const SET_USER_ID: u16 = 0o04000;

pub const SECURE_DELETION: u32 = 0x00000001;

pub const COPY_ON_DELETION: u32 = 0x00000002;

pub const FILE_COMPRESSION: u32 = 0x00000004;

pub const SYNCHRONOUS_UPDATES: u32 = 0x00000008;

pub const IMMUTABLE_FILE: u32 = 0x00000010;

pub const APPEND_ONLY: u32 = 0x00000020;

pub const FILE_NOT_IN_DUMP: u32 = 0x00000040;

pub const DONT_UPDATE_ACCESSED_TIME: u32 = 0x00000080;

pub const HASH_INDEXED_DIR: u32 = 0x00010000;

pub const AFS_DIR: u32 = 0x00020000;

pub const JOURNAL_DATA: u32 = 0x00040000;

/// The number of an inode. Numbers start at 1; 2 is the root directory.
#[derive(Debug, Clone, Copy, PartialEq, Eq, Structural)]
pub struct InodeRef(pub u32);

/// The kind of a file, as directory entries name it.
#[derive(Debug, Clone, Copy, PartialEq, Eq, Structural)]
pub enum EntryKind {
    Unkown,
    RegularFile,
    Directory,
    CharDevice,
    BlockDevice,
    Fifo,
    Socket,
    Symlink,
}

impl EntryKind {
    /// The byte that stands for the kind in a directory entry.
    pub open spec fn byte(self) -> u8 {
        match self {
            EntryKind::Unkown => 0,
            EntryKind::RegularFile => 1,
            EntryKind::Directory => 2,
            EntryKind::CharDevice => 3,
            EntryKind::BlockDevice => 4,
            EntryKind::Fifo => 5,
            EntryKind::Socket => 6,
            EntryKind::Symlink => 7,
        }
    }

    /// The kind that a byte of a directory entry stands for; a byte that
    /// names none stands for `Unkown`.
    pub open spec fn of_byte(b: u8) -> EntryKind {
        if b == 1 {
            EntryKind::RegularFile
        } else if b == 2 {
            EntryKind::Directory
        } else if b == 3 {
            EntryKind::CharDevice
        } else if b == 4 {
            EntryKind::BlockDevice
        } else if b == 5 {
            EntryKind::Fifo
        } else if b == 6 {
            EntryKind::Socket
        } else if b == 7 {
            EntryKind::Symlink
        } else {
            EntryKind::Unkown
        }
    }

    /// The bits that name the kind in the `type_permission` of an inode;
    /// 0 for `Unkown`, which inodes have no bits for.
    pub open spec fn type_bits(self) -> u16 {
        match self {
            EntryKind::Unkown => 0,
            EntryKind::RegularFile => TYPE_REGULAR_FILE,
            EntryKind::Directory => TYPE_DIR,
            EntryKind::CharDevice => TYPE_CHAR_DEVICE,
            EntryKind::BlockDevice => TYPE_BLOCK_DEVICE,
            EntryKind::Fifo => TYPE_FIFO,
            EntryKind::Socket => TYPE_UNIX_SOCKET,
            EntryKind::Symlink => TYPE_SYMBOLIC_LINK,
        }
    }

    /// The kind that the top four bits of a `type_permission` name.
    pub open spec fn of_mode(mode: u16) -> EntryKind {
        let top = mode / 0x1000;
        if top == 0x8 {
            EntryKind::RegularFile
        } else if top == 0x4 {
            EntryKind::Directory
        } else if top == 0x2 {
            EntryKind::CharDevice
        } else if top == 0x6 {
            EntryKind::BlockDevice
        } else if top == 0x1 {
            EntryKind::Fifo
        } else if top == 0xC {
            EntryKind::Socket
        } else if top == 0xA {
            EntryKind::Symlink
        } else {
            EntryKind::Unkown
        }
    }

    pub fn to_byte(&self) -> (b: u8)
        ensures
            b == self.byte(),
            EntryKind::of_byte(b) == *self,
    {
        match self {
            EntryKind::Unkown => 0,
            EntryKind::RegularFile => 1,
            EntryKind::Directory => 2,
            EntryKind::CharDevice => 3,
            EntryKind::BlockDevice => 4,
            EntryKind::Fifo => 5,
            EntryKind::Socket => 6,
            EntryKind::Symlink => 7,
        }
    }

    pub fn from_byte(b: u8) -> (k: EntryKind)
        ensures
            k == EntryKind::of_byte(b),
    {
        if b == 1 {
            EntryKind::RegularFile
        } else if b == 2 {
            EntryKind::Directory
        } else if b == 3 {
            EntryKind::CharDevice
        } else if b == 4 {
            EntryKind::BlockDevice
        } else if b == 5 {
            EntryKind::Fifo
        } else if b == 6 {
            EntryKind::Socket
        } else if b == 7 {
            EntryKind::Symlink
        } else {
            EntryKind::Unkown
        }
    }

    /// The `type_permission` that names this kind and grants nothing.
    /// `Unkown` names no kind of inode.
    pub fn to_typeperm(&self) -> (t: TypePermission)
        requires
            *self != EntryKind::Unkown,
        ensures
            t.0 == self.type_bits(),
            t.0 != 0,
    {
        match self {
            EntryKind::Unkown => TypePermission(0),
            EntryKind::RegularFile => TypePermission(TYPE_REGULAR_FILE),
            EntryKind::Directory => TypePermission(TYPE_DIR),
            EntryKind::CharDevice => TypePermission(TYPE_CHAR_DEVICE),
            EntryKind::BlockDevice => TypePermission(TYPE_BLOCK_DEVICE),
            EntryKind::Fifo => TypePermission(TYPE_FIFO),
            EntryKind::Socket => TypePermission(TYPE_UNIX_SOCKET),
            EntryKind::Symlink => TypePermission(TYPE_SYMBOLIC_LINK),
        }
    }
}

/// The permissions of a file: the low twelve bits of a `type_permission`.
#[derive(Debug, Clone, Copy, PartialEq, Eq, Structural)]
pub struct Permission(pub u16);

impl Permission {
    /// No permission at all.
    pub fn empty() -> (p: Permission)
        ensures
            p.0 == 0,
    {
        Permission(0)
    }

    /// Every permission.
    pub fn all() -> (p: Permission)
        ensures
            p.0 == PERMISSION_MASK,
    {
        Permission(PERMISSION_MASK)
    }

    /// The permissions among `bits`: the low twelve bits. Bits that name
    /// no permission are dropped.
    pub fn from_bits_truncate(bits: u16) -> (p: Permission)
        ensures
            p.0 == bits % 0x1000,
            p.0 <= PERMISSION_MASK,
    {
        Permission(bits % 0x1000)
    }

    pub fn bits(&self) -> (b: u16)
        ensures
            b == self.0,
    {
        self.0
    }

    /// Whether every permission of `other` is granted.
    pub fn contains(&self, other: Permission) -> (r: bool)
        ensures
            r == (self.0 & other.0 == other.0),
    {
        self.0 & other.0 == other.0
    }

    /// The same bits as a `type_permission` that names no kind.
    pub fn to_typeperm(&self) -> (t: TypePermission)
        ensures
            t.0 == self.0,
    {
        TypePermission(self.0)
    }
}

/// The first field of an inode record: the kind of the file in the top
/// four bits, its permissions in the low twelve.
#[derive(Debug, Clone, Copy, PartialEq, Eq, Structural)]
pub struct TypePermission(pub u16);

impl TypePermission {
    pub fn bits(&self) -> (b: u16)
        ensures
            b == self.0,
    {
        self.0
    }

    /// Whether every bit of `other` is set.
    pub fn contains(&self, other: TypePermission) -> (r: bool)
        ensures
            r == (self.0 & other.0 == other.0),
    {
        self.0 & other.0 == other.0
    }

    /// The bits of both.
    pub fn union(&self, other: TypePermission) -> (t: TypePermission)
        ensures
            t.0 == self.0 | other.0,
    {
        TypePermission(self.0 | other.0)
    }

    /// The kind that the top four bits name.
    pub fn kind(&self) -> (k: EntryKind)
        ensures
            k == EntryKind::of_mode(self.0),
    {
        let top: u16 = self.0 / 0x1000;
        if top == 0x8 {
            EntryKind::RegularFile
        } else if top == 0x4 {
            EntryKind::Directory
        } else if top == 0x2 {
            EntryKind::CharDevice
        } else if top == 0x6 {
            EntryKind::BlockDevice
        } else if top == 0x1 {
            EntryKind::Fifo
        } else if top == 0xC {
            EntryKind::Socket
        } else if top == 0xA {
            EntryKind::Symlink
        } else {
            EntryKind::Unkown
        }
    }

    /// The permissions in the low twelve bits.
    pub fn permission(&self) -> (p: Permission)
        ensures
            p.0 == self.0 % 0x1000,
    {
        Permission(self.0 % 0x1000)
    }
}

/// A kind joined with permissions names that kind and grants those
/// permissions.
pub proof fn lemma_kind_and_permission(kind: EntryKind, bits: u16)
    requires
        bits <= PERMISSION_MASK,
    ensures
        EntryKind::of_mode(kind.type_bits() | bits) == kind,
        (kind.type_bits() | bits) % 0x1000 == bits,
{
    let t = kind.type_bits();
    assert(t == 0 || t == 0x1000 || t == 0x2000 || t == 0x4000 || t == 0x6000 || t == 0x8000 || t
        == 0xA000 || t == 0xC000);
    assert((t | bits) / 0x1000u16 == t / 0x1000u16 && (t | bits) % 0x1000u16 == bits)
        by (bit_vector)
        requires
            t == 0 || t == 0x1000 || t == 0x2000 || t == 0x4000 || t == 0x6000 || t == 0x8000 || t
                == 0xA000 || t == 0xC000,
            bits <= 0x0FFFu16,
    ;
}

/// The flags of an inode; the driver keeps them and enforces none.
#[derive(Debug, Clone, Copy, PartialEq, Eq, Structural)]
pub struct InodeFlags(pub u32);

impl InodeFlags {
    pub fn bits(&self) -> (b: u32)
        ensures
            b == self.0,
    {
        self.0
    }

    /// Whether every bit of `mask` is set.
    pub fn contains(&self, mask: u32) -> (r: bool)
        ensures
            r == (self.0 & mask == mask),
    {
        self.0 & mask == mask
    }
}

/// The record of an inode.
#[derive(Debug, Clone, Copy)]
pub struct InodeData {
    pub type_permission: TypePermission,
    pub user_id: u16,
    pub size_lower_32_bits: u32,
    pub last_access_time: u32,
    pub creation_time: u32,
    pub last_modification_time: u32,
    pub deletion_time: u32,
    pub group_id: u16,
    pub hard_link_to_inode: u16,
    pub disk_sectors_used: u32,
    pub flags: InodeFlags,
    pub os_specific_one: u32,
    pub direct_block_pointers: [u32; 12],
    pub singly_indirect_block_pointer: u32,
    pub doubly_indirect_block_pointer: u32,
    pub triply_indirect_block_pointer: u32,
    pub generation_number: u32,
    pub acl: u32,
    pub upper_size_or_dir_acl: u32,
    pub block_address_of_fragment: u32,
    pub os_specific_two: [u8; 12],
}

/// Reads the twelve direct block pointers that start at `at`.
fn get_pointers(bytes: &[u8], at: usize) -> (a: [u32; 12])
    requires
        at + 48 <= bytes.len(),
    ensures
        forall|j: int| 0 <= j < 12 ==> a@[j] == u32_at(bytes@, at + 4 * j),
{
    let mut a: [u32; 12] = array_fill_for_copy_types(0u32);
    let mut i: usize = 0;
    while i < 12
        invariant
            i <= 12,
            at + 48 <= bytes.len(),
            forall|j: int| 0 <= j < i ==> a@[j] == u32_at(bytes@, at + 4 * j),
        decreases 12 - i,
    {
        a[i] = get_u32(bytes, at + 4 * i);
        i = i + 1;
    }
    a
}

impl InodeData {
    /// `s` is the 128 bytes that store this record.
    pub open spec fn stored_as(&self, s: Seq<u8>) -> bool {
        &&& s.len() == INODE_SIZE
        &&& self.type_permission.0 == u16_at(s, 0)
        &&& self.user_id == u16_at(s, 2)
        &&& self.size_lower_32_bits == u32_at(s, 4)
        &&& self.last_access_time == u32_at(s, 8)
        &&& self.creation_time == u32_at(s, 12)
        &&& self.last_modification_time == u32_at(s, 16)
        &&& self.deletion_time == u32_at(s, 20)
        &&& self.group_id == u16_at(s, 24)
        &&& self.hard_link_to_inode == u16_at(s, 26)
        &&& self.disk_sectors_used == u32_at(s, 28)
        &&& self.flags.0 == u32_at(s, 32)
        &&& self.os_specific_one == u32_at(s, 36)
        &&& forall|j: int| 0 <= j < 12 ==> self.direct_block_pointers@[j] == u32_at(s, 40 + 4 * j)
        &&& self.singly_indirect_block_pointer == u32_at(s, 88)
        &&& self.doubly_indirect_block_pointer == u32_at(s, 92)
        &&& self.triply_indirect_block_pointer == u32_at(s, 96)
        &&& self.generation_number == u32_at(s, 100)
        &&& self.acl == u32_at(s, 104)
        &&& self.upper_size_or_dir_acl == u32_at(s, 108)
        &&& self.block_address_of_fragment == u32_at(s, 112)
        &&& self.os_specific_two@ == s.subrange(116, 128)
    }

    /// Reads the record that the first 128 bytes store; `None` when there
    /// are fewer.
    pub fn parse(bytes: &[u8]) -> (r: Option<InodeData>)
        ensures
            r is Some <==> bytes.len() >= INODE_SIZE,
            r matches Some(d) ==> d.stored_as(bytes@.subrange(0, INODE_SIZE as int)),
    {
        if bytes.len() < INODE_SIZE {
            return None;
        }
        let d = InodeData {
            type_permission: TypePermission(get_u16(bytes, 0)),
            user_id: get_u16(bytes, 2),
            size_lower_32_bits: get_u32(bytes, 4),
            last_access_time: get_u32(bytes, 8),
            creation_time: get_u32(bytes, 12),
            last_modification_time: get_u32(bytes, 16),
            deletion_time: get_u32(bytes, 20),
            group_id: get_u16(bytes, 24),
            hard_link_to_inode: get_u16(bytes, 26),
            disk_sectors_used: get_u32(bytes, 28),
            flags: InodeFlags(get_u32(bytes, 32)),
            os_specific_one: get_u32(bytes, 36),
            direct_block_pointers: get_pointers(bytes, 40),
            singly_indirect_block_pointer: get_u32(bytes, 88),
            doubly_indirect_block_pointer: get_u32(bytes, 92),
            triply_indirect_block_pointer: get_u32(bytes, 96),
            generation_number: get_u32(bytes, 100),
            acl: get_u32(bytes, 104),
            upper_size_or_dir_acl: get_u32(bytes, 108),
            block_address_of_fragment: get_u32(bytes, 112),
            os_specific_two: get_array::<12>(bytes, 116),
        };
        proof {
            let s = bytes@.subrange(0, 128);
            assert(d.os_specific_two@ =~= s.subrange(116, 128));
            assert forall|j: int| 0 <= j < 12 implies d.direct_block_pointers@[j] == u32_at(
                s,
                40 + 4 * j,
            ) by {
                assert(u32_at(s, 40 + 4 * j) == u32_at(bytes@, 40 + 4 * j));
            }
        }
        Some(d)
    }
}

impl FsView {
    /// The `type_permission` of the inode whose record starts at `rec`.
    pub open spec fn mode(self, rec: int) -> u16 {
        u16_at(self.image, rec + MODE_OFFSET)
    }

    /// The kind of the inode whose record starts at `rec`.
    pub open spec fn kind(self, rec: int) -> EntryKind {
        EntryKind::of_mode(self.mode(rec))
    }

    /// The size in bytes of the file whose record starts at `rec`.
    pub open spec fn file_size(self, rec: int) -> u32 {
        u32_at(self.image, rec + SIZE_OFFSET)
    }

    /// Direct block pointer `slot` of the inode whose record starts at
    /// `rec`; 0 where no block is assigned.
    pub open spec fn block_pointer(self, rec: int, slot: int) -> u32 {
        u32_at(self.image, rec + BLOCKS_OFFSET + 4 * slot)
    }
}

/// A handle on one inode of a mounted volume: its number, its group, and
/// the place of its record in the image.
#[derive(Debug, Clone, Copy)]
pub struct Inode {
    id: u32,
    group: u32,
    record: usize,
}

impl Inode {
    /// The number of the inode.
    pub closed spec fn number(&self) -> u32 {
        self.id
    }

    /// The block group of the inode.
    pub closed spec fn group(&self) -> u32 {
        self.group
    }

    /// The byte of the image at which the record of the inode starts.
    pub closed spec fn record(&self) -> usize {
        self.record
    }

    /// The handle names an inode of this volume, at the place where the
    /// volume keeps it.
    pub open spec fn wf(&self, v: FsView) -> bool {
        &&& v.inode_record(self.number() as int) == Some(self.record() as int)
        &&& self.group() == v.group_of(self.number() as int)
    }

    pub(crate) fn from_fs(id: u32, group: u32, record: usize) -> (r: Inode)
        ensures
            r.number() == id,
            r.group() == group,
            r.record() == record,
    {
        Inode { id, group, record }
    }

    /// Whether the handle names an inode of this volume, at the place
    /// where the volume keeps it. Handles that the volume gave out do.
    pub fn is_in(&self, fs: &FileSystem) -> (b: bool)
        requires
            fs.wf(),
        ensures
            b == self.wf(fs@),
    {
        match fs.get_inode(InodeRef(self.id)) {
            Some(found) => found.record == self.record && found.group == self.group,
            None => false,
        }
    }

    /// The number of the inode.
    pub fn inode_ref(&self) -> (r: InodeRef)
        ensures
            r.0 == self.number(),
    {
        InodeRef(self.id)
    }

    /// The block group of the inode.
    pub fn group_index(&self) -> (g: u32)
        ensures
            g == self.group(),
    {
        self.group
    }

    /// The byte of the image at which the record starts.
    pub fn record_offset(&self) -> (at: usize)
        ensures
            at == self.record(),
    {
        self.record
    }

    /// The record of the inode as the image now stores it.
    pub fn get_data(&self, fs: &FileSystem) -> (d: InodeData)
        requires
            fs.wf(),
            self.wf(fs@),
        ensures
            d.stored_as(fs@.image.subrange(self.record() as int, self.record() + INODE_SIZE)),
    {
        let raw = fs.bytes_at(self.record, INODE_SIZE);
        assert(raw@.subrange(0, INODE_SIZE as int) =~= raw@);
        InodeData::parse(raw).unwrap()
    }

    /// The size of the file in bytes.
    pub fn size(&self, fs: &FileSystem) -> (n: u32)
        requires
            fs.wf(),
            self.wf(fs@),
        ensures
            n == fs@.file_size(self.record() as int),
    {
        fs.read_u32(self.record + SIZE_OFFSET)
    }

    /// The `type_permission` field of the record.
    pub fn type_permission(&self, fs: &FileSystem) -> (t: TypePermission)
        requires
            fs.wf(),
            self.wf(fs@),
        ensures
            t.0 == fs@.mode(self.record() as int),
    {
        TypePermission(fs.read_u16(self.record + MODE_OFFSET))
    }

    /// The kind of the file, read from the top four bits of its
    /// `type_permission`.
    pub fn kind(&self, fs: &FileSystem) -> (k: EntryKind)
        requires
            fs.wf(),
            self.wf(fs@),
        ensures
            k == fs@.kind(self.record() as int),
    {
        self.type_permission(fs).kind()
    }

    /// Direct block pointer `slot` of the record.
    pub fn block_pointer(&self, fs: &FileSystem, slot: usize) -> (b: u32)
        requires
            fs.wf(),
            self.wf(fs@),
            slot < DIRECT_BLOCKS,
        ensures
            b == fs@.block_pointer(self.record() as int, slot as int),
    {
        fs.read_u32(self.record + BLOCKS_OFFSET + 4 * slot)
    }
}

} // verus!
