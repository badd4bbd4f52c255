//! The fixed records at the head of an ext2 volume: the superblock, its
//! extension and the block-group descriptors.
//!
//! Each record type says with `stored_as` which bytes store it, and `parse`
//! builds the record from those bytes.

use vstd::prelude::*;
use vstd::array::array_fill_for_copy_types;
use crate::bytes::{get_u16, get_u32, u16_at, u32_at};

verus! {

/// Bytes that the superblock takes on disk.
pub const SUPERBLOCK_SIZE: usize = 84;

/// Bytes that one block-group descriptor takes on disk.
pub const BLOCK_GROUP_DESCRITPOR_SIZE: usize = 32;

/// Bytes between the end of the superblock and the end of its 1024-byte window.
pub const EXTENDED_SUPERBLOCK_SIZE: usize = 1023 - SUPERBLOCK_SIZE;

/// Bytes of the extended superblock that carry fields.
pub const EXTENDED_FIELDS_SIZE: usize = 152;

/// The value of the signature field of every ext2 superblock.
pub const EXT2_SIGNATURE: u16 = 0xef53;

/// The signed reading of a byte, as C strings on disk use it.
pub open spec fn as_signed(b: u8) -> i8 {
    if b < 128 {
        b as i8
    } else {
        (b - 256) as i8
    }
}

/// Copies `N` bytes, from `at` on, into an array.
pub(crate) fn get_array<const N: usize>(bytes: &[u8], at: usize) -> (a: [u8; N])
    requires
        at + N <= bytes.len(),
    ensures
        a@ == bytes@.subrange(at as int, at + N),
{
    let mut a: [u8; N] = array_fill_for_copy_types(0u8);
    let mut i: usize = 0;
    while i < N
        invariant
            i <= N,
            at + N <= bytes.len(),
            a@.len() == N,
            forall|j: int| 0 <= j < i ==> a@[j] == bytes@[at + j],
        decreases N - i,
    {
        a[i] = bytes[at + i];
        i = i + 1;
    }
    assert(a@ =~= bytes@.subrange(at as int, at + N));
    a
}

/// Copies `N` bytes, from `at` on, into an array of signed bytes.
pub(crate) fn get_signed_array<const N: usize>(bytes: &[u8], at: usize) -> (a: [i8; N])
    requires
        at + N <= bytes.len(),
    ensures
        a@ == bytes@.subrange(at as int, at + N).map_values(|b: u8| as_signed(b)),
{
    let mut a: [i8; N] = array_fill_for_copy_types(0i8);
    let mut i: usize = 0;
    while i < N
        invariant
            i <= N,
            at + N <= bytes.len(),
            a@.len() == N,
            forall|j: int| 0 <= j < i ==> a@[j] == as_signed(bytes@[at + j]),
        decreases N - i,
    {
        let b: u8 = bytes[at + i];
        let v: i8 = if b < 128 {
            b as i8
        } else {
            (b as i16 - 256) as i8
        };
        a[i] = v;
        i = i + 1;
    }
    assert(a@ =~= bytes@.subrange(at as int, at + N).map_values(|b: u8| as_signed(b)));
    a
}

/// Whether the volume was unmounted cleanly.
#[derive(Debug, Clone, Copy, PartialEq, Eq, Structural)]
pub enum FsState {
    Clean,
    Errored,
}

impl FsState {
    /// The state that the on-disk number stands for, if it stands for one.
    pub open spec fn of(raw: u16) -> Option<FsState> {
        if raw == 1 {
            Some(FsState::Clean)
        } else if raw == 2 {
            Some(FsState::Errored)
        } else {
            None
        }
    }

    pub fn from_raw(raw: u16) -> (r: Option<FsState>)
        ensures
            r == Self::of(raw),
    {
        if raw == 1 {
            Some(FsState::Clean)
        } else if raw == 2 {
            Some(FsState::Errored)
        } else {
            None
        }
    }
}

/// What a driver is asked to do when it finds an error.
#[derive(Debug, Clone, Copy, PartialEq, Eq, Structural)]
pub enum OnError {
    Ignore,
    RemountReadOnly,
    KernelPanic,
}

impl OnError {
    /// The policy that the on-disk number stands for, if it stands for one.
    pub open spec fn of(raw: u16) -> Option<OnError> {
        if raw == 1 {
            Some(OnError::Ignore)
        } else if raw == 2 {
            Some(OnError::RemountReadOnly)
        } else if raw == 3 {
            Some(OnError::KernelPanic)
        } else {
            None
        }
    }

    pub fn from_raw(raw: u16) -> (r: Option<OnError>)
        ensures
            r == Self::of(raw),
    {
        if raw == 1 {
            Some(OnError::Ignore)
        } else if raw == 2 {
            Some(OnError::RemountReadOnly)
        } else if raw == 3 {
            Some(OnError::KernelPanic)
        } else {
            None
        }
    }
}

/// The operating system that made the volume.
#[derive(Debug, Clone, Copy, PartialEq, Eq, Structural)]
pub enum OsId {
    Linux,
    GnuHurd,
    Masix,
    FreeBSD,
    OtherLite,
}

impl OsId {
    /// The system that the on-disk number stands for, if it stands for one.
    pub open spec fn of(raw: u16) -> Option<OsId> {
        if raw == 0 {
            Some(OsId::Linux)
        } else if raw == 1 {
            Some(OsId::GnuHurd)
        } else if raw == 2 {
            Some(OsId::Masix)
        } else if raw == 3 {
            Some(OsId::FreeBSD)
        } else if raw == 4 {
            Some(OsId::OtherLite)
        } else {
            None
        }
    }

    pub fn from_raw(raw: u16) -> (r: Option<OsId>)
        ensures
            r == Self::of(raw),
    {
        if raw == 0 {
            Some(OsId::Linux)
        } else if raw == 1 {
            Some(OsId::GnuHurd)
        } else if raw == 2 {
            Some(OsId::Masix)
        } else if raw == 3 {
            Some(OsId::FreeBSD)
        } else if raw == 4 {
            Some(OsId::OtherLite)
        } else {
            None
        }
    }
}

/// A 128-bit identifier, kept as its sixteen bytes.
#[derive(Debug, Clone, Copy)]
pub struct Id(pub [u8; 16]);

/// Features a driver may ignore.
#[derive(Debug, Clone, Copy, PartialEq, Eq, Structural)]
pub struct OptionalFeatures(pub u32);

pub const OPTIONAL_PREALLOCATE: u32 = 0x0001;

pub const OPTIONAL_AFS_SERVER: u32 = 0x0002;

pub const OPTIONAL_JOURNALING: u32 = 0x0004;

pub const OPTIONAL_EXTENDED_INODES: u32 = 0x0008;

pub const OPTIONAL_RESIZEABLE: u32 = 0x0010;

pub const OPTIONAL_DIR_HASH_INDEX: u32 = 0x0020;

impl OptionalFeatures {
    pub fn bits(&self) -> (b: u32)
        ensures
            b == self.0,
    {
        self.0
    }

    /// Whether every bit of `mask` is set.
    pub fn contains(&self, mask: u32) -> (r: bool)
        ensures
            r == (self.0 & mask == mask),
    {
        self.0 & mask == mask
    }
}

/// Features a driver must support to read the volume.
#[derive(Debug, Clone, Copy, PartialEq, Eq, Structural)]
pub struct RequiredFeatures(pub u32);

pub const REQUIRED_COMPRESSION: u32 = 0x0001;

pub const REQUIRED_TYPED_DIRECTORY: u32 = 0x0002;

pub const REQUIRED_REPLAY_JOURNAL: u32 = 0x0004;

pub const REQUIRED_JOURNAL: u32 = 0x0008;

impl RequiredFeatures {
    pub fn bits(&self) -> (b: u32)
        ensures
            b == self.0,
    {
        self.0
    }

    /// Whether every bit of `mask` is set.
    pub fn contains(&self, mask: u32) -> (r: bool)
        ensures
            r == (self.0 & mask == mask),
    {
        self.0 & mask == mask
    }
}

/// Features a driver must support to write the volume.
#[derive(Debug, Clone, Copy, PartialEq, Eq, Structural)]
pub struct WriteFeatures(pub u32);

pub const WRITE_SPARSE_SUPERBLOCK_GROUP_DESCRIPTOR_TABLE: u32 = 0x0001;

pub const WRITE_FILE_SIZE_64: u32 = 0x0002;

pub const WRITE_BINARY_TREE_DIRECTORY: u32 = 0x0004;

impl WriteFeatures {
    pub fn bits(&self) -> (b: u32)
        ensures
            b == self.0,
    {
        self.0
    }

    /// Whether every bit of `mask` is set.
    pub fn contains(&self, mask: u32) -> (r: bool)
        ensures
            r == (self.0 & mask == mask),
    {
        self.0 & mask == mask
    }
}

/// Feature bits that this driver has no name for.
#[derive(Debug, Clone, Copy, PartialEq, Eq, Structural)]
pub struct UnsupportedFeatures(pub u32);

/// Where one block group keeps its bitmaps and its inode table.
#[derive(Debug, Clone, Copy)]
pub struct BlockGroupDescriptor {
    pub block_address_of_block_bitmap: u32,
    pub block_address_of_inode_bitmap: u32,
    pub starting_block_of_inode_table: u32,
    pub unallocated_blocks_in_group: u16,
    pub unallocated_inodes_in_group: u16,
    pub number_of_directories_in_group: u16,
    /// The bytes after the named fields, which the format leaves unused.
    pub unused: [u8; 14],
}

impl BlockGroupDescriptor {
    /// `s` is the 32 bytes that store this descriptor.
    pub open spec fn stored_as(&self, s: Seq<u8>) -> bool {
        &&& s.len() == BLOCK_GROUP_DESCRITPOR_SIZE
        &&& self.block_address_of_block_bitmap == u32_at(s, 0)
        &&& self.block_address_of_inode_bitmap == u32_at(s, 4)
        &&& self.starting_block_of_inode_table == u32_at(s, 8)
        &&& self.unallocated_blocks_in_group == u16_at(s, 12)
        &&& self.unallocated_inodes_in_group == u16_at(s, 14)
        &&& self.number_of_directories_in_group == u16_at(s, 16)
        &&& self.unused@ == s.subrange(18, 32)
    }

    /// Reads the descriptor that the first 32 bytes store; `None` when there
    /// are fewer.
    pub fn parse(bytes: &[u8]) -> (r: Option<BlockGroupDescriptor>)
        ensures
            r is Some <==> bytes.len() >= BLOCK_GROUP_DESCRITPOR_SIZE,
            r matches Some(d) ==> d.stored_as(
                bytes@.subrange(0, BLOCK_GROUP_DESCRITPOR_SIZE as int),
            ),
    {
        if bytes.len() < BLOCK_GROUP_DESCRITPOR_SIZE {
            return None;
        }
        let d = BlockGroupDescriptor {
            block_address_of_block_bitmap: get_u32(bytes, 0),
            block_address_of_inode_bitmap: get_u32(bytes, 4),
            starting_block_of_inode_table: get_u32(bytes, 8),
            unallocated_blocks_in_group: get_u16(bytes, 12),
            unallocated_inodes_in_group: get_u16(bytes, 14),
            number_of_directories_in_group: get_u16(bytes, 16),
            unused: get_array::<14>(bytes, 18),
        };
        assert(d.unused@ =~= bytes@.subrange(0, 32).subrange(18, 32));
        Some(d)
    }
}

/// The superblock: the geometry of the volume and its state.
#[derive(Debug, Clone, Copy)]
pub struct Superblock {
    pub inode_count: u32,
    pub block_count: u32,
    pub block_superuser: u32,
    pub unallocated_blocks: u32,
    pub unallocated_inodes: u32,
    pub index_of_superblock: u32,
    pub log_block_size: u32,
    pub log_fragment_size: u32,
    pub block_count_in_group: u32,
    pub fragment_count_in_group: u32,
    pub inode_count_in_group: u32,
    pub last_mounted: u32,
    pub last_written: u32,
    pub number_of_times_mounted_since_last_consitency_check: u16,
    pub number_of_mounts_until_consistency_check: u16,
    pub ext2sig: u16,
    /// The state field as stored; `fs_state` names it.
    pub state: u16,
    /// The error policy as stored; `error_policy` names it.
    pub on_error: u16,
    pub minor_version: u16,
    pub time_since_last_constiency_check: u32,
    pub time_between_forced_consistency_check: u32,
    /// The creator field as stored; `creator` names it.
    pub creator_system_id: u16,
    pub major_version: u32,
    pub user_id_allowed_to_reserve: u16,
    pub group_id_allowed_to_reserve: u16,
}

/// The largest `log_block_size` for which `block_size` fits every `usize`.
pub const MAX_LOG_BLOCK_SIZE: u32 = 21;

impl Superblock {
    /// `s` is the 84 bytes that store this superblock.
    pub open spec fn stored_as(&self, s: Seq<u8>) -> bool {
        &&& s.len() == SUPERBLOCK_SIZE
        &&& self.inode_count == u32_at(s, 0)
        &&& self.block_count == u32_at(s, 4)
        &&& self.block_superuser == u32_at(s, 8)
        &&& self.unallocated_blocks == u32_at(s, 12)
        &&& self.unallocated_inodes == u32_at(s, 16)
        &&& self.index_of_superblock == u32_at(s, 20)
        &&& self.log_block_size == u32_at(s, 24)
        &&& self.log_fragment_size == u32_at(s, 28)
        &&& self.block_count_in_group == u32_at(s, 32)
        &&& self.fragment_count_in_group == u32_at(s, 36)
        &&& self.inode_count_in_group == u32_at(s, 40)
        &&& self.last_mounted == u32_at(s, 44)
        &&& self.last_written == u32_at(s, 48)
        &&& self.number_of_times_mounted_since_last_consitency_check == u16_at(s, 52)
        &&& self.number_of_mounts_until_consistency_check == u16_at(s, 54)
        &&& self.ext2sig == u16_at(s, 56)
        &&& self.state == u16_at(s, 58)
        &&& self.on_error == u16_at(s, 60)
        &&& self.minor_version == u16_at(s, 62)
        &&& self.time_since_last_constiency_check == u32_at(s, 64)
        &&& self.time_between_forced_consistency_check == u32_at(s, 68)
        &&& self.creator_system_id == u16_at(s, 72)
        &&& self.major_version == u32_at(s, 76)
        &&& self.user_id_allowed_to_reserve == u16_at(s, 80)
        &&& self.group_id_allowed_to_reserve == u16_at(s, 82)
    }

    /// Reads the superblock that the first 84 bytes store; `None` when there
    /// are fewer.
    pub fn parse(bytes: &[u8]) -> (r: Option<Superblock>)
        ensures
            r is Some <==> bytes.len() >= SUPERBLOCK_SIZE,
            r matches Some(sb) ==> sb.stored_as(bytes@.subrange(0, SUPERBLOCK_SIZE as int)),
    {
        if bytes.len() < SUPERBLOCK_SIZE {
            return None;
        }
        Some(
            Superblock {
                inode_count: get_u32(bytes, 0),
                block_count: get_u32(bytes, 4),
                block_superuser: get_u32(bytes, 8),
                unallocated_blocks: get_u32(bytes, 12),
                unallocated_inodes: get_u32(bytes, 16),
                index_of_superblock: get_u32(bytes, 20),
                log_block_size: get_u32(bytes, 24),
                log_fragment_size: get_u32(bytes, 28),
                block_count_in_group: get_u32(bytes, 32),
                fragment_count_in_group: get_u32(bytes, 36),
                inode_count_in_group: get_u32(bytes, 40),
                last_mounted: get_u32(bytes, 44),
                last_written: get_u32(bytes, 48),
                number_of_times_mounted_since_last_consitency_check: get_u16(bytes, 52),
                number_of_mounts_until_consistency_check: get_u16(bytes, 54),
                ext2sig: get_u16(bytes, 56),
                state: get_u16(bytes, 58),
                on_error: get_u16(bytes, 60),
                minor_version: get_u16(bytes, 62),
                time_since_last_constiency_check: get_u32(bytes, 64),
                time_between_forced_consistency_check: get_u32(bytes, 68),
                creator_system_id: get_u16(bytes, 72),
                major_version: get_u32(bytes, 76),
                user_id_allowed_to_reserve: get_u16(bytes, 80),
                group_id_allowed_to_reserve: get_u16(bytes, 82),
            },
        )
    }

    /// The block size that `log_block_size` announces: 1024 doubled that many
    /// times.
    pub open spec fn spec_block_size(&self) -> nat {
        1024 * vstd::arithmetic::power2::pow2(self.log_block_size as nat)
    }

    /// The size of a block in bytes.
    pub fn block_size(&self) -> (b: usize)
        requires
            self.log_block_size <= MAX_LOG_BLOCK_SIZE,
        ensures
            b == self.spec_block_size(),
            1024 <= b <= 0x8000_0000,
    {
        let mut b: usize = 1024;
        let mut i: u32 = 0;
        proof {
            vstd::arithmetic::power2::lemma2_to64();
        }
        while i < self.log_block_size
            invariant
                i <= self.log_block_size <= MAX_LOG_BLOCK_SIZE,
                b == 1024 * vstd::arithmetic::power2::pow2(i as nat),
                1024 <= b <= 1024 * vstd::arithmetic::power2::pow2(i as nat),
                vstd::arithmetic::power2::pow2(i as nat) <= vstd::arithmetic::power2::pow2(21),
                vstd::arithmetic::power2::pow2(21) == 0x200000,
            decreases self.log_block_size - i,
        {
            proof {
                vstd::arithmetic::power2::lemma_pow2_unfold((i + 1) as nat);
                if i + 1 < 21 {
                    vstd::arithmetic::power2::lemma_pow2_strictly_increases((i + 1) as nat, 21);
                }
            }
            b = b * 2;
            i = i + 1;
        }
        b
    }

    /// The state of the volume, where the stored number names one.
    pub fn fs_state(&self) -> (r: Option<FsState>)
        ensures
            r == FsState::of(self.state),
    {
        FsState::from_raw(self.state)
    }

    /// The error policy, where the stored number names one.
    pub fn error_policy(&self) -> (r: Option<OnError>)
        ensures
            r == OnError::of(self.on_error),
    {
        OnError::from_raw(self.on_error)
    }

    /// The creating system, where the stored number names one.
    pub fn creator(&self) -> (r: Option<OsId>)
        ensures
            r == OsId::of(self.creator_system_id),
    {
        OsId::from_raw(self.creator_system_id)
    }
}

/// The fields that follow the superblock in volumes of major version 1 and
/// later.
#[derive(Debug, Clone, Copy)]
pub struct ExtendedSuperblock {
    pub first_non_reserved_inode: u32,
    pub inode_struct_size: u16,
    pub part_of_block: u16,
    pub optional_features: OptionalFeatures,
    pub required_features: RequiredFeatures,
    pub write_features: WriteFeatures,
    pub fs_id: Id,
    pub volume_name: [i8; 16],
    pub path_last_mounted_at: [i8; 64],
    pub compression_algorithm: u32,
    pub number_of_blocks_to_preallocate_files: u8,
    pub number_of_blocks_to_preallocate_dirs: u8,
    pub unused: u16,
    pub journal_id: Id,
    pub journal_inode: u32,
    pub journal_device: u32,
    pub head_of_orphan_list: u32,
}

impl ExtendedSuperblock {
    /// `s` is the 152 bytes that store these fields.
    pub open spec fn stored_as(&self, s: Seq<u8>) -> bool {
        &&& s.len() == EXTENDED_FIELDS_SIZE
        &&& self.first_non_reserved_inode == u32_at(s, 0)
        &&& self.inode_struct_size == u16_at(s, 4)
        &&& self.part_of_block == u16_at(s, 6)
        &&& self.optional_features.0 == u32_at(s, 8)
        &&& self.required_features.0 == u32_at(s, 12)
        &&& self.write_features.0 == u32_at(s, 16)
        &&& self.fs_id.0@ == s.subrange(20, 36)
        &&& self.volume_name@ == s.subrange(36, 52).map_values(|b: u8| as_signed(b))
        &&& self.path_last_mounted_at@ == s.subrange(52, 116).map_values(|b: u8| as_signed(b))
        &&& self.compression_algorithm == u32_at(s, 116)
        &&& self.number_of_blocks_to_preallocate_files == s[120]
        &&& self.number_of_blocks_to_preallocate_dirs == s[121]
        &&& self.unused == u16_at(s, 122)
        &&& self.journal_id.0@ == s.subrange(124, 140)
        &&& self.journal_inode == u32_at(s, 140)
        &&& self.journal_device == u32_at(s, 144)
        &&& self.head_of_orphan_list == u32_at(s, 148)
    }

    /// Reads the fields that the first 152 bytes store; `None` when there
    /// are fewer.
    pub fn parse(bytes: &[u8]) -> (r: Option<ExtendedSuperblock>)
        ensures
            r is Some <==> bytes.len() >= EXTENDED_FIELDS_SIZE,
            r matches Some(e) ==> e.stored_as(bytes@.subrange(0, EXTENDED_FIELDS_SIZE as int)),
    {
        if bytes.len() < EXTENDED_FIELDS_SIZE {
            return None;
        }
        let e = ExtendedSuperblock {
            first_non_reserved_inode: get_u32(bytes, 0),
            inode_struct_size: get_u16(bytes, 4),
            part_of_block: get_u16(bytes, 6),
            optional_features: OptionalFeatures(get_u32(bytes, 8)),
            required_features: RequiredFeatures(get_u32(bytes, 12)),
            write_features: WriteFeatures(get_u32(bytes, 16)),
            fs_id: Id(get_array::<16>(bytes, 20)),
            volume_name: get_signed_array::<16>(bytes, 36),
            path_last_mounted_at: get_signed_array::<64>(bytes, 52),
            compression_algorithm: get_u32(bytes, 116),
            number_of_blocks_to_preallocate_files: bytes[120],
            number_of_blocks_to_preallocate_dirs: bytes[121],
            unused: get_u16(bytes, 122),
            journal_id: Id(get_array::<16>(bytes, 124)),
            journal_inode: get_u32(bytes, 140),
            journal_device: get_u32(bytes, 144),
            head_of_orphan_list: get_u32(bytes, 148),
        };
        proof {
            let s = bytes@.subrange(0, 152);
            assert(e.fs_id.0@ =~= s.subrange(20, 36));
            assert(e.journal_id.0@ =~= s.subrange(124, 140));
            assert(bytes@.subrange(36, 52) =~= s.subrange(36, 52));
            assert(bytes@.subrange(52, 116) =~= s.subrange(52, 116));
        }
        Some(e)
    }
}

} // verus!
