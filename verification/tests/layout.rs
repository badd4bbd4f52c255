use rdc2::directory::{RawDirectoryEntry, ENTRY_HEADER_SIZE};
use rdc2::inode::{InodeData, INODE_SIZE};
use rdc2::metadata::{
    BlockGroupDescriptor, ExtendedSuperblock, Superblock, BLOCK_GROUP_DESCRITPOR_SIZE,
    EXTENDED_SUPERBLOCK_SIZE, SUPERBLOCK_SIZE,
};

#[test]
fn lib_block_descriptor_size() {
    assert_eq!(
        core::mem::size_of::<BlockGroupDescriptor>(),
        BLOCK_GROUP_DESCRITPOR_SIZE
    )
}

#[test]
fn lib_superblock_size() {
    assert_eq!(core::mem::size_of::<Superblock>(), SUPERBLOCK_SIZE)
}

#[test]
fn lib_extended_superblock_size() {
    assert_eq!(
        core::mem::size_of::<ExtendedSuperblock>() + 1023 - 236,
        EXTENDED_SUPERBLOCK_SIZE
    )
}

#[test]
fn metadata_block_descriptor_size() {
    assert_eq!(
        core::mem::size_of::<BlockGroupDescriptor>(),
        BLOCK_GROUP_DESCRITPOR_SIZE
    )
}

#[test]
fn metadata_superblock_size() {
    assert_eq!(core::mem::size_of::<Superblock>(), SUPERBLOCK_SIZE)
}

#[test]
fn metadata_extended_superblock_size() {
    assert_eq!(
        core::mem::size_of::<ExtendedSuperblock>() + 1023 - 236,
        EXTENDED_SUPERBLOCK_SIZE
    )
}

#[test]
fn inode_record_size() {
    assert_eq!(core::mem::size_of::<InodeData>(), INODE_SIZE)
}

#[test]
fn superblock_parse_reads_little_endian_fields() {
    let mut bytes = vec![0u8; 84];
    bytes[0] = 56;
    bytes[4] = 0x00;
    bytes[5] = 0x04;
    bytes[24] = 2;
    bytes[56] = 0x53;
    bytes[57] = 0xef;
    bytes[58] = 1;
    bytes[60] = 3;
    bytes[72] = 3;
    bytes[76] = 1;
    let sb = Superblock::parse(&bytes).unwrap();
    assert_eq!(sb.inode_count, 56);
    assert_eq!(sb.block_count, 1024);
    assert_eq!(sb.log_block_size, 2);
    assert_eq!(sb.ext2sig, 0xef53);
    assert_eq!(sb.major_version, 1);
    assert_eq!(sb.block_size(), 4096);
    assert_eq!(sb.fs_state(), Some(rdc2::metadata::FsState::Clean));
    assert_eq!(sb.error_policy(), Some(rdc2::metadata::OnError::KernelPanic));
    assert_eq!(sb.creator(), Some(rdc2::metadata::OsId::FreeBSD));
}

#[test]
fn superblock_parse_needs_84_bytes() {
    assert!(Superblock::parse(&[0u8; 83]).is_none());
    assert!(Superblock::parse(&[0u8; 84]).is_some());
}

#[test]
fn descriptor_parse_reads_fields() {
    let mut bytes = vec![0u8; 32];
    bytes[0] = 3;
    bytes[4] = 4;
    bytes[8] = 5;
    bytes[9] = 1;
    bytes[12] = 0xff;
    bytes[13] = 0x01;
    bytes[18] = 7;
    let d = BlockGroupDescriptor::parse(&bytes).unwrap();
    assert_eq!(d.block_address_of_block_bitmap, 3);
    assert_eq!(d.block_address_of_inode_bitmap, 4);
    assert_eq!(d.starting_block_of_inode_table, 261);
    assert_eq!(d.unallocated_blocks_in_group, 511);
    assert_eq!(d.unused[0], 7);
    assert!(BlockGroupDescriptor::parse(&bytes[..31]).is_none());
}

#[test]
fn extended_superblock_parse_reads_fields() {
    let mut bytes = vec![0u8; 152];
    bytes[0] = 11;
    bytes[4] = 128;
    bytes[20] = 0xab;
    bytes[36] = b'v';
    bytes[37] = 0xff;
    bytes[120] = 8;
    bytes[148] = 9;
    let e = ExtendedSuperblock::parse(&bytes).unwrap();
    assert_eq!(e.first_non_reserved_inode, 11);
    assert_eq!(e.inode_struct_size, 128);
    assert_eq!(e.fs_id.0[0], 0xab);
    assert_eq!(e.volume_name[0], b'v' as i8);
    assert_eq!(e.volume_name[1], -1);
    assert_eq!(e.number_of_blocks_to_preallocate_files, 8);
    assert_eq!(e.head_of_orphan_list, 9);
    assert!(ExtendedSuperblock::parse(&bytes[..151]).is_none());
}

#[test]
fn directory_record_header_size() {
    assert_eq!(core::mem::size_of::<RawDirectoryEntry>(), ENTRY_HEADER_SIZE)
}

#[test]
fn inode_parse_reads_fields() {
    let mut bytes = vec![0u8; 128];
    bytes[0] = 0xa4;
    bytes[1] = 0x81;
    bytes[2] = 0xe8;
    bytes[3] = 0x03;
    bytes[4] = 10;
    bytes[24] = 100;
    bytes[26] = 1;
    bytes[40] = 13;
    bytes[84] = 0x01;
    bytes[85] = 0x02;
    bytes[88] = 9;
    bytes[127] = 0x7f;
    let d = InodeData::parse(&bytes).unwrap();
    assert_eq!(d.type_permission.bits(), 0x81a4);
    assert_eq!(d.user_id, 1000);
    assert_eq!(d.size_lower_32_bits, 10);
    assert_eq!(d.group_id, 100);
    assert_eq!(d.hard_link_to_inode, 1);
    assert_eq!(d.direct_block_pointers[0], 13);
    assert_eq!(d.direct_block_pointers[11], 0x0201);
    assert_eq!(d.singly_indirect_block_pointer, 9);
    assert_eq!(d.os_specific_two[11], 0x7f);
    assert!(InodeData::parse(&bytes[..127]).is_none());
}
