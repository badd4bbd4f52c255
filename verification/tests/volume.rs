use rdc2::bitmap::reserve_bit;
use rdc2::directory::DirectoryEntries;
use rdc2::fs::{Ext2Device, Ext2Error, FileSystem, MountError};
use rdc2::inode::{EntryKind, Inode, InodeRef, Permission};
use rdc2::reader::InodeBlocks;

const B: usize = 1024;

fn put16(image: &mut [u8], at: usize, v: u16) {
    image[at..at + 2].copy_from_slice(&v.to_le_bytes());
}

fn put32(image: &mut [u8], at: usize, v: u32) {
    image[at..at + 4].copy_from_slice(&v.to_le_bytes());
}

fn put_entry(image: &mut [u8], at: usize, inode: u32, size: u16, kind: u8, name: &[u8]) {
    put32(image, at, inode);
    put16(image, at + 4, size);
    image[at + 6] = name.len() as u8;
    image[at + 7] = kind;
    image[at + 8..at + 8 + name.len()].copy_from_slice(name);
}

fn inode_at(n: usize) -> usize {
    5 * B + (n - 1) * 128
}

/// A 1 MiB volume with blocks of 1024 bytes and 56 inodes. The root
/// directory holds ".", ".." and "foo"; "foo" is inode 12, a regular file
/// of ten bytes in block 13. Inode 13 is an empty regular file.
fn image() -> Vec<u8> {
    let mut image = vec![0u8; 1024 * B];
    let sb = 1024;
    put32(&mut image, sb, 56);
    put32(&mut image, sb + 4, 1024);
    put32(&mut image, sb + 24, 0);
    put32(&mut image, sb + 32, 8192);
    put32(&mut image, sb + 40, 56);
    put16(&mut image, sb + 56, 0xef53);
    put16(&mut image, sb + 58, 1);
    put16(&mut image, sb + 60, 1);
    put32(&mut image, sb + 76, 1);
    put32(&mut image, sb + 84, 11);
    put16(&mut image, sb + 84 + 4, 128);
    let table = 2 * B;
    put32(&mut image, table, 3);
    put32(&mut image, table + 4, 4);
    put32(&mut image, table + 8, 5);
    // blocks 0 to 13 are in use
    image[3 * B] = 0xff;
    image[3 * B + 1] = 0x3f;
    // inodes 1 to 13 are in use
    image[4 * B] = 0xff;
    image[4 * B + 1] = 0x1f;
    let root = inode_at(2);
    put16(&mut image, root, 0x41ed);
    put32(&mut image, root + 4, 1024);
    put16(&mut image, root + 26, 2);
    put32(&mut image, root + 40, 12);
    let dir = 12 * B;
    put_entry(&mut image, dir, 2, 12, 2, b".");
    put_entry(&mut image, dir + 12, 2, 12, 2, b"..");
    put_entry(&mut image, dir + 24, 12, 1000, 1, b"foo");
    let foo = inode_at(12);
    put16(&mut image, foo, 0x81a4);
    put32(&mut image, foo + 4, 10);
    put16(&mut image, foo + 26, 1);
    put32(&mut image, foo + 40, 13);
    image[13 * B..13 * B + 10].copy_from_slice(b"0123456789");
    let fresh = inode_at(13);
    put16(&mut image, fresh, 0x81a4);
    put16(&mut image, fresh + 26, 1);
    image
}

fn mount() -> FileSystem {
    Ext2Device::from_bytes(image()).open().unwrap()
}

fn names(fs: &FileSystem, dir: &Inode) -> Vec<(u32, u16, EntryKind, Vec<u8>)> {
    let mut entries: DirectoryEntries = dir.get_dir_entries(fs).unwrap();
    let mut found = Vec::new();
    loop {
        match entries.next(fs) {
            Some(e) => found.push((e.inode.0, e.size, e.kind, e.name.to_vec())),
            None => return found,
        }
    }
}

fn read_all(fs: &FileSystem, file: &Inode) -> Vec<u8> {
    let mut cursor = file.cursor(fs).unwrap();
    let mut data = Vec::new();
    let mut buffer = [0u8; 128];
    loop {
        match cursor.read(fs, &mut buffer) {
            0 => return data,
            n => data.extend_from_slice(&buffer[0..n]),
        }
    }
}

#[test]
fn lib_map_test_file() {
    let fs = mount();
    assert_eq!(fs.get_superblock().inode_count, 56);
}

#[test]
fn mount_reads_geometry() {
    let fs = mount();
    assert_eq!(fs.get_superblock().ext2sig, 0xef53);
    assert_eq!(fs.get_superblock().inode_count, 56);
    assert_eq!(fs.block_size(), 1024);
    assert_eq!(fs.get_extended_superblock().inode_struct_size, 128);
    let table = fs.get_block_group_descriptor_table();
    assert_eq!(table.len(), 1);
    assert_eq!(table[0].block_address_of_block_bitmap, 3);
    assert_eq!(table[0].block_address_of_inode_bitmap, 4);
    assert_eq!(table[0].starting_block_of_inode_table, 5);
    assert_eq!(fs.len(), 1024 * B);
}

#[test]
fn mount_finds_table_in_block_1_of_larger_blocks() {
    let mut image = vec![0u8; 16 * 4096];
    put32(&mut image, 1024 + 4, 16);
    put32(&mut image, 1024 + 24, 2);
    put32(&mut image, 1024 + 32, 8);
    put32(&mut image, 1024 + 40, 8);
    put16(&mut image, 1024 + 56, 0xef53);
    put32(&mut image, 1024 + 76, 1);
    put32(&mut image, 4096, 7);
    put32(&mut image, 4096 + 32, 9);
    let fs = Ext2Device::from_bytes(image).open().unwrap();
    assert_eq!(fs.block_size(), 4096);
    let table = fs.get_block_group_descriptor_table();
    assert_eq!(table.len(), 2);
    assert_eq!(table[0].block_address_of_block_bitmap, 7);
    assert_eq!(table[1].block_address_of_block_bitmap, 9);
}

#[test]
fn mount_rounds_the_group_count_up() {
    let mut image = image();
    put32(&mut image, 1024 + 4, 1024);
    put32(&mut image, 1024 + 32, 1000);
    let fs = Ext2Device::from_bytes(image).open().unwrap();
    assert_eq!(fs.get_block_group_descriptor_table().len(), 2);
}

#[test]
fn mount_rejects_short_image() {
    let r = Ext2Device::from_bytes(vec![0u8; 2047]).open();
    assert_eq!(r.err(), Some(MountError::MissingSuperblock));
}

#[test]
fn mount_rejects_bad_signature() {
    let mut image = image();
    put16(&mut image, 1024 + 56, 0xef54);
    let r = Ext2Device::from_bytes(image).open();
    assert_eq!(r.err(), Some(MountError::BadSignature));
}

#[test]
fn mount_rejects_major_version_0() {
    let mut image = image();
    put32(&mut image, 1024 + 76, 0);
    let r = Ext2Device::from_bytes(image).open();
    assert_eq!(r.err(), Some(MountError::UnsupportedVersion));
}

#[test]
fn mount_rejects_bad_geometry() {
    let mut no_blocks = image();
    put32(&mut no_blocks, 1024 + 32, 0);
    assert_eq!(
        Ext2Device::from_bytes(no_blocks).open().err(),
        Some(MountError::BadGeometry)
    );
    let mut huge = image();
    put32(&mut huge, 1024 + 24, 19);
    assert_eq!(
        Ext2Device::from_bytes(huge).open().err(),
        Some(MountError::BadGeometry)
    );
    let mut table_outside = image();
    put32(&mut table_outside, 1024 + 4, 0xffff_ffff);
    put32(&mut table_outside, 1024 + 32, 1);
    assert_eq!(
        Ext2Device::from_bytes(table_outside).open().err(),
        Some(MountError::BadGeometry)
    );
}

#[test]
fn mount_checks_come_in_order() {
    let mut image = image();
    put16(&mut image, 1024 + 56, 0);
    put32(&mut image, 1024 + 76, 0);
    put32(&mut image, 1024 + 32, 0);
    assert_eq!(
        Ext2Device::from_bytes(image).open().err(),
        Some(MountError::BadSignature)
    );
}

#[test]
fn root_is_a_directory_with_dot_entries() {
    let fs = mount();
    assert_eq!(fs.get_superblock().inode_count, 56);
    let root = fs.get_root().unwrap();
    assert_eq!(root.kind(&fs), EntryKind::Directory);
    assert_eq!(root.inode_ref(), InodeRef(2));
    let found = names(&fs, &root);
    assert_eq!(found.len(), 3);
    assert_eq!(found[0], (2, 12, EntryKind::Directory, b".".to_vec()));
    assert_eq!(found[1], (2, 12, EntryKind::Directory, b"..".to_vec()));
    assert_eq!(found[2], (12, 1000, EntryKind::RegularFile, b"foo".to_vec()));
}

#[test]
fn entry_names_are_byte_strings() {
    let fs = mount();
    let root = fs.get_root().unwrap();
    let mut entries = root.get_dir_entries(&fs).unwrap();
    entries.next(&fs);
    entries.next(&fs);
    let foo = entries.next(&fs).unwrap();
    assert!(foo.name == "foo");
    assert_eq!(format!("{}", foo.name), "foo");
    assert!(entries.next(&fs).is_none());
}

#[test]
fn inode_lookup() {
    let fs = mount();
    assert!(fs.get_inode(InodeRef(0)).is_none());
    assert!(fs.get_inode(InodeRef(57)).is_none());
    let foo = fs.get_inode(InodeRef(12)).unwrap();
    assert_eq!(foo.record_offset(), 5 * B + 11 * 128);
    assert_eq!(foo.group_index(), 0);
    assert_eq!(foo.size(&fs), 10);
    assert_eq!(foo.kind(&fs), EntryKind::RegularFile);
    assert_eq!(fs.group_of_inode(InodeRef(56)), Some(0));
    assert_eq!(fs.group_of_inode(InodeRef(57)), Some(1));
    assert_eq!(fs.group_of_inode(InodeRef(0)), None);
    let data = foo.get_data(&fs);
    assert_eq!(data.type_permission.bits(), 0x81a4);
    assert_eq!(data.size_lower_32_bits, 10);
    assert_eq!(data.hard_link_to_inode, 1);
    assert_eq!(data.direct_block_pointers[0], 13);
    assert_eq!(data.direct_block_pointers[1], 0);
}

#[test]
fn block_offsets() {
    let fs = mount();
    assert_eq!(fs.block_offset(0), Some(0));
    assert_eq!(fs.block_offset(13), Some(13 * B));
    assert_eq!(fs.block_offset(1023), Some(1023 * B));
    assert_eq!(fs.block_offset(1024), None);
}

#[test]
fn kind_mismatch_gives_none() {
    let fs = mount();
    let root = fs.get_root().unwrap();
    let foo = fs.get_inode(InodeRef(12)).unwrap();
    assert!(root.cursor(&fs).is_none());
    assert!(root.end(&fs).is_none());
    assert!(foo.get_dir_entries(&fs).is_none());
    assert!(foo.cursor(&fs).is_some());
    assert!(root.get_dir_entries(&fs).is_some());
}

#[test]
fn read_stops_at_the_end_of_the_file() {
    let fs = mount();
    let foo = fs.get_inode(InodeRef(12)).unwrap();
    let mut cursor = foo.cursor(&fs).unwrap();
    let mut buffer = [0xaau8; 20];
    assert_eq!(cursor.read(&fs, &mut buffer), 10);
    assert_eq!(&buffer[0..10], b"0123456789");
    assert_eq!(&buffer[10..], &[0xaau8; 10]);
    assert_eq!(cursor.total_index(), 10);
    assert_eq!(cursor.read(&fs, &mut buffer), 0);
}

#[test]
fn read_fills_a_short_buffer() {
    let fs = mount();
    let foo = fs.get_inode(InodeRef(12)).unwrap();
    let mut cursor = foo.cursor(&fs).unwrap();
    let mut buffer = [0u8; 4];
    assert_eq!(cursor.read(&fs, &mut buffer), 4);
    assert_eq!(&buffer, b"0123");
    assert_eq!(cursor.read(&fs, &mut buffer), 4);
    assert_eq!(&buffer, b"4567");
    assert_eq!(cursor.read(&fs, &mut buffer), 2);
    assert_eq!(&buffer[0..2], b"89");
}

#[test]
fn append_extends_the_file() {
    let mut fs = mount();
    let foo = fs.get_inode(InodeRef(12)).unwrap();
    let mut end = foo.end(&fs).unwrap();
    assert_eq!(end.total_index(), 10);
    assert_eq!(end.write(&mut fs, b"ABC"), Ok(()));
    assert_eq!(foo.size(&fs), 13);
    assert_eq!(read_all(&fs, &foo), b"0123456789ABC");
}

#[test]
fn overwrite_keeps_the_size() {
    let mut fs = mount();
    let foo = fs.get_inode(InodeRef(12)).unwrap();
    let mut cursor = foo.cursor(&fs).unwrap();
    cursor.advance(&fs, 4);
    assert_eq!(cursor.write(&mut fs, b"X"), Ok(()));
    assert_eq!(cursor.total_index(), 5);
    assert_eq!(foo.size(&fs), 10);
    assert_eq!(read_all(&fs, &foo), b"0123X56789");
}

#[test]
fn write_then_read_gives_the_bytes_back() {
    let mut fs = mount();
    let foo = fs.get_inode(InodeRef(12)).unwrap();
    let data: Vec<u8> = (0..3000u32).map(|i| (i % 251) as u8).collect();
    let mut cursor = foo.cursor(&fs).unwrap();
    cursor.advance(&fs, 7);
    assert_eq!(cursor.write(&mut fs, &data), Ok(()));
    assert_eq!(foo.size(&fs), 3007);
    let mut back = foo.cursor(&fs).unwrap();
    back.advance(&fs, 7);
    let mut buffer = vec![0u8; 3000];
    assert_eq!(back.read(&fs, &mut buffer), 3000);
    assert_eq!(buffer, data);
    assert_eq!(&read_all(&fs, &foo)[0..7], b"0123456");
}

#[test]
fn write_allocates_three_blocks_for_2500_bytes() {
    let mut fs = mount();
    let file = fs.get_inode(InodeRef(13)).unwrap();
    assert_eq!(file.size(&fs), 0);
    let data: Vec<u8> = (0..2500u32).map(|i| (i % 256) as u8).collect();
    let mut cursor = file.cursor(&fs).unwrap();
    assert_eq!(cursor.write(&mut fs, &data), Ok(()));
    assert_eq!(file.size(&fs), 2500);
    let record = file.get_data(&fs);
    assert_eq!(&record.direct_block_pointers[0..4], &[14, 15, 16, 0]);
    assert_eq!(fs.image()[3 * B + 1], 0xff);
    assert_eq!(fs.image()[3 * B + 2], 0x01);
    assert_eq!(read_all(&fs, &file), data);
    assert_eq!(&fs.image()[14 * B..14 * B + 1024], &data[0..1024]);
    assert_eq!(&fs.image()[16 * B..16 * B + 452], &data[2048..2500]);
}

#[test]
fn write_fails_beyond_the_twelve_blocks() {
    let mut fs = mount();
    let file = fs.get_inode(InodeRef(13)).unwrap();
    let data = vec![7u8; 12 * B + 1];
    let mut cursor = file.cursor(&fs).unwrap();
    assert_eq!(cursor.write(&mut fs, &data), Err(Ext2Error::FileTooLarge));
    assert_eq!(cursor.total_index(), 12 * 1024);
    assert_eq!(file.size(&fs), 12 * 1024);
}

#[test]
fn write_fails_without_a_free_block() {
    let mut image = image();
    for b in image[3 * B..4 * B].iter_mut() {
        *b = 0xff;
    }
    let mut fs = Ext2Device::from_bytes(image).open().unwrap();
    let file = fs.get_inode(InodeRef(13)).unwrap();
    let mut cursor = file.cursor(&fs).unwrap();
    assert_eq!(cursor.write(&mut fs, b"x"), Err(Ext2Error::NoSpace));
    assert_eq!(file.size(&fs), 0);
}

#[test]
fn write_fails_where_the_free_block_is_outside_the_image() {
    let mut image = image();
    for b in image[3 * B..3 * B + 128].iter_mut() {
        *b = 0xff;
    }
    let mut fs = Ext2Device::from_bytes(image).open().unwrap();
    let file = fs.get_inode(InodeRef(13)).unwrap();
    let mut cursor = file.cursor(&fs).unwrap();
    assert_eq!(cursor.write(&mut fs, b"x"), Err(Ext2Error::OutOfRange));
}

#[test]
fn reserve_block_takes_the_first_clear_bit() {
    let mut fs = mount();
    assert_eq!(fs.reserve_block(0), Ok(14));
    assert_eq!(fs.reserve_block(0), Ok(15));
    assert_eq!(fs.image()[3 * B + 1], 0xff);
    assert_eq!(fs.reserve_block(0), Ok(16));
    assert_eq!(fs.image()[3 * B + 2], 0x01);
    assert_eq!(fs.reserve_block(1), Err(Ext2Error::OutOfRange));
}

#[test]
fn reserve_inode_counts_from_one() {
    let mut fs = mount();
    assert_eq!(fs.reserve_inode(0), Ok(InodeRef(14)));
    assert_eq!(fs.image()[4 * B + 1], 0x3f);
}

#[test]
fn reserve_bit_sets_one_bit() {
    let mut bytes = vec![0xffu8, 0b1011_0111, 0x00, 0xff];
    let before = bytes.clone();
    assert_eq!(reserve_bit(&mut bytes, 0, 4), Some(11));
    assert_eq!(bytes, vec![0xff, 0b1011_1111, 0x00, 0xff]);
    for i in [0usize, 2, 3] {
        assert_eq!(bytes[i], before[i]);
    }
    let mut full = vec![0xffu8; 3];
    assert_eq!(reserve_bit(&mut full, 1, 2), None);
    assert_eq!(full, vec![0xffu8; 3]);
    let mut offset = vec![0x00u8, 0xff, 0x7f];
    assert_eq!(reserve_bit(&mut offset, 1, 2), Some(15));
    assert_eq!(offset, vec![0x00, 0xff, 0xff]);
}

#[test]
fn advance_stops_at_the_end() {
    let fs = mount();
    let foo = fs.get_inode(InodeRef(12)).unwrap();
    let mut cursor = foo.cursor(&fs).unwrap();
    cursor.advance(&fs, 4);
    assert_eq!(cursor.total_index(), 4);
    cursor.advance(&fs, 100);
    assert_eq!(cursor.total_index(), 10);
    cursor.advance(&fs, 1);
    assert_eq!(cursor.total_index(), 10);
}

#[test]
fn advance_after_end_stays_at_size() {
    let fs = mount();
    let foo = fs.get_inode(InodeRef(12)).unwrap();
    for k in [0u32, 1, 9, 10, 11, 4096, u32::MAX] {
        let mut cursor = foo.cursor(&fs).unwrap();
        cursor.advance_to_end(&fs);
        cursor.advance(&fs, k);
        assert_eq!(cursor.total_index(), 10);
    }
}

#[test]
fn align_gives_the_misalignment() {
    let fs = mount();
    let foo = fs.get_inode(InodeRef(12)).unwrap();
    let mut cursor = foo.cursor(&fs).unwrap();
    assert_eq!(cursor.align(4), Some(0));
    assert_eq!(cursor.remain_in_block(), 1024);
    cursor.advance(&fs, 7);
    assert_eq!(cursor.align(4), Some(3));
    assert_eq!(cursor.remain_in_block(), 1017);
    assert_eq!(cursor.align(2000), None);
}

#[test]
fn create_in_dir_splits_the_last_record() {
    let mut fs = mount();
    let root = fs.get_root().unwrap();
    let created = root.create_inode_in_dir(
        &mut fs,
        EntryKind::RegularFile,
        Permission::from_bits_truncate(0o644),
        0,
        0,
        b"bar",
    );
    assert_eq!(created, Ok(Some(InodeRef(14))));
    let found = names(&fs, &root);
    assert_eq!(found.len(), 4);
    assert_eq!(found[0], (2, 12, EntryKind::Directory, b".".to_vec()));
    assert_eq!(found[1], (2, 12, EntryKind::Directory, b"..".to_vec()));
    assert_eq!(found[2], (12, 12, EntryKind::RegularFile, b"foo".to_vec()));
    assert_eq!(found[3], (14, 988, EntryKind::RegularFile, b"bar".to_vec()));
    let total: u32 = found.iter().map(|e| e.1 as u32).sum();
    assert_eq!(total, 1024);
    for e in &found {
        assert_eq!(e.1 % 4, 0);
        assert!(e.1 as usize >= 8 + e.3.len());
    }
    let bar = fs.get_inode(InodeRef(14)).unwrap();
    let record = bar.get_data(&fs);
    assert_eq!(record.type_permission.bits(), 0x8000 | 0o644);
    assert_eq!(record.hard_link_to_inode, 1);
    assert_eq!(record.size_lower_32_bits, 0);
    assert_eq!(record.direct_block_pointers, [0u32; 12]);
    assert_eq!(bar.kind(&fs), EntryKind::RegularFile);
    assert_eq!(fs.image()[4 * B + 1], 0x3f);
}

#[test]
fn create_in_dir_keeps_owner_and_group() {
    let mut fs = mount();
    let root = fs.get_root().unwrap();
    let created = root
        .create_inode_in_dir(&mut fs, EntryKind::Symlink, Permission::all(), 1000, 100, b"link")
        .unwrap()
        .unwrap();
    let record = fs.get_inode(created).unwrap().get_data(&fs);
    assert_eq!(record.type_permission.bits(), 0xa000 | 0o7777);
    assert_eq!(record.user_id, 1000);
    assert_eq!(record.group_id, 100);
    let found = names(&fs, &root);
    assert_eq!(found[3], (14, 988, EntryKind::Symlink, b"link".to_vec()));
}

#[test]
fn create_in_a_file_gives_none() {
    let mut fs = mount();
    let before = fs.image().to_vec();
    let foo = fs.get_inode(InodeRef(12)).unwrap();
    let created = foo.create_inode_in_dir(
        &mut fs,
        EntryKind::RegularFile,
        Permission::empty(),
        0,
        0,
        b"bar",
    );
    assert_eq!(created, Ok(None));
    assert_eq!(fs.image(), &before[..]);
}

#[test]
fn insertion_keeps_the_old_entries() {
    let mut fs = mount();
    let root = fs.get_root().unwrap();
    let before = names(&fs, &root);
    for (i, name) in [&b"a"[..], b"bc", b"def", b"ghij", b"klmno"].iter().enumerate() {
        let created = root
            .create_inode_in_dir(&mut fs, EntryKind::Fifo, Permission::empty(), 0, 0, name)
            .unwrap()
            .unwrap();
        assert_eq!(created, InodeRef(14 + i as u32));
    }
    let after = names(&fs, &root);
    assert_eq!(after.len(), before.len() + 5);
    for (old, new) in before.iter().zip(after.iter()) {
        assert_eq!((old.0, old.2, &old.3), (new.0, new.2, &new.3));
    }
    let listed: Vec<&[u8]> = after.iter().map(|e| &e.3[..]).collect();
    assert_eq!(
        listed,
        vec![&b"."[..], b"..", b"foo", b"a", b"bc", b"def", b"ghij", b"klmno"]
    );
    assert_eq!(after.iter().filter(|e| e.3 == b"def").count(), 1);
    assert_eq!(after.iter().map(|e| e.1 as u32).sum::<u32>(), 1024);
    for e in &after {
        assert_eq!(e.1 % 4, 0);
        assert!(e.1 as usize >= 8 + e.3.len());
    }
}

#[test]
fn add_entry_fails_in_a_full_directory() {
    let mut image = image();
    put_entry(&mut image, 12 * B + 24, 12, 500, 1, &[b'n'; 255]);
    put_entry(&mut image, 12 * B + 524, 13, 500, 1, &[b'm'; 255]);
    let fs_image = image.clone();
    let mut fs = Ext2Device::from_bytes(image).open().unwrap();
    let root = fs.get_root().unwrap();
    let long = [b'x'; 255];
    let mut entries = root.get_dir_entries(&fs).unwrap();
    assert_eq!(
        entries.add_entry(&mut fs, EntryKind::RegularFile, &long, InodeRef(20)),
        Err(Ext2Error::DirectoryFull)
    );
    assert_eq!(fs.image(), &fs_image[..]);
    let mut again = root.get_dir_entries(&fs).unwrap();
    assert_eq!(
        again.add_entry(&mut fs, EntryKind::RegularFile, b"short", InodeRef(20)),
        Ok(())
    );
    let found = names(&fs, &root);
    assert_eq!(found.len(), 5);
    assert_eq!(found[2], (12, 264, EntryKind::RegularFile, vec![b'n'; 255]));
    assert_eq!(found[3], (20, 236, EntryKind::RegularFile, b"short".to_vec()));
    assert_eq!(found[4], (13, 500, EntryKind::RegularFile, vec![b'm'; 255]));
}

#[test]
fn enumeration_stops_at_a_record_of_size_0() {
    let mut image = image();
    put16(&mut image, 12 * B + 24 + 4, 0);
    let fs = Ext2Device::from_bytes(image).open().unwrap();
    let root = fs.get_root().unwrap();
    assert_eq!(names(&fs, &root).len(), 2);
}

#[test]
fn enumeration_stops_at_a_record_shorter_than_its_name() {
    let mut image = image();
    put16(&mut image, 12 * B + 12 + 4, 9);
    let fs = Ext2Device::from_bytes(image).open().unwrap();
    let root = fs.get_root().unwrap();
    assert_eq!(names(&fs, &root).len(), 1);
}

#[test]
fn into_image_gives_the_bytes_back() {
    let mut fs = mount();
    let foo = fs.get_inode(InodeRef(12)).unwrap();
    let mut cursor = foo.cursor(&fs).unwrap();
    cursor.write(&mut fs, b"ab").unwrap();
    let mut expected = image();
    expected[13 * B] = b'a';
    expected[13 * B + 1] = b'b';
    assert_eq!(fs.into_image(), expected);
}

#[test]
fn entry_kind_bytes() {
    for (kind, byte, bits) in [
        (EntryKind::RegularFile, 1u8, 0x8000u16),
        (EntryKind::Directory, 2, 0x4000),
        (EntryKind::CharDevice, 3, 0x2000),
        (EntryKind::BlockDevice, 4, 0x6000),
        (EntryKind::Fifo, 5, 0x1000),
        (EntryKind::Socket, 6, 0xc000),
        (EntryKind::Symlink, 7, 0xa000),
    ] {
        assert_eq!(kind.to_byte(), byte);
        assert_eq!(EntryKind::from_byte(byte), kind);
        assert_eq!(kind.to_typeperm().bits(), bits);
        assert_eq!(kind.to_typeperm().union(Permission::all().to_typeperm()).kind(), kind);
    }
    assert_eq!(EntryKind::from_byte(0), EntryKind::Unkown);
    assert_eq!(EntryKind::from_byte(8), EntryKind::Unkown);
    assert_eq!(EntryKind::Unkown.to_byte(), 0);
}

#[test]
fn handles_belong_to_their_volume() {
    let fs = mount();
    let foo = fs.get_inode(InodeRef(12)).unwrap();
    assert!(foo.is_in(&fs));
    let cursor = foo.cursor(&fs).unwrap();
    assert!(cursor.is_in(&fs));
    let root = fs.get_root().unwrap();
    assert!(root.get_dir_entries(&fs).unwrap().is_in(&fs));
    let mut other = vec![0u8; 16 * 4096];
    put32(&mut other, 1024 + 4, 16);
    put32(&mut other, 1024 + 24, 2);
    put32(&mut other, 1024 + 32, 8);
    put32(&mut other, 1024 + 40, 8);
    put16(&mut other, 1024 + 56, 0xef53);
    put32(&mut other, 1024 + 76, 1);
    put16(&mut other, 1024 + 84 + 4, 128);
    let other = Ext2Device::from_bytes(other).open().unwrap();
    assert!(!foo.is_in(&other));
    assert!(!cursor.is_in(&other));
}

#[test]
fn peek_with_hands_out_the_rest_of_the_block() {
    let fs = mount();
    let foo = fs.get_inode(InodeRef(12)).unwrap();
    let mut cursor = foo.cursor(&fs).unwrap();
    cursor.advance(&fs, 3);
    let seen = cursor.peek_with(&fs, |bytes: &[u8]| Some((bytes[0..2].to_vec(), bytes.len() as u32)));
    assert_eq!(seen, Some((b"34".to_vec(), 1021)));
    assert_eq!(cursor.total_index(), 3);
    let none: Option<((), u32)> = cursor.peek_with(&fs, |_: &[u8]| None);
    assert_eq!(none, None);
}

#[test]
fn read_with_moves_by_what_was_taken() {
    let fs = mount();
    let foo = fs.get_inode(InodeRef(12)).unwrap();
    let mut cursor = foo.cursor(&fs).unwrap();
    let taken = cursor.read_with(&fs, |bytes: &[u8]| Some((bytes[0], 4)));
    assert_eq!(taken, Some((b'0', 4)));
    assert_eq!(cursor.total_index(), 4);
    let next = cursor.read_with(&fs, |bytes: &[u8]| Some((bytes[0], 1)));
    assert_eq!(next, Some((b'4', 1)));
    assert_eq!(cursor.total_index(), 5);
    let fresh = fs.get_inode(InodeRef(13)).unwrap();
    let mut empty = fresh.cursor(&fs).unwrap();
    assert_eq!(empty.read_with(&fs, |bytes: &[u8]| Some((bytes.len(), 1))), None);
    assert_eq!(empty.total_index(), 0);
}

#[test]
fn reader_hands_out_runs_of_the_image() {
    let mut fs = mount();
    let foo = fs.get_inode(InodeRef(12)).unwrap();
    let mut reader = foo.reader(&fs);
    assert_eq!(reader.read(&fs, 4), Some(&b"0123"[..]));
    assert_eq!(reader.read(&fs, 0), Some(&b""[..]));
    assert_eq!(reader.read(&fs, 100), Some(&b"456789"[..]));
    assert_eq!(reader.read(&fs, 100), None);
    let data = vec![9u8; 1500];
    foo.cursor(&fs).unwrap().write(&mut fs, &data).unwrap();
    let mut again = foo.reader(&fs);
    assert_eq!(again.read(&fs, 5000).map(|b| b.len()), Some(1024));
    assert_eq!(again.read(&fs, 5000).map(|b| b.len()), Some(476));
    assert_eq!(again.read(&fs, 5000), None);
}

#[test]
fn inode_blocks_hands_out_twelve_pointers() {
    let fs = mount();
    let foo = fs.get_inode(InodeRef(12)).unwrap();
    let mut blocks = InodeBlocks::new(&foo);
    assert_eq!(blocks.next(&fs), Some(13));
    for _ in 1..12 {
        assert_eq!(blocks.next(&fs), Some(0));
    }
    assert_eq!(blocks.next(&fs), None);
    assert_eq!(blocks.next(&fs), None);
}

#[test]
fn first_free_slot_and_reserve_block() {
    let mut fs = mount();
    let foo = fs.get_inode(InodeRef(12)).unwrap();
    assert_eq!(foo.first_free_slot(&fs), Some(1));
    assert_eq!(foo.reserve_block(&mut fs), Ok(14));
    assert_eq!(foo.block_pointer(&fs, 1), 14);
    assert_eq!(foo.first_free_slot(&fs), Some(2));
    for slot in 2..12 {
        assert_eq!(foo.reserve_block(&mut fs), Ok(13 + slot as u32));
    }
    assert_eq!(foo.first_free_slot(&fs), None);
    let before = fs.image().to_vec();
    assert_eq!(foo.reserve_block(&mut fs), Err(Ext2Error::FileTooLarge));
    assert_eq!(fs.image(), &before[..]);
}

#[test]
fn inode_of_the_second_group() {
    let mut image = vec![0u8; 16 * 4096];
    put32(&mut image, 1024 + 4, 16);
    put32(&mut image, 1024 + 24, 2);
    put32(&mut image, 1024 + 32, 8);
    put32(&mut image, 1024 + 40, 8);
    put16(&mut image, 1024 + 56, 0xef53);
    put32(&mut image, 1024 + 76, 1);
    put16(&mut image, 1024 + 84 + 4, 256);
    put32(&mut image, 4096 + 8, 3);
    put32(&mut image, 4096 + 32 + 8, 11);
    put32(&mut image, 11 * 4096 + 2 * 256 + 4, 77);
    let fs = Ext2Device::from_bytes(image).open().unwrap();
    let first = fs.get_inode(InodeRef(8)).unwrap();
    assert_eq!(first.group_index(), 0);
    assert_eq!(first.record_offset(), 3 * 4096 + 7 * 256);
    let second = fs.get_inode(InodeRef(11)).unwrap();
    assert_eq!(second.group_index(), 1);
    assert_eq!(second.record_offset(), 11 * 4096 + 2 * 256);
    assert_eq!(second.size(&fs), 77);
    assert!(fs.get_inode(InodeRef(17)).is_none());
}

#[test]
fn inode_record_outside_the_image_gives_none() {
    let mut image = image();
    put32(&mut image, 2 * B + 8, 1023);
    let fs = Ext2Device::from_bytes(image).open().unwrap();
    assert!(fs.get_inode(InodeRef(8)).is_some());
    assert!(fs.get_inode(InodeRef(9)).is_none());
    assert!(fs.get_root().is_some());
}

#[test]
fn block_size_is_a_power_of_two() {
    for log in 0..=18u32 {
        let size = 1024usize << log;
        let mut image = vec![0u8; if log == 0 { 2048 + 32 } else { size + 32 }];
        put32(&mut image, 1024 + 4, 1);
        put32(&mut image, 1024 + 24, log);
        put32(&mut image, 1024 + 32, 1);
        put16(&mut image, 1024 + 56, 0xef53);
        put32(&mut image, 1024 + 76, 1);
        let fs = Ext2Device::from_bytes(image).open().unwrap();
        assert_eq!(fs.get_superblock().ext2sig, 0xef53);
        assert_eq!(fs.block_size(), size);
        assert!(fs.block_size().is_power_of_two());
        assert!(fs.block_size() >= 1024);
    }
}

#[test]
fn read_into_an_empty_buffer() {
    let fs = mount();
    let foo = fs.get_inode(InodeRef(12)).unwrap();
    let mut cursor = foo.cursor(&fs).unwrap();
    let mut buffer = [0u8; 0];
    assert_eq!(cursor.read(&fs, &mut buffer), 0);
    assert_eq!(cursor.total_index(), 0);
}

#[test]
fn read_stops_at_a_slot_without_a_block() {
    let mut image = image();
    put32(&mut image, inode_at(12) + 4, 3000);
    let fs = Ext2Device::from_bytes(image).open().unwrap();
    let foo = fs.get_inode(InodeRef(12)).unwrap();
    let mut cursor = foo.cursor(&fs).unwrap();
    let mut buffer = vec![0u8; 3000];
    assert_eq!(cursor.read(&fs, &mut buffer), 1024);
    assert_eq!(&buffer[0..10], b"0123456789");
    assert_eq!(cursor.read(&fs, &mut buffer), 0);
}

#[test]
fn write_crosses_into_an_existing_block() {
    let mut image = image();
    put32(&mut image, inode_at(12) + 4, 2048);
    put32(&mut image, inode_at(12) + 44, 20);
    image[3 * B + 2] = 0x10;
    let mut fs = Ext2Device::from_bytes(image).open().unwrap();
    let foo = fs.get_inode(InodeRef(12)).unwrap();
    let mut cursor = foo.cursor(&fs).unwrap();
    cursor.advance(&fs, 1020);
    assert_eq!(cursor.write(&mut fs, b"abcdefgh"), Ok(()));
    assert_eq!(cursor.total_index(), 1028);
    assert_eq!(foo.size(&fs), 2048);
    assert_eq!(&fs.image()[13 * B + 1020..14 * B], b"abcd");
    assert_eq!(&fs.image()[20 * B..20 * B + 4], b"efgh");
    assert_eq!(foo.block_pointer(&fs, 1), 20);
    assert_eq!(foo.block_pointer(&fs, 2), 0);
}

#[test]
fn reserve_fails_on_a_full_or_missing_bitmap() {
    let mut full = image();
    for b in full[4 * B..5 * B].iter_mut() {
        *b = 0xff;
    }
    let mut fs = Ext2Device::from_bytes(full).open().unwrap();
    assert_eq!(fs.reserve_inode(0), Err(Ext2Error::NoSpace));
    let mut missing = image();
    put32(&mut missing, 2 * B, 5000);
    let before = missing.clone();
    let mut fs = Ext2Device::from_bytes(missing).open().unwrap();
    assert_eq!(fs.reserve_block(0), Err(Ext2Error::OutOfRange));
    assert_eq!(fs.image(), &before[..]);
}

#[test]
fn create_fails_where_the_new_inode_has_no_record() {
    let mut image = image();
    for b in image[4 * B..4 * B + 7].iter_mut() {
        *b = 0xff;
    }
    let mut fs = Ext2Device::from_bytes(image).open().unwrap();
    let root = fs.get_root().unwrap();
    let created = root.create_inode_in_dir(
        &mut fs,
        EntryKind::RegularFile,
        Permission::empty(),
        0,
        0,
        b"bar",
    );
    assert_eq!(created, Err(Ext2Error::OutOfRange));
    assert_eq!(names(&fs, &root).len(), 3);
}

#[test]
fn create_fails_in_a_full_directory() {
    let mut image = image();
    put_entry(&mut image, 12 * B + 24, 12, 1000, 1, &[b'n'; 255]);
    put16(&mut image, 12 * B + 24 + 4, 264);
    put_entry(&mut image, 12 * B + 288, 13, 736, 1, &[b'm'; 255]);
    put16(&mut image, inode_at(2) + 4, 552);
    let mut fs = Ext2Device::from_bytes(image).open().unwrap();
    let root = fs.get_root().unwrap();
    assert_eq!(names(&fs, &root).len(), 3);
    let created = root.create_inode_in_dir(
        &mut fs,
        EntryKind::RegularFile,
        Permission::empty(),
        0,
        0,
        b"bar",
    );
    assert_eq!(created, Err(Ext2Error::DirectoryFull));
}

#[test]
fn permission_bits() {
    assert_eq!(Permission::all().bits(), 0o7777);
    assert_eq!(Permission::empty().bits(), 0);
    assert_eq!(Permission::from_bits_truncate(0xffff).bits(), 0x0fff);
    assert!(Permission::all().contains(Permission::from_bits_truncate(0o644)));
    assert!(!Permission::from_bits_truncate(0o600).contains(Permission::from_bits_truncate(0o644)));
    let mode = EntryKind::Directory.to_typeperm().union(Permission::from_bits_truncate(0o755).to_typeperm());
    assert_eq!(mode.bits(), 0x41ed);
    assert_eq!(mode.kind(), EntryKind::Directory);
    assert_eq!(mode.permission().bits(), 0o755);
    assert!(mode.contains(EntryKind::Directory.to_typeperm()));
}

#[test]
fn collect_hands_out_the_rest_of_the_directory() {
    let fs = mount();
    let root = fs.get_root().unwrap();
    let mut entries = root.get_dir_entries(&fs).unwrap();
    entries.next(&fs);
    let rest = entries.collect(&fs);
    assert_eq!(rest.len(), 2);
    assert!(rest[0].name == "..");
    assert_eq!(rest[0].inode, InodeRef(2));
    assert!(rest[1].name == "foo");
    assert_eq!(rest[1].size, 1000);
    assert_eq!(entries.total_index(), 1024);
    assert!(entries.collect(&fs).is_empty());
    let all = root.get_dir_entries(&fs).unwrap().collect(&fs);
    let listed: Vec<Vec<u8>> = all.iter().map(|e| e.name.to_vec()).collect();
    assert_eq!(listed, names(&fs, &root).into_iter().map(|e| e.3).collect::<Vec<_>>());
}
