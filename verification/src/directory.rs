//! Directories: the records that name the children of a directory, their
//! enumeration, and the insertion of a new record into the spare room of
//! an old one.

use vstd::prelude::*;
use bstr::BStr;
use bstr::ByteSlice;
use crate::bytes::{put_u16, splice, u16_at, u16_bytes, u32_at, u32_bytes};
use crate::cursor::{lemma_position, lemma_within_block, padding_for, Cursor};
use crate::fs::{Ext2Error, FileSystem, FsView};
use crate::inode::{EntryKind, Inode, InodeRef, Permission, GROUP_OFFSET, INODE_SIZE, LINKS_OFFSET, MODE_OFFSET, USER_OFFSET};

verus! {

/// Bytes that the fixed part of a directory record takes: the inode
/// number, the size of the record, the length of the name and the kind.
pub const ENTRY_HEADER_SIZE: usize = 8;

/// The longest name a directory record can hold.
pub const MAX_NAME_LEN: usize = 255;

/// The boundary that directory records start on.
pub const ENTRY_ALIGNMENT: u32 = 4;

/// `bstr::BStr`: a run of bytes that compares and prints as text.
/// Verification sees nothing inside it but what `bstr_bytes` names.
#[verifier::external_type_specification]
#[verifier::external_body]
pub struct ExBStr(BStr);

/// The bytes of a byte string, in order.
pub uninterp spec fn bstr_bytes(name: &BStr) -> Seq<u8>;

/// `bstr::ByteSlice::as_bstr` on a slice of bytes: the same bytes, seen as
/// a byte string. The crate makes the string by a cast of the reference, so
/// nothing is copied or changed.
#[verifier::external_body]
fn as_name(bytes: &[u8]) -> (name: &BStr)
    ensures
        bstr_bytes(name) == bytes@,
{
    bytes.as_bstr()
}

/// The fixed part of a directory record.
#[derive(Debug, Clone, Copy)]
pub struct RawDirectoryEntry {
    pub inode: InodeRef,
    pub size: u16,
    pub name_len: u8,
    pub kind: EntryKind,
}

/// One child of a directory, as enumeration hands it out. The name is
/// borrowed from the image.
#[derive(Debug)]
pub struct DirectoryEntry<'fs> {
    pub inode: InodeRef,
    pub size: u16,
    pub kind: EntryKind,
    pub name: &'fs BStr,
}

/// What contracts know of a directory record.
pub struct EntryView {
    pub inode: InodeRef,
    pub size: u16,
    pub kind: EntryKind,
    pub name: Seq<u8>,
}

impl<'fs> View for DirectoryEntry<'fs> {
    type V = EntryView;

    open spec fn view(&self) -> EntryView {
        EntryView { inode: self.inode, size: self.size, kind: self.kind, name: bstr_bytes(self.name) }
    }
}

/// The eight bytes that store the fixed part of a record.
pub open spec fn header_bytes(inode: u32, size: u16, name_len: u8, kind: u8) -> Seq<u8> {
    u32_bytes(inode) + u16_bytes(size) + seq![name_len, kind]
}

impl FsView {
    /// The fixed part of the record that starts at byte `at` of the image.
    pub open spec fn raw_entry(self, at: int) -> RawDirectoryEntry {
        RawDirectoryEntry {
            inode: InodeRef(u32_at(self.image, at)),
            size: u16_at(self.image, at + 4),
            name_len: self.image[at + 6],
            kind: EntryKind::of_byte(self.image[at + 7]),
        }
    }

    /// The record that starts at byte `at` of the image.
    pub open spec fn entry(self, at: int) -> EntryView {
        EntryView {
            inode: self.raw_entry(at).inode,
            size: self.raw_entry(at).size,
            kind: self.raw_entry(at).kind,
            name: self.image.subrange(
                at + ENTRY_HEADER_SIZE,
                at + ENTRY_HEADER_SIZE + self.raw_entry(at).name_len,
            ),
        }
    }

    /// The size of the record at position `p` of the directory.
    pub open spec fn entry_size(self, rec: int, p: int) -> int {
        self.raw_entry(self.address(rec, p)).size as int
    }

    /// Position `p` of the directory whose record starts at `rec` holds a
    /// record: the position has a block, and the size of the record is at
    /// least its header and name, reaches neither beyond the block nor
    /// beyond the end of the directory.
    pub open spec fn entry_at(self, rec: int, p: int) -> bool {
        &&& self.mapped(rec, p)
        &&& self.entry_size(rec, p) >= ENTRY_HEADER_SIZE + self.raw_entry(
            self.address(rec, p),
        ).name_len
        &&& p % self.block_size + self.entry_size(rec, p) <= self.block_size
        &&& p + self.entry_size(rec, p) <= self.file_size(rec)
    }

    /// The records of the directory from position `p` on, in order, up to
    /// the first position that holds none.
    pub open spec fn entries_from(self, rec: int, p: int) -> Seq<EntryView>
        decreases self.file_size(rec) - p,
    {
        if self.entry_at(rec, p) {
            seq![self.entry(self.address(rec, p))] + self.entries_from(
                rec,
                p + self.entry_size(rec, p),
            )
        } else {
            Seq::empty()
        }
    }

    /// The first position from `p` on that holds no record.
    pub open spec fn entries_end(self, rec: int, p: int) -> int
        decreases self.file_size(rec) - p,
    {
        if self.entry_at(rec, p) {
            self.entries_end(rec, p + self.entry_size(rec, p))
        } else {
            p
        }
    }

    /// The bytes that the record at position `p` keeps when it is split:
    /// its header, its name, and what brings the next record to a multiple
    /// of four bytes from the start of the block.
    pub open spec fn kept_size(self, rec: int, p: int) -> int {
        let used = ENTRY_HEADER_SIZE + self.raw_entry(self.address(rec, p)).name_len;
        used + padding_for((p % self.block_size + used) % 4, 4)
    }

    /// The record at position `p` has room to spare for a record of `need`
    /// bytes.
    pub open spec fn room_at(self, rec: int, p: int, need: int) -> bool {
        self.entry_size(rec, p) - self.kept_size(rec, p) >= need
    }

    /// The position of the first record from `p` on with room to spare for
    /// a record of `need` bytes.
    pub open spec fn find_room(self, rec: int, p: int, need: int) -> Option<int>
        decreases self.file_size(rec) - p,
    {
        if !self.entry_at(rec, p) {
            None
        } else if self.room_at(rec, p, need) {
            Some(p)
        } else {
            self.find_room(rec, p + self.entry_size(rec, p), need)
        }
    }

    /// The volume after the record at position `p` was split: that record
    /// keeps `kept_size` bytes, and a new record with the given inode, kind
    /// and name takes the rest of its room.
    #[verifier::opaque]
    pub open spec fn split_at(self, rec: int, p: int, inode: u32, kind: EntryKind, name: Seq<u8>) -> FsView {
        let at = self.address(rec, p);
        let keep = self.kept_size(rec, p);
        let rest = self.entry_size(rec, p) - keep;
        let shrunk = splice(self.image, at + 4, u16_bytes(keep as u16));
        let headed = splice(
            shrunk,
            at + keep,
            header_bytes(inode, rest as u16, name.len() as u8, kind.byte()),
        );
        self.with_image(splice(headed, at + keep + ENTRY_HEADER_SIZE, name))
    }
}

/// What an insertion leaves behind: the volume, the position of the
/// enumeration, and whether the record was inserted.
pub struct InsertOutcome {
    pub view: FsView,
    pub position: int,
    pub result: Result<(), Ext2Error>,
}

/// What the creation of an inode leaves behind: the volume, and the number
/// of the new inode.
pub struct CreateOutcome {
    pub view: FsView,
    pub result: Result<Option<InodeRef>, Ext2Error>,
}

/// The record of a new inode: the given `type_permission`, owner and
/// group, one hard link, and 0 in every other byte, so that the file is
/// empty and has no block.
pub open spec fn fresh_inode_record(mode: u16, user_id: u16, group_id: u16) -> Seq<u8> {
    splice(
        splice(
            splice(
                splice(Seq::new(INODE_SIZE as nat, |i: int| 0u8), MODE_OFFSET as int, u16_bytes(mode)),
                USER_OFFSET as int,
                u16_bytes(user_id),
            ),
            GROUP_OFFSET as int,
            u16_bytes(group_id),
        ),
        LINKS_OFFSET as int,
        u16_bytes(1),
    )
}

/// The record of a new inode stores the `type_permission`, the owner and
/// the group it was made with and one hard link; its size is 0 and none
/// of its twelve slots holds a block.
pub proof fn lemma_fresh_inode_record(mode: u16, user_id: u16, group_id: u16)
    ensures
        fresh_inode_record(mode, user_id, group_id).len() == INODE_SIZE,
        u16_at(fresh_inode_record(mode, user_id, group_id), MODE_OFFSET as int) == mode,
        u16_at(fresh_inode_record(mode, user_id, group_id), USER_OFFSET as int) == user_id,
        u16_at(fresh_inode_record(mode, user_id, group_id), GROUP_OFFSET as int) == group_id,
        u16_at(fresh_inode_record(mode, user_id, group_id), LINKS_OFFSET as int) == 1,
        u32_at(fresh_inode_record(mode, user_id, group_id), crate::inode::SIZE_OFFSET as int) == 0,
        forall|s: int|
            0 <= s < crate::inode::DIRECT_BLOCKS ==> #[trigger] u32_at(
                fresh_inode_record(mode, user_id, group_id),
                crate::inode::BLOCKS_OFFSET + 4 * s,
            ) == 0,
{
}

impl FsView {
    /// What the insertion of a record does, for an enumeration that stands
    /// at position `p`. The records from `p` on are tried in order, and
    /// the first with room to spare is split. Where none has room, nothing
    /// changes and the enumeration ends up behind the last record.
    pub open spec fn add_entry(self, rec: int, p: int, inode: u32, kind: EntryKind, name: Seq<u8>) -> InsertOutcome {
        match self.find_room(rec, p, ENTRY_HEADER_SIZE + name.len()) {
            None => InsertOutcome {
                view: self,
                position: self.entries_end(rec, p),
                result: Err(Ext2Error::DirectoryFull),
            },
            Some(q) => InsertOutcome {
                view: self.split_at(rec, q, inode, kind, name),
                position: q + self.kept_size(rec, q) + ENTRY_HEADER_SIZE + name.len(),
                result: Ok(()),
            },
        }
    }

    /// What the creation of an inode in the directory whose record starts
    /// at `rec` does. In an inode that is no directory nothing happens.
    /// Else an inode is reserved in `group`, its record is written, and a
    /// record that names it is inserted into the directory, in this order;
    /// the steps made before a failure stay.
    pub open spec fn create_in_dir(
        self,
        rec: int,
        group: int,
        kind: EntryKind,
        perms: u16,
        user_id: u16,
        group_id: u16,
        name: Seq<u8>,
    ) -> CreateOutcome {
        if self.kind(rec) != EntryKind::Directory {
            CreateOutcome { view: self, result: Ok(None) }
        } else {
            let (reserved, r) = self.reserve_inode(group);
            match r {
                Err(e) => CreateOutcome { view: reserved, result: Err(e) },
                Ok(n) => match reserved.inode_record(n) {
                    None => CreateOutcome { view: reserved, result: Err(Ext2Error::OutOfRange) },
                    Some(at) => {
                        let written = reserved.with_image(
                            splice(
                                reserved.image,
                                at,
                                fresh_inode_record(kind.type_bits() | perms, user_id, group_id),
                            ),
                        );
                        let o = written.add_entry(rec, 0, n as u32, kind, name);
                        CreateOutcome {
                            view: o.view,
                            result: match o.result {
                                Ok(_) => Ok(Some(InodeRef(n as u32))),
                                Err(e) => Err(e),
                            },
                        }
                    },
                },
            }
        }
    }
}

/// The records of a directory, read one after the other.
#[derive(Debug, Clone, Copy)]
pub struct DirectoryEntries {
    reader: Cursor,
}

impl DirectoryEntries {
    /// The cursor that walks the records.
    pub closed spec fn reader(&self) -> Cursor {
        self.reader
    }

    /// The inode of the directory.
    pub open spec fn inode(&self) -> Inode {
        self.reader().inode()
    }

    /// The position of the next record, in bytes from the start of the
    /// directory.
    pub open spec fn position(&self) -> u32 {
        self.reader().position()
    }

    /// The enumeration is one of a directory of this volume.
    pub open spec fn wf(&self, v: FsView) -> bool {
        self.reader().wf(v)
    }

    /// Whether the enumeration is one of a directory of this volume.
    pub fn is_in(&self, fs: &FileSystem) -> (b: bool)
        requires
            fs.wf(),
        ensures
            b == self.wf(fs@),
    {
        self.reader.is_in(fs)
    }

    /// The position of the next record.
    pub fn total_index(&self) -> (p: u32)
        ensures
            p == self.position(),
    {
        self.reader.total_index()
    }

    /// An enumeration that starts at the first record of `inode`.
    pub(crate) fn new(inode: &Inode, fs: &FileSystem) -> (r: DirectoryEntries)
        requires
            fs.wf(),
            inode.wf(fs@),
        ensures
            r.wf(fs@),
            r.inode() == *inode,
            r.position() == 0,
    {
        DirectoryEntries { reader: Cursor::new(inode, fs) }
    }

    /// The fixed part of the record at the position and the byte of the
    /// image where it starts, where the position holds a record.
    fn peek(&self, fs: &FileSystem) -> (r: Option<(RawDirectoryEntry, usize)>)
        requires
            fs.wf(),
            self.wf(fs@),
        ensures
            r is Some <==> fs@.entry_at(self.inode().record() as int, self.position() as int),
            r matches Some((raw, at)) ==> {
                &&& at == fs@.address(self.inode().record() as int, self.position() as int)
                &&& raw == fs@.raw_entry(at as int)
                &&& at + raw.size <= fs@.image.len()
            },
    {
        let position: u32 = self.reader.total_index();
        let end: u32 = self.reader.handle().size(fs);
        let (at, remain) = match self.reader.get_ptr(fs) {
            Some(found) => found,
            None => {
                return None;
            },
        };
        if remain < ENTRY_HEADER_SIZE as u32 {
            return None;
        }
        let raw = RawDirectoryEntry {
            inode: InodeRef(fs.read_u32(at)),
            size: fs.read_u16(at + 4),
            name_len: fs.read_u8(at + 6),
            kind: EntryKind::from_byte(fs.read_u8(at + 7)),
        };
        if (raw.size as u32) < ENTRY_HEADER_SIZE as u32 + raw.name_len as u32 {
            return None;
        }
        if raw.size as u32 > remain {
            return None;
        }
        if position as u64 + raw.size as u64 > end as u64 {
            return None;
        }
        Some((raw, at))
    }

    /// Hands out the record at the position and moves to the next. `None`,
    /// with the position unchanged, where the position holds no record.
    pub fn next<'a>(&mut self, fs: &'a FileSystem) -> (r: Option<DirectoryEntry<'a>>)
        requires
            fs.wf(),
            old(self).wf(fs@),
        ensures
            final(self).wf(fs@),
            final(self).inode() == old(self).inode(),
            r is Some <==> fs@.entry_at(
                old(self).inode().record() as int,
                old(self).position() as int,
            ),
            r matches Some(e) ==> {
                &&& e@ == fs@.entry(
                    fs@.address(old(self).inode().record() as int, old(self).position() as int),
                )
                &&& final(self).position() == old(self).position() + e.size
            },
            r is None ==> final(self).position() == old(self).position(),
    {
        let (raw, at) = match self.peek(fs) {
            Some(found) => found,
            None => {
                return None;
            },
        };
        let name = fs.bytes_at(at + ENTRY_HEADER_SIZE, raw.name_len as usize);
        self.reader.advance(fs, raw.size as u32);
        Some(DirectoryEntry { inode: raw.inode, size: raw.size, kind: raw.kind, name: as_name(name) })
    }
}

impl DirectoryEntries {
    /// Hands out all the records from the position on, in order, and
    /// leaves the enumeration behind the last.
    pub fn collect<'a>(&mut self, fs: &'a FileSystem) -> (r: Vec<DirectoryEntry<'a>>)
        requires
            fs.wf(),
            old(self).wf(fs@),
        ensures
            final(self).wf(fs@),
            final(self).inode() == old(self).inode(),
            r@.map_values(|e: DirectoryEntry<'a>| e@) == fs@.entries_from(
                old(self).inode().record() as int,
                old(self).position() as int,
            ),
            final(self).position() == fs@.entries_end(
                old(self).inode().record() as int,
                old(self).position() as int,
            ),
    {
        let ghost rec = self.inode().record() as int;
        let ghost first = self.position() as int;
        let mut found: Vec<DirectoryEntry<'a>> = Vec::new();
        assert(found@.map_values(|e: DirectoryEntry<'a>| e@) =~= Seq::<EntryView>::empty());
        loop
            invariant
                fs.wf(),
                self.wf(fs@),
                self.inode() == old(self).inode(),
                rec == self.inode().record() as int,
                first == old(self).position(),
                fs@.entries_from(rec, first) == found@.map_values(|e: DirectoryEntry<'a>| e@)
                    + fs@.entries_from(rec, self.position() as int),
                fs@.entries_end(rec, first) == fs@.entries_end(rec, self.position() as int),
            decreases fs@.file_size(rec) - self.position(),
        {
            let ghost before = found@.map_values(|e: DirectoryEntry<'a>| e@);
            let ghost here = self.position() as int;
            match self.next(fs) {
                Some(entry) => {
                    let ghost view = entry@;
                    found.push(entry);
                    proof {
                        let after = found@.map_values(|e: DirectoryEntry<'a>| e@);
                        assert(after =~= before + seq![view]);
                        assert(before + (seq![view] + fs@.entries_from(
                            rec,
                            self.position() as int,
                        )) =~= after + fs@.entries_from(rec, self.position() as int));
                    }
                },
                None => {
                    proof {
                        assert(before + Seq::<EntryView>::empty() =~= before);
                    }
                    return found;
                },
            }
        }
    }
}

/// The eight bytes that store the fixed part of a record.
fn header(inode: u32, size: u16, name_len: u8, kind: u8) -> (bytes: Vec<u8>)
    ensures
        bytes@ == header_bytes(inode, size, name_len, kind),
{
    let mut bytes: Vec<u8> = Vec::new();
    bytes.push((inode % 256) as u8);
    bytes.push((inode / 256 % 256) as u8);
    bytes.push((inode / 65536 % 256) as u8);
    bytes.push((inode / 16777216) as u8);
    bytes.push((size % 256) as u8);
    bytes.push((size / 256) as u8);
    bytes.push(name_len);
    bytes.push(kind);
    assert(bytes@ =~= header_bytes(inode, size, name_len, kind));
    bytes
}

/// The record of a new inode.
fn fresh_record(mode: u16, user_id: u16, group_id: u16) -> (bytes: Vec<u8>)
    ensures
        bytes@ == fresh_inode_record(mode, user_id, group_id),
{
    let mut bytes: Vec<u8> = Vec::new();
    let mut i: usize = 0;
    while i < INODE_SIZE
        invariant
            i <= INODE_SIZE,
            bytes.len() == i,
            forall|j: int| 0 <= j < i ==> bytes@[j] == 0u8,
        decreases INODE_SIZE - i,
    {
        bytes.push(0u8);
        i = i + 1;
    }
    assert(bytes@ =~= Seq::new(INODE_SIZE as nat, |i: int| 0u8));
    put_u16(&mut bytes, MODE_OFFSET, mode);
    put_u16(&mut bytes, USER_OFFSET, user_id);
    put_u16(&mut bytes, GROUP_OFFSET, group_id);
    put_u16(&mut bytes, LINKS_OFFSET, 1);
    bytes
}

impl DirectoryEntries {
    /// The bytes that the record at the position keeps if it is split to
    /// make room for a record of `need` bytes; `None` where the record has
    /// not that much room to spare.
    fn room(&self, raw: &RawDirectoryEntry, need: u16, Ghost(v): Ghost<FsView>) -> (r: Option<u16>)
        requires
            v.wf(),
            self.wf(v),
            v.entry_at(self.inode().record() as int, self.position() as int),
            *raw == v.raw_entry(v.address(self.inode().record() as int, self.position() as int)),
            need >= ENTRY_HEADER_SIZE,
        ensures
            r is Some <==> v.room_at(
                self.inode().record() as int,
                self.position() as int,
                need as int,
            ),
            r matches Some(keep) ==> keep == v.kept_size(
                self.inode().record() as int,
                self.position() as int,
            ),
    {
        let position: u32 = self.reader.total_index();
        let used: u16 = raw.name_len as u16 + ENTRY_HEADER_SIZE as u16;
        let padding_size: u16 = raw.size - used;
        proof {
            lemma_position(v.block_size, position as int);
        }
        if padding_size < need {
            return None;
        }
        proof {
            lemma_within_block(v.block_size, position as int, used as int);
        }
        let probe = self.reader.at(position + used as u32);
        match probe.align(ENTRY_ALIGNMENT) {
            Some(misalign) => {
                let correction: u16 = if misalign == 0 {
                    0
                } else {
                    (ENTRY_ALIGNMENT - misalign) as u16
                };
                let remaining_padding: u16 = padding_size - correction;
                if remaining_padding < need {
                    None
                } else {
                    Some(used + correction)
                }
            },
            None => None,
        }
    }

    /// Splits the record at the position, which starts at byte `at` of
    /// the image: it keeps `keep` bytes, and a new record takes the rest.
    fn split(
        &mut self,
        fs: &mut FileSystem,
        at: usize,
        raw: &RawDirectoryEntry,
        keep: u16,
        kind: EntryKind,
        name: &[u8],
        inode: InodeRef,
    )
        requires
            old(fs).wf(),
            old(self).wf(old(fs)@),
            name.len() <= MAX_NAME_LEN,
            at == old(fs)@.address(
                old(self).inode().record() as int,
                old(self).position() as int,
            ),
            *raw == old(fs)@.raw_entry(at as int),
            at + raw.size <= old(fs)@.image.len(),
            old(self).position() + raw.size <= u32::MAX,
            keep == old(fs)@.kept_size(
                old(self).inode().record() as int,
                old(self).position() as int,
            ),
            keep + ENTRY_HEADER_SIZE + name.len() <= raw.size,
        ensures
            final(fs).wf(),
            final(self).wf(final(fs)@),
            final(self).inode() == old(self).inode(),
            old(fs)@.same_volume(final(fs)@),
            final(fs)@ == old(fs)@.split_at(
                old(self).inode().record() as int,
                old(self).position() as int,
                inode.0,
                kind,
                name@,
            ),
            final(self).position() == old(self).position() + keep + ENTRY_HEADER_SIZE + name.len(),
    {
        let position: u32 = self.reader.total_index();
        let fixed = header(inode.0, raw.size - keep, name.len() as u8, kind.to_byte());
        fs.write_u16(at + 4, keep);
        fs.write_bytes(at + keep as usize, fixed.as_slice(), 0, ENTRY_HEADER_SIZE);
        fs.write_bytes(at + keep as usize + ENTRY_HEADER_SIZE, name, 0, name.len());
        proof {
            reveal(FsView::split_at);
            assert(fixed@.subrange(0, ENTRY_HEADER_SIZE as int) =~= fixed@);
            assert(name@.subrange(0, name.len() as int) =~= name@);
        }
        self.reader = self.reader.at(
            position + keep as u32 + ENTRY_HEADER_SIZE as u32 + name.len() as u32,
        );
    }

    /// Inserts a record with the given kind, name and inode number into
    /// the first record from the position on that has room to spare for
    /// it, and leaves the enumeration behind the new name. Fails, with
    /// nothing changed, where no record has the room.
    pub fn add_entry(
        &mut self,
        fs: &mut FileSystem,
        kind: EntryKind,
        name: &[u8],
        inode: InodeRef,
    ) -> (r: Result<(), Ext2Error>)
        requires
            old(fs).wf(),
            old(self).wf(old(fs)@),
            name.len() <= MAX_NAME_LEN,
            kind != EntryKind::Unkown,
        ensures
            final(fs).wf(),
            final(self).wf(final(fs)@),
            final(self).inode() == old(self).inode(),
            old(fs)@.same_volume(final(fs)@),
            final(fs)@ == old(fs)@.add_entry(
                old(self).inode().record() as int,
                old(self).position() as int,
                inode.0,
                kind,
                name@,
            ).view,
            final(self).position() == old(fs)@.add_entry(
                old(self).inode().record() as int,
                old(self).position() as int,
                inode.0,
                kind,
                name@,
            ).position,
            r == old(fs)@.add_entry(
                old(self).inode().record() as int,
                old(self).position() as int,
                inode.0,
                kind,
                name@,
            ).result,
    {
        let ghost rec = self.reader.inode().record() as int;
        let ghost first = self.reader.position() as int;
        let new_entry_size: u16 = (name.len() + ENTRY_HEADER_SIZE) as u16;
        loop
            invariant
                fs.wf(),
                self.wf(fs@),
                fs@ == old(fs)@,
                self.inode() == old(self).inode(),
                rec == self.inode().record() as int,
                first == old(self).position(),
                name.len() <= MAX_NAME_LEN,
                new_entry_size == name.len() + ENTRY_HEADER_SIZE,
                fs@.find_room(rec, first, new_entry_size as int) == fs@.find_room(
                    rec,
                    self.position() as int,
                    new_entry_size as int,
                ),
                fs@.entries_end(rec, first) == fs@.entries_end(rec, self.position() as int),
            decreases fs@.file_size(rec) - self.position(),
        {
            let (raw, at) = match self.peek(fs) {
                Some(found) => found,
                None => {
                    return Err(Ext2Error::DirectoryFull);
                },
            };
            match self.room(&raw, new_entry_size, Ghost(fs@)) {
                Some(keep) => {
                    self.split(fs, at, &raw, keep, kind, name, inode);
                    return Ok(());
                },
                None => {
                    self.reader.advance(fs, raw.size as u32);
                },
            }
        }
    }
}

impl Inode {
    /// Creates an inode of the given kind in this directory: reserves an
    /// inode in the group of the directory, writes its record, and inserts
    /// a record with its number and `name` into the directory. `Ok(None)`,
    /// with nothing changed, where this inode is no directory.
    pub fn create_inode_in_dir(
        &self,
        fs: &mut FileSystem,
        kind: EntryKind,
        perms: Permission,
        user_id: u16,
        group_id: u16,
        name: &[u8],
    ) -> (r: Result<Option<InodeRef>, Ext2Error>)
        requires
            old(fs).wf(),
            self.wf(old(fs)@),
            kind != EntryKind::Directory,
            kind != EntryKind::Unkown,
            name.len() <= MAX_NAME_LEN,
        ensures
            final(fs).wf(),
            self.wf(final(fs)@),
            old(fs)@.same_volume(final(fs)@),
            final(fs)@ == old(fs)@.create_in_dir(
                self.record() as int,
                self.group() as int,
                kind,
                perms.0,
                user_id,
                group_id,
                name@,
            ).view,
            r == old(fs)@.create_in_dir(
                self.record() as int,
                self.group() as int,
                kind,
                perms.0,
                user_id,
                group_id,
                name@,
            ).result,
    {
        match self.kind(fs) {
            EntryKind::Directory => {},
            _ => {
                return Ok(None);
            },
        }
        let new_inode_ref: InodeRef = match fs.reserve_inode(self.group_index()) {
            Ok(n) => n,
            Err(e) => {
                return Err(e);
            },
        };
        let inode: Inode = match fs.get_inode(new_inode_ref) {
            Some(i) => i,
            None => {
                return Err(Ext2Error::OutOfRange);
            },
        };
        let mode = kind.to_typeperm().union(perms.to_typeperm());
        let record = fresh_record(mode.bits(), user_id, group_id);
        assert(record@.subrange(0, INODE_SIZE as int) =~= record@);
        fs.write_bytes(inode.record_offset(), record.as_slice(), 0, INODE_SIZE);
        let mut entries = DirectoryEntries::new(self, fs);
        match entries.add_entry(fs, kind, name, new_inode_ref) {
            Ok(()) => Ok(Some(new_inode_ref)),
            Err(e) => Err(e),
        }
    }
}

impl Inode {
    /// An enumeration of the records of a directory, from the first on;
    /// `None` for an inode of another kind.
    pub fn get_dir_entries(&self, fs: &FileSystem) -> (r: Option<DirectoryEntries>)
        requires
            fs.wf(),
            self.wf(fs@),
        ensures
            r is Some <==> fs@.kind(self.record() as int) == EntryKind::Directory,
            r matches Some(d) ==> d.wf(fs@) && d.inode() == *self && d.position() == 0,
    {
        match self.kind(fs) {
            EntryKind::Directory => Some(DirectoryEntries::new(self, fs)),
            _ => None,
        }
    }
}

} // verus!
