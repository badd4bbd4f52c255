//! Creation and enumeration: what the creation of an inode in a directory
//! does to the records of the directory and to the record of the new inode.

use vstd::prelude::*;
use crate::bitmap::first_clear;
use crate::bytes::{splice, u16_at, u32_at};
use crate::cursor::lemma_position;
use crate::directory::{fresh_inode_record, lemma_fresh_inode_record, EntryView, ENTRY_HEADER_SIZE, MAX_NAME_LEN};
use crate::frame::{agree_outside, apart, lemma_agree_widen, lemma_record_outside, lemma_reserve_one_bit, lemma_splice_frame};
use crate::fs::{lemma_block_range, FsView};
use crate::inode::{lemma_kind_and_permission, EntryKind, InodeRef, BLOCKS_OFFSET, DIRECT_BLOCKS, INODE_SIZE, PERMISSION_MASK, SIZE_OFFSET};
use crate::insertion::{lemma_entry_after, lemma_find_room, lemma_insert_then_enumerate, lemma_split_shape};

verus! {

impl FsView {
    /// The number of the block that holds the inode bitmap of `group`.
    pub open spec fn inode_bitmap(self, group: int) -> int {
        self.descriptors[group].block_address_of_inode_bitmap as int
    }

    /// The bytes `lo..hi` hold nothing of the directory whose record
    /// starts at `rec`: no byte of its record, and no byte of a block that
    /// it has within the image.
    pub open spec fn clear_of_dir(self, rec: int, lo: int, hi: int) -> bool {
        &&& apart(rec, rec + INODE_SIZE, lo, hi)
        &&& forall|s: int|
            0 <= s < DIRECT_BLOCKS && self.holds_block(#[trigger] self.block_pointer(rec, s) as int)
                && self.block_pointer(rec, s) != 0 ==> apart(
                self.block_start(self.block_pointer(rec, s) as int),
                self.block_start(self.block_pointer(rec, s) as int) + self.block_size,
                lo,
                hi,
            )
    }

    /// Every position of the directory holds in `w` what it holds in this
    /// volume.
    pub open spec fn same_records(self, w: FsView, rec: int) -> bool {
        &&& w.file_size(rec) == self.file_size(rec)
        &&& forall|x: int| 0 <= x ==> #[trigger] w.entry_at(rec, x) == self.entry_at(rec, x)
        &&& forall|x: int|
            0 <= x && #[trigger] self.entry_at(rec, x) ==> {
                &&& w.address(rec, x) == self.address(rec, x)
                &&& w.raw_entry(w.address(rec, x)) == self.raw_entry(self.address(rec, x))
                &&& w.entry(w.address(rec, x)) == self.entry(self.address(rec, x))
            }
    }
}

/// A field of a run of bytes that was stored in the image is worth in the
/// image what it is worth in the run.
pub proof fn lemma_stored_fields(s: Seq<u8>, at: int, data: Seq<u8>, k: int)
    requires
        0 <= at,
        at + data.len() <= s.len(),
        0 <= k,
    ensures
        k + 2 <= data.len() ==> u16_at(splice(s, at, data), at + k) == u16_at(data, k),
        k + 4 <= data.len() ==> u32_at(splice(s, at, data), at + k) == u32_at(data, k),
{
}

/// Bytes that change where the directory has nothing leave a position of
/// the directory holding what it held.
pub proof fn lemma_position_kept(v: FsView, w: FsView, rec: int, lo: int, hi: int, x: int)
    requires
        v.wf(),
        v.changed_within(w, rec, lo, hi),
        v.clear_of_dir(rec, lo, hi),
        0 <= x,
    ensures
        w.entry_at(rec, x) == v.entry_at(rec, x),
        v.entry_at(rec, x) ==> w.address(rec, x) == v.address(rec, x),
        v.entry_at(rec, x) ==> w.raw_entry(w.address(rec, x)) == v.raw_entry(v.address(rec, x)),
        v.entry_at(rec, x) ==> w.entry(w.address(rec, x)) == v.entry(v.address(rec, x)),
{
    let size = v.block_size;
    lemma_position(size, x);
    if v.mapped(rec, x) {
        let b = v.block_pointer(rec, x / size) as int;
        lemma_block_range(size, b, b);
    }
    lemma_entry_after(v, w, rec, lo, hi, x);
}

/// Bytes that change where the directory has nothing leave every record
/// of the directory as it was.
pub proof fn lemma_records_outside(v: FsView, w: FsView, rec: int, lo: int, hi: int)
    requires
        v.wf(),
        v.same_volume(w),
        agree_outside(v.image, w.image, lo, hi),
        0 <= rec,
        rec + INODE_SIZE <= v.image.len(),
        v.clear_of_dir(rec, lo, hi),
    ensures
        v.changed_within(w, rec, lo, hi),
        v.same_records(w, rec),
        w.clear_of_dir(rec, lo, hi),
        v.own_blocks(rec) ==> w.own_blocks(rec),
{
    lemma_record_outside(v, w, lo, hi, rec);
    assert forall|x: int| 0 <= x implies #[trigger] w.entry_at(rec, x) == v.entry_at(rec, x) by {
        lemma_position_kept(v, w, rec, lo, hi, x);
    }
    assert forall|x: int| 0 <= x && #[trigger] v.entry_at(rec, x) implies w.address(rec, x)
        == v.address(rec, x) && w.raw_entry(w.address(rec, x)) == v.raw_entry(v.address(rec, x))
        && w.entry(w.address(rec, x)) == v.entry(v.address(rec, x)) by {
        lemma_position_kept(v, w, rec, lo, hi, x);
    }
    assert forall|s: int|
        0 <= s < DIRECT_BLOCKS && w.holds_block(#[trigger] w.block_pointer(rec, s) as int)
            && w.block_pointer(rec, s) != 0 implies apart(
        w.block_start(w.block_pointer(rec, s) as int),
        w.block_start(w.block_pointer(rec, s) as int) + w.block_size,
        lo,
        hi,
    ) by {
        assert(w.block_pointer(rec, s) == v.block_pointer(rec, s));
    }
    if v.own_blocks(rec) {
        assert forall|s: int|
            0 <= s < DIRECT_BLOCKS && w.holds_block(#[trigger] w.block_pointer(rec, s) as int)
                && w.block_pointer(rec, s) != 0 implies w.block_apart(
            w.block_pointer(rec, s) as int,
            rec,
        ) by {
            assert(w.block_pointer(rec, s) == v.block_pointer(rec, s));
        }
        assert forall|s: int, t: int|
            0 <= s < DIRECT_BLOCKS && 0 <= t < DIRECT_BLOCKS && s != t && w.block_pointer(rec, s)
                != 0 implies #[trigger] w.block_pointer(rec, s) != #[trigger] w.block_pointer(
            rec,
            t,
        ) by {
            assert(w.block_pointer(rec, s) == v.block_pointer(rec, s));
            assert(w.block_pointer(rec, t) == v.block_pointer(rec, t));
        }
    }
}

/// Where every position holds the same, an enumeration hands out the same.
pub proof fn lemma_same_entries(v: FsView, w: FsView, rec: int, x: int)
    requires
        v.same_records(w, rec),
        0 <= x,
    ensures
        w.entries_from(rec, x) == v.entries_from(rec, x),
    decreases v.file_size(rec) - x,
{
    assert(w.entry_at(rec, x) == v.entry_at(rec, x));
    if v.entry_at(rec, x) {
        lemma_same_entries(v, w, rec, x + v.entry_size(rec, x));
    }
}

/// Where every position holds the same, an enumeration hands out the same
/// before any position.
pub proof fn lemma_same_entries_upto(v: FsView, w: FsView, rec: int, x: int, q: int)
    requires
        v.same_records(w, rec),
        0 <= x,
    ensures
        w.entries_upto(rec, x, q) == v.entries_upto(rec, x, q),
    decreases v.file_size(rec) - x,
{
    assert(w.entry_at(rec, x) == v.entry_at(rec, x));
    if x < q && v.entry_at(rec, x) {
        lemma_same_entries_upto(v, w, rec, x + v.entry_size(rec, x), q);
    }
}

/// Where every position holds the same, the same record has the room for
/// a new one.
pub proof fn lemma_same_room(v: FsView, w: FsView, rec: int, x: int, need: int)
    requires
        v.same_volume(w),
        v.same_records(w, rec),
        0 <= x,
    ensures
        w.find_room(rec, x, need) == v.find_room(rec, x, need),
    decreases v.file_size(rec) - x,
{
    assert(w.entry_at(rec, x) == v.entry_at(rec, x));
    if v.entry_at(rec, x) && !v.room_at(rec, x, need) {
        lemma_same_room(v, w, rec, x + v.entry_size(rec, x), need);
    }
}

/// Holding the same at every position carries over from one change to
/// the next.
pub proof fn lemma_same_records_twice(v: FsView, r: FsView, w: FsView, rec: int)
    requires
        v.same_records(r, rec),
        r.same_records(w, rec),
    ensures
        v.same_records(w, rec),
{
    assert forall|x: int| 0 <= x implies #[trigger] w.entry_at(rec, x) == v.entry_at(rec, x) by {
        assert(r.entry_at(rec, x) == v.entry_at(rec, x));
    }
    assert forall|x: int| 0 <= x && #[trigger] v.entry_at(rec, x) implies w.address(rec, x)
        == v.address(rec, x) && w.raw_entry(w.address(rec, x)) == v.raw_entry(v.address(rec, x))
        && w.entry(w.address(rec, x)) == v.entry(v.address(rec, x)) by {
        assert(r.entry_at(rec, x) == v.entry_at(rec, x));
    }
}

impl FsView {
    /// The volume after an inode was reserved in `group` and its record
    /// written, as the creation of an inode does before it inserts the
    /// record that names the inode.
    pub open spec fn with_new_inode(self, group: int, mode: u16, user_id: u16, group_id: u16) -> FsView {
        let reserved = self.reserve_inode(group).0;
        let number = self.reserve_inode(group).1->Ok_0;
        reserved.with_image(
            splice(
                reserved.image,
                reserved.inode_record(number)->Some_0,
                fresh_inode_record(mode, user_id, group_id),
            ),
        )
    }
}

/// Reserving an inode and writing its record, where neither the inode
/// bitmap nor the record holds anything of a directory, leaves the records
/// of the directory as they were. The inode has the number of the first
/// clear bit plus one, and its record stores what it was made with, size
/// 0 and no block.
pub proof fn lemma_inode_made(
    v: FsView,
    rec: int,
    group: int,
    mode: u16,
    user_id: u16,
    group_id: u16,
)
    requires
        v.wf(),
        v.own_blocks(rec),
        v.reserve_inode(group).1 is Ok,
        v.reserve_inode(group).0.inode_record(v.reserve_inode(group).1->Ok_0) is Some,
        v.clear_of_dir(
            rec,
            v.block_start(v.inode_bitmap(group)),
            v.block_start(v.inode_bitmap(group)) + v.block_size,
        ),
        v.clear_of_dir(
            rec,
            v.inode_record(v.reserve_inode(group).1->Ok_0)->Some_0,
            v.inode_record(v.reserve_inode(group).1->Ok_0)->Some_0 + INODE_SIZE,
        ),
    ensures
        ({
            let w = v.with_new_inode(group, mode, user_id, group_id);
            let number = v.reserve_inode(group).1->Ok_0;
            let at = v.inode_record(number)->Some_0;
            &&& v.same_volume(w)
            &&& v.same_records(w, rec)
            &&& w.own_blocks(rec)
            &&& w.clear_of_dir(rec, at, at + INODE_SIZE)
            &&& v.reserve_inode(group).0.inode_record(number) == Some(at)
            &&& 0 <= at
            &&& at + INODE_SIZE <= v.image.len()
            &&& 1 <= number <= u32::MAX
            &&& first_clear(
                v.image,
                v.block_start(v.inode_bitmap(group)),
                8 * v.block_size,
            ) == Some(number - 1)
            &&& w.mode(at) == mode
            &&& w.file_size(at) == 0
            &&& forall|s: int| 0 <= s < DIRECT_BLOCKS ==> #[trigger] w.block_pointer(at, s) == 0
        }),
{
    let size = v.block_size;
    let bitmap = v.inode_bitmap(group);
    let base = v.block_start(bitmap);
    let reserved = v.reserve_inode(group).0;
    let number = v.reserve_inode(group).1->Ok_0;
    lemma_reserve_one_bit(v, bitmap);
    let bit = number - 1;
    lemma_block_range(size, bitmap, bitmap);
    lemma_agree_widen(v.image, reserved.image, base + bit / 8, base + bit / 8 + 1, base, base + size);
    lemma_records_outside(v, reserved, rec, base, base + size);
    let at = v.inode_record(number)->Some_0;
    assert(reserved.inode_record(number) == v.inode_record(number));
    let fresh = fresh_inode_record(mode, user_id, group_id);
    lemma_fresh_inode_record(mode, user_id, group_id);
    let w = v.with_new_inode(group, mode, user_id, group_id);
    assert(0 <= at) by {
        let g = v.group_of(number);
        lemma_block_range(
            size,
            v.descriptors[g].starting_block_of_inode_table as int,
            v.descriptors[g].starting_block_of_inode_table as int,
        );
        assert(v.index_in_group(number) * v.extended.inode_struct_size >= 0) by (nonlinear_arith)
            requires
                v.index_in_group(number) >= 0,
                v.extended.inode_struct_size >= 0,
        ;
    }
    lemma_splice_frame(reserved.image, at, fresh);
    assert(reserved.clear_of_dir(rec, at, at + INODE_SIZE)) by {
        assert forall|s: int|
            0 <= s < DIRECT_BLOCKS && reserved.holds_block(
                #[trigger] reserved.block_pointer(rec, s) as int,
            ) && reserved.block_pointer(rec, s) != 0 implies apart(
            reserved.block_start(reserved.block_pointer(rec, s) as int),
            reserved.block_start(reserved.block_pointer(rec, s) as int) + reserved.block_size,
            at,
            at + INODE_SIZE,
        ) by {
            assert(reserved.block_pointer(rec, s) == v.block_pointer(rec, s));
        }
    }
    lemma_records_outside(reserved, w, rec, at, at + INODE_SIZE);
    lemma_same_records_twice(v, reserved, w, rec);
    lemma_stored_fields(reserved.image, at, fresh, 0);
    lemma_stored_fields(reserved.image, at, fresh, SIZE_OFFSET as int);
    assert forall|s: int| 0 <= s < DIRECT_BLOCKS implies #[trigger] w.block_pointer(at, s) == 0 by {
        lemma_stored_fields(reserved.image, at, fresh, BLOCKS_OFFSET + 4 * s);
    }
}

/// A split in a directory changes nothing of an inode whose record holds
/// nothing of the directory.
pub proof fn lemma_split_spares(
    v: FsView,
    rec: int,
    q: int,
    inode: u32,
    kind: EntryKind,
    name: Seq<u8>,
    at: int,
)
    requires
        v.wf(),
        v.own_blocks(rec),
        0 <= q,
        name.len() <= MAX_NAME_LEN,
        v.entry_at(rec, q),
        v.room_at(rec, q, ENTRY_HEADER_SIZE + name.len()),
        0 <= at,
        at + INODE_SIZE <= v.image.len(),
        v.clear_of_dir(rec, at, at + INODE_SIZE),
    ensures
        ({
            let w = v.split_at(rec, q, inode, kind, name);
            &&& w.mode(at) == v.mode(at)
            &&& w.file_size(at) == v.file_size(at)
            &&& forall|s: int|
                0 <= s < DIRECT_BLOCKS ==> #[trigger] w.block_pointer(at, s) == v.block_pointer(
                    at,
                    s,
                )
        }),
{
    let size = v.block_size;
    let w = v.split_at(rec, q, inode, kind, name);
    lemma_split_shape(v, rec, q, inode, kind, name);
    let b = v.block_pointer(rec, q / size) as int;
    lemma_position(size, q);
    lemma_block_range(size, b, b);
    lemma_agree_widen(
        v.image,
        w.image,
        v.address(rec, q) + 4,
        v.address(rec, q) + v.entry_size(rec, q),
        v.block_start(b),
        v.block_start(b) + size,
    );
    lemma_record_outside(v, w, v.block_start(b), v.block_start(b) + size, at);
}

/// Where every position of a directory holds the same in two volumes, the
/// insertion of a record finds the same record to split and leaves the
/// same records to hand out.
pub proof fn lemma_same_insertion(
    v: FsView,
    w: FsView,
    rec: int,
    inode: u32,
    kind: EntryKind,
    name: Seq<u8>,
)
    requires
        v.same_volume(w),
        v.same_records(w, rec),
        w.find_room(rec, 0, ENTRY_HEADER_SIZE + name.len()) is Some,
    ensures
        ({
            let q = w.find_room(rec, 0, ENTRY_HEADER_SIZE + name.len())->Some_0;
            &&& v.find_room(rec, 0, ENTRY_HEADER_SIZE + name.len()) == Some(q)
            &&& w.entries_upto(rec, 0, q) == v.entries_upto(rec, 0, q)
            &&& w.entry_size(rec, q) == v.entry_size(rec, q)
            &&& w.shrunk_entry(rec, q) == v.shrunk_entry(rec, q)
            &&& w.added_entry(rec, q, inode, kind, name) == v.added_entry(rec, q, inode, kind, name)
            &&& w.entries_from(rec, q + w.entry_size(rec, q)) == v.entries_from(
                rec,
                q + v.entry_size(rec, q),
            )
        }),
{
    let need = ENTRY_HEADER_SIZE + name.len();
    let q = w.find_room(rec, 0, need)->Some_0;
    lemma_same_room(v, w, rec, 0, need);
    lemma_find_room(w, rec, 0, need);
    lemma_same_entries_upto(v, w, rec, 0, q);
    assert(w.entry_at(rec, q) == v.entry_at(rec, q));
    assert(v.entry_at(rec, q));
    lemma_same_entries(v, w, rec, q + v.entry_size(rec, q));
}

/// Create an inode in a directory whose blocks are its own, where neither
/// the inode bitmap of the group nor the record of the new inode holds
/// anything of the directory. The number of the new inode is one more
/// than the first clear bit of the inode bitmap. Its record stores the
/// kind and permissions it was made with, size 0 and no block. A fresh
/// enumeration hands out what it handed out before, with the record that
/// was split at the size it kept and the new record behind it.
pub proof fn lemma_create_then_enumerate(
    v: FsView,
    rec: int,
    group: int,
    kind: EntryKind,
    perms: u16,
    user_id: u16,
    group_id: u16,
    name: Seq<u8>,
)
    requires
        v.wf(),
        v.own_blocks(rec),
        name.len() <= MAX_NAME_LEN,
        perms <= PERMISSION_MASK,
        v.create_in_dir(rec, group, kind, perms, user_id, group_id, name).result matches Ok(
            Some(_),
        ),
        v.clear_of_dir(
            rec,
            v.block_start(v.inode_bitmap(group)),
            v.block_start(v.inode_bitmap(group)) + v.block_size,
        ),
        v.clear_of_dir(
            rec,
            v.inode_record(v.reserve_inode(group).1->Ok_0)->Some_0,
            v.inode_record(v.reserve_inode(group).1->Ok_0)->Some_0 + INODE_SIZE,
        ),
    ensures
        ({
            let o = v.create_in_dir(rec, group, kind, perms, user_id, group_id, name);
            let w = o.view;
            let n = o.result->Ok_0->Some_0;
            let at = v.inode_record(n.0 as int)->Some_0;
            let q = v.find_room(rec, 0, ENTRY_HEADER_SIZE + name.len())->Some_0;
            &&& v.same_volume(w)
            &&& first_clear(
                v.image,
                v.block_start(v.inode_bitmap(group)),
                8 * v.block_size,
            ) == Some(n.0 - 1)
            &&& w.kind(at) == kind
            &&& w.mode(at) == kind.type_bits() | perms
            &&& w.file_size(at) == 0
            &&& forall|s: int| 0 <= s < DIRECT_BLOCKS ==> #[trigger] w.block_pointer(at, s) == 0
            &&& w.entries_from(rec, 0) == v.entries_upto(rec, 0, q) + seq![
                v.shrunk_entry(rec, q),
                v.added_entry(rec, q, n.0, kind, name),
            ] + v.entries_from(rec, q + v.entry_size(rec, q))
        }),
{
    let need = ENTRY_HEADER_SIZE + name.len();
    let mode = kind.type_bits() | perms;
    let number = v.reserve_inode(group).1->Ok_0;
    let at = v.inode_record(number)->Some_0;
    let made = v.with_new_inode(group, mode, user_id, group_id);
    lemma_inode_made(v, rec, group, mode, user_id, group_id);
    let o = made.add_entry(rec, 0, number as u32, kind, name);
    assert(v.create_in_dir(rec, group, kind, perms, user_id, group_id, name).view == o.view);
    assert(o.result is Ok);
    let q = made.find_room(rec, 0, need)->Some_0;
    lemma_find_room(made, rec, 0, need);
    lemma_insert_then_enumerate(made, rec, 0, number as u32, kind, name);
    lemma_same_insertion(v, made, rec, number as u32, kind, name);
    lemma_split_spares(made, rec, q, number as u32, kind, name, at);
    lemma_kind_and_permission(kind, perms);
}

} // verus!
