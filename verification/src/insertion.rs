//! Insertion and enumeration: what splitting a record does to the records
//! that an enumeration of the directory hands out.

use vstd::prelude::*;
use crate::bytes::{splice, u16_at, u16_bytes, u32_at, u32_bytes};
use crate::cursor::{lemma_position, lemma_within_block};
use crate::directory::{header_bytes, EntryView, ENTRY_HEADER_SIZE, MAX_NAME_LEN};
use crate::frame::{agree_outside, apart, lemma_agree_widen, lemma_blocks_apart, lemma_record_outside, lemma_splice_frame, lemma_u16_outside, lemma_u32_outside};
use crate::fs::{lemma_block_range, FsView};
use crate::inode::{EntryKind, InodeRef, DIRECT_BLOCKS, INODE_SIZE};

verus! {

/// A 32-bit field whose bytes are those that store `v` is worth `v`.
pub proof fn lemma_u32_of_bytes(s: Seq<u8>, at: int, v: u32)
    requires
        s[at] == u32_bytes(v)[0],
        s[at + 1] == u32_bytes(v)[1],
        s[at + 2] == u32_bytes(v)[2],
        s[at + 3] == u32_bytes(v)[3],
    ensures
        u32_at(s, at) == v,
{
}

/// A 16-bit field whose bytes are those that store `v` is worth `v`.
pub proof fn lemma_u16_of_bytes(s: Seq<u8>, at: int, v: u16)
    requires
        s[at] == u16_bytes(v)[0],
        s[at + 1] == u16_bytes(v)[1],
    ensures
        u16_at(s, at) == v,
{
}

/// Every kind is the kind that its byte stands for.
pub proof fn lemma_kind_byte(kind: EntryKind)
    ensures
        EntryKind::of_byte(kind.byte()) == kind,
{
}

impl FsView {
    /// The blocks of the directory whose record starts at `rec` are its
    /// own: the record lies within the image, none of the blocks that the
    /// directory has within the image holds a byte of the record, and no
    /// two slots name the same block.
    pub open spec fn own_blocks(self, rec: int) -> bool {
        &&& 0 <= rec
        &&& rec + INODE_SIZE <= self.image.len()
        &&& forall|s: int|
            0 <= s < DIRECT_BLOCKS && self.holds_block(#[trigger] self.block_pointer(rec, s) as int)
                && self.block_pointer(rec, s) != 0 ==> self.block_apart(
                self.block_pointer(rec, s) as int,
                rec,
            )
        &&& forall|s: int, t: int|
            0 <= s < DIRECT_BLOCKS && 0 <= t < DIRECT_BLOCKS && s != t && self.block_pointer(rec, s)
                != 0 ==> #[trigger] self.block_pointer(rec, s) != #[trigger] self.block_pointer(
                rec,
                t,
            )
    }

    /// The record that a split leaves at position `q`: the old one with
    /// the size it keeps.
    pub open spec fn shrunk_entry(self, rec: int, q: int) -> EntryView {
        EntryView {
            size: self.kept_size(rec, q) as u16,
            ..self.entry(self.address(rec, q))
        }
    }

    /// The record that a split at position `q` adds.
    pub open spec fn added_entry(self, rec: int, q: int, inode: u32, kind: EntryKind, name: Seq<u8>) -> EntryView {
        EntryView {
            inode: InodeRef(inode),
            size: (self.entry_size(rec, q) - self.kept_size(rec, q)) as u16,
            kind,
            name,
        }
    }
}

/// What a split does at the record that is split: that record keeps its
/// inode, kind and name and has the size it keeps, the new record follows
/// it and reaches to where the old one reached, and nothing changes but
/// bytes of the old record after its inode number.
pub proof fn lemma_split_shape(
    v: FsView,
    rec: int,
    q: int,
    inode: u32,
    kind: EntryKind,
    name: Seq<u8>,
)
    requires
        v.wf(),
        v.own_blocks(rec),
        0 <= q,
        name.len() <= MAX_NAME_LEN,
        v.entry_at(rec, q),
        v.room_at(rec, q, ENTRY_HEADER_SIZE + name.len()),
    ensures
        ({
            let w = v.split_at(rec, q, inode, kind, name);
            let at = v.address(rec, q);
            let keep = v.kept_size(rec, q);
            &&& v.same_volume(w)
            &&& agree_outside(v.image, w.image, at + 4, at + v.entry_size(rec, q))
            &&& 0 <= at
            &&& at + v.entry_size(rec, q) <= v.block_start(
                v.block_pointer(rec, q / v.block_size) as int,
            ) + v.block_size
            &&& w.file_size(rec) == v.file_size(rec)
            &&& forall|s: int|
                0 <= s < DIRECT_BLOCKS ==> #[trigger] w.block_pointer(rec, s) == v.block_pointer(
                    rec,
                    s,
                )
            &&& ENTRY_HEADER_SIZE <= keep < v.entry_size(rec, q)
            &&& w.entry_at(rec, q)
            &&& w.entry_size(rec, q) == keep
            &&& w.entry(w.address(rec, q)) == v.shrunk_entry(rec, q)
            &&& w.entry_at(rec, q + keep)
            &&& w.entry_size(rec, q + keep) == v.entry_size(rec, q) - keep
            &&& w.entry(w.address(rec, q + keep)) == v.added_entry(rec, q, inode, kind, name)
        }),
{
    reveal(FsView::split_at);
    let size = v.block_size;
    let w = v.split_at(rec, q, inode, kind, name);
    let at = v.address(rec, q);
    let b = v.block_pointer(rec, q / size) as int;
    let old = v.entry_size(rec, q);
    let keep = v.kept_size(rec, q);
    let rest = old - keep;
    let name_len = v.raw_entry(at).name_len;
    lemma_position(size, q);
    lemma_block_range(size, b, b);
    let shrunk = splice(v.image, at + 4, u16_bytes(keep as u16));
    let fixed = header_bytes(inode, rest as u16, name.len() as u8, kind.byte());
    let headed = splice(shrunk, at + keep, fixed);
    let named = splice(headed, at + keep + ENTRY_HEADER_SIZE, name);
    assert(w.image == named);
    lemma_splice_frame(v.image, at + 4, u16_bytes(keep as u16));
    lemma_splice_frame(shrunk, at + keep, fixed);
    lemma_splice_frame(headed, at + keep + ENTRY_HEADER_SIZE, name);
    assert(agree_outside(v.image, named, at + 4, at + old)) by {
        assert forall|x: int| 0 <= x < v.image.len() && !(at + 4 <= x < at + old) implies #[trigger] named[x]
            == v.image[x] by {
            assert(named[x] == headed[x]);
            assert(headed[x] == shrunk[x]);
            assert(shrunk[x] == v.image[x]);
        }
    }
    lemma_agree_widen(v.image, w.image, at + 4, at + old, v.block_start(b), v.block_start(b) + size);
    lemma_record_outside(v, w, v.block_start(b), v.block_start(b) + size, rec);
    assert(w.address(rec, q) == at);
    // the old record
    assert forall|x: int| at <= x < at + keep && !(at + 4 <= x < at + 6) implies named[x]
        == v.image[x] by {
        assert(named[x] == headed[x]);
        assert(headed[x] == shrunk[x]);
    }
    lemma_u32_outside(v.image, w.image, at + 4, at + old, at);
    assert(named[at + 4] == u16_bytes(keep as u16)[0]) by {
        assert(shrunk[at + 4 + 0] == u16_bytes(keep as u16)[0]);
        assert(named[at + 4] == headed[at + 4]);
    }
    assert(named[at + 5] == u16_bytes(keep as u16)[1]) by {
        assert(shrunk[at + 4 + 1] == u16_bytes(keep as u16)[1]);
        assert(named[at + 5] == headed[at + 5]);
    }
    lemma_u16_of_bytes(named, at + 4, keep as u16);
    assert(named[at + 6] == v.image[at + 6]);
    assert(named[at + 7] == v.image[at + 7]);
    assert(w.raw_entry(at).size == keep);
    assert(w.raw_entry(at).name_len == name_len);
    assert(w.entry(at).name =~= v.entry(at).name);
    // the new record
    lemma_within_block(size, q, keep);
    let next = at + keep;
    assert(w.address(rec, q + keep) == next);
    assert forall|k: int| 0 <= k < 8 implies named[next + k] == #[trigger] fixed[k] by {
        assert(headed[next + k] == fixed[k]);
    }
    assert(fixed[0] == u32_bytes(inode)[0] && fixed[1] == u32_bytes(inode)[1] && fixed[2]
        == u32_bytes(inode)[2] && fixed[3] == u32_bytes(inode)[3]);
    assert(fixed[4] == u16_bytes(rest as u16)[0] && fixed[5] == u16_bytes(rest as u16)[1]);
    assert(fixed[6] == name.len() as u8 && fixed[7] == kind.byte());
    lemma_u32_of_bytes(named, next, inode);
    lemma_u16_of_bytes(named, next + 4, rest as u16);
    lemma_kind_byte(kind);
    assert(w.raw_entry(next).name_len == name.len());
    assert(w.entry(next).name =~= name);
}

impl FsView {
    /// An enumeration that starts at position `p` comes to position `q`:
    /// `q` is `p`, or `p` holds a record and an enumeration that starts
    /// behind it comes to `q`.
    pub open spec fn reaches(self, rec: int, p: int, q: int) -> bool
        decreases self.file_size(rec) - p,
    {
        p == q || (p < q && self.entry_at(rec, p) && self.reaches(
            rec,
            p + self.entry_size(rec, p),
            q,
        ))
    }

    /// The records of the directory from position `p` on that start before
    /// position `q`, in order.
    pub open spec fn entries_upto(self, rec: int, p: int, q: int) -> Seq<EntryView>
        decreases self.file_size(rec) - p,
    {
        if p < q && self.entry_at(rec, p) {
            seq![self.entry(self.address(rec, p))] + self.entries_upto(
                rec,
                p + self.entry_size(rec, p),
                q,
            )
        } else {
            Seq::empty()
        }
    }

    /// The records from position `p` on fill the bytes up to position
    /// `end` without a gap, and the size of each is a multiple of four.
    pub open spec fn tiled(self, rec: int, p: int, end: int) -> bool
        decreases end - p,
    {
        if p >= end {
            p == end
        } else if self.entry_at(rec, p) && self.entry_size(rec, p) % 4 == 0 && p
            + self.entry_size(rec, p) <= end {
            self.tiled(rec, p + self.entry_size(rec, p), end)
        } else {
            false
        }
    }

    /// The pointers and the size of the directory are the same in `w`, and
    /// the bytes of the image are the same outside `lo..hi`.
    pub open spec fn changed_within(self, w: FsView, rec: int, lo: int, hi: int) -> bool {
        &&& self.same_volume(w)
        &&& agree_outside(self.image, w.image, lo, hi)
        &&& w.file_size(rec) == self.file_size(rec)
        &&& forall|s: int|
            0 <= s < DIRECT_BLOCKS ==> #[trigger] w.block_pointer(rec, s) == self.block_pointer(
                rec,
                s,
            )
    }
}

/// The sum of the sizes of some records.
pub open spec fn total_size(entries: Seq<EntryView>) -> int
    decreases entries.len(),
{
    if entries.len() == 0 {
        0
    } else {
        entries[0].size + total_size(entries.subrange(1, entries.len() as int))
    }
}

/// A position keeps what it holds where nothing changed from its byte to
/// the end of its block.
pub proof fn lemma_entry_after(v: FsView, w: FsView, rec: int, lo: int, hi: int, x: int)
    requires
        v.wf(),
        v.changed_within(w, rec, lo, hi),
        0 <= x,
        v.mapped(rec, x) ==> apart(
            v.address(rec, x),
            v.address(rec, x) + (v.block_size - x % v.block_size),
            lo,
            hi,
        ),
    ensures
        w.entry_at(rec, x) == v.entry_at(rec, x),
        v.entry_at(rec, x) ==> w.address(rec, x) == v.address(rec, x),
        v.entry_at(rec, x) ==> w.entry_size(rec, x) == v.entry_size(rec, x),
        v.entry_at(rec, x) ==> w.raw_entry(w.address(rec, x)) == v.raw_entry(v.address(rec, x)),
        v.entry_at(rec, x) ==> w.entry(w.address(rec, x)) == v.entry(v.address(rec, x)),
{
    let size = v.block_size;
    lemma_position(size, x);
    if x / size < DIRECT_BLOCKS {
        assert(w.block_pointer(rec, x / size) == v.block_pointer(rec, x / size));
    }
    if v.mapped(rec, x) {
        let at = v.address(rec, x);
        let b = v.block_pointer(rec, x / size) as int;
        lemma_block_range(size, b, b);
        let remain = size - x % size;
        if remain >= ENTRY_HEADER_SIZE {
            lemma_u32_outside(v.image, w.image, lo, hi, at);
            lemma_u16_outside(v.image, w.image, lo, hi, at + 4);
            assert(w.image[at + 6] == v.image[at + 6]);
            assert(w.image[at + 7] == v.image[at + 7]);
            assert(w.raw_entry(at) == v.raw_entry(at));
            if v.entry_at(rec, x) {
                assert(w.entry(at).name =~= v.entry(at).name);
            }
        }
    }
}

/// A record keeps what it holds where nothing changed among its bytes.
pub proof fn lemma_entry_before(v: FsView, w: FsView, rec: int, lo: int, hi: int, x: int)
    requires
        v.wf(),
        v.changed_within(w, rec, lo, hi),
        0 <= x,
        v.entry_at(rec, x),
        apart(v.address(rec, x), v.address(rec, x) + v.entry_size(rec, x), lo, hi),
    ensures
        w.entry_at(rec, x),
        w.address(rec, x) == v.address(rec, x),
        w.entry_size(rec, x) == v.entry_size(rec, x),
        w.entry(w.address(rec, x)) == v.entry(v.address(rec, x)),
{
    let size = v.block_size;
    lemma_position(size, x);
    assert(w.block_pointer(rec, x / size) == v.block_pointer(rec, x / size));
    let at = v.address(rec, x);
    let b = v.block_pointer(rec, x / size) as int;
    lemma_block_range(size, b, b);
    lemma_u32_outside(v.image, w.image, lo, hi, at);
    lemma_u16_outside(v.image, w.image, lo, hi, at + 4);
    assert(w.image[at + 6] == v.image[at + 6]);
    assert(w.image[at + 7] == v.image[at + 7]);
    assert(w.raw_entry(at) == v.raw_entry(at));
    assert(w.entry(at).name =~= v.entry(at).name);
}

/// In a directory whose blocks are its own, the bytes from a position
/// behind a record to the end of the block of that position are none of
/// the bytes of the record.
pub proof fn lemma_apart_after(v: FsView, rec: int, q: int, x: int)
    requires
        v.wf(),
        v.own_blocks(rec),
        0 <= q,
        v.entry_at(rec, q),
        q + v.entry_size(rec, q) <= x,
        v.mapped(rec, x),
    ensures
        apart(
            v.address(rec, x),
            v.address(rec, x) + (v.block_size - x % v.block_size),
            v.address(rec, q) + 4,
            v.address(rec, q) + v.entry_size(rec, q),
        ),
{
    let size = v.block_size;
    lemma_position(size, q);
    lemma_position(size, x);
    let b = v.block_pointer(rec, q / size) as int;
    let d = v.block_pointer(rec, x / size) as int;
    if x / size == q / size {
    } else {
        assert(v.block_pointer(rec, x / size) != v.block_pointer(rec, q / size));
        lemma_blocks_apart(v, d, b);
    }
}

/// In a directory whose blocks are its own, the bytes of a record that
/// ends at or before the start of another are none of the bytes of that
/// other.
pub proof fn lemma_apart_before(v: FsView, rec: int, q: int, x: int)
    requires
        v.wf(),
        v.own_blocks(rec),
        0 <= x,
        v.entry_at(rec, x),
        v.entry_at(rec, q),
        x + v.entry_size(rec, x) <= q,
    ensures
        apart(
            v.address(rec, x),
            v.address(rec, x) + v.entry_size(rec, x),
            v.address(rec, q) + 4,
            v.address(rec, q) + v.entry_size(rec, q),
        ),
{
    let size = v.block_size;
    lemma_position(size, q);
    lemma_position(size, x);
    let b = v.block_pointer(rec, q / size) as int;
    let d = v.block_pointer(rec, x / size) as int;
    if x / size == q / size {
    } else {
        assert(v.block_pointer(rec, x / size) != v.block_pointer(rec, q / size));
        lemma_blocks_apart(v, d, b);
    }
}

/// What an enumeration hands out from behind a record on does not depend
/// on the bytes of that record.
pub proof fn lemma_entries_after(v: FsView, w: FsView, rec: int, q: int, x: int)
    requires
        v.wf(),
        v.own_blocks(rec),
        0 <= q,
        v.entry_at(rec, q),
        v.changed_within(
            w,
            rec,
            v.address(rec, q) + 4,
            v.address(rec, q) + v.entry_size(rec, q),
        ),
        q + v.entry_size(rec, q) <= x,
    ensures
        w.entries_from(rec, x) == v.entries_from(rec, x),
    decreases v.file_size(rec) - x,
{
    let lo = v.address(rec, q) + 4;
    let hi = v.address(rec, q) + v.entry_size(rec, q);
    if v.mapped(rec, x) {
        lemma_apart_after(v, rec, q, x);
    }
    lemma_entry_after(v, w, rec, lo, hi, x);
    if v.entry_at(rec, x) {
        lemma_entries_after(v, w, rec, q, x + v.entry_size(rec, x));
    }
}

/// Whether the records fill the bytes from behind a record on does not
/// depend on the bytes of that record.
pub proof fn lemma_tiled_after(v: FsView, w: FsView, rec: int, q: int, x: int, end: int)
    requires
        v.wf(),
        v.own_blocks(rec),
        0 <= q,
        v.entry_at(rec, q),
        v.changed_within(
            w,
            rec,
            v.address(rec, q) + 4,
            v.address(rec, q) + v.entry_size(rec, q),
        ),
        q + v.entry_size(rec, q) <= x,
    ensures
        w.tiled(rec, x, end) == v.tiled(rec, x, end),
    decreases end - x,
{
    let lo = v.address(rec, q) + 4;
    let hi = v.address(rec, q) + v.entry_size(rec, q);
    if x < end {
        if v.mapped(rec, x) {
            lemma_apart_after(v, rec, q, x);
        }
        lemma_entry_after(v, w, rec, lo, hi, x);
        if v.entry_at(rec, x) && x + v.entry_size(rec, x) <= end {
            lemma_tiled_after(v, w, rec, q, x + v.entry_size(rec, x), end);
        }
    }
}

/// An enumeration that comes to a position hands out the records before
/// that position and then what it hands out from there.
pub proof fn lemma_entries_split(v: FsView, rec: int, p: int, q: int)
    requires
        v.reaches(rec, p, q),
    ensures
        p <= q,
        v.entries_from(rec, p) == v.entries_upto(rec, p, q) + v.entries_from(rec, q),
    decreases v.file_size(rec) - p,
{
    if p == q {
        assert(v.entries_upto(rec, p, q) =~= Seq::empty());
        assert(v.entries_from(rec, p) =~= v.entries_upto(rec, p, q) + v.entries_from(rec, q));
    } else {
        let next = p + v.entry_size(rec, p);
        lemma_entries_split(v, rec, next, q);
        assert(v.entries_from(rec, p) =~= v.entries_upto(rec, p, q) + v.entries_from(rec, q));
    }
}

/// The records before a record that is changed are handed out as before.
pub proof fn lemma_entries_before(v: FsView, w: FsView, rec: int, p: int, q: int)
    requires
        v.wf(),
        v.own_blocks(rec),
        0 <= p,
        v.entry_at(rec, q),
        v.changed_within(
            w,
            rec,
            v.address(rec, q) + 4,
            v.address(rec, q) + v.entry_size(rec, q),
        ),
        v.reaches(rec, p, q),
    ensures
        w.reaches(rec, p, q),
        w.entries_upto(rec, p, q) == v.entries_upto(rec, p, q),
    decreases v.file_size(rec) - p,
{
    let lo = v.address(rec, q) + 4;
    let hi = v.address(rec, q) + v.entry_size(rec, q);
    if p < q {
        let next = p + v.entry_size(rec, p);
        lemma_entries_split(v, rec, next, q);
        lemma_apart_before(v, rec, q, p);
        lemma_entry_before(v, w, rec, lo, hi, p);
        lemma_entries_before(v, w, rec, next, q);
    }
}

/// The record that `find_room` finds is one that the enumeration comes
/// to, and it has the room.
pub proof fn lemma_find_room(v: FsView, rec: int, p: int, need: int)
    requires
        v.find_room(rec, p, need) is Some,
    ensures
        ({
            let q = v.find_room(rec, p, need)->Some_0;
            &&& v.reaches(rec, p, q)
            &&& v.entry_at(rec, q)
            &&& v.room_at(rec, q, need)
            &&& p <= q
        }),
    decreases v.file_size(rec) - p,
{
    if !v.room_at(rec, p, need) {
        lemma_find_room(v, rec, p + v.entry_size(rec, p), need);
    }
}

/// From the record that was split on, an enumeration hands out that
/// record with the size it kept, then the new record, then what it handed
/// out from behind the old record.
pub proof fn lemma_entries_at_split(
    v: FsView,
    rec: int,
    q: int,
    inode: u32,
    kind: EntryKind,
    name: Seq<u8>,
)
    requires
        v.wf(),
        v.own_blocks(rec),
        0 <= q,
        name.len() <= MAX_NAME_LEN,
        v.entry_at(rec, q),
        v.room_at(rec, q, ENTRY_HEADER_SIZE + name.len()),
    ensures
        ({
            let w = v.split_at(rec, q, inode, kind, name);
            let behind = q + v.entry_size(rec, q);
            &&& v.changed_within(
                w,
                rec,
                v.address(rec, q) + 4,
                v.address(rec, q) + v.entry_size(rec, q),
            )
            &&& w.entries_from(rec, q) == seq![
                v.shrunk_entry(rec, q),
                v.added_entry(rec, q, inode, kind, name),
            ] + v.entries_from(rec, behind)
            &&& v.entries_from(rec, q) == seq![v.entry(v.address(rec, q))] + v.entries_from(
                rec,
                behind,
            )
            &&& v.shrunk_entry(rec, q).size + v.added_entry(rec, q, inode, kind, name).size
                == v.entry(v.address(rec, q)).size
        }),
{
    let w = v.split_at(rec, q, inode, kind, name);
    let old = v.entry_size(rec, q);
    let keep = v.kept_size(rec, q);
    let behind = q + old;
    lemma_split_shape(v, rec, q, inode, kind, name);
    lemma_entries_after(v, w, rec, q, behind);
    let first = w.entry(w.address(rec, q));
    let second = w.entry(w.address(rec, q + keep));
    let tail = w.entries_from(rec, behind);
    assert(w.entries_from(rec, q + keep) == seq![second] + tail);
    assert(w.entries_from(rec, q) == seq![first] + (seq![second] + tail));
    assert(seq![first] + (seq![second] + tail) =~= seq![first, second] + tail);
}

/// Enumerate a directory whose blocks are its own, insert a record, and
/// enumerate again from the same position. The second enumeration hands
/// out what the first did, with two differences: the record that was
/// split has the size it kept, and the new record follows it, once. Every
/// other record has the inode, kind, name and size it had, and all come
/// in the order they came in.
pub proof fn lemma_insert_then_enumerate(
    v: FsView,
    rec: int,
    p: int,
    inode: u32,
    kind: EntryKind,
    name: Seq<u8>,
)
    requires
        v.wf(),
        v.own_blocks(rec),
        0 <= p,
        name.len() <= MAX_NAME_LEN,
        v.add_entry(rec, p, inode, kind, name).result is Ok,
    ensures
        ({
            let w = v.add_entry(rec, p, inode, kind, name).view;
            let q = v.find_room(rec, p, ENTRY_HEADER_SIZE + name.len())->Some_0;
            let behind = q + v.entry_size(rec, q);
            &&& v.same_volume(w)
            &&& v.reaches(rec, p, q)
            &&& v.entries_from(rec, p) == v.entries_upto(rec, p, q) + seq![
                v.entry(v.address(rec, q)),
            ] + v.entries_from(rec, behind)
            &&& w.entries_from(rec, p) == v.entries_upto(rec, p, q) + seq![
                v.shrunk_entry(rec, q),
                v.added_entry(rec, q, inode, kind, name),
            ] + v.entries_from(rec, behind)
            &&& v.shrunk_entry(rec, q).size + v.added_entry(rec, q, inode, kind, name).size
                == v.entry(v.address(rec, q)).size
        }),
{
    let need = ENTRY_HEADER_SIZE + name.len();
    lemma_find_room(v, rec, p, need);
    let q = v.find_room(rec, p, need)->Some_0;
    let w = v.split_at(rec, q, inode, kind, name);
    assert(v.add_entry(rec, p, inode, kind, name).view == w);
    lemma_entries_at_split(v, rec, q, inode, kind, name);
    lemma_entries_split(v, rec, p, q);
    lemma_entries_before(v, w, rec, p, q);
    lemma_entries_split(w, rec, p, q);
    let before = v.entries_upto(rec, p, q);
    let tail = v.entries_from(rec, q + v.entry_size(rec, q));
    let old = seq![v.entry(v.address(rec, q))];
    let new = seq![v.shrunk_entry(rec, q), v.added_entry(rec, q, inode, kind, name)];
    assert(before + (old + tail) =~= before + old + tail);
    assert(before + (new + tail) =~= before + new + tail);
}

impl FsView {
    /// The start of block slot `s` of a file, counted in bytes of the file.
    pub open spec fn slot_start(self, s: int) -> int {
        s * self.block_size
    }

    /// The records of the directory tile its blocks: the size of the
    /// directory is a whole number of blocks, and in every block the
    /// records fill the block from its first byte to its last, each with
    /// a size that is a multiple of four and at least its header and name.
    /// The sizes of the records of a block therefore add up to the size of
    /// a block.
    pub open spec fn dir_tiled(self, rec: int) -> bool {
        &&& self.file_size(rec) as int % self.block_size == 0
        &&& forall|s: int|
            0 <= s < self.file_size(rec) as int / self.block_size ==> #[trigger] self.tiled(
                rec,
                self.slot_start(s),
                self.slot_start(s + 1),
            )
    }
}

/// A position that is a multiple of four is one in its block too, and a
/// record that is split there keeps a multiple of four bytes.
pub proof fn lemma_kept_aligned(v: FsView, rec: int, q: int)
    requires
        v.wf(),
        0 <= q,
        q % 4 == 0,
    ensures
        (q % v.block_size) % 4 == 0,
        v.kept_size(rec, q) % 4 == 0,
{
    let size = v.block_size;
    lemma_position(size, q);
    let c = q / size;
    let m = size / 4;
    assert(size == 4 * m);
    assert(c * size == 4 * (c * m)) by (nonlinear_arith)
        requires
            size == 4 * m,
    ;
}

/// The start of every block slot is a multiple of four, and slots follow
/// one another block by block.
pub proof fn lemma_slot_start(v: FsView, s: int)
    requires
        v.wf(),
        0 <= s,
    ensures
        v.slot_start(s) % 4 == 0,
        0 <= v.slot_start(s),
        v.slot_start(s + 1) == v.slot_start(s) + v.block_size,
        v.slot_start(s) / v.block_size == s,
        v.slot_start(s) % v.block_size == 0,
{
    let size = v.block_size;
    let m = size / 4;
    assert(s * size == 4 * (s * m)) by (nonlinear_arith)
        requires
            size == 4 * m,
    ;
    lemma_block_range(size, s, s);
    vstd::arithmetic::div_mod::lemma_fundamental_div_mod_converse(s * size, size, s, 0);
}

/// The sizes of records that fill the bytes from one position to another
/// add up to the number of those bytes.
pub proof fn lemma_tiled_total(v: FsView, rec: int, a: int, e: int)
    requires
        v.tiled(rec, a, e),
    ensures
        a <= e,
        v.reaches(rec, a, e),
        total_size(v.entries_upto(rec, a, e)) == e - a,
    decreases e - a,
{
    if a < e {
        let next = a + v.entry_size(rec, a);
        lemma_tiled_total(v, rec, next, e);
        let all = v.entries_upto(rec, a, e);
        assert(all.subrange(1, all.len() as int) =~= v.entries_upto(rec, next, e));
    }
}

/// Records that fill the bytes up to a position at or before a record
/// still fill them when bytes of that record change.
pub proof fn lemma_tiled_before(v: FsView, w: FsView, rec: int, q: int, a: int, e: int)
    requires
        v.wf(),
        v.own_blocks(rec),
        0 <= a,
        v.entry_at(rec, q),
        v.changed_within(
            w,
            rec,
            v.address(rec, q) + 4,
            v.address(rec, q) + v.entry_size(rec, q),
        ),
        v.tiled(rec, a, e),
        e <= q,
    ensures
        w.tiled(rec, a, e),
    decreases e - a,
{
    let lo = v.address(rec, q) + 4;
    let hi = v.address(rec, q) + v.entry_size(rec, q);
    if a < e {
        lemma_apart_before(v, rec, q, a);
        lemma_entry_before(v, w, rec, lo, hi, a);
        lemma_tiled_before(v, w, rec, q, a + v.entry_size(rec, a), e);
    }
}

/// An enumeration that comes to a position, through records that fill
/// the bytes up to an earlier position, comes to it from that earlier
/// position too.
pub proof fn lemma_reaches_through(v: FsView, rec: int, a: int, e: int, q: int)
    requires
        v.tiled(rec, a, e),
        v.reaches(rec, a, q),
        e <= q,
    ensures
        v.reaches(rec, e, q),
    decreases e - a,
{
    if a < e {
        lemma_reaches_through(v, rec, a + v.entry_size(rec, a), e, q);
    }
}

/// Records that fill the bytes from one position to another still do
/// when one of them is replaced by two that take its bytes.
pub proof fn lemma_two_for_one(v: FsView, w: FsView, rec: int, q: int, keep: int, a: int, e: int)
    requires
        v.wf(),
        v.own_blocks(rec),
        0 <= a,
        v.entry_at(rec, q),
        v.changed_within(
            w,
            rec,
            v.address(rec, q) + 4,
            v.address(rec, q) + v.entry_size(rec, q),
        ),
        0 < keep < v.entry_size(rec, q),
        keep % 4 == 0,
        v.entry_size(rec, q) % 4 == 0,
        w.entry_at(rec, q),
        w.entry_size(rec, q) == keep,
        w.entry_at(rec, q + keep),
        w.entry_size(rec, q + keep) == v.entry_size(rec, q) - keep,
        v.tiled(rec, a, e),
        v.reaches(rec, a, q),
        q < e,
    ensures
        w.tiled(rec, a, e),
    decreases e - a,
{
    let lo = v.address(rec, q) + 4;
    let hi = v.address(rec, q) + v.entry_size(rec, q);
    if a == q {
        let old = v.entry_size(rec, q);
        lemma_tiled_after(v, w, rec, q, q + old, e);
        assert(w.tiled(rec, q + keep, e));
    } else {
        let next = a + v.entry_size(rec, a);
        lemma_entries_split(v, rec, next, q);
        lemma_apart_before(v, rec, q, a);
        lemma_entry_before(v, w, rec, lo, hi, a);
        lemma_two_for_one(v, w, rec, q, keep, next, e);
    }
}

/// Where the records from `a` on fill the bytes up to `e`, and `a` is a
/// multiple of four, every record that an enumeration from `a` comes to
/// before `e` starts at a multiple of four and has a size that is one.
pub proof fn lemma_tiled_aligned(v: FsView, rec: int, a: int, e: int, q: int)
    requires
        a % 4 == 0,
        v.tiled(rec, a, e),
        v.reaches(rec, a, q),
        q < e,
    ensures
        q % 4 == 0,
        v.entry_at(rec, q),
        v.entry_size(rec, q) % 4 == 0,
        q + v.entry_size(rec, q) <= e,
    decreases e - a,
{
    if a != q {
        lemma_tiled_aligned(v, rec, a + v.entry_size(rec, a), e, q);
    }
}

/// Records that fill the bytes from one position to another still do
/// after one of them was split, and their sizes are still multiples of
/// four.
pub proof fn lemma_split_keeps_tiled(
    v: FsView,
    rec: int,
    q: int,
    inode: u32,
    kind: EntryKind,
    name: Seq<u8>,
    a: int,
    e: int,
)
    requires
        v.wf(),
        v.own_blocks(rec),
        0 <= a,
        a % 4 == 0,
        name.len() <= MAX_NAME_LEN,
        v.entry_at(rec, q),
        v.room_at(rec, q, ENTRY_HEADER_SIZE + name.len()),
        v.tiled(rec, a, e),
        v.reaches(rec, a, q),
        q < e,
    ensures
        v.split_at(rec, q, inode, kind, name).tiled(rec, a, e),
{
    let w = v.split_at(rec, q, inode, kind, name);
    lemma_entries_split(v, rec, a, q);
    lemma_tiled_aligned(v, rec, a, e, q);
    lemma_kept_aligned(v, rec, q);
    lemma_split_shape(v, rec, q, inode, kind, name);
    lemma_two_for_one(v, w, rec, q, v.kept_size(rec, q), a, e);
}

/// An enumeration from the start of a directory whose records tile its
/// blocks comes to a record from the start of the block of that record.
pub proof fn lemma_reaches_in_block(v: FsView, rec: int, q: int, s: int)
    requires
        v.wf(),
        v.dir_tiled(rec),
        v.reaches(rec, 0, q),
        v.entry_at(rec, q),
        0 <= s <= q / v.block_size,
    ensures
        v.reaches(rec, v.slot_start(s), q),
    decreases s,
{
    let size = v.block_size;
    if s > 0 {
        lemma_reaches_in_block(v, rec, q, s - 1);
        lemma_position(size, q);
        lemma_slot_start(v, s - 1);
        lemma_slot_start(v, s);
        let c = q / size;
        assert(s * size <= c * size) by (nonlinear_arith)
            requires
                s <= c,
                0 < size,
        ;
        // the block before slot `s` lies within the directory
        let blocks = v.file_size(rec) as int / size;
        lemma_position(size, v.file_size(rec) as int);
        assert(s - 1 < blocks) by {
            if blocks <= s - 1 {
                assert(blocks * size <= (s - 1) * size) by (nonlinear_arith)
                    requires
                        blocks <= s - 1,
                        0 < size,
                ;
            }
        }
        assert(v.tiled(rec, v.slot_start(s - 1), v.slot_start(s - 1 + 1)));
        lemma_reaches_through(v, rec, v.slot_start(s - 1), v.slot_start(s), q);
    }
}

/// The insertion of a record into a directory whose blocks are its own
/// and whose records tile its blocks leaves a directory whose records
/// tile its blocks: in every block the sizes of the records still add up
/// to the size of a block, and each is still a multiple of four and at
/// least its header and name.
pub proof fn lemma_insert_keeps_tiling(
    v: FsView,
    rec: int,
    inode: u32,
    kind: EntryKind,
    name: Seq<u8>,
)
    requires
        v.wf(),
        v.own_blocks(rec),
        v.dir_tiled(rec),
        name.len() <= MAX_NAME_LEN,
        v.add_entry(rec, 0, inode, kind, name).result is Ok,
    ensures
        v.add_entry(rec, 0, inode, kind, name).view.dir_tiled(rec),
{
    let size = v.block_size;
    let need = ENTRY_HEADER_SIZE + name.len();
    lemma_find_room(v, rec, 0, need);
    let q = v.find_room(rec, 0, need)->Some_0;
    let w = v.split_at(rec, q, inode, kind, name);
    assert(v.add_entry(rec, 0, inode, kind, name).view == w);
    lemma_split_shape(v, rec, q, inode, kind, name);
    let c = q / size;
    let old = v.entry_size(rec, q);
    lemma_position(size, q);
    assert forall|s: int| 0 <= s < w.file_size(rec) as int / w.block_size implies #[trigger] w.tiled(
        rec,
        w.slot_start(s),
        w.slot_start(s + 1),
    ) by {
        lemma_slot_start(v, s);
        lemma_slot_start(v, c);
        assert(v.tiled(rec, v.slot_start(s), v.slot_start(s + 1)));
        if s < c {
            assert((s + 1) * size <= c * size) by (nonlinear_arith)
                requires
                    s + 1 <= c,
                    0 < size,
            ;
            lemma_tiled_before(v, w, rec, q, v.slot_start(s), v.slot_start(s + 1));
        } else if s > c {
            assert((c + 1) * size <= s * size) by (nonlinear_arith)
                requires
                    c + 1 <= s,
                    0 < size,
            ;
            lemma_tiled_after(v, w, rec, q, v.slot_start(s), v.slot_start(s + 1));
        } else {
            lemma_reaches_in_block(v, rec, q, c);
            lemma_split_keeps_tiled(
                v,
                rec,
                q,
                inode,
                kind,
                name,
                v.slot_start(c),
                v.slot_start(c + 1),
            );
        }
    }
}

/// In a directory whose records tile its blocks, the sizes of the records
/// of every block add up to the size of a block.
pub proof fn lemma_block_total(v: FsView, rec: int, s: int)
    requires
        v.wf(),
        v.dir_tiled(rec),
        0 <= s < v.file_size(rec) as int / v.block_size,
    ensures
        total_size(v.entries_upto(rec, v.slot_start(s), v.slot_start(s + 1))) == v.block_size,
{
    lemma_slot_start(v, s);
    lemma_tiled_total(v, rec, v.slot_start(s), v.slot_start(s + 1));
}

} // verus!
