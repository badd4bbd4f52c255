//! Writing and reading back: on a file whose blocks are its own, the bytes
//! that a write stores are the bytes that a read finds.

use vstd::prelude::*;
use crate::bitmap::{bit_at, lemma_first_clear_from, lemma_set_bit, set_bit};
use crate::bytes::{lemma_u32_stored, splice, u32_bytes};
use crate::cursor::{lemma_next_block, lemma_position, lemma_slot_bound, lemma_within_block};
use crate::frame::{agree_outside, apart, lemma_bits_outside, lemma_blocks_apart, lemma_record_outside, lemma_set_bit_frame, lemma_splice_frame, lemma_u32_outside};
use crate::fs::{lemma_block_range, Ext2Error, FsView};
use crate::inode::{BLOCKS_OFFSET, DIRECT_BLOCKS, INODE_SIZE, SIZE_OFFSET};

verus! {

impl FsView {
    /// The number of the block that holds the block bitmap of `group`.
    pub open spec fn block_bitmap(self, group: int) -> int {
        self.descriptors[group].block_address_of_block_bitmap as int
    }

    /// Bit `i` of the block bitmap of `group` is clear: block `i` is free.
    pub open spec fn free_block(self, group: int, i: int) -> bool {
        !bit_at(self.image, self.block_start(self.block_bitmap(group)), i)
    }

    /// Block `b` can hold bytes of the file whose record starts at `rec`:
    /// it is not the block bitmap of the group, and the record does not
    /// lie in it.
    pub open spec fn data_block(self, rec: int, group: int, b: int) -> bool {
        &&& 0 <= b
        &&& b != self.block_bitmap(group)
        &&& self.block_apart(b, rec)
    }

    /// The bytes of block `b`.
    pub open spec fn block_bytes(self, b: int) -> Seq<u8> {
        self.image.subrange(self.block_start(b), self.block_start(b) + self.block_size)
    }

    /// The blocks of the file whose record starts at `rec` are its own.
    /// The block bitmap of the group lies within the image and apart from
    /// the record. Every block that the file has can hold its bytes, and
    /// no two slots name the same block. Every block that the bitmap shows
    /// as free is not block 0, can hold bytes of the file, and is none of
    /// the blocks that the file has.
    pub open spec fn consistent(self, rec: int, group: int) -> bool {
        &&& 0 <= rec
        &&& rec + INODE_SIZE <= self.image.len()
        &&& 0 <= group < self.descriptors.len()
        &&& self.holds_block(self.block_bitmap(group))
        &&& self.block_apart(self.block_bitmap(group), rec)
        &&& forall|s: int|
            0 <= s < DIRECT_BLOCKS && #[trigger] self.block_pointer(rec, s) != 0
                ==> self.data_block(rec, group, self.block_pointer(rec, s) as int)
        &&& forall|s: int, t: int|
            0 <= s < DIRECT_BLOCKS && 0 <= t < DIRECT_BLOCKS && s != t && self.block_pointer(rec, s)
                != 0 ==> #[trigger] self.block_pointer(rec, s) != #[trigger] self.block_pointer(
                rec,
                t,
            )
        &&& forall|i: int|
            0 <= i < 8 * self.block_size && #[trigger] self.free_block(group, i) ==> i != 0
                && self.data_block(rec, group, i)
        &&& forall|i: int, s: int|
            0 <= i < 8 * self.block_size && 0 <= s < DIRECT_BLOCKS && #[trigger] self.free_block(
                group,
                i,
            ) ==> #[trigger] self.block_pointer(rec, s) != i
    }

    /// Every slot before the slot of position `p` holds a block.
    pub open spec fn filled_below(self, rec: int, p: int) -> bool {
        forall|s: int|
            0 <= s < p / self.block_size && s < DIRECT_BLOCKS ==> #[trigger] self.block_pointer(
                rec,
                s,
            ) != 0
    }

    /// A write of `len` bytes at position `p` finds the slots it needs in
    /// order: every slot before the slot of `p` holds a block, or every
    /// position that is written has a block already.
    pub open spec fn ready_for(self, rec: int, p: int, len: int) -> bool {
        self.filled_below(rec, p) || forall|q: int|
            p <= q < p + len ==> #[trigger] self.mapped(rec, q)
    }

    /// Slot `s` of the file names the same block in `w` as in this volume,
    /// and the block holds the same bytes.
    pub open spec fn slot_kept(self, w: FsView, rec: int, s: int) -> bool {
        &&& w.block_pointer(rec, s) == self.block_pointer(rec, s)
        &&& w.block_bytes(self.block_pointer(rec, s) as int) == self.block_bytes(
            self.block_pointer(rec, s) as int,
        )
    }
}

/// A block outside the run that changed holds the same bytes as before.
pub proof fn lemma_block_outside(v: FsView, w: FsView, lo: int, hi: int, b: int)
    requires
        v.wf(),
        v.same_volume(w),
        agree_outside(v.image, w.image, lo, hi),
        v.holds_block(b),
        apart(v.block_start(b), v.block_start(b) + v.block_size, lo, hi),
    ensures
        w.block_bytes(b) == v.block_bytes(b),
{
    lemma_block_range(v.block_size, b, b);
    assert(w.block_bytes(b) =~= v.block_bytes(b));
}

/// A position in a slot that was kept has the same block and the same
/// byte as before.
pub proof fn lemma_slot_kept(v: FsView, w: FsView, rec: int, p: int)
    requires
        v.wf(),
        v.same_volume(w),
        v.mapped(rec, p),
        v.slot_kept(w, rec, p / v.block_size),
    ensures
        w.mapped(rec, p),
        w.file_byte(rec, p) == v.file_byte(rec, p),
        w.address(rec, p) == v.address(rec, p),
{
    let b = v.block_pointer(rec, p / v.block_size) as int;
    lemma_position(v.block_size, p);
    lemma_block_range(v.block_size, b, b);
    let k = p % v.block_size;
    assert(v.block_bytes(b)[k] == v.image[v.block_start(b) + k]);
    assert(w.block_bytes(b)[k] == w.image[w.block_start(b) + k]);
}

/// Bytes that change outside the record of a file and outside the block
/// bitmap of its group leave the blocks of the file its own.
pub proof fn lemma_consistent_outside(v: FsView, w: FsView, lo: int, hi: int, rec: int, group: int)
    requires
        v.wf(),
        v.same_volume(w),
        v.consistent(rec, group),
        agree_outside(v.image, w.image, lo, hi),
        apart(rec, rec + INODE_SIZE, lo, hi),
        apart(
            v.block_start(v.block_bitmap(group)),
            v.block_start(v.block_bitmap(group)) + v.block_size,
            lo,
            hi,
        ),
    ensures
        w.consistent(rec, group),
        w.file_size(rec) == v.file_size(rec),
        forall|s: int|
            0 <= s < DIRECT_BLOCKS ==> #[trigger] w.block_pointer(rec, s) == v.block_pointer(rec, s),
{
    let base = v.block_start(v.block_bitmap(group));
    lemma_block_range(v.block_size, v.block_bitmap(group), v.block_bitmap(group));
    lemma_record_outside(v, w, lo, hi, rec);
    lemma_bits_outside(v.image, w.image, lo, hi, base, v.block_size);
    assert forall|i: int| 0 <= i < 8 * w.block_size implies #[trigger] w.free_block(group, i)
        == v.free_block(group, i) by {
        assert(bit_at(w.image, base, i) == bit_at(v.image, base, i));
    }
    assert forall|s: int|
        0 <= s < DIRECT_BLOCKS && #[trigger] w.block_pointer(rec, s) != 0 implies w.data_block(
        rec,
        group,
        w.block_pointer(rec, s) as int,
    ) by {
        assert(w.block_pointer(rec, s) == v.block_pointer(rec, s));
    }
    assert forall|s: int, t: int|
        0 <= s < DIRECT_BLOCKS && 0 <= t < DIRECT_BLOCKS && s != t && w.block_pointer(rec, s)
            != 0 implies #[trigger] w.block_pointer(rec, s) != #[trigger] w.block_pointer(
        rec,
        t,
    ) by {
        assert(w.block_pointer(rec, s) == v.block_pointer(rec, s));
        assert(w.block_pointer(rec, t) == v.block_pointer(rec, t));
    }
    assert forall|i: int|
        0 <= i < 8 * w.block_size && #[trigger] w.free_block(group, i) implies i != 0
        && w.data_block(rec, group, i) by {
        assert(v.free_block(group, i));
    }
    assert forall|i: int, s: int|
        0 <= i < 8 * w.block_size && 0 <= s < DIRECT_BLOCKS && #[trigger] w.free_block(
            group,
            i,
        ) implies #[trigger] w.block_pointer(rec, s) != i by {
        assert(v.free_block(group, i));
        assert(w.block_pointer(rec, s) == v.block_pointer(rec, s));
    }
}

/// Bytes stored in a block that can hold bytes of the file land in that
/// block and change nothing else of the file: not its record, not the
/// bitmap, not its other blocks.
pub proof fn lemma_store_in_block(
    v: FsView,
    rec: int,
    group: int,
    b: int,
    off: int,
    chunk: Seq<u8>,
)
    requires
        v.wf(),
        v.consistent(rec, group),
        v.holds_block(b),
        v.data_block(rec, group, b),
        0 <= off,
        off + chunk.len() <= v.block_size,
    ensures
        ({
            let w = v.with_image(splice(v.image, v.block_start(b) + off, chunk));
            &&& v.same_volume(w)
            &&& w.consistent(rec, group)
            &&& w.file_size(rec) == v.file_size(rec)
            &&& forall|s: int|
                0 <= s < DIRECT_BLOCKS ==> #[trigger] w.block_pointer(rec, s) == v.block_pointer(
                    rec,
                    s,
                )
            &&& forall|k: int|
                0 <= k < chunk.len() ==> w.image[v.block_start(b) + off + k] == #[trigger] chunk[k]
            &&& forall|d: int|
                v.holds_block(d) && d != b ==> #[trigger] w.block_bytes(d) == v.block_bytes(d)
        }),
{
    let at = v.block_start(b) + off;
    let w = v.with_image(splice(v.image, at, chunk));
    let start = v.block_start(b);
    lemma_block_range(v.block_size, b, b);
    lemma_splice_frame(v.image, at, chunk);
    crate::frame::lemma_agree_widen(
        v.image,
        w.image,
        at,
        at + chunk.len(),
        start,
        start + v.block_size,
    );
    lemma_blocks_apart(v, b, v.block_bitmap(group));
    lemma_consistent_outside(v, w, start, start + v.block_size, rec, group);
    assert forall|k: int| 0 <= k < chunk.len() implies w.image[v.block_start(b) + off + k]
        == #[trigger] chunk[k] by {
        assert(splice(v.image, at, chunk)[at + k] == chunk[k]);
    }
    assert forall|d: int| v.holds_block(d) && d != b implies #[trigger] w.block_bytes(d)
        == v.block_bytes(d) by {
        lemma_blocks_apart(v, d, b);
        lemma_block_outside(v, w, start, start + v.block_size, d);
    }
}

/// Where every slot from `from` up to `c` holds a block and slot `c` holds
/// none, slot `c` is the first free slot from `from` on.
pub proof fn lemma_first_free_slot(v: FsView, rec: int, from: int, c: int)
    requires
        0 <= from <= c < DIRECT_BLOCKS,
        v.block_pointer(rec, c) == 0,
        forall|s: int| from <= s < c ==> #[trigger] v.block_pointer(rec, s) != 0,
    ensures
        v.first_free_slot_from(rec, from) == Some(c),
    decreases c - from,
{
    if from < c {
        assert(v.block_pointer(rec, from) != 0);
        lemma_first_free_slot(v, rec, from + 1, c);
    }
}

/// Giving a block to a file whose blocks are its own, at the first slot
/// that holds none: the slot then names a block that was free, and the
/// blocks of the file are still its own. The size, the other slots and
/// the bytes of every block that can hold bytes of the file stay.
pub proof fn lemma_reserve_data_block(v: FsView, rec: int, group: int, c: int)
    requires
        v.wf(),
        v.consistent(rec, group),
        0 <= c < DIRECT_BLOCKS,
        v.block_pointer(rec, c) == 0,
        forall|s: int| 0 <= s < c ==> #[trigger] v.block_pointer(rec, s) != 0,
        v.reserve_data_block(rec, group).1 is Ok,
    ensures
        ({
            let w = v.reserve_data_block(rec, group).0;
            let b = v.reserve_data_block(rec, group).1->Ok_0;
            &&& v.same_volume(w)
            &&& w.consistent(rec, group)
            &&& w.file_size(rec) == v.file_size(rec)
            &&& 0 < b < 8 * v.block_size
            &&& w.block_pointer(rec, c) == b
            &&& w.data_block(rec, group, b)
            &&& forall|s: int|
                0 <= s < DIRECT_BLOCKS && s != c ==> #[trigger] w.block_pointer(rec, s)
                    == v.block_pointer(rec, s)
            &&& forall|d: int|
                v.holds_block(d) && v.data_block(rec, group, d) ==> #[trigger] w.block_bytes(d)
                    == v.block_bytes(d)
        }),
{
    let size = v.block_size;
    let bitmap = v.block_bitmap(group);
    let base = v.block_start(bitmap);
    lemma_first_free_slot(v, rec, 0, c);
    lemma_first_clear_from(v.image, base, 0, 8 * size);
    let b = crate::bitmap::first_clear(v.image, base, 8 * size)->Some_0;
    lemma_block_range(size, bitmap, bitmap);
    assert(v.free_block(group, b));
    // the bit is set
    let marked = v.with_image(set_bit(v.image, base, b));
    assert(v.reserve_block(group) == (marked, Ok::<int, Ext2Error>(b)));
    lemma_set_bit(v.image, base, 8 * size, b);
    lemma_set_bit_frame(v.image, base, b);
    let byte = base + b / 8;
    crate::frame::lemma_agree_widen(v.image, marked.image, byte, byte + 1, base, base + size);
    lemma_record_outside(v, marked, base, base + size, rec);
    // the slot is filled
    let field = rec + BLOCKS_OFFSET + 4 * c;
    let w = marked.with_image(splice(marked.image, field, u32_bytes(b as u32)));
    assert(v.reserve_data_block(rec, group) == (w, Ok::<int, Ext2Error>(b)));
    lemma_splice_frame(marked.image, field, u32_bytes(b as u32));
    lemma_u32_stored(marked.image, field, b as u32);
    lemma_u32_outside(marked.image, w.image, field, field + 4, rec + SIZE_OFFSET);
    assert forall|s: int| 0 <= s < DIRECT_BLOCKS && s != c implies #[trigger] w.block_pointer(
        rec,
        s,
    ) == v.block_pointer(rec, s) by {
        lemma_u32_outside(marked.image, w.image, field, field + 4, rec + BLOCKS_OFFSET + 4 * s);
        assert(marked.block_pointer(rec, s) == v.block_pointer(rec, s));
    }
    crate::frame::lemma_agree_widen(marked.image, w.image, field, field + 4, rec, rec + INODE_SIZE);
    lemma_bits_outside(marked.image, w.image, rec, rec + INODE_SIZE, base, size);
    assert forall|i: int| 0 <= i < 8 * size && #[trigger] w.free_block(group, i) implies i != b
        && v.free_block(group, i) by {
        assert(bit_at(w.image, base, i) == bit_at(marked.image, base, i));
        if i != b {
            assert(bit_at(marked.image, base, i) == bit_at(v.image, base, i));
        }
    }
    assert forall|s: int|
        0 <= s < DIRECT_BLOCKS && #[trigger] w.block_pointer(rec, s) != 0 implies w.data_block(
        rec,
        group,
        w.block_pointer(rec, s) as int,
    ) by {
        if s != c {
            assert(w.block_pointer(rec, s) == v.block_pointer(rec, s));
        }
    }
    assert forall|s: int, t: int|
        0 <= s < DIRECT_BLOCKS && 0 <= t < DIRECT_BLOCKS && s != t && w.block_pointer(rec, s)
            != 0 implies #[trigger] w.block_pointer(rec, s) != #[trigger] w.block_pointer(
        rec,
        t,
    ) by {
        if s != c {
            assert(w.block_pointer(rec, s) == v.block_pointer(rec, s));
        }
        if t != c {
            assert(w.block_pointer(rec, t) == v.block_pointer(rec, t));
        }
        if s == c {
            assert(v.block_pointer(rec, t) != b);
        } else if t == c {
            assert(v.block_pointer(rec, s) != b);
        }
    }
    assert forall|i: int|
        0 <= i < 8 * w.block_size && #[trigger] w.free_block(group, i) implies i != 0
        && w.data_block(rec, group, i) by {
        assert(v.free_block(group, i));
    }
    assert forall|i: int, s: int|
        0 <= i < 8 * w.block_size && 0 <= s < DIRECT_BLOCKS && #[trigger] w.free_block(
            group,
            i,
        ) implies #[trigger] w.block_pointer(rec, s) != i by {
        assert(v.free_block(group, i) && i != b);
        if s != c {
            assert(w.block_pointer(rec, s) == v.block_pointer(rec, s));
        }
    }
    assert forall|d: int|
        v.holds_block(d) && v.data_block(rec, group, d) implies #[trigger] w.block_bytes(d)
        == v.block_bytes(d) by {
        lemma_blocks_apart(v, d, bitmap);
        lemma_block_outside(v, marked, base, base + size, d);
        lemma_block_outside(marked, w, rec, rec + INODE_SIZE, d);
    }
}

/// One step of a write on a file whose blocks are its own: the bytes of
/// the step can be found at their positions, the blocks of the file are
/// still its own, and the size and every other slot are as before.
pub proof fn lemma_write_chunk(v: FsView, rec: int, group: int, p: int, data: Seq<u8>)
    requires
        v.wf(),
        v.consistent(rec, group),
        0 <= p,
        v.filled_below(rec, p) || v.block_pointer(rec, p / v.block_size) != 0,
        data.len() > 0,
        v.write_chunk(rec, group, p, data).1 is Ok,
    ensures
        ({
            let w = v.write_chunk(rec, group, p, data).0;
            let n = v.write_chunk(rec, group, p, data).1->Ok_0;
            let c = p / v.block_size;
            &&& n == v.chunk_len(p, data.len() as int)
            &&& 0 < n <= data.len()
            &&& n <= v.block_size - p % v.block_size
            &&& c < DIRECT_BLOCKS
            &&& v.same_volume(w)
            &&& w.consistent(rec, group)
            &&& w.file_size(rec) == v.file_size(rec)
            &&& v.filled_below(rec, p) ==> w.filled_below(rec, p + n)
            &&& v.block_pointer(rec, c) != 0 ==> forall|s: int|
                0 <= s < DIRECT_BLOCKS ==> #[trigger] w.block_pointer(rec, s) == v.block_pointer(
                    rec,
                    s,
                )
            &&& forall|q: int| p <= q < p + n ==> #[trigger] w.mapped(rec, q)
            &&& forall|i: int| 0 <= i < n ==> w.file_byte(rec, p + i) == #[trigger] data[i]
            &&& forall|s: int|
                0 <= s < DIRECT_BLOCKS && s != c && v.block_pointer(rec, s) != 0 && v.holds_block(
                    v.block_pointer(rec, s) as int,
                ) ==> #[trigger] v.slot_kept(w, rec, s)
        }),
{
    let size = v.block_size;
    let c = p / size;
    let off = p % size;
    lemma_position(size, p);
    let n = v.chunk_len(p, data.len() as int);
    let chunk = data.subrange(0, n);
    let (mid, b) = if v.block_pointer(rec, c) != 0 {
        (v, v.block_pointer(rec, c) as int)
    } else {
        lemma_reserve_data_block(v, rec, group, c);
        (v.reserve_data_block(rec, group).0, v.reserve_data_block(rec, group).1->Ok_0)
    };
    assert(mid.block_pointer(rec, c) == b && b != 0);
    assert(mid.holds_block(b));
    assert(mid.data_block(rec, group, b));
    lemma_store_in_block(mid, rec, group, b, off, chunk);
    let w = mid.with_image(splice(mid.image, mid.block_start(b) + off, chunk));
    assert(v.write_chunk(rec, group, p, data) == (w, Ok::<int, Ext2Error>(n)));
    assert(w.block_pointer(rec, c) == b);
    assert forall|s: int|
        v.filled_below(rec, p) && 0 <= s < (p + n) / size && s < DIRECT_BLOCKS implies #[trigger] w.block_pointer(
        rec,
        s,
    ) != 0 by {
        if n < size - off {
            lemma_within_block(size, p, n);
        } else {
            lemma_next_block(size, p);
        }
        if s < c {
            assert(v.block_pointer(rec, s) != 0);
            assert(mid.block_pointer(rec, s) == v.block_pointer(rec, s));
            assert(w.block_pointer(rec, s) == mid.block_pointer(rec, s));
        }
    }
    assert forall|q: int| p <= q < p + n implies #[trigger] w.mapped(rec, q) by {
        lemma_within_block(size, p, q - p);
    }
    assert forall|i: int| 0 <= i < n implies w.file_byte(rec, p + i) == #[trigger] data[i] by {
        lemma_within_block(size, p, i);
        assert(chunk[i] == data[i]);
        assert(w.image[mid.block_start(b) + off + i] == chunk[i]);
    }
    assert forall|s: int|
        0 <= s < DIRECT_BLOCKS && s != c && v.block_pointer(rec, s) != 0 && v.holds_block(
            v.block_pointer(rec, s) as int,
        ) implies #[trigger] v.slot_kept(w, rec, s) by {
        let d = v.block_pointer(rec, s) as int;
        assert(v.data_block(rec, group, d));
        assert(mid.block_pointer(rec, s) == v.block_pointer(rec, s));
        assert(w.block_pointer(rec, s) == mid.block_pointer(rec, s));
        assert(mid.block_bytes(d) == v.block_bytes(d));
        assert(mid.block_pointer(rec, s) != mid.block_pointer(rec, c));
        assert(mid.holds_block(d));
        assert(w.block_bytes(d) == mid.block_bytes(d));
    }
}

/// The steps of a write on a file whose blocks are its own, where every
/// slot before the position holds a block or every position that is
/// written has one: where they succeed, every byte
/// of the data can be found at its position, the position has moved past
/// the data, the size is as it was, and the slots before the position
/// are as they were.
pub proof fn lemma_write_chunks(v: FsView, rec: int, group: int, p: int, data: Seq<u8>)
    requires
        v.wf(),
        v.consistent(rec, group),
        0 <= p,
        v.ready_for(rec, p, data.len() as int),
        v.write_chunks(rec, group, p, data).result is Ok,
    ensures
        ({
            let o = v.write_chunks(rec, group, p, data);
            &&& o.position == p + data.len()
            &&& v.same_volume(o.view)
            &&& o.view.consistent(rec, group)
            &&& o.view.file_size(rec) == v.file_size(rec)
            &&& data.len() > 0 ==> o.position <= DIRECT_BLOCKS * v.block_size
            &&& forall|q: int| p <= q < p + data.len() ==> #[trigger] o.view.mapped(rec, q)
            &&& forall|i: int|
                0 <= i < data.len() ==> o.view.file_byte(rec, p + i) == #[trigger] data[i]
            &&& forall|s: int|
                0 <= s < p / v.block_size && s < DIRECT_BLOCKS && v.block_pointer(rec, s) != 0
                    && v.holds_block(v.block_pointer(rec, s) as int) ==> #[trigger] v.slot_kept(
                    o.view,
                    rec,
                    s,
                )
        }),
    decreases data.len(),
{
    let size = v.block_size;
    let o = v.write_chunks(rec, group, p, data);
    if data.len() == 0 {
        assert forall|s: int|
            0 <= s < p / size && s < DIRECT_BLOCKS && v.block_pointer(rec, s) != 0
                && v.holds_block(v.block_pointer(rec, s) as int) implies #[trigger] v.slot_kept(
            o.view,
            rec,
            s,
        ) by {}
    } else {
        let c = p / size;
        lemma_position(size, p);
        if !v.filled_below(rec, p) {
            assert(v.mapped(rec, p));
        }
        lemma_write_chunk(v, rec, group, p, data);
        let w = v.write_chunk(rec, group, p, data).0;
        let n = v.write_chunk(rec, group, p, data).1->Ok_0;
        let rest = data.subrange(n, data.len() as int);
        assert(o == w.write_chunks(rec, group, p + n, rest));
        if !v.filled_below(rec, p) {
            assert forall|q: int| p + n <= q < p + n + rest.len() implies #[trigger] w.mapped(
                rec,
                q,
            ) by {
                assert(v.mapped(rec, q));
                assert(w.block_pointer(rec, q / size) == v.block_pointer(rec, q / size));
            }
        }
        lemma_write_chunks(w, rec, group, p + n, rest);
        lemma_slot_bound(size, p, DIRECT_BLOCKS as int);
        if rest.len() > 0 {
            lemma_next_block(size, p);
            assert((p + n) / size == c + 1);
        }
        assert forall|q: int| p <= q < p + data.len() implies #[trigger] o.view.mapped(rec, q) by {
            if q < p + n {
                lemma_within_block(size, p, q - p);
                assert(w.mapped(rec, q));
                if rest.len() > 0 {
                    assert(w.slot_kept(o.view, rec, c));
                    lemma_slot_kept(w, o.view, rec, q);
                }
            }
        }
        assert forall|i: int| 0 <= i < data.len() implies o.view.file_byte(rec, p + i)
            == #[trigger] data[i] by {
            if i < n {
                lemma_within_block(size, p, i);
                assert(w.mapped(rec, p + i));
                assert(w.file_byte(rec, p + i) == data[i]);
                if rest.len() > 0 {
                    assert(w.slot_kept(o.view, rec, c));
                    lemma_slot_kept(w, o.view, rec, p + i);
                }
            } else {
                assert(rest[i - n] == data[i]);
                assert(o.view.file_byte(rec, (p + n) + (i - n)) == rest[i - n]);
            }
        }
        assert forall|s: int|
            0 <= s < p / size && s < DIRECT_BLOCKS && v.block_pointer(rec, s) != 0
                && v.holds_block(v.block_pointer(rec, s) as int) implies #[trigger] v.slot_kept(
            o.view,
            rec,
            s,
        ) by {
            assert(v.slot_kept(w, rec, s));
            if rest.len() > 0 {
                assert(w.holds_block(w.block_pointer(rec, s) as int));
                assert(w.slot_kept(o.view, rec, s));
            }
        }
    }
}

/// After a write of `data` at position `p` of a file whose blocks are its
/// own, with a block in every slot before `p` or at every position that
/// is written: every position from `p` up
/// to `p + data.len()` can be read and holds the byte of `data` that was
/// written there, and the size of the file is the larger of its old size
/// and `p + data.len()`. A read of `data.len()` bytes from `p` therefore
/// returns `data`.
pub proof fn lemma_write_then_read(v: FsView, rec: int, group: int, p: int, data: Seq<u8>)
    requires
        v.wf(),
        v.consistent(rec, group),
        0 <= p <= u32::MAX,
        v.ready_for(rec, p, data.len() as int),
        v.write(rec, group, p, data).result is Ok,
    ensures
        ({
            let o = v.write(rec, group, p, data);
            &&& o.position == p + data.len()
            &&& v.same_volume(o.view)
            &&& o.view.file_size(rec) == if v.file_size(rec) >= p + data.len() {
                v.file_size(rec) as int
            } else {
                p + data.len()
            }
            &&& forall|q: int| p <= q < p + data.len() ==> #[trigger] o.view.readable(rec, q)
            &&& forall|i: int|
                0 <= i < data.len() ==> o.view.file_byte(rec, p + i) == #[trigger] data[i]
        }),
{
    let steps = v.write_chunks(rec, group, p, data);
    let o = v.write(rec, group, p, data);
    let w = steps.view;
    lemma_write_chunks(v, rec, group, p, data);
    let end = p + data.len();
    if end > w.file_size(rec) {
        let field = rec + SIZE_OFFSET;
        lemma_splice_frame(w.image, field, u32_bytes(end as u32));
        lemma_u32_stored(w.image, field, end as u32);
        assert(o.view.file_size(rec) == end);
        assert forall|s: int| 0 <= s < DIRECT_BLOCKS implies #[trigger] o.view.block_pointer(
            rec,
            s,
        ) == w.block_pointer(rec, s) by {
            lemma_u32_outside(w.image, o.view.image, field, field + 4, rec + BLOCKS_OFFSET + 4 * s);
        }
        crate::frame::lemma_agree_widen(w.image, o.view.image, field, field + 4, rec, rec + INODE_SIZE);
        assert forall|q: int| p <= q < end implies #[trigger] o.view.readable(rec, q) by {
            assert(w.mapped(rec, q));
            let s = q / w.block_size;
            let d = w.block_pointer(rec, s) as int;
            assert(w.data_block(rec, group, d));
            lemma_block_outside(w, o.view, rec, rec + INODE_SIZE, d);
            assert(w.slot_kept(o.view, rec, s));
            lemma_slot_kept(w, o.view, rec, q);
        }
        assert forall|i: int| 0 <= i < data.len() implies o.view.file_byte(rec, p + i)
            == #[trigger] data[i] by {
            let q = p + i;
            assert(w.mapped(rec, q));
            let s = q / w.block_size;
            let d = w.block_pointer(rec, s) as int;
            assert(w.data_block(rec, group, d));
            lemma_block_outside(w, o.view, rec, rec + INODE_SIZE, d);
            assert(w.slot_kept(o.view, rec, s));
            lemma_slot_kept(w, o.view, rec, q);
            assert(w.file_byte(rec, p + i) == data[i]);
        }
    } else {
        assert forall|q: int| p <= q < end implies #[trigger] o.view.readable(rec, q) by {
            assert(w.mapped(rec, q));
        }
    }
}

/// A write over positions that all have a block, in a file whose blocks
/// are its own, succeeds.
pub proof fn lemma_write_in_place(v: FsView, rec: int, group: int, p: int, data: Seq<u8>)
    requires
        v.wf(),
        v.consistent(rec, group),
        0 <= p,
        forall|q: int| p <= q < p + data.len() ==> #[trigger] v.mapped(rec, q),
    ensures
        v.write_chunks(rec, group, p, data).result is Ok,
        v.write(rec, group, p, data).result is Ok,
    decreases data.len(),
{
    if data.len() > 0 {
        let size = v.block_size;
        let c = p / size;
        lemma_position(size, p);
        assert(v.mapped(rec, p));
        let b = v.block_pointer(rec, c) as int;
        let n = v.chunk_len(p, data.len() as int);
        let chunk = data.subrange(0, n);
        lemma_store_in_block(v, rec, group, b, p % size, chunk);
        let w = v.with_image(splice(v.image, v.block_start(b) + p % size, chunk));
        assert(v.write_chunk(rec, group, p, data) == (w, Ok::<int, Ext2Error>(n)));
        let rest = data.subrange(n, data.len() as int);
        assert forall|q: int| p + n <= q < p + n + rest.len() implies #[trigger] w.mapped(rec, q) by {
            assert(v.mapped(rec, q));
            assert(w.block_pointer(rec, q / size) == v.block_pointer(rec, q / size));
        }
        lemma_write_in_place(w, rec, group, p + n, rest);
    }
}

} // verus!
