//! Frames: what a change of some bytes of the image leaves as it was.
//!
//! Every write of the driver changes one run of bytes. The lemmas here say
//! which fields, bits and blocks lie outside such a run and so keep their
//! value.

use vstd::prelude::*;
use crate::bitmap::{bit_at, first_clear, lemma_first_clear_from, lemma_set_bit, set_bit};
use crate::bytes::{splice, u16_at, u32_at};
use crate::fs::{lemma_block_range, FsView};
use crate::inode::{BLOCKS_OFFSET, DIRECT_BLOCKS, INODE_SIZE};

verus! {

/// `a` and `b` have the same length and the same bytes outside `lo..hi`.
pub open spec fn agree_outside(a: Seq<u8>, b: Seq<u8>, lo: int, hi: int) -> bool {
    &&& a.len() == b.len()
    &&& forall|x: int| 0 <= x < a.len() && !(lo <= x < hi) ==> #[trigger] b[x] == a[x]
}

/// The runs `a..b` and `c..d` have no byte in common.
pub open spec fn apart(a: int, b: int, c: int, d: int) -> bool {
    b <= c || d <= a
}

/// Replacing bytes changes nothing outside the run that was replaced.
pub proof fn lemma_splice_frame(s: Seq<u8>, at: int, data: Seq<u8>)
    requires
        0 <= at,
        at + data.len() <= s.len(),
    ensures
        agree_outside(s, splice(s, at, data), at, at + data.len()),
        forall|k: int| 0 <= k < data.len() ==> #[trigger] splice(s, at, data)[at + k] == data[k],
{
}

/// Setting a bit changes nothing outside the byte that holds it.
pub proof fn lemma_set_bit_frame(s: Seq<u8>, base: int, i: int)
    requires
        0 <= base,
        0 <= i,
        base + i / 8 < s.len(),
    ensures
        agree_outside(s, set_bit(s, base, i), base + i / 8, base + i / 8 + 1),
{
}

/// A change within a run that is itself within a larger run is a change
/// within the larger run.
pub proof fn lemma_agree_widen(a: Seq<u8>, b: Seq<u8>, lo: int, hi: int, lo2: int, hi2: int)
    requires
        agree_outside(a, b, lo, hi),
        lo2 <= lo,
        hi <= hi2,
    ensures
        agree_outside(a, b, lo2, hi2),
{
}

/// A 32-bit field outside the run that changed keeps its value.
pub proof fn lemma_u32_outside(a: Seq<u8>, b: Seq<u8>, lo: int, hi: int, field: int)
    requires
        agree_outside(a, b, lo, hi),
        0 <= field,
        field + 4 <= a.len(),
        apart(field, field + 4, lo, hi),
    ensures
        u32_at(b, field) == u32_at(a, field),
{
    assert(b[field] == a[field]);
    assert(b[field + 1] == a[field + 1]);
    assert(b[field + 2] == a[field + 2]);
    assert(b[field + 3] == a[field + 3]);
}

/// A 16-bit field outside the run that changed keeps its value.
pub proof fn lemma_u16_outside(a: Seq<u8>, b: Seq<u8>, lo: int, hi: int, field: int)
    requires
        agree_outside(a, b, lo, hi),
        0 <= field,
        field + 2 <= a.len(),
        apart(field, field + 2, lo, hi),
    ensures
        u16_at(b, field) == u16_at(a, field),
{
    assert(b[field] == a[field]);
    assert(b[field + 1] == a[field + 1]);
}

/// The bits of a bitmap outside the run that changed keep their value.
pub proof fn lemma_bits_outside(
    a: Seq<u8>,
    b: Seq<u8>,
    lo: int,
    hi: int,
    base: int,
    size: int,
)
    requires
        agree_outside(a, b, lo, hi),
        0 <= base,
        0 <= size,
        base + size <= a.len(),
        apart(base, base + size, lo, hi),
    ensures
        forall|i: int| 0 <= i < 8 * size ==> #[trigger] bit_at(b, base, i) == bit_at(a, base, i),
{
    assert forall|i: int| 0 <= i < 8 * size implies #[trigger] bit_at(b, base, i) == bit_at(
        a,
        base,
        i,
    ) by {
        assert(b[base + i / 8] == a[base + i / 8]);
    }
}

impl FsView {
    /// The bytes of block `b` and the record at `rec` have no byte in
    /// common.
    pub open spec fn block_apart(self, b: int, rec: int) -> bool {
        apart(
            self.block_start(b),
            self.block_start(b) + self.block_size,
            rec,
            rec + INODE_SIZE,
        )
    }
}

/// The block pointers and the size of an inode whose record lies outside
/// the run that changed keep their value.
pub proof fn lemma_record_outside(v: FsView, w: FsView, lo: int, hi: int, rec: int)
    requires
        v.same_volume(w),
        agree_outside(v.image, w.image, lo, hi),
        0 <= rec,
        rec + INODE_SIZE <= v.image.len(),
        apart(rec, rec + INODE_SIZE, lo, hi),
    ensures
        w.file_size(rec) == v.file_size(rec),
        w.mode(rec) == v.mode(rec),
        forall|s: int|
            0 <= s < DIRECT_BLOCKS ==> #[trigger] w.block_pointer(rec, s) == v.block_pointer(rec, s),
{
    lemma_u32_outside(v.image, w.image, lo, hi, rec + 4);
    lemma_u16_outside(v.image, w.image, lo, hi, rec);
    assert forall|s: int| 0 <= s < DIRECT_BLOCKS implies #[trigger] w.block_pointer(rec, s)
        == v.block_pointer(rec, s) by {
        lemma_u32_outside(v.image, w.image, lo, hi, rec + BLOCKS_OFFSET + 4 * s);
    }
}

/// Two blocks of a volume with different numbers have no byte in common,
/// and a block that the image holds lies within it.
pub proof fn lemma_blocks_apart(v: FsView, b: int, c: int)
    requires
        v.wf(),
        0 <= b,
        0 <= c,
        b != c,
    ensures
        apart(
            v.block_start(b),
            v.block_start(b) + v.block_size,
            v.block_start(c),
            v.block_start(c) + v.block_size,
        ),
        0 <= v.block_start(b),
        v.block_start(b) + v.block_size == v.block_start(b + 1),
{
    if b < c {
        lemma_block_range(v.block_size, b, c);
    } else {
        lemma_block_range(v.block_size, c, b);
    }
    lemma_block_range(v.block_size, b, b);
    lemma_block_range(v.block_size, c, c);
}

/// Reserving a bit of a bitmap sets the first clear bit of the block and
/// changes no other bit: not of the bitmap, and not of any other byte of
/// the image.
pub proof fn lemma_reserve_one_bit(v: FsView, b: int)
    requires
        v.wf(),
        v.reserve_in(b).1 is Ok,
    ensures
        ({
            let w = v.reserve_in(b).0;
            let i = v.reserve_in(b).1->Ok_0;
            let base = v.block_start(b);
            &&& v.same_volume(w)
            &&& 0 <= i < 8 * v.block_size
            &&& !bit_at(v.image, base, i)
            &&& forall|j: int| 0 <= j < i ==> #[trigger] bit_at(v.image, base, j)
            &&& bit_at(w.image, base, i)
            &&& forall|j: int|
                0 <= j < 8 * v.block_size && j != i ==> #[trigger] bit_at(w.image, base, j)
                    == bit_at(v.image, base, j)
            &&& agree_outside(v.image, w.image, base + i / 8, base + i / 8 + 1)
        }),
{
    let base = v.block_start(b);
    lemma_block_range(v.block_size, b, b);
    lemma_first_clear_from(v.image, base, 0, 8 * v.block_size);
    let i = first_clear(v.image, base, 8 * v.block_size)->Some_0;
    lemma_set_bit(v.image, base, 8 * v.block_size, i);
    lemma_set_bit_frame(v.image, base, i);
}

} // verus!
