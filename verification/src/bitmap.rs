//! Allocation bitmaps: one bit per block or inode, set when it is in use.

use vstd::prelude::*;

verus! {

/// Bit `k` of `byte` is set; bit 0 is the lowest.
pub open spec fn bit_is_set(byte: u8, k: u8) -> bool {
    (byte >> k) & 1u8 == 1u8
}

/// `byte` with bit `k` set.
pub open spec fn with_bit(byte: u8, k: u8) -> u8 {
    byte | (1u8 << k)
}

/// Bit `i` of the bitmap that starts at byte `base` of `s` is set. Bit `i`
/// lives in byte `i / 8`, at position `i % 8` from the lowest.
pub open spec fn bit_at(s: Seq<u8>, base: int, i: int) -> bool {
    bit_is_set(s[base + i / 8], (i % 8) as u8)
}

/// `s` with bit `i` of the bitmap at `base` set.
pub open spec fn set_bit(s: Seq<u8>, base: int, i: int) -> Seq<u8> {
    s.update(base + i / 8, with_bit(s[base + i / 8], (i % 8) as u8))
}

/// The first clear bit among the bits `from..limit` of the bitmap at `base`.
pub open spec fn first_clear_from(s: Seq<u8>, base: int, from: int, limit: int) -> Option<int>
    decreases limit - from,
{
    if from >= limit {
        None
    } else if !bit_at(s, base, from) {
        Some(from)
    } else {
        first_clear_from(s, base, from + 1, limit)
    }
}

/// The first clear bit among the first `limit` bits of the bitmap at `base`.
pub open spec fn first_clear(s: Seq<u8>, base: int, limit: int) -> Option<int> {
    first_clear_from(s, base, 0, limit)
}

proof fn lemma_full_byte(b: u8)
    ensures
        b == 255 <==> (forall|k: u8| k < 8 ==> bit_is_set(b, k)),
{
    assert(b == 255 ==> (forall|k: u8| k < 8 ==> (b >> k) & 1u8 == 1u8)) by (bit_vector);
    if forall|k: u8| k < 8 ==> bit_is_set(b, k) {
        assert(bit_is_set(b, 0) && bit_is_set(b, 1) && bit_is_set(b, 2) && bit_is_set(b, 3));
        assert(bit_is_set(b, 4) && bit_is_set(b, 5) && bit_is_set(b, 6) && bit_is_set(b, 7));
        assert(b == 255) by (bit_vector)
            requires
                (b >> 0u8) & 1u8 == 1u8,
                (b >> 1u8) & 1u8 == 1u8,
                (b >> 2u8) & 1u8 == 1u8,
                (b >> 3u8) & 1u8 == 1u8,
                (b >> 4u8) & 1u8 == 1u8,
                (b >> 5u8) & 1u8 == 1u8,
                (b >> 6u8) & 1u8 == 1u8,
                (b >> 7u8) & 1u8 == 1u8,
        ;
    }
}

proof fn lemma_bit_test(b: u8, k: u8)
    requires
        k < 8,
    ensures
        (b & (1u8 << k) == 0) <==> !bit_is_set(b, k),
{
    assert((b & (1u8 << k) == 0) <==> !((b >> k) & 1u8 == 1u8)) by (bit_vector)
        requires
            k < 8,
    ;
}

/// Setting a bit sets it and leaves the seven others of the byte as they were.
pub proof fn lemma_with_bit(b: u8, k: u8)
    requires
        k < 8,
    ensures
        bit_is_set(with_bit(b, k), k),
        forall|j: u8| j < 8 && j != k ==> bit_is_set(with_bit(b, k), j) == bit_is_set(b, j),
{
    assert(((b | (1u8 << k)) >> k) & 1u8 == 1u8) by (bit_vector)
        requires
            k < 8,
    ;
    assert(forall|j: u8|
        j < 8 && j != k ==> (((b | (1u8 << k)) >> j) & 1u8 == 1u8) == ((b >> j) & 1u8 == 1u8))
        by (bit_vector)
        requires
            k < 8,
    ;
}

/// Setting bit `i` of a bitmap sets that bit and changes no other bit of it.
pub proof fn lemma_set_bit(s: Seq<u8>, base: int, limit: int, i: int)
    requires
        0 <= base,
        0 <= i < limit,
        base + (limit + 7) / 8 <= s.len(),
    ensures
        bit_at(set_bit(s, base, i), base, i),
        forall|j: int| 0 <= j < limit && j != i ==> bit_at(set_bit(s, base, i), base, j) == bit_at(s, base, j),
{
    let t = set_bit(s, base, i);
    lemma_with_bit(s[base + i / 8], (i % 8) as u8);
    assert forall|j: int| 0 <= j < limit && j != i implies bit_at(t, base, j) == bit_at(
        s,
        base,
        j,
    ) by {
        if j / 8 == i / 8 {
            assert(j % 8 != i % 8);
            assert(((j % 8) as u8) != ((i % 8) as u8));
        }
    }
}

/// What `first_clear_from` finds is clear, and every bit it passed is set.
pub proof fn lemma_first_clear_from(s: Seq<u8>, base: int, from: int, limit: int)
    requires
        0 <= from,
    ensures
        match first_clear_from(s, base, from, limit) {
            Some(i) => from <= i < limit && !bit_at(s, base, i) && forall|j: int|
                from <= j < i ==> bit_at(s, base, j),
            None => forall|j: int| from <= j < limit ==> bit_at(s, base, j),
        },
    decreases limit - from,
{
    if from < limit && bit_at(s, base, from) {
        lemma_first_clear_from(s, base, from + 1, limit);
    }
}

/// A clear bit that every earlier bit from `from` on is set before is the
/// one that `first_clear_from` finds.
pub proof fn lemma_first_clear_is(s: Seq<u8>, base: int, from: int, limit: int, i: int)
    requires
        0 <= from <= i < limit,
        !bit_at(s, base, i),
        forall|j: int| from <= j < i ==> bit_at(s, base, j),
    ensures
        first_clear_from(s, base, from, limit) == Some(i),
    decreases i - from,
{
    if from < i {
        lemma_first_clear_is(s, base, from + 1, limit, i);
    }
}

/// Where every bit from `from` on is set, `first_clear_from` finds none.
pub proof fn lemma_first_clear_none(s: Seq<u8>, base: int, from: int, limit: int)
    requires
        0 <= from,
        forall|j: int| from <= j < limit ==> bit_at(s, base, j),
    ensures
        first_clear_from(s, base, from, limit) is None,
    decreases limit - from,
{
    if from < limit {
        lemma_first_clear_none(s, base, from + 1, limit);
    }
}

/// Finds the lowest clear bit of a byte that is not full.
fn lowest_clear(byte: u8) -> (k: u8)
    requires
        byte != 255,
    ensures
        k < 8,
        !bit_is_set(byte, k),
        forall|j: u8| j < k ==> bit_is_set(byte, j),
{
    let mut k: u8 = 0;
    while k < 8
        invariant
            k <= 8,
            forall|j: u8| j < k ==> bit_is_set(byte, j),
        decreases 8 - k,
    {
        proof {
            lemma_bit_test(byte, k);
        }
        if byte & (1u8 << k) == 0 {
            return k;
        }
        k = k + 1;
    }
    proof {
        lemma_full_byte(byte);
    }
    0
}

/// Reserves the first free bit of the bitmap that takes `size` bytes from
/// `base` on: sets it and returns its index. `None`, with nothing changed,
/// when every bit is set.
pub fn reserve_bit(bytes: &mut Vec<u8>, base: usize, size: usize) -> (r: Option<u32>)
    requires
        base + size <= old(bytes).len(),
        8 * size <= u32::MAX,
    ensures
        match r {
            Some(i) => {
                &&& first_clear(old(bytes)@, base as int, 8 * size) == Some(i as int)
                &&& final(bytes)@ == set_bit(old(bytes)@, base as int, i as int)
                &&& bit_at(final(bytes)@, base as int, i as int)
                &&& forall|j: int|
                    0 <= j < 8 * size && j != i ==> bit_at(final(bytes)@, base as int, j)
                        == bit_at(old(bytes)@, base as int, j)
            },
            None => {
                &&& first_clear(old(bytes)@, base as int, 8 * size) is None
                &&& final(bytes)@ == old(bytes)@
            },
        },
{
    let mut index: usize = 0;
    while index < size
        invariant
            index <= size,
            base + size <= bytes.len(),
            8 * size <= u32::MAX,
            bytes@ == old(bytes)@,
            forall|j: int| 0 <= j < 8 * index ==> bit_at(bytes@, base as int, j),
        decreases size - index,
    {
        let byte: u8 = bytes[base + index];
        if byte != 255 {
            let k: u8 = lowest_clear(byte);
            let found: u32 = (index * 8) as u32 + k as u32;
            proof {
                let i = found as int;
                assert(i / 8 == index && i % 8 == k);
                assert forall|j: int| 0 <= j < i implies bit_at(bytes@, base as int, j) by {
                    if j >= 8 * index {
                        assert(j / 8 == index);
                        assert(((j % 8) as u8) < k);
                    }
                }
                lemma_first_clear_is(bytes@, base as int, 0, 8 * size, i);
                lemma_set_bit(bytes@, base as int, 8 * size, i);
            }
            bytes.set(base + index, byte | (1u8 << k));
            return Some(found);
        }
        proof {
            lemma_full_byte(byte);
            assert forall|j: int| 0 <= j < 8 * (index + 1) implies bit_at(
                bytes@,
                base as int,
                j,
            ) by {
                if j >= 8 * index {
                    assert(j / 8 == index);
                    assert(((j % 8) as u8) < 8);
                }
            }
        }
        index = index + 1;
    }
    proof {
        lemma_first_clear_none(bytes@, base as int, 0, 8 * size);
    }
    None
}

} // verus!
