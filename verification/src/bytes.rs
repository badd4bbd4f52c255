//! Little-endian integers inside byte sequences.
//!
//! Every on-disk record of the file system is a run of bytes with fixed
//! field offsets. The functions here say what a 16- or 32-bit field at an
//! offset is worth, and how storing one changes the bytes around it.

use vstd::prelude::*;

verus! {

/// The 16-bit value whose two bytes start at `at`, low byte first.
pub open spec fn u16_at(s: Seq<u8>, at: int) -> u16 {
    (s[at] as int + 256 * (s[at + 1] as int)) as u16
}

/// The 32-bit value whose four bytes start at `at`, low byte first.
pub open spec fn u32_at(s: Seq<u8>, at: int) -> u32 {
    (s[at] as int + 256 * (s[at + 1] as int) + 65536 * (s[at + 2] as int) + 16777216 * (s[at
        + 3] as int)) as u32
}

/// The two bytes that store `v`, low byte first.
pub open spec fn u16_bytes(v: u16) -> Seq<u8> {
    seq![(v % 256) as u8, (v / 256) as u8]
}

/// The four bytes that store `v`, low byte first.
pub open spec fn u32_bytes(v: u32) -> Seq<u8> {
    seq![
        (v % 256) as u8,
        (v / 256 % 256) as u8,
        (v / 65536 % 256) as u8,
        (v / 16777216) as u8,
    ]
}

/// `s` with the bytes from `at` on replaced by `data`; every other byte stays.
pub open spec fn splice(s: Seq<u8>, at: int, data: Seq<u8>) -> Seq<u8> {
    Seq::new(
        s.len(),
        |i: int|
            if at <= i < at + data.len() {
                data[i - at]
            } else {
                s[i]
            },
    )
}

/// A 32-bit field reads back as what was stored in it.
pub proof fn lemma_u32_stored(s: Seq<u8>, at: int, v: u32)
    requires
        0 <= at,
        at + 4 <= s.len(),
    ensures
        u32_at(splice(s, at, u32_bytes(v)), at) == v,
{
    let t = splice(s, at, u32_bytes(v));
    assert(t[at] == u32_bytes(v)[0]);
    assert(t[at + 1] == u32_bytes(v)[1]);
    assert(t[at + 2] == u32_bytes(v)[2]);
    assert(t[at + 3] == u32_bytes(v)[3]);
}

/// Reads the 16-bit field at `at`.
pub(crate) fn get_u16(bytes: &[u8], at: usize) -> (v: u16)
    requires
        at + 2 <= bytes.len(),
    ensures
        v == u16_at(bytes@, at as int),
{
    let lo: u16 = bytes[at] as u16;
    let hi: u16 = bytes[at + 1] as u16;
    lo + hi * 256
}

/// Reads the 32-bit field at `at`.
pub(crate) fn get_u32(bytes: &[u8], at: usize) -> (v: u32)
    requires
        at + 4 <= bytes.len(),
    ensures
        v == u32_at(bytes@, at as int),
{
    let b0: u32 = bytes[at] as u32;
    let b1: u32 = bytes[at + 1] as u32;
    let b2: u32 = bytes[at + 2] as u32;
    let b3: u32 = bytes[at + 3] as u32;
    b0 + b1 * 256 + b2 * 65536 + b3 * 16777216
}

/// Stores `v` in the 16-bit field at `at`.
pub(crate) fn put_u16(bytes: &mut Vec<u8>, at: usize, v: u16)
    requires
        at + 2 <= old(bytes).len(),
    ensures
        final(bytes)@ == splice(old(bytes)@, at as int, u16_bytes(v)),
{
    bytes.set(at, (v % 256) as u8);
    bytes.set(at + 1, (v / 256) as u8);
    assert(bytes@ =~= splice(old(bytes)@, at as int, u16_bytes(v)));
}

/// Stores `v` in the 32-bit field at `at`.
pub(crate) fn put_u32(bytes: &mut Vec<u8>, at: usize, v: u32)
    requires
        at + 4 <= old(bytes).len(),
    ensures
        final(bytes)@ == splice(old(bytes)@, at as int, u32_bytes(v)),
{
    bytes.set(at, (v % 256) as u8);
    bytes.set(at + 1, (v / 256 % 256) as u8);
    bytes.set(at + 2, (v / 65536 % 256) as u8);
    bytes.set(at + 3, (v / 16777216) as u8);
    assert(bytes@ =~= splice(old(bytes)@, at as int, u32_bytes(v)));
}

/// Copies `count` bytes of `data`, from `from` on, over the bytes of `bytes`
/// that start at `at`.
pub(crate) fn put_slice(bytes: &mut Vec<u8>, at: usize, data: &[u8], from: usize, count: usize)
    requires
        at + count <= old(bytes).len(),
        from + count <= data.len(),
    ensures
        final(bytes)@ == splice(
            old(bytes)@,
            at as int,
            data@.subrange(from as int, from + count),
        ),
{
    let mut i: usize = 0;
    while i < count
        invariant
            i <= count,
            at + count <= bytes.len(),
            from + count <= data.len(),
            bytes@ == splice(old(bytes)@, at as int, data@.subrange(from as int, from + i)),
        decreases count - i,
    {
        let b: u8 = data[from + i];
        bytes.set(at + i, b);
        i = i + 1;
        assert(bytes@ =~= splice(
            old(bytes)@,
            at as int,
            data@.subrange(from as int, from + i),
        ));
    }
    assert(bytes@ =~= splice(old(bytes)@, at as int, data@.subrange(from as int, from + count)));
}

/// Copies `count` bytes of `bytes`, from `at` on, over the bytes of `buffer`
/// that start at `to`.
pub(crate) fn get_slice(bytes: &[u8], at: usize, buffer: &mut [u8], to: usize, count: usize)
    requires
        at + count <= bytes.len(),
        to + count <= old(buffer).len(),
    ensures
        final(buffer)@ == splice(
            old(buffer)@,
            to as int,
            bytes@.subrange(at as int, at + count),
        ),
{
    let mut i: usize = 0;
    while i < count
        invariant
            i <= count,
            at + count <= bytes.len(),
            to + count <= buffer.len(),
            buffer@ == splice(old(buffer)@, to as int, bytes@.subrange(at as int, at + i)),
        decreases count - i,
    {
        let b: u8 = bytes[at + i];
        buffer[to + i] = b;
        i = i + 1;
        assert(buffer@ =~= splice(
            old(buffer)@,
            to as int,
            bytes@.subrange(at as int, at + i),
        ));
    }
    assert(buffer@ =~= splice(old(buffer)@, to as int, bytes@.subrange(at as int, at + count)));
}

} // verus!
