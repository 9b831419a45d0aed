//! Little-endian encoding of fixed-width integers and floats into byte
//! buffers. A float is handled as its IEEE-754 bit pattern (`f32::to_bits`,
//! `f64::to_bits`), whose little-endian bytes are those of the float.

use vstd::bytes::{
    spec_u32_from_le_bytes, spec_u32_to_le_bytes, spec_u64_from_le_bytes, spec_u64_to_le_bytes,
    u32_from_le_bytes, u32_to_le_bytes, u64_from_le_bytes, u64_to_le_bytes,
};
use vstd::prelude::*;
use vstd::slice::slice_subrange;

verus! {

/// The value of the four bytes of `bytes` that start at `pos`, least significant first.
pub open spec fn u32_at(bytes: Seq<u8>, pos: int) -> u32 {
    spec_u32_from_le_bytes(bytes.subrange(pos, pos + 4))
}

/// The value of the eight bytes of `bytes` that start at `pos`, least significant first.
pub open spec fn u64_at(bytes: Seq<u8>, pos: int) -> u64 {
    spec_u64_from_le_bytes(bytes.subrange(pos, pos + 8))
}

/// Appends `value` to `w` as four bytes, least significant first.
pub fn write_u32(w: &mut Vec<u8>, value: u32)
    ensures
        final(w)@ == old(w)@ + spec_u32_to_le_bytes(value),
{
    let mut b = u32_to_le_bytes(value);
    w.append(&mut b);
}

/// Appends `value` to `w` as eight bytes, least significant first.
pub fn write_u64(w: &mut Vec<u8>, value: u64)
    ensures
        final(w)@ == old(w)@ + spec_u64_to_le_bytes(value),
{
    let mut b = u64_to_le_bytes(value);
    w.append(&mut b);
}

/// Reads a little-endian `u32` at the cursor `pos` and moves the cursor past it.
/// Returns `None`, and leaves the cursor where it was, when fewer than four
/// bytes remain.
pub fn read_u32(r: &[u8], pos: &mut usize) -> (res: Option<u32>)
    ensures
        old(pos) + 4 <= r@.len() ==> res == Some(u32_at(r@, *old(pos) as int)) && *final(pos)
            == *old(pos) + 4,
        old(pos) + 4 > r@.len() ==> res is None && *final(pos) == *old(pos),
{
    if *pos > r.len() || r.len() - *pos < 4 {
        return None;
    }
    let start = *pos;
    let v = u32_from_le_bytes(slice_subrange(r, start, start + 4));
    *pos = start + 4;
    Some(v)
}

/// Reads a little-endian `u64` at the cursor `pos` and moves the cursor past it.
/// Returns `None`, and leaves the cursor where it was, when fewer than eight
/// bytes remain.
pub fn read_u64(r: &[u8], pos: &mut usize) -> (res: Option<u64>)
    ensures
        old(pos) + 8 <= r@.len() ==> res == Some(u64_at(r@, *old(pos) as int)) && *final(pos)
            == *old(pos) + 8,
        old(pos) + 8 > r@.len() ==> res is None && *final(pos) == *old(pos),
{
    if *pos > r.len() || r.len() - *pos < 8 {
        return None;
    }
    let start = *pos;
    let v = u64_from_le_bytes(slice_subrange(r, start, start + 8));
    *pos = start + 8;
    Some(v)
}

/// The little-endian encoding of each word of `ws`, in order.
pub open spec fn le_words(ws: Seq<u32>) -> Seq<u8>
    decreases ws.len(),
{
    if ws.len() == 0 {
        Seq::empty()
    } else {
        le_words(ws.drop_last()) + spec_u32_to_le_bytes(ws.last())
    }
}

/// The `count` words that the bytes of `bytes` hold back to back from `pos`.
pub open spec fn words_at(bytes: Seq<u8>, pos: int, count: nat) -> Seq<u32> {
    Seq::new(count, |j: int| u32_at(bytes, pos + 4 * j))
}

/// Appends a single-precision float, given as its bit pattern, as four
/// bytes, least significant first.
pub fn write_f32(w: &mut Vec<u8>, bits: u32)
    ensures
        final(w)@ == old(w)@ + spec_u32_to_le_bytes(bits),
{
    write_u32(w, bits)
}

/// Appends a double-precision float, given as its bit pattern, as eight
/// bytes, least significant first.
pub fn write_f64(w: &mut Vec<u8>, bits: u64)
    ensures
        final(w)@ == old(w)@ + spec_u64_to_le_bytes(bits),
{
    write_u64(w, bits)
}

/// Appends each single-precision float of `values`, given as bit patterns.
pub fn write_f32_slice(w: &mut Vec<u8>, values: &[u32])
    ensures
        final(w)@ == old(w)@ + le_words(values@),
{
    let ghost start = w@;
    let mut j: usize = 0;
    while j < values.len()
        invariant
            0 <= j <= values@.len(),
            w@ == start + le_words(values@.subrange(0, j as int)),
        decreases values.len() - j,
    {
        write_f32(w, values[j]);
        proof {
            let next = values@.subrange(0, j + 1);
            assert(next.drop_last() =~= values@.subrange(0, j as int));
            assert(w@ =~= start + le_words(next));
        }
        j += 1;
    }
    assert(values@.subrange(0, values@.len() as int) =~= values@);
}

/// Reads a single-precision float's bit pattern at the cursor `pos` and
/// moves the cursor past it; `None` when fewer than four bytes remain.
pub fn read_f32(r: &[u8], pos: &mut usize) -> (res: Option<u32>)
    ensures
        old(pos) + 4 <= r@.len() ==> res == Some(u32_at(r@, *old(pos) as int)) && *final(pos)
            == *old(pos) + 4,
        old(pos) + 4 > r@.len() ==> res is None && *final(pos) == *old(pos),
{
    read_u32(r, pos)
}

/// Reads a double-precision float's bit pattern at the cursor `pos` and
/// moves the cursor past it; `None` when fewer than eight bytes remain.
pub fn read_f64(r: &[u8], pos: &mut usize) -> (res: Option<u64>)
    ensures
        old(pos) + 8 <= r@.len() ==> res == Some(u64_at(r@, *old(pos) as int)) && *final(pos)
            == *old(pos) + 8,
        old(pos) + 8 > r@.len() ==> res is None && *final(pos) == *old(pos),
{
    read_u64(r, pos)
}

/// Reads `count` single-precision floats' bit patterns from the cursor
/// `pos` and moves the cursor past them. Returns `None`, and leaves the
/// cursor where it was, when fewer than `4 * count` bytes remain.
pub fn read_f32_vec(r: &[u8], pos: &mut usize, count: usize) -> (res: Option<Vec<u32>>)
    ensures
        old(pos) + 4 * count <= r@.len() ==> res is Some && res->Some_0@ == words_at(
            r@,
            *old(pos) as int,
            count as nat,
        ) && *final(pos) == *old(pos) + 4 * count,
        old(pos) + 4 * count > r@.len() ==> res is None && *final(pos) == *old(pos),
{
    let len = r.len();
    let start = *pos;
    if start > len || (len - start) / 4 < count {
        return None;
    }
    let mut v: Vec<u32> = Vec::new();
    let mut j: usize = 0;
    while j < count
        invariant
            j <= count,
            start + 4 * count <= r@.len(),
            len == r@.len(),
            *pos == start + 4 * j,
            v@ =~= words_at(r@, start as int, j as nat),
        decreases count - j,
    {
        match read_f32(r, pos) {
            Some(w) => v.push(w),
            None => {
                assert(false);
            },
        }
        j += 1;
    }
    Some(v)
}

} // verus!
