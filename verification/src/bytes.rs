//! Big-endian integers in byte strings.

use vstd::prelude::*;

verus! {

/// The big-endian 16-bit number at `d[off..off + 2]`.
pub open spec fn be_u16(d: Seq<u8>, off: int) -> u16 {
    (d[off] as int * 0x100 + d[off + 1] as int) as u16
}

/// The big-endian 32-bit number at `d[off..off + 4]`.
pub open spec fn be_u32(d: Seq<u8>, off: int) -> u32 {
    (d[off] as int * 0x1000000 + d[off + 1] as int * 0x10000 + d[off + 2] as int * 0x100
        + d[off + 3] as int) as u32
}

/// Read the big-endian 16-bit number at `off`.
pub fn read_u16_be(data: &[u8], off: usize) -> (v: u16)
    requires
        off + 2 <= data@.len(),
    ensures
        v == be_u16(data@, off as int),
{
    let b0 = data[off];
    let b1 = data[off + 1];
    assert(((b0 as u16) << 8u16) | (b1 as u16) == b0 as int * 0x100 + b1 as int) by (bit_vector);
    ((b0 as u16) << 8u16) | (b1 as u16)
}

/// Read the big-endian 32-bit number at `off`.
pub fn read_u32_be(data: &[u8], off: usize) -> (v: u32)
    requires
        off + 4 <= data@.len(),
    ensures
        v == be_u32(data@, off as int),
{
    let b0 = data[off];
    let b1 = data[off + 1];
    let b2 = data[off + 2];
    let b3 = data[off + 3];
    assert(((b0 as u32) << 24u32) | ((b1 as u32) << 16u32) | ((b2 as u32) << 8u32) | (b3 as u32)
        == b0 as int * 0x1000000 + b1 as int * 0x10000 + b2 as int * 0x100 + b3 as int)
        by (bit_vector);
    ((b0 as u32) << 24u32) | ((b1 as u32) << 16u32) | ((b2 as u32) << 8u32) | (b3 as u32)
}

/// Copy `line` into `data` at `start`.
pub fn put_bytes(data: &mut Vec<u8>, start: usize, line: &[u8])
    requires
        start + line@.len() <= old(data)@.len(),
    ensures
        final(data)@.len() == old(data)@.len(),
        forall|i: int|
            0 <= i < old(data)@.len() ==> #[trigger] final(data)@[i] == if start <= i < start + line@.len() {
                line@[i - start]
            } else {
                old(data)@[i]
            },
{
    let n = data.len();
    let mut i: usize = 0;
    while i < line.len()
        invariant
            n == data@.len(),
            start + line@.len() <= data@.len(),
            data@.len() == old(data)@.len(),
            i <= line@.len(),
            forall|j: int|
                0 <= j < data@.len() ==> #[trigger] data@[j] == if start <= j < start + i {
                    line@[j - start]
                } else {
                    old(data)@[j]
                },
        decreases line@.len() - i,
    {
        data.set(start + i, line[i]);
        i += 1;
    }
}

/// Set bytes `from .. to` of `data` to 0.
pub fn zero_bytes(data: &mut Vec<u8>, from: usize, to: usize)
    requires
        from <= to <= old(data)@.len(),
    ensures
        final(data)@.len() == old(data)@.len(),
        forall|i: int|
            0 <= i < old(data)@.len() ==> #[trigger] final(data)@[i] == if from <= i < to {
                0u8
            } else {
                old(data)@[i]
            },
{
    let mut i: usize = from;
    while i < to
        invariant
            from <= i <= to,
            to <= data@.len(),
            data@.len() == old(data)@.len(),
            forall|j: int|
                0 <= j < data@.len() ==> #[trigger] data@[j] == if from <= j < i {
                    0u8
                } else {
                    old(data)@[j]
                },
        decreases to - i,
    {
        data.set(i, 0);
        i += 1;
    }
}

} // verus!
