//! Little-endian primitives shared by the bytecode and snapshot formats.

use vstd::bytes::{
    spec_u32_from_le_bytes, spec_u32_to_le_bytes, spec_u64_from_le_bytes, spec_u64_to_le_bytes,
    u32_from_le_bytes, u32_to_le_bytes, u64_from_le_bytes, u64_to_le_bytes,
};
use vstd::prelude::*;
use vstd::slice::slice_subrange;

verus! {

/// The four little-endian bytes of `v`.
pub open spec fn le32(v: u32) -> Seq<u8> {
    spec_u32_to_le_bytes(v)
}

/// The eight little-endian bytes of `v`.
pub open spec fn le64(v: u64) -> Seq<u8> {
    spec_u64_to_le_bytes(v)
}

/// The number whose little-endian bytes start at `pos`.
pub open spec fn u32_at(data: Seq<u8>, pos: int) -> u32 {
    spec_u32_from_le_bytes(data.subrange(pos, pos + 4))
}

pub open spec fn u64_at(data: Seq<u8>, pos: int) -> u64 {
    spec_u64_from_le_bytes(data.subrange(pos, pos + 8))
}

/// Reading back what was written gives the same number, in any context.
pub proof fn lemma_le32_roundtrip(v: u32, pre: Seq<u8>, post: Seq<u8>)
    ensures
        le32(v).len() == 4,
        u32_at(pre + le32(v) + post, pre.len() as int) == v,
{
    vstd::bytes::lemma_auto_spec_u32_to_from_le_bytes();
    assert((pre + le32(v) + post).subrange(pre.len() as int, pre.len() + 4int) =~= le32(v));
}

pub proof fn lemma_le64_roundtrip(v: u64, pre: Seq<u8>, post: Seq<u8>)
    ensures
        le64(v).len() == 8,
        u64_at(pre + le64(v) + post, pre.len() as int) == v,
{
    vstd::bytes::lemma_auto_spec_u64_to_from_le_bytes();
    assert((pre + le64(v) + post).subrange(pre.len() as int, pre.len() + 8int) =~= le64(v));
}

pub fn push_u32(buf: &mut Vec<u8>, v: u32)
    ensures
        final(buf)@ == old(buf)@ + le32(v),
{
    let mut b = u32_to_le_bytes(v);
    buf.append(&mut b);
}

pub fn push_u64(buf: &mut Vec<u8>, v: u64)
    ensures
        final(buf)@ == old(buf)@ + le64(v),
{
    let mut b = u64_to_le_bytes(v);
    buf.append(&mut b);
}

pub fn push_bytes(buf: &mut Vec<u8>, bytes: &[u8])
    ensures
        final(buf)@ == old(buf)@ + bytes@,
{
    let mut i: usize = 0;
    while i < bytes.len()
        invariant
            i <= bytes@.len(),
            buf@ == old(buf)@ + bytes@.take(i as int),
        decreases bytes@.len() - i,
    {
        buf.push(bytes[i]);
        i = i + 1;
        assert(bytes@.take(i as int) =~= bytes@.take(i - 1).push(bytes@[i - 1]));
    }
    assert(bytes@.take(i as int) =~= bytes@);
}

/// The byte at `*pos`, advancing past it.
pub fn read_u8(data: &[u8], pos: &mut usize) -> (r: Option<u8>)
    ensures
        *old(pos) < data@.len() ==> r == Some(data@[*old(pos) as int]) && *final(pos) == *old(pos) + 1,
        *old(pos) >= data@.len() ==> r is None && *final(pos) == *old(pos),
{
    if *pos < data.len() {
        let b = data[*pos];
        *pos = *pos + 1;
        Some(b)
    } else {
        None
    }
}

/// The little-endian `u32` at `*pos`, advancing past it.
pub fn read_u32(data: &[u8], pos: &mut usize) -> (r: Option<u32>)
    ensures
        *old(pos) + 4 <= data@.len() ==> r == Some(u32_at(data@, *old(pos) as int)) && *final(pos)
            == *old(pos) + 4,
        *old(pos) + 4 > data@.len() ==> r is None && *final(pos) == *old(pos),
{
    if *pos <= data.len() && data.len() - *pos >= 4 {
        let s = slice_subrange(data, *pos, *pos + 4);
        let v = u32_from_le_bytes(s);
        *pos = *pos + 4;
        Some(v)
    } else {
        None
    }
}

/// The little-endian `u64` at `*pos`, advancing past it.
pub fn read_u64(data: &[u8], pos: &mut usize) -> (r: Option<u64>)
    ensures
        *old(pos) + 8 <= data@.len() ==> r == Some(u64_at(data@, *old(pos) as int)) && *final(pos)
            == *old(pos) + 8,
        *old(pos) + 8 > data@.len() ==> r is None && *final(pos) == *old(pos),
{
    if *pos <= data.len() && data.len() - *pos >= 8 {
        let s = slice_subrange(data, *pos, *pos + 8);
        let v = u64_from_le_bytes(s);
        *pos = *pos + 8;
        Some(v)
    } else {
        None
    }
}

/// The `len` bytes at `*pos`, advancing past them.
pub fn read_bytes<'a>(data: &'a [u8], pos: &mut usize, len: usize) -> (r: Option<&'a [u8]>)
    ensures
        *old(pos) + len <= data@.len() ==> (r matches Some(s) && s@ == data@.subrange(
            *old(pos) as int,
            *old(pos) + len,
        )) && *final(pos) == *old(pos) + len,
        *old(pos) + len > data@.len() ==> r is None && *final(pos) == *old(pos),
{
    if *pos <= data.len() && data.len() - *pos >= len {
        let s = slice_subrange(data, *pos, *pos + len);
        *pos = *pos + len;
        Some(s)
    } else {
        None
    }
}

} // verus!
