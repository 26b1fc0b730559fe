//! Little-endian integer fields inside byte sequences.

use vstd::prelude::*;

verus! {

/// The value of the little-endian `u16` stored at `s[i..i + 2]`.
pub open spec fn le_u16(s: Seq<u8>, i: int) -> int {
    s[i] as int + 256 * s[i + 1]
}

/// The value of the little-endian `u32` stored at `s[i..i + 4]`.
pub open spec fn le_u32(s: Seq<u8>, i: int) -> int {
    le_u16(s, i) + 65536 * le_u16(s, i + 2)
}

/// The value of the little-endian `u64` stored at `s[i..i + 8]`.
pub open spec fn le_u64(s: Seq<u8>, i: int) -> int {
    le_u32(s, i) + 4294967296 * le_u32(s, i + 4)
}

/// The two little-endian bytes of `v`.
pub open spec fn u16_le_bytes(v: u16) -> Seq<u8> {
    seq![(v % 256) as u8, (v / 256) as u8]
}

/// The four little-endian bytes of `v`.
pub open spec fn u32_le_bytes(v: u32) -> Seq<u8> {
    u16_le_bytes((v % 65536) as u16) + u16_le_bytes((v / 65536) as u16)
}

/// The eight little-endian bytes of `v`.
pub open spec fn u64_le_bytes(v: u64) -> Seq<u8> {
    u32_le_bytes((v % 4294967296) as u32) + u32_le_bytes((v / 4294967296) as u32)
}

/// Reads the little-endian `u16` at `data[pos..pos + 2]`.
pub fn read_u16_le(data: &[u8], pos: usize) -> (r: u16)
    requires
        pos + 2 <= data.len(),
    ensures
        r == le_u16(data@, pos as int),
{
    data[pos] as u16 + data[pos + 1] as u16 * 256
}

/// Reads the little-endian `u32` at `data[pos..pos + 4]`.
pub fn read_u32_le(data: &[u8], pos: usize) -> (r: u32)
    requires
        pos + 4 <= data.len(),
    ensures
        r == le_u32(data@, pos as int),
{
    read_u16_le(data, pos) as u32 + read_u16_le(data, pos + 2) as u32 * 65536
}

/// Reads the little-endian `u64` at `data[pos..pos + 8]`.
pub fn read_u64_le(data: &[u8], pos: usize) -> (r: u64)
    requires
        pos + 8 <= data.len(),
    ensures
        r == le_u64(data@, pos as int),
{
    read_u32_le(data, pos) as u64 + read_u32_le(data, pos + 4) as u64 * 4294967296
}

/// Appends the little-endian bytes of `v` to `out`.
pub fn push_u16_le(out: &mut Vec<u8>, v: u16)
    ensures
        final(out)@ == old(out)@ + u16_le_bytes(v),
{
    out.push((v % 256) as u8);
    out.push((v / 256) as u8);
}

/// Appends the little-endian bytes of `v` to `out`.
pub fn push_u32_le(out: &mut Vec<u8>, v: u32)
    ensures
        final(out)@ == old(out)@ + u32_le_bytes(v),
{
    push_u16_le(out, (v % 65536) as u16);
    push_u16_le(out, (v / 65536) as u16);
}

/// Appends the little-endian bytes of `v` to `out`.
pub fn push_u64_le(out: &mut Vec<u8>, v: u64)
    ensures
        final(out)@ == old(out)@ + u64_le_bytes(v),
{
    push_u32_le(out, (v % 4294967296) as u32);
    push_u32_le(out, (v / 4294967296) as u32);
}

/// Reading back the bytes of a `u16` gives the `u16`.
pub proof fn lemma_u16_roundtrip(v: u16, s: Seq<u8>, i: int)
    requires
        0 <= i,
        i + 2 <= s.len(),
        s.subrange(i, i + 2) == u16_le_bytes(v),
    ensures
        le_u16(s, i) == v,
{
    assert(s[i] == s.subrange(i, i + 2)[0]);
    assert(s[i + 1] == s.subrange(i, i + 2)[1]);
}

/// Reading back the bytes of a `u32` gives the `u32`.
pub proof fn lemma_u32_roundtrip(v: u32, s: Seq<u8>, i: int)
    requires
        0 <= i,
        i + 4 <= s.len(),
        s.subrange(i, i + 4) == u32_le_bytes(v),
    ensures
        le_u32(s, i) == v,
{
    let lo = u16_le_bytes((v % 65536) as u16);
    let hi = u16_le_bytes((v / 65536) as u16);
    assert(s.subrange(i, i + 2) =~= s.subrange(i, i + 4).subrange(0, 2));
    assert(s.subrange(i + 2, i + 4) =~= s.subrange(i, i + 4).subrange(2, 4));
    assert((lo + hi).subrange(0, 2) =~= lo);
    assert((lo + hi).subrange(2, 4) =~= hi);
    lemma_u16_roundtrip((v % 65536) as u16, s, i);
    lemma_u16_roundtrip((v / 65536) as u16, s, i + 2);
}

/// Reading back the bytes of a `u64` gives the `u64`.
pub proof fn lemma_u64_roundtrip(v: u64, s: Seq<u8>, i: int)
    requires
        0 <= i,
        i + 8 <= s.len(),
        s.subrange(i, i + 8) == u64_le_bytes(v),
    ensures
        le_u64(s, i) == v,
{
    let lo = u32_le_bytes((v % 4294967296) as u32);
    let hi = u32_le_bytes((v / 4294967296) as u32);
    assert(s.subrange(i, i + 4) =~= s.subrange(i, i + 8).subrange(0, 4));
    assert(s.subrange(i + 4, i + 8) =~= s.subrange(i, i + 8).subrange(4, 8));
    assert((lo + hi).subrange(0, 4) =~= lo);
    assert((lo + hi).subrange(4, 8) =~= hi);
    lemma_u32_roundtrip((v % 4294967296) as u32, s, i);
    lemma_u32_roundtrip((v / 4294967296) as u32, s, i + 4);
}

/// The value of the little-endian two's-complement `i16` stored at `s[i..i + 2]`.
pub open spec fn le_i16(s: Seq<u8>, i: int) -> int {
    if le_u16(s, i) >= 32768 {
        le_u16(s, i) - 65536
    } else {
        le_u16(s, i)
    }
}

/// The two little-endian two's-complement bytes of `v`.
pub open spec fn i16_le_bytes(v: i16) -> Seq<u8> {
    u16_le_bytes((if v < 0 { v + 65536 } else { v as int }) as u16)
}

/// Reads the little-endian two's-complement `i16` at `data[pos..pos + 2]`.
pub fn read_i16_le(data: &[u8], pos: usize) -> (r: i16)
    requires
        pos + 2 <= data.len(),
    ensures
        r == le_i16(data@, pos as int),
{
    let u = read_u16_le(data, pos);
    if u >= 32768 {
        (u as i32 - 65536) as i16
    } else {
        u as i16
    }
}

/// Appends the little-endian two's-complement bytes of `v` to `out`.
pub fn push_i16_le(out: &mut Vec<u8>, v: i16)
    ensures
        final(out)@ == old(out)@ + i16_le_bytes(v),
{
    let u: u16 = if v < 0 { (v as i32 + 65536) as u16 } else { v as u16 };
    push_u16_le(out, u);
}

/// Reading back the bytes of an `i16` gives the `i16`.
pub proof fn lemma_i16_roundtrip(v: i16, s: Seq<u8>, i: int)
    requires
        0 <= i,
        i + 2 <= s.len(),
        s.subrange(i, i + 2) == i16_le_bytes(v),
    ensures
        le_i16(s, i) == v,
{
    lemma_u16_roundtrip((if v < 0 { v + 65536 } else { v as int }) as u16, s, i);
}

/// The little-endian bytes of a sequence of `u32`s.
#[verifier::opaque]
pub open spec fn u32s_bytes(s: Seq<u32>) -> Seq<u8>
    decreases s.len(),
{
    if s.len() == 0 {
        Seq::empty()
    } else {
        u32s_bytes(s.drop_last()) + u32_le_bytes(s.last())
    }
}

/// The little-endian bytes of a sequence of `i16`s.
#[verifier::opaque]
pub open spec fn i16s_bytes(s: Seq<i16>) -> Seq<u8>
    decreases s.len(),
{
    if s.len() == 0 {
        Seq::empty()
    } else {
        i16s_bytes(s.drop_last()) + i16_le_bytes(s.last())
    }
}

pub proof fn lemma_u32s_bytes(s: Seq<u32>, k: int)
    requires
        0 <= k < s.len(),
    ensures
        u32s_bytes(s).len() == 4 * s.len(),
        u32s_bytes(s).subrange(4 * k, 4 * k + 4) == u32_le_bytes(s[k]),
    decreases s.len(),
{
    reveal(u32s_bytes);
    lemma_u32s_len(s.drop_last());
    if k < s.len() - 1 {
        lemma_u32s_bytes(s.drop_last(), k);
        assert(u32s_bytes(s).subrange(4 * k, 4 * k + 4) =~= u32s_bytes(s.drop_last()).subrange(
            4 * k,
            4 * k + 4,
        ));
    } else {
        assert(u32s_bytes(s).subrange(4 * k, 4 * k + 4) =~= u32_le_bytes(s[k]));
    }
}

pub proof fn lemma_u32s_len(s: Seq<u32>)
    ensures
        u32s_bytes(s).len() == 4 * s.len(),
    decreases s.len(),
{
    reveal(u32s_bytes);
    if s.len() > 0 {
        lemma_u32s_len(s.drop_last());
    }
}

pub proof fn lemma_i16s_bytes(s: Seq<i16>, k: int)
    requires
        0 <= k < s.len(),
    ensures
        i16s_bytes(s).len() == 2 * s.len(),
        i16s_bytes(s).subrange(2 * k, 2 * k + 2) == i16_le_bytes(s[k]),
    decreases s.len(),
{
    reveal(i16s_bytes);
    lemma_i16s_len(s.drop_last());
    if k < s.len() - 1 {
        lemma_i16s_bytes(s.drop_last(), k);
        assert(i16s_bytes(s).subrange(2 * k, 2 * k + 2) =~= i16s_bytes(s.drop_last()).subrange(
            2 * k,
            2 * k + 2,
        ));
    } else {
        assert(i16s_bytes(s).subrange(2 * k, 2 * k + 2) =~= i16_le_bytes(s[k]));
    }
}

pub proof fn lemma_i16s_len(s: Seq<i16>)
    ensures
        i16s_bytes(s).len() == 2 * s.len(),
    decreases s.len(),
{
    reveal(i16s_bytes);
    if s.len() > 0 {
        lemma_i16s_len(s.drop_last());
    }
}

/// Appends the little-endian bytes of each `u32` of `src` to `out`.
pub fn push_u32s_le(out: &mut Vec<u8>, src: &[u32])
    ensures
        final(out)@ == old(out)@ + u32s_bytes(src@),
{
    let ghost start = out@;
    let mut i: usize = 0;
    proof {
        reveal(u32s_bytes);
        assert(src@.take(0) =~= Seq::<u32>::empty());
    }
    while i < src.len()
        invariant
            i <= src@.len(),
            out@ == start + u32s_bytes(src@.take(i as int)),
        decreases src@.len() - i,
    {
        push_u32_le(out, src[i]);
        proof {
            reveal(u32s_bytes);
            assert(src@.take(i + 1).drop_last() =~= src@.take(i as int));
        }
        i = i + 1;
    }
    assert(src@.take(i as int) =~= src@);
}

/// Appends the little-endian bytes of each `i16` of `src` to `out`.
pub fn push_i16s_le(out: &mut Vec<u8>, src: &[i16])
    ensures
        final(out)@ == old(out)@ + i16s_bytes(src@),
{
    let ghost start = out@;
    let mut i: usize = 0;
    proof {
        reveal(i16s_bytes);
        assert(src@.take(0) =~= Seq::<i16>::empty());
    }
    while i < src.len()
        invariant
            i <= src@.len(),
            out@ == start + i16s_bytes(src@.take(i as int)),
        decreases src@.len() - i,
    {
        push_i16_le(out, src[i]);
        proof {
            reveal(i16s_bytes);
            assert(src@.take(i + 1).drop_last() =~= src@.take(i as int));
        }
        i = i + 1;
    }
    assert(src@.take(i as int) =~= src@);
}

} // verus!
