//! Big-endian integer fields: spec-level byte images, byte-level parsing,
//! and verified exec readers and writers over byte vectors.

use vstd::prelude::*;

verus! {

/// Big-endian image of a `u16`.
pub open spec fn be16(v: u16) -> Seq<u8> {
    seq![(v / 0x100) as u8, (v % 0x100) as u8]
}

/// Big-endian image of a `u32`.
pub open spec fn be32(v: u32) -> Seq<u8> {
    seq![
        (v / 0x1000000 % 0x100) as u8,
        (v / 0x10000 % 0x100) as u8,
        (v / 0x100 % 0x100) as u8,
        (v % 0x100) as u8,
    ]
}

/// Big-endian image of a `u64`.
pub open spec fn be64(v: u64) -> Seq<u8> {
    be32((v / 0x100000000) as u32) + be32((v % 0x100000000) as u32)
}

/// The `u16` encoded big-endian at `i`.
pub open spec fn pbe16(b: Seq<u8>, i: int) -> int {
    b[i] * 0x100 + b[i + 1]
}

/// The `u32` encoded big-endian at `i`.
pub open spec fn pbe32(b: Seq<u8>, i: int) -> int {
    b[i] * 0x1000000 + b[i + 1] * 0x10000 + b[i + 2] * 0x100 + b[i + 3]
}

/// The `u64` encoded big-endian at `i`.
pub open spec fn pbe64(b: Seq<u8>, i: int) -> int {
    pbe32(b, i) * 0x100000000 + pbe32(b, i + 4)
}

/// Reading back the big-endian image of a `u16` gives the value.
pub proof fn lemma_be16_roundtrip(v: u16)
    ensures
        pbe16(be16(v), 0) == v,
{
    assert((v / 0x100) * 0x100 + (v % 0x100) == v) by (bit_vector);
}

/// Reading back the big-endian image of a `u32` gives the value.
pub proof fn lemma_be32_roundtrip(v: u32)
    ensures
        pbe32(be32(v), 0) == v,
{
    assert((v / 0x1000000 % 0x100) * 0x1000000 + (v / 0x10000 % 0x100) * 0x10000 + (v / 0x100
        % 0x100) * 0x100 + (v % 0x100) == v) by (bit_vector);
}

/// Reading back the big-endian image of a `u64` gives the value.
pub proof fn lemma_be64_roundtrip(v: u64)
    ensures
        pbe64(be64(v), 0) == v,
{
    let hi = (v / 0x100000000) as u32;
    let lo = (v % 0x100000000) as u32;
    lemma_be32_roundtrip(hi);
    lemma_be32_roundtrip(lo);
    assert(be64(v)[4] == be32(lo)[0] && be64(v)[5] == be32(lo)[1] && be64(v)[6] == be32(lo)[2]
        && be64(v)[7] == be32(lo)[3]);
    assert(pbe32(be64(v), 0) == hi as int);
    assert(pbe32(be64(v), 4) == lo as int);
    assert((v / 0x100000000) * 0x100000000 + (v % 0x100000000) == v) by (bit_vector);
}

/// Big-endian image of a 24-bit value stored in a `u32`.
pub open spec fn be24(v: u32) -> Seq<u8> {
    seq![(v / 0x10000 % 0x100) as u8, (v / 0x100 % 0x100) as u8, (v % 0x100) as u8]
}

/// The 24-bit value encoded big-endian at `i`.
pub open spec fn pbe24(b: Seq<u8>, i: int) -> int {
    b[i] * 0x10000 + b[i + 1] * 0x100 + b[i + 2]
}

/// Reading back the big-endian image of a 24-bit value gives the value.
pub proof fn lemma_be24_roundtrip(v: u32)
    requires
        v < 0x1000000,
    ensures
        pbe24(be24(v), 0) == v,
{
    assert(v < 0x1000000 ==> (v / 0x10000 % 0x100) * 0x10000 + (v / 0x100 % 0x100) * 0x100 + (v
        % 0x100) == v) by (bit_vector);
}

/// A run of `n` zero bytes.
pub open spec fn zeros(n: nat) -> Seq<u8> {
    Seq::new(n, |i: int| 0u8)
}

/// Read one byte.
pub fn get_u8(data: &Vec<u8>, pos: usize) -> (r: u8)
    requires
        pos < data@.len(),
    ensures
        r == data@[pos as int],
{
    data[pos]
}

/// Read a big-endian `u16`.
pub fn get_u16(data: &Vec<u8>, pos: usize) -> (r: u16)
    requires
        pos + 2 <= data@.len(),
    ensures
        r == pbe16(data@, pos as int),
{
    let n = data.len();
    let b0 = data[pos] as u16;
    let b1 = data[pos + 1] as u16;
    b0 * 0x100 + b1
}

/// Read a big-endian `u32`.
pub fn get_u32(data: &Vec<u8>, pos: usize) -> (r: u32)
    requires
        pos + 4 <= data@.len(),
    ensures
        r == pbe32(data@, pos as int),
{
    let n = data.len();
    let b0 = data[pos] as u32;
    let b1 = data[pos + 1] as u32;
    let b2 = data[pos + 2] as u32;
    let b3 = data[pos + 3] as u32;
    b0 * 0x1000000 + b1 * 0x10000 + b2 * 0x100 + b3
}

/// Read a big-endian `u64`.
pub fn get_u64(data: &Vec<u8>, pos: usize) -> (r: u64)
    requires
        pos + 8 <= data@.len(),
    ensures
        r == pbe64(data@, pos as int),
{
    let n = data.len();
    let hi = get_u32(data, pos) as u64;
    let lo = get_u32(data, pos + 4) as u64;
    hi * 0x100000000 + lo
}

/// Append one byte.
pub fn put_u8(out: &mut Vec<u8>, v: u8)
    ensures
        final(out)@ == old(out)@ + seq![v],
{
    out.push(v);
    assert(out@ =~= old(out)@ + seq![v]);
}

/// Append a `u16` big-endian.
pub fn put_u16(out: &mut Vec<u8>, v: u16)
    ensures
        final(out)@ == old(out)@ + be16(v),
{
    out.push((v / 0x100) as u8);
    out.push((v % 0x100) as u8);
    assert(out@ =~= old(out)@ + be16(v));
}

/// Append a `u32` big-endian.
pub fn put_u32(out: &mut Vec<u8>, v: u32)
    ensures
        final(out)@ == old(out)@ + be32(v),
{
    out.push((v / 0x1000000 % 0x100) as u8);
    out.push((v / 0x10000 % 0x100) as u8);
    out.push((v / 0x100 % 0x100) as u8);
    out.push((v % 0x100) as u8);
    assert(out@ =~= old(out)@ + be32(v));
}

/// Append a `u64` big-endian.
pub fn put_u64(out: &mut Vec<u8>, v: u64)
    ensures
        final(out)@ == old(out)@ + be64(v),
{
    put_u32(out, (v / 0x100000000) as u32);
    put_u32(out, (v % 0x100000000) as u32);
    assert(out@ =~= old(out)@ + be64(v));
}

/// Read a big-endian 24-bit value.
pub fn get_u24(data: &Vec<u8>, pos: usize) -> (r: u32)
    requires
        pos + 3 <= data@.len(),
    ensures
        r == pbe24(data@, pos as int),
        r < 0x1000000,
{
    let n = data.len();
    let b0 = data[pos] as u32;
    let b1 = data[pos + 1] as u32;
    let b2 = data[pos + 2] as u32;
    b0 * 0x10000 + b1 * 0x100 + b2
}

/// Append a 24-bit value big-endian.
pub fn put_u24(out: &mut Vec<u8>, v: u32)
    requires
        v < 0x1000000,
    ensures
        final(out)@ == old(out)@ + be24(v),
{
    out.push((v / 0x10000 % 0x100) as u8);
    out.push((v / 0x100 % 0x100) as u8);
    out.push((v % 0x100) as u8);
    assert(out@ =~= old(out)@ + be24(v));
}

/// Append `n` zero bytes.
pub fn put_zeros(out: &mut Vec<u8>, n: usize)
    ensures
        final(out)@ == old(out)@ + zeros(n as nat),
{
    let mut i: usize = 0;
    while i < n
        invariant
            i <= n,
            out@ == old(out)@ + zeros(i as nat),
        decreases n - i,
    {
        out.push(0);
        i = i + 1;
        assert(out@ =~= old(out)@ + zeros(i as nat));
    }
}

/// Copy the bytes of `src` onto the end of `out`.
pub fn put_bytes(out: &mut Vec<u8>, src: &Vec<u8>)
    ensures
        final(out)@ == old(out)@ + src@,
{
    let mut i: usize = 0;
    while i < src.len()
        invariant
            i <= src@.len(),
            out@ == old(out)@ + src@.subrange(0, i as int),
        decreases src@.len() - i,
    {
        out.push(src[i]);
        i = i + 1;
        assert(out@ =~= old(out)@ + src@.subrange(0, i as int));
    }
    assert(out@ =~= old(out)@ + src@);
}

/// Copy `n` bytes of `data` starting at `pos` into a fresh vector.
pub fn get_bytes(data: &Vec<u8>, pos: usize, n: usize) -> (r: Vec<u8>)
    requires
        pos + n <= data@.len(),
    ensures
        r@ == data@.subrange(pos as int, pos + n),
{
    let total = data.len();
    let mut r: Vec<u8> = Vec::new();
    let mut i: usize = 0;
    while i < n
        invariant
            i <= n,
            pos + n <= data@.len(),
            data@.len() <= usize::MAX,
            r@ == data@.subrange(pos as int, pos + i),
        decreases n - i,
    {
        r.push(data[pos + i]);
        i = i + 1;
        assert(r@ =~= data@.subrange(pos as int, pos + i));
    }
    r
}

/// Byte-for-byte copy of a vector.
pub fn clone_bytes(src: &Vec<u8>) -> (r: Vec<u8>)
    ensures
        r@ == src@,
{
    let r = get_bytes(src, 0, src.len());
    assert(r@ =~= src@);
    r
}

} // verus!
