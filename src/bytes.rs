//! Big-endian integer encoding and decoding.
use vstd::prelude::*;

verus! {

/// The four big-endian bytes of `v`.
pub open spec fn be_u32(v: u32) -> Seq<u8> {
    seq![(v >> 24u32) as u8, (v >> 16u32) as u8, (v >> 8u32) as u8, v as u8]
}

/// The eight big-endian bytes of `v`.
pub open spec fn be_u64(v: u64) -> Seq<u8> {
    be_u32((v >> 32u64) as u32) + be_u32(v as u32)
}

/// The four big-endian bytes of `v` in two's complement.
pub open spec fn be_i32(v: i32) -> Seq<u8> {
    be_u32(v as u32)
}

/// The eight big-endian bytes of `v` in two's complement.
pub open spec fn be_i64(v: i64) -> Seq<u8> {
    be_u64(v as u64)
}

/// The `u32` whose big-endian bytes start at `pos` in `s`.
pub open spec fn u32_at(s: Seq<u8>, pos: int) -> u32 {
    ((s[pos] as u32) << 24u32) | ((s[pos + 1] as u32) << 16u32) | ((s[pos + 2] as u32) << 8u32) | (
    s[pos + 3] as u32)
}

/// The `u64` whose big-endian bytes start at `pos` in `s`.
pub open spec fn u64_at(s: Seq<u8>, pos: int) -> u64 {
    ((u32_at(s, pos) as u64) << 32u64) | (u32_at(s, pos + 4) as u64)
}

/// The `i32` whose big-endian bytes start at `pos` in `s`.
pub open spec fn i32_at(s: Seq<u8>, pos: int) -> i32 {
    u32_at(s, pos) as i32
}

/// The `i64` whose big-endian bytes start at `pos` in `s`.
pub open spec fn i64_at(s: Seq<u8>, pos: int) -> i64 {
    u64_at(s, pos) as i64
}

proof fn lemma_u32_bits(v: u32)
    ensures
        ((((v >> 24u32) as u8) as u32) << 24u32) | ((((v >> 16u32) as u8) as u32) << 16u32) | ((((v
            >> 8u32) as u8) as u32) << 8u32) | ((v as u8) as u32) == v,
{
    assert(((((v >> 24u32) as u8) as u32) << 24u32) | ((((v >> 16u32) as u8) as u32) << 16u32) | ((((
    v >> 8u32) as u8) as u32) << 8u32) | ((v as u8) as u32) == v) by (bit_vector);
}

/// Reading back the bytes of a `u32` gives the same value.
pub proof fn lemma_u32_round_trip(v: u32, pre: Seq<u8>, post: Seq<u8>)
    ensures
        u32_at(pre + be_u32(v) + post, pre.len() as int) == v,
{
    let s = pre + be_u32(v) + post;
    let p = pre.len() as int;
    assert(s[p] == (v >> 24u32) as u8);
    assert(s[p + 1] == (v >> 16u32) as u8);
    assert(s[p + 2] == (v >> 8u32) as u8);
    assert(s[p + 3] == v as u8);
    lemma_u32_bits(v);
}

/// Reading back the bytes of an `i32` gives the same value.
pub proof fn lemma_i32_round_trip(v: i32, pre: Seq<u8>, post: Seq<u8>)
    ensures
        i32_at(pre + be_i32(v) + post, pre.len() as int) == v,
{
    lemma_u32_round_trip(v as u32, pre, post);
    assert((v as u32) as i32 == v) by (bit_vector);
}

/// Reading back the bytes of an `i64` gives the same value.
pub proof fn lemma_i64_round_trip(v: i64, pre: Seq<u8>, post: Seq<u8>)
    ensures
        i64_at(pre + be_i64(v) + post, pre.len() as int) == v,
{
    let u = v as u64;
    let hi = (u >> 32u64) as u32;
    let lo = u as u32;
    assert(pre + be_i64(v) + post == pre + be_u32(hi) + (be_u32(lo) + post));
    assert(pre + be_i64(v) + post == (pre + be_u32(hi)) + be_u32(lo) + post);
    lemma_u32_round_trip(hi, pre, be_u32(lo) + post);
    lemma_u32_round_trip(lo, pre + be_u32(hi), post);
    assert(((((u >> 32u64) as u32) as u64) << 32u64) | ((u as u32) as u64) == u) by (bit_vector);
    assert((u as i64) == v) by (bit_vector)
        requires
            u == v as u64,
    ;
}

/// Reads the big-endian `i32` at `pos`.
pub fn read_i32(b: &[u8], pos: usize) -> (r: i32)
    requires
        pos + 4 <= b@.len(),
    ensures
        r == i32_at(b@, pos as int),
{
    let v: u32 = ((b[pos] as u32) << 24u32) | ((b[pos + 1] as u32) << 16u32) | ((b[pos + 2] as u32)
        << 8u32) | (b[pos + 3] as u32);
    v as i32
}

/// Reads the big-endian `u64` at `pos`.
pub fn read_u64(b: &[u8], pos: usize) -> (r: u64)
    requires
        pos + 8 <= b@.len(),
    ensures
        r == u64_at(b@, pos as int),
{
    let hi: u32 = ((b[pos] as u32) << 24u32) | ((b[pos + 1] as u32) << 16u32) | ((b[pos + 2] as u32)
        << 8u32) | (b[pos + 3] as u32);
    let lo: u32 = ((b[pos + 4] as u32) << 24u32) | ((b[pos + 5] as u32) << 16u32) | ((b[pos + 6]
        as u32) << 8u32) | (b[pos + 7] as u32);
    ((hi as u64) << 32u64) | (lo as u64)
}

/// Reads the big-endian `i64` at `pos`.
pub fn read_i64(b: &[u8], pos: usize) -> (r: i64)
    requires
        pos + 8 <= b@.len(),
    ensures
        r == i64_at(b@, pos as int),
{
    let hi: u32 = ((b[pos] as u32) << 24u32) | ((b[pos + 1] as u32) << 16u32) | ((b[pos + 2] as u32)
        << 8u32) | (b[pos + 3] as u32);
    let lo: u32 = ((b[pos + 4] as u32) << 24u32) | ((b[pos + 5] as u32) << 16u32) | ((b[pos + 6]
        as u32) << 8u32) | (b[pos + 7] as u32);
    let v: u64 = ((hi as u64) << 32u64) | (lo as u64);
    v as i64
}

/// Appends the big-endian bytes of `v`.
pub fn push_u32(out: &mut Vec<u8>, v: u32)
    ensures
        final(out)@ == old(out)@ + be_u32(v),
{
    out.push((v >> 24u32) as u8);
    out.push((v >> 16u32) as u8);
    out.push((v >> 8u32) as u8);
    out.push(v as u8);
    assert(final(out)@ =~= old(out)@ + be_u32(v));
}

/// Appends the big-endian bytes of `v`.
pub fn push_i32(out: &mut Vec<u8>, v: i32)
    ensures
        final(out)@ == old(out)@ + be_i32(v),
{
    push_u32(out, v as u32);
}

/// Appends the big-endian bytes of `v`.
pub fn push_i64(out: &mut Vec<u8>, v: i64)
    ensures
        final(out)@ == old(out)@ + be_i64(v),
{
    let u = v as u64;
    push_u32(out, (u >> 32u64) as u32);
    push_u32(out, u as u32);
    assert(final(out)@ =~= old(out)@ + be_i64(v));
}

/// Appends every byte of `src`.
pub fn push_all(out: &mut Vec<u8>, src: &[u8])
    ensures
        final(out)@ == old(out)@ + src@,
{
    let mut i: usize = 0;
    while i < src.len()
        invariant
            i <= src@.len(),
            out@ == old(out)@ + src@.subrange(0, i as int),
        decreases src@.len() - i,
    {
        out.push(src[i]);
        i = i + 1;
        assert(out@ =~= old(out)@ + src@.subrange(0, i as int));
    }
    assert(src@.subrange(0, i as int) =~= src@);
}

} // verus!
