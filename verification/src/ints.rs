use vstd::prelude::*;

verus! {

// Little-endian views of the fixed-width integers that appear on the wire.
// The spec side gives each width a byte-sequence encoding and a reader at an
// offset; the exec side computes the same values and is proved equal.

pub open spec fn u32_le(v: u32) -> Seq<u8> {
    seq![
        (v % 0x100) as u8,
        ((v / 0x100) % 0x100) as u8,
        ((v / 0x10000) % 0x100) as u8,
        ((v / 0x1000000) % 0x100) as u8,
    ]
}

pub open spec fn le32_at(b: Seq<u8>, i: int) -> u32 {
    (b[i] + b[i + 1] * 0x100 + b[i + 2] * 0x10000 + b[i + 3] * 0x1000000) as u32
}

/// The four-byte little-endian encoding of an arbitrary length value,
/// truncated to 32 bits.
pub open spec fn le32_int(n: int) -> Seq<u8> {
    u32_le((n % 0x100000000) as u32)
}

pub open spec fn u64_le(v: u64) -> Seq<u8> {
    u32_le((v % 0x100000000) as u32) + u32_le((v / 0x100000000) as u32)
}

pub open spec fn le64_at(b: Seq<u8>, i: int) -> u64 {
    (le32_at(b, i) + le32_at(b, i + 4) * 0x100000000) as u64
}

pub open spec fn i32_le(v: i32) -> Seq<u8> {
    u32_le(v as u32)
}

pub open spec fn le32i_at(b: Seq<u8>, i: int) -> i32 {
    le32_at(b, i) as i32
}

pub open spec fn i64_le(v: i64) -> Seq<u8> {
    u64_le(v as u64)
}

pub open spec fn le64i_at(b: Seq<u8>, i: int) -> i64 {
    le64_at(b, i) as i64
}

pub proof fn lemma_u32_le(v: u32)
    ensures
        u32_le(v).len() == 4,
        le32_at(u32_le(v), 0) == v,
{
    assert((v % 0x100) + ((v / 0x100) % 0x100) * 0x100 + ((v / 0x10000) % 0x100) * 0x10000 + ((v
        / 0x1000000) % 0x100) * 0x1000000 == v) by (nonlinear_arith);
}

pub proof fn lemma_u64_le(v: u64)
    ensures
        u64_le(v).len() == 8,
        le64_at(u64_le(v), 0) == v,
{
    let lo = (v % 0x100000000) as u32;
    let hi = (v / 0x100000000) as u32;
    lemma_u32_le(lo);
    lemma_u32_le(hi);
    assert(le32_at(u64_le(v), 0) == lo) by {
        assert(u64_le(v).subrange(0, 4) =~= u32_le(lo));
        lemma_le32_at_subrange(u64_le(v), 0);
    }
    assert(le32_at(u64_le(v), 4) == hi) by {
        assert(u64_le(v).subrange(4, 8) =~= u32_le(hi));
        lemma_le32_at_subrange(u64_le(v), 4);
    }
    assert(lo + hi * 0x100000000 == v) by (nonlinear_arith)
        requires
            lo == v % 0x100000000,
            hi == v / 0x100000000,
    ;
}

pub proof fn lemma_i32_le(v: i32)
    ensures
        i32_le(v).len() == 4,
        le32i_at(i32_le(v), 0) == v,
{
    lemma_u32_le(v as u32);
    assert(((v as u32) as i32) == v) by (bit_vector);
}

pub proof fn lemma_i64_le(v: i64)
    ensures
        i64_le(v).len() == 8,
        le64i_at(i64_le(v), 0) == v,
{
    lemma_u64_le(v as u64);
    assert(((v as u64) as i64) == v) by (bit_vector);
}

/// A reader at an offset sees exactly the bytes there, so it only depends on
/// that four-byte window.
pub proof fn lemma_le32_at_subrange(b: Seq<u8>, i: int)
    requires
        0 <= i,
        i + 4 <= b.len(),
    ensures
        le32_at(b, i) == le32_at(b.subrange(i, i + 4), 0),
{
}

pub fn read_u32_le(b: &Vec<u8>, i: usize) -> (v: u32)
    requires
        i + 4 <= b@.len(),
    ensures
        v == le32_at(b@, i as int),
{
    let n: usize = b.len();
    (b[i] as u32) + (b[i + 1] as u32) * 0x100 + (b[i + 2] as u32) * 0x10000 + (b[i + 3] as u32)
        * 0x1000000
}

pub fn read_u64_le(b: &Vec<u8>, i: usize) -> (v: u64)
    requires
        i + 8 <= b@.len(),
    ensures
        v == le64_at(b@, i as int),
{
    let n: usize = b.len();
    let lo = read_u32_le(b, i);
    let hi = read_u32_le(b, i + 4);
    (lo as u64) + (hi as u64) * 0x100000000
}

pub fn read_i32_le(b: &Vec<u8>, i: usize) -> (v: i32)
    requires
        i + 4 <= b@.len(),
    ensures
        v == le32i_at(b@, i as int),
{
    let u = read_u32_le(b, i);
    #[verifier::truncate] (u as i32)
}

pub fn read_i64_le(b: &Vec<u8>, i: usize) -> (v: i64)
    requires
        i + 8 <= b@.len(),
    ensures
        v == le64i_at(b@, i as int),
{
    let u = read_u64_le(b, i);
    #[verifier::truncate] (u as i64)
}

pub fn push_u32_le(out: &mut Vec<u8>, v: u32)
    ensures
        final(out)@ == old(out)@ + u32_le(v),
{
    out.push((v % 0x100) as u8);
    out.push(((v / 0x100) % 0x100) as u8);
    out.push(((v / 0x10000) % 0x100) as u8);
    out.push(((v / 0x1000000) % 0x100) as u8);
    proof {
        assert(final(out)@ =~= old(out)@ + u32_le(v));
    }
}

pub fn push_u64_le(out: &mut Vec<u8>, v: u64)
    ensures
        final(out)@ == old(out)@ + u64_le(v),
{
    push_u32_le(out, (v % 0x100000000) as u32);
    push_u32_le(out, (v / 0x100000000) as u32);
    proof {
        assert(final(out)@ =~= old(out)@ + u64_le(v));
    }
}

pub fn push_i32_le(out: &mut Vec<u8>, v: i32)
    ensures
        final(out)@ == old(out)@ + i32_le(v),
{
    push_u32_le(out, v as u32);
}

pub fn push_i64_le(out: &mut Vec<u8>, v: i64)
    ensures
        final(out)@ == old(out)@ + i64_le(v),
{
    push_u64_le(out, v as u64);
}

/// Writes a length value as its truncated four-byte little-endian form.
pub fn push_len_le(out: &mut Vec<u8>, n: usize)
    ensures
        final(out)@ == old(out)@ + le32_int(n as int),
{
    push_u32_le(out, ((n as u64) % 0x100000000) as u32);
}

} // verus!
