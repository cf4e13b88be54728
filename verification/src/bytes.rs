//! Fixed-width integers to and from byte sequences, in both byte orders.

use vstd::prelude::*;

verus! {

/// The 16-bit value whose big-endian bytes are `hi`, `lo`.
pub open spec fn spec_be16(hi: u8, lo: u8) -> int {
    hi * 256 + lo
}

/// The 32-bit value whose big-endian bytes start at `data[at]`.
pub open spec fn spec_be32_at(data: Seq<u8>, at: int) -> int {
    data[at] * 0x100_0000 + data[at + 1] * 0x1_0000 + data[at + 2] * 0x100 + data[at + 3]
}

/// The 16-bit value whose big-endian bytes start at `data[at]`.
pub open spec fn spec_be16_at(data: Seq<u8>, at: int) -> int {
    data[at] * 256 + data[at + 1]
}

/// The 16-bit value whose little-endian bytes start at `data[at]`.
pub open spec fn spec_le16_at(data: Seq<u8>, at: int) -> int {
    data[at] + data[at + 1] * 0x100
}

/// The 32-bit value whose little-endian bytes start at `data[at]`.
pub open spec fn spec_le32_at(data: Seq<u8>, at: int) -> int {
    data[at] + data[at + 1] * 0x100 + data[at + 2] * 0x1_0000 + data[at + 3] * 0x100_0000
}

/// The 64-bit value whose little-endian bytes start at `data[at]`.
pub open spec fn spec_le64_at(data: Seq<u8>, at: int) -> int {
    spec_le32_at(data, at) + spec_le32_at(data, at + 4) * 0x1_0000_0000
}

/// The big-endian bytes of a 16-bit value.
pub open spec fn spec_be16_bytes(v: u16) -> Seq<u8> {
    seq![(v / 256) as u8, (v % 256) as u8]
}

/// The big-endian bytes of a 32-bit value.
pub open spec fn spec_be32_bytes(v: u32) -> Seq<u8> {
    seq![
        (v / 0x100_0000) as u8,
        ((v / 0x1_0000) % 256) as u8,
        ((v / 0x100) % 256) as u8,
        (v % 256) as u8,
    ]
}

/// Reads a big-endian 16-bit value at `at`.
pub fn be16_at(data: &[u8], at: usize) -> (v: u16)
    requires
        at + 2 <= data@.len(),
    ensures
        v == spec_be16_at(data@, at as int),
{
    (data[at] as u16) * 256 + (data[at + 1] as u16)
}

/// Reads a big-endian 32-bit value at `at`.
pub fn be32_at(data: &[u8], at: usize) -> (v: u32)
    requires
        at + 4 <= data@.len(),
    ensures
        v == spec_be32_at(data@, at as int),
{
    (data[at] as u32) * 0x100_0000 + (data[at + 1] as u32) * 0x1_0000 + (data[at + 2] as u32)
        * 0x100 + (data[at + 3] as u32)
}

/// Reads a little-endian 16-bit value at `at`.
pub fn le16_at(data: &[u8], at: usize) -> (v: u16)
    requires
        at + 2 <= data@.len(),
    ensures
        v == spec_le16_at(data@, at as int),
{
    (data[at] as u16) + (data[at + 1] as u16) * 0x100
}

/// Reads a little-endian 32-bit value at `at`.
pub fn le32_at(data: &[u8], at: usize) -> (v: u32)
    requires
        at + 4 <= data@.len(),
    ensures
        v == spec_le32_at(data@, at as int),
{
    (data[at] as u32) + (data[at + 1] as u32) * 0x100 + (data[at + 2] as u32) * 0x1_0000 + (
    data[at + 3] as u32) * 0x100_0000
}

/// Reads a little-endian 64-bit value at `at`.
pub fn le64_at(data: &[u8], at: usize) -> (v: u64)
    requires
        at + 8 <= data@.len(),
    ensures
        v == spec_le64_at(data@, at as int),
{
    let n: usize = data.len();
    let lo: u32 = le32_at(data, at);
    let hi: u32 = le32_at(data, at + 4);
    (lo as u64) + (hi as u64) * 0x1_0000_0000
}

/// Appends the big-endian bytes of `v` to `out`.
pub fn push_be16(out: &mut Vec<u8>, v: u16)
    ensures
        final(out)@ == old(out)@ + spec_be16_bytes(v),
{
    out.push((v / 256) as u8);
    out.push((v % 256) as u8);
    proof {
        assert(out@ =~= old(out)@ + spec_be16_bytes(v));
    }
}

/// Appends the big-endian bytes of `v` to `out`.
pub fn push_be32(out: &mut Vec<u8>, v: u32)
    ensures
        final(out)@ == old(out)@ + spec_be32_bytes(v),
{
    out.push((v / 0x100_0000) as u8);
    out.push(((v / 0x1_0000) % 256) as u8);
    out.push(((v / 0x100) % 256) as u8);
    out.push((v % 256) as u8);
    proof {
        assert(out@ =~= old(out)@ + spec_be32_bytes(v));
    }
}

/// Appends all of `src` to `out`.
pub fn push_all(out: &mut Vec<u8>, src: &[u8])
    ensures
        final(out)@ == old(out)@ + src@,
{
    let mut i: usize = 0;
    while i < src.len()
        invariant
            i <= src@.len(),
            out@ == old(out)@ + src@.subrange(0, i as int),
        decreases src@.len() - i,
    {
        out.push(src[i]);
        i += 1;
        proof {
            assert(out@ =~= old(out)@ + src@.subrange(0, i as int));
        }
    }
    proof {
        assert(src@.subrange(0, i as int) =~= src@);
    }
}

/// Reading back the bytes written for a 16-bit value gives the value.
pub proof fn lemma_be16_round_trip(v: u16)
    ensures
        spec_be16_at(spec_be16_bytes(v), 0) == v,
{
}

/// Reading back the bytes written for a 32-bit value gives the value.
pub proof fn lemma_be32_round_trip(v: u32)
    ensures
        spec_be32_at(spec_be32_bytes(v), 0) == v,
{
}

/// The big-endian 16-bit value at `at`, as a machine word.
pub open spec fn spec_u16_be(data: Seq<u8>, at: int) -> u16 {
    spec_be16_at(data, at) as u16
}

/// The big-endian 32-bit value at `at`, as a machine word.
pub open spec fn spec_u32_be(data: Seq<u8>, at: int) -> u32 {
    spec_be32_at(data, at) as u32
}

/// The little-endian bytes of a 64-bit value.
pub open spec fn spec_le64_bytes(v: u64) -> Seq<u8> {
    Seq::new(8, |i: int| ((v as int / pow256(i)) % 256) as u8)
}

/// 256 to the power `i`, for `i` up to 7.
pub open spec fn pow256(i: int) -> int {
    if i <= 0 {
        1
    } else if i == 1 {
        0x100
    } else if i == 2 {
        0x1_0000
    } else if i == 3 {
        0x100_0000
    } else if i == 4 {
        0x1_0000_0000
    } else if i == 5 {
        0x100_0000_0000
    } else if i == 6 {
        0x1_0000_0000_0000
    } else {
        0x100_0000_0000_0000
    }
}

/// Appends the little-endian bytes of `v` to `out`.
pub fn push_le64(out: &mut Vec<u8>, v: u64)
    ensures
        final(out)@ == old(out)@ + spec_le64_bytes(v),
{
    out.push((v % 256) as u8);
    out.push(((v / 0x100) % 256) as u8);
    out.push(((v / 0x1_0000) % 256) as u8);
    out.push(((v / 0x100_0000) % 256) as u8);
    out.push(((v / 0x1_0000_0000) % 256) as u8);
    out.push(((v / 0x100_0000_0000) % 256) as u8);
    out.push(((v / 0x1_0000_0000_0000) % 256) as u8);
    out.push(((v / 0x100_0000_0000_0000) % 256) as u8);
    proof {
        assert(out@ =~= old(out)@ + spec_le64_bytes(v));
    }
}


/// The little-endian bytes of a 32-bit value.
pub open spec fn spec_le32_bytes(v: u32) -> Seq<u8> {
    seq![
        (v % 256) as u8,
        ((v / 0x100) % 256) as u8,
        ((v / 0x1_0000) % 256) as u8,
        (v / 0x100_0000) as u8,
    ]
}

/// Appends the little-endian bytes of `v` to `out`.
pub fn push_le32(out: &mut Vec<u8>, v: u32)
    ensures
        final(out)@ == old(out)@ + spec_le32_bytes(v),
{
    out.push((v % 256) as u8);
    out.push(((v / 0x100) % 256) as u8);
    out.push(((v / 0x1_0000) % 256) as u8);
    out.push((v / 0x100_0000) as u8);
    proof {
        assert(out@ =~= old(out)@ + spec_le32_bytes(v));
    }
}

/// Reading back the little-endian bytes written for a 32-bit value gives
/// the value.
pub proof fn lemma_le32_round_trip(v: u32)
    ensures
        spec_le32_at(spec_le32_bytes(v), 0) == v,
{
}

/// Reading back the little-endian bytes written for a 64-bit value gives
/// the value.
pub proof fn lemma_le64_round_trip(v: u64)
    ensures
        spec_le64_at(spec_le64_bytes(v), 0) == v,
{
    let b = spec_le64_bytes(v);
    assert(b[0] == (v % 256) as u8);
    assert(b[1] == ((v as int / 0x100) % 256) as u8);
    assert(b[2] == ((v as int / 0x1_0000) % 256) as u8);
    assert(b[3] == ((v as int / 0x100_0000) % 256) as u8);
    assert(b[4] == ((v as int / 0x1_0000_0000) % 256) as u8);
    assert(b[5] == ((v as int / 0x100_0000_0000) % 256) as u8);
    assert(b[6] == ((v as int / 0x1_0000_0000_0000) % 256) as u8);
    assert(b[7] == ((v as int / 0x100_0000_0000_0000) % 256) as u8);
    assert(v == (v % 256) + ((v / 0x100) % 256) * 0x100 + ((v / 0x1_0000) % 256) * 0x1_0000 + ((v
        / 0x100_0000) % 256) * 0x100_0000 + (((v / 0x1_0000_0000) % 256) + ((v
        / 0x100_0000_0000) % 256) * 0x100 + ((v / 0x1_0000_0000_0000) % 256) * 0x1_0000 + ((v
        / 0x100_0000_0000_0000) % 256) * 0x100_0000) * 0x1_0000_0000) by (bit_vector);
}

} // verus!
