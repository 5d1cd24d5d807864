//! Little-endian integer fields of the wire formats.
use vstd::prelude::*;

verus! {

/// The `u16` stored little-endian at `data[i..i + 2]`.
pub open spec fn le_u16_at(data: Seq<u8>, i: int) -> int {
    data[i] + 256 * data[i + 1]
}

/// The `u32` stored little-endian at `data[i..i + 4]`.
pub open spec fn le_u32_at(data: Seq<u8>, i: int) -> int {
    data[i] + 256 * data[i + 1] + 65536 * data[i + 2] + 16777216 * data[i + 3]
}

/// The four little-endian bytes of `v`.
pub open spec fn le_u32_bytes(v: u32) -> Seq<u8> {
    seq![(v & 0xff) as u8, ((v >> 8u32) & 0xff) as u8, ((v >> 16u32) & 0xff) as u8, (v >> 24u32) as u8]
}

/// The two little-endian bytes of `v`.
pub open spec fn le_u16_bytes(v: u16) -> Seq<u8> {
    seq![(v & 0xff) as u8, (v >> 8u16) as u8]
}

/// The eight big-endian bytes of `v`.
pub open spec fn be_u64_bytes(v: u64) -> Seq<u8> {
    seq![
        (v >> 56u64) as u8,
        ((v >> 48u64) & 0xff) as u8,
        ((v >> 40u64) & 0xff) as u8,
        ((v >> 32u64) & 0xff) as u8,
        ((v >> 24u64) & 0xff) as u8,
        ((v >> 16u64) & 0xff) as u8,
        ((v >> 8u64) & 0xff) as u8,
        (v & 0xff) as u8,
    ]
}

/// Reading back the bytes of a `u32` gives the value.
pub proof fn lemma_le_u32_round_trip(v: u32)
    ensures
        le_u32_at(le_u32_bytes(v), 0) == v,
        le_u32_bytes(v).len() == 4,
{
    assert(((v & 0xff) as u8) as u32 == v & 0xff) by (bit_vector);
    assert((((v >> 8u32) & 0xff) as u8) as u32 == (v >> 8u32) & 0xff) by (bit_vector);
    assert((((v >> 16u32) & 0xff) as u8) as u32 == (v >> 16u32) & 0xff) by (bit_vector);
    assert(((v >> 24u32) as u8) as u32 == v >> 24u32) by (bit_vector);
    assert((v & 0xff) + 256 * ((v >> 8u32) & 0xff) + 65536 * ((v >> 16u32) & 0xff) + 16777216 * (v
        >> 24u32) == v) by (bit_vector);
}

/// Reading back the bytes of a `u16` gives the value.
pub proof fn lemma_le_u16_round_trip(v: u16)
    ensures
        le_u16_at(le_u16_bytes(v), 0) == v,
        le_u16_bytes(v).len() == 2,
{
    assert(((v & 0xff) as u8) as u16 == v & 0xff) by (bit_vector);
    assert(((v >> 8u16) as u8) as u16 == v >> 8u16) by (bit_vector);
    assert((v & 0xff) + 256 * (v >> 8u16) == v) by (bit_vector);
}

/// Reads the little-endian `u32` at `data[i..i + 4]`.
pub fn read_le_u32(data: &[u8], i: usize) -> (v: u32)
    requires
        i + 4 <= data@.len(),
    ensures
        v == le_u32_at(data@, i as int),
{
    data[i] as u32 + 256 * (data[i + 1] as u32) + 65536 * (data[i + 2] as u32) + 16777216 * (data[i
        + 3] as u32)
}

/// Reads the little-endian `u16` at `data[i..i + 2]`.
pub fn read_le_u16(data: &[u8], i: usize) -> (v: u16)
    requires
        i + 2 <= data@.len(),
    ensures
        v == le_u16_at(data@, i as int),
{
    data[i] as u16 + 256 * (data[i + 1] as u16)
}

/// Appends the little-endian bytes of `v`.
pub fn push_le_u32(out: &mut Vec<u8>, v: u32)
    ensures
        final(out)@ == old(out)@ + le_u32_bytes(v),
{
    out.push((v & 0xff) as u8);
    out.push(((v >> 8u32) & 0xff) as u8);
    out.push(((v >> 16u32) & 0xff) as u8);
    out.push((v >> 24u32) as u8);
    assert(final(out)@ =~= old(out)@ + le_u32_bytes(v));
}

/// Appends the little-endian bytes of `v`.
pub fn push_le_u16(out: &mut Vec<u8>, v: u16)
    ensures
        final(out)@ == old(out)@ + le_u16_bytes(v),
{
    out.push((v & 0xff) as u8);
    out.push((v >> 8u16) as u8);
    assert(final(out)@ =~= old(out)@ + le_u16_bytes(v));
}

/// Appends the big-endian bytes of `v`.
pub fn push_be_u64(out: &mut Vec<u8>, v: u64)
    ensures
        final(out)@ == old(out)@ + be_u64_bytes(v),
{
    out.push((v >> 56u64) as u8);
    out.push(((v >> 48u64) & 0xff) as u8);
    out.push(((v >> 40u64) & 0xff) as u8);
    out.push(((v >> 32u64) & 0xff) as u8);
    out.push(((v >> 24u64) & 0xff) as u8);
    out.push(((v >> 16u64) & 0xff) as u8);
    out.push(((v >> 8u64) & 0xff) as u8);
    out.push((v & 0xff) as u8);
    assert(final(out)@ =~= old(out)@ + be_u64_bytes(v));
}

} // verus!
