//! Little-endian field encoding shared by the chunk and control-frame codecs.
use vstd::bytes::*;
use vstd::prelude::*;

verus! {

/// One byte holding a boolean.
pub open spec fn bool_byte(b: bool) -> u8 {
    if b { 1u8 } else { 0u8 }
}

/// Appends `x` as two little-endian bytes.
pub fn put_u16(buf: &mut Vec<u8>, x: u16)
    ensures
        final(buf)@ == old(buf)@ + spec_u16_to_le_bytes(x),
        final(buf)@.len() == old(buf)@.len() + 2,
{
    proof {
        lemma_auto_spec_u16_to_from_le_bytes();
    }
    let b = u16_to_le_bytes(x);
    buf.extend_from_slice(b.as_slice());
}

/// Appends `x` as four little-endian bytes.
pub fn put_u32(buf: &mut Vec<u8>, x: u32)
    ensures
        final(buf)@ == old(buf)@ + spec_u32_to_le_bytes(x),
        final(buf)@.len() == old(buf)@.len() + 4,
{
    proof {
        lemma_auto_spec_u32_to_from_le_bytes();
    }
    let b = u32_to_le_bytes(x);
    buf.extend_from_slice(b.as_slice());
}

/// Appends `x` as eight little-endian bytes.
pub fn put_u64(buf: &mut Vec<u8>, x: u64)
    ensures
        final(buf)@ == old(buf)@ + spec_u64_to_le_bytes(x),
        final(buf)@.len() == old(buf)@.len() + 8,
{
    proof {
        lemma_auto_spec_u64_to_from_le_bytes();
    }
    let b = u64_to_le_bytes(x);
    buf.extend_from_slice(b.as_slice());
}

/// Reads two little-endian bytes at `at`.
pub fn get_u16(bytes: &[u8], at: usize) -> (x: u16)
    requires
        at + 2 <= bytes@.len(),
    ensures
        x == spec_u16_from_le_bytes(bytes@.subrange(at as int, at + 2)),
{
    let len = bytes.len();
    assert(at + 2 <= len);
    let s = vstd::slice::slice_subrange(bytes, at, at + 2);
    u16_from_le_bytes(s)
}

/// Reads four little-endian bytes at `at`.
pub fn get_u32(bytes: &[u8], at: usize) -> (x: u32)
    requires
        at + 4 <= bytes@.len(),
    ensures
        x == spec_u32_from_le_bytes(bytes@.subrange(at as int, at + 4)),
{
    let len = bytes.len();
    assert(at + 4 <= len);
    let s = vstd::slice::slice_subrange(bytes, at, at + 4);
    u32_from_le_bytes(s)
}

/// Reads eight little-endian bytes at `at`.
pub fn get_u64(bytes: &[u8], at: usize) -> (x: u64)
    requires
        at + 8 <= bytes@.len(),
    ensures
        x == spec_u64_from_le_bytes(bytes@.subrange(at as int, at + 8)),
{
    let len = bytes.len();
    assert(at + 8 <= len);
    let s = vstd::slice::slice_subrange(bytes, at, at + 8);
    u64_from_le_bytes(s)
}

} // verus!
