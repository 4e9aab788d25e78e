//! Primitives of the canonical byte encoding.
//!
//! Every structure that is hashed or put on the wire is laid out as a
//! fixed-schema little-endian byte sequence built from these pieces, so that
//! the same logical content always yields the same bytes.
use vstd::bytes::{
    lemma_auto_spec_u64_to_from_le_bytes, spec_u64_from_le_bytes, spec_u64_to_le_bytes,
    u64_from_le_bytes, u64_to_le_bytes,
};
use vstd::prelude::*;
use vstd::slice::slice_subrange;

use crate::bytesutil::append_bytes;

verus! {

/// The 8-byte little-endian encoding of a signed 64-bit value (its two's
/// complement bit pattern).
pub open spec fn spec_i64_le(x: i64) -> Seq<u8> {
    spec_u64_to_le_bytes(x as u64)
}

/// The signed 64-bit value read from an 8-byte little-endian sequence.
pub open spec fn spec_i64_from_le(s: Seq<u8>) -> i64 {
    spec_u64_from_le_bytes(s) as i64
}

/// Round trip of the two's complement bit pattern through u64.
pub proof fn lemma_i64_round_trip(x: i64)
    ensures
        spec_i64_from_le(spec_i64_le(x)) == x,
        spec_i64_le(x).len() == 8,
{
    lemma_auto_spec_u64_to_from_le_bytes();
    assert(x as u64 as i64 == x) by (bit_vector);
}

/// Appends the 8-byte little-endian encoding of `x`.
pub fn push_u64_le(dst: &mut Vec<u8>, x: u64)
    ensures
        final(dst)@ == old(dst)@ + spec_u64_to_le_bytes(x),
{
    let bytes = u64_to_le_bytes(x);
    append_bytes(dst, bytes.as_slice());
}

/// Appends the 8-byte little-endian encoding of `x`.
pub fn push_i64_le(dst: &mut Vec<u8>, x: i64)
    ensures
        final(dst)@ == old(dst)@ + spec_i64_le(x),
{
    push_u64_le(dst, x as u64);
}

/// Appends a single byte.
pub fn push_byte(dst: &mut Vec<u8>, b: u8)
    ensures
        final(dst)@ == old(dst)@ + seq![b],
{
    dst.push(b);
    proof {
        assert(old(dst)@.push(b) =~= old(dst)@ + seq![b]);
    }
}

/// Reads 8 little-endian bytes at `pos` as a u64; `None` when fewer than 8
/// bytes remain.
pub fn read_u64_le(data: &[u8], pos: usize) -> (r: Option<(u64, usize)>)
    ensures
        r is Some <==> pos + 8 <= data@.len(),
        r matches Some((x, next)) ==> x == spec_u64_from_le_bytes(
            data@.subrange(pos as int, pos + 8),
        ) && next == pos + 8,
{
    if pos > data.len() || data.len() - pos < 8 {
        return None;
    }
    let chunk = slice_subrange(data, pos, pos + 8);
    let x = u64_from_le_bytes(chunk);
    Some((x, pos + 8))
}

/// Reads 8 little-endian bytes at `pos` as an i64; `None` when fewer than 8
/// bytes remain.
pub fn read_i64_le(data: &[u8], pos: usize) -> (r: Option<(i64, usize)>)
    ensures
        r is Some <==> pos + 8 <= data@.len(),
        r matches Some((x, next)) ==> x == spec_i64_from_le(data@.subrange(pos as int, pos + 8))
            && next == pos + 8,
{
    match read_u64_le(data, pos) {
        None => None,
        Some((x, next)) => Some((x as i64, next)),
    }
}

/// Reads a single byte at `pos`; `None` at the end of the data.
pub fn read_byte(data: &[u8], pos: usize) -> (r: Option<(u8, usize)>)
    ensures
        r is Some <==> pos + 1 <= data@.len(),
        r matches Some((b, next)) ==> b == data@[pos as int] && next == pos + 1,
{
    if pos < data.len() {
        Some((data[pos], pos + 1))
    } else {
        None
    }
}

/// Reads 32 bytes at `pos`; `None` when fewer than 32 bytes remain.
pub fn read_bytes32(data: &[u8], pos: usize) -> (r: Option<([u8; 32], usize)>)
    ensures
        r is Some <==> pos + 32 <= data@.len(),
        r matches Some((b, next)) ==> b@ == data@.subrange(pos as int, pos + 32) && next == pos
            + 32,
{
    if pos > data.len() || data.len() - pos < 32 {
        return None;
    }
    let mut out: [u8; 32] = [0u8; 32];
    let mut i: usize = 0;
    while i < 32
        invariant
            i <= 32,
            pos + 32 <= data@.len(),
            data@.len() <= usize::MAX,
            forall|j: int| 0 <= j < i ==> out@[j] == data@[pos + j],
        decreases 32 - i,
    {
        out[i] = data[pos + i];
        i += 1;
    }
    proof {
        assert(out@ =~= data@.subrange(pos as int, pos + 32));
    }
    Some((out, pos + 32))
}

/// Reads 64 bytes at `pos`; `None` when fewer than 64 bytes remain.
pub fn read_bytes64(data: &[u8], pos: usize) -> (r: Option<([u8; 64], usize)>)
    ensures
        r is Some <==> pos + 64 <= data@.len(),
        r matches Some((b, next)) ==> b@ == data@.subrange(pos as int, pos + 64) && next == pos
            + 64,
{
    if pos > data.len() || data.len() - pos < 64 {
        return None;
    }
    let mut out: [u8; 64] = [0u8; 64];
    let mut i: usize = 0;
    while i < 64
        invariant
            i <= 64,
            pos + 64 <= data@.len(),
            data@.len() <= usize::MAX,
            forall|j: int| 0 <= j < i ==> out@[j] == data@[pos + j],
        decreases 64 - i,
    {
        out[i] = data[pos + i];
        i += 1;
    }
    proof {
        assert(out@ =~= data@.subrange(pos as int, pos + 64));
    }
    Some((out, pos + 64))
}

} // verus!
