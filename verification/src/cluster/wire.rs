//! Numbers and bytes as they are written into payloads.

use vstd::bytes::*;
use vstd::prelude::*;
use vstd::slice::*;

verus! {

/// The version every payload starts with.
pub const WIRE_VERSION: u8 = 1;

/// The byte that stands for a truth value.
pub open spec fn bool_byte(b: bool) -> u8 {
    if b {
        1
    } else {
        0
    }
}

/// Appends one byte.
pub fn put_u8(buf: &mut Vec<u8>, x: u8)
    ensures
        final(buf)@ == old(buf)@ + seq![x],
{
    let ghost before = buf@;
    buf.push(x);
    assert(buf@ =~= before + seq![x]);
}

/// Appends a truth value as one byte.
pub fn put_bool(buf: &mut Vec<u8>, b: bool)
    ensures
        final(buf)@ == old(buf)@ + seq![bool_byte(b)],
{
    put_u8(
        buf,
        if b {
            1
        } else {
            0
        },
    );
}

/// Appends the four bytes of `x`, lowest first.
pub fn put_u32(buf: &mut Vec<u8>, x: u32)
    ensures
        final(buf)@ == old(buf)@ + spec_u32_to_le_bytes(x),
{
    let mut bytes = u32_to_le_bytes(x);
    buf.append(&mut bytes);
}

/// Appends the eight bytes of `x`, lowest first.
pub fn put_u64(buf: &mut Vec<u8>, x: u64)
    ensures
        final(buf)@ == old(buf)@ + spec_u64_to_le_bytes(x),
{
    let mut bytes = u64_to_le_bytes(x);
    buf.append(&mut bytes);
}

/// Appends the sixteen bytes of `x`, lowest first.
pub fn put_u128(buf: &mut Vec<u8>, x: u128)
    ensures
        final(buf)@ == old(buf)@ + spec_u128_to_le_bytes(x),
{
    let mut bytes = u128_to_le_bytes(x);
    buf.append(&mut bytes);
}

/// Appends `bytes` as they are.
pub fn put_bytes(buf: &mut Vec<u8>, bytes: &[u8])
    ensures
        final(buf)@ == old(buf)@ + bytes@,
{
    let ghost before = buf@;
    let mut i: usize = 0;
    while i < bytes.len()
        invariant
            i <= bytes@.len(),
            buf@ == before + bytes@.take(i as int),
        decreases bytes@.len() - i,
    {
        let ghost so_far = buf@;
        buf.push(bytes[i]);
        assert(buf@ =~= before + bytes@.take(i + 1));
        i = i + 1;
    }
    assert(bytes@.take(i as int) =~= bytes@);
}

/// The number held, lowest byte first, in the four bytes from `at`.
pub fn get_u32(bytes: &[u8], at: usize) -> (x: u32)
    requires
        at + 4 <= bytes@.len(),
    ensures
        x == spec_u32_from_le_bytes(bytes@.subrange(at as int, at + 4)),
{
    let len = bytes.len();
    assert(at + 4 <= len);
    u32_from_le_bytes(slice_subrange(bytes, at, at + 4))
}

/// The number held, lowest byte first, in the eight bytes from `at`.
pub fn get_u64(bytes: &[u8], at: usize) -> (x: u64)
    requires
        at + 8 <= bytes@.len(),
    ensures
        x == spec_u64_from_le_bytes(bytes@.subrange(at as int, at + 8)),
{
    let len = bytes.len();
    assert(at + 8 <= len);
    u64_from_le_bytes(slice_subrange(bytes, at, at + 8))
}

/// The number held, lowest byte first, in the sixteen bytes from `at`.
pub fn get_u128(bytes: &[u8], at: usize) -> (x: u128)
    requires
        at + 16 <= bytes@.len(),
    ensures
        x == spec_u128_from_le_bytes(bytes@.subrange(at as int, at + 16)),
{
    let len = bytes.len();
    assert(at + 16 <= len);
    u128_from_le_bytes(slice_subrange(bytes, at, at + 16))
}

/// The four bytes of `x`, highest first.
pub open spec fn u32_be_bytes(x: u32) -> Seq<u8> {
    seq![((x >> 24) & 0xff) as u8, ((x >> 16) & 0xff) as u8, ((x >> 8) & 0xff) as u8, (x & 0xff) as u8]
}

/// The number that four bytes hold, highest first.
pub open spec fn u32_from_be_bytes(bytes: Seq<u8>) -> u32 {
    ((bytes[0] as u32) << 24) | ((bytes[1] as u32) << 16) | ((bytes[2] as u32) << 8) | (bytes[3] as u32)
}

/// Reading back what was written gives the number again.
pub proof fn lemma_u32_be_round_trip(x: u32)
    ensures
        u32_be_bytes(x).len() == 4,
        u32_from_be_bytes(u32_be_bytes(x)) == x,
{
    let a = ((x >> 24) & 0xff) as u8;
    let b = ((x >> 16) & 0xff) as u8;
    let c = ((x >> 8) & 0xff) as u8;
    let d = (x & 0xff) as u8;
    assert(((a as u32) << 24) | ((b as u32) << 16) | ((c as u32) << 8) | (d as u32) == x) by (bit_vector)
        requires
            a == ((x >> 24) & 0xff) as u8,
            b == ((x >> 16) & 0xff) as u8,
            c == ((x >> 8) & 0xff) as u8,
            d == (x & 0xff) as u8,
    ;
}

} // verus!
