//! Big-endian integers in byte buffers.

use vstd::prelude::*;
use byteorder::{BigEndian, ByteOrder};

verus! {

/// The number that the first two bytes of `b` spell, most significant first.
pub open spec fn be16(b: Seq<u8>) -> int {
    b[0] * 0x100 + b[1]
}

/// The number that the first four bytes of `b` spell, most significant first.
pub open spec fn be32(b: Seq<u8>) -> int {
    b[0] * 0x100_0000 + b[1] * 0x1_0000 + b[2] * 0x100 + b[3]
}

/// The number that the first eight bytes of `b` spell, most significant first.
pub open spec fn be64(b: Seq<u8>) -> int {
    be32(b) * 0x1_0000_0000 + be32(b.skip(4))
}

/// byteorder's `BigEndian::read_u16`: the first two bytes of the buffer read
/// as a big-endian number. The outside function panics on a shorter buffer.
#[verifier::external_body]
pub(crate) fn read_u16(buf: &[u8]) -> (v: u16)
    requires
        buf@.len() >= 2,
    ensures
        v == be16(buf@),
{
    BigEndian::read_u16(buf)
}

/// byteorder's `BigEndian::read_u32`: the first four bytes of the buffer read
/// as a big-endian number. The outside function panics on a shorter buffer.
#[verifier::external_body]
pub(crate) fn read_u32(buf: &[u8]) -> (v: u32)
    requires
        buf@.len() >= 4,
    ensures
        v == be32(buf@),
{
    BigEndian::read_u32(buf)
}

/// byteorder's `BigEndian::read_u64`: the first eight bytes of the buffer
/// read as a big-endian number. The outside function panics on a shorter
/// buffer.
#[verifier::external_body]
pub(crate) fn read_u64(buf: &[u8]) -> (v: u64)
    requires
        buf@.len() >= 8,
    ensures
        v == be64(buf@),
{
    BigEndian::read_u64(buf)
}

} // verus!
