//! Big-endian integer encoding over byte sequences, and the `byteorder`
//! calls that read and write it.

use byteorder::{BigEndian, ByteOrder};
use vstd::prelude::*;

verus! {

/// The big-endian 16-bit value at `s[i..i + 2]`.
pub open spec fn be16(s: Seq<u8>, i: int) -> u16 {
    (s[i] as int * 0x100 + s[i + 1] as int) as u16
}

/// The big-endian 32-bit value at `s[i..i + 4]`.
pub open spec fn be32(s: Seq<u8>, i: int) -> u32 {
    (s[i] as int * 0x100_0000 + s[i + 1] as int * 0x1_0000 + s[i + 2] as int * 0x100 + s[i
        + 3] as int) as u32
}

/// The big-endian 64-bit value at `s[i..i + 8]`.
pub open spec fn be64(s: Seq<u8>, i: int) -> u64 {
    (be32(s, i) as int * 0x1_0000_0000 + be32(s, i + 4) as int) as u64
}

/// The four bytes of `n`, most significant first.
pub open spec fn be32_bytes(n: u32) -> Seq<u8> {
    seq![
        (n as int / 0x100_0000) as u8,
        (n as int / 0x1_0000 % 0x100) as u8,
        (n as int / 0x100 % 0x100) as u8,
        (n as int % 0x100) as u8,
    ]
}

/// The eight bytes of `n`, most significant first.
pub open spec fn be64_bytes(n: u64) -> Seq<u8> {
    be32_bytes((n as int / 0x1_0000_0000) as u32).add(be32_bytes((n as int % 0x1_0000_0000) as u32))
}

/// `BigEndian::read_u16` (byteorder): the big-endian value of the first two bytes of `buf`.
#[verifier::external_body]
pub(crate) fn read_be_u16(buf: &[u8]) -> (r: u16)
    requires
        buf@.len() >= 2,
    ensures
        r == be16(buf@, 0),
{
    BigEndian::read_u16(buf)
}

/// `BigEndian::read_u32` (byteorder): the big-endian value of the first four bytes of `buf`.
#[verifier::external_body]
pub(crate) fn read_be_u32(buf: &[u8]) -> (r: u32)
    requires
        buf@.len() >= 4,
    ensures
        r == be32(buf@, 0),
{
    BigEndian::read_u32(buf)
}

/// `BigEndian::read_u64` (byteorder): the big-endian value of the first eight bytes of `buf`.
#[verifier::external_body]
pub(crate) fn read_be_u64(buf: &[u8]) -> (r: u64)
    requires
        buf@.len() >= 8,
    ensures
        r == be64(buf@, 0),
{
    BigEndian::read_u64(buf)
}

/// `BigEndian::write_u32` (byteorder) on `buf[at..]`: stores `n` big-endian in `buf[at..at + 4]`
/// and changes nothing else.
#[verifier::external_body]
pub(crate) fn write_be_u32(buf: &mut Vec<u8>, at: usize, n: u32)
    requires
        at + 4 <= old(buf)@.len(),
    ensures
        final(buf)@ == old(buf)@.subrange(0, at as int).add(be32_bytes(n)).add(
            old(buf)@.subrange(at + 4, old(buf)@.len() as int),
        ),
{
    BigEndian::write_u32(&mut buf[at..], n)
}

/// `BigEndian::write_u64` (byteorder) on `buf[at..]`: stores `n` big-endian in `buf[at..at + 8]`
/// and changes nothing else.
#[verifier::external_body]
pub(crate) fn write_be_u64(buf: &mut Vec<u8>, at: usize, n: u64)
    requires
        at + 8 <= old(buf)@.len(),
    ensures
        final(buf)@ == old(buf)@.subrange(0, at as int).add(be64_bytes(n)).add(
            old(buf)@.subrange(at + 8, old(buf)@.len() as int),
        ),
{
    BigEndian::write_u64(&mut buf[at..], n)
}

} // verus!
