//! Big-endian integers at the front of a byte sequence.

use byteorder::{BigEndian, ReadBytesExt, WriteBytesExt};
use vstd::prelude::*;

verus! {

/// The four bytes of `n`, most significant first.
pub open spec fn be32(n: u32) -> Seq<u8> {
    seq![
        (n / 0x100_0000) as u8,
        (n / 0x1_0000 % 0x100) as u8,
        (n / 0x100 % 0x100) as u8,
        (n % 0x100) as u8,
    ]
}

/// The eight bytes of `n`, most significant first.
pub open spec fn be64(n: u64) -> Seq<u8> {
    be32((n / 0x1_0000_0000) as u32) + be32((n % 0x1_0000_0000) as u32)
}

/// The number whose big-endian form is the first four bytes of `b`.
pub open spec fn be32_value(b: Seq<u8>) -> u32 {
    (b[0] * 0x100_0000 + b[1] * 0x1_0000 + b[2] * 0x100 + b[3]) as u32
}

/// The number whose big-endian form is the first eight bytes of `b`.
pub open spec fn be64_value(b: Seq<u8>) -> u64 {
    (be32_value(b) * 0x1_0000_0000 + be32_value(b.skip(4))) as u64
}

/// The big-endian form of a number, whatever follows it, has that number as its value.
pub proof fn lemma_be32_value(n: u32, rest: Seq<u8>)
    ensures
        be32_value(be32(n) + rest) == n,
{
    let b = be32(n) + rest;
    assert(b[0] == n / 0x100_0000);
    assert(b[1] == n / 0x1_0000 % 0x100);
    assert(b[2] == n / 0x100 % 0x100);
    assert(b[3] == n % 0x100);
}

/// Four bytes are the big-endian form of their value.
pub proof fn lemma_be32_bytes(b: Seq<u8>)
    requires
        b.len() >= 4,
    ensures
        be32(be32_value(b)) == b.take(4),
{
    let (b0, b1, b2, b3) = (b[0], b[1], b[2], b[3]);
    let n = be32_value(b);
    assert(n == b0 * 0x100_0000 + b1 * 0x1_0000 + b2 * 0x100 + b3);
    assert(n % 0x100 == b3);
    let n1 = n / 0x100;
    assert(n1 == b0 * 0x1_0000 + b1 * 0x100 + b2);
    assert(n1 % 0x100 == b2);
    let n2 = n / 0x1_0000;
    assert(n2 == b0 * 0x100 + b1);
    assert(n2 % 0x100 == b1);
    assert(n / 0x100_0000 == b0);
    assert(be32(n) =~= b.take(4));
}

/// As `lemma_be32_value`, for eight bytes.
pub proof fn lemma_be64_value(n: u64, rest: Seq<u8>)
    ensures
        be64_value(be64(n) + rest) == n,
{
    let hi = (n / 0x1_0000_0000) as u32;
    let lo = (n % 0x1_0000_0000) as u32;
    lemma_be32_value(hi, be32(lo) + rest);
    lemma_be32_value(lo, rest);
    assert(be64(n) + rest =~= be32(hi) + (be32(lo) + rest));
    assert((be64(n) + rest).skip(4) =~= be32(lo) + rest);
}

/// As `lemma_be32_bytes`, for eight bytes.
pub proof fn lemma_be64_bytes(b: Seq<u8>)
    requires
        b.len() >= 8,
    ensures
        be64(be64_value(b)) == b.take(8),
{
    lemma_be32_bytes(b);
    lemma_be32_bytes(b.skip(4));
    let hi = be32_value(b);
    let lo = be32_value(b.skip(4));
    let n = be64_value(b);
    assert(n == hi * 0x1_0000_0000 + lo);
    assert(n / 0x1_0000_0000 == hi);
    assert(n % 0x1_0000_0000 == lo);
    assert(be64(n) =~= b.take(8));
}

/// What follows eight bytes does not change their value.
pub proof fn lemma_be64_prefix(b: Seq<u8>, rest: Seq<u8>)
    requires
        b.len() >= 8,
    ensures
        be64_value(b + rest) == be64_value(b),
{
    lemma_be64_bytes(b);
    lemma_be64_value(be64_value(b), b.skip(8) + rest);
    assert(b + rest =~= b.take(8) + (b.skip(8) + rest));
}

/// `byteorder::WriteBytesExt::write_u32` with `BigEndian`, on a vector: appends the four bytes
/// of `n`, most significant first. Writing to a vector does not fail.
#[verifier::external_body]
pub(crate) fn put_u32(buf: &mut Vec<u8>, n: u32)
    ensures
        final(buf)@ == old(buf)@ + be32(n),
{
    buf.write_u32::<BigEndian>(n).expect("vec grows as needed")
}

/// `byteorder::WriteBytesExt::write_u64` with `BigEndian`, on a vector: appends the eight bytes
/// of `n`, most significant first. Writing to a vector does not fail.
#[verifier::external_body]
pub(crate) fn put_u64(buf: &mut Vec<u8>, n: u64)
    ensures
        final(buf)@ == old(buf)@ + be64(n),
{
    buf.write_u64::<BigEndian>(n).expect("vec grows as needed")
}

/// `byteorder::ReadBytesExt::read_u32` with `BigEndian`, on a byte slice: the value of the first
/// four bytes, or nothing where there are fewer.
#[verifier::external_body]
pub(crate) fn get_u32(buf: &[u8]) -> (n: Option<u32>)
    ensures
        n == if buf@.len() >= 4 {
            Some(be32_value(buf@))
        } else {
            None
        },
{
    let mut cursor = buf;
    cursor.read_u32::<BigEndian>().ok()
}

/// `byteorder::ReadBytesExt::read_u64` with `BigEndian`, on a byte slice: the value of the first
/// eight bytes, or nothing where there are fewer.
#[verifier::external_body]
pub(crate) fn get_u64(buf: &[u8]) -> (n: Option<u64>)
    ensures
        n == if buf@.len() >= 8 {
            Some(be64_value(buf@))
        } else {
            None
        },
{
    let mut cursor = buf;
    cursor.read_u64::<BigEndian>().ok()
}

} // verus!
