//! Big-endian integer fields of the binary record format.

use byteorder::{BigEndian, ByteOrder};
use vstd::prelude::*;

verus! {

/// The value of the first four bytes of `b`, most significant byte first.
pub open spec fn be_u32_value(b: Seq<u8>) -> u32 {
    (((b[0] as u32) << 24u32) | ((b[1] as u32) << 16u32) | ((b[2] as u32) << 8u32) | (b[3] as u32))
}

/// The value of the first eight bytes of `b`, most significant byte first.
pub open spec fn be_u64_value(b: Seq<u8>) -> u64 {
    (((b[0] as u64) << 56u64) | ((b[1] as u64) << 48u64) | ((b[2] as u64) << 40u64) | ((b[3] as u64) << 32u64)
        | ((b[4] as u64) << 24u64) | ((b[5] as u64) << 16u64) | ((b[6] as u64) << 8u64) | (b[7] as u64))
}

/// The four bytes of `n`, most significant byte first.
pub open spec fn be_u32_bytes(n: u32) -> Seq<u8> {
    seq![(n >> 24u32) as u8, (n >> 16u32) as u8, (n >> 8u32) as u8, n as u8]
}

/// The eight bytes of `n`, most significant byte first.
pub open spec fn be_u64_bytes(n: u64) -> Seq<u8> {
    seq![
        (n >> 56u64) as u8, (n >> 48u64) as u8, (n >> 40u64) as u8, (n >> 32u64) as u8,
        (n >> 24u64) as u8, (n >> 16u64) as u8, (n >> 8u64) as u8, n as u8,
    ]
}

/// Reading back the bytes of a `u32` gives the number.
pub proof fn lemma_be_u32_roundtrip(n: u32)
    ensures
        be_u32_bytes(n).len() == 4,
        be_u32_value(be_u32_bytes(n)) == n,
{
    let b = be_u32_bytes(n);
    let (b0, b1, b2, b3) = (b[0], b[1], b[2], b[3]);
    assert(b0 == (n >> 24u32) as u8 && b1 == (n >> 16u32) as u8 && b2 == (n >> 8u32) as u8 && b3 == n as u8);
    assert(b0 == (n >> 24u32) as u8 && b1 == (n >> 16u32) as u8 && b2 == (n >> 8u32) as u8 && b3 == n as u8
        ==> (((b0 as u32) << 24u32) | ((b1 as u32) << 16u32) | ((b2 as u32) << 8u32) | (b3 as u32)) == n)
        by (bit_vector);
}

/// Reading back the bytes of a `u64` gives the number.
pub proof fn lemma_be_u64_roundtrip(n: u64)
    ensures
        be_u64_bytes(n).len() == 8,
        be_u64_value(be_u64_bytes(n)) == n,
{
    let b = be_u64_bytes(n);
    let (b0, b1, b2, b3, b4, b5, b6, b7) = (b[0], b[1], b[2], b[3], b[4], b[5], b[6], b[7]);
    assert(b0 == (n >> 56u64) as u8 && b1 == (n >> 48u64) as u8 && b2 == (n >> 40u64) as u8 && b3
        == (n >> 32u64) as u8 && b4 == (n >> 24u64) as u8 && b5 == (n >> 16u64) as u8 && b6 == (n
        >> 8u64) as u8 && b7 == n as u8);
    assert(b0 == (n >> 56u64) as u8 && b1 == (n >> 48u64) as u8 && b2 == (n >> 40u64) as u8 && b3
        == (n >> 32u64) as u8 && b4 == (n >> 24u64) as u8 && b5 == (n >> 16u64) as u8 && b6 == (n
        >> 8u64) as u8 && b7 == n as u8 ==> (((b0 as u64) << 56u64) | ((b1 as u64) << 48u64) | ((
    b2 as u64) << 40u64) | ((b3 as u64) << 32u64) | ((b4 as u64) << 24u64) | ((b5 as u64) << 16u64)
        | ((b6 as u64) << 8u64) | (b7 as u64)) == n) by (bit_vector);
}

/// Taking a `u64` to `i64` and back keeps it.
pub proof fn lemma_u64_i64_roundtrip(n: u64)
    ensures
        ((n as i64) as u64) == n,
{
    assert(((n as i64) as u64) == n) by (bit_vector);
}

/// `BigEndian::read_u32` of byteorder: the first four bytes of `buf`, most
/// significant first. The crate panics on fewer than four bytes.
#[verifier::external_body]
pub(crate) fn read_be_u32(buf: &[u8]) -> (r: u32)
    requires
        buf@.len() >= 4,
    ensures
        r == be_u32_value(buf@),
{
    BigEndian::read_u32(buf)
}

/// `BigEndian::read_u64` of byteorder: the first eight bytes of `buf`, most
/// significant first. The crate panics on fewer than eight bytes.
#[verifier::external_body]
pub(crate) fn read_be_u64(buf: &[u8]) -> (r: u64)
    requires
        buf@.len() >= 8,
    ensures
        r == be_u64_value(buf@),
{
    BigEndian::read_u64(buf)
}

/// `BigEndian::read_i64` of byteorder: the first eight bytes of `buf`, most
/// significant first, taken as a two's complement number. The crate panics on
/// fewer than eight bytes.
#[verifier::external_body]
pub(crate) fn read_be_i64(buf: &[u8]) -> (r: i64)
    requires
        buf@.len() >= 8,
    ensures
        r == be_u64_value(buf@) as i64,
{
    BigEndian::read_i64(buf)
}

/// `BigEndian::write_u32` of byteorder into a four-byte buffer: the bytes of
/// `n`, most significant first.
#[verifier::external_body]
pub(crate) fn write_be_u32(n: u32) -> (r: [u8; 4])
    ensures
        r@ == be_u32_bytes(n),
{
    let mut buf = [0u8; 4];
    BigEndian::write_u32(&mut buf, n);
    buf
}

/// `BigEndian::write_u64` of byteorder into an eight-byte buffer: the bytes
/// of `n`, most significant first.
#[verifier::external_body]
pub(crate) fn write_be_u64(n: u64) -> (r: [u8; 8])
    ensures
        r@ == be_u64_bytes(n),
{
    let mut buf = [0u8; 8];
    BigEndian::write_u64(&mut buf, n);
    buf
}

/// `BigEndian::write_i64` of byteorder into an eight-byte buffer: the two's
/// complement bytes of `n`, most significant first.
#[verifier::external_body]
pub(crate) fn write_be_i64(n: i64) -> (r: [u8; 8])
    ensures
        r@ == be_u64_bytes(n as u64),
{
    let mut buf = [0u8; 8];
    BigEndian::write_i64(&mut buf, n);
    buf
}

} // verus!
