//! Little-endian 32-bit numbers, as the radio puts them on the wire.

use byteorder::{ByteOrder, LittleEndian};
use vstd::prelude::*;

verus! {

/// The number that the first four bytes of `b` hold, lowest byte first.
pub open spec fn le_u32(b: Seq<u8>) -> u32
    recommends
        b.len() >= 4,
{
    (b[0] + 256 * b[1] + 65536 * b[2] + 16777216 * b[3]) as u32
}

/// The four bytes that hold `n`, lowest byte first.
pub open spec fn le_bytes(n: u32) -> Seq<u8> {
    seq![
        (n % 256) as u8,
        (n / 256 % 256) as u8,
        (n / 65536 % 256) as u8,
        (n / 16777216) as u8,
    ]
}

/// Calls `byteorder::LittleEndian::read_u32`, which reads the first four
/// bytes of the slice as a number, lowest byte first, and panics on a slice
/// of fewer than four bytes.
#[verifier::external_body]
pub(crate) fn read_u32(buf: &[u8]) -> (n: u32)
    requires
        buf@.len() >= 4,
    ensures
        n == le_u32(buf@),
{
    LittleEndian::read_u32(buf)
}

/// Calls `byteorder::LittleEndian::write_u32` on a buffer of four bytes,
/// which it fills with `n`, lowest byte first.
#[verifier::external_body]
pub(crate) fn write_u32(n: u32) -> (out: Vec<u8>)
    ensures
        out@ == le_bytes(n),
{
    let mut buf: [u8; 4] = [0, 0, 0, 0];
    LittleEndian::write_u32(&mut buf, n);
    buf.to_vec()
}

/// Writing a number and reading it back gives the number, whatever follows
/// the four bytes.
pub proof fn lemma_le_round_trip(n: u32, rest: Seq<u8>)
    ensures
        le_bytes(n).len() == 4,
        le_u32(le_bytes(n) + rest) == n,
{
    let b = le_bytes(n) + rest;
    assert(b[0] == le_bytes(n)[0]);
    assert(b[1] == le_bytes(n)[1]);
    assert(b[2] == le_bytes(n)[2]);
    assert(b[3] == le_bytes(n)[3]);
}

/// The base-256 digits of a number below 2^32 are its four bytes.
proof fn lemma_digits(b0: int, b1: int, b2: int, b3: int)
    requires
        0 <= b0 < 256,
        0 <= b1 < 256,
        0 <= b2 < 256,
        0 <= b3 < 256,
    ensures
        0 <= b0 + 256 * b1 + 65536 * b2 + 16777216 * b3 < 0x1_0000_0000,
        (b0 + 256 * b1 + 65536 * b2 + 16777216 * b3) % 256 == b0,
        (b0 + 256 * b1 + 65536 * b2 + 16777216 * b3) / 256 % 256 == b1,
        (b0 + 256 * b1 + 65536 * b2 + 16777216 * b3) / 65536 % 256 == b2,
        (b0 + 256 * b1 + 65536 * b2 + 16777216 * b3) / 16777216 == b3,
{
    let n = b0 + 256 * b1 + 65536 * b2 + 16777216 * b3;
    let n1 = b1 + 256 * b2 + 65536 * b3;
    let n2 = b2 + 256 * b3;
    assert(n == b0 + 256 * n1);
    assert(n / 256 == n1);
    assert(n == (b0 + 256 * b1) + 65536 * n2);
    assert(n / 65536 == n2);
    assert(n == (b0 + 256 * b1 + 65536 * b2) + 16777216 * b3);
    assert(n / 16777216 == b3);
    assert(n1 == b1 + 256 * n2);
    assert(n1 % 256 == b1);
    assert(n2 % 256 == b2);
}

/// Four bytes that are read as a number are the bytes that the number is
/// written as.
pub proof fn lemma_le_bytes_of_read(b: Seq<u8>)
    requires
        b.len() == 4,
    ensures
        le_bytes(le_u32(b)) == b,
{
    lemma_digits(b[0] as int, b[1] as int, b[2] as int, b[3] as int);
    let n = le_u32(b);
    assert(n == b[0] + 256 * b[1] + 65536 * b[2] + 16777216 * b[3]);
    assert(le_bytes(n) =~= b);
}

} // verus!
