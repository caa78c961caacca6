//! Little-endian integers as they stand in a frame.
//!
//! The conversions themselves are done by the `byteorder` crate; this module
//! says what they give.

use byteorder::{ByteOrder, LittleEndian};
use vstd::prelude::*;

verus! {

/// The two bytes of `n`, low byte first.
pub open spec fn le16(n: u16) -> Seq<u8> {
    seq![(n % 256) as u8, (n / 256) as u8]
}

/// The four bytes of `n`, low byte first.
pub open spec fn le32(n: u32) -> Seq<u8> {
    seq![
        (n % 256) as u8,
        (n / 256 % 256) as u8,
        (n / 65536 % 256) as u8,
        (n / 16777216) as u8,
    ]
}

/// The number whose low byte is `bytes[0]` and whose high byte is `bytes[1]`.
pub open spec fn le16_value(bytes: Seq<u8>) -> u16
    recommends
        bytes.len() >= 2,
{
    (bytes[0] + 256 * bytes[1]) as u16
}

/// The number that the first four of `bytes` spell, low byte first.
pub open spec fn le32_value(bytes: Seq<u8>) -> u32
    recommends
        bytes.len() >= 4,
{
    (bytes[0] + 256 * bytes[1] + 65536 * bytes[2] + 16777216 * bytes[3]) as u32
}

/// Calls `byteorder::LittleEndian::write_u16` on a fresh two-byte buffer.
/// Trusted: the buffer then holds `n` with its low byte first.
#[verifier::external_body]
pub(crate) fn write_u16_le(n: u16) -> (out: [u8; 2])
    ensures
        out@ == le16(n),
{
    let mut out = [0u8; 2];
    LittleEndian::write_u16(&mut out, n);
    out
}

/// Calls `byteorder::LittleEndian::write_u32` on a fresh four-byte buffer.
/// Trusted: the buffer then holds `n` with its low byte first.
#[verifier::external_body]
pub(crate) fn write_u32_le(n: u32) -> (out: [u8; 4])
    ensures
        out@ == le32(n),
{
    let mut out = [0u8; 4];
    LittleEndian::write_u32(&mut out, n);
    out
}

/// Calls `byteorder::LittleEndian::read_u16`, which panics on fewer than two
/// bytes. Trusted: it reads the first two bytes, low byte first, and ignores
/// the rest.
#[verifier::external_body]
pub(crate) fn read_u16_le(buf: &[u8]) -> (n: u16)
    requires
        buf@.len() >= 2,
    ensures
        n == le16_value(buf@),
{
    LittleEndian::read_u16(buf)
}

/// Calls `byteorder::LittleEndian::read_u32`, which panics on fewer than
/// four bytes. Trusted: it reads the first four bytes, low byte first, and
/// ignores the rest.
#[verifier::external_body]
pub(crate) fn read_u32_le(buf: &[u8]) -> (n: u32)
    requires
        buf@.len() >= 4,
    ensures
        n == le32_value(buf@),
{
    LittleEndian::read_u32(buf)
}

/// Reading back what was written gives the number that was written.
pub proof fn lemma_le_round_trip(a: u16, b: u32)
    ensures
        le16(a).len() == 2,
        le32(b).len() == 4,
        le16_value(le16(a)) == a,
        le32_value(le32(b)) == b,
{
}

} // verus!
