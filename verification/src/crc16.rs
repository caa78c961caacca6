//! The 16-bit CRC that closes every frame.
//!
//! The probe uses the reflected CCITT polynomial (0x8408), starts from
//! 0xFFFF and applies no final inversion. Bytes are fed least significant
//! bit first.

use vstd::prelude::*;

verus! {

/// Start value of the checksum register.
pub const CRC_INIT: u16 = 0xffff;

/// The generator polynomial, bit-reversed.
pub const CRC_POLY: u16 = 0x8408;

/// One step of the shift register: the lowest bit leaves, and the polynomial
/// is folded in when that bit was set.
pub open spec fn crc_shift(crc: u16) -> u16 {
    if crc & 1 == 1 {
        (crc >> 1) ^ CRC_POLY
    } else {
        crc >> 1
    }
}

/// `crc_shift` applied `rounds` times.
pub open spec fn shifted(crc: u16, rounds: nat) -> u16
    decreases rounds,
{
    if rounds == 0 {
        crc
    } else {
        crc_shift(shifted(crc, (rounds - 1) as nat))
    }
}

/// The register after one more message byte.
pub open spec fn crc_update(crc: u16, byte: u8) -> u16 {
    crc_shift(
        crc_shift(
            crc_shift(
                crc_shift(crc_shift(crc_shift(crc_shift(crc_shift(crc ^ (byte as u16)))))),
            ),
        ),
    )
}

/// The checksum of a byte sequence.
pub open spec fn crc16(bytes: Seq<u8>) -> u16
    decreases bytes.len(),
{
    if bytes.len() == 0 {
        CRC_INIT
    } else {
        crc_update(crc16(bytes.drop_last()), bytes.last())
    }
}

/// Shifts the register by one bit.
fn shift(crc: u16) -> (out: u16)
    ensures
        out == crc_shift(crc),
{
    if crc & 1 == 1 {
        (crc >> 1) ^ CRC_POLY
    } else {
        crc >> 1
    }
}

/// Feeds one byte to the register: eight shifts.
fn update(crc: u16, byte: u8) -> (out: u16)
    ensures
        out == crc_update(crc, byte),
{
    let mut reg: u16 = crc ^ (byte as u16);
    let mut round: u8 = 0;
    let ghost start = reg;
    while round < 8
        invariant
            round <= 8,
            reg == shifted(start, round as nat),
        decreases 8 - round,
    {
        reg = shift(reg);
        round = round + 1;
    }
    proof {
        reveal_with_fuel(shifted, 9);
    }
    reg
}

/// Computes the checksum of `data`.
pub fn crcsum(data: &[u8]) -> (crc: u16)
    ensures
        crc == crc16(data@),
{
    let mut crc: u16 = CRC_INIT;
    let mut at: usize = 0;
    while at < data.len()
        invariant
            at <= data.len(),
            crc == crc16(data@.subrange(0, at as int)),
        decreases data.len() - at,
    {
        proof {
            assert(data@.subrange(0, at + 1).drop_last() =~= data@.subrange(0, at as int));
        }
        crc = update(crc, data[at]);
        at = at + 1;
    }
    proof {
        assert(data@.subrange(0, at as int) =~= data@);
    }
    crc
}

/// Two registers that differ still differ after the same byte went in.
pub proof fn lemma_update_keeps_difference(a: u16, b: u16, byte: u8)
    requires
        a != b,
    ensures
        crc_update(a, byte) != crc_update(b, byte),
{
    assert(crc_update(a, byte) == crc_update(b, byte) ==> a == b) by (bit_vector);
}

/// Two different bytes take one register to two different registers.
pub proof fn lemma_update_tells_bytes_apart(crc: u16, x: u8, y: u8)
    requires
        x != y,
    ensures
        crc_update(crc, x) != crc_update(crc, y),
{
    assert(crc_update(crc, x) == crc_update(crc, y) ==> x == y) by (bit_vector);
}

/// Changing exactly one byte of a message always changes its checksum; a
/// single flipped bit is the smallest such change.
pub proof fn lemma_one_byte_changes_crc(bytes: Seq<u8>, at: int, byte: u8)
    requires
        0 <= at < bytes.len(),
        byte != bytes[at],
    ensures
        crc16(bytes.update(at, byte)) != crc16(bytes),
    decreases bytes.len(),
{
    let changed = bytes.update(at, byte);
    if at == bytes.len() - 1 {
        assert(changed.drop_last() =~= bytes.drop_last());
        lemma_update_tells_bytes_apart(crc16(bytes.drop_last()), byte, bytes[at]);
    } else {
        assert(changed.drop_last() =~= bytes.drop_last().update(at, byte));
        lemma_one_byte_changes_crc(bytes.drop_last(), at, byte);
        lemma_update_keeps_difference(
            crc16(changed.drop_last()),
            crc16(bytes.drop_last()),
            bytes.last(),
        );
    }
}

} // verus!
