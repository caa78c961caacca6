//! The wire frame: a start byte, the sequence number, the payload length, a
//! token byte, the payload, and a CRC over all that precedes it. All
//! integers are little-endian.

use crate::codes::{Replies, MESSAGE_START, TOKEN};
use crate::crc16::{crc16, crcsum, lemma_one_byte_changes_crc};
use crate::error::JtagIceMkiiError;
use crate::wire::{
    le16, le16_value, le32, le32_value, lemma_le_round_trip, read_u16_le, read_u32_le, write_u16_le,
    write_u32_le,
};
use vstd::prelude::*;
use vstd::slice::{slice_subrange, slice_to_vec};

verus! {

/// Bytes in front of the payload.
pub const HEADER_LEN: usize = 8;

/// Bytes of a frame that are not payload: the header and the CRC.
pub const OVERHEAD: usize = 10;

/// A command on its way out: the payload, opcode first, under the sequence
/// number it is sent with.
#[derive(Debug, PartialEq, Eq)]
pub struct JtagIceMkiiCommand {
    pub seqno: u16,
    pub data: Vec<u8>,
}

/// A reply that was decoded from a frame. `data` is the payload without the
/// reply code.
#[derive(Debug, PartialEq, Eq)]
pub struct JtagIceMkiiReply {
    pub seqno: u16,
    pub reply: Replies,
    pub data: Vec<u8>,
}

/// What a reply holds, as plain values.
pub struct ReplyView {
    pub seqno: u16,
    pub reply: Replies,
    pub data: Seq<u8>,
}

impl View for JtagIceMkiiReply {
    type V = ReplyView;

    open spec fn view(&self) -> ReplyView {
        ReplyView { seqno: self.seqno, reply: self.reply, data: self.data@ }
    }
}

/// The eight bytes in front of a payload of `len` bytes.
pub open spec fn header(seqno: u16, len: u32) -> Seq<u8> {
    seq![MESSAGE_START] + le16(seqno) + le32(len) + seq![TOKEN]
}

/// The frame that carries `payload` under `seqno`.
pub open spec fn encode(seqno: u16, payload: Seq<u8>) -> Seq<u8>
    recommends
        payload.len() <= u32::MAX,
{
    let covered = header(seqno, payload.len() as u32) + payload;
    covered + le16(crc16(covered))
}

/// The length of the whole frame, as its header announces it. Known once
/// seven bytes are there.
pub open spec fn announced_len(raw: Seq<u8>) -> int
    recommends
        raw.len() >= 7,
{
    OVERHEAD + le32_value(raw.subrange(3, 7))
}

/// Takes a frame apart into sequence number and payload. Bytes beyond the
/// announced length are not looked at.
pub open spec fn frame_parts(raw: Seq<u8>) -> Result<(u16, Seq<u8>), JtagIceMkiiError> {
    if raw.len() == 0 {
        Err(JtagIceMkiiError::UnmarshallIncomplete)
    } else if raw[0] != MESSAGE_START {
        Err(JtagIceMkiiError::UnmarshallMessageStart)
    } else if raw.len() < HEADER_LEN {
        Err(JtagIceMkiiError::UnmarshallIncomplete)
    } else if raw[7] != TOKEN {
        Err(JtagIceMkiiError::UnmarshallTokenError)
    } else if raw.len() < announced_len(raw) {
        Err(JtagIceMkiiError::UnmarshallIncomplete)
    } else {
        let total = announced_len(raw);
        if crc16(raw.subrange(0, total - 2)) != le16_value(raw.subrange(total - 2, total)) {
            Err(JtagIceMkiiError::UnmarshallCrc)
        } else {
            Ok((le16_value(raw.subrange(1, 3)), raw.subrange(HEADER_LEN as int, total - 2)))
        }
    }
}

/// Reads a payload as a reply: its first byte is the reply code, the rest
/// is the reply's data.
pub open spec fn reply_of(seqno: u16, payload: Seq<u8>) -> Result<ReplyView, JtagIceMkiiError> {
    if payload.len() == 0 {
        Err(JtagIceMkiiError::ShortReply)
    } else {
        match Replies::spec_from_code(payload[0]) {
            None => Err(JtagIceMkiiError::UnknownReplyCmnd(payload[0])),
            Some(reply) => Ok(
                ReplyView { seqno, reply, data: payload.subrange(1, payload.len() as int) },
            ),
        }
    }
}

/// What decoding `raw` gives: the reply it carries, or the first thing that
/// is wrong with it.
pub open spec fn decode(raw: Seq<u8>) -> Result<ReplyView, JtagIceMkiiError> {
    match frame_parts(raw) {
        Err(e) => Err(e),
        Ok((seqno, payload)) => reply_of(seqno, payload),
    }
}

/// `result` seen through the view of the reply it may hold.
pub open spec fn decoded(result: Result<JtagIceMkiiReply, JtagIceMkiiError>) -> Result<
    ReplyView,
    JtagIceMkiiError,
> {
    match result {
        Ok(reply) => Ok(reply@),
        Err(e) => Err(e),
    }
}

/// Adds the bytes of `src` at the end of `dst`.
pub(crate) fn append(dst: &mut Vec<u8>, src: &[u8])
    ensures
        final(dst)@ == old(dst)@ + src@,
{
    let mut at: usize = 0;
    while at < src.len()
        invariant
            at <= src.len(),
            dst@ == old(dst)@ + src@.subrange(0, at as int),
        decreases src.len() - at,
    {
        dst.push(src[at]);
        at = at + 1;
    }
}

impl JtagIceMkiiCommand {
    /// Encodes the command as one frame.
    pub fn to_raw(&self) -> (msg: Vec<u8>)
        requires
            self.data@.len() <= u32::MAX,
        ensures
            msg@ == encode(self.seqno, self.data@),
    {
        let mut msg: Vec<u8> = Vec::new();
        msg.push(MESSAGE_START);
        let seqno = write_u16_le(self.seqno);
        append(&mut msg, seqno.as_slice());
        let len = write_u32_le(self.data.len() as u32);
        append(&mut msg, len.as_slice());
        msg.push(TOKEN);
        append(&mut msg, self.data.as_slice());
        let ghost covered = msg@;
        let crc = write_u16_le(crcsum(msg.as_slice()));
        append(&mut msg, crc.as_slice());
        proof {
            assert(covered =~= header(self.seqno, self.data@.len() as u32) + self.data@);
        }
        msg
    }
}

impl JtagIceMkiiReply {
    /// Decodes the frame at the start of `raw_data`. Never reads past the
    /// end of the buffer: a buffer shorter than the frame it announces is
    /// reported as incomplete.
    pub fn from_raw(raw_data: &[u8]) -> (result: Result<JtagIceMkiiReply, JtagIceMkiiError>)
        ensures
            decoded(result) == decode(raw_data@),
    {
        if raw_data.len() == 0 {
            return Err(JtagIceMkiiError::UnmarshallIncomplete);
        }
        if raw_data[0] != MESSAGE_START {
            return Err(JtagIceMkiiError::UnmarshallMessageStart);
        }
        if raw_data.len() < HEADER_LEN {
            return Err(JtagIceMkiiError::UnmarshallIncomplete);
        }
        let seqno = read_u16_le(slice_subrange(raw_data, 1, 3));
        let data_len = read_u32_le(slice_subrange(raw_data, 3, 7));
        if raw_data[7] != TOKEN {
            return Err(JtagIceMkiiError::UnmarshallTokenError);
        }
        if ((raw_data.len() as u64) < data_len as u64 + OVERHEAD as u64) {
            return Err(JtagIceMkiiError::UnmarshallIncomplete);
        }
        let total: usize = data_len as usize + OVERHEAD;
        let calculated_crc = crcsum(slice_subrange(raw_data, 0, total - 2));
        let recvd_crc = read_u16_le(slice_subrange(raw_data, total - 2, total));
        if calculated_crc != recvd_crc {
            return Err(JtagIceMkiiError::UnmarshallCrc);
        }
        let ghost payload = raw_data@.subrange(HEADER_LEN as int, total - 2);
        if data_len == 0 {
            return Err(JtagIceMkiiError::ShortReply);
        }
        let code = raw_data[HEADER_LEN];
        let reply = match Replies::from_code(code) {
            Some(x) => x,
            None => {
                return Err(JtagIceMkiiError::UnknownReplyCmnd(code));
            },
        };
        let data = slice_to_vec(slice_subrange(raw_data, HEADER_LEN + 1, total - 2));
        proof {
            assert(data@ =~= payload.subrange(1, payload.len() as int));
        }
        Ok(JtagIceMkiiReply { seqno, reply, data })
    }
}

/// How an encoded frame is laid out.
pub proof fn lemma_encode_layout(seqno: u16, payload: Seq<u8>)
    requires
        payload.len() <= u32::MAX,
    ensures
        ({
            let frame = encode(seqno, payload);
            let covered = header(seqno, payload.len() as u32) + payload;
            &&& frame.len() == payload.len() + OVERHEAD
            &&& frame[0] == MESSAGE_START
            &&& frame[7] == TOKEN
            &&& frame.subrange(1, 3) == le16(seqno)
            &&& frame.subrange(3, 7) == le32(payload.len() as u32)
            &&& frame.subrange(HEADER_LEN as int, frame.len() - 2) == payload
            &&& frame.subrange(0, frame.len() - 2) == covered
            &&& frame.subrange(frame.len() - 2, frame.len() as int) == le16(crc16(covered))
            &&& announced_len(frame) == frame.len()
        }),
{
    let frame = encode(seqno, payload);
    let covered = header(seqno, payload.len() as u32) + payload;
    assert(frame.subrange(1, 3) =~= le16(seqno));
    assert(frame.subrange(3, 7) =~= le32(payload.len() as u32));
    assert(frame.subrange(HEADER_LEN as int, frame.len() - 2) =~= payload);
    assert(frame.subrange(0, frame.len() - 2) =~= covered);
    assert(frame.subrange(frame.len() - 2, frame.len() as int) =~= le16(crc16(covered)));
}

/// Round trip of the frame layer: taking an encoded frame apart gives back
/// the sequence number and the payload, whatever the payload holds.
pub proof fn lemma_frame_round_trip(seqno: u16, payload: Seq<u8>)
    requires
        payload.len() <= u32::MAX,
    ensures
        frame_parts(encode(seqno, payload)) == Ok::<(u16, Seq<u8>), JtagIceMkiiError>(
            (seqno, payload),
        ),
{
    lemma_encode_layout(seqno, payload);
    lemma_le_round_trip(seqno, payload.len() as u32);
}

/// Round trip: decoding the frame of a payload that begins with a known
/// reply code gives that reply under the same sequence number, with the rest
/// of the payload as its data.
pub proof fn lemma_round_trip(seqno: u16, payload: Seq<u8>)
    requires
        payload.len() <= u32::MAX,
        payload.len() >= 1,
        Replies::spec_from_code(payload[0]) is Some,
    ensures
        decode(encode(seqno, payload)) == Ok::<ReplyView, JtagIceMkiiError>(
            ReplyView {
                seqno,
                reply: Replies::spec_from_code(payload[0])->0,
                data: payload.subrange(1, payload.len() as int),
            },
        ),
{
    lemma_frame_round_trip(seqno, payload);
}

/// A payload that is empty or begins with an unknown byte still makes a
/// sound frame, but no reply: decoding its frame names what is missing.
pub proof fn lemma_round_trip_without_reply(seqno: u16, payload: Seq<u8>)
    requires
        payload.len() <= u32::MAX,
    ensures
        payload.len() == 0 ==> decode(encode(seqno, payload)) == Err::<
            ReplyView,
            JtagIceMkiiError,
        >(JtagIceMkiiError::ShortReply),
        payload.len() > 0 && Replies::spec_from_code(payload[0]) is None ==> decode(
            encode(seqno, payload),
        ) == Err::<ReplyView, JtagIceMkiiError>(JtagIceMkiiError::UnknownReplyCmnd(payload[0])),
{
    lemma_frame_round_trip(seqno, payload);
}

/// Truncation: every proper prefix of an encoded frame, the empty one
/// included, decodes to `UnmarshallIncomplete`.
pub proof fn lemma_truncated_is_incomplete(seqno: u16, payload: Seq<u8>, keep: int)
    requires
        payload.len() <= u32::MAX,
        0 <= keep < encode(seqno, payload).len(),
    ensures
        decode(encode(seqno, payload).subrange(0, keep)) == Err::<ReplyView, JtagIceMkiiError>(
            JtagIceMkiiError::UnmarshallIncomplete,
        ),
{
    lemma_encode_layout(seqno, payload);
    let frame = encode(seqno, payload);
    let cut = frame.subrange(0, keep);
    if keep >= HEADER_LEN {
        assert(cut.subrange(3, 7) =~= frame.subrange(3, 7));
    }
}

/// A buffer that holds fewer bytes than its own header announces is
/// incomplete, whatever else it holds after a sound start and token.
pub proof fn lemma_short_buffer_is_incomplete(raw: Seq<u8>)
    requires
        raw.len() >= HEADER_LEN,
        raw[0] == MESSAGE_START,
        raw[7] == TOKEN,
        raw.len() < announced_len(raw),
    ensures
        decode(raw) == Err::<ReplyView, JtagIceMkiiError>(JtagIceMkiiError::UnmarshallIncomplete),
{
}

/// Two byte pairs that differ in one place spell different numbers.
proof fn lemma_le16_value_changes(bytes: Seq<u8>, at: int, byte: u8)
    requires
        bytes.len() == 2,
        0 <= at < 2,
        byte != bytes[at],
    ensures
        le16_value(bytes.update(at, byte)) != le16_value(bytes),
{
}

/// Corruption: replacing one byte of an encoded frame by another never goes
/// unnoticed where the CRC is all that guards it. In the sequence number,
/// the payload and the CRC itself the frame then fails the CRC check; a
/// changed start or token byte is reported as such.
pub proof fn lemma_changed_byte_detected(seqno: u16, payload: Seq<u8>, at: int, byte: u8)
    requires
        payload.len() <= u32::MAX,
        0 <= at < encode(seqno, payload).len(),
        byte != encode(seqno, payload)[at],
    ensures
        ({
            let outcome = decode(encode(seqno, payload).update(at, byte));
            &&& at == 0 ==> outcome == Err::<ReplyView, JtagIceMkiiError>(
                JtagIceMkiiError::UnmarshallMessageStart,
            )
            &&& at == 7 ==> outcome == Err::<ReplyView, JtagIceMkiiError>(
                JtagIceMkiiError::UnmarshallTokenError,
            )
            &&& (1 <= at < 3 || HEADER_LEN <= at) ==> outcome == Err::<
                ReplyView,
                JtagIceMkiiError,
            >(JtagIceMkiiError::UnmarshallCrc)
        }),
{
    lemma_encode_layout(seqno, payload);
    let frame = encode(seqno, payload);
    let changed = frame.update(at, byte);
    let total = frame.len() as int;
    let covered = frame.subrange(0, total - 2);
    if 1 <= at < 3 || HEADER_LEN <= at {
        assert(changed.subrange(3, 7) =~= frame.subrange(3, 7));
        assert(announced_len(changed) == total);
        if at < total - 2 {
            assert(changed.subrange(0, total - 2) =~= covered.update(at, byte));
            assert(changed.subrange(total - 2, total) =~= frame.subrange(total - 2, total));
            lemma_one_byte_changes_crc(covered, at, byte);
        } else {
            assert(changed.subrange(0, total - 2) =~= covered);
            assert(changed.subrange(total - 2, total) =~= frame.subrange(total - 2, total).update(
                at - (total - 2),
                byte,
            ));
            lemma_le16_value_changes(frame.subrange(total - 2, total), at - (total - 2), byte);
        }
    }
}

/// A byte with one bit flipped is another byte.
pub proof fn lemma_flipped_bit_differs(byte: u8, bit: u8)
    requires
        bit < 8,
    ensures
        byte ^ (1u8 << bit) != byte,
{
    assert(bit < 8 ==> byte ^ (1u8 << bit) != byte) by (bit_vector);
}

/// Corruption by a single flipped bit: in the sequence number, in the
/// payload or in the CRC of an encoded frame it makes decoding fail with
/// `UnmarshallCrc`.
pub proof fn lemma_flipped_bit_detected(seqno: u16, payload: Seq<u8>, at: int, bit: u8)
    requires
        payload.len() <= u32::MAX,
        1 <= at < 3 || HEADER_LEN <= at < encode(seqno, payload).len(),
        bit < 8,
    ensures
        decode(encode(seqno, payload).update(at, encode(seqno, payload)[at] ^ (1u8 << bit)))
            == Err::<ReplyView, JtagIceMkiiError>(JtagIceMkiiError::UnmarshallCrc),
{
    lemma_encode_layout(seqno, payload);
    let frame = encode(seqno, payload);
    lemma_flipped_bit_differs(frame[at], bit);
    lemma_changed_byte_detected(seqno, payload, at, frame[at] ^ (1u8 << bit));
}

/// Corruption of the length field: a changed byte there that makes the
/// announced length grow leaves the buffer too short for it.
pub proof fn lemma_grown_length_is_incomplete(seqno: u16, payload: Seq<u8>, at: int, byte: u8)
    requires
        payload.len() <= u32::MAX,
        3 <= at < 7,
        byte > encode(seqno, payload)[at],
    ensures
        decode(encode(seqno, payload).update(at, byte)) == Err::<ReplyView, JtagIceMkiiError>(
            JtagIceMkiiError::UnmarshallIncomplete,
        ),
{
    lemma_encode_layout(seqno, payload);
    let frame = encode(seqno, payload);
    let changed = frame.update(at, byte);
    assert(changed.subrange(3, 7) =~= frame.subrange(3, 7).update(at - 3, byte));
}

} // verus!
