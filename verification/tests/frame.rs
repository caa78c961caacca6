use jtagice_mkii::crc16::crcsum;
use jtagice_mkii::{Commands, JtagIceMkiiCommand, JtagIceMkiiError, JtagIceMkiiReply, Replies, ReplyClass};

fn frame_of(seqno: u16, payload: &[u8]) -> Vec<u8> {
    JtagIceMkiiCommand { seqno, data: payload.to_vec() }.to_raw()
}

#[test]
fn crc_of_nothing_is_the_start_value() {
    assert_eq!(crcsum(&[]), 0xffff);
}

#[test]
fn crc_of_single_bytes() {
    assert_eq!(crcsum(&[0x00]), 0x0f87);
    assert_eq!(crcsum(&[0xff]), 0x00ff);
}

#[test]
fn crc_check_value() {
    assert_eq!(crcsum(b"123456789"), 0x6f91);
}

#[test]
fn sign_on_frame_is_the_canonical_one() {
    assert_eq!(
        frame_of(0, &[0x01]),
        vec![0x1b, 0x00, 0x00, 0x01, 0x00, 0x00, 0x00, 0x0e, 0x01, 0xf3, 0x97]
    );
}

#[test]
fn sequence_number_is_little_endian() {
    assert_eq!(
        frame_of(0x1234, &[0x80]),
        vec![0x1b, 0x34, 0x12, 0x01, 0x00, 0x00, 0x00, 0x0e, 0x80, 0x56, 0x7b]
    );
}

#[test]
fn length_is_little_endian_on_four_bytes() {
    let payload = vec![0u8; 0x0102];
    let frame = frame_of(7, &payload);
    assert_eq!(frame.len(), 0x0102 + 10);
    assert_eq!(&frame[3..7], &[0x02, 0x01, 0x00, 0x00]);
    assert_eq!(frame[7], 0x0e);
}

#[test]
fn empty_payload_frame() {
    assert_eq!(
        frame_of(9, &[]),
        vec![0x1b, 0x09, 0x00, 0x00, 0x00, 0x00, 0x00, 0x0e, 0xdf, 0x28]
    );
}

#[test]
fn crc_covers_header_and_payload() {
    let frame = frame_of(0x0102, &[0x82, 1, 2, 3, 4]);
    let n = frame.len();
    let crc = crcsum(&frame[..n - 2]);
    assert_eq!(frame[n - 2], (crc & 0xff) as u8);
    assert_eq!(frame[n - 1], (crc >> 8) as u8);
}

#[test]
fn decode_memory_reply() {
    let raw = [0x1b, 0x05, 0x00, 0x03, 0x00, 0x00, 0x00, 0x0e, 0x82, 0xab, 0xcd, 0xb4, 0x94];
    assert_eq!(
        JtagIceMkiiReply::from_raw(&raw),
        Ok(JtagIceMkiiReply { seqno: 5, reply: Replies::Memory, data: vec![0xab, 0xcd] })
    );
}

#[test]
fn decode_reply_without_data() {
    let raw = [0x1b, 0x34, 0x12, 0x01, 0x00, 0x00, 0x00, 0x0e, 0x80, 0x56, 0x7b];
    assert_eq!(
        JtagIceMkiiReply::from_raw(&raw),
        Ok(JtagIceMkiiReply { seqno: 0x1234, reply: Replies::Okay, data: vec![] })
    );
}

#[test]
fn round_trip_for_every_length() {
    let codes = [0x80u8, 0x81, 0x82, 0x86, 0xa0, 0xa5, 0xab];
    let replies = [
        Replies::Okay,
        Replies::Parameter,
        Replies::Memory,
        Replies::SignOn,
        Replies::Failed,
        Replies::IllegalMcuState,
        Replies::NoTargetPower,
    ];
    for len in 1..=250usize {
        let mut payload: Vec<u8> = (0..len).map(|i| (i * 7 + len) as u8).collect();
        payload[0] = codes[len % 7];
        let seqno = (len * 263) as u16;
        let got = JtagIceMkiiReply::from_raw(&frame_of(seqno, &payload));
        assert_eq!(
            got,
            Ok(JtagIceMkiiReply { seqno, reply: replies[len % 7], data: payload[1..].to_vec() })
        );
    }
}

#[test]
fn round_trip_at_the_ends_of_the_sequence_numbers() {
    for seqno in [0u16, 1, 0x00ff, 0x0100, 0x7fff, 0x8000, 0xfffe, 0xffff] {
        let got = JtagIceMkiiReply::from_raw(&frame_of(seqno, &[0x86, 0x01]));
        assert_eq!(got, Ok(JtagIceMkiiReply { seqno, reply: Replies::SignOn, data: vec![0x01] }));
    }
}

#[test]
fn empty_payload_decodes_to_short_reply() {
    assert_eq!(JtagIceMkiiReply::from_raw(&frame_of(9, &[])), Err(JtagIceMkiiError::ShortReply));
}

#[test]
fn unknown_reply_code_is_an_error_with_the_code() {
    assert_eq!(
        JtagIceMkiiReply::from_raw(&frame_of(0, &[0x01])),
        Err(JtagIceMkiiError::UnknownReplyCmnd(0x01))
    );
    assert_eq!(
        JtagIceMkiiReply::from_raw(&frame_of(0, &[0x83, 1, 2])),
        Err(JtagIceMkiiError::UnknownReplyCmnd(0x83))
    );
}

#[test]
fn wrong_start_byte() {
    let mut frame = frame_of(3, &[0x80]);
    frame[0] = 0x1a;
    assert_eq!(JtagIceMkiiReply::from_raw(&frame), Err(JtagIceMkiiError::UnmarshallMessageStart));
    assert_eq!(JtagIceMkiiReply::from_raw(&[0x00]), Err(JtagIceMkiiError::UnmarshallMessageStart));
}

#[test]
fn wrong_token_byte() {
    let mut frame = frame_of(3, &[0x80]);
    frame[7] = 0x0f;
    assert_eq!(JtagIceMkiiReply::from_raw(&frame), Err(JtagIceMkiiError::UnmarshallTokenError));
    assert_eq!(
        JtagIceMkiiReply::from_raw(&frame[..8]),
        Err(JtagIceMkiiError::UnmarshallTokenError)
    );
}

#[test]
fn wrong_crc() {
    let mut frame = frame_of(3, &[0x80]);
    let n = frame.len();
    frame[n - 1] ^= 0x80;
    assert_eq!(JtagIceMkiiReply::from_raw(&frame), Err(JtagIceMkiiError::UnmarshallCrc));
}

#[test]
fn every_truncation_is_incomplete() {
    let frame = frame_of(0x0203, &[0x82, 9, 8, 7, 6, 5]);
    for keep in 0..frame.len() {
        assert_eq!(
            JtagIceMkiiReply::from_raw(&frame[..keep]),
            Err(JtagIceMkiiError::UnmarshallIncomplete),
            "kept {} bytes",
            keep
        );
    }
    assert!(JtagIceMkiiReply::from_raw(&frame).is_ok());
}

#[test]
fn huge_announced_length_is_incomplete() {
    let raw = [0x1b, 0, 0, 0xff, 0xff, 0xff, 0xff, 0x0e, 0x80, 0, 0];
    assert_eq!(JtagIceMkiiReply::from_raw(&raw), Err(JtagIceMkiiError::UnmarshallIncomplete));
}

#[test]
fn bytes_after_the_frame_are_not_looked_at() {
    let mut raw = frame_of(5, &[0x82, 0xab, 0xcd]);
    raw.extend_from_slice(&[0xde, 0xad, 0xbe, 0xef]);
    assert_eq!(
        JtagIceMkiiReply::from_raw(&raw),
        Ok(JtagIceMkiiReply { seqno: 5, reply: Replies::Memory, data: vec![0xab, 0xcd] })
    );
}

#[test]
fn every_flipped_bit_is_detected() {
    let frame = frame_of(0x1234, &[0x82, 0x00, 0xff, 0x5a]);
    let n = frame.len();
    for at in 0..n {
        for bit in 0..8 {
            let mut bad = frame.clone();
            bad[at] ^= 1 << bit;
            let got = JtagIceMkiiReply::from_raw(&bad);
            if at == 0 {
                assert_eq!(got, Err(JtagIceMkiiError::UnmarshallMessageStart));
            } else if at == 7 {
                assert_eq!(got, Err(JtagIceMkiiError::UnmarshallTokenError));
            } else if (3..7).contains(&at) {
                assert!(got.is_err(), "byte {} bit {}", at, bit);
            } else {
                assert_eq!(got, Err(JtagIceMkiiError::UnmarshallCrc), "byte {} bit {}", at, bit);
            }
        }
    }
}

#[test]
fn grown_length_field_is_incomplete() {
    let mut frame = frame_of(1, &[0x80, 1, 2]);
    frame[3] ^= 0x04;
    assert_eq!(JtagIceMkiiReply::from_raw(&frame), Err(JtagIceMkiiError::UnmarshallIncomplete));
}

#[test]
fn reply_codes_map_both_ways() {
    let known = [
        (0x80u8, Replies::Okay),
        (0x81, Replies::Parameter),
        (0x82, Replies::Memory),
        (0x86, Replies::SignOn),
        (0xa0, Replies::Failed),
        (0xa5, Replies::IllegalMcuState),
        (0xab, Replies::NoTargetPower),
    ];
    for code in 0..=255u8 {
        let want = known.iter().find(|(c, _)| *c == code).map(|(_, r)| *r);
        assert_eq!(Replies::from_code(code), want);
        if let Some(reply) = want {
            assert_eq!(reply.code(), code);
        }
    }
}

#[test]
fn reply_classes() {
    assert_eq!(Replies::Okay.class(), ReplyClass::Success);
    assert_eq!(Replies::Parameter.class(), ReplyClass::Success);
    assert_eq!(Replies::Memory.class(), ReplyClass::Success);
    assert_eq!(Replies::SignOn.class(), ReplyClass::Success);
    assert_eq!(Replies::Failed.class(), ReplyClass::DeviceFailure);
    assert_eq!(Replies::IllegalMcuState.class(), ReplyClass::DeviceFailure);
    assert_eq!(Replies::NoTargetPower.class(), ReplyClass::DeviceFailure);
}

#[test]
fn command_codes() {
    assert_eq!(Commands::MessageStart.code(), 0x1b);
    assert_eq!(Commands::Token.code(), 0x0e);
    assert_eq!(Commands::GetSignOn.code(), 0x01);
    assert_eq!(Commands::SetParam.code(), 0x02);
    assert_eq!(Commands::GetParam.code(), 0x03);
    assert_eq!(Commands::WriteMemory.code(), 0x04);
    assert_eq!(Commands::ReadMemory.code(), 0x05);
    assert_eq!(Commands::Go.code(), 0x08);
    assert_eq!(Commands::Reset.code(), 0x0b);
    assert_eq!(Commands::SetDeviceDescriptor.code(), 0x0c);
    assert_eq!(Commands::GetSync.code(), 0x0f);
    assert_eq!(Commands::EnterProgMode.code(), 0x14);
}

#[test]
fn round_trip_of_a_long_payload() {
    let mut payload: Vec<u8> = (0..70_000usize).map(|i| (i % 251) as u8).collect();
    payload[0] = 0x82;
    let frame = frame_of(0xbeef, &payload);
    assert_eq!(&frame[3..7], &[0x70, 0x11, 0x01, 0x00]);
    assert_eq!(
        JtagIceMkiiReply::from_raw(&frame),
        Ok(JtagIceMkiiReply { seqno: 0xbeef, reply: Replies::Memory, data: payload[1..].to_vec() })
    );
    assert_eq!(
        JtagIceMkiiReply::from_raw(&frame[..frame.len() - 1]),
        Err(JtagIceMkiiError::UnmarshallIncomplete)
    );
}
