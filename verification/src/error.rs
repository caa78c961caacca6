//! What can go wrong in an exchange with the probe.

use crate::codes::{Replies, ReplyClass};
use vstd::prelude::*;
use vstd::string::StringExecFns;

verus! {

/// The failures of an exchange. None is retried or swallowed by the library:
/// each goes to the caller of the operation in which it arose.
#[derive(Debug, Clone, Copy, PartialEq, Eq, Structural)]
pub enum JtagIceMkiiError {
    /// A read of the transport failed or timed out before a whole frame had
    /// arrived.
    NoReply,
    /// A sound frame came in, but under another sequence number than the one
    /// of the outstanding command.
    DifferentSeqNo,
    /// The probe answered with another reply than the one the operation
    /// waits for; the reply is carried along.
    NotOk(Replies),
    /// The byte that closes the header is not the token byte.
    UnmarshallTokenError,
    /// The first byte is not the start byte.
    UnmarshallMessageStart,
    /// The checksum at the end of the frame is not the one of its bytes.
    UnmarshallCrc,
    /// The reply code is none of the known ones; the byte is carried along.
    UnknownReplyCmnd(u8),
    /// Fewer bytes than the frame is long.
    UnmarshallIncomplete,
    /// The reply lacks a byte that it has to carry: its reply code, or the
    /// value that was asked for.
    ShortReply,
    /// The frame of the command could not be written to the transport.
    WriteFailed,
}

/// The four kinds of failure.
#[derive(Debug, Clone, Copy, PartialEq, Eq, Structural)]
pub enum ErrorClass {
    /// The transport failed to read or to write.
    Transport,
    /// The bytes received are no frame that can be trusted.
    Framing,
    /// The reply does not belong to the outstanding command: it answers
    /// another sequence number, or it is a success of another kind than the
    /// command can have.
    Desync,
    /// The channel is sound; the probe itself turned the command down.
    Device,
}

impl JtagIceMkiiError {
    /// The kind of this failure.
    pub open spec fn spec_class(self) -> ErrorClass {
        match self {
            JtagIceMkiiError::NoReply | JtagIceMkiiError::WriteFailed => ErrorClass::Transport,
            JtagIceMkiiError::DifferentSeqNo => ErrorClass::Desync,
            JtagIceMkiiError::NotOk(reply) => match reply.spec_class() {
                ReplyClass::DeviceFailure => ErrorClass::Device,
                ReplyClass::Success => ErrorClass::Desync,
            },
            JtagIceMkiiError::UnmarshallTokenError
            | JtagIceMkiiError::UnmarshallMessageStart
            | JtagIceMkiiError::UnmarshallCrc
            | JtagIceMkiiError::UnknownReplyCmnd(_)
            | JtagIceMkiiError::UnmarshallIncomplete
            | JtagIceMkiiError::ShortReply => ErrorClass::Framing,
        }
    }

    #[verifier::when_used_as_spec(spec_class)]
    pub fn class(self) -> (class: ErrorClass)
        ensures
            class == self.spec_class(),
    {
        match self {
            JtagIceMkiiError::NoReply | JtagIceMkiiError::WriteFailed => ErrorClass::Transport,
            JtagIceMkiiError::DifferentSeqNo => ErrorClass::Desync,
            JtagIceMkiiError::NotOk(reply) => match reply.class() {
                ReplyClass::DeviceFailure => ErrorClass::Device,
                ReplyClass::Success => ErrorClass::Desync,
            },
            JtagIceMkiiError::UnmarshallTokenError
            | JtagIceMkiiError::UnmarshallMessageStart
            | JtagIceMkiiError::UnmarshallCrc
            | JtagIceMkiiError::UnknownReplyCmnd(_)
            | JtagIceMkiiError::UnmarshallIncomplete
            | JtagIceMkiiError::ShortReply => ErrorClass::Framing,
        }
    }

    /// What went wrong, in words.
    pub open spec fn spec_describe(self) -> Seq<char> {
        match self {
            JtagIceMkiiError::NoReply => "No Reply"@,
            JtagIceMkiiError::DifferentSeqNo => "Seqno ≠"@,
            JtagIceMkiiError::NotOk(rep) => "Reply code was not 'OK', but "@ + rep.spec_name()
                + " instead"@,
            JtagIceMkiiError::UnmarshallTokenError => "Unmarshall token error"@,
            JtagIceMkiiError::UnmarshallCrc => "Unmarshall CRC check failed"@,
            JtagIceMkiiError::UnknownReplyCmnd(code) => "Unknown reply command code "@
                + hex_digit(code / 16) + hex_digit(code % 16),
            JtagIceMkiiError::UnmarshallMessageStart => "Reply message doesn't start with MessageStart"@,
            JtagIceMkiiError::UnmarshallIncomplete => "Unmarshall frame incomplete"@,
            JtagIceMkiiError::ShortReply => "Reply is too short"@,
            JtagIceMkiiError::WriteFailed => "Write failed"@,
        }
    }

    /// The text for this failure. An unknown reply code is shown as two
    /// hexadecimal digits, an unexpected reply by its name.
    pub fn describe(&self) -> (text: String)
        ensures
            text@ == self.spec_describe(),
    {
        match self {
            JtagIceMkiiError::NoReply => String::from_str("No Reply"),
            JtagIceMkiiError::DifferentSeqNo => String::from_str("Seqno ≠"),
            JtagIceMkiiError::NotOk(rep) => {
                String::from_str("Reply code was not 'OK', but ").concat(rep.name()).concat(
                    " instead",
                )
            },
            JtagIceMkiiError::UnmarshallTokenError => String::from_str("Unmarshall token error"),
            JtagIceMkiiError::UnmarshallCrc => String::from_str("Unmarshall CRC check failed"),
            JtagIceMkiiError::UnknownReplyCmnd(code) => {
                String::from_str("Unknown reply command code ").concat(
                    hex_digit_text(*code / 16),
                ).concat(hex_digit_text(*code % 16))
            },
            JtagIceMkiiError::UnmarshallMessageStart => {
                String::from_str("Reply message doesn't start with MessageStart")
            },
            JtagIceMkiiError::UnmarshallIncomplete => String::from_str("Unmarshall frame incomplete"),
            JtagIceMkiiError::ShortReply => String::from_str("Reply is too short"),
            JtagIceMkiiError::WriteFailed => String::from_str("Write failed"),
        }
    }
}

/// The hexadecimal digit, in lower case, for a number below 16.
pub open spec fn hex_digit(nibble: u8) -> Seq<char>
    recommends
        nibble < 16,
{
    if nibble == 0 {
        "0"@
    } else if nibble == 1 {
        "1"@
    } else if nibble == 2 {
        "2"@
    } else if nibble == 3 {
        "3"@
    } else if nibble == 4 {
        "4"@
    } else if nibble == 5 {
        "5"@
    } else if nibble == 6 {
        "6"@
    } else if nibble == 7 {
        "7"@
    } else if nibble == 8 {
        "8"@
    } else if nibble == 9 {
        "9"@
    } else if nibble == 10 {
        "a"@
    } else if nibble == 11 {
        "b"@
    } else if nibble == 12 {
        "c"@
    } else if nibble == 13 {
        "d"@
    } else if nibble == 14 {
        "e"@
    } else {
        "f"@
    }
}

/// The digit for `nibble` as text.
fn hex_digit_text(nibble: u8) -> (text: &'static str)
    requires
        nibble < 16,
    ensures
        text@ == hex_digit(nibble),
{
    match nibble {
        0 => "0",
        1 => "1",
        2 => "2",
        3 => "3",
        4 => "4",
        5 => "5",
        6 => "6",
        7 => "7",
        8 => "8",
        9 => "9",
        10 => "a",
        11 => "b",
        12 => "c",
        13 => "d",
        14 => "e",
        _ => "f",
    }
}

} // verus!
