//! Client side of the JTAG ICE mkII debug-probe protocol: frame encoding and
//! decoding with its CRC, reassembly of a reply from a byte stream that comes
//! in chunks, sequence-number correlation, and the single-byte memory
//! operations built on top of them.
//!
//! The library performs no I/O. Every operation of a session is a step
//! function: it takes what the transport just did and answers with what the
//! transport has to do next, or with the operation's result.

pub mod codes;
pub mod crc16;
pub mod error;
pub mod frame;
pub mod session;
pub mod wire;

pub use crate::codes::{Commands, Replies, ReplyClass};
pub use crate::crc16::crcsum;
pub use crate::error::{ErrorClass, JtagIceMkiiError};
pub use crate::frame::{JtagIceMkiiCommand, JtagIceMkiiReply};
pub use crate::session::{JtagIceMkii, PortEvent, PortRead, Step};
