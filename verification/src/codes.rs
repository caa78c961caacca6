//! The bytes that name commands and replies on the wire.

use vstd::prelude::*;

verus! {

/// First byte of every frame.
pub const MESSAGE_START: u8 = 0x1b;

/// The byte that closes the frame header.
pub const TOKEN: u8 = 0x0e;

/// Memory-space selector for SRAM in the memory commands.
pub const MEMORY_TYPE_SRAM: u8 = 0x20;

/// The two framing bytes and the command opcodes.
#[derive(Debug, Clone, Copy, PartialEq, Eq, Structural)]
pub enum Commands {
    MessageStart,
    Token,
    GetSignOn,
    SetParam,
    GetParam,
    WriteMemory,
    ReadMemory,
    Go,
    Reset,
    SetDeviceDescriptor,
    GetSync,
    EnterProgMode,
}

impl Commands {
    /// The byte that stands for this command on the wire.
    pub open spec fn spec_code(self) -> u8 {
        match self {
            Commands::MessageStart => 0x1b,
            Commands::Token => 0x0e,
            Commands::GetSignOn => 0x01,
            Commands::SetParam => 0x02,
            Commands::GetParam => 0x03,
            Commands::WriteMemory => 0x04,
            Commands::ReadMemory => 0x05,
            Commands::Go => 0x08,
            Commands::Reset => 0x0b,
            Commands::SetDeviceDescriptor => 0x0c,
            Commands::GetSync => 0x0f,
            Commands::EnterProgMode => 0x14,
        }
    }

    #[verifier::when_used_as_spec(spec_code)]
    pub fn code(self) -> (byte: u8)
        ensures
            byte == self.spec_code(),
    {
        match self {
            Commands::MessageStart => MESSAGE_START,
            Commands::Token => TOKEN,
            Commands::GetSignOn => 0x01,
            Commands::SetParam => 0x02,
            Commands::GetParam => 0x03,
            Commands::WriteMemory => 0x04,
            Commands::ReadMemory => 0x05,
            Commands::Go => 0x08,
            Commands::Reset => 0x0b,
            Commands::SetDeviceDescriptor => 0x0c,
            Commands::GetSync => 0x0f,
            Commands::EnterProgMode => 0x14,
        }
    }
}

/// The reply codes that the probe is known to send.
#[derive(Debug, Clone, Copy, PartialEq, Eq, Structural)]
pub enum Replies {
    Okay,
    Parameter,
    Memory,
    SignOn,
    Failed,
    IllegalMcuState,
    NoTargetPower,
}

/// The two classes of known reply codes.
#[derive(Debug, Clone, Copy, PartialEq, Eq, Structural)]
pub enum ReplyClass {
    /// The probe did what was asked.
    Success,
    /// The probe turned the command down.
    DeviceFailure,
}

impl Replies {
    /// The byte that stands for this reply on the wire.
    pub open spec fn spec_code(self) -> u8 {
        match self {
            Replies::Okay => 0x80,
            Replies::Parameter => 0x81,
            Replies::Memory => 0x82,
            Replies::SignOn => 0x86,
            Replies::Failed => 0xa0,
            Replies::IllegalMcuState => 0xa5,
            Replies::NoTargetPower => 0xab,
        }
    }

    /// The reply that a wire byte names, if it names one.
    pub open spec fn spec_from_code(code: u8) -> Option<Replies> {
        if code == 0x80 {
            Some(Replies::Okay)
        } else if code == 0x81 {
            Some(Replies::Parameter)
        } else if code == 0x82 {
            Some(Replies::Memory)
        } else if code == 0x86 {
            Some(Replies::SignOn)
        } else if code == 0xa0 {
            Some(Replies::Failed)
        } else if code == 0xa5 {
            Some(Replies::IllegalMcuState)
        } else if code == 0xab {
            Some(Replies::NoTargetPower)
        } else {
            None
        }
    }

    /// The class of this reply.
    pub open spec fn spec_class(self) -> ReplyClass {
        match self {
            Replies::Okay | Replies::Parameter | Replies::Memory | Replies::SignOn => {
                ReplyClass::Success
            },
            Replies::Failed | Replies::IllegalMcuState | Replies::NoTargetPower => {
                ReplyClass::DeviceFailure
            },
        }
    }

    #[verifier::when_used_as_spec(spec_code)]
    pub fn code(self) -> (byte: u8)
        ensures
            byte == self.spec_code(),
    {
        match self {
            Replies::Okay => 0x80,
            Replies::Parameter => 0x81,
            Replies::Memory => 0x82,
            Replies::SignOn => 0x86,
            Replies::Failed => 0xa0,
            Replies::IllegalMcuState => 0xa5,
            Replies::NoTargetPower => 0xab,
        }
    }

    /// Maps a wire byte to the reply it names. A byte outside the known set
    /// gives `None`; it is never taken for a known reply.
    pub fn from_code(code: u8) -> (reply: Option<Replies>)
        ensures
            reply == Replies::spec_from_code(code),
            match reply {
                Some(r) => r.spec_code() == code,
                None => forall|r: Replies| r.spec_code() != code,
            },
    {
        match code {
            0x80 => Some(Replies::Okay),
            0x81 => Some(Replies::Parameter),
            0x82 => Some(Replies::Memory),
            0x86 => Some(Replies::SignOn),
            0xA0 => Some(Replies::Failed),
            0xA5 => Some(Replies::IllegalMcuState),
            0xAB => Some(Replies::NoTargetPower),
            _ => None,
        }
    }

    #[verifier::when_used_as_spec(spec_class)]
    pub fn class(self) -> (class: ReplyClass)
        ensures
            class == self.spec_class(),
    {
        match self {
            Replies::Okay | Replies::Parameter | Replies::Memory | Replies::SignOn => {
                ReplyClass::Success
            },
            Replies::Failed | Replies::IllegalMcuState | Replies::NoTargetPower => {
                ReplyClass::DeviceFailure
            },
        }
    }

    /// The reply's name as text.
    pub open spec fn spec_name(self) -> Seq<char> {
        match self {
            Replies::Okay => "Ok"@,
            Replies::Parameter => "Parameter"@,
            Replies::Memory => "Memory"@,
            Replies::SignOn => "SignOn"@,
            Replies::Failed => "Failed"@,
            Replies::IllegalMcuState => "IllegalMcuState"@,
            Replies::NoTargetPower => "NoTargetPower"@,
        }
    }

    pub fn name(self) -> (text: &'static str)
        ensures
            text@ == self.spec_name(),
    {
        match self {
            Replies::Okay => "Ok",
            Replies::Parameter => "Parameter",
            Replies::Memory => "Memory",
            Replies::SignOn => "SignOn",
            Replies::Failed => "Failed",
            Replies::IllegalMcuState => "IllegalMcuState",
            Replies::NoTargetPower => "NoTargetPower",
        }
    }
}

/// Every known reply is found again from its own code.
pub proof fn lemma_reply_code_round_trip(reply: Replies)
    ensures
        Replies::spec_from_code(reply.spec_code()) == Some(reply),
{
}

} // verus!
