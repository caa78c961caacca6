//! A session with the probe: the sequence number, the reassembly of a reply
//! from the chunks that the transport delivers, and the command/reply
//! operations.
//!
//! The session owns no transport. An operation is driven by calling its
//! method again and again: first with `PortEvent::Start`, then each time with
//! what the transport did in answer to the `Step` that the call before
//! returned, until the call returns `Step::Done`.

use crate::codes::{Commands, Replies, MEMORY_TYPE_SRAM};
use crate::error::JtagIceMkiiError;
use crate::frame::{
    announced_len, append, decode, encode, lemma_encode_layout, lemma_round_trip, JtagIceMkiiCommand,
    JtagIceMkiiReply, ReplyView, OVERHEAD,
};
use crate::wire::{le16, read_u32_le, write_u16_le};
use vstd::prelude::*;
use vstd::slice::{slice_subrange, slice_to_vec};

verus! {

/// Bytes that must be there before the length of a frame can be read.
pub const LENGTH_KNOWN_AT: usize = 7;

/// The outcome of one read of the transport.
#[derive(Debug, PartialEq, Eq)]
pub enum PortRead {
    /// The bytes that the read delivered, in the order they came.
    Data(Vec<u8>),
    /// The read failed or timed out.
    Failed,
}

/// What the transport did since the step before.
#[derive(Debug, PartialEq, Eq)]
pub enum PortEvent {
    /// Nothing yet: the operation begins.
    Start,
    /// The frame was written.
    Written,
    /// The frame could not be written.
    WriteFailed,
    /// A read was made.
    Read(PortRead),
}

/// What has to happen next in an operation.
#[derive(Debug, PartialEq, Eq)]
pub enum Step<T> {
    /// Write these bytes to the transport, in one write.
    Write(Vec<u8>),
    /// Read from the transport once.
    Read,
    /// The operation is over.
    Done(Result<T, JtagIceMkiiError>),
}

/// A `PortRead` as plain values.
pub enum ReadView {
    Data(Seq<u8>),
    Failed,
}

/// A `PortEvent` as plain values.
pub enum EventView {
    Start,
    Written,
    WriteFailed,
    Read(ReadView),
}

/// A `Step` as plain values.
pub enum StepView<V> {
    Write(Seq<u8>),
    Read,
    Done(Result<V, JtagIceMkiiError>),
}

impl View for PortRead {
    type V = ReadView;

    open spec fn view(&self) -> ReadView {
        match self {
            PortRead::Data(bytes) => ReadView::Data(bytes@),
            PortRead::Failed => ReadView::Failed,
        }
    }
}

impl View for PortEvent {
    type V = EventView;

    open spec fn view(&self) -> EventView {
        match self {
            PortEvent::Start => EventView::Start,
            PortEvent::Written => EventView::Written,
            PortEvent::WriteFailed => EventView::WriteFailed,
            PortEvent::Read(read) => EventView::Read(read@),
        }
    }
}

impl<T: View> View for Step<T> {
    type V = StepView<T::V>;

    open spec fn view(&self) -> StepView<T::V> {
        match self {
            Step::Write(frame) => StepView::Write(frame@),
            Step::Read => StepView::Read,
            Step::Done(Ok(value)) => StepView::Done(Ok(value@)),
            Step::Done(Err(e)) => StepView::Done(Err(*e)),
        }
    }
}

/// The buffer holds a whole frame: its length can be read, and that many
/// bytes are there.
pub open spec fn whole(buffer: Seq<u8>) -> bool {
    buffer.len() >= LENGTH_KNOWN_AT && buffer.len() >= announced_len(buffer)
}

/// What a whole frame means to a session that waits for a reply to
/// `expected`: the frame's own fault if it has one, else a mismatch if it
/// answers another sequence number, else the reply.
pub open spec fn accept(expected: u16, frame: Seq<u8>) -> Result<ReplyView, JtagIceMkiiError> {
    match decode(frame) {
        Err(e) => Err(e),
        Ok(reply) => if reply.seqno != expected {
            Err(JtagIceMkiiError::DifferentSeqNo)
        } else {
            Ok(reply)
        },
    }
}

/// One step of a receive: the pending bytes and the step after `read`.
/// Bytes are gathered until the frame is whole; what came beyond it is
/// dropped.
pub open spec fn receive_step(expected: u16, pending: Seq<u8>, read: ReadView) -> (
    Seq<u8>,
    StepView<ReplyView>,
) {
    match read {
        ReadView::Failed => (Seq::empty(), StepView::Done(Err(JtagIceMkiiError::NoReply))),
        ReadView::Data(chunk) => {
            let buffer = pending + chunk;
            if whole(buffer) {
                (
                    Seq::empty(),
                    StepView::Done(accept(expected, buffer.subrange(0, announced_len(buffer)))),
                )
            } else {
                (buffer, StepView::Read)
            }
        },
    }
}

/// One step of a command/reply round trip that sends `payload`.
pub open spec fn exchange_step(seqno: u16, pending: Seq<u8>, payload: Seq<u8>, event: EventView) -> (
    Seq<u8>,
    StepView<ReplyView>,
) {
    match event {
        EventView::Start => (Seq::empty(), StepView::Write(encode(seqno, payload))),
        EventView::Written => (pending, StepView::Read),
        EventView::WriteFailed => (
            Seq::empty(),
            StepView::Done(Err(JtagIceMkiiError::WriteFailed)),
        ),
        EventView::Read(read) => receive_step(seqno, pending, read),
    }
}

/// `step`, with `check` applied to the value of a successful end.
pub open spec fn checked<A, B>(
    step: StepView<A>,
    check: spec_fn(A) -> Result<B, JtagIceMkiiError>,
) -> StepView<B> {
    match step {
        StepView::Write(frame) => StepView::Write(frame),
        StepView::Read => StepView::Read,
        StepView::Done(Err(e)) => StepView::Done(Err(e)),
        StepView::Done(Ok(value)) => StepView::Done(check(value)),
    }
}

/// One step of an operation: a round trip that sends `payload`, with
/// `check` applied to the reply it ends with.
pub open spec fn operation_step<B>(
    seqno: u16,
    pending: Seq<u8>,
    payload: Seq<u8>,
    event: EventView,
    check: spec_fn(ReplyView) -> Result<B, JtagIceMkiiError>,
) -> (Seq<u8>, StepView<B>) {
    let round = exchange_step(seqno, pending, payload, event);
    (round.0, checked(round.1, check))
}

/// The reply if it carries the code `wanted`, else the code it carries as
/// an error.
pub open spec fn expect(reply: ReplyView, wanted: Replies) -> Result<ReplyView, JtagIceMkiiError> {
    if reply.reply == wanted {
        Ok(reply)
    } else {
        Err(JtagIceMkiiError::NotOk(reply.reply))
    }
}

/// Payload of the sign-on command.
pub open spec fn sign_on_cmd() -> Seq<u8> {
    seq![Commands::GetSignOn.spec_code()]
}

/// Payload of the command that reads one byte of SRAM at `mem_addr`: the
/// memory type, the byte count 1 and the address, both little-endian.
pub open spec fn read_ram_byte_cmd(mem_addr: u16) -> Seq<u8> {
    seq![Commands::ReadMemory.spec_code(), MEMORY_TYPE_SRAM] + le16(1) + seq![0u8, 0u8] + le16(
        mem_addr,
    )
}

/// Payload of the command that writes `value` to the byte of SRAM at
/// `mem_addr`.
pub open spec fn write_ram_byte_cmd(mem_addr: u16, value: u8) -> Seq<u8> {
    seq![Commands::WriteMemory.spec_code(), MEMORY_TYPE_SRAM] + le16(1) + seq![0u8, 0u8] + le16(
        mem_addr,
    ) + seq![0u8, 0u8, value]
}

/// Payload of the command that sets parameter `param` to `value`.
pub open spec fn set_param_cmd(param: u8, value: Seq<u8>) -> Seq<u8> {
    seq![Commands::SetParam.spec_code(), param] + value
}

/// Payload of the command that asks for parameter `param`.
pub open spec fn get_param_cmd(param: u8) -> Seq<u8> {
    seq![Commands::GetParam.spec_code(), param]
}

/// Payload of the command that enters programming mode.
pub open spec fn enter_prog_mode_cmd() -> Seq<u8> {
    seq![Commands::EnterProgMode.spec_code()]
}

/// Payload of the reset command with its flag byte.
pub open spec fn reset_cmd(flags: u8) -> Seq<u8> {
    seq![Commands::Reset.spec_code(), flags]
}

/// Payload of the command that hands the probe a device descriptor.
pub open spec fn set_device_descriptor_cmd(descriptor: Seq<u8>) -> Seq<u8> {
    seq![Commands::SetDeviceDescriptor.spec_code()] + descriptor
}

/// How a plain acknowledgement is read: the reply has to be `Okay`.
pub open spec fn acknowledged(reply: ReplyView) -> Result<(), JtagIceMkiiError> {
    match expect(reply, Replies::Okay) {
        Err(e) => Err(e),
        Ok(_) => Ok(()),
    }
}

/// How the reply to a one-byte memory read is read: it has to be `Memory`,
/// and the byte is the first of its data; what follows it is not looked at.
pub open spec fn memory_byte(reply: ReplyView) -> Result<u8, JtagIceMkiiError> {
    match expect(reply, Replies::Memory) {
        Err(e) => Err(e),
        Ok(memory) => if memory.data.len() == 0 {
            Err(JtagIceMkiiError::ShortReply)
        } else {
            Ok(memory.data[0])
        },
    }
}

/// How the reply to a parameter query is read: it has to be `Parameter`,
/// and its data is the value.
pub open spec fn parameter_value(reply: ReplyView) -> Result<Seq<u8>, JtagIceMkiiError> {
    match expect(reply, Replies::Parameter) {
        Err(e) => Err(e),
        Ok(parameter) => Ok(parameter.data),
    }
}

/// The sequence number after `seqno`; after 65535 comes 0.
pub open spec fn next_seqno(seqno: u16) -> u16 {
    ((seqno + 1) % 0x1_0000) as u16
}

/// The address of the byte `offset` places after `address`. Addresses of
/// target RAM are 16 bits wide: what lies above is dropped.
pub open spec fn ram_address(address: usize, offset: nat) -> u16 {
    ((address + offset) % 0x1_0000) as u16
}

/// One step of reading `len` bytes of target RAM from `address` on, one
/// `read_ram_byte` round trip per byte. `got` holds the bytes read so far.
/// Each byte that arrives is added to them and the sequence number moves
/// on; then the command for the next byte goes out, or the read is over.
/// A failure ends the read and leaves the bytes read so far.
pub open spec fn read_memory_step(
    seqno: u16,
    pending: Seq<u8>,
    address: usize,
    len: nat,
    got: Seq<u8>,
    event: EventView,
) -> (u16, Seq<u8>, Seq<u8>, StepView<()>) {
    if got.len() >= len {
        (seqno, pending, got, StepView::Done(Ok(())))
    } else {
        let round = operation_step(
            seqno,
            pending,
            read_ram_byte_cmd(ram_address(address, got.len())),
            event,
            |reply: ReplyView| memory_byte(reply),
        );
        match round.1 {
            StepView::Write(frame) => (seqno, round.0, got, StepView::Write(frame)),
            StepView::Read => (seqno, round.0, got, StepView::Read),
            StepView::Done(Err(e)) => (seqno, round.0, got, StepView::Done(Err(e))),
            StepView::Done(Ok(byte)) => {
                let more = got.push(byte);
                let seqno = next_seqno(seqno);
                if more.len() >= len {
                    (seqno, round.0, more, StepView::Done(Ok(())))
                } else {
                    (
                        seqno,
                        Seq::empty(),
                        more,
                        StepView::Write(
                            encode(seqno, read_ram_byte_cmd(ram_address(address, more.len()))),
                        ),
                    )
                }
            },
        }
    }
}

/// A session: the sequence number of the next command, and the bytes of a
/// reply that have arrived so far.
#[derive(Debug, PartialEq, Eq)]
pub struct JtagIceMkii {
    /// Sequence number of the next command and of the reply to it.
    pub seqno: u16,
    /// The accumulation buffer of the receive under way.
    pub raw_data: Vec<u8>,
}

impl JtagIceMkii {
    /// The bytes of the reply under way that have arrived so far.
    pub open spec fn pending(&self) -> Seq<u8> {
        self.raw_data@
    }

    /// A session that starts at sequence number 0 with nothing pending.
    pub fn new() -> (session: JtagIceMkii)
        ensures
            session.seqno == 0,
            session.pending() == Seq::<u8>::empty(),
    {
        JtagIceMkii { seqno: 0, raw_data: Vec::new() }
    }

    /// Advances the sequence number by one; after 65535 comes 0. No round
    /// trip does this by itself: whoever runs one advances the number
    /// afterwards, if the next command is to go out under the next number.
    pub fn increase_seqno(&mut self)
        ensures
            final(self).seqno == next_seqno(old(self).seqno),
            final(self).pending() == old(self).pending(),
    {
        self.seqno = self.seqno.wrapping_add(1);
    }

    /// The frame that carries `data` under the current sequence number. The
    /// caller writes it to the transport in one write.
    pub fn send_cmd(&self, data: &[u8]) -> (frame: Vec<u8>)
        requires
            data@.len() <= u32::MAX,
        ensures
            frame@ == encode(self.seqno, data@),
    {
        let cmd = JtagIceMkiiCommand { seqno: self.seqno, data: slice_to_vec(data) };
        cmd.to_raw()
    }

    /// Takes the outcome of one read of the transport. Answers `Step::Read`
    /// while the frame is not whole, and ends with the reply once it is: the
    /// frame's bytes are decoded, bytes beyond it are dropped, and a reply to
    /// another sequence number than the current one is refused. A failed
    /// read ends the receive with `NoReply`.
    pub fn recv_result(&mut self, read: PortRead) -> (step: Step<JtagIceMkiiReply>)
        ensures
            final(self).seqno == old(self).seqno,
            (final(self).pending(), step@) == receive_step(
                old(self).seqno,
                old(self).pending(),
                read@,
            ),
    {
        match read {
            PortRead::Failed => {
                self.raw_data.clear();
                Step::Done(Err(JtagIceMkiiError::NoReply))
            },
            PortRead::Data(chunk) => {
                let mut chunk = chunk;
                self.raw_data.append(&mut chunk);
                if self.raw_data.len() < LENGTH_KNOWN_AT {
                    return Step::Read;
                }
                let data_len = read_u32_le(slice_subrange(self.raw_data.as_slice(), 3, 7));
                if (self.raw_data.len() as u64) < data_len as u64 + OVERHEAD as u64 {
                    return Step::Read;
                }
                let total_data_length: usize = data_len as usize + OVERHEAD;
                self.raw_data.truncate(total_data_length);
                let decoded = JtagIceMkiiReply::from_raw(self.raw_data.as_slice());
                self.raw_data.clear();
                match decoded {
                    Err(e) => Step::Done(Err(e)),
                    Ok(reply) => if reply.seqno != self.seqno {
                        Step::Done(Err(JtagIceMkiiError::DifferentSeqNo))
                    } else {
                        Step::Done(Ok(reply))
                    },
                }
            },
        }
    }

    /// One step of a round trip that sends `payload` and waits for the reply
    /// to it. At `Start` whatever was pending is dropped and the frame is
    /// handed out; a failed write ends the round trip with `WriteFailed`.
    pub fn exchange(&mut self, payload: &[u8], event: PortEvent) -> (step: Step<JtagIceMkiiReply>)
        requires
            payload@.len() <= u32::MAX,
        ensures
            final(self).seqno == old(self).seqno,
            (final(self).pending(), step@) == exchange_step(
                old(self).seqno,
                old(self).pending(),
                payload@,
                event@,
            ),
    {
        match event {
            PortEvent::Start => {
                self.raw_data.clear();
                Step::Write(self.send_cmd(payload))
            },
            PortEvent::Written => Step::Read,
            PortEvent::WriteFailed => {
                self.raw_data.clear();
                Step::Done(Err(JtagIceMkiiError::WriteFailed))
            },
            PortEvent::Read(read) => self.recv_result(read),
        }
    }

    /// One step of signing on. Ends well only with a `SignOn` reply, which
    /// is handed out; any other reply ends it with `NotOk` and that reply's
    /// code.
    pub fn sign_on(&mut self, event: PortEvent) -> (step: Step<JtagIceMkiiReply>)
        ensures
            final(self).seqno == old(self).seqno,
            (final(self).pending(), step@) == operation_step(
                old(self).seqno,
                old(self).pending(),
                sign_on_cmd(),
                event@,
                |reply: ReplyView| expect(reply, Replies::SignOn),
            ),
    {
        let cmd = [Commands::GetSignOn.code()];
        proof {
            assert(cmd@ =~= sign_on_cmd());
        }
        match self.exchange(cmd.as_slice(), event) {
            Step::Done(Ok(result)) => match result.reply {
                Replies::SignOn => Step::Done(Ok(result)),
                _ => Step::Done(Err(JtagIceMkiiError::NotOk(result.reply))),
            },
            other => other,
        }
    }

    /// One step of reading the byte of SRAM at `mem_addr`. Ends well with
    /// the first byte of a `Memory` reply's data.
    pub fn read_ram_byte(&mut self, mem_addr: u16, event: PortEvent) -> (step: Step<u8>)
        ensures
            final(self).seqno == old(self).seqno,
            (final(self).pending(), step@) == operation_step(
                old(self).seqno,
                old(self).pending(),
                read_ram_byte_cmd(mem_addr),
                event@,
                |reply: ReplyView| memory_byte(reply),
            ),
    {
        let cmd = read_ram_byte_payload(mem_addr);
        match self.exchange(cmd.as_slice(), event) {
            Step::Write(frame) => Step::Write(frame),
            Step::Read => Step::Read,
            Step::Done(Err(e)) => Step::Done(Err(e)),
            Step::Done(Ok(rcv)) => match rcv.reply {
                Replies::Memory => if rcv.data.len() == 0 {
                    Step::Done(Err(JtagIceMkiiError::ShortReply))
                } else {
                    Step::Done(Ok(rcv.data[0]))
                },
                _ => Step::Done(Err(JtagIceMkiiError::NotOk(rcv.reply))),
            },
        }
    }

    /// One step of writing `value` to the byte of SRAM at `mem_addr`. Ends
    /// well with an `Okay` reply.
    pub fn write_ram_byte(&mut self, mem_addr: u16, value: u8, event: PortEvent) -> (step: Step<()>)
        ensures
            final(self).seqno == old(self).seqno,
            (final(self).pending(), step@) == operation_step(
                old(self).seqno,
                old(self).pending(),
                write_ram_byte_cmd(mem_addr, value),
                event@,
                |reply: ReplyView| acknowledged(reply),
            ),
    {
        let numbytes_buf = write_u16_le(1);
        let addr_buf = write_u16_le(mem_addr);
        let cmd = [
            Commands::WriteMemory.code(),
            MEMORY_TYPE_SRAM,
            numbytes_buf[0],
            numbytes_buf[1],
            0,
            0,
            addr_buf[0],
            addr_buf[1],
            0,
            0,
            value,
        ];
        proof {
            assert(cmd@ =~= write_ram_byte_cmd(mem_addr, value));
        }
        acknowledge(self.exchange(cmd.as_slice(), event))
    }

    /// One step of setting parameter `param` to `value`. Ends well with an
    /// `Okay` reply.
    pub fn set_param(&mut self, param: u8, value: &[u8], event: PortEvent) -> (step: Step<()>)
        requires
            value@.len() + 2 <= u32::MAX,
        ensures
            final(self).seqno == old(self).seqno,
            (final(self).pending(), step@) == operation_step(
                old(self).seqno,
                old(self).pending(),
                set_param_cmd(param, value@),
                event@,
                |reply: ReplyView| acknowledged(reply),
            ),
    {
        let mut cmd: Vec<u8> = Vec::new();
        cmd.push(Commands::SetParam.code());
        cmd.push(param);
        append(&mut cmd, value);
        proof {
            assert(cmd@ =~= set_param_cmd(param, value@));
        }
        acknowledge(self.exchange(cmd.as_slice(), event))
    }

    /// One step of asking for parameter `param`. Ends well with the data of
    /// a `Parameter` reply.
    pub fn get_param(&mut self, param: u8, event: PortEvent) -> (step: Step<Vec<u8>>)
        ensures
            final(self).seqno == old(self).seqno,
            (final(self).pending(), step@) == operation_step(
                old(self).seqno,
                old(self).pending(),
                get_param_cmd(param),
                event@,
                |reply: ReplyView| parameter_value(reply),
            ),
    {
        let cmd = [Commands::GetParam.code(), param];
        proof {
            assert(cmd@ =~= get_param_cmd(param));
        }
        match self.exchange(cmd.as_slice(), event) {
            Step::Write(frame) => Step::Write(frame),
            Step::Read => Step::Read,
            Step::Done(Err(e)) => Step::Done(Err(e)),
            Step::Done(Ok(rcv)) => match rcv.reply {
                Replies::Parameter => Step::Done(Ok(rcv.data)),
                _ => Step::Done(Err(JtagIceMkiiError::NotOk(rcv.reply))),
            },
        }
    }

    /// One step of entering programming mode. Ends well with an `Okay`
    /// reply.
    pub fn enter_prog_mode(&mut self, event: PortEvent) -> (step: Step<()>)
        ensures
            final(self).seqno == old(self).seqno,
            (final(self).pending(), step@) == operation_step(
                old(self).seqno,
                old(self).pending(),
                enter_prog_mode_cmd(),
                event@,
                |reply: ReplyView| acknowledged(reply),
            ),
    {
        let cmd = [Commands::EnterProgMode.code()];
        proof {
            assert(cmd@ =~= enter_prog_mode_cmd());
        }
        acknowledge(self.exchange(cmd.as_slice(), event))
    }

    /// One step of resetting the target, with the flag byte that says how.
    /// Ends well with an `Okay` reply.
    pub fn reset(&mut self, flags: u8, event: PortEvent) -> (step: Step<()>)
        ensures
            final(self).seqno == old(self).seqno,
            (final(self).pending(), step@) == operation_step(
                old(self).seqno,
                old(self).pending(),
                reset_cmd(flags),
                event@,
                |reply: ReplyView| acknowledged(reply),
            ),
    {
        let cmd = [Commands::Reset.code(), flags];
        proof {
            assert(cmd@ =~= reset_cmd(flags));
        }
        acknowledge(self.exchange(cmd.as_slice(), event))
    }

    /// One step of handing the probe a device descriptor. Ends well with an
    /// `Okay` reply.
    pub fn set_device_descriptor(&mut self, descriptor: &[u8], event: PortEvent) -> (step: Step<()>)
        requires
            descriptor@.len() + 1 <= u32::MAX,
        ensures
            final(self).seqno == old(self).seqno,
            (final(self).pending(), step@) == operation_step(
                old(self).seqno,
                old(self).pending(),
                set_device_descriptor_cmd(descriptor@),
                event@,
                |reply: ReplyView| acknowledged(reply),
            ),
    {
        let mut cmd: Vec<u8> = Vec::new();
        cmd.push(Commands::SetDeviceDescriptor.code());
        append(&mut cmd, descriptor);
        proof {
            assert(cmd@ =~= set_device_descriptor_cmd(descriptor@));
        }
        acknowledge(self.exchange(cmd.as_slice(), event))
    }

    /// One step of reading `len` bytes of target RAM from `address` on into
    /// `buffer`, which holds the bytes read so far: the caller hands in an
    /// empty one at `Start` and the same one at every step after it. The
    /// bytes are fetched one by one; after each the sequence number is
    /// advanced, so that the next command goes out under the next number.
    /// A failure ends the read; the bytes read until then stay in `buffer`.
    pub fn read_memory(
        &mut self,
        address: usize,
        buffer: &mut Vec<u8>,
        len: usize,
        event: PortEvent,
    ) -> (step: Step<()>)
        ensures
            (final(self).seqno, final(self).pending(), final(buffer)@, step@) == read_memory_step(
                old(self).seqno,
                old(self).pending(),
                address,
                len as nat,
                old(buffer)@,
                event@,
            ),
    {
        if buffer.len() >= len {
            return Step::Done(Ok(()));
        }
        let mem_addr = address_at(address, buffer.len());
        match self.read_ram_byte(mem_addr, event) {
            Step::Write(frame) => Step::Write(frame),
            Step::Read => Step::Read,
            Step::Done(Err(e)) => Step::Done(Err(e)),
            Step::Done(Ok(byte)) => {
                buffer.push(byte);
                self.increase_seqno();
                if buffer.len() >= len {
                    Step::Done(Ok(()))
                } else {
                    let cmd = read_ram_byte_payload(address_at(address, buffer.len()));
                    self.raw_data.clear();
                    Step::Write(self.send_cmd(cmd.as_slice()))
                }
            },
        }
    }

    /// One step of writing `value` to the byte of target RAM at `address`:
    /// a `write_ram_byte` round trip to the 16-bit address.
    pub fn write_memory(&mut self, address: usize, value: u8, event: PortEvent) -> (step: Step<()>)
        ensures
            final(self).seqno == old(self).seqno,
            (final(self).pending(), step@) == operation_step(
                old(self).seqno,
                old(self).pending(),
                write_ram_byte_cmd(ram_address(address, 0), value),
                event@,
                |reply: ReplyView| acknowledged(reply),
            ),
    {
        self.write_ram_byte(address_at(address, 0), value, event)
    }
}

/// Computes the 16-bit address of the byte `offset` places after `address`.
fn address_at(address: usize, offset: usize) -> (mem_addr: u16)
    ensures
        mem_addr == ram_address(address, offset as nat),
{
    (((address % 0x1_0000) + (offset % 0x1_0000)) % 0x1_0000) as u16
}

/// Builds the payload of the command that reads the byte at `mem_addr`.
fn read_ram_byte_payload(mem_addr: u16) -> (cmd: [u8; 8])
    ensures
        cmd@ == read_ram_byte_cmd(mem_addr),
{
    let numbytes_buf = write_u16_le(1);
    let addr_buf = write_u16_le(mem_addr);
    let cmd = [
        Commands::ReadMemory.code(),
        MEMORY_TYPE_SRAM,
        numbytes_buf[0],
        numbytes_buf[1],
        0,
        0,
        addr_buf[0],
        addr_buf[1],
    ];
    proof {
        assert(cmd@ =~= read_ram_byte_cmd(mem_addr));
    }
    cmd
}

/// Ends a round trip that waits for a plain acknowledgement.
fn acknowledge(step: Step<JtagIceMkiiReply>) -> (out: Step<()>)
    ensures
        out@ == checked(step@, |reply: ReplyView| acknowledged(reply)),
{
    match step {
        Step::Write(frame) => Step::Write(frame),
        Step::Read => Step::Read,
        Step::Done(Err(e)) => Step::Done(Err(e)),
        Step::Done(Ok(rcv)) => match rcv.reply {
            Replies::Okay => Step::Done(Ok(())),
            _ => Step::Done(Err(JtagIceMkiiError::NotOk(rcv.reply))),
        },
    }
}

/// The bytes of `chunks`, one chunk after the other.
pub open spec fn joined(chunks: Seq<Seq<u8>>) -> Seq<u8>
    decreases chunks.len(),
{
    if chunks.len() == 0 {
        Seq::empty()
    } else {
        chunks[0] + joined(chunks.drop_first())
    }
}

/// A receive that is fed `chunks`, one read each, until it ends or the
/// chunks run out: the bytes then pending, and the last step.
pub open spec fn receive(expected: u16, pending: Seq<u8>, chunks: Seq<Seq<u8>>) -> (
    Seq<u8>,
    StepView<ReplyView>,
)
    decreases chunks.len(),
{
    if chunks.len() == 0 {
        (pending, StepView::Read)
    } else {
        let after = receive_step(expected, pending, ReadView::Data(chunks[0]));
        if after.1 is Done {
            after
        } else {
            receive(expected, after.0, chunks.drop_first())
        }
    }
}

/// Fragmented delivery: however the transport cuts a byte stream into
/// reads, a receive that starts with nothing pending ends as it does when
/// the whole stream comes in one read.
pub proof fn lemma_fragmented_delivery(expected: u16, chunks: Seq<Seq<u8>>)
    ensures
        receive(expected, Seq::empty(), chunks) == receive_step(
            expected,
            Seq::empty(),
            ReadView::Data(joined(chunks)),
        ),
{
    lemma_fragments_give_same_reply(expected, Seq::empty(), chunks);
}

/// The same from any point of a receive that is still under way: the
/// chunks to come count only by the bytes they add up to.
pub proof fn lemma_fragments_give_same_reply(expected: u16, pending: Seq<u8>, chunks: Seq<Seq<u8>>)
    requires
        !whole(pending),
    ensures
        receive(expected, pending, chunks) == receive_step(
            expected,
            pending,
            ReadView::Data(joined(chunks)),
        ),
    decreases chunks.len(),
{
    if chunks.len() == 0 {
        assert(pending + joined(chunks) =~= pending);
    } else {
        let first = pending + chunks[0];
        let all = pending + joined(chunks);
        assert(all =~= first + joined(chunks.drop_first()));
        if whole(first) {
            assert(all.subrange(3, 7) =~= first.subrange(3, 7));
            assert(all.subrange(0, announced_len(all)) =~= first.subrange(
                0,
                announced_len(first),
            ));
        } else {
            lemma_fragments_give_same_reply(expected, first, chunks.drop_first());
        }
    }
}

/// Sequence numbers are enforced: a sound frame with a known reply under
/// `seqno` is handed out as that reply when the session waits for `seqno`,
/// and refused with `DifferentSeqNo` when it waits for any other number.
pub proof fn lemma_seqno_enforced(expected: u16, seqno: u16, payload: Seq<u8>)
    requires
        payload.len() <= u32::MAX,
        payload.len() >= 1,
        Replies::spec_from_code(payload[0]) is Some,
    ensures
        receive_step(expected, Seq::empty(), ReadView::Data(encode(seqno, payload))) == (
            Seq::<u8>::empty(),
            StepView::Done(
                if seqno == expected {
                    Ok(
                        ReplyView {
                            seqno,
                            reply: Replies::spec_from_code(payload[0])->0,
                            data: payload.subrange(1, payload.len() as int),
                        },
                    )
                } else {
                    Err(JtagIceMkiiError::DifferentSeqNo)
                },
            ),
        ),
{
    let frame = encode(seqno, payload);
    lemma_encode_layout(seqno, payload);
    lemma_round_trip(seqno, payload);
    assert(Seq::<u8>::empty() + frame =~= frame);
    assert(frame.subrange(0, announced_len(frame)) =~= frame);
}

/// A receive never ends with `UnmarshallIncomplete`: a frame is decoded only
/// once all the bytes that its header announces are there.
pub proof fn lemma_receive_decodes_whole_frames(expected: u16, pending: Seq<u8>, chunk: Seq<u8>)
    ensures
        receive_step(expected, pending, ReadView::Data(chunk)).1 != StepView::Done(
            Err::<ReplyView, JtagIceMkiiError>(JtagIceMkiiError::UnmarshallIncomplete),
        ),
{
    let buffer = pending + chunk;
    if whole(buffer) {
        let frame = buffer.subrange(0, announced_len(buffer));
        assert(frame.subrange(3, 7) =~= buffer.subrange(3, 7));
    }
}

/// A read of several bytes, driven through `events` one step each, until it
/// ends or the events run out: the sequence number, the pending bytes, the
/// bytes read, and the last step.
pub open spec fn read_memory_run(
    seqno: u16,
    pending: Seq<u8>,
    address: usize,
    len: nat,
    got: Seq<u8>,
    events: Seq<EventView>,
) -> (u16, Seq<u8>, Seq<u8>, StepView<()>)
    recommends
        events.len() >= 1,
    decreases events.len(),
{
    let after = read_memory_step(seqno, pending, address, len, got, events[0]);
    if events.len() <= 1 || after.3 is Done {
        after
    } else {
        read_memory_run(after.0, after.1, address, len, after.2, events.drop_first())
    }
}

/// The reply that serves a one-byte read of `byte` under `seqno`.
pub open spec fn memory_reply(seqno: u16, byte: u8) -> Seq<u8> {
    encode(seqno, seq![Replies::Memory.spec_code(), byte])
}

/// What a transport does that serves a read of `bytes` without fault, from
/// the moment a command went out under `seqno`: it writes the command and
/// delivers, in one read, a `Memory` reply with the byte under the same
/// number; and so on for the bytes that follow, each under the next number.
pub open spec fn served(seqno: u16, bytes: Seq<u8>) -> Seq<EventView>
    decreases bytes.len(),
{
    if bytes.len() == 0 {
        Seq::empty()
    } else {
        seq![
            EventView::Written,
            EventView::Read(ReadView::Data(memory_reply(seqno, bytes[0]))),
        ] + served(next_seqno(seqno), bytes.drop_first())
    }
}

/// The sequence number after `count` advances.
pub open spec fn seqno_after(seqno: u16, count: nat) -> u16
    decreases count,
{
    if count == 0 {
        seqno
    } else {
        seqno_after(next_seqno(seqno), (count - 1) as nat)
    }
}

/// A `Memory` reply under the awaited number, come in one read, ends the
/// round trip for one byte with that byte.
proof fn lemma_served_byte_arrives(seqno: u16, payload: Seq<u8>, byte: u8)
    ensures
        operation_step(
            seqno,
            Seq::empty(),
            payload,
            EventView::Read(ReadView::Data(memory_reply(seqno, byte))),
            |reply: ReplyView| memory_byte(reply),
        ) == (Seq::<u8>::empty(), StepView::Done(Ok::<u8, JtagIceMkiiError>(byte))),
{
    let reply = seq![Replies::Memory.spec_code(), byte];
    lemma_seqno_enforced(seqno, seqno, reply);
    assert(reply.subrange(1, 2) =~= seq![byte]);
}

/// A read that is under way and served without fault ends well, with the
/// bytes in the order of their addresses and the sequence number advanced
/// once per byte.
pub proof fn lemma_read_memory_served(
    seqno: u16,
    address: usize,
    len: nat,
    got: Seq<u8>,
    bytes: Seq<u8>,
)
    requires
        bytes.len() >= 1,
        got.len() + bytes.len() == len,
    ensures
        read_memory_run(seqno, Seq::empty(), address, len, got, served(seqno, bytes)) == (
            seqno_after(seqno, bytes.len()),
            Seq::<u8>::empty(),
            got + bytes,
            StepView::Done(Ok::<(), JtagIceMkiiError>(())),
        ),
    decreases bytes.len(),
{
    let events = served(seqno, bytes);
    let later = events.drop_first();
    let rest = served(next_seqno(seqno), bytes.drop_first());
    let empty = Seq::<u8>::empty();
    let more = got.push(bytes[0]);
    let payload = read_ram_byte_cmd(ram_address(address, got.len()));
    assert(events[0] == EventView::Written);
    assert(later[0] == EventView::Read(ReadView::Data(memory_reply(seqno, bytes[0]))));
    assert(later.drop_first() =~= rest);
    assert(events.len() == 2 + rest.len());
    // The command was written: the session asks for a read.
    let first = read_memory_step(seqno, empty, address, len, got, events[0]);
    assert(first == (seqno, empty, got, StepView::<()>::Read));
    // The reply comes in one read and carries the byte.
    lemma_served_byte_arrives(seqno, payload, bytes[0]);
    let second = read_memory_step(seqno, empty, address, len, got, later[0]);
    assert(read_memory_run(seqno, empty, address, len, got, events) == read_memory_run(
        seqno,
        empty,
        address,
        len,
        got,
        later,
    ));
    if bytes.len() == 1 {
        assert(more =~= got + bytes);
        assert(second == (
            next_seqno(seqno),
            empty,
            more,
            StepView::Done(Ok::<(), JtagIceMkiiError>(())),
        ));
        assert(seqno_after(seqno, 1) == next_seqno(seqno)) by {
            reveal_with_fuel(seqno_after, 2);
        }
    } else {
        assert(second.0 == next_seqno(seqno));
        assert(second.1 == empty);
        assert(second.2 == more);
        assert(second.3 is Write);
        assert(rest.len() >= 1) by {
            reveal_with_fuel(served, 2);
        }
        assert(read_memory_run(seqno, empty, address, len, got, later) == read_memory_run(
            next_seqno(seqno),
            empty,
            address,
            len,
            more,
            rest,
        ));
        lemma_read_memory_served(next_seqno(seqno), address, len, more, bytes.drop_first());
        assert(more + bytes.drop_first() =~= got + bytes);
    }
}

/// Reading memory: a read of one byte or more that starts with nothing read
/// and is served without fault fills the buffer with the bytes, in the
/// order of their addresses, and leaves the sequence number advanced once
/// per byte.
pub proof fn lemma_read_memory_fills_buffer(
    seqno: u16,
    pending: Seq<u8>,
    address: usize,
    bytes: Seq<u8>,
)
    requires
        bytes.len() >= 1,
    ensures
        read_memory_run(
            seqno,
            pending,
            address,
            bytes.len(),
            Seq::empty(),
            seq![EventView::Start] + served(seqno, bytes),
        ) == (
            seqno_after(seqno, bytes.len()),
            Seq::<u8>::empty(),
            bytes,
            StepView::Done(Ok::<(), JtagIceMkiiError>(())),
        ),
{
    let events = seq![EventView::Start] + served(seqno, bytes);
    assert(events.drop_first() =~= served(seqno, bytes));
    lemma_read_memory_served(seqno, address, bytes.len(), Seq::empty(), bytes);
    assert(Seq::<u8>::empty() + bytes =~= bytes);
}

} // verus!
