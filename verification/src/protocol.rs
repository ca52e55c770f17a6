//! Command vocabulary and request record of the PFP wire protocol.

use vstd::prelude::*;
use vstd::std_specs::cmp::PartialEqSpecImpl;
use vstd::std_specs::convert::FromSpecImpl;

verus! {

/// Number of payload bytes carried by every request.
pub const PAYLOAD_SIZE: usize = 32;

/// Number of bytes before the payload in an encoded request: command and
/// hop count, three addresses of four bytes, then request id, part and count.
pub const HEADER_SIZE: usize = 17;

/// Number of bytes of an encoded request: the header and the payload.
pub const FRAME_SIZE: usize = 49;

/// The closed set of protocol commands.
#[derive(Debug, Clone, Copy, PartialEq, Eq, Structural)]
pub enum Command {
    /// Discovery request.
    HeloP,
    /// Discovery reply.
    OlehP,
    /// Identification request.
    Ident,
    /// Identification reply.
    Tnedi,
    /// Trust broadcast.
    TrustB,
    /// Trust reply.
    TrustT,
    /// Leave announcement.
    HeloL,
    /// Leave reply.
    OlehL,
    /// Data push.
    Push,
    /// Data push acknowledgement.
    PushAck,
    /// Access denied.
    ADeny,
    /// Access denied, unknown device.
    UDeny,
    /// Topology update: a device joined.
    Add,
    /// Topology update: a device left.
    Del,
    /// Liveness ping.
    Alive,
}

/// Error of [`Command::from_byte`]: the byte is bound to no command.
#[derive(Debug, Clone, Copy, PartialEq, Eq, Structural)]
pub struct UnknownCommand {
    /// The rejected byte.
    pub byte: u8,
}

/// The command bound to a wire byte, if any.
pub open spec fn command_of(byte: u8) -> Option<Command> {
    if byte == 0x00 {
        Some(Command::HeloP)
    } else if byte == 0x01 {
        Some(Command::OlehP)
    } else if byte == 0x02 {
        Some(Command::Ident)
    } else if byte == 0x03 {
        Some(Command::Tnedi)
    } else if byte == 0x04 {
        Some(Command::TrustB)
    } else if byte == 0x05 {
        Some(Command::TrustT)
    } else if byte == 0x06 {
        Some(Command::HeloL)
    } else if byte == 0x07 {
        Some(Command::OlehL)
    } else if byte == 0x08 {
        Some(Command::Push)
    } else if byte == 0x09 {
        Some(Command::PushAck)
    } else if byte == 0x0A {
        Some(Command::ADeny)
    } else if byte == 0x0B {
        Some(Command::UDeny)
    } else if byte == 0x0C {
        Some(Command::Add)
    } else if byte == 0x0D {
        Some(Command::Del)
    } else if byte == 0x0E {
        Some(Command::Alive)
    } else {
        None
    }
}

impl Command {
    /// The wire byte bound to a command.
    pub open spec fn wire_byte(self) -> u8 {
        match self {
            Command::HeloP => 0x00,
            Command::OlehP => 0x01,
            Command::Ident => 0x02,
            Command::Tnedi => 0x03,
            Command::TrustB => 0x04,
            Command::TrustT => 0x05,
            Command::HeloL => 0x06,
            Command::OlehL => 0x07,
            Command::Push => 0x08,
            Command::PushAck => 0x09,
            Command::ADeny => 0x0A,
            Command::UDeny => 0x0B,
            Command::Add => 0x0C,
            Command::Del => 0x0D,
            Command::Alive => 0x0E,
        }
    }

    /// Encodes a command as its wire byte.
    pub fn to_byte(self) -> (byte: u8)
        ensures
            byte == self.wire_byte(),
            byte <= 0x0E,
            command_of(byte) == Some(self),
    {
        match self {
            Command::HeloP => 0x00,
            Command::OlehP => 0x01,
            Command::Ident => 0x02,
            Command::Tnedi => 0x03,
            Command::TrustB => 0x04,
            Command::TrustT => 0x05,
            Command::HeloL => 0x06,
            Command::OlehL => 0x07,
            Command::Push => 0x08,
            Command::PushAck => 0x09,
            Command::ADeny => 0x0A,
            Command::UDeny => 0x0B,
            Command::Add => 0x0C,
            Command::Del => 0x0D,
            Command::Alive => 0x0E,
        }
    }

    /// Decodes a wire byte. Every byte above `0x0E` is rejected and handed
    /// back in the error.
    pub fn from_byte(byte: u8) -> (result: Result<Command, UnknownCommand>)
        ensures
            result is Ok <==> byte <= 0x0E,
            result matches Ok(command) ==> command_of(byte) == Some(command)
                && command.wire_byte() == byte,
            result matches Err(unknown) ==> command_of(byte) is None && unknown.byte == byte,
    {
        match byte {
            0x00 => Ok(Command::HeloP),
            0x01 => Ok(Command::OlehP),
            0x02 => Ok(Command::Ident),
            0x03 => Ok(Command::Tnedi),
            0x04 => Ok(Command::TrustB),
            0x05 => Ok(Command::TrustT),
            0x06 => Ok(Command::HeloL),
            0x07 => Ok(Command::OlehL),
            0x08 => Ok(Command::Push),
            0x09 => Ok(Command::PushAck),
            0x0A => Ok(Command::ADeny),
            0x0B => Ok(Command::UDeny),
            0x0C => Ok(Command::Add),
            0x0D => Ok(Command::Del),
            0x0E => Ok(Command::Alive),
            _ => Err(UnknownCommand { byte }),
        }
    }
}

impl From<Command> for u8 {
    /// The wire byte of a command.
    fn from(value: Command) -> (byte: u8) {
        value.to_byte()
    }
}

impl FromSpecImpl<Command> for u8 {
    open spec fn obeys_from_spec() -> bool {
        true
    }

    open spec fn from_spec(value: Command) -> u8 {
        value.wire_byte()
    }
}

impl PartialEq<Command> for u8 {
    /// A byte equals a command where it is the wire byte of the command.
    fn eq(&self, other: &Command) -> (equal: bool) {
        *self == other.to_byte()
    }
}

impl PartialEqSpecImpl<Command> for u8 {
    open spec fn obeys_eq_spec() -> bool {
        true
    }

    open spec fn eq_spec(&self, other: &Command) -> bool {
        *self == other.wire_byte()
    }
}

/// Decoding the wire byte of a command gives the command back.
pub proof fn lemma_command_roundtrip(command: Command)
    ensures
        command.wire_byte() <= 0x0E,
        command_of(command.wire_byte()) == Some(command),
{
}

/// A byte is bound to a command exactly when it is at most `0x0E`, and then
/// it is the wire byte of that command.
pub proof fn lemma_command_of_byte(byte: u8)
    ensures
        command_of(byte) is Some <==> byte <= 0x0E,
        command_of(byte) matches Some(command) ==> command.wire_byte() == byte,
{
}

/// No two commands share a wire byte.
pub proof fn lemma_wire_byte_injective(a: Command, b: Command)
    requires
        a.wire_byte() == b.wire_byte(),
    ensures
        a == b,
{
    lemma_command_roundtrip(a);
    lemma_command_roundtrip(b);
}

/// Mathematical model of a request: the header fields and the payload bytes.
pub struct RequestView {
    pub command_id: u8,
    pub hop_count: u8,
    pub source_addr: u32,
    pub dest_addr: u32,
    pub forwarded_by_addr: u32,
    pub request_id: u8,
    pub request_part: u8,
    pub request_count: u8,
    pub payload: Seq<u8>,
}

/// One request of the protocol, as carried by one frame.
#[derive(Debug, Clone, Copy, PartialEq, Eq)]
pub struct PFPRequest {
    /// Wire byte of the command.
    pub command_id: u8,
    pub hop_count: u8,
    pub source_addr: u32,
    pub dest_addr: u32,
    pub forwarded_by_addr: u32,
    pub request_id: u8,
    pub request_part: u8,
    pub request_count: u8,
    /// Always `PAYLOAD_SIZE` bytes, zero-padded when unused.
    pub payload: [u8; PAYLOAD_SIZE],
}

impl View for PFPRequest {
    type V = RequestView;

    open spec fn view(&self) -> RequestView {
        RequestView {
            command_id: self.command_id,
            hop_count: self.hop_count,
            source_addr: self.source_addr,
            dest_addr: self.dest_addr,
            forwarded_by_addr: self.forwarded_by_addr,
            request_id: self.request_id,
            request_part: self.request_part,
            request_count: self.request_count,
            payload: self.payload@,
        }
    }
}

impl RequestView {
    /// A request that can travel: its command byte is bound to a command and
    /// its payload has the fixed size.
    pub open spec fn valid(self) -> bool {
        &&& command_of(self.command_id) is Some
        &&& self.payload.len() == PAYLOAD_SIZE
    }
}

/// The four bytes of `value`, most significant first.
pub open spec fn u32_to_be(value: u32) -> Seq<u8> {
    seq![
        (value / 0x100_0000) as u8,
        (value / 0x1_0000 % 0x100) as u8,
        (value / 0x100 % 0x100) as u8,
        (value % 0x100) as u8,
    ]
}

/// The number whose bytes, most significant first, are the first four of
/// `bytes`.
pub open spec fn u32_from_be(bytes: Seq<u8>) -> u32
    recommends
        bytes.len() >= 4,
{
    (bytes[0] * 0x100_0000 + bytes[1] * 0x1_0000 + bytes[2] * 0x100 + bytes[3]) as u32
}

/// A payload of `PAYLOAD_SIZE` bytes that starts with `prefix` and is zero
/// after it.
pub open spec fn padded_payload(prefix: Seq<u8>) -> Seq<u8>
    recommends
        prefix.len() <= PAYLOAD_SIZE,
{
    Seq::new(PAYLOAD_SIZE as nat, |i: int| if i < prefix.len() { prefix[i] } else { 0u8 })
}

/// The wire layout of a request: the header fields in order, multi-byte
/// fields most significant byte first, then the payload verbatim.
pub open spec fn wire_bytes(request: RequestView) -> Seq<u8> {
    seq![request.command_id, request.hop_count]
        + u32_to_be(request.source_addr)
        + u32_to_be(request.dest_addr)
        + u32_to_be(request.forwarded_by_addr)
        + seq![request.request_id, request.request_part, request.request_count]
        + request.payload
}

/// The base-256 digits of a number of four such digits are found again by
/// division and remainder.
proof fn lemma_base_256_digits(d0: int, d1: int, d2: int, d3: int)
    requires
        0 <= d0 < 0x100,
        0 <= d1 < 0x100,
        0 <= d2 < 0x100,
        0 <= d3 < 0x100,
    ensures
        0 <= d0 * 0x100_0000 + d1 * 0x1_0000 + d2 * 0x100 + d3 < 0x1_0000_0000,
        (d0 * 0x100_0000 + d1 * 0x1_0000 + d2 * 0x100 + d3) / 0x100_0000 == d0,
        (d0 * 0x100_0000 + d1 * 0x1_0000 + d2 * 0x100 + d3) / 0x1_0000 % 0x100 == d1,
        (d0 * 0x100_0000 + d1 * 0x1_0000 + d2 * 0x100 + d3) / 0x100 % 0x100 == d2,
        (d0 * 0x100_0000 + d1 * 0x1_0000 + d2 * 0x100 + d3) % 0x100 == d3,
{
    let value = d0 * 0x100_0000 + d1 * 0x1_0000 + d2 * 0x100 + d3;
    assert(value / 0x1_0000 == d0 * 0x100 + d1);
    assert(value / 0x100 == d0 * 0x1_0000 + d1 * 0x100 + d2);
}

/// Reading back the bytes of a number gives the number.
pub proof fn lemma_u32_be_roundtrip(value: u32)
    ensures
        u32_to_be(value).len() == 4,
        u32_from_be(u32_to_be(value)) == value,
{
    let high = value / 0x1_0000;
    let low = value % 0x1_0000;
    assert(high / 0x100 == value / 0x100_0000);
    assert(value / 0x100 % 0x100 == low / 0x100);
    assert(value % 0x100 == low % 0x100);
}

/// Writing out the number read from four bytes gives those bytes.
pub proof fn lemma_u32_be_bytes_roundtrip(bytes: Seq<u8>)
    requires
        bytes.len() == 4,
    ensures
        u32_to_be(u32_from_be(bytes)) == bytes,
{
    lemma_base_256_digits(bytes[0] as int, bytes[1] as int, bytes[2] as int, bytes[3] as int);
    assert(u32_to_be(u32_from_be(bytes)) =~= bytes);
}

/// The big-endian bytes of `value`.
pub(crate) fn be_bytes_of(value: u32) -> (bytes: [u8; 4])
    ensures
        bytes@ == u32_to_be(value),
{
    let bytes: [u8; 4] = [
        (value / 0x100_0000) as u8,
        (value / 0x1_0000 % 0x100) as u8,
        (value / 0x100 % 0x100) as u8,
        (value % 0x100) as u8,
    ];
    assert(bytes@ =~= u32_to_be(value));
    bytes
}

/// Copies `src` into `dst` from index `at` on.
pub(crate) fn put_bytes<const N: usize>(dst: &mut [u8; N], at: usize, src: &[u8])
    requires
        at + src.len() <= N,
    ensures
        final(dst)@ == old(dst)@.subrange(0, at as int) + src@ + old(dst)@.subrange(
            at + src.len(),
            N as int,
        ),
{
    let mut i: usize = 0;
    while i < src.len()
        invariant
            at + src.len() <= N,
            i <= src.len(),
            dst@ == old(dst)@.subrange(0, at as int) + src@.subrange(0, i as int) + old(
                dst,
            )@.subrange(at + i, N as int),
        decreases src.len() - i,
    {
        dst[at + i] = src[i];
        i += 1;
    }
}

/// The model of a request that a bridge originates: no hops, addressed to
/// nobody in particular, a single part numbered 1.
pub open spec fn originated(command: Command, source_addr: u32, payload: Seq<u8>) -> RequestView {
    RequestView {
        command_id: command.wire_byte(),
        hop_count: 0,
        source_addr,
        dest_addr: 0,
        forwarded_by_addr: 0,
        request_id: 1,
        request_part: 0,
        request_count: 1,
        payload,
    }
}

impl PFPRequest {
    /// A discovery request from `source_addr`, with an empty payload.
    pub fn new_helop(source_addr: u32) -> (request: Self)
        ensures
            request@ == originated(Command::HeloP, source_addr, padded_payload(Seq::empty())),
            request@.valid(),
    {
        let request = Self::originate(Command::HeloP, source_addr, [0u8; 32]);
        assert(request@.payload =~= padded_payload(Seq::empty()));
        request
    }

    /// A topology update from `source_addr` that announces the device
    /// `new_device_addr`, whose address opens the payload, most significant
    /// byte first.
    pub fn new_add(source_addr: u32, new_device_addr: u32) -> (request: Self)
        ensures
            request@ == originated(
                Command::Add,
                source_addr,
                padded_payload(u32_to_be(new_device_addr)),
            ),
            request@.valid(),
    {
        Self::originate(Command::Add, source_addr, Self::address_payload(new_device_addr))
    }

    /// A topology update from `source_addr` about the lost device
    /// `lost_device_addr`, whose address opens the payload, most significant
    /// byte first. It travels under the same command code as an addition.
    pub fn new_del(source_addr: u32, lost_device_addr: u32) -> (request: Self)
        ensures
            request@ == originated(
                Command::Add,
                source_addr,
                padded_payload(u32_to_be(lost_device_addr)),
            ),
            request@.valid(),
    {
        Self::originate(Command::Add, source_addr, Self::address_payload(lost_device_addr))
    }

    fn originate(command: Command, source_addr: u32, payload: [u8; PAYLOAD_SIZE]) -> (request:
        Self)
        ensures
            request@ == originated(command, source_addr, payload@),
            request@.valid(),
    {
        Self {
            command_id: command.to_byte(),
            hop_count: 0,
            source_addr,
            dest_addr: 0,
            forwarded_by_addr: 0,
            request_id: 1,
            request_part: 0,
            request_count: 1,
            payload,
        }
    }

    fn address_payload(addr: u32) -> (payload: [u8; PAYLOAD_SIZE])
        ensures
            payload@ == padded_payload(u32_to_be(addr)),
    {
        let mut payload: [u8; PAYLOAD_SIZE] = [0u8; 32];
        let bytes = be_bytes_of(addr);
        put_bytes(&mut payload, 0, bytes.as_slice());
        assert(payload@ =~= padded_payload(u32_to_be(addr)));
        payload
    }

    /// The command of the request, if its command byte is bound to one.
    pub fn command(&self) -> (command: Option<Command>)
        ensures
            command == command_of(self.command_id),
    {
        match Command::from_byte(self.command_id) {
            Ok(command) => Some(command),
            Err(_) => None,
        }
    }

    /// Encodes the request in its wire layout.
    pub fn encode(&self) -> (frame: [u8; FRAME_SIZE])
        ensures
            frame@ == wire_bytes(self@),
    {
        let mut frame: [u8; FRAME_SIZE] = [0u8; 49];
        frame[0] = self.command_id;
        frame[1] = self.hop_count;
        let source = be_bytes_of(self.source_addr);
        put_bytes(&mut frame, 2, source.as_slice());
        let dest = be_bytes_of(self.dest_addr);
        put_bytes(&mut frame, 6, dest.as_slice());
        let forwarded_by = be_bytes_of(self.forwarded_by_addr);
        put_bytes(&mut frame, 10, forwarded_by.as_slice());
        frame[14] = self.request_id;
        frame[15] = self.request_part;
        frame[16] = self.request_count;
        put_bytes(&mut frame, HEADER_SIZE, self.payload.as_slice());
        assert(frame@ =~= wire_bytes(self@));
        frame
    }
}

} // verus!
