//! Decoder for the PFP wire layout.

use crate::protocol::{
    command_of, lemma_u32_be_roundtrip, Command, lemma_u32_be_bytes_roundtrip, u32_from_be, u32_to_be, wire_bytes, PFPRequest, RequestView, FRAME_SIZE,
    HEADER_SIZE, PAYLOAD_SIZE,
};
use vstd::prelude::*;
use vstd::slice::slice_subrange;

verus! {

/// Why a byte string is not a request.
#[derive(Debug, Clone, Copy, PartialEq, Eq, Structural)]
pub enum DecodeError {
    /// The first byte is bound to no command.
    InvalidCommand,
    /// The input ends before the last field.
    Truncated,
}

/// Size of the two fields at the start of a push payload.
pub const PUSH_FIELDS_SIZE: usize = 8;

/// What a byte string decodes to: the request held by its first
/// `FRAME_SIZE` bytes and the bytes after them, or the reason why there is
/// none. The command byte is judged first, so a short input that starts with
/// an unknown command is an `InvalidCommand`.
pub open spec fn decoded(bytes: Seq<u8>) -> Result<(RequestView, Seq<u8>), DecodeError> {
    if bytes.len() == 0 {
        Err(DecodeError::Truncated)
    } else if command_of(bytes[0]) is None {
        Err(DecodeError::InvalidCommand)
    } else if bytes.len() < FRAME_SIZE {
        Err(DecodeError::Truncated)
    } else {
        Ok(
            (
                RequestView {
                    command_id: bytes[0],
                    hop_count: bytes[1],
                    source_addr: u32_from_be(bytes.subrange(2, 6)),
                    dest_addr: u32_from_be(bytes.subrange(6, 10)),
                    forwarded_by_addr: u32_from_be(bytes.subrange(10, 14)),
                    request_id: bytes[14],
                    request_part: bytes[15],
                    request_count: bytes[16],
                    payload: bytes.subrange(HEADER_SIZE as int, FRAME_SIZE as int),
                },
                bytes.skip(FRAME_SIZE as int),
            ),
        )
    }
}

/// What a push payload decodes to: the device address and the intensity
/// value held by its first eight bytes.
pub open spec fn decoded_push(payload: Seq<u8>) -> Result<(u32, u32), DecodeError> {
    if payload.len() < PUSH_FIELDS_SIZE {
        Err(DecodeError::Truncated)
    } else {
        Ok((u32_from_be(payload.subrange(0, 4)), u32_from_be(payload.subrange(4, 8))))
    }
}

/// Reads the big-endian number at `input[at..at + 4]`.
fn be_u32_at(input: &[u8], at: usize) -> (value: u32)
    requires
        at + 4 <= input.len(),
    ensures
        value == u32_from_be(input@.subrange(at as int, at + 4)),
{
    let b0: u32 = input[at] as u32;
    let b1: u32 = input[at + 1] as u32;
    let b2: u32 = input[at + 2] as u32;
    let b3: u32 = input[at + 3] as u32;
    b0 * 0x100_0000 + b1 * 0x1_0000 + b2 * 0x100 + b3
}

/// Decodes the request at the start of `input` and returns it with the bytes
/// that follow it.
pub fn parse<'a>(input: &'a [u8]) -> (result: Result<(PFPRequest, &'a [u8]), DecodeError>)
    ensures
        result is Ok <==> input@.len() >= FRAME_SIZE && input@[0] <= 0x0E,
        result matches Ok((request, rest)) ==> decoded(input@) == Ok::<
            (RequestView, Seq<u8>),
            DecodeError,
        >((request@, rest@)),
        result matches Err(error) ==> decoded(input@) == Err::<
            (RequestView, Seq<u8>),
            DecodeError,
        >(error),
{
    if input.len() == 0 {
        return Err(DecodeError::Truncated);
    }
    let command_id = input[0];
    if command_id > 0x0E {
        return Err(DecodeError::InvalidCommand);
    }
    if input.len() < FRAME_SIZE {
        return Err(DecodeError::Truncated);
    }
    let mut payload: [u8; PAYLOAD_SIZE] = [0u8; 32];
    let mut i: usize = 0;
    while i < PAYLOAD_SIZE
        invariant
            i <= PAYLOAD_SIZE,
            input@.len() >= FRAME_SIZE,
            forall|k: int| 0 <= k < i ==> payload@[k] == input@[HEADER_SIZE + k],
        decreases PAYLOAD_SIZE - i,
    {
        payload[i] = input[HEADER_SIZE + i];
        i += 1;
    }
    let request = PFPRequest {
        command_id,
        hop_count: input[1],
        source_addr: be_u32_at(input, 2),
        dest_addr: be_u32_at(input, 6),
        forwarded_by_addr: be_u32_at(input, 10),
        request_id: input[14],
        request_part: input[15],
        request_count: input[16],
        payload,
    };
    let rest = slice_subrange(input, FRAME_SIZE, input.len());
    assert(request@.payload =~= input@.subrange(HEADER_SIZE as int, FRAME_SIZE as int));
    assert(rest@ =~= input@.skip(FRAME_SIZE as int));
    Ok((request, rest))
}

/// Decodes the two fields at the start of a push payload: the address of the
/// device that measured, then the intensity it measured.
pub fn parse_push_payload(payload: &[u8]) -> (result: Result<(u32, u32), DecodeError>)
    ensures
        result == decoded_push(payload@),
        result is Ok <==> payload@.len() >= PUSH_FIELDS_SIZE,
{
    if payload.len() < PUSH_FIELDS_SIZE {
        return Err(DecodeError::Truncated);
    }
    Ok((be_u32_at(payload, 0), be_u32_at(payload, 4)))
}

/// What a request reports where it is a data push: the address of the
/// device that measured and the intensity it measured.
pub open spec fn push_reading_of(request: RequestView) -> Option<(u32, u32)> {
    if request.command_id == Command::Push.wire_byte() && decoded_push(request.payload) is Ok {
        Some(decoded_push(request.payload)->Ok_0)
    } else {
        None
    }
}

/// The reading that a request carries, if it is a data push.
pub fn push_reading(request: &PFPRequest) -> (reading: Option<(u32, u32)>)
    ensures
        reading == push_reading_of(request@),
        reading is Some <==> request.command_id == 0x08,
{
    if request.command_id == Command::Push {
        match parse_push_payload(request.payload.as_slice()) {
            Ok(reading) => Some(reading),
            Err(_) => None,
        }
    } else {
        None
    }
}

/// Decoding undoes encoding: the bytes of a valid request, followed by
/// anything, decode to that request and leave what followed.
pub proof fn lemma_decode_encode(request: RequestView, tail: Seq<u8>)
    requires
        request.valid(),
    ensures
        wire_bytes(request).len() == FRAME_SIZE,
        decoded(wire_bytes(request) + tail) == Ok::<(RequestView, Seq<u8>), DecodeError>(
            (request, tail),
        ),
{
    let bytes = wire_bytes(request) + tail;
    lemma_u32_be_roundtrip(request.source_addr);
    lemma_u32_be_roundtrip(request.dest_addr);
    lemma_u32_be_roundtrip(request.forwarded_by_addr);
    assert(bytes.subrange(2, 6) =~= u32_to_be(request.source_addr));
    assert(bytes.subrange(6, 10) =~= u32_to_be(request.dest_addr));
    assert(bytes.subrange(10, 14) =~= u32_to_be(request.forwarded_by_addr));
    assert(bytes.subrange(HEADER_SIZE as int, FRAME_SIZE as int) =~= request.payload);
    assert(bytes.skip(FRAME_SIZE as int) =~= tail);
}

/// A byte string of at least `FRAME_SIZE` bytes is the concatenation of its
/// field ranges and what follows them.
proof fn lemma_frame_ranges(bytes: Seq<u8>)
    requires
        bytes.len() >= FRAME_SIZE,
    ensures
        seq![bytes[0], bytes[1]] + bytes.subrange(2, 6) + bytes.subrange(6, 10) + bytes.subrange(
            10,
            14,
        ) + seq![bytes[14], bytes[15], bytes[16]] + bytes.subrange(
            HEADER_SIZE as int,
            FRAME_SIZE as int,
        ) + bytes.skip(FRAME_SIZE as int) == bytes,
{
    assert(seq![bytes[0], bytes[1]] + bytes.subrange(2, 6) + bytes.subrange(6, 10)
        + bytes.subrange(10, 14) + seq![bytes[14], bytes[15], bytes[16]] + bytes.subrange(
        HEADER_SIZE as int,
        FRAME_SIZE as int,
    ) + bytes.skip(FRAME_SIZE as int) =~= bytes);
}

/// Encoding undoes decoding: whatever decodes is a valid request, and its
/// bytes followed by the rest are the input.
pub proof fn lemma_encode_decode(bytes: Seq<u8>)
    requires
        decoded(bytes) is Ok,
    ensures
        decoded(bytes)->Ok_0.0.valid(),
        wire_bytes(decoded(bytes)->Ok_0.0) + decoded(bytes)->Ok_0.1 == bytes,
{
    lemma_u32_be_bytes_roundtrip(bytes.subrange(2, 6));
    lemma_u32_be_bytes_roundtrip(bytes.subrange(6, 10));
    lemma_u32_be_bytes_roundtrip(bytes.subrange(10, 14));
    lemma_frame_ranges(bytes);
}

} // verus!
