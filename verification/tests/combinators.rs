use nom::bytes::complete::take;
use nom::combinator::verify;
use nom::error::{Error, ErrorKind};
use nom::number::complete::{be_u32, be_u8};
use nom::sequence::tuple;
use pfp_bridge::protocol::{PFPRequest, FRAME_SIZE, PAYLOAD_SIZE};
use pfp_bridge::protocol_parser::{parse, parse_push_payload, DecodeError};

/// The frame grammar written with parser combinators: the verdict on a byte
/// string as the decoder of this crate words it.
fn by_combinators(input: &[u8]) -> Result<(PFPRequest, &[u8]), DecodeError> {
    let parsed: Result<_, nom::Err<Error<&[u8]>>> = tuple((
        verify(be_u8, |byte: &u8| *byte <= 0x0E),
        be_u8,
        be_u32,
        be_u32,
        be_u32,
        be_u8,
        be_u8,
        be_u8,
        take(PAYLOAD_SIZE),
    ))(input);
    match parsed {
        Ok((rest, fields)) => {
            let mut payload = [0u8; PAYLOAD_SIZE];
            payload.copy_from_slice(fields.8);
            Ok((
                PFPRequest {
                    command_id: fields.0,
                    hop_count: fields.1,
                    source_addr: fields.2,
                    dest_addr: fields.3,
                    forwarded_by_addr: fields.4,
                    request_id: fields.5,
                    request_part: fields.6,
                    request_count: fields.7,
                    payload,
                },
                rest,
            ))
        }
        Err(nom::Err::Error(error)) if error.code == ErrorKind::Verify => {
            Err(DecodeError::InvalidCommand)
        }
        Err(_) => Err(DecodeError::Truncated),
    }
}

fn push_by_combinators(input: &[u8]) -> Result<(u32, u32), DecodeError> {
    let parsed: Result<_, nom::Err<Error<&[u8]>>> = tuple((be_u32, be_u32))(input);
    match parsed {
        Ok((_, fields)) => Ok(fields),
        Err(_) => Err(DecodeError::Truncated),
    }
}

fn noise(seed: &mut u32) -> u32 {
    *seed ^= *seed << 13;
    *seed ^= *seed >> 17;
    *seed ^= *seed << 5;
    *seed
}

#[test]
fn decoder_agrees_with_combinators_on_every_length() {
    let mut seed: u32 = 0xC0FF_EE11;
    for len in 0..=(FRAME_SIZE + 8) {
        for round in 0..40 {
            let mut bytes: Vec<u8> = (0..len).map(|_| noise(&mut seed) as u8).collect();
            if len > 0 && round % 2 == 0 {
                bytes[0] %= 15;
            }
            assert_eq!(parse(&bytes), by_combinators(&bytes));
        }
    }
}

#[test]
fn decoder_agrees_with_combinators_on_every_command_byte() {
    for first in 0u8..=255 {
        let mut bytes = vec![0x5Au8; FRAME_SIZE + 2];
        bytes[0] = first;
        assert_eq!(parse(&bytes), by_combinators(&bytes));
        assert_eq!(parse(&bytes[..1]), by_combinators(&bytes[..1]));
    }
}

#[test]
fn push_decoder_agrees_with_combinators() {
    let mut seed: u32 = 0x0BAD_CAFE;
    for len in 0..=PAYLOAD_SIZE {
        for _ in 0..20 {
            let bytes: Vec<u8> = (0..len).map(|_| noise(&mut seed) as u8).collect();
            assert_eq!(parse_push_payload(&bytes), push_by_combinators(&bytes));
        }
    }
}
